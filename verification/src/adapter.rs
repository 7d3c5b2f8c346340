//! The state container and the per-pass adapter.
//!
//! A [`Tree`] owns the retained state of one subtree and outlives the
//! widgets built from it. A [`Persistent`] adapter is created fresh on
//! every pass: it checks the retained record out of the container —
//! exclusively, with an explicit error on a second concurrent borrow —
//! reconciles it against the child's current shape, stands in for the
//! child while the host drives the pass, and checks the (possibly
//! mutated) record back in when the pass ends.

use vstd::prelude::*;

use crate::state::Shape;
use crate::state::ShapeView;
use crate::state::StateNode;
use crate::state::StateNodeView;
use crate::state::diff;
use crate::state::empty_state;
use crate::state::lemma_diff_same_shape;
use crate::state::shape_of;
use crate::state::spec_diff;

verus! {

/// The error reported when an adapter attempts to borrow a state
/// container whose retained record is already checked out by another
/// adapter.
#[derive(Debug, Clone, Copy, PartialEq, Eq, Structural)]
pub struct BorrowError;

/// A state container: owns the retained state of one subtree across
/// passes. It is created empty, exposes no mutation of its own, and all
/// mutation happens through the record an adapter checks out of it.
///
/// Its model is the retained record, or `None` while the record is
/// checked out.
pub struct Tree {
    slot: Option<StateNode>,
}

impl View for Tree {
    type V = Option<StateNodeView>;

    closed spec fn view(&self) -> Option<StateNodeView> {
        match self.slot {
            Some(n) => Some(n@),
            None => None,
        }
    }
}

/// Whether a container will grant a borrow: it does exactly when its
/// record is not already checked out.
pub open spec fn can_borrow(t: Option<StateNodeView>) -> bool {
    t is Some
}

/// The record a granted borrow hands to the adapter.
pub open spec fn borrowed_state(t: Option<StateNodeView>) -> StateNodeView
    recommends
        can_borrow(t),
{
    t->0
}

/// The container after a granted borrow: checked out.
pub open spec fn after_borrow(t: Option<StateNodeView>) -> Option<StateNodeView> {
    None
}

/// The container after an adapter checks record `s` back in.
pub open spec fn after_release(s: StateNodeView) -> Option<StateNodeView> {
    Some(s)
}

impl Tree {
    /// Creates a container holding the empty, stateless record, ready to
    /// be borrowed by the first pass.
    pub fn empty() -> (r: Self)
        ensures
            r@ == after_release(empty_state()),
    {
        let r = Tree { slot: Some(StateNode { tag: 0, value: 0, children: Vec::new() }) };
        proof {
            assert(r@->0.children =~= empty_state().children);
            assert(r@->0 =~= empty_state());
        }
        r
    }
}

/// The adapter for one pass: it holds the child's composition for the
/// pass and the retained record checked out of the container. The host
/// protocol's operations are forwarded to the child with this record in
/// place of a fresh one; whatever the child writes into the record during
/// the pass is checked back in by [`Persistent::finish`].
pub struct Persistent {
    /// The composition of the wrapped child for this pass.
    pub shape: Shape,
    /// The retained record, exclusively held for this pass.
    pub state: StateNode,
}

impl Persistent {
    /// Wraps `child` for one pass, borrowing the retained record out of
    /// `tree`. The borrow is exclusive: while a record is checked out,
    /// a second borrow of the same container fails with [`BorrowError`]
    /// and leaves the container untouched.
    pub fn new(child: Shape, tree: &mut Tree) -> (r: Result<Persistent, BorrowError>)
        ensures
            r is Ok <==> can_borrow(old(tree)@),
            r is Ok ==> final(tree)@ == after_borrow(old(tree)@),
            r matches Ok(p) ==> p.state@ == borrowed_state(old(tree)@) && p.shape@ == child@,
            r is Err ==> final(tree)@ == old(tree)@,
    {
        match tree.slot.take() {
            Some(state) => Ok(Persistent { shape: child, state }),
            None => Err(BorrowError),
        }
    }

    /// Reconciles the retained record against the child's shape, as the
    /// host does before computing layout: matching sub-records keep
    /// their state, stale ones are dropped or replaced, new positions
    /// get fresh ones.
    pub fn reconcile(&mut self)
        ensures
            final(self).state@ == spec_diff(old(self).state@, old(self).shape@),
            final(self).shape@ == old(self).shape@,
    {
        let reconciled = diff(&self.state, &self.shape);
        self.state = reconciled;
    }

    /// Ends the pass: checks the retained record back into `tree`,
    /// releasing the borrow. The next pass over the same container will
    /// borrow exactly this record.
    pub fn finish(self, tree: &mut Tree)
        requires
            !can_borrow(old(tree)@),
        ensures
            final(tree)@ == after_release(self.state@),
    {
        tree.slot = Some(self.state);
    }
}

/// Wraps `child` in a [`Persistent`] adapter borrowing `tree`, the usual
/// entry point of the crate.
pub fn persistent(child: Shape, tree: &mut Tree) -> (r: Result<Persistent, BorrowError>)
    ensures
        r is Ok <==> can_borrow(old(tree)@),
        r is Ok ==> final(tree)@ == after_borrow(old(tree)@),
        r matches Ok(p) ==> p.state@ == borrowed_state(old(tree)@) && p.shape@ == child@,
        r is Err ==> final(tree)@ == old(tree)@,
{
    Persistent::new(child, tree)
}

/// Law (exclusive borrow): once a borrow has been granted, no further
/// borrow of the same container can succeed until the record is checked
/// back in.
pub proof fn lemma_borrow_is_exclusive(t: Option<StateNodeView>)
    ensures
        !can_borrow(after_borrow(t)),
{
}

/// Law (persistence): the record checked in at the end of one pass is
/// available again, unchanged, and is exactly what the next pass borrows.
pub proof fn lemma_state_persists(s: StateNodeView)
    ensures
        can_borrow(after_release(s)),
        borrowed_state(after_release(s)) == s,
{
}

/// Law (transparency): across two passes whose child composition did not
/// change, the adapter is invisible — the record the next pass hands to
/// the child after reconciliation is exactly the record the child left
/// behind at the end of the previous pass.
pub proof fn lemma_pass_is_transparent(s: StateNodeView, sh: ShapeView)
    requires
        shape_of(s) == sh,
    ensures
        spec_diff(borrowed_state(after_release(s)), sh) == s,
{
    lemma_diff_same_shape(s, sh);
}

} // verus!
