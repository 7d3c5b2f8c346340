//! The retained-state record and the reconciliation (diff) step.
//!
//! The host toolkit keeps one mutable state record per widget, arranged as
//! a tree that mirrors the widget composition: each node carries a tag
//! identifying the kind of widget it belongs to, the widget's mutable
//! state, and the records of its sub-widgets. When the composition changes
//! between passes, retained records are reconciled against the new shape:
//! a record whose tag still matches keeps its state, stale records are
//! discarded, and records for new sub-widgets start from their default
//! state.

use vstd::prelude::*;

verus! {

/// The composition of a child element for one pass, as far as the
/// retained state cares: the tag of each widget and the shapes of its
/// sub-elements, in order.
pub struct Shape {
    pub tag: u64,
    pub children: Vec<Shape>,
}

/// One retained state record: the tag of the widget it was created for,
/// the widget's mutable state, and the records of its sub-widgets.
pub struct StateNode {
    pub tag: u64,
    pub value: u64,
    pub children: Vec<StateNode>,
}

/// Mathematical model of a [`Shape`].
#[verifier::ext_equal]
pub struct ShapeView {
    pub tag: u64,
    pub children: Seq<ShapeView>,
}

/// Mathematical model of a [`StateNode`].
#[verifier::ext_equal]
pub struct StateNodeView {
    pub tag: u64,
    pub value: u64,
    pub children: Seq<StateNodeView>,
}

/// The model of a [`Shape`], node by node.
pub open spec fn shape_view(s: Shape) -> ShapeView
    decreases s,
{
    ShapeView {
        tag: s.tag,
        // the closure is evaluated in range only; the other branch keeps
        // the recursion well-founded
        children: Seq::new(
            s.children@.len(),
            |i: int|
                if 0 <= i < s.children@.len() {
                    shape_view(s.children@[i])
                } else {
                    ShapeView { tag: 0, children: Seq::empty() }
                },
        ),
    }
}

/// The model of a [`StateNode`], record by record.
pub open spec fn state_node_view(n: StateNode) -> StateNodeView
    decreases n,
{
    StateNodeView {
        tag: n.tag,
        value: n.value,
        children: Seq::new(
            n.children@.len(),
            |i: int|
                if 0 <= i < n.children@.len() {
                    state_node_view(n.children@[i])
                } else {
                    StateNodeView { tag: 0, value: 0, children: Seq::empty() }
                },
        ),
    }
}

/// The retained record of a stateless container: the tag reserved for
/// widgets that keep no state of their own, the default state, and no
/// sub-records. A fresh state container starts here.
pub open spec fn empty_state() -> StateNodeView {
    StateNodeView { tag: 0, value: 0, children: Seq::empty() }
}

/// The record a widget of the given shape starts from: its tag, the
/// default state, and fresh records for each sub-widget.
pub open spec fn fresh_state(sh: ShapeView) -> StateNodeView
    decreases sh,
{
    StateNodeView {
        tag: sh.tag,
        value: 0,
        children: Seq::new(
            sh.children.len(),
            |i: int|
                if 0 <= i < sh.children.len() {
                    fresh_state(sh.children[i])
                } else {
                    empty_state()
                },
        ),
    }
}

/// The shape a retained record conforms to: its tags, position by
/// position.
pub open spec fn shape_of(n: StateNodeView) -> ShapeView
    decreases n,
{
    ShapeView {
        tag: n.tag,
        children: Seq::new(
            n.children.len(),
            |i: int|
                if 0 <= i < n.children.len() {
                    shape_of(n.children[i])
                } else {
                    ShapeView { tag: 0, children: Seq::empty() }
                },
        ),
    }
}

/// Reconciliation of a retained record against the child's current
/// shape. A record whose tag matches keeps its state; its sub-records
/// are reconciled position by position, records past the end of the new
/// shape are dropped, and positions past the end of the old record get
/// fresh sub-records. A record whose tag no longer matches is replaced
/// wholesale by a fresh one.
pub open spec fn spec_diff(n: StateNodeView, sh: ShapeView) -> StateNodeView
    decreases sh,
{
    if n.tag == sh.tag {
        StateNodeView {
            tag: n.tag,
            value: n.value,
            children: Seq::new(
                sh.children.len(),
                |i: int|
                    if 0 <= i < sh.children.len() {
                        if i < n.children.len() {
                            spec_diff(n.children[i], sh.children[i])
                        } else {
                            fresh_state(sh.children[i])
                        }
                    } else {
                        empty_state()
                    },
            ),
        }
    } else {
        fresh_state(sh)
    }
}

impl View for Shape {
    type V = ShapeView;

    open spec fn view(&self) -> ShapeView {
        shape_view(*self)
    }
}

impl View for StateNode {
    type V = StateNodeView;

    open spec fn view(&self) -> StateNodeView {
        state_node_view(*self)
    }
}

/// Builds the retained record a widget of shape `sh` starts from: its
/// tag, the default state, and fresh records for every sub-widget.
pub fn fresh(sh: &Shape) -> (r: StateNode)
    ensures
        r@ == fresh_state(sh@),
    decreases *sh,
{
    let mut children: Vec<StateNode> = Vec::new();
    let mut i: usize = 0;
    while i < sh.children.len()
        invariant
            i <= sh.children.len(),
            children@.len() == i as int,
            forall|j: int| 0 <= j < i as int ==> children@[j]@ == fresh_state(sh@.children[j]),
        decreases sh.children.len() - i,
    {
        children.push(fresh(&sh.children[i]));
        i = i + 1;
    }
    let r = StateNode { tag: sh.tag, value: 0, children };
    proof {
        assert(r@.children =~= fresh_state(sh@).children);
        assert(r@ =~= fresh_state(sh@));
    }
    r
}

/// Reconciles a retained record against the child's current shape, as
/// [`spec_diff`] describes: matching records keep their state, stale
/// records are dropped or replaced, new positions get fresh records.
pub fn diff(n: &StateNode, sh: &Shape) -> (r: StateNode)
    ensures
        r@ == spec_diff(n@, sh@),
    decreases *sh,
{
    if n.tag != sh.tag {
        fresh(sh)
    } else {
        let mut children: Vec<StateNode> = Vec::new();
        let mut i: usize = 0;
        while i < sh.children.len()
            invariant
                i <= sh.children.len(),
                children@.len() == i as int,
                n.tag == sh.tag,
                forall|j: int|
                    0 <= j < i as int ==> children@[j]@ == (if j < n@.children.len() {
                        spec_diff(n@.children[j], sh@.children[j])
                    } else {
                        fresh_state(sh@.children[j])
                    }),
            decreases sh.children.len() - i,
        {
            if i < n.children.len() {
                children.push(diff(&n.children[i], &sh.children[i]));
            } else {
                children.push(fresh(&sh.children[i]));
            }
            i = i + 1;
        }
        let r = StateNode { tag: n.tag, value: n.value, children };
        proof {
            assert(r@.children =~= spec_diff(n@, sh@).children);
            assert(r@ =~= spec_diff(n@, sh@));
        }
        r
    }
}

/// Law: a fresh record conforms to the shape it was built for.
pub proof fn lemma_fresh_shape(sh: ShapeView)
    ensures
        shape_of(fresh_state(sh)) == sh,
    decreases sh,
{
    let f = fresh_state(sh);
    assert forall|i: int| 0 <= i < sh.children.len() implies #[trigger] shape_of(f).children[i]
        == sh.children[i] by {
        assert(f.children[i] == fresh_state(sh.children[i]));
        lemma_fresh_shape(sh.children[i]);
    }
    assert(shape_of(f).children =~= sh.children);
    assert(shape_of(f) =~= sh);
}

/// Law: reconciliation always yields a record that conforms to the new
/// shape — stale sub-records are dropped or replaced, never carried over
/// to a position they do not belong to, and every position of the new
/// shape is covered.
pub proof fn lemma_diff_shape(n: StateNodeView, sh: ShapeView)
    ensures
        shape_of(spec_diff(n, sh)) == sh,
    decreases sh,
{
    if n.tag == sh.tag {
        let d = spec_diff(n, sh);
        assert forall|i: int| 0 <= i < sh.children.len() implies #[trigger] shape_of(d).children[i]
            == sh.children[i] by {
            if i < n.children.len() {
                assert(d.children[i] == spec_diff(n.children[i], sh.children[i]));
                lemma_diff_shape(n.children[i], sh.children[i]);
            } else {
                assert(d.children[i] == fresh_state(sh.children[i]));
                lemma_fresh_shape(sh.children[i]);
            }
        }
        assert(shape_of(d).children =~= sh.children);
        assert(shape_of(d) =~= sh);
    } else {
        lemma_fresh_shape(sh);
    }
}

/// Law: a record whose tag still matches the new shape keeps its state
/// through reconciliation.
pub proof fn lemma_diff_keeps_state(n: StateNodeView, sh: ShapeView)
    requires
        n.tag == sh.tag,
    ensures
        spec_diff(n, sh).value == n.value,
{
}

/// Law: reconciling against an unchanged composition is the identity —
/// the adapter is invisible to a child whose shape did not change
/// between passes.
pub proof fn lemma_diff_same_shape(n: StateNodeView, sh: ShapeView)
    requires
        shape_of(n) == sh,
    ensures
        spec_diff(n, sh) == n,
    decreases sh,
{
    assert(sh.children.len() == n.children.len());
    let d = spec_diff(n, sh);
    assert forall|i: int| 0 <= i < sh.children.len() implies #[trigger] d.children[i]
        == n.children[i] by {
        assert(shape_of(n).children[i] == shape_of(n.children[i]));
        lemma_diff_same_shape(n.children[i], sh.children[i]);
    }
    assert(d.children =~= n.children);
    assert(d =~= n);
}

} // verus!
