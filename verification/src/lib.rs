//! Retained widget state for a retained-mode GUI toolkit.
//!
//! A toolkit such as iced rebuilds the widget tree from scratch on every
//! pass, allocating fresh per-widget state (focus, scroll offsets,
//! animation phase) each time. This crate keeps that state alive across
//! rebuilds: a [`Tree`] owns the retained state of a subtree, and a
//! [`Persistent`] adapter borrows it for the duration of a single pass,
//! reconciles it against the child's current composition, and hands it to
//! the child in place of the ephemeral state the host would allocate.
//!
//! The two pieces of logic the crate proves are the single-writer borrow
//! discipline on the state container and the reconciliation (diff) step
//! that matches retained state against the child's current shape.

mod adapter;
mod state;

pub use adapter::BorrowError;
pub use adapter::Persistent;
pub use adapter::Tree;
pub use adapter::after_borrow;
pub use adapter::after_release;
pub use adapter::borrowed_state;
pub use adapter::can_borrow;
pub use adapter::lemma_borrow_is_exclusive;
pub use adapter::lemma_pass_is_transparent;
pub use adapter::lemma_state_persists;
pub use adapter::persistent;
pub use state::Shape;
pub use state::ShapeView;
pub use state::StateNode;
pub use state::StateNodeView;
pub use state::diff;
pub use state::empty_state;
pub use state::fresh;
pub use state::fresh_state;
pub use state::lemma_diff_keeps_state;
pub use state::lemma_diff_same_shape;
pub use state::lemma_diff_shape;
pub use state::lemma_fresh_shape;
pub use state::shape_of;
pub use state::shape_view;
pub use state::spec_diff;
pub use state::state_node_view;
