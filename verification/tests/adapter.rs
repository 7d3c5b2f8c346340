use persistent_widget::BorrowError;
use persistent_widget::Persistent;
use persistent_widget::Shape;
use persistent_widget::StateNode;
use persistent_widget::Tree;
use persistent_widget::diff;
use persistent_widget::fresh;
use persistent_widget::persistent;

fn leaf_shape(tag: u64) -> Shape {
    Shape { tag, children: Vec::new() }
}

fn row_shape(tag: u64, children: Vec<Shape>) -> Shape {
    Shape { tag, children }
}

fn leaf_state(tag: u64, value: u64) -> StateNode {
    StateNode { tag, value, children: Vec::new() }
}

#[test]
fn empty_container_starts_stateless() {
    let mut tree = Tree::empty();
    let adapter = persistent(leaf_shape(0), &mut tree).unwrap();
    assert_eq!(adapter.state.tag, 0);
    assert_eq!(adapter.state.value, 0);
    assert!(adapter.state.children.is_empty());
}

#[test]
fn second_borrow_fails_and_leaves_state_intact() {
    let mut tree = Tree::empty();
    let mut first = persistent(leaf_shape(7), &mut tree).unwrap();
    first.reconcile();
    first.state.value = 41;

    // An overlapping second adapter over the same container must fail
    // immediately instead of corrupting the checked-out state.
    let second = persistent(leaf_shape(7), &mut tree);
    assert_eq!(second.err(), Some(BorrowError));

    first.finish(&mut tree);
    let replay = persistent(leaf_shape(7), &mut tree).unwrap();
    assert_eq!(replay.state.tag, 7);
    assert_eq!(replay.state.value, 41);
}

#[test]
fn borrow_succeeds_again_after_finish() {
    let mut tree = Tree::empty();
    let first = persistent(leaf_shape(3), &mut tree).unwrap();
    first.finish(&mut tree);
    let second = persistent(leaf_shape(3), &mut tree);
    assert!(second.is_ok());
}

#[test]
fn state_mutated_in_one_pass_is_seen_by_the_next() {
    let mut tree = Tree::empty();

    // Pass 1: the child scrolls; its widget writes the offset into the
    // retained record.
    let mut pass1 = persistent(row_shape(1, vec![leaf_shape(2)]), &mut tree).unwrap();
    pass1.reconcile();
    pass1.state.children[0].value = 123;
    pass1.finish(&mut tree);

    // Pass 2: the subtree is rebuilt from scratch with the same
    // composition; the offset must still be there after reconciliation.
    let mut pass2 = persistent(row_shape(1, vec![leaf_shape(2)]), &mut tree).unwrap();
    pass2.reconcile();
    assert_eq!(pass2.state.children[0].value, 123);
}

#[test]
fn unchanged_composition_keeps_the_whole_record() {
    let shape = row_shape(1, vec![leaf_shape(2), row_shape(3, vec![leaf_shape(4)])]);
    let old = StateNode {
        tag: 1,
        value: 10,
        children: vec![
            leaf_state(2, 20),
            StateNode { tag: 3, value: 30, children: vec![leaf_state(4, 40)] },
        ],
    };
    let new = diff(&old, &shape);
    assert_eq!(new.value, 10);
    assert_eq!(new.children[0].value, 20);
    assert_eq!(new.children[1].value, 30);
    assert_eq!(new.children[1].children[0].value, 40);
}

#[test]
fn removed_sub_elements_drop_their_state() {
    let old = StateNode {
        tag: 1,
        value: 5,
        children: vec![leaf_state(2, 21), leaf_state(2, 22), leaf_state(2, 23)],
    };
    let new = diff(&old, &row_shape(1, vec![leaf_shape(2)]));
    assert_eq!(new.value, 5);
    assert_eq!(new.children.len(), 1);
    assert_eq!(new.children[0].value, 21);
}

#[test]
fn added_sub_elements_start_from_default_state() {
    let old = StateNode { tag: 1, value: 5, children: vec![leaf_state(2, 21)] };
    let new = diff(&old, &row_shape(1, vec![leaf_shape(2), leaf_shape(2)]));
    assert_eq!(new.children.len(), 2);
    assert_eq!(new.children[0].value, 21);
    assert_eq!(new.children[1].tag, 2);
    assert_eq!(new.children[1].value, 0);
}

#[test]
fn changed_sub_element_kind_is_replaced_not_misapplied() {
    let old = StateNode { tag: 1, value: 5, children: vec![leaf_state(2, 21), leaf_state(3, 31)] };
    // The second sub-element changes kind; its stale state must not be
    // applied to the new widget.
    let new = diff(&old, &row_shape(1, vec![leaf_shape(2), leaf_shape(9)]));
    assert_eq!(new.children[0].value, 21);
    assert_eq!(new.children[1].tag, 9);
    assert_eq!(new.children[1].value, 0);
}

#[test]
fn all_sub_elements_removed_leaves_none_behind() {
    let old = StateNode { tag: 1, value: 5, children: vec![leaf_state(2, 21), leaf_state(3, 31)] };
    let new = diff(&old, &leaf_shape(1));
    assert_eq!(new.value, 5);
    assert!(new.children.is_empty());
}

#[test]
fn changed_root_kind_rebuilds_the_whole_record() {
    let old = StateNode { tag: 1, value: 5, children: vec![leaf_state(2, 21)] };
    let new = diff(&old, &row_shape(8, vec![leaf_shape(2)]));
    assert_eq!(new.tag, 8);
    assert_eq!(new.value, 0);
    assert_eq!(new.children[0].value, 0);
}

#[test]
fn fresh_record_mirrors_the_shape() {
    let shape = row_shape(1, vec![leaf_shape(2), row_shape(3, vec![leaf_shape(4)])]);
    let record = fresh(&shape);
    assert_eq!(record.tag, 1);
    assert_eq!(record.value, 0);
    assert_eq!(record.children.len(), 2);
    assert_eq!(record.children[0].tag, 2);
    assert_eq!(record.children[1].tag, 3);
    assert_eq!(record.children[1].children[0].tag, 4);
}

#[test]
fn adapter_construction_matches_free_function() {
    let mut tree_a = Tree::empty();
    let mut tree_b = Tree::empty();
    let by_fn = persistent(leaf_shape(6), &mut tree_a).unwrap();
    let by_new = Persistent::new(leaf_shape(6), &mut tree_b).unwrap();
    assert_eq!(by_fn.state.tag, by_new.state.tag);
    assert_eq!(by_fn.state.value, by_new.state.value);
    assert_eq!(by_fn.shape.tag, by_new.shape.tag);
}

#[test]
fn reconcile_on_empty_container_builds_fresh_record() {
    let mut tree = Tree::empty();
    let mut pass = persistent(row_shape(5, vec![leaf_shape(6)]), &mut tree).unwrap();
    // The container's stateless record does not match the child's kind,
    // so reconciliation rebuilds the record from the child's shape.
    pass.reconcile();
    assert_eq!(pass.state.tag, 5);
    assert_eq!(pass.state.value, 0);
    assert_eq!(pass.state.children.len(), 1);
    assert_eq!(pass.state.children[0].tag, 6);
}
