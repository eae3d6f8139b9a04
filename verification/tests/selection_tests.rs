use editor_core::selection::ActionKind;
use editor_core::selection::SelectionMode;
use editor_core::selection::SelectionModel;

fn order_abcde() -> Vec<u64> {
    vec![1, 2, 3, 4, 5]
}

#[test]
fn replace_selects_exactly_the_subject() {
    let order: Vec<u64> = Vec::new();
    let mut m = SelectionModel::new();
    m.select(SelectionMode::Replace, 10, &order);
    m.select(SelectionMode::Replace, 20, &order);
    assert_eq!(m.entries().clone(), vec![20]);
    let act = m.last_action().expect("an action was recorded");
    assert_eq!(act.kind, ActionKind::Replace);
    assert_eq!(act.subject, 20);
}

#[test]
fn toggle_inserts_when_absent_and_removes_when_present() {
    let order: Vec<u64> = Vec::new();
    let mut m = SelectionModel::new();
    m.select(SelectionMode::Replace, 1, &order);
    m.select(SelectionMode::Toggle, 2, &order);
    assert!(m.contains(1) && m.contains(2));
    let act = m.last_action().expect("an action was recorded");
    assert_eq!(act.kind, ActionKind::Add);
    m.select(SelectionMode::Toggle, 1, &order);
    assert!(!m.contains(1) && m.contains(2));
    let act = m.last_action().expect("an action was recorded");
    assert_eq!(act.kind, ActionKind::Remove);
    assert_eq!(act.subject, 1);
}

#[test]
fn toggle_twice_restores_the_selection() {
    let order: Vec<u64> = Vec::new();
    let mut m = SelectionModel::new();
    m.select(SelectionMode::Replace, 1, &order);
    m.select(SelectionMode::Toggle, 2, &order);
    m.select(SelectionMode::Toggle, 3, &order);
    m.select(SelectionMode::Toggle, 2, &order);
    m.select(SelectionMode::Toggle, 2, &order);
    let mut got = m.entries().clone();
    got.sort();
    assert_eq!(got, vec![1, 2, 3]);
}

#[test]
fn range_extend_selects_the_inclusive_range() {
    let order = order_abcde();
    let mut m = SelectionModel::new();
    m.select(SelectionMode::Replace, 1, &order);
    m.select(SelectionMode::RangeExtend, 4, &order);
    let mut got = m.entries().clone();
    got.sort();
    assert_eq!(got, vec![1, 2, 3, 4]);
    let act = m.last_action().expect("an action was recorded");
    assert_eq!(act.kind, ActionKind::RangeExtend);
    assert_eq!(act.subject, 4);
}

#[test]
fn range_extend_is_direction_independent() {
    let order = order_abcde();
    let mut m = SelectionModel::new();
    m.select(SelectionMode::Replace, 4, &order);
    m.select(SelectionMode::RangeExtend, 1, &order);
    let mut got = m.entries().clone();
    got.sort();
    assert_eq!(got, vec![1, 2, 3, 4]);
}

#[test]
fn range_extend_without_anchor_degrades_to_replace() {
    let order = order_abcde();
    let mut m = SelectionModel::new();
    m.select(SelectionMode::RangeExtend, 3, &order);
    assert_eq!(m.entries().clone(), vec![3]);
    let act = m.last_action().expect("an action was recorded");
    assert_eq!(act.kind, ActionKind::Replace);
    assert_eq!(act.subject, 3);
}

#[test]
fn range_extend_with_unresolvable_order_degrades_to_replace() {
    let order = order_abcde();
    let mut m = SelectionModel::new();
    m.select(SelectionMode::Replace, 1, &order);
    // The subject does not occur in the supplied sibling order.
    m.select(SelectionMode::RangeExtend, 99, &order);
    assert_eq!(m.entries().clone(), vec![99]);
    let act = m.last_action().expect("an action was recorded");
    assert_eq!(act.kind, ActionKind::Replace);
}

#[test]
fn last_action_is_consumed_once() {
    let order: Vec<u64> = Vec::new();
    let mut m = SelectionModel::new();
    m.select(SelectionMode::Replace, 7, &order);
    assert!(m.last_action().is_some());
    assert!(m.last_action().is_none());
}

#[test]
fn count_and_contains_report_membership() {
    let order: Vec<u64> = Vec::new();
    let mut m = SelectionModel::new();
    assert_eq!(m.count(), 0);
    m.select(SelectionMode::Replace, 7, &order);
    m.select(SelectionMode::Toggle, 9, &order);
    assert_eq!(m.count(), 2);
    assert!(m.contains(7));
    assert!(m.contains(9));
    assert!(!m.contains(8));
}

#[test]
fn always_open_ancestors_walks_to_the_root() {
    // Tree: 1 -> 2 -> 3 -> 4 (child -> parent), plus 9 -> 4.
    let parents: Vec<(u64, u64)> = vec![(1, 2), (2, 3), (3, 4), (9, 4)];
    let order: Vec<u64> = Vec::new();
    let mut m = SelectionModel::new();
    m.select(SelectionMode::Replace, 1, &order);
    let mut open = m.always_open_ancestors(&parents);
    open.sort();
    assert_eq!(open, vec![2, 3, 4]);
}

#[test]
fn always_open_ancestors_covers_every_selected_entity() {
    let parents: Vec<(u64, u64)> = vec![(1, 2), (5, 6)];
    let order: Vec<u64> = Vec::new();
    let mut m = SelectionModel::new();
    m.select(SelectionMode::Replace, 1, &order);
    m.select(SelectionMode::Toggle, 5, &order);
    let mut open = m.always_open_ancestors(&parents);
    open.sort();
    assert_eq!(open, vec![2, 6]);
}

#[test]
fn range_extend_with_filtered_out_anchor_degrades_to_replace() {
    let order = order_abcde();
    let mut m = SelectionModel::new();
    // The anchor set by this selection does not occur in the sibling order
    // supplied for the next one (filtered away by the view).
    m.select(SelectionMode::Replace, 77, &order);
    m.select(SelectionMode::RangeExtend, 3, &order);
    assert_eq!(m.entries().clone(), vec![3]);
    let act = m.last_action().expect("an action was recorded");
    assert_eq!(act.kind, ActionKind::Replace);
}

#[test]
fn always_open_ancestors_terminates_on_a_cyclic_parent_map() {
    // A malformed parent map with a cycle must not hang the walk; every
    // entity reachable within the map's length is still reported.
    let parents: Vec<(u64, u64)> = vec![(1, 2), (2, 1)];
    let order: Vec<u64> = Vec::new();
    let mut m = SelectionModel::new();
    m.select(SelectionMode::Replace, 1, &order);
    let mut open = m.always_open_ancestors(&parents);
    open.sort();
    assert_eq!(open, vec![1, 2]);
}

#[test]
fn always_open_ancestors_of_a_root_is_empty() {
    let parents: Vec<(u64, u64)> = vec![(1, 2)];
    let order: Vec<u64> = Vec::new();
    let mut m = SelectionModel::new();
    m.select(SelectionMode::Replace, 2, &order);
    assert!(m.always_open_ancestors(&parents).is_empty());
}
