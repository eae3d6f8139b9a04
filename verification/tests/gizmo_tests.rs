use editor_core::gizmo::GizmoTargets;
use editor_core::gizmo::HandleState;
use editor_core::gizmo::PickOutcome;
use editor_core::gizmo::compute_picking_enabled;
use editor_core::gizmo::manage_selection;
use editor_core::gizmo::sync_gizmo_target;
use editor_core::history::HistoryManager;
use editor_core::input::InputIntent;
use editor_core::input::handle_input;
use editor_core::input::route_input;
use editor_core::hierarchy::row_open_state;
use editor_core::hierarchy::selection_mode_from_modifiers;
use editor_core::scene::SceneState;
use editor_core::scene::TransformAttr;
use editor_core::selection::SelectionMode;
use editor_core::selection::SelectionModel;

#[test]
fn replace_selections_keep_a_single_gizmo_target() {
    let order: Vec<u64> = Vec::new();
    let mut m = SelectionModel::new();
    let mut targets = GizmoTargets::new();
    for subject in [3u64, 8, 5] {
        m.select(SelectionMode::Replace, subject, &order);
        sync_gizmo_target(&mut m, &mut targets);
        assert_eq!(targets.count(), 1);
    }
    assert!(targets.contains(5));
}

#[test]
fn non_replace_actions_leave_the_marker_unmanaged() {
    let order: Vec<u64> = Vec::new();
    let mut m = SelectionModel::new();
    let mut targets = GizmoTargets::new();
    m.select(SelectionMode::Replace, 3, &order);
    sync_gizmo_target(&mut m, &mut targets);
    m.select(SelectionMode::Toggle, 8, &order);
    sync_gizmo_target(&mut m, &mut targets);
    assert_eq!(targets.count(), 1);
    assert!(targets.contains(3));
}

#[test]
fn sync_without_a_pending_action_changes_nothing() {
    let order: Vec<u64> = Vec::new();
    let mut m = SelectionModel::new();
    let mut targets = GizmoTargets::new();
    m.select(SelectionMode::Replace, 3, &order);
    sync_gizmo_target(&mut m, &mut targets);
    // The action was already drained; a second frame sees none.
    sync_gizmo_target(&mut m, &mut targets);
    assert_eq!(targets.count(), 1);
    assert!(targets.contains(3));
}

#[test]
fn picking_disabled_while_any_handle_is_active() {
    let handles = vec![
        HandleState { focused: false, active: false },
        HandleState { focused: false, active: true },
    ];
    assert!(!compute_picking_enabled(&handles));
}

#[test]
fn picking_disabled_while_any_handle_is_focused() {
    let handles = vec![HandleState { focused: true, active: false }];
    assert!(!compute_picking_enabled(&handles));
}

#[test]
fn picking_enabled_with_no_focused_or_active_handle() {
    assert!(compute_picking_enabled(&Vec::new()));
    let handles = vec![HandleState { focused: false, active: false }];
    assert!(compute_picking_enabled(&handles));
}

#[test]
fn pointer_release_toggles_the_clicked_entity() {
    let mut targets = GizmoTargets::new();
    let hits = vec![Some(4u64)];
    assert_eq!(manage_selection(true, &hits, false, &mut targets), PickOutcome::Updated);
    assert!(targets.contains(4));
    assert_eq!(manage_selection(true, &hits, false, &mut targets), PickOutcome::Updated);
    assert_eq!(targets.count(), 0);
}

#[test]
fn pointer_release_without_shift_clears_other_targets() {
    let mut targets = GizmoTargets::new();
    assert_eq!(manage_selection(true, &vec![Some(4u64)], false, &mut targets), PickOutcome::Updated);
    assert_eq!(manage_selection(true, &vec![Some(9u64)], false, &mut targets), PickOutcome::Updated);
    assert_eq!(targets.count(), 1);
    assert!(targets.contains(9));
    assert!(!targets.contains(4));
}

#[test]
fn pointer_release_with_shift_keeps_other_targets() {
    let mut targets = GizmoTargets::new();
    assert_eq!(manage_selection(true, &vec![Some(4u64)], true, &mut targets), PickOutcome::Updated);
    assert_eq!(manage_selection(true, &vec![Some(9u64)], true, &mut targets), PickOutcome::Updated);
    assert_eq!(targets.count(), 2);
    assert!(targets.contains(4) && targets.contains(9));
    assert_eq!(manage_selection(true, &vec![Some(4u64)], true, &mut targets), PickOutcome::Updated);
    assert_eq!(targets.count(), 1);
    assert!(targets.contains(9));
}

#[test]
fn destroying_an_entity_drops_its_marker() {
    let mut targets = GizmoTargets::new();
    assert_eq!(manage_selection(true, &vec![Some(4u64)], true, &mut targets), PickOutcome::Updated);
    assert_eq!(manage_selection(true, &vec![Some(9u64)], true, &mut targets), PickOutcome::Updated);
    targets.remove(4);
    assert_eq!(targets.count(), 1);
    assert!(targets.contains(9));
    targets.remove(4);
    assert_eq!(targets.count(), 1);
}

#[test]
fn pointer_arbitration_skips_degenerate_frames() {
    let mut targets = GizmoTargets::new();
    let one = vec![Some(4u64)];
    assert_eq!(manage_selection(false, &one, false, &mut targets), PickOutcome::Inactive);
    assert_eq!(manage_selection(true, &Vec::new(), false, &mut targets), PickOutcome::NoPointer);
    let two = vec![Some(4u64), Some(5u64)];
    assert_eq!(manage_selection(true, &two, false, &mut targets), PickOutcome::AmbiguousPointers);
    let miss = vec![None];
    assert_eq!(manage_selection(true, &miss, false, &mut targets), PickOutcome::NoHit);
    assert_eq!(targets.count(), 0);
}

#[test]
fn input_is_routed_only_with_viewport_focus() {
    assert_eq!(route_input(false, true, true), InputIntent::Idle);
    assert_eq!(route_input(true, true, true), InputIntent::Undo);
    assert_eq!(route_input(true, false, true), InputIntent::Redo);
    assert_eq!(route_input(true, false, false), InputIntent::Idle);
}

#[test]
fn handle_input_performs_the_routed_command() {
    let mut scene = SceneState::new();
    scene.spawn(1);
    scene.set_transform(1, TransformAttr { x: 0, y: 0, z: 0 });
    let mut history = HistoryManager::new();
    history.execute(
        editor_core::history::Command::TransformChange {
            entity: 1,
            from: TransformAttr { x: 0, y: 0, z: 0 },
            to: TransformAttr { x: 5, y: 0, z: 0 },
        },
        &mut scene,
    );
    // No viewport focus: the held undo key is dropped, not queued.
    assert!(!handle_input(false, true, false, &mut history, &mut scene));
    assert_eq!(scene.get_transform(1), Some(TransformAttr { x: 5, y: 0, z: 0 }));
    // Focused: the undo key undoes the edit.
    assert!(handle_input(true, true, false, &mut history, &mut scene));
    assert_eq!(scene.get_transform(1), Some(TransformAttr { x: 0, y: 0, z: 0 }));
    // Undo takes precedence; with only the redo key held the edit returns.
    assert!(handle_input(true, false, true, &mut history, &mut scene));
    assert_eq!(scene.get_transform(1), Some(TransformAttr { x: 5, y: 0, z: 0 }));
    // Nothing left to redo: reports that it did nothing.
    assert!(!handle_input(true, false, true, &mut history, &mut scene));
}

#[test]
fn selection_mode_follows_the_modifiers() {
    assert_eq!(selection_mode_from_modifiers(false, false), SelectionMode::Replace);
    assert_eq!(selection_mode_from_modifiers(true, false), SelectionMode::Toggle);
    assert_eq!(selection_mode_from_modifiers(false, true), SelectionMode::RangeExtend);
    assert_eq!(selection_mode_from_modifiers(true, true), SelectionMode::RangeExtend);
}

#[test]
fn row_open_state_pins_leaves_closed_and_selection_paths_open() {
    assert_eq!(row_open_state(false, false), Some(false));
    assert_eq!(row_open_state(false, true), Some(false));
    assert_eq!(row_open_state(true, true), Some(true));
    assert_eq!(row_open_state(true, false), None);
}
