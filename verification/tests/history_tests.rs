use editor_core::history::Command;
use editor_core::history::HistoryManager;
use editor_core::history::record_transform_change;
use editor_core::scene::SceneState;
use editor_core::scene::TransformAttr;

fn attr(x: i64) -> TransformAttr {
    TransformAttr { x, y: 0, z: 0 }
}

fn change(entity: u64, from: i64, to: i64) -> Command {
    Command::TransformChange { entity, from: attr(from), to: attr(to) }
}

fn scene_with(entities: &[(u64, i64)]) -> SceneState {
    let mut scene = SceneState::new();
    for &(e, x) in entities {
        scene.spawn(e);
        scene.set_transform(e, attr(x));
    }
    scene
}

#[test]
fn execute_applies_and_records() {
    let mut scene = scene_with(&[(1, 0)]);
    let mut history = HistoryManager::new();
    history.execute(change(1, 0, 5), &mut scene);
    assert_eq!(scene.get_transform(1), Some(attr(5)));
    assert_eq!(history.undo_depth(), 1);
    assert_eq!(history.redo_depth(), 0);
}

#[test]
fn undo_then_redo_round_trips_the_scene() {
    // The inverse law on a concrete run: three edits, three undos, three
    // redos; the scene ends exactly as after the original applications.
    let mut scene = scene_with(&[(1, 0), (2, 0)]);
    let mut history = HistoryManager::new();
    history.execute(change(1, 0, 5), &mut scene);
    history.execute(change(2, 0, 7), &mut scene);
    history.execute(change(1, 5, 9), &mut scene);
    assert_eq!(scene.get_transform(1), Some(attr(9)));
    assert_eq!(scene.get_transform(2), Some(attr(7)));

    assert!(history.undo(&mut scene));
    assert!(history.undo(&mut scene));
    assert!(history.undo(&mut scene));
    assert_eq!(scene.get_transform(1), Some(attr(0)));
    assert_eq!(scene.get_transform(2), Some(attr(0)));

    assert!(history.redo(&mut scene));
    assert!(history.redo(&mut scene));
    assert!(history.redo(&mut scene));
    assert_eq!(scene.get_transform(1), Some(attr(9)));
    assert_eq!(scene.get_transform(2), Some(attr(7)));
    assert_eq!(history.undo_depth(), 3);
    assert_eq!(history.redo_depth(), 0);
}

#[test]
fn execute_after_undo_invalidates_redo() {
    let mut scene = scene_with(&[(1, 0)]);
    let mut history = HistoryManager::new();
    history.execute(change(1, 0, 5), &mut scene);
    history.execute(change(1, 5, 9), &mut scene);
    assert!(history.undo(&mut scene));
    history.execute(change(1, 5, 11), &mut scene);
    assert_eq!(history.redo_depth(), 0);
    assert!(!history.redo(&mut scene));
    assert_eq!(scene.get_transform(1), Some(attr(11)));
}

#[test]
fn undo_on_empty_history_does_nothing() {
    let mut scene = scene_with(&[(1, 0)]);
    let mut history = HistoryManager::new();
    assert!(!history.undo(&mut scene));
    assert!(!history.redo(&mut scene));
    assert_eq!(scene.get_transform(1), Some(attr(0)));
}

#[test]
fn undo_over_a_destroyed_entity_succeeds_without_mutating() {
    // Stale-handle safety: the bookkeeping proceeds, the mutation is a
    // silent no-op, and nothing panics.
    let mut scene = scene_with(&[(1, 0), (2, 3)]);
    let mut history = HistoryManager::new();
    history.execute(change(1, 0, 5), &mut scene);
    scene.despawn(1);
    assert!(history.undo(&mut scene));
    assert!(!scene.is_alive(1));
    assert_eq!(scene.get_transform(1), None);
    assert_eq!(scene.get_transform(2), Some(attr(3)));
    assert_eq!(history.redo_depth(), 1);
}

#[test]
fn apply_over_a_destroyed_entity_is_a_no_op() {
    let mut scene = scene_with(&[(2, 3)]);
    let mut history = HistoryManager::new();
    history.execute(change(1, 0, 5), &mut scene);
    assert_eq!(scene.get_transform(1), None);
    assert_eq!(scene.get_transform(2), Some(attr(3)));
    assert_eq!(history.undo_depth(), 1);
}

#[test]
fn record_transform_change_snapshots_the_current_value() {
    let scene = scene_with(&[(1, 4)]);
    let cmd = record_transform_change(&scene, 1, attr(9)).expect("entity is live with an attribute");
    assert_eq!(cmd, change(1, 4, 9));
}

#[test]
fn record_transform_change_rejects_stale_or_bare_entities() {
    let mut scene = scene_with(&[(1, 4)]);
    assert_eq!(record_transform_change(&scene, 99, attr(9)), None);
    scene.spawn(2);
    assert_eq!(record_transform_change(&scene, 2, attr(9)), None);
    scene.despawn(1);
    assert_eq!(record_transform_change(&scene, 1, attr(9)), None);
}

#[test]
fn scene_transform_ops_respect_liveness() {
    let mut scene = SceneState::new();
    assert!(!scene.is_alive(1));
    scene.set_transform(1, attr(5));
    assert_eq!(scene.get_transform(1), None);
    scene.spawn(1);
    assert!(scene.is_alive(1));
    assert_eq!(scene.get_transform(1), None);
    scene.set_transform(1, attr(5));
    assert_eq!(scene.get_transform(1), Some(attr(5)));
    scene.remove_transform(1);
    assert_eq!(scene.get_transform(1), None);
    assert!(scene.is_alive(1));
    scene.despawn(1);
    assert!(!scene.is_alive(1));
}
