//! Per-frame input routing.
//!
//! Editor input is processed only while the host's dock layout reports the
//! 3D viewport sub-panel as the focused, active panel; input arriving while
//! another panel holds focus is dropped for that frame, not queued. The
//! undo key is checked first and the redo key is consulted only when the
//! undo key is not held, so the two are mutually exclusive within a frame.
//! Whether the keys report edge or repeat presses is the caller's sampling
//! choice; with raw held-key state the undo fires again every frame the key
//! stays down.

use vstd::prelude::*;
use crate::history::HistoryManager;
use crate::history::redo_transition;
use crate::history::undo_transition;
use crate::scene::SceneState;

verus! {

/// What the router decided for this frame.
#[derive(Clone, Copy, PartialEq, Eq, Structural, Debug)]
pub enum InputIntent {
    Undo,
    Redo,
    Idle,
}

/// The routing decision: nothing without viewport focus; undo before redo.
pub open spec fn route_spec(viewport_focused: bool, undo_key: bool, redo_key: bool) -> InputIntent {
    if !viewport_focused {
        InputIntent::Idle
    } else if undo_key {
        InputIntent::Undo
    } else if redo_key {
        InputIntent::Redo
    } else {
        InputIntent::Idle
    }
}

/// Maps this frame's focus and key state to the editor intent.
pub fn route_input(viewport_focused: bool, undo_key: bool, redo_key: bool) -> (r: InputIntent)
    ensures
        r == route_spec(viewport_focused, undo_key, redo_key),
{
    if !viewport_focused {
        InputIntent::Idle
    } else if undo_key {
        InputIntent::Undo
    } else if redo_key {
        InputIntent::Redo
    } else {
        InputIntent::Idle
    }
}

/// Per-frame keyboard handling: routes the keys and performs the resulting
/// undo or redo against the history. Returns whether a command was undone
/// or redone this frame.
pub fn handle_input(
    viewport_focused: bool,
    undo_key: bool,
    redo_key: bool,
    history: &mut HistoryManager,
    scene: &mut SceneState,
) -> (acted: bool)
    ensures
        ({
            let intent = route_spec(viewport_focused, undo_key, redo_key);
            &&& intent is Idle ==> final(history).undo_log() == old(history).undo_log()
                && final(history).redo_log() == old(history).redo_log()
                && final(scene)@ == old(scene)@ && !acted
            &&& intent is Undo ==> (
                final(history).undo_log(),
                final(history).redo_log(),
                final(scene)@,
                acted,
            ) == undo_transition(old(history).undo_log(), old(history).redo_log(), old(scene)@)
            &&& intent is Redo ==> (
                final(history).undo_log(),
                final(history).redo_log(),
                final(scene)@,
                acted,
            ) == redo_transition(old(history).undo_log(), old(history).redo_log(), old(scene)@)
        }),
{
    match route_input(viewport_focused, undo_key, redo_key) {
        InputIntent::Undo => history.undo(scene),
        InputIntent::Redo => history.redo(scene),
        InputIntent::Idle => false,
    }
}

} // verus!
