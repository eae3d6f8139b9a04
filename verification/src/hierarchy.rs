//! Contract-level decisions of the hierarchy view.
//!
//! The rendering of the tree is the host's; what the view decides — which
//! selection mode a click produces and whether a row is drawn open — is
//! plain logic. The view also supplies the sibling ordering the selection
//! model needs for range selection, and consumes the always-open ancestor
//! set the model derives.

use vstd::prelude::*;
use crate::selection::SelectionMode;

verus! {

/// Mode from this event's modifier keys: Shift asks for range extension,
/// otherwise Ctrl toggles, otherwise the click replaces the selection.
/// Exactly one mode is active per selection-producing event.
pub open spec fn mode_from_modifiers_spec(ctrl: bool, shift: bool) -> SelectionMode {
    if shift {
        SelectionMode::RangeExtend
    } else if ctrl {
        SelectionMode::Toggle
    } else {
        SelectionMode::Replace
    }
}

/// Derives the selection mode from the modifier-key state.
pub fn selection_mode_from_modifiers(ctrl: bool, shift: bool) -> (m: SelectionMode)
    ensures
        m == mode_from_modifiers_spec(ctrl, shift),
{
    if shift {
        SelectionMode::RangeExtend
    } else if ctrl {
        SelectionMode::Toggle
    } else {
        SelectionMode::Replace
    }
}

/// How a row's collapsing header is forced: a childless row is pinned
/// closed, a row on the path to a selection is pinned open, and any other
/// row keeps whatever state the user left it in.
pub open spec fn row_open_spec(has_children: bool, always_open: bool) -> Option<bool> {
    if !has_children {
        Some(false)
    } else if always_open {
        Some(true)
    } else {
        None::<bool>
    }
}

/// Decides the forced open state of one hierarchy row; `always_open` says
/// whether the row is an ancestor of the current selection.
pub fn row_open_state(has_children: bool, always_open: bool) -> (r: Option<bool>)
    ensures
        r == row_open_spec(has_children, always_open),
{
    if !has_children {
        Some(false)
    } else if always_open {
        Some(true)
    } else {
        None
    }
}

} // verus!
