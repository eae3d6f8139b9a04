//! Gizmo-to-selection arbitration.
//!
//! Keeps the manipulation-target marker in sync with the selection model —
//! at most one entity bears it — and recomputes the process-wide
//! picking-enable flag every frame, so a pointer click meant to drag the
//! handle is never also interpreted as a new scene pick. A secondary
//! picking path toggles the marker directly on pointer release.

use vstd::prelude::*;
use crate::scene::EntityRef;
use crate::selection::ActionKind;
use crate::selection::LastAction;
use crate::selection::SelectionModel;
use crate::selection::lemma_push_keeps_no_dups;
use crate::selection::no_dups;
use crate::selection::vec_contains;
use crate::selection::vec_remove_value;

verus! {

/// The entities currently bearing the live manipulation-target marker. The
/// marker itself is a zero-or-one-per-entity attribute; this set is what
/// the arbiter maintains, and the arbiter is what keeps it at size one.
pub struct GizmoTargets {
    entries: Vec<EntityRef>,
}

impl View for GizmoTargets {
    type V = Seq<EntityRef>;

    closed spec fn view(&self) -> Seq<EntityRef> {
        self.entries@
    }
}

impl GizmoTargets {
    /// Well-formed: no entity bears the marker twice.
    pub open spec fn wf(&self) -> bool {
        no_dups(self@)
    }

    /// No entity targeted yet.
    pub fn new() -> (t: Self)
        ensures
            t.wf(),
            t@ == Seq::<EntityRef>::empty(),
    {
        GizmoTargets { entries: Vec::new() }
    }

    /// Whether the entity currently bears the marker.
    pub fn contains(&self, entity: EntityRef) -> (r: bool)
        ensures
            r == self@.contains(entity),
    {
        vec_contains(&self.entries, entity)
    }

    /// Number of entities bearing the marker.
    pub fn count(&self) -> (n: usize)
        ensures
            n == self@.len(),
    {
        self.entries.len()
    }

    /// The marked entities.
    pub fn entries(&self) -> (r: &Vec<EntityRef>)
        ensures
            r@ == self@,
    {
        &self.entries
    }

    /// Host-side marker removal: when the host destroys an entity, the
    /// per-entity marker attribute disappears with it.
    pub fn remove(&mut self, entity: EntityRef)
        requires
            old(self).wf(),
        ensures
            final(self).wf(),
            final(self)@ == old(self)@.remove_value(entity),
    {
        vec_remove_value(&mut self.entries, entity);
    }
}

/// Marker set after one per-frame arbitration: a replace-selection moves
/// the marker to the new subject alone; every other action — and a frame
/// with no action — leaves the marker unmanaged.
pub open spec fn retarget_transition(
    targets: Seq<EntityRef>,
    action: Option<LastAction>,
) -> Seq<EntityRef> {
    match action {
        Some(act) => if act.kind is Replace {
            seq![act.subject]
        } else {
            targets
        },
        None => targets,
    }
}

/// Runs once per frame, after input handling: drains the selection's last
/// action — this is the single designated consumer — and retargets the
/// marker on a replace-selection, clearing every current bearer first.
/// Add, remove and range actions leave the marker unmanaged: only
/// single-replace selection drives the manipulation target.
pub fn sync_gizmo_target(selection: &mut SelectionModel, targets: &mut GizmoTargets)
    requires
        old(targets).wf(),
    ensures
        final(targets).wf(),
        final(targets)@ == retarget_transition(old(targets)@, old(selection)@.pending),
        final(selection)@.pending is None,
        final(selection)@.sel == old(selection)@.sel,
        final(selection)@.anchor == old(selection)@.anchor,
{
    let action = selection.last_action();
    match action {
        Some(act) => {
            match act.kind {
                ActionKind::Replace => {
                    retarget_to(targets, act.subject);
                },
                _ => {},
            }
        },
        None => {},
    }
}

/// Clears every bearer and marks the one new target.
fn retarget_to(targets: &mut GizmoTargets, subject: EntityRef)
    ensures
        final(targets).wf(),
        final(targets)@ == seq![subject],
{
    targets.entries.clear();
    targets.entries.push(subject);
    proof {
        assert(targets@ =~= seq![subject]);
    }
}

/// Per-entity report from the host's manipulation handle: whether the
/// handle is focused on the entity and whether it is actively dragged.
#[derive(Clone, Copy, PartialEq, Eq, Structural, Debug)]
pub struct HandleState {
    pub focused: bool,
    pub active: bool,
}

/// Picking stays enabled only while no manipulation handle is focused or
/// actively dragged.
pub open spec fn picking_enabled_spec(handles: Seq<HandleState>) -> bool {
    forall|i: int|
        0 <= i < handles.len() ==> !(#[trigger] handles[i]).focused && !handles[i].active
}

/// Recomputes the process-wide picking-enable flag from this frame's
/// handle reports; never driven by user input directly.
pub fn compute_picking_enabled(handles: &Vec<HandleState>) -> (r: bool)
    ensures
        r == picking_enabled_spec(handles@),
{
    let mut k: usize = 0;
    while k < handles.len()
        invariant
            k <= handles@.len(),
            forall|i: int| 0 <= i < k ==> !(#[trigger] handles@[i]).focused && !handles@[i].active,
        decreases handles@.len() - k,
    {
        let h = handles[k];
        if h.focused || h.active {
            return false;
        }
        k = k + 1;
    }
    true
}

/// Outcome of the pointer-release arbitration, for the caller to log.
#[derive(Clone, Copy, PartialEq, Eq, Structural, Debug)]
pub enum PickOutcome {
    /// The left button was not released this frame.
    Inactive,
    /// No pointer-interaction source exists.
    NoPointer,
    /// More than one pointer source where exactly one is expected: a
    /// configuration error — logged by the caller, nothing changed.
    AmbiguousPointers,
    /// One pointer source, with nothing under the pointer.
    NoHit,
    /// The marker set was updated.
    Updated,
}

/// Marker set after a release over `hit`: unless Shift is held every
/// bearer is cleared first; the hit entity's marker is toggled against its
/// state before the clear.
pub open spec fn pointer_toggle_transition(
    targets: Seq<EntityRef>,
    hit: EntityRef,
    shift_held: bool,
) -> Seq<EntityRef> {
    let base = if shift_held {
        targets
    } else {
        Seq::<EntityRef>::empty()
    };
    if targets.contains(hit) {
        base.remove_value(hit)
    } else {
        base.push(hit)
    }
}

/// The secondary picking path, run on left-button release. `pointer_hits`
/// holds, per pointer-interaction source, the topmost entity under that
/// pointer, if any; exactly one source is expected, and with several the
/// arbiter does not guess which wins.
pub fn manage_selection(
    left_released: bool,
    pointer_hits: &Vec<Option<EntityRef>>,
    shift_held: bool,
    targets: &mut GizmoTargets,
) -> (r: PickOutcome)
    requires
        old(targets).wf(),
    ensures
        final(targets).wf(),
        !left_released ==> final(targets)@ == old(targets)@ && r is Inactive,
        left_released && pointer_hits@.len() == 0 ==> final(targets)@ == old(targets)@
            && r is NoPointer,
        left_released && pointer_hits@.len() > 1 ==> final(targets)@ == old(targets)@
            && r is AmbiguousPointers,
        left_released && pointer_hits@.len() == 1 && pointer_hits@[0] is None ==> final(targets)@
            == old(targets)@ && r is NoHit,
        left_released && pointer_hits@.len() == 1 && pointer_hits@[0] is Some ==> final(targets)@
            == pointer_toggle_transition(old(targets)@, pointer_hits@[0]->0, shift_held)
            && r is Updated,
{
    if !left_released {
        return PickOutcome::Inactive;
    }
    if pointer_hits.len() == 0 {
        return PickOutcome::NoPointer;
    }
    if pointer_hits.len() > 1 {
        return PickOutcome::AmbiguousPointers;
    }
    match pointer_hits[0] {
        Some(hit) => {
            let was_selected = vec_contains(&targets.entries, hit);
            if !shift_held {
                targets.entries.clear();
            }
            let ghost base = targets@;
            if was_selected {
                vec_remove_value(&mut targets.entries, hit);
            } else {
                targets.entries.push(hit);
                proof {
                    lemma_push_keeps_no_dups(base, hit);
                    if !shift_held {
                        assert(targets@ =~= Seq::<EntityRef>::empty().push(hit));
                    }
                }
            }
            PickOutcome::Updated
        },
        None => PickOutcome::NoHit,
    }
}

/// Marker set after a whole sequence of per-frame arbitrations.
pub open spec fn retarget_all(
    targets: Seq<EntityRef>,
    actions: Seq<Option<LastAction>>,
) -> Seq<EntityRef>
    decreases actions.len(),
{
    if actions.len() == 0 {
        targets
    } else {
        retarget_transition(retarget_all(targets, actions.drop_last()), actions.last())
    }
}

/// Gizmo single-target law: after any sequence of replace-mode selections,
/// exactly one entity bears the marker — the most recently replace-selected
/// one — whatever set of entities bore it before.
pub proof fn lemma_single_target_law(targets: Seq<EntityRef>, actions: Seq<Option<LastAction>>)
    requires
        actions.len() > 0,
        forall|i: int|
            0 <= i < actions.len() ==> ((#[trigger] actions[i]) matches Some(act)
                && act.kind is Replace),
    ensures
        retarget_all(targets, actions) == seq![actions.last()->0.subject],
        retarget_all(targets, actions).len() == 1,
{
    assert(actions[actions.len() - 1] matches Some(act) && act.kind is Replace);
}

/// The marker invariant: a frame of arbitration never grows the marker set
/// beyond one bearer — a replace-selection pins it to exactly one, and
/// every other action leaves it untouched.
pub proof fn lemma_retarget_preserves_at_most_one(
    targets: Seq<EntityRef>,
    action: Option<LastAction>,
)
    requires
        targets.len() <= 1,
    ensures
        retarget_transition(targets, action).len() <= 1,
{
}

/// Picking-disable law: while any entity's handle reports an active drag,
/// picking is disabled, whatever the rest of the state reports.
pub proof fn lemma_picking_disabled_during_drag(handles: Seq<HandleState>, i: int)
    requires
        0 <= i < handles.len(),
        handles[i].active,
    ensures
        !picking_enabled_spec(handles),
{
}

} // verus!
