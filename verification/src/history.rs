//! Command history: undo and redo over reversible scene mutations.
//!
//! The engine keeps two stacks of commands. Executing a new command pushes
//! it onto the undo stack and unconditionally clears the redo stack — a new
//! edit invalidates the redo future. Undo and redo move one command between
//! the stacks while applying its revert or its apply to the scene; with an
//! empty stack they report that nothing happened, never an error. The
//! engine never inspects, merges or coalesces commands, and it cannot fail:
//! a command over a since-destroyed entity mutates nothing, while the
//! bookkeeping still proceeds.

use vstd::prelude::*;
use crate::scene::EntityRef;
use crate::scene::SceneState;
use crate::scene::TransformAttr;
use crate::scene::write_transform;

verus! {

/// One reversible unit of scene mutation, as a sum type dispatched through
/// a single apply / revert match.
#[derive(Clone, Copy, PartialEq, Eq, Structural, Debug)]
pub enum Command {
    /// Overwrite of an entity's transform-like attribute, recording the
    /// value it replaces so the edit can be reverted.
    TransformChange { entity: EntityRef, from: TransformAttr, to: TransformAttr },
}

impl Command {
    /// Effect of applying the command to the abstract scene.
    pub open spec fn apply_spec(self, scene: Map<EntityRef, Option<TransformAttr>>) -> Map<
        EntityRef,
        Option<TransformAttr>,
    > {
        match self {
            Command::TransformChange { entity, from, to } => write_transform(scene, entity, to),
        }
    }

    /// Effect of reverting the command: the recorded previous value is
    /// written back.
    pub open spec fn revert_spec(self, scene: Map<EntityRef, Option<TransformAttr>>) -> Map<
        EntityRef,
        Option<TransformAttr>,
    > {
        match self {
            Command::TransformChange { entity, from, to } => write_transform(scene, entity, from),
        }
    }

    /// Applies the mutation through the sink; a stale handle is a silent
    /// no-op.
    pub fn apply(&self, scene: &mut SceneState)
        ensures
            final(scene)@ == self.apply_spec(old(scene)@),
    {
        match self {
            Command::TransformChange { entity, to, .. } => {
                scene.set_transform(*entity, *to);
            },
        }
    }

    /// Writes the recorded previous value back through the sink; a stale
    /// handle is a silent no-op.
    pub fn revert(&self, scene: &mut SceneState)
        ensures
            final(scene)@ == self.revert_spec(old(scene)@),
    {
        match self {
            Command::TransformChange { entity, from, .. } => {
                scene.set_transform(*entity, *from);
            },
        }
    }
}

/// One execute: apply the command, push it onto the undo log, clear the
/// redo log.
pub open spec fn execute_transition(
    undo: Seq<Command>,
    redo: Seq<Command>,
    scene: Map<EntityRef, Option<TransformAttr>>,
    c: Command,
) -> (Seq<Command>, Seq<Command>, Map<EntityRef, Option<TransformAttr>>) {
    (undo.push(c), Seq::<Command>::empty(), c.apply_spec(scene))
}

/// One undo: pop the undo log, revert, push onto the redo log; with an
/// empty log, report that nothing happened.
pub open spec fn undo_transition(
    undo: Seq<Command>,
    redo: Seq<Command>,
    scene: Map<EntityRef, Option<TransformAttr>>,
) -> (Seq<Command>, Seq<Command>, Map<EntityRef, Option<TransformAttr>>, bool) {
    if undo.len() == 0 {
        (undo, redo, scene, false)
    } else {
        (undo.drop_last(), redo.push(undo.last()), undo.last().revert_spec(scene), true)
    }
}

/// One redo, symmetric to undo.
pub open spec fn redo_transition(
    undo: Seq<Command>,
    redo: Seq<Command>,
    scene: Map<EntityRef, Option<TransformAttr>>,
) -> (Seq<Command>, Seq<Command>, Map<EntityRef, Option<TransformAttr>>, bool) {
    if redo.len() == 0 {
        (undo, redo, scene, false)
    } else {
        (undo.push(redo.last()), redo.drop_last(), redo.last().apply_spec(scene), true)
    }
}

/// The undo/redo engine: two stacks of commands, exclusively owned.
pub struct HistoryManager {
    undo_stack: Vec<Command>,
    redo_stack: Vec<Command>,
}

impl HistoryManager {
    /// The undo log, oldest first; its last element is the next to undo.
    pub closed spec fn undo_log(&self) -> Seq<Command> {
        self.undo_stack@
    }

    /// The redo log; its last element is the next to redo.
    pub closed spec fn redo_log(&self) -> Seq<Command> {
        self.redo_stack@
    }

    /// A fresh history with both stacks empty.
    pub fn new() -> (h: Self)
        ensures
            h.undo_log() == Seq::<Command>::empty(),
            h.redo_log() == Seq::<Command>::empty(),
    {
        HistoryManager { undo_stack: Vec::new(), redo_stack: Vec::new() }
    }

    /// Number of commands that can be undone.
    pub fn undo_depth(&self) -> (n: usize)
        ensures
            n == self.undo_log().len(),
    {
        self.undo_stack.len()
    }

    /// Number of commands that can be redone.
    pub fn redo_depth(&self) -> (n: usize)
        ensures
            n == self.redo_log().len(),
    {
        self.redo_stack.len()
    }

    /// Applies the command and records it; the redo log is cleared
    /// unconditionally, since a new edit invalidates the redo future.
    pub fn execute(&mut self, command: Command, scene: &mut SceneState)
        ensures
            (final(self).undo_log(), final(self).redo_log(), final(scene)@) == execute_transition(
                old(self).undo_log(),
                old(self).redo_log(),
                old(scene)@,
                command,
            ),
            final(self).redo_log().len() == 0,
    {
        command.apply(scene);
        self.undo_stack.push(command);
        self.redo_stack.clear();
    }

    /// Reverts the most recent command, if any, and moves it to the redo
    /// log. Returns whether anything was undone; an empty log is a no-op,
    /// not an error, and undoing never panics whatever the command
    /// references.
    pub fn undo(&mut self, scene: &mut SceneState) -> (did: bool)
        ensures
            (final(self).undo_log(), final(self).redo_log(), final(scene)@, did) == undo_transition(
                old(self).undo_log(),
                old(self).redo_log(),
                old(scene)@,
            ),
            did == (old(self).undo_log().len() > 0),
    {
        match self.undo_stack.pop() {
            Some(command) => {
                command.revert(scene);
                self.redo_stack.push(command);
                proof {
                    assert(old(self).undo_log().drop_last() =~= self.undo_stack@);
                }
                true
            },
            None => false,
        }
    }

    /// Re-applies the most recently undone command, if any, and moves it
    /// back to the undo log. Returns whether anything was redone.
    pub fn redo(&mut self, scene: &mut SceneState) -> (did: bool)
        ensures
            (final(self).undo_log(), final(self).redo_log(), final(scene)@, did) == redo_transition(
                old(self).undo_log(),
                old(self).redo_log(),
                old(scene)@,
            ),
            did == (old(self).redo_log().len() > 0),
    {
        match self.redo_stack.pop() {
            Some(command) => {
                command.apply(scene);
                self.undo_stack.push(command);
                proof {
                    assert(old(self).redo_log().drop_last() =~= self.redo_stack@);
                }
                true
            },
            None => false,
        }
    }
}

/// Builds a transform change against the current scene, so that its revert
/// is an exact inverse of its apply: the recorded previous value is the
/// entity's present attribute. Yields nothing when the handle is stale or
/// the entity carries no such attribute.
pub fn record_transform_change(scene: &SceneState, entity: EntityRef, to: TransformAttr) -> (c:
    Option<Command>)
    ensures
        match c {
            Some(cmd) => scene@.contains_key(entity) && scene@[entity] is Some && cmd == (
            Command::TransformChange { entity, from: scene@[entity]->0, to }),
            None => !scene@.contains_key(entity) || scene@[entity] is None,
        },
{
    match scene.get_transform(entity) {
        Some(from) => Some(Command::TransformChange { entity, from, to }),
        None => None,
    }
}

/// Scene after applying a command sequence in order.
pub open spec fn apply_all(
    scene: Map<EntityRef, Option<TransformAttr>>,
    cs: Seq<Command>,
) -> Map<EntityRef, Option<TransformAttr>>
    decreases cs.len(),
{
    if cs.len() == 0 {
        scene
    } else {
        cs.last().apply_spec(apply_all(scene, cs.drop_last()))
    }
}

/// Each command's revert is an exact inverse of its apply at the state
/// where the command was applied — the contract a command implementor must
/// uphold; the engine does not verify it.
pub open spec fn exact_inverses(
    scene: Map<EntityRef, Option<TransformAttr>>,
    cs: Seq<Command>,
) -> bool {
    forall|j: int|
        0 <= j < cs.len() ==> #[trigger] cs[j].revert_spec(
            cs[j].apply_spec(apply_all(scene, cs.subrange(0, j))),
        ) == apply_all(scene, cs.subrange(0, j))
}

/// A transform change recorded against the scene it is applied to reverts
/// exactly: writing the recorded value back restores the scene.
pub proof fn lemma_recorded_inverts(scene: Map<EntityRef, Option<TransformAttr>>, c: Command)
    requires
        c matches Command::TransformChange { entity, from, .. } && scene.contains_key(entity)
            && scene[entity] == Some(from),
    ensures
        c.revert_spec(c.apply_spec(scene)) == scene,
{
    assert(c.revert_spec(c.apply_spec(scene)) =~= scene);
}

/// A command over a since-destroyed entity neither mutates nor is mutated:
/// apply and revert both leave the scene unchanged.
pub proof fn lemma_stale_command_inert(scene: Map<EntityRef, Option<TransformAttr>>, c: Command)
    requires
        !scene.contains_key(c->entity),
    ensures
        c.apply_spec(scene) == scene,
        c.revert_spec(scene) == scene,
{
}

/// Every command in the sequence either was recorded against the scene it
/// applies to — its recorded previous value is the entity's attribute at
/// that point, as `record_transform_change` guarantees — or references an
/// entity already gone at that point.
pub open spec fn well_recorded(
    scene: Map<EntityRef, Option<TransformAttr>>,
    cs: Seq<Command>,
) -> bool {
    forall|j: int|
        0 <= j < cs.len() ==> {
            let s_j = apply_all(scene, cs.subrange(0, j));
            (#[trigger] cs[j]) matches Command::TransformChange { entity, from, .. } && ((
            s_j.contains_key(entity) && s_j[entity] == Some(from)) || !s_j.contains_key(entity))
        }
}

/// A well-recorded sequence meets the inverse contract: each command's
/// revert exactly inverts its apply at the state where it was applied.
pub proof fn lemma_well_recorded_inverts(
    scene: Map<EntityRef, Option<TransformAttr>>,
    cs: Seq<Command>,
)
    requires
        well_recorded(scene, cs),
    ensures
        exact_inverses(scene, cs),
{
    assert forall|j: int| 0 <= j < cs.len() implies #[trigger] cs[j].revert_spec(
        cs[j].apply_spec(apply_all(scene, cs.subrange(0, j))),
    ) == apply_all(scene, cs.subrange(0, j)) by {
        let s_j = apply_all(scene, cs.subrange(0, j));
        if s_j.contains_key(cs[j]->entity) {
            lemma_recorded_inverts(s_j, cs[j]);
        } else {
            lemma_stale_command_inert(s_j, cs[j]);
            lemma_stale_command_inert(cs[j].apply_spec(s_j), cs[j]);
        }
    }
}

/// `n` undo steps in a row over the model.
pub open spec fn undo_steps(
    undo: Seq<Command>,
    redo: Seq<Command>,
    scene: Map<EntityRef, Option<TransformAttr>>,
    n: nat,
) -> (Seq<Command>, Seq<Command>, Map<EntityRef, Option<TransformAttr>>)
    decreases n,
{
    if n == 0 {
        (undo, redo, scene)
    } else {
        let once = undo_transition(undo, redo, scene);
        undo_steps(once.0, once.1, once.2, (n - 1) as nat)
    }
}

/// `n` redo steps in a row over the model.
pub open spec fn redo_steps(
    undo: Seq<Command>,
    redo: Seq<Command>,
    scene: Map<EntityRef, Option<TransformAttr>>,
    n: nat,
) -> (Seq<Command>, Seq<Command>, Map<EntityRef, Option<TransformAttr>>)
    decreases n,
{
    if n == 0 {
        (undo, redo, scene)
    } else {
        let once = redo_transition(undo, redo, scene);
        redo_steps(once.0, once.1, once.2, (n - 1) as nat)
    }
}

/// Undoing a full log pops it back to front: the scene returns to its
/// start, and the redo log receives the commands newest first.
proof fn lemma_undo_phase(
    scene: Map<EntityRef, Option<TransformAttr>>,
    cs: Seq<Command>,
    redo: Seq<Command>,
)
    requires
        exact_inverses(scene, cs),
    ensures
        undo_steps(cs, redo, apply_all(scene, cs), cs.len() as nat) == (
            Seq::<Command>::empty(),
            redo + cs.reverse(),
            scene,
        ),
    decreases cs.len(),
{
    if cs.len() == 0 {
        assert(redo + cs.reverse() =~= redo);
    } else {
        let last = cs.last();
        let rest = cs.drop_last();
        assert(cs.subrange(0, cs.len() - 1) =~= rest);
        assert(last.revert_spec(last.apply_spec(apply_all(scene, rest))) == apply_all(scene, rest));
        assert(exact_inverses(scene, rest)) by {
            assert forall|j: int|
                0 <= j < rest.len() implies #[trigger] rest[j].revert_spec(
                rest[j].apply_spec(apply_all(scene, rest.subrange(0, j))),
            ) == apply_all(scene, rest.subrange(0, j)) by {
                assert(rest.subrange(0, j) =~= cs.subrange(0, j));
                assert(rest[j] == cs[j]);
            }
        }
        lemma_undo_phase(scene, rest, redo.push(last));
        assert(redo.push(last) + rest.reverse() =~= redo + cs.reverse());
    }
}

/// Redoing from position `j` replays the remaining commands front to back.
proof fn lemma_redo_phase(scene: Map<EntityRef, Option<TransformAttr>>, cs: Seq<Command>, j: nat)
    requires
        j <= cs.len(),
    ensures
        redo_steps(
            cs.subrange(0, j as int),
            cs.skip(j as int).reverse(),
            apply_all(scene, cs.subrange(0, j as int)),
            (cs.len() - j) as nat,
        ) == (cs, Seq::<Command>::empty(), apply_all(scene, cs)),
    decreases cs.len() - j,
{
    if j == cs.len() {
        assert(cs.subrange(0, j as int) =~= cs);
        assert(cs.skip(j as int).reverse() =~= Seq::<Command>::empty());
    } else {
        let pending = cs.skip(j as int).reverse();
        assert(pending.len() == cs.len() - j);
        assert(pending.last() == cs[j as int]) by {
            assert(cs.skip(j as int)[0] == cs[j as int]);
        }
        assert(pending.drop_last() =~= cs.skip(j + 1 as int).reverse());
        assert(cs.subrange(0, j as int).push(cs[j as int]) =~= cs.subrange(0, j + 1 as int));
        assert(cs.subrange(0, j + 1 as int).drop_last() =~= cs.subrange(0, j as int));
        assert(cs[j as int].apply_spec(apply_all(scene, cs.subrange(0, j as int))) == apply_all(
            scene,
            cs.subrange(0, j + 1 as int),
        ));
        lemma_redo_phase(scene, cs, j + 1);
    }
}

/// Undo/redo inverse law: after executing commands C1..Cn, undoing n times
/// and redoing n times yields a scene identical to the one immediately
/// after the original applications — provided each command's revert is an
/// exact inverse of its apply, the contract command implementors uphold.
/// The full sequence ends back on the undo log with the redo log empty.
pub proof fn lemma_undo_redo_inverse(scene: Map<EntityRef, Option<TransformAttr>>, cs: Seq<Command>)
    requires
        exact_inverses(scene, cs),
    ensures
        ({
            let sn = apply_all(scene, cs);
            let u = undo_steps(cs, Seq::<Command>::empty(), sn, cs.len() as nat);
            let r = redo_steps(u.0, u.1, u.2, cs.len() as nat);
            &&& u.2 == scene
            &&& r.0 == cs
            &&& r.1 == Seq::<Command>::empty()
            &&& r.2 == sn
        }),
{
    lemma_undo_phase(scene, cs, Seq::<Command>::empty());
    assert(Seq::<Command>::empty() + cs.reverse() =~= cs.reverse());
    lemma_redo_phase(scene, cs, 0);
    assert(cs.subrange(0, 0) =~= Seq::<Command>::empty());
    assert(cs.skip(0) =~= cs);
}

/// Redo-invalidation law: after an execute, the redo log is empty, so the
/// next redo reports that nothing happened and changes nothing.
pub proof fn lemma_redo_invalidation(
    undo: Seq<Command>,
    redo: Seq<Command>,
    scene: Map<EntityRef, Option<TransformAttr>>,
    c: Command,
)
    ensures
        ({
            let e = execute_transition(undo, redo, scene, c);
            let r = redo_transition(e.0, e.1, e.2);
            &&& r.3 == false
            &&& r.0 == e.0
            &&& r.1 == e.1
            &&& r.2 == e.2
        }),
{
}

/// Stale-handle law: undoing a command that references a since-destroyed
/// entity succeeds — the bookkeeping proceeds — while the scene itself is
/// untouched.
pub proof fn lemma_stale_undo_safe(
    undo: Seq<Command>,
    redo: Seq<Command>,
    scene: Map<EntityRef, Option<TransformAttr>>,
)
    requires
        undo.len() > 0,
        !scene.contains_key(undo.last()->entity),
    ensures
        ({
            let u = undo_transition(undo, redo, scene);
            &&& u.3 == true
            &&& u.2 == scene
            &&& u.0 == undo.drop_last()
            &&& u.1 == redo.push(undo.last())
        }),
{
    lemma_stale_command_inert(scene, undo.last());
}

} // verus!
