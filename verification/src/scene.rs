//! Model of the host's scene-mutation sink.
//!
//! The host scene graph owns entity creation and destruction; commands only
//! reference entities by handle. `SceneState` models exactly what the command
//! engine needs from the sink: which entities are alive and which
//! transform-like attribute, if any, each live entity carries. A lookup
//! against a handle that no longer resolves is a silent no-op, never an
//! error.

use vstd::prelude::*;
use std::collections::HashMap;

verus! {

broadcast use vstd::std_specs::hash::group_hash_axioms;

/// Opaque, comparable, copyable handle identifying one node in the host's
/// scene graph. The core never creates or destroys entities, only references
/// them; the shell converts the host's own entity ids to and from this form.
pub type EntityRef = u64;

/// Plain-value form of the transform-like attribute a command records and
/// writes back. The shell converts the host's transform to and from this
/// fixed-point representation.
#[derive(Clone, Copy, PartialEq, Eq, Structural, Debug)]
pub struct TransformAttr {
    pub x: i64,
    pub y: i64,
    pub z: i64,
}

/// The mutation sink: which entities are alive, and the transform-like
/// attribute each live entity carries (`None` when the attribute is absent).
pub struct SceneState {
    table: HashMap<EntityRef, Option<TransformAttr>>,
}

impl View for SceneState {
    type V = Map<EntityRef, Option<TransformAttr>>;

    /// The abstract scene: its domain is the set of live entities.
    closed spec fn view(&self) -> Map<EntityRef, Option<TransformAttr>> {
        self.table@
    }
}

/// Writing a transform through the sink: overwrite on a live entity, silent
/// no-op on a stale handle.
pub open spec fn write_transform(
    scene: Map<EntityRef, Option<TransformAttr>>,
    entity: EntityRef,
    attr: TransformAttr,
) -> Map<EntityRef, Option<TransformAttr>> {
    if scene.contains_key(entity) {
        scene.insert(entity, Some(attr))
    } else {
        scene
    }
}

impl SceneState {
    /// An empty scene: no entities.
    pub fn new() -> (s: Self)
        ensures
            s@ == Map::<EntityRef, Option<TransformAttr>>::empty(),
    {
        SceneState { table: HashMap::new() }
    }

    /// Host-side entity creation: the entity becomes alive with no
    /// transform-like attribute. Spawning an already-live entity resets its
    /// attribute.
    pub fn spawn(&mut self, entity: EntityRef)
        ensures
            final(self)@ == old(self)@.insert(entity, None::<TransformAttr>),
    {
        self.table.insert(entity, None);
    }

    /// Host-side entity destruction: every later lookup of this handle is a
    /// no-op.
    pub fn despawn(&mut self, entity: EntityRef)
        ensures
            final(self)@ == old(self)@.remove(entity),
    {
        self.table.remove(&entity);
    }

    /// Whether the handle still resolves in the scene graph.
    pub fn is_alive(&self, entity: EntityRef) -> (r: bool)
        ensures
            r == self@.contains_key(entity),
    {
        self.table.contains_key(&entity)
    }

    /// Overwrites the transform-like attribute of a live entity; a stale
    /// handle is a silent no-op. Insert-after-remove of the same attribute is
    /// a single replace, so one overwrite stands for both.
    pub fn set_transform(&mut self, entity: EntityRef, attr: TransformAttr)
        ensures
            final(self)@ == write_transform(old(self)@, entity, attr),
    {
        if self.table.contains_key(&entity) {
            self.table.insert(entity, Some(attr));
        }
    }

    /// Removes the transform-like attribute from a live entity; a stale
    /// handle is a silent no-op.
    pub fn remove_transform(&mut self, entity: EntityRef)
        ensures
            old(self)@.contains_key(entity) ==> final(self)@ == old(self)@.insert(
                entity,
                None::<TransformAttr>,
            ),
            !old(self)@.contains_key(entity) ==> final(self)@ == old(self)@,
    {
        if self.table.contains_key(&entity) {
            self.table.insert(entity, None);
        }
    }

    /// The transform-like attribute of a live entity; `None` when the entity
    /// is stale or carries no such attribute.
    pub fn get_transform(&self, entity: EntityRef) -> (r: Option<TransformAttr>)
        ensures
            r == (if self@.contains_key(entity) {
                self@[entity]
            } else {
                None::<TransformAttr>
            }),
    {
        match self.table.get(&entity) {
            Some(slot) => *slot,
            None => None,
        }
    }
}

} // verus!
