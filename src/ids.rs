use vstd::prelude::*;

verus! {

/// Address of an entity in the arena: a slot index and the generation of
/// that slot, so that a handle kept after a despawn never reaches the entity
/// that later reuses the slot.
#[derive(Clone, Copy, Debug, PartialEq, Eq, Hash, Structural)]
pub struct Entity {
    pub index: usize,
    pub generation: u64,
}

/// Identity of one submitted request; never handed out twice by one arena.
#[derive(Clone, Copy, Debug, PartialEq, Eq, Hash, Structural)]
pub struct RequestId(pub u64);

/// Identity of one registered observer.
#[derive(Clone, Copy, Debug, PartialEq, Eq, Hash, Structural)]
pub struct ObserverId(pub u64);

/// The two kinds of notification a request ends with.
#[derive(Clone, Copy, Debug, PartialEq, Eq, Hash, Structural)]
pub enum EventKind {
    Response,
    Error,
}

/// An observer registered on an entity, listening for one kind of event.
#[derive(Clone, Copy, Debug, PartialEq, Eq, Hash, Structural)]
pub struct Observer {
    pub id: ObserverId,
    pub kind: EventKind,
}

} // verus!
