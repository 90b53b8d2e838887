use vstd::prelude::*;

use crate::ids::{Entity, EventKind, Observer, ObserverId, RequestId};
use crate::response::{Completion, DeliveryView};

verus! {

/// An inflight request as seen on its entity: the URL it was sent to and its
/// identity.
pub struct InflightView {
    pub url: Seq<char>,
    pub request: RequestId,
}

/// The state attached to one live entity.
pub struct RecordView {
    /// Diagnostic label of the entity.
    pub name: Option<Seq<char>>,
    /// The request being driven to completion on this entity, if any.
    pub inflight: Option<InflightView>,
    /// Marker: remove the entity once no request is inflight on it.
    pub despawn: bool,
    /// Observers in the order of registration.
    pub observers: Seq<Observer>,
}

/// One slot of the arena: its generation, and the entity living there.
pub struct SlotView {
    pub generation: u64,
    pub record: Option<RecordView>,
}

/// The whole state of the request arena.
pub struct WorldView {
    pub slots: Seq<SlotView>,
    /// Identity the next submitted request receives.
    pub next_request: u64,
    /// Identity the next registered observer receives.
    pub next_observer: u64,
    /// Whether an unnamed entity gets a label from the URL of its request.
    pub auto_name: bool,
    /// Requests whose outcome has been delivered.
    pub delivered: Set<RequestId>,
}

/// The label given to an unnamed entity that drives a request to `url`.
pub open spec fn label(url: Seq<char>) -> Seq<char> {
    "http: "@ + url
}

pub open spec fn empty_record() -> RecordView {
    RecordView { name: None, inflight: None, despawn: false, observers: seq![] }
}

/// The identities of the observers of `kind` among `obs`, in order.
pub open spec fn matching(obs: Seq<Observer>, kind: EventKind) -> Seq<ObserverId>
    decreases obs.len(),
{
    if obs.len() == 0 {
        seq![]
    } else {
        let prev = matching(obs.drop_last(), kind);
        if obs.last().kind == kind {
            prev.push(obs.last().id)
        } else {
            prev
        }
    }
}

/// The slot holds a live entity on which request `r` is inflight.
pub open spec fn holds_request(slot: SlotView, r: RequestId) -> bool {
    &&& slot.record is Some
    &&& slot.record->Some_0.inflight is Some
    &&& slot.record->Some_0.inflight->Some_0.request == r
}

/// The slot holds an entity marked for removal with nothing inflight.
pub open spec fn finished(slot: SlotView) -> bool {
    &&& slot.record is Some
    &&& slot.record->Some_0.despawn
    &&& slot.record->Some_0.inflight is None
}

/// A free slot whose generation can still grow.
pub open spec fn reusable(slot: SlotView) -> bool {
    slot.record is None && slot.generation < u64::MAX
}

pub open spec fn cleanup_slot(slot: SlotView) -> SlotView {
    if finished(slot) {
        SlotView { generation: slot.generation, record: None }
    } else {
        slot
    }
}

/// The entities among the first `n` slots that cleanup removes, by index.
pub open spec fn finished_entities(slots: Seq<SlotView>, n: int) -> Seq<Entity>
    decreases n,
{
    if n <= 0 {
        seq![]
    } else {
        let prev = finished_entities(slots, n - 1);
        if finished(slots[n - 1]) {
            prev.push(Entity { index: (n - 1) as usize, generation: slots[n - 1].generation })
        } else {
            prev
        }
    }
}

/// `rec` with request `request` to `url` inflight, labelled from the URL when
/// naming is on and it has no name yet.
pub open spec fn with_inflight(
    rec: RecordView,
    url: Seq<char>,
    request: RequestId,
    auto_name: bool,
) -> RecordView {
    RecordView {
        name: if auto_name && rec.name is None {
            Some(label(url))
        } else {
            rec.name
        },
        inflight: Some(InflightView { url, request }),
        ..rec
    }
}

impl WorldView {
    pub open spec fn alive(self, e: Entity) -> bool {
        &&& e.index < self.slots.len()
        &&& self.slots[e.index as int].generation == e.generation
        &&& self.slots[e.index as int].record is Some
    }

    pub open spec fn record(self, e: Entity) -> RecordView {
        self.slots[e.index as int].record->Some_0
    }

    /// Some live entity has request `r` inflight.
    pub open spec fn holds(self, r: RequestId) -> bool {
        exists|i: int| 0 <= i < self.slots.len() && #[trigger] holds_request(self.slots[i], r)
    }

    /// Every inflight request was handed out, sits on one entity only, and
    /// has not been delivered; every delivered request was handed out.
    pub open spec fn wf(self) -> bool {
        &&& forall|i: int, r: RequestId|
            0 <= i < self.slots.len() && #[trigger] holds_request(self.slots[i], r) ==> r.0
                < self.next_request && !self.delivered.contains(r)
        &&& forall|i: int, j: int, r: RequestId|
            0 <= i < self.slots.len() && 0 <= j < self.slots.len() && #[trigger] holds_request(
                self.slots[i],
                r,
            ) && #[trigger] holds_request(self.slots[j], r) ==> i == j
        &&& forall|r: RequestId| #[trigger] self.delivered.contains(r) ==> r.0 < self.next_request
    }

    /// `i` is the slot a new entity takes: the first reusable one, or a new
    /// slot at the end.
    pub open spec fn spawn_index_ok(self, i: int) -> bool {
        &&& 0 <= i <= self.slots.len()
        &&& i < self.slots.len() ==> reusable(self.slots[i])
        &&& forall|j: int| 0 <= j < i ==> !reusable(#[trigger] self.slots[j])
    }

    pub open spec fn spawned_generation(self, i: int) -> u64 {
        if i < self.slots.len() {
            (self.slots[i].generation + 1) as u64
        } else {
            0
        }
    }

    pub open spec fn spawned_entity(self, i: int) -> Entity {
        Entity { index: i as usize, generation: self.spawned_generation(i) }
    }

    pub open spec fn spawn_at(self, i: int, rec: RecordView) -> WorldView {
        let slot = SlotView { generation: self.spawned_generation(i), record: Some(rec) };
        WorldView {
            slots: if i < self.slots.len() {
                self.slots.update(i, slot)
            } else {
                self.slots.push(slot)
            },
            ..self
        }
    }

    pub open spec fn set_record(self, e: Entity, rec: RecordView) -> WorldView {
        WorldView {
            slots: self.slots.update(
                e.index as int,
                SlotView { generation: e.generation, record: Some(rec) },
            ),
            ..self
        }
    }

    pub open spec fn next_request_id(self) -> RequestId {
        RequestId(self.next_request)
    }

    pub open spec fn with_next_request(self) -> WorldView {
        WorldView { next_request: (self.next_request + 1) as u64, ..self }
    }

    /// The world after `send(url)`, whose new entity takes slot `i`.
    pub open spec fn send_at(self, i: int, url: Seq<char>) -> WorldView {
        let rec = with_inflight(
            RecordView { despawn: true, ..empty_record() },
            url,
            self.next_request_id(),
            self.auto_name,
        );
        self.with_next_request().spawn_at(i, rec)
    }

    /// The world after `send_using_entity(e, url)`.
    pub open spec fn send_using(self, e: Entity, url: Seq<char>) -> WorldView {
        if self.alive(e) {
            self.with_next_request().set_record(
                e,
                with_inflight(self.record(e), url, self.next_request_id(), self.auto_name),
            )
        } else {
            self
        }
    }

    /// The world after registering an observer of `kind` on `e`.
    pub open spec fn observe(self, e: Entity, kind: EventKind) -> WorldView {
        if self.alive(e) {
            let rec = self.record(e);
            let obs = Observer { id: ObserverId(self.next_observer), kind };
            WorldView {
                next_observer: (self.next_observer + 1) as u64,
                ..self.set_record(e, RecordView { observers: rec.observers.push(obs), ..rec })
            }
        } else {
            self
        }
    }

    /// The world after removing `e`.
    pub open spec fn despawn(self, e: Entity) -> WorldView {
        if self.alive(e) {
            WorldView {
                slots: self.slots.update(
                    e.index as int,
                    SlotView { generation: e.generation, record: None },
                ),
                ..self
            }
        } else {
            self
        }
    }

    /// First phase of a tick: remove each marked entity with nothing inflight.
    pub open spec fn cleanup(self) -> WorldView {
        WorldView { slots: self.slots.map_values(|s: SlotView| cleanup_slot(s)), ..self }
    }

    /// The completion reports the request inflight on its live target.
    pub open spec fn accepts<E>(self, c: Completion<E>) -> bool {
        self.alive(c.target) && holds_request(self.slots[c.target.index as int], c.request)
    }

    /// Handles one completion: an accepted one clears the inflight request,
    /// records it as delivered, and yields a delivery to the observers of its
    /// kind; any other is dropped.
    pub open spec fn deliver_one<E>(self, c: Completion<E>) -> (WorldView, Option<DeliveryView<E>>) {
        if self.accepts(c) {
            let rec = self.record(c.target);
            let w = WorldView {
                delivered: self.delivered.insert(c.request),
                ..self.set_record(c.target, RecordView { inflight: None, ..rec })
            };
            let d = DeliveryView {
                target: c.target,
                request: c.request,
                outcome: c.outcome,
                observers: matching(rec.observers, c.outcome.kind()),
            };
            (w, Some(d))
        } else {
            (self, None)
        }
    }

    /// Second phase of a tick: handle the completions in order.
    pub open spec fn deliver_all<E>(self, cs: Seq<Completion<E>>) -> (WorldView, Seq<
        DeliveryView<E>,
    >)
        decreases cs.len(),
    {
        if cs.len() == 0 {
            (self, seq![])
        } else {
            let (w, ds) = self.deliver_all(cs.drop_last());
            let (w2, d) = w.deliver_one(cs.last());
            match d {
                Some(d) => (w2, ds.push(d)),
                None => (w2, ds),
            }
        }
    }
    /// One tick: cleanup, then delivery of the completions reported for it.
    /// Gives the new world, the removed entities and the deliveries.
    pub open spec fn tick<E>(self, cs: Seq<Completion<E>>) -> (WorldView, Seq<Entity>, Seq<
        DeliveryView<E>,
    >) {
        let w = self.cleanup();
        let (w2, ds) = w.deliver_all(cs);
        (w2, finished_entities(self.slots, self.slots.len() as int), ds)
    }
}

} // verus!
