use vstd::prelude::*;
use vstd::string::*;

use crate::ids::{Entity, EventKind, Observer, ObserverId, RequestId};
use crate::model::{
    cleanup_slot, empty_record, finished, finished_entities, holds_request, label, matching,
    reusable, with_inflight, InflightView, RecordView, SlotView, WorldView,
};
use crate::response::{Completion, Delivery};

verus! {

/// The request being driven to completion on an entity.
pub struct ReqwestInflight {
    /// The URL the request was sent to, kept for diagnostics.
    pub url: String,
    pub request: RequestId,
}

impl View for ReqwestInflight {
    type V = InflightView;

    open spec fn view(&self) -> InflightView {
        InflightView { url: self.url@, request: self.request }
    }
}

pub open spec fn inflight_view(f: Option<ReqwestInflight>) -> Option<InflightView> {
    match f {
        Some(f) => Some(f@),
        None => None,
    }
}

pub open spec fn name_view(n: Option<String>) -> Option<Seq<char>> {
    match n {
        Some(n) => Some(n@),
        None => None,
    }
}

struct Record {
    name: Option<String>,
    inflight: Option<ReqwestInflight>,
    despawn: bool,
    observers: Vec<Observer>,
}

impl View for Record {
    type V = RecordView;

    closed spec fn view(&self) -> RecordView {
        RecordView {
            name: name_view(self.name),
            inflight: inflight_view(self.inflight),
            despawn: self.despawn,
            observers: self.observers@,
        }
    }
}

struct Slot {
    generation: u64,
    record: Option<Record>,
}

impl View for Slot {
    type V = SlotView;

    closed spec fn view(&self) -> SlotView {
        SlotView {
            generation: self.generation,
            record: match self.record {
                Some(r) => Some(r@),
                None => None,
            },
        }
    }
}

/// Handle on a submitted request: the entity it runs on and its identity.
/// Observers for its outcome are registered through it.
#[derive(Clone, Copy, Debug, PartialEq, Eq, Structural)]
pub struct BevyReqwestBuilder {
    pub entity: Entity,
    pub request: RequestId,
}

/// The arena of entities that carry requests, with the bookkeeping of request
/// and observer identities.
pub struct BevyReqwest {
    slots: Vec<Slot>,
    next_request: u64,
    next_observer: u64,
    automatically_name_requests: bool,
    delivered: Ghost<Set<RequestId>>,
}

impl View for BevyReqwest {
    type V = WorldView;

    closed spec fn view(&self) -> WorldView {
        WorldView {
            slots: self.slots@.map_values(|s: Slot| s@),
            next_request: self.next_request,
            next_observer: self.next_observer,
            auto_name: self.automatically_name_requests,
            delivered: self.delivered@,
        }
    }
}

fn request_label(url: &String) -> (r: String)
    ensures
        r@ == label(url@),
{
    let mut s = String::from_str("http: ");
    s.append(url.as_str());
    s
}

fn new_record() -> (r: Record)
    ensures
        r@ == empty_record(),
{
    Record { name: None, inflight: None, despawn: false, observers: Vec::new() }
}

fn attach_inflight(rec: &mut Record, url: String, request: RequestId, auto_name: bool)
    ensures
        final(rec)@ == with_inflight(old(rec)@, url@, request, auto_name),
{
    if auto_name && rec.name.is_none() {
        rec.name = Some(request_label(&url));
    }
    rec.inflight = Some(ReqwestInflight { url, request });
}

fn matching_observers(obs: &Vec<Observer>, kind: EventKind) -> (r: Vec<ObserverId>)
    ensures
        r@ == matching(obs@, kind),
{
    let mut r: Vec<ObserverId> = Vec::new();
    let mut i: usize = 0;
    while i < obs.len()
        invariant
            i <= obs@.len(),
            r@ == matching(obs@.take(i as int), kind),
        decreases obs@.len() - i,
    {
        assert(obs@.take(i + 1).drop_last() =~= obs@.take(i as int));
        if obs[i].kind == kind {
            r.push(obs[i].id);
        }
        i += 1;
    }
    assert(obs@.take(obs@.len() as int) =~= obs@);
    r
}

impl BevyReqwest {
    /// An empty arena; `automatically_name_requests` turns on labelling
    /// unnamed entities from the URL of their request.
    pub fn new(automatically_name_requests: bool) -> (r: Self)
        ensures
            r@ == (WorldView {
                slots: seq![],
                next_request: 0,
                next_observer: 0,
                auto_name: automatically_name_requests,
                delivered: Set::empty(),
            }),
            r@.wf(),
    {
        let r = BevyReqwest {
            slots: Vec::new(),
            next_request: 0,
            next_observer: 0,
            automatically_name_requests,
            delivered: Ghost(Set::empty()),
        };
        assert(r@.slots =~= seq![]);
        r
    }

    fn spawn_record(&mut self, rec: Record) -> (e: Entity)
        ensures
            old(self)@.spawn_index_ok(e.index as int),
            e == old(self)@.spawned_entity(e.index as int),
            final(self)@ == old(self)@.spawn_at(e.index as int, rec@),
    {
        let n = self.slots.len();
        let mut i: usize = 0;
        while i < n && !(self.slots[i].record.is_none() && self.slots[i].generation < u64::MAX)
            invariant
                n == self.slots@.len(),
                i <= n,
                self@ == old(self)@,
                forall|j: int| 0 <= j < i ==> !reusable(#[trigger] self@.slots[j]),
            decreases n - i,
        {
            i += 1;
        }
        let ghost w = self@;
        if i < n {
            let generation = self.slots[i].generation + 1;
            self.slots[i] = Slot { generation, record: Some(rec) };
            assert(self@.slots =~= w.spawn_at(i as int, rec@).slots);
            Entity { index: i, generation }
        } else {
            self.slots.push(Slot { generation: 0, record: Some(rec) });
            assert(self@.slots =~= w.spawn_at(i as int, rec@).slots);
            Entity { index: i, generation: 0 }
        }
    }

    /// Spawns an entity with nothing attached.
    pub fn spawn_empty(&mut self) -> (e: Entity)
        requires
            old(self)@.wf(),
        ensures
            old(self)@.spawn_index_ok(e.index as int),
            e == old(self)@.spawned_entity(e.index as int),
            final(self)@ == old(self)@.spawn_at(e.index as int, empty_record()),
            final(self)@.wf(),
    {
        let e = self.spawn_record(new_record());
        proof {
            let w0 = old(self)@;
            let w1 = self@;
            assert forall|i: int, r: RequestId|
                0 <= i < w1.slots.len() && #[trigger] holds_request(w1.slots[i], r) implies i
                != e.index && holds_request(w0.slots[i], r) by {}
        }
        e
    }

    /// Submits a request to `url` on a new entity that is removed once the
    /// request has been delivered.
    pub fn send(&mut self, url: String) -> (b: BevyReqwestBuilder)
        requires
            old(self)@.wf(),
            old(self)@.next_request < u64::MAX,
        ensures
            old(self)@.spawn_index_ok(b.entity.index as int),
            b.entity == old(self)@.spawned_entity(b.entity.index as int),
            b.request == old(self)@.next_request_id(),
            final(self)@ == old(self)@.send_at(b.entity.index as int, url@),
            final(self)@.wf(),
    {
        let request = RequestId(self.next_request);
        let mut rec = new_record();
        rec.despawn = true;
        attach_inflight(&mut rec, url, request, self.automatically_name_requests);
        self.next_request = self.next_request + 1;
        let ghost mid = self@;
        let entity = self.spawn_record(rec);
        proof {
            let w0 = old(self)@;
            let w1 = self@;
            assert(mid == w0.with_next_request());
            assert forall|i: int, r: RequestId|
                0 <= i < w1.slots.len() && #[trigger] holds_request(w1.slots[i], r) implies (i
                == entity.index && r == request) || (i != entity.index && holds_request(
                w0.slots[i],
                r,
            )) by {}
        }
        BevyReqwestBuilder { entity, request }
    }

    /// Submits a request to `url` on the existing entity `entity`, which is
    /// never removed on that account; `None` when the entity is gone.
    pub fn send_using_entity(&mut self, entity: Entity, url: String) -> (r: Option<
        BevyReqwestBuilder,
    >)
        requires
            old(self)@.wf(),
            old(self)@.next_request < u64::MAX,
        ensures
            r is Some <==> old(self)@.alive(entity),
            r matches Some(b) ==> b.entity == entity && b.request == old(self)@.next_request_id(),
            final(self)@ == old(self)@.send_using(entity, url@),
            final(self)@.wf(),
    {
        if !self.contains(entity) {
            return None;
        }
        let request = RequestId(self.next_request);
        let idx = entity.index;
        let auto_name = self.automatically_name_requests;
        let mut slot = Slot { generation: entity.generation, record: None };
        std::mem::swap(&mut slot, &mut self.slots[idx]);
        let mut rec = slot.record.unwrap();
        let ghost before = rec@;
        attach_inflight(&mut rec, url, request, auto_name);
        self.slots[idx] = Slot { generation: entity.generation, record: Some(rec) };
        self.next_request = self.next_request + 1;
        proof {
            let w0 = old(self)@;
            let w1 = self@;
            assert(before == w0.record(entity));
            assert(w1.slots =~= w0.send_using(entity, url@).slots);
            assert forall|i: int, r: RequestId|
                0 <= i < w1.slots.len() && #[trigger] holds_request(w1.slots[i], r) implies (i
                == idx && r == request) || (i != idx && holds_request(w0.slots[i], r)) by {}
        }
        Some(BevyReqwestBuilder { entity, request })
    }

    /// Whether another request can be submitted: identities are not used up.
    pub fn can_send(&self) -> (r: bool)
        ensures
            r == (self@.next_request < u64::MAX),
    {
        self.next_request < u64::MAX
    }

    /// Whether another observer can be registered: identities are not used up.
    pub fn can_observe(&self) -> (r: bool)
        ensures
            r == (self@.next_observer < u64::MAX),
    {
        self.next_observer < u64::MAX
    }

    /// The name of `e`, if it is live and named.
    pub fn name(&self, e: Entity) -> (r: Option<String>)
        ensures
            r is Some <==> self@.alive(e) && self@.record(e).name is Some,
            r matches Some(n) ==> n@ == self@.record(e).name->Some_0,
    {
        if !self.contains(e) {
            return None;
        }
        proof {
            assert(self@.slots[e.index as int] == self.slots@[e.index as int]@);
        }
        match &self.slots[e.index].record {
            Some(rec) => match &rec.name {
                Some(n) => Some(n.clone()),
                None => None,
            },
            None => None,
        }
    }

    /// Names `e`; false when it is gone.
    pub fn insert_name(&mut self, e: Entity, name: String) -> (r: bool)
        requires
            old(self)@.wf(),
        ensures
            r == old(self)@.alive(e),
            r ==> final(self)@ == old(self)@.set_record(
                e,
                RecordView { name: Some(name@), ..old(self)@.record(e) },
            ),
            !r ==> final(self)@ == old(self)@,
            final(self)@.wf(),
    {
        if !self.contains(e) {
            return false;
        }
        let idx = e.index;
        let mut slot = Slot { generation: e.generation, record: None };
        std::mem::swap(&mut slot, &mut self.slots[idx]);
        let mut rec = slot.record.unwrap();
        let ghost before = rec@;
        rec.name = Some(name);
        self.slots[idx] = Slot { generation: e.generation, record: Some(rec) };
        proof {
            let w0 = old(self)@;
            let w1 = self@;
            assert(before == w0.record(e));
            assert(w1.slots =~= w0.set_record(e, RecordView { name: Some(name@), ..w0.record(e) }).slots);
            assert forall|i: int, r: RequestId|
                0 <= i < w1.slots.len() && #[trigger] holds_request(w1.slots[i], r) implies holds_request(
                w0.slots[i],
                r,
            ) by {}
        }
        true
    }

    /// The request inflight on `e`, if it is live and has one.
    pub fn inflight_request(&self, e: Entity) -> (r: Option<RequestId>)
        ensures
            r is Some <==> self@.alive(e) && self@.record(e).inflight is Some,
            r matches Some(id) ==> id == self@.record(e).inflight->Some_0.request,
    {
        if !self.contains(e) {
            return None;
        }
        proof {
            assert(self@.slots[e.index as int] == self.slots@[e.index as int]@);
        }
        match &self.slots[e.index].record {
            Some(rec) => match &rec.inflight {
                Some(f) => Some(f.request),
                None => None,
            },
            None => None,
        }
    }

    /// Whether `e` is live and marked for removal once nothing is inflight.
    pub fn has_despawn_marker(&self, e: Entity) -> (r: bool)
        ensures
            r == (self@.alive(e) && self@.record(e).despawn),
    {
        if !self.contains(e) {
            return false;
        }
        proof {
            assert(self@.slots[e.index as int] == self.slots@[e.index as int]@);
        }
        match &self.slots[e.index].record {
            Some(rec) => rec.despawn,
            None => false,
        }
    }

    /// Whether `e` is a live entity.
    pub fn contains(&self, e: Entity) -> (r: bool)
        ensures
            r == self@.alive(e),
    {
        e.index < self.slots.len() && self.slots[e.index].generation == e.generation
            && self.slots[e.index].record.is_some()
    }
    /// Registers an observer of `kind` on `e`; `None` when `e` is gone.
    fn observe(&mut self, e: Entity, kind: EventKind) -> (r: Option<ObserverId>)
        requires
            old(self)@.wf(),
            old(self)@.next_observer < u64::MAX,
        ensures
            r is Some <==> old(self)@.alive(e),
            r matches Some(id) ==> id == ObserverId(old(self)@.next_observer),
            final(self)@ == old(self)@.observe(e, kind),
            final(self)@.wf(),
    {
        if !self.contains(e) {
            return None;
        }
        let id = ObserverId(self.next_observer);
        let idx = e.index;
        let mut slot = Slot { generation: e.generation, record: None };
        std::mem::swap(&mut slot, &mut self.slots[idx]);
        let mut rec = slot.record.unwrap();
        let ghost before = rec@;
        rec.observers.push(Observer { id, kind });
        self.slots[idx] = Slot { generation: e.generation, record: Some(rec) };
        self.next_observer = self.next_observer + 1;
        proof {
            let w0 = old(self)@;
            let w1 = self@;
            assert(before == w0.record(e));
            assert(w1.slots =~= w0.observe(e, kind).slots);
            assert forall|i: int, r: RequestId|
                0 <= i < w1.slots.len() && #[trigger] holds_request(w1.slots[i], r) implies holds_request(
                w0.slots[i],
                r,
            ) by {}
        }
        Some(id)
    }

    /// Removes `e` with all that is attached to it; false when it was gone.
    pub fn despawn(&mut self, e: Entity) -> (r: bool)
        requires
            old(self)@.wf(),
        ensures
            r == old(self)@.alive(e),
            final(self)@ == old(self)@.despawn(e),
            final(self)@.wf(),
    {
        if !self.contains(e) {
            return false;
        }
        self.slots[e.index] = Slot { generation: e.generation, record: None };
        proof {
            let w0 = old(self)@;
            let w1 = self@;
            assert(w1.slots =~= w0.despawn(e).slots);
            assert forall|i: int, r: RequestId|
                0 <= i < w1.slots.len() && #[trigger] holds_request(w1.slots[i], r) implies holds_request(
                w0.slots[i],
                r,
            ) by {}
        }
        true
    }

    /// First phase of a tick: removes every entity marked for removal that
    /// has nothing inflight, and returns them in slot order.
    pub(crate) fn cleanup(&mut self) -> (gone: Vec<Entity>)
        requires
            old(self)@.wf(),
        ensures
            final(self)@ == old(self)@.cleanup(),
            gone@ == finished_entities(old(self)@.slots, old(self)@.slots.len() as int),
            final(self)@.wf(),
    {
        let ghost w0 = self@;
        let n = self.slots.len();
        let mut gone: Vec<Entity> = Vec::new();
        let mut i: usize = 0;
        while i < n
            invariant
                n == self.slots@.len(),
                n == w0.slots.len(),
                i <= n,
                self@ == (WorldView { slots: self@.slots, ..w0 }),
                forall|j: int| 0 <= j < i ==> #[trigger] self@.slots[j] == cleanup_slot(w0.slots[j]),
                forall|j: int| i <= j < n ==> #[trigger] self@.slots[j] == w0.slots[j],
                gone@ == finished_entities(w0.slots, i as int),
            decreases n - i,
        {
            assert(self@.slots[i as int] == self.slots@[i as int]@);
            let done = match &self.slots[i].record {
                Some(rec) => rec.despawn && rec.inflight.is_none(),
                None => false,
            };
            assert(done == finished(w0.slots[i as int]));
            let ghost prev = self@;
            let ghost prev_slots = self.slots@;
            if done {
                let generation = self.slots[i].generation;
                self.slots[i] = Slot { generation, record: None };
                gone.push(Entity { index: i, generation });
            }
            assert(self@.slots[i as int] == cleanup_slot(w0.slots[i as int]));
            assert forall|j: int| 0 <= j < n && j != i implies #[trigger] self@.slots[j]
                == prev.slots[j] by {
                assert(self@.slots[j] == self.slots@[j]@);
                assert(prev.slots[j] == prev_slots[j]@);
            }
            i += 1;
        }
        proof {
            let w1 = self@;
            assert(w1.slots =~= w0.cleanup().slots);
            assert forall|i: int, r: RequestId|
                0 <= i < w1.slots.len() && #[trigger] holds_request(w1.slots[i], r) implies holds_request(
                w0.slots[i],
                r,
            ) by {}
        }
        gone
    }

    /// Handles one completion: when it reports the request inflight on its
    /// live target, that request is cleared and a delivery is returned.
    fn deliver_one<E>(&mut self, c: Completion<E>) -> (r: Option<Delivery<E>>)
        requires
            old(self)@.wf(),
        ensures
            final(self)@ == old(self)@.deliver_one(c).0,
            r is Some <==> old(self)@.deliver_one(c).1 is Some,
            r matches Some(d) ==> old(self)@.deliver_one(c).1 == Some(d@),
            final(self)@.wf(),
    {
        let idx = c.target.index;
        if !self.contains(c.target) {
            return None;
        }
        let accepted = match &self.slots[idx].record {
            Some(rec) => match &rec.inflight {
                Some(f) => f.request == c.request,
                None => false,
            },
            None => false,
        };
        if !accepted {
            return None;
        }
        let mut slot = Slot { generation: c.target.generation, record: None };
        std::mem::swap(&mut slot, &mut self.slots[idx]);
        let mut rec = slot.record.unwrap();
        let ghost before = rec@;
        let observers = matching_observers(&rec.observers, c.outcome.event_kind());
        rec.inflight = None;
        self.slots[idx] = Slot { generation: c.target.generation, record: Some(rec) };
        self.delivered = Ghost(self.delivered@.insert(c.request));
        proof {
            let w0 = old(self)@;
            let w1 = self@;
            assert(before == w0.record(c.target));
            assert(w1.slots =~= w0.deliver_one(c).0.slots);
            assert forall|i: int, r: RequestId|
                0 <= i < w1.slots.len() && #[trigger] holds_request(w1.slots[i], r) implies i != idx
                && holds_request(w0.slots[i], r) && r != c.request by {
                if i != idx && r == c.request {
                    assert(holds_request(w0.slots[idx as int], r));
                }
            }
        }
        Some(Delivery { target: c.target, request: c.request, outcome: c.outcome, observers })
    }

    /// Second phase of a tick: handles the completions in order and returns
    /// the deliveries they produce.
    pub(crate) fn deliver_all<E>(&mut self, ready: Vec<Completion<E>>) -> (ds: Vec<Delivery<E>>)
        requires
            old(self)@.wf(),
        ensures
            final(self)@ == old(self)@.deliver_all(ready@).0,
            ds@.map_values(|d: Delivery<E>| d@) == old(self)@.deliver_all(ready@).1,
            final(self)@.wf(),
    {
        let ghost cs = ready@;
        let ghost w0 = self@;
        let mut ready = ready;
        let mut ds: Vec<Delivery<E>> = Vec::new();
        let n = ready.len();
        let mut k: usize = 0;
        while k < n
            invariant
                n == cs.len(),
                k <= n,
                ready@ == cs.subrange(k as int, n as int),
                self@.wf(),
                self@ == w0.deliver_all(cs.take(k as int)).0,
                ds@.map_values(|d: Delivery<E>| d@) == w0.deliver_all(cs.take(k as int)).1,
            decreases n - k,
        {
            let c = ready.remove(0);
            assert(cs.take(k + 1).drop_last() =~= cs.take(k as int));
            assert(c == cs[k as int]);
            let ghost prev = ds@;
            match self.deliver_one(c) {
                Some(d) => {
                    ds.push(d);
                    assert(ds@.map_values(|d: Delivery<E>| d@) =~= prev.map_values(
                        |d: Delivery<E>| d@,
                    ).push(d@));
                },
                None => {},
            }
            k += 1;
        }
        assert(cs.take(n as int) =~= cs);
        ds
    }
}

impl BevyReqwestBuilder {
    /// Registers an observer for the response of this request's entity;
    /// `None` when the entity is gone.
    pub fn on_response(&self, world: &mut BevyReqwest) -> (r: Option<ObserverId>)
        requires
            old(world)@.wf(),
            old(world)@.next_observer < u64::MAX,
        ensures
            r is Some <==> old(world)@.alive(self.entity),
            r matches Some(id) ==> id == ObserverId(old(world)@.next_observer),
            final(world)@ == old(world)@.observe(self.entity, EventKind::Response),
            final(world)@.wf(),
    {
        world.observe(self.entity, EventKind::Response)
    }

    /// Registers an observer for the error of this request's entity; `None`
    /// when the entity is gone.
    pub fn on_error(&self, world: &mut BevyReqwest) -> (r: Option<ObserverId>)
        requires
            old(world)@.wf(),
            old(world)@.next_observer < u64::MAX,
        ensures
            r is Some <==> old(world)@.alive(self.entity),
            r matches Some(id) ==> id == ObserverId(old(world)@.next_observer),
            final(world)@ == old(world)@.observe(self.entity, EventKind::Error),
            final(world)@.wf(),
    {
        world.observe(self.entity, EventKind::Error)
    }
}

} // verus!
