use vstd::prelude::*;

use crate::ids::{Entity, RequestId};
use crate::model::{
    cleanup_slot, finished, holds_request, matching, InflightView, SlotView, WorldView,
};
use crate::response::Completion;

verus! {

/// `b` is slot `a` after a step that leaves every entity in place and may
/// only clear its inflight request.
pub open spec fn kept(a: SlotView, b: SlotView) -> bool {
    &&& b.generation == a.generation
    &&& b.record is Some <==> a.record is Some
    &&& a.record is Some ==> {
        let ra = a.record->Some_0;
        let rb = b.record->Some_0;
        &&& rb.name == ra.name
        &&& rb.despawn == ra.despawn
        &&& rb.observers == ra.observers
        &&& (rb.inflight == ra.inflight || rb.inflight is None)
    }
}

/// Every slot of `w2` is the same slot of `w` kept, and the counters and
/// configuration are unchanged.
pub open spec fn frame(w: WorldView, w2: WorldView) -> bool {
    &&& w2.slots.len() == w.slots.len()
    &&& w2.next_request == w.next_request
    &&& w2.next_observer == w.next_observer
    &&& w2.auto_name == w.auto_name
    &&& forall|i: int| 0 <= i < w.slots.len() ==> kept(w.slots[i], #[trigger] w2.slots[i])
}

/// Cleanup keeps the world well formed and removes exactly the finished
/// entities.
pub proof fn lemma_cleanup(w: WorldView)
    requires
        w.wf(),
    ensures
        w.cleanup().wf(),
        w.cleanup().slots.len() == w.slots.len(),
        forall|i: int|
            0 <= i < w.slots.len() ==> #[trigger] w.cleanup().slots[i] == cleanup_slot(w.slots[i]),
{
    let c = w.cleanup();
    assert forall|i: int, r: RequestId|
        0 <= i < c.slots.len() && #[trigger] holds_request(c.slots[i], r) implies holds_request(
        w.slots[i],
        r,
    ) by {}
}

/// One completion: a delivery happens exactly for the request inflight on
/// the live target, which it clears and records as delivered.
pub proof fn lemma_deliver_one<E>(w: WorldView, c: Completion<E>)
    requires
        w.wf(),
    ensures
        ({
            let (w2, d) = w.deliver_one(c);
            &&& w2.wf()
            &&& frame(w, w2)
            &&& forall|r: RequestId| #[trigger]
                w2.delivered.contains(r) <==> w.delivered.contains(r) || (d is Some && r
                    == c.request)
            &&& forall|i: int, r: RequestId|
                0 <= i < w2.slots.len() && #[trigger] holds_request(w2.slots[i], r)
                    ==> holds_request(w.slots[i], r)
            &&& d is Some <==> w.accepts(c)
            &&& d is Some ==> {
                &&& w2.alive(c.target)
                &&& w2.record(c.target).inflight is None
                &&& !w2.holds(c.request)
            }
        }),
{
    let (w2, d) = w.deliver_one(c);
    if w.accepts(c) {
        let idx = c.target.index as int;
        assert forall|i: int, r: RequestId|
            0 <= i < w2.slots.len() && #[trigger] holds_request(w2.slots[i], r) implies i != idx
            && holds_request(w.slots[i], r) && r != c.request by {
            if r == c.request {
                assert(holds_request(w.slots[idx], r));
            }
        }
        assert forall|i: int| 0 <= i < w.slots.len() implies kept(
            w.slots[i],
            #[trigger] w2.slots[i],
        ) by {}
    } else {
        assert forall|i: int| 0 <= i < w.slots.len() implies kept(
            w.slots[i],
            #[trigger] w2.slots[i],
        ) by {}
    }
}

/// The delivery phase keeps every entity and what is attached to it, and
/// only clears inflight requests; each delivery is for a request inflight on
/// its target and never delivered before, no request is delivered twice, and
/// it goes to the observers of the outcome's kind only.
pub proof fn lemma_deliver_all<E>(w: WorldView, cs: Seq<Completion<E>>)
    requires
        w.wf(),
    ensures
        ({
            let (w2, ds) = w.deliver_all(cs);
            &&& w2.wf()
            &&& frame(w, w2)
            &&& forall|i: int, r: RequestId|
                0 <= i < w2.slots.len() && #[trigger] holds_request(w2.slots[i], r)
                    ==> holds_request(w.slots[i], r)
            &&& forall|r: RequestId| #[trigger]
                w2.delivered.contains(r) <==> w.delivered.contains(r) || exists|k: int|
                    0 <= k < ds.len() && #[trigger] ds[k].request == r
            &&& forall|k: int|
                0 <= k < ds.len() ==> {
                    &&& w.alive(#[trigger] ds[k].target)
                    &&& holds_request(w.slots[ds[k].target.index as int], ds[k].request)
                    &&& !w.delivered.contains(ds[k].request)
                    &&& ds[k].observers == matching(
                        w.record(ds[k].target).observers,
                        ds[k].outcome.kind(),
                    )
                    &&& w2.alive(ds[k].target)
                    &&& w2.record(ds[k].target).inflight is None
                    &&& !w2.holds(ds[k].request)
                }
            &&& forall|k: int, l: int|
                0 <= k < l < ds.len() ==> #[trigger] ds[k].request != #[trigger] ds[l].request
        }),
    decreases cs.len(),
{
    if cs.len() == 0 {
        let (w2, ds) = w.deliver_all(cs);
        assert forall|i: int| 0 <= i < w.slots.len() implies kept(
            w.slots[i],
            #[trigger] w2.slots[i],
        ) by {}
    } else {
        lemma_deliver_all(w, cs.drop_last());
        let (w1, ds1) = w.deliver_all(cs.drop_last());
        let c = cs.last();
        lemma_deliver_one(w1, c);
        let (w2, d) = w1.deliver_one(c);
        let ds = w.deliver_all(cs).1;
        assert(w.deliver_all(cs).0 == w2);
        assert forall|i: int| 0 <= i < w.slots.len() implies kept(
            w.slots[i],
            #[trigger] w2.slots[i],
        ) by {
            assert(kept(w.slots[i], w1.slots[i]));
            assert(kept(w1.slots[i], w2.slots[i]));
        }
        match d {
            Some(dv) => {
                assert(ds == ds1.push(dv));
                let idx = c.target.index as int;
                assert(kept(w.slots[idx], w1.slots[idx]));
                assert(holds_request(w1.slots[idx], c.request));
                assert(holds_request(w.slots[idx], c.request));
                assert forall|k: int| 0 <= k < ds1.len() implies #[trigger] ds1[k].request
                    != c.request by {
                    assert(w1.delivered.contains(ds1[k].request));
                }
                assert forall|k: int|
                    0 <= k < ds.len() implies w2.alive(#[trigger] ds[k].target) && w2.record(
                    ds[k].target,
                ).inflight is None && !w2.holds(ds[k].request) by {
                    if k < ds1.len() {
                        let t = ds1[k].target.index as int;
                        assert(kept(w1.slots[t], w2.slots[t]));
                        if w2.holds(ds1[k].request) {
                            let i = choose|i: int|
                                0 <= i < w2.slots.len() && #[trigger] holds_request(
                                    w2.slots[i],
                                    ds1[k].request,
                                );
                            assert(holds_request(w1.slots[i], ds1[k].request));
                        }
                    }
                }
                assert forall|r: RequestId| #[trigger]
                    w2.delivered.contains(r) implies w.delivered.contains(r) || exists|k: int|
                        0 <= k < ds.len() && #[trigger] ds[k].request == r by {
                    if !w.delivered.contains(r) && r != c.request {
                        let k = choose|k: int| 0 <= k < ds1.len() && #[trigger] ds1[k].request == r;
                        assert(ds[k].request == r);
                    }
                    if r == c.request {
                        assert(ds[ds1.len() as int].request == r);
                    }
                }
                assert forall|r: RequestId|
                    w.delivered.contains(r) || (exists|k: int|
                        0 <= k < ds.len() && #[trigger] ds[k].request == r) implies #[trigger]
                w2.delivered.contains(r) by {
                    if !w.delivered.contains(r) {
                        let k = choose|k: int| 0 <= k < ds.len() && #[trigger] ds[k].request == r;
                        if k < ds1.len() {
                            assert(ds1[k].request == r);
                        }
                    }
                }
            },
            None => {
                assert(ds == ds1);
                assert forall|k: int|
                    0 <= k < ds.len() implies w2.alive(#[trigger] ds[k].target) && w2.record(
                    ds[k].target,
                ).inflight is None && !w2.holds(ds[k].request) by {
                    let t = ds1[k].target.index as int;
                    assert(kept(w1.slots[t], w2.slots[t]));
                }
            },
        }
    }
}

/// Delivery at most once, and never both kinds: within a tick each delivery
/// is for a distinct request that had not been delivered before, reaches only
/// the observers of its outcome's kind, and leaves the request delivered and
/// no longer inflight anywhere, so that no later tick can deliver it again.
pub proof fn lemma_delivered_at_most_once<E>(w: WorldView, cs: Seq<Completion<E>>)
    requires
        w.wf(),
    ensures
        ({
            let (w2, gone, ds) = w.tick(cs);
            &&& w2.wf()
            &&& forall|k: int|
                0 <= k < ds.len() ==> {
                    &&& !w.delivered.contains(#[trigger] ds[k].request)
                    &&& w2.delivered.contains(ds[k].request)
                    &&& !w2.holds(ds[k].request)
                    &&& ds[k].observers == matching(
                        w.record(ds[k].target).observers,
                        ds[k].outcome.kind(),
                    )
                }
            &&& forall|k: int, l: int|
                0 <= k < l < ds.len() ==> #[trigger] ds[k].request != #[trigger] ds[l].request
        }),
{
    lemma_cleanup(w);
    let wc = w.cleanup();
    lemma_deliver_all(wc, cs);
    let ds = w.tick(cs).2;
    assert forall|k: int| 0 <= k < ds.len() implies w.delivered.contains(#[trigger] ds[k].request)
        == false && ds[k].observers == matching(
        w.record(ds[k].target).observers,
        ds[k].outcome.kind(),
    ) by {
        let t = ds[k].target.index as int;
        assert(wc.slots[t] == cleanup_slot(w.slots[t]));
    }
}

/// An entity marked for removal (as `send` marks its entity) stays through
/// the tick that delivers its request, so observers can still read it, and
/// is gone after the following tick.
pub proof fn lemma_removed_two_ticks_after_delivery<E>(
    w: WorldView,
    cs1: Seq<Completion<E>>,
    cs2: Seq<Completion<E>>,
    e: Entity,
    k: int,
)
    requires
        w.wf(),
        w.alive(e),
        w.record(e).despawn,
        0 <= k < w.tick(cs1).2.len(),
        w.tick(cs1).2[k].target == e,
    ensures
        w.tick(cs1).0.alive(e),
        !w.tick(cs1).0.tick(cs2).0.alive(e),
{
    lemma_cleanup(w);
    let wc = w.cleanup();
    lemma_deliver_all(wc, cs1);
    let w1 = w.tick(cs1).0;
    let t = e.index as int;
    assert(wc.slots[t] == cleanup_slot(w.slots[t]));
    assert(kept(wc.slots[t], w1.slots[t]));
    assert(finished(w1.slots[t]));
    lemma_cleanup(w1);
    let w1c = w1.cleanup();
    assert(w1c.slots[t] == cleanup_slot(w1.slots[t]));
    lemma_deliver_all(w1c, cs2);
    let w2 = w1.tick(cs2).0;
    assert(kept(w1c.slots[t], w2.slots[t]));
}

/// `send` puts its request on a new live entity that carries the removal
/// marker, with a request identity no entity held before.
pub proof fn lemma_send_marks_entity(w: WorldView, i: int, url: Seq<char>)
    requires
        w.wf(),
        w.next_request < u64::MAX,
        w.spawn_index_ok(i),
        w.slots.len() < usize::MAX,
    ensures
        ({
            let w2 = w.send_at(i, url);
            let e = w.spawned_entity(i);
            &&& w2.alive(e)
            &&& w2.record(e).despawn
            &&& w2.record(e).inflight == Some(
                InflightView { url, request: w.next_request_id() },
            )
            &&& !w.holds(w.next_request_id())
            &&& !w.delivered.contains(w.next_request_id())
        }),
{
    if w.holds(w.next_request_id()) {
        let j = choose|j: int|
            0 <= j < w.slots.len() && #[trigger] holds_request(w.slots[j], w.next_request_id());
        assert(holds_request(w.slots[j], w.next_request_id()));
    }
}

/// An entity without the removal marker (as with `send_using_entity`) is
/// never removed by a tick, and keeps lacking the marker, whether its
/// request succeeds or fails.
pub proof fn lemma_unmarked_entity_survives<E>(w: WorldView, cs: Seq<Completion<E>>, e: Entity)
    requires
        w.wf(),
        w.alive(e),
        !w.record(e).despawn,
    ensures
        w.tick(cs).0.alive(e),
        !w.tick(cs).0.record(e).despawn,
{
    lemma_cleanup(w);
    let wc = w.cleanup();
    lemma_deliver_all(wc, cs);
    let t = e.index as int;
    assert(wc.slots[t] == cleanup_slot(w.slots[t]));
    assert(kept(wc.slots[t], w.tick(cs).0.slots[t]));
}

/// Submitting on an existing entity keeps it alive and leaves its removal
/// marker as it was.
pub proof fn lemma_send_using_keeps_entity(w: WorldView, e: Entity, url: Seq<char>)
    requires
        w.alive(e),
    ensures
        w.send_using(e, url).alive(e),
        w.send_using(e, url).record(e).despawn == w.record(e).despawn,
{
}

/// A request for which no completion is reported stays inflight on its
/// entity through the tick, and nothing is delivered for it.
pub proof fn lemma_pending_request_stays<E>(w: WorldView, cs: Seq<Completion<E>>, e: Entity)
    requires
        w.wf(),
        w.alive(e),
        w.record(e).inflight is Some,
        forall|k: int| 0 <= k < cs.len() ==> #[trigger] cs[k].request != w.record(
            e,
        ).inflight->Some_0.request,
    ensures
        w.tick(cs).0.alive(e),
        w.tick(cs).0.record(e).inflight == w.record(e).inflight,
        forall|k: int| 0 <= k < w.tick(cs).2.len() ==> #[trigger] w.tick(cs).2[k].request
            != w.record(e).inflight->Some_0.request,
    decreases cs.len(),
{
    lemma_cleanup(w);
    let wc = w.cleanup();
    let t = e.index as int;
    assert(wc.slots[t] == cleanup_slot(w.slots[t]));
    lemma_pending_delivery(wc, cs, e);
}

proof fn lemma_pending_delivery<E>(w: WorldView, cs: Seq<Completion<E>>, e: Entity)
    requires
        w.wf(),
        w.alive(e),
        w.record(e).inflight is Some,
        forall|k: int| 0 <= k < cs.len() ==> #[trigger] cs[k].request != w.record(
            e,
        ).inflight->Some_0.request,
    ensures
        w.deliver_all(cs).0.alive(e),
        w.deliver_all(cs).0.record(e).inflight == w.record(e).inflight,
        forall|k: int| 0 <= k < w.deliver_all(cs).1.len() ==> #[trigger] w.deliver_all(cs).1[k].request
            != w.record(e).inflight->Some_0.request,
    decreases cs.len(),
{
    if cs.len() > 0 {
        let pre = cs.drop_last();
        assert forall|k: int| 0 <= k < pre.len() implies #[trigger] pre[k].request != w.record(
            e,
        ).inflight->Some_0.request by {
            assert(pre[k] == cs[k]);
        }
        lemma_pending_delivery(w, pre, e);
        lemma_deliver_all(w, pre);
        let w1 = w.deliver_all(pre).0;
        lemma_deliver_one(w1, cs.last());
        assert(cs.last() == cs[cs.len() - 1]);
    }
}

} // verus!
