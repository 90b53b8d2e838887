use vstd::prelude::*;

use crate::ids::Entity;
use crate::model::{finished_entities, WorldView};
use crate::response::{Completion, Delivery, DeliveryView};
use crate::world::BevyReqwest;

verus! {

/// Configuration of the request lifecycle.
pub struct ReqwestPlugin {
    /// Give each entity that drives a request, and has no name yet, a name
    /// made from the request's URL.
    pub automatically_name_requests: bool,
}

impl Default for ReqwestPlugin {
    fn default() -> (r: Self)
        ensures
            r.automatically_name_requests,
    {
        ReqwestPlugin { automatically_name_requests: true }
    }
}

/// What one tick did: the entities it removed and the notifications to hand
/// to observers.
pub struct TickOutput<E> {
    pub despawned: Vec<Entity>,
    pub deliveries: Vec<Delivery<E>>,
}

pub open spec fn deliveries_view<E>(ds: Seq<Delivery<E>>) -> Seq<DeliveryView<E>> {
    ds.map_values(|d: Delivery<E>| d@)
}

impl ReqwestPlugin {
    /// The empty request arena under this configuration.
    pub fn build(&self) -> (r: BevyReqwest)
        ensures
            r@ == (WorldView {
                slots: seq![],
                next_request: 0,
                next_observer: 0,
                auto_name: self.automatically_name_requests,
                delivered: Set::empty(),
            }),
            r@.wf(),
    {
        BevyReqwest::new(self.automatically_name_requests)
    }

    /// Removes every entity marked for removal that has no request inflight,
    /// and returns them in slot order.
    pub fn remove_finished_requests(world: &mut BevyReqwest) -> (gone: Vec<Entity>)
        requires
            old(world)@.wf(),
        ensures
            final(world)@ == old(world)@.cleanup(),
            gone@ == finished_entities(old(world)@.slots, old(world)@.slots.len() as int),
            final(world)@.wf(),
    {
        world.cleanup()
    }

    /// Handles the completions the host observed by polling, in order: each
    /// one for the request inflight on its live target clears that request
    /// and yields a delivery; every other one is dropped.
    pub fn poll_inflight_requests_to_bytes<E>(
        world: &mut BevyReqwest,
        ready: Vec<Completion<E>>,
    ) -> (ds: Vec<Delivery<E>>)
        requires
            old(world)@.wf(),
        ensures
            final(world)@ == old(world)@.deliver_all(ready@).0,
            deliveries_view(ds@) == old(world)@.deliver_all(ready@).1,
            final(world)@.wf(),
    {
        world.deliver_all(ready)
    }

    /// One tick: cleanup first, so that an entity whose outcome was delivered
    /// on the previous tick is removed only now, then delivery.
    pub fn tick<E>(world: &mut BevyReqwest, ready: Vec<Completion<E>>) -> (out: TickOutput<E>)
        requires
            old(world)@.wf(),
        ensures
            final(world)@ == old(world)@.tick(ready@).0,
            out.despawned@ == old(world)@.tick(ready@).1,
            deliveries_view(out.deliveries@) == old(world)@.tick(ready@).2,
            final(world)@.wf(),
    {
        let despawned = Self::remove_finished_requests(world);
        let deliveries = Self::poll_inflight_requests_to_bytes(world, ready);
        TickOutput { despawned, deliveries }
    }
}

} // verus!
