//! Lifecycle of HTTP requests driven by a host's per-tick update loop.
//!
//! A request is attached to an entity of an arena, polled once per tick by the
//! host, delivered exactly once to the observers registered on that entity,
//! and cleaned up afterwards. Executing the request and polling its
//! background task are the host's part; every decision about state lives here.

mod ids;
mod laws;
mod model;
mod plugin;
mod response;
mod world;

pub use ids::{Entity, EventKind, Observer, ObserverId, RequestId};
pub use laws::{
    frame, kept, lemma_cleanup, lemma_deliver_all, lemma_deliver_one,
    lemma_delivered_at_most_once, lemma_pending_request_stays,
    lemma_removed_two_ticks_after_delivery, lemma_send_marks_entity,
    lemma_send_using_keeps_entity, lemma_unmarked_entity_survives,
};
pub use model::{
    cleanup_slot, empty_record, finished, finished_entities, holds_request, label, matching,
    reusable, with_inflight, InflightView, RecordView, SlotView, WorldView,
};
pub use plugin::{deliveries_view, ReqwestPlugin, TickOutput};
pub use response::{
    BodyError, Completion, Delivery, DeliveryView, Parts, ReqwestErrorEvent,
    ReqwestResponseEvent, RequestOutcome, ResponseView,
};
pub use world::{inflight_view, name_view, BevyReqwest, BevyReqwestBuilder, ReqwestInflight};
