use bevy_mod_reqwest::{
    BevyReqwest, Completion, Entity, EventKind, ReqwestErrorEvent, ReqwestPlugin,
    ReqwestResponseEvent, RequestId, RequestOutcome,
};

fn world() -> BevyReqwest {
    ReqwestPlugin::default().build()
}

fn ok_outcome(status: u16, body: &[u8]) -> RequestOutcome<String> {
    RequestOutcome::Success(ReqwestResponseEvent::new(body.to_vec(), status, vec![]))
}

fn err_outcome(msg: &str) -> RequestOutcome<String> {
    RequestOutcome::Failure(ReqwestErrorEvent(msg.to_string()))
}

fn done(target: Entity, request: RequestId, outcome: RequestOutcome<String>) -> Completion<String> {
    Completion { target, request, outcome }
}

#[test]
fn response_is_delivered_once_to_response_observers() {
    let mut w = world();
    let b = w.send("http://example.com/a".to_string());
    let on_ok = b.on_response(&mut w).unwrap();
    let on_err = b.on_error(&mut w).unwrap();
    assert_ne!(on_ok, on_err);

    let out = ReqwestPlugin::tick(&mut w, vec![done(b.entity, b.request, ok_outcome(200, b"{\"a\":1}"))]);
    assert!(out.despawned.is_empty());
    assert_eq!(out.deliveries.len(), 1);
    let d = &out.deliveries[0];
    assert_eq!(d.target, b.entity);
    assert_eq!(d.request, b.request);
    assert_eq!(d.observers, vec![on_ok]);
    match &d.outcome {
        RequestOutcome::Success(ev) => {
            assert_eq!(ev.status(), 200);
            let v: serde_json::Value = serde_json::from_str(ev.as_str().unwrap()).unwrap();
            assert_eq!(v["a"], serde_json::Value::from(1));
        }
        RequestOutcome::Failure(_) => panic!("expected a response"),
    }

    // The same completion reported again is not delivered a second time.
    let again = ReqwestPlugin::tick(&mut w, vec![done(b.entity, b.request, ok_outcome(200, b"{}"))]);
    assert!(again.deliveries.is_empty());
}

#[test]
fn transport_error_goes_to_error_observers_only() {
    let mut w = world();
    let b = w.send("http://unreachable.invalid/".to_string());
    let on_ok = b.on_response(&mut w).unwrap();
    let on_err = b.on_error(&mut w).unwrap();
    let out = ReqwestPlugin::tick(&mut w, vec![done(b.entity, b.request, err_outcome("connect"))]);
    assert_eq!(out.deliveries.len(), 1);
    assert_eq!(out.deliveries[0].observers, vec![on_err]);
    assert!(!out.deliveries[0].observers.contains(&on_ok));
    assert_eq!(out.deliveries[0].outcome.event_kind(), EventKind::Error);
    match &out.deliveries[0].outcome {
        RequestOutcome::Failure(ReqwestErrorEvent(e)) => assert_eq!(e, "connect"),
        RequestOutcome::Success(_) => panic!("expected an error"),
    }
}

#[test]
fn sent_entity_is_removed_on_the_tick_after_delivery() {
    let mut w = world();
    let b = w.send("http://example.com/".to_string());
    assert!(w.has_despawn_marker(b.entity));

    let t1 = ReqwestPlugin::tick(&mut w, vec![done(b.entity, b.request, ok_outcome(204, b""))]);
    assert_eq!(t1.deliveries.len(), 1);
    assert!(w.contains(b.entity));
    assert_eq!(w.inflight_request(b.entity), None);

    let t2 = ReqwestPlugin::tick::<String>(&mut w, vec![]);
    assert_eq!(t2.despawned, vec![b.entity]);
    assert!(!w.contains(b.entity));
}

#[test]
fn fire_and_forget_leaves_nothing_behind() {
    let mut w = world();
    let b = w.send("http://example.com/ping".to_string());
    let t1 = ReqwestPlugin::tick(&mut w, vec![done(b.entity, b.request, err_outcome("timeout"))]);
    assert_eq!(t1.deliveries.len(), 1);
    assert!(t1.deliveries[0].observers.is_empty());
    let t2 = ReqwestPlugin::tick::<String>(&mut w, vec![]);
    assert_eq!(t2.despawned, vec![b.entity]);
    assert!(!w.contains(b.entity));
    assert_eq!(w.inflight_request(b.entity), None);
}

#[test]
fn send_using_entity_never_removes_the_entity() {
    let mut w = world();
    let e = w.spawn_empty();
    let b = w.send_using_entity(e, "http://example.com/1".to_string()).unwrap();
    assert_eq!(b.entity, e);
    assert!(!w.has_despawn_marker(e));
    let t1 = ReqwestPlugin::tick(&mut w, vec![done(e, b.request, err_outcome("reset"))]);
    assert_eq!(t1.deliveries.len(), 1);
    let b2 = w.send_using_entity(e, "http://example.com/2".to_string()).unwrap();
    assert_ne!(b2.request, b.request);
    let t2 = ReqwestPlugin::tick(&mut w, vec![done(e, b2.request, ok_outcome(200, b"ok"))]);
    assert_eq!(t2.deliveries.len(), 1);
    for _ in 0..3 {
        let t = ReqwestPlugin::tick::<String>(&mut w, vec![]);
        assert!(t.despawned.is_empty());
    }
    assert!(w.contains(e));
}

#[test]
fn send_using_a_gone_entity_gives_none() {
    let mut w = world();
    let e = w.spawn_empty();
    assert!(w.despawn(e));
    assert!(!w.despawn(e));
    assert!(w.send_using_entity(e, "http://example.com/".to_string()).is_none());
}

#[test]
fn pending_request_stays_inflight() {
    let mut w = world();
    let b = w.send("http://example.com/slow".to_string());
    for _ in 0..5 {
        let t = ReqwestPlugin::tick::<String>(&mut w, vec![]);
        assert!(t.deliveries.is_empty());
        assert!(t.despawned.is_empty());
        assert_eq!(w.inflight_request(b.entity), Some(b.request));
    }
}

#[test]
fn two_requests_in_one_tick_complete_independently() {
    let mut w = world();
    let a = w.send("http://example.com/a".to_string());
    let b = w.send("http://example.com/b".to_string());
    assert_ne!(a.entity, b.entity);
    assert_ne!(a.request, b.request);
    let oa = a.on_response(&mut w).unwrap();
    let ob = b.on_error(&mut w).unwrap();
    let t = ReqwestPlugin::tick(
        &mut w,
        vec![done(b.entity, b.request, err_outcome("dns")), done(a.entity, a.request, ok_outcome(200, b"A"))],
    );
    assert_eq!(t.deliveries.len(), 2);
    assert_eq!(t.deliveries[0].target, b.entity);
    assert_eq!(t.deliveries[0].observers, vec![ob]);
    assert_eq!(t.deliveries[1].target, a.entity);
    assert_eq!(t.deliveries[1].observers, vec![oa]);
    let t2 = ReqwestPlugin::tick::<String>(&mut w, vec![]);
    assert_eq!(t2.despawned, vec![a.entity, b.entity]);
}

#[test]
fn completion_for_a_removed_entity_is_dropped() {
    let mut w = world();
    let b = w.send("http://example.com/".to_string());
    assert!(w.despawn(b.entity));
    let t = ReqwestPlugin::tick(&mut w, vec![done(b.entity, b.request, ok_outcome(200, b""))]);
    assert!(t.deliveries.is_empty());
}

#[test]
fn stale_entity_does_not_reach_a_reused_slot() {
    let mut w = world();
    let old = w.spawn_empty();
    assert!(w.despawn(old));
    let new = w.spawn_empty();
    assert_eq!(new.index, old.index);
    assert_eq!(new.generation, old.generation + 1);
    assert!(!w.contains(old));
    assert!(w.contains(new));
    assert!(w.send_using_entity(old, "http://example.com/".to_string()).is_none());
}

#[test]
fn replaced_request_is_not_delivered() {
    let mut w = world();
    let e = w.spawn_empty();
    let first = w.send_using_entity(e, "http://example.com/1".to_string()).unwrap();
    let second = w.send_using_entity(e, "http://example.com/2".to_string()).unwrap();
    let t = ReqwestPlugin::tick(
        &mut w,
        vec![done(e, first.request, ok_outcome(200, b"1")), done(e, second.request, ok_outcome(200, b"2"))],
    );
    assert_eq!(t.deliveries.len(), 1);
    assert_eq!(t.deliveries[0].request, second.request);
}

#[test]
fn requests_are_named_from_their_url() {
    let mut w = world();
    let b = w.send("http://example.com/x".to_string());
    assert_eq!(w.name(b.entity), Some("http: http://example.com/x".to_string()));

    let e = w.spawn_empty();
    assert!(w.insert_name(e, "mine".to_string()));
    w.send_using_entity(e, "http://example.com/y".to_string()).unwrap();
    assert_eq!(w.name(e), Some("mine".to_string()));
}

#[test]
fn naming_can_be_turned_off() {
    let mut w = ReqwestPlugin { automatically_name_requests: false }.build();
    let b = w.send("http://example.com/x".to_string());
    assert_eq!(w.name(b.entity), None);
}

#[test]
fn observers_on_a_gone_entity_are_refused() {
    let mut w = world();
    let b = w.send("http://example.com/".to_string());
    assert!(w.despawn(b.entity));
    assert!(b.on_response(&mut w).is_none());
    assert!(b.on_error(&mut w).is_none());
}

#[test]
fn cleanup_only_removes_marked_idle_entities() {
    let mut w = world();
    let idle = w.spawn_empty();
    let b = w.send("http://example.com/".to_string());
    let gone = ReqwestPlugin::remove_finished_requests(&mut w);
    assert!(gone.is_empty());
    assert!(w.contains(idle));
    let ds = ReqwestPlugin::poll_inflight_requests_to_bytes(&mut w, vec![done(b.entity, b.request, ok_outcome(200, b""))]);
    assert_eq!(ds.len(), 1);
    let gone = ReqwestPlugin::remove_finished_requests(&mut w);
    assert_eq!(gone, vec![b.entity]);
    assert!(w.contains(idle));
}

#[test]
fn fresh_world_accepts_requests() {
    let w = world();
    assert!(w.can_send());
    assert!(w.can_observe());
    assert!(ReqwestPlugin::default().automatically_name_requests);
}
