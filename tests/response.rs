use bevy_mod_reqwest::{BodyError, EventKind, Parts, ReqwestErrorEvent, ReqwestResponseEvent, RequestOutcome};

#[test]
fn as_str_returns_the_exact_text() {
    let body = "héllo, wörld ✓".as_bytes().to_vec();
    let ev = ReqwestResponseEvent::new(body.clone(), 200, vec![]);
    assert_eq!(ev.as_str(), Ok("héllo, wörld ✓"));
    assert_eq!(ev.as_str().unwrap().as_bytes(), body.as_slice());
    assert_eq!(ev.as_string(), Ok("héllo, wörld ✓".to_string()));
}

#[test]
fn as_str_on_invalid_utf8_is_an_error() {
    let ev = ReqwestResponseEvent::new(vec![0x66, 0x6f, 0xff, 0x6f], 200, vec![]);
    assert_eq!(ev.as_str(), Err(BodyError::InvalidUtf8));
    assert_eq!(ev.as_string(), Err(BodyError::InvalidUtf8));
    let truncated = ReqwestResponseEvent::new(vec![0xe2, 0x9c], 200, vec![]);
    assert_eq!(truncated.as_str(), Err(BodyError::InvalidUtf8));
}

#[test]
fn empty_body_is_empty_text() {
    let ev = ReqwestResponseEvent::new(vec![], 204, vec![]);
    assert_eq!(ev.as_str(), Ok(""));
    assert!(ev.body().is_empty());
}

#[test]
fn accessors_return_what_was_stored() {
    let headers = vec![("content-type".to_string(), b"application/json".to_vec())];
    let ev = ReqwestResponseEvent::new(b"{\"a\":1}".to_vec(), 404, headers.clone());
    assert_eq!(ev.status(), 404);
    assert_eq!(ev.body(), b"{\"a\":1}");
    assert_eq!(ev.response_headers(), &headers);
}

#[test]
fn parts_and_body_make_a_success() {
    let parts = Parts { status: 201, headers: vec![("x".to_string(), b"y".to_vec())] };
    let out: RequestOutcome<String> = RequestOutcome::from_parts(parts, Ok(b"done".to_vec()));
    assert_eq!(out.event_kind(), EventKind::Response);
    match out {
        RequestOutcome::Success(ev) => {
            assert_eq!(ev.status(), 201);
            assert_eq!(ev.as_str(), Ok("done"));
            assert_eq!(ev.response_headers().len(), 1);
        }
        RequestOutcome::Failure(_) => panic!("expected a response"),
    }
}

#[test]
fn failed_body_read_makes_a_failure() {
    let parts = Parts { status: 200, headers: vec![] };
    let out: RequestOutcome<String> = RequestOutcome::from_parts(parts, Err("body".to_string()));
    assert_eq!(out.event_kind(), EventKind::Error);
    match out {
        RequestOutcome::Failure(ReqwestErrorEvent(e)) => assert_eq!(e, "body"),
        RequestOutcome::Success(_) => panic!("expected an error"),
    }
}
