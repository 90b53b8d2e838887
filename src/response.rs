use vstd::prelude::*;
use vstd::string::*;
use vstd::utf8::*;

use crate::ids::{Entity, EventKind, ObserverId, RequestId};

verus! {

broadcast use vstd::utf8::group_utf8_lib;

#[verifier::external_type_specification]
#[verifier::external_body]
pub struct ExUtf8Error(std::str::Utf8Error);

/// Relies on std::str::from_utf8: it succeeds exactly when the bytes are
/// valid UTF-8, and then returns the same bytes seen as text.
#[verifier::external_body]
fn str_from_utf8(bytes: &[u8]) -> (r: Result<&str, std::str::Utf8Error>)
    ensures
        r is Ok <==> valid_utf8(bytes@),
        r matches Ok(s) ==> s.spec_bytes() == bytes@,
{
    std::str::from_utf8(bytes)
}

/// Why a response body could not be read in the requested form.
#[derive(Clone, Copy, Debug, PartialEq, Eq, Structural)]
pub enum BodyError {
    InvalidUtf8,
}

/// Status and headers of a response, taken before its body is read.
#[derive(Debug)]
pub struct Parts {
    pub status: u16,
    pub headers: Vec<(String, Vec<u8>)>,
}

/// The data of a finished request: status code, headers and body bytes.
#[derive(Clone, Debug)]
pub struct ReqwestResponseEvent {
    bytes: Vec<u8>,
    status: u16,
    headers: Vec<(String, Vec<u8>)>,
}

/// What a response holds, as mathematical values.
pub struct ResponseView {
    pub status: u16,
    pub headers: Seq<(String, Vec<u8>)>,
    pub body: Seq<u8>,
}

impl View for ReqwestResponseEvent {
    type V = ResponseView;

    closed spec fn view(&self) -> ResponseView {
        ResponseView { status: self.status, headers: self.headers@, body: self.bytes@ }
    }
}

impl ReqwestResponseEvent {
    pub fn new(bytes: Vec<u8>, status: u16, headers: Vec<(String, Vec<u8>)>) -> (r: Self)
        ensures
            r@ == (ResponseView { status, headers: headers@, body: bytes@ }),
    {
        ReqwestResponseEvent { bytes, status, headers }
    }

    /// The body of the response.
    pub fn body(&self) -> (r: &[u8])
        ensures
            r@ == self@.body,
    {
        self.bytes.as_slice()
    }

    /// The body as text, when it is valid UTF-8.
    pub fn as_str(&self) -> (r: Result<&str, BodyError>)
        ensures
            r is Ok <==> valid_utf8(self@.body),
            r matches Ok(s) ==> s.spec_bytes() == self@.body && s@ == decode_utf8(self@.body),
            r matches Err(e) ==> e == BodyError::InvalidUtf8,
    {
        match str_from_utf8(self.bytes.as_slice()) {
            Ok(s) => {
                proof {
                    encode_utf8_decode_utf8(s@);
                }
                Ok(s)
            },
            Err(_) => Err(BodyError::InvalidUtf8),
        }
    }

    /// The body as an owned string, when it is valid UTF-8.
    pub fn as_string(&self) -> (r: Result<String, BodyError>)
        ensures
            r is Ok <==> valid_utf8(self@.body),
            r matches Ok(s) ==> s@ == decode_utf8(self@.body),
            r matches Err(e) ==> e == BodyError::InvalidUtf8,
    {
        match self.as_str() {
            Ok(s) => Ok(s.to_owned()),
            Err(e) => Err(e),
        }
    }

    /// The status code of the response.
    pub fn status(&self) -> (r: u16)
        ensures
            r == self@.status,
    {
        self.status
    }

    /// The headers of the response, in the order received.
    pub fn response_headers(&self) -> (r: &Vec<(String, Vec<u8>)>)
        ensures
            r@ == self@.headers,
    {
        &self.headers
    }
}

/// The failure of a request, carrying the executor's error.
#[derive(Debug)]
pub struct ReqwestErrorEvent<E>(pub E);

/// How a request ended: a response, or the error that prevented one.
#[derive(Debug)]
pub enum RequestOutcome<E> {
    Success(ReqwestResponseEvent),
    Failure(ReqwestErrorEvent<E>),
}

impl<E> RequestOutcome<E> {
    /// The kind of notification this outcome is delivered as.
    pub open spec fn kind(&self) -> EventKind {
        match self {
            RequestOutcome::Success(_) => EventKind::Response,
            RequestOutcome::Failure(_) => EventKind::Error,
        }
    }

    pub fn event_kind(&self) -> (r: EventKind)
        ensures
            r == self.kind(),
    {
        match self {
            RequestOutcome::Success(_) => EventKind::Response,
            RequestOutcome::Failure(_) => EventKind::Error,
        }
    }

    /// Joins the parts taken before the body was read with the result of
    /// reading it.
    pub fn from_parts(parts: Parts, body: Result<Vec<u8>, E>) -> (r: Self)
        ensures
            body matches Ok(b) ==> r matches RequestOutcome::Success(ev) && ev@ == (ResponseView {
                status: parts.status,
                headers: parts.headers@,
                body: b@,
            }),
            body matches Err(e) ==> r == RequestOutcome::<E>::Failure(ReqwestErrorEvent(e)),
    {
        match body {
            Ok(b) => RequestOutcome::Success(ReqwestResponseEvent::new(b, parts.status, parts.headers)),
            Err(e) => RequestOutcome::Failure(ReqwestErrorEvent(e)),
        }
    }
}

/// A request whose background work has finished, reported by the host for
/// the entity it was submitted on.
pub struct Completion<E> {
    pub target: Entity,
    pub request: RequestId,
    pub outcome: RequestOutcome<E>,
}

/// A notification to hand to observers: the outcome of one request, its
/// target entity, and the observers on that entity listening for its kind.
pub struct Delivery<E> {
    pub target: Entity,
    pub request: RequestId,
    pub outcome: RequestOutcome<E>,
    pub observers: Vec<ObserverId>,
}

/// What a delivery holds, as mathematical values.
pub struct DeliveryView<E> {
    pub target: Entity,
    pub request: RequestId,
    pub outcome: RequestOutcome<E>,
    pub observers: Seq<ObserverId>,
}

impl<E> View for Delivery<E> {
    type V = DeliveryView<E>;

    open spec fn view(&self) -> DeliveryView<E> {
        DeliveryView {
            target: self.target,
            request: self.request,
            outcome: self.outcome,
            observers: self.observers@,
        }
    }
}

} // verus!
