//! The injected message-bus capability and the errors of the file API.
//!
//! The crate never constructs a transport: the environment supplies one, and
//! synchronous, asynchronous and networked transports alike satisfy the same
//! interface.  Nothing is assumed about what the service answers; the sole
//! contract of the two operations is that each call appends one record to the
//! capability's ghost log of interactions, so that every file-level contract
//! can say exactly which requests an operation issued and how its result
//! follows from whatever came back.

use vstd::prelude::*;

verus! {

/// Errors surfaced by the file API.
#[derive(Clone, Copy, Debug, PartialEq, Eq, Structural)]
pub enum FsError {
    /// The builder is missing a required field; detected before any message
    /// is sent.
    InvalidConfiguration,
    /// `open` without the create flag against a nonexistent entry.
    NotFound,
    /// The response does not match what the request calls for: wrong variant,
    /// or an expected payload missing or shorter than requested.
    ProtocolViolation,
    /// The round trip itself failed; forwarded without interpretation.
    TransportFailure,
}

/// One recorded interaction with the message bus.
pub enum Event {
    /// A request body (and optional payload) addressed to `service`, and the
    /// correlated response body, `None` when the round trip failed.
    RoundTrip {
        service: Seq<char>,
        body: Seq<char>,
        payload: Option<Seq<u8>>,
        reply: Option<Seq<char>>,
    },
    /// One fetch of the out-of-band binary payload attached to the most
    /// recent response; `None` when the response carried no payload.
    PayloadFetch { result: Option<Seq<u8>> },
}

/// The fixed, well-known name of the virtual-filesystem service.
pub open spec fn vfs_name() -> Seq<char> {
    "vfs"@
}

pub open spec fn view_payload(p: Option<&[u8]>) -> Option<Seq<u8>> {
    match p {
        Some(b) => Some(b@),
        None => None,
    }
}

pub open spec fn view_reply(r: Option<String>) -> Option<Seq<char>> {
    match r {
        Some(s) => Some(s@),
        None => None,
    }
}

pub open spec fn view_bytes(b: Option<Vec<u8>>) -> Option<Seq<u8>> {
    match b {
        Some(v) => Some(v@),
        None => None,
    }
}

/// The message-bus capability, supplied by the environment.
///
/// Implementations live outside the crate and are not verified; the contracts
/// below promise nothing about the content of any reply.  They only tie each
/// call to the capability's ghost event log: one call, one appended record,
/// with the arguments the caller passed and the values that came back.
pub trait Transport: Sized {
    /// Ghost log of every interaction this capability has performed.
    spec fn events(&self) -> Seq<Event>;

    /// One addressed round trip: send `body` (and `payload`, if any) to
    /// `service` and block until the correlated response body arrives.
    /// `None` means the round trip itself failed.
    fn send_and_await(&mut self, service: &str, body: &str, payload: Option<&[u8]>) -> (reply:
        Option<String>)
        ensures
            final(self).events() == old(self).events().push(
                Event::RoundTrip {
                    service: service@,
                    body: body@,
                    payload: view_payload(payload),
                    reply: view_reply(reply),
                },
            ),
    ;

    /// Fetch the out-of-band binary payload attached to the most recent
    /// response; `None` when there is none.
    fn get_payload(&mut self) -> (result: Option<Vec<u8>>)
        ensures
            final(self).events() == old(self).events().push(
                Event::PayloadFetch { result: view_bytes(result) },
            ),
    ;
}

} // verus!
