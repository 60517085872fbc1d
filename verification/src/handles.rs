//! File and metadata handles, and the builder that opens them.
//!
//! A handle is a bound address plus a capability to talk to the service: it
//! holds no cache, no file descriptor and no open/close state.  Every
//! operation is one self-contained round trip, and each contract below pins,
//! for every possible behaviour of the injected transport, both the exact
//! request that goes out and how the returned value follows from whatever
//! came back.

use vstd::prelude::*;
use crate::protocol::{
    decode_response,
    encode_request,
    spec_decode_response,
    spec_encode_request,
    EntryType,
    Request,
    RequestModel,
    Response,
};
use crate::transport::{vfs_name, Event, FsError, Transport};

verus! {

// ===== Ghost models of the three handle types =====

/// Model of a file handle: its binding plus the event logs of its two
/// capability slots.
pub struct FileModel {
    pub node: Seq<char>,
    pub drive: Seq<char>,
    pub path: Seq<char>,
    /// Events of the request/response capability.
    pub sent: Seq<Event>,
    /// Events of the payload-fetching capability.
    pub fetched: Seq<Event>,
}

/// Model of a metadata handle.
pub struct MetadataModel {
    pub node: Seq<char>,
    pub drive: Seq<char>,
    pub path: Seq<char>,
    pub sent: Seq<Event>,
}

/// Model of the builder: which fields are configured, and the event logs of
/// the capabilities it holds.
pub struct OptionsModel {
    pub node: Option<Seq<char>>,
    pub create: bool,
    pub drive: Option<Seq<char>>,
    pub fetcher: Option<Seq<Event>>,
    pub sender: Option<Seq<Event>>,
}

// ===== Request bodies, named for the contracts =====

pub open spec fn probe_body(path: Seq<char>) -> Seq<char> {
    spec_encode_request(RequestModel::GetEntry { path })
}

pub open spec fn entry_length_body(drive: Seq<char>, path: Seq<char>) -> Seq<char> {
    spec_encode_request(RequestModel::GetEntryLength { drive, path })
}

pub open spec fn chunk_body(drive: Seq<char>, path: Seq<char>, offset: u64, length: u64) -> Seq<
    char,
> {
    spec_encode_request(RequestModel::GetFileChunk { drive, path, offset, length })
}

pub open spec fn set_size_body(drive: Seq<char>, path: Seq<char>, size: u64) -> Seq<char> {
    spec_encode_request(RequestModel::SetSize { drive, path, size })
}

pub open spec fn write_body(drive: Seq<char>, path: Seq<char>, offset: u64) -> Seq<char> {
    spec_encode_request(RequestModel::WriteOffset { drive, path, offset })
}

pub open spec fn add_body(drive: Seq<char>, path: Seq<char>) -> Seq<char> {
    spec_encode_request(RequestModel::Add { drive, path })
}

/// The existence convention of the probe: an entry is present exactly when
/// the fetched payload is there and non-empty.
pub open spec fn payload_present(result: Option<Seq<u8>>) -> bool {
    result matches Some(b) && b.len() > 0
}

/// All four builder fields that `open` needs are configured.
pub open spec fn config_complete(o: OptionsModel) -> bool {
    o.node is Some && o.drive is Some && o.fetcher is Some && o.sender is Some
}

// ===== Contracts of the handle operations =====

/// Contract of `Metadata::len`: one `GetEntryLength` round trip; the result
/// is the decoded scalar, a protocol violation for any other response shape,
/// and a forwarded failure when the round trip itself failed.
pub open spec fn len_post(pre: MetadataModel, post: MetadataModel, r: Result<u64, FsError>) -> bool {
    &&& post.node == pre.node
    &&& post.drive == pre.drive
    &&& post.path == pre.path
    &&& post.sent.len() == pre.sent.len() + 1
    &&& post.sent.drop_last() == pre.sent
    &&& (post.sent.last() matches Event::RoundTrip { service, body, payload, reply } && ({
        &&& service == vfs_name()
        &&& body == entry_length_body(pre.drive, pre.path)
        &&& payload is None
        &&& match reply {
            None => r == Err::<u64, FsError>(FsError::TransportFailure),
            Some(rb) => match spec_decode_response(rb) {
                Some(Response::GetEntryLength { length }) => r == Ok::<u64, FsError>(length),
                _ => r == Err::<u64, FsError>(FsError::ProtocolViolation),
            },
        }
    }))
}

/// Contract of `File::read_exact_at`: one `GetFileChunk` round trip naming
/// the exact offset and length, then one payload fetch; the buffer is filled
/// with exactly the first `len` payload bytes on success and left unchanged
/// on every failure — a missing or short payload is a protocol violation,
/// never a silently truncated buffer.
pub open spec fn read_post(
    pre: FileModel,
    post: FileModel,
    buf_pre: Seq<u8>,
    buf_post: Seq<u8>,
    offset: u64,
    r: Result<(), FsError>,
) -> bool {
    &&& post.node == pre.node
    &&& post.drive == pre.drive
    &&& post.path == pre.path
    &&& buf_post.len() == buf_pre.len()
    &&& post.sent.len() == pre.sent.len() + 1
    &&& post.sent.drop_last() == pre.sent
    &&& (post.sent.last() matches Event::RoundTrip { service, body, payload, reply } && ({
        &&& service == vfs_name()
        &&& body == chunk_body(pre.drive, pre.path, offset, buf_pre.len() as u64)
        &&& payload is None
        &&& match reply {
            None => {
                &&& r == Err::<(), FsError>(FsError::TransportFailure)
                &&& post.fetched == pre.fetched
                &&& buf_post == buf_pre
            },
            Some(_) => {
                &&& post.fetched.len() == pre.fetched.len() + 1
                &&& post.fetched.drop_last() == pre.fetched
                &&& (post.fetched.last() matches Event::PayloadFetch { result } && (match result {
                    None => r == Err::<(), FsError>(FsError::ProtocolViolation) && buf_post
                        == buf_pre,
                    Some(bytes) => {
                        if bytes.len() >= buf_pre.len() {
                            r == Ok::<(), FsError>(()) && buf_post == bytes.take(
                                buf_pre.len() as int,
                            )
                        } else {
                            r == Err::<(), FsError>(FsError::ProtocolViolation) && buf_post
                                == buf_pre
                        }
                    },
                }))
            },
        }
    }))
}

/// Contract of `File::write_all_at`: one `WriteOffset` round trip carrying
/// the bytes as payload; success is the round trip completing.
pub open spec fn write_post(
    pre: FileModel,
    post: FileModel,
    data: Seq<u8>,
    offset: u64,
    r: Result<(), FsError>,
) -> bool {
    &&& post.node == pre.node
    &&& post.drive == pre.drive
    &&& post.path == pre.path
    &&& post.fetched == pre.fetched
    &&& post.sent.len() == pre.sent.len() + 1
    &&& post.sent.drop_last() == pre.sent
    &&& (post.sent.last() matches Event::RoundTrip { service, body, payload, reply } && ({
        &&& service == vfs_name()
        &&& body == write_body(pre.drive, pre.path, offset)
        &&& payload == Some(data)
        &&& match reply {
            None => r == Err::<(), FsError>(FsError::TransportFailure),
            Some(_) => r == Ok::<(), FsError>(()),
        }
    }))
}

/// Contract of `File::set_len`: one `SetSize` round trip; success is the
/// round trip completing.
pub open spec fn set_len_post(
    pre: FileModel,
    post: FileModel,
    size: u64,
    r: Result<(), FsError>,
) -> bool {
    &&& post.node == pre.node
    &&& post.drive == pre.drive
    &&& post.path == pre.path
    &&& post.fetched == pre.fetched
    &&& post.sent.len() == pre.sent.len() + 1
    &&& post.sent.drop_last() == pre.sent
    &&& (post.sent.last() matches Event::RoundTrip { service, body, payload, reply } && ({
        &&& service == vfs_name()
        &&& body == set_size_body(pre.drive, pre.path, size)
        &&& payload is None
        &&& match reply {
            None => r == Err::<(), FsError>(FsError::TransportFailure),
            Some(_) => r == Ok::<(), FsError>(()),
        }
    }))
}

// ===== Contract of `open` =====

/// The probe failed at the transport: it was sent, nothing was fetched, the
/// capabilities stay in the builder.
pub open spec fn probe_failed(
    s0: Seq<Event>,
    f0: Seq<Event>,
    post: OptionsModel,
    path: Seq<char>,
) -> bool {
    &&& post.sender == Some(
        s0.push(
            Event::RoundTrip {
                service: vfs_name(),
                body: probe_body(path),
                payload: None,
                reply: None,
            },
        ),
    )
    &&& post.fetcher == Some(f0)
}

/// The probe round trip completed and the fetched payload signalled absence;
/// the capabilities stay in the builder.
pub open spec fn absent_after_probe(
    s0: Seq<Event>,
    f0: Seq<Event>,
    post: OptionsModel,
    path: Seq<char>,
) -> bool {
    &&& (post.sender matches Some(s1) && s1.len() == s0.len() + 1 && s1.drop_last() == s0 && (
    s1.last() matches Event::RoundTrip { service, body, payload, reply } && service == vfs_name()
        && body == probe_body(path) && payload is None && reply is Some))
    &&& (post.fetcher matches Some(f1) && f1.len() == f0.len() + 1 && f1.drop_last() == f0 && (
    f1.last() matches Event::PayloadFetch { result } && !payload_present(result)))
}

/// The entry was absent, creation was requested, and the `Add` round trip
/// failed at the transport; the capabilities stay in the builder.
pub open spec fn add_failed(
    s0: Seq<Event>,
    f0: Seq<Event>,
    post: OptionsModel,
    drive: Seq<char>,
    path: Seq<char>,
) -> bool {
    &&& (post.sender matches Some(s1) && s1.len() == s0.len() + 2 && s1.subrange(
        0,
        s0.len() as int,
    ) == s0 && (s1[s0.len() as int] matches Event::RoundTrip { service, body, payload, reply }
        && service == vfs_name() && body == probe_body(path) && payload is None && reply is Some)
        && s1.last() == (Event::RoundTrip {
        service: vfs_name(),
        body: add_body(drive, path),
        payload: Some(Seq::<u8>::empty()),
        reply: None,
    }))
    &&& (post.fetcher matches Some(f1) && f1.len() == f0.len() + 1 && f1.drop_last() == f0 && (
    f1.last() matches Event::PayloadFetch { result } && !payload_present(result)))
}

/// Contract of `OpenOptions::open`.
///
/// With incomplete configuration the builder is untouched and no request is
/// sent.  Otherwise exactly one `GetEntry` probe goes out; presence yields a
/// handle after that single request, absence yields `NotFound` (create flag
/// off) or one further `Add` request with an empty payload (create flag on).
/// A handle is returned only after its entry was probed present or created.
pub open spec fn open_post(
    pre: OptionsModel,
    post: OptionsModel,
    path: Seq<char>,
    r: Result<FileModel, FsError>,
) -> bool {
    if !config_complete(pre) {
        r == Err::<FileModel, FsError>(FsError::InvalidConfiguration) && post == pre
    } else {
        (pre.node matches Some(node) && pre.drive matches Some(drive)
            && pre.sender matches Some(s0) && pre.fetcher matches Some(f0) && ({
            &&& post.node == pre.node
            &&& post.create == pre.create
            &&& post.drive == pre.drive
            &&& match r {
                Ok(f) => ({
                    &&& post.sender is None
                    &&& post.fetcher is None
                    &&& f.node == node
                    &&& f.drive == drive
                    &&& f.path == path
                    &&& f.fetched.len() == f0.len() + 1
                    &&& f.fetched.drop_last() == f0
                    &&& f.sent.len() >= s0.len() + 1
                    &&& f.sent.subrange(0, s0.len() as int) == s0
                    &&& (f.sent[s0.len() as int] matches Event::RoundTrip {
                        service,
                        body,
                        payload,
                        reply,
                    } && service == vfs_name() && body == probe_body(path) && payload is None
                        && reply is Some)
                    &&& (f.fetched.last() matches Event::PayloadFetch { result } && ({
                        if payload_present(result) {
                            f.sent.len() == s0.len() + 1
                        } else {
                            &&& pre.create
                            &&& f.sent.len() == s0.len() + 2
                            &&& (f.sent.last() matches Event::RoundTrip {
                                service: service2,
                                body: body2,
                                payload: payload2,
                                reply: reply2,
                            } && service2 == vfs_name() && body2 == add_body(drive, path)
                                && payload2 == Some(Seq::<u8>::empty()) && reply2 is Some)
                        }
                    }))
                }),
                Err(e) => ({
                    ||| (e == FsError::TransportFailure && probe_failed(s0, f0, post, path))
                    ||| (e == FsError::NotFound && !pre.create && absent_after_probe(
                        s0,
                        f0,
                        post,
                        path,
                    ))
                    ||| (e == FsError::TransportFailure && pre.create && add_failed(
                        s0,
                        f0,
                        post,
                        drive,
                        path,
                    ))
                }),
            }
        }))
    }
}

// ===== Metadata =====

/// A restricted view over one (drive, path) binding: only the length query.
pub struct Metadata<T: Transport> {
    our_node: String,
    path: String,
    drive: String,
    send_and_await_response: T,
}

impl<T: Transport> View for Metadata<T> {
    type V = MetadataModel;

    closed spec fn view(&self) -> MetadataModel {
        MetadataModel {
            node: self.our_node@,
            drive: self.drive@,
            path: self.path@,
            sent: self.send_and_await_response.events(),
        }
    }
}

impl<T: Transport> Metadata<T> {
    /// Query the entry's length: one `GetEntryLength` round trip, the scalar
    /// parsed out of the response body.
    pub fn len(&mut self) -> (r: Result<u64, FsError>)
        ensures
            len_post(old(self)@, final(self)@, r),
    {
        let req = Request::GetEntryLength { drive: self.drive.clone(), path: self.path.clone() };
        let body = encode_request(&req);
        let reply = self.send_and_await_response.send_and_await("vfs", body.as_str(), None);
        proof {
            assert(self@.sent.drop_last() =~= old(self)@.sent);
        }
        match reply {
            None => Err(FsError::TransportFailure),
            Some(rb) => match decode_response(rb.as_str()) {
                Some(Response::GetEntryLength { length }) => Ok(length),
                _ => Err(FsError::ProtocolViolation),
            },
        }
    }
}

// ===== File =====

/// A file handle bound to one (drive, path) pair; each operation is one
/// independent round trip.
pub struct File<T: Transport> {
    our_node: String,
    path: String,
    drive: String,
    get_payload: T,
    send_and_await_response: T,
}

impl<T: Transport> View for File<T> {
    type V = FileModel;

    closed spec fn view(&self) -> FileModel {
        FileModel {
            node: self.our_node@,
            drive: self.drive@,
            path: self.path@,
            sent: self.send_and_await_response.events(),
            fetched: self.get_payload.events(),
        }
    }
}

impl<T: Transport + Clone> File<T> {
    /// A metadata handle over the same binding, sharing (a clone of) the
    /// request capability.
    pub fn metadata(&self) -> (r: Result<Metadata<T>, FsError>)
        ensures
            r matches Ok(m) && m@.node == self@.node && m@.drive == self@.drive && m@.path
                == self@.path,
    {
        Ok(
            Metadata {
                our_node: self.our_node.clone(),
                path: self.path.clone(),
                drive: self.drive.clone(),
                send_and_await_response: self.send_and_await_response.clone(),
            },
        )
    }
}

impl<T: Transport> File<T> {
    /// Read exactly `buf.len()` bytes starting at `offset`: one
    /// `GetFileChunk` request with that exact offset and length, then one
    /// payload fetch.  A missing or short payload is a protocol violation
    /// and leaves the buffer unchanged.
    pub fn read_exact_at(&mut self, buf: &mut Vec<u8>, offset: u64) -> (r: Result<(), FsError>)
        ensures
            read_post(old(self)@, final(self)@, old(buf)@, final(buf)@, offset, r),
    {
        let req = Request::GetFileChunk {
            drive: self.drive.clone(),
            path: self.path.clone(),
            offset,
            length: buf.len() as u64,
        };
        let body = encode_request(&req);
        let reply = self.send_and_await_response.send_and_await("vfs", body.as_str(), None);
        proof {
            assert(self@.sent.drop_last() =~= old(self)@.sent);
        }
        if reply.is_none() {
            return Err(FsError::TransportFailure);
        }
        let payload = self.get_payload.get_payload();
        proof {
            assert(self@.fetched.drop_last() =~= old(self)@.fetched);
        }
        match payload {
            None => Err(FsError::ProtocolViolation),
            Some(bytes) => {
                if bytes.len() < buf.len() {
                    Err(FsError::ProtocolViolation)
                } else {
                    let n = buf.len();
                    let ghost b0 = buf@;
                    let mut i: usize = 0;
                    while i < n
                        invariant
                            i <= n,
                            n == buf@.len(),
                            n == b0.len(),
                            bytes@.len() >= n,
                            buf@ == bytes@.take(i as int) + b0.skip(i as int),
                        decreases n - i,
                    {
                        let v = bytes[i];
                        buf.set(i, v);
                        proof {
                            assert(buf@ =~= bytes@.take(i + 1) + b0.skip(i + 1));
                        }
                        i = i + 1;
                    }
                    proof {
                        assert(b0.skip(n as int) =~= Seq::<u8>::empty());
                        assert(buf@ =~= bytes@.take(n as int));
                    }
                    Ok(())
                }
            },
        }
    }

    /// Write all of `buf` at `offset`: one `WriteOffset` round trip with the
    /// bytes as payload; the write length is implied by the payload size.
    pub fn write_all_at(&mut self, buf: &[u8], offset: u64) -> (r: Result<(), FsError>)
        ensures
            write_post(old(self)@, final(self)@, buf@, offset, r),
    {
        let req = Request::WriteOffset {
            drive: self.drive.clone(),
            path: self.path.clone(),
            offset,
        };
        let body = encode_request(&req);
        let reply = self.send_and_await_response.send_and_await("vfs", body.as_str(), Some(buf));
        proof {
            assert(self@.sent.drop_last() =~= old(self)@.sent);
        }
        match reply {
            None => Err(FsError::TransportFailure),
            Some(_) => Ok(()),
        }
    }

    /// Truncate or extend the entry to `size` bytes: one `SetSize` round
    /// trip.  Shrinking discards trailing bytes; growing zero-fills, by the
    /// remote service's policy.
    pub fn set_len(&mut self, size: u64) -> (r: Result<(), FsError>)
        ensures
            set_len_post(old(self)@, final(self)@, size, r),
    {
        let req = Request::SetSize { drive: self.drive.clone(), path: self.path.clone(), size };
        let body = encode_request(&req);
        let reply = self.send_and_await_response.send_and_await("vfs", body.as_str(), None);
        proof {
            assert(self@.sent.drop_last() =~= old(self)@.sent);
        }
        match reply {
            None => Err(FsError::TransportFailure),
            Some(_) => Ok(()),
        }
    }

    /// Durability is delegated entirely to the remote service and nothing is
    /// buffered client-side, so there is nothing to flush.
    pub fn sync_data(&self) -> (r: Result<(), FsError>)
        ensures
            r == Ok::<(), FsError>(()),
    {
        Ok(())
    }
}

// ===== OpenOptions =====

/// Accumulates configuration and resolves it into a file handle.
pub struct OpenOptions<T: Transport> {
    our_node: Option<String>,
    create: bool,
    drive: Option<String>,
    get_payload: Option<T>,
    send_and_await_response: Option<T>,
}

impl<T: Transport> View for OpenOptions<T> {
    type V = OptionsModel;

    closed spec fn view(&self) -> OptionsModel {
        OptionsModel {
            node: match self.our_node {
                Some(ref s) => Some(s@),
                None => None,
            },
            create: self.create,
            drive: match self.drive {
                Some(ref s) => Some(s@),
                None => None,
            },
            fetcher: match self.get_payload {
                Some(ref t) => Some(t.events()),
                None => None,
            },
            sender: match self.send_and_await_response {
                Some(ref t) => Some(t.events()),
                None => None,
            },
        }
    }
}

/// Maps an `open` result to its ghost model.
pub open spec fn open_result_model<T: Transport>(r: Result<File<T>, FsError>) -> Result<
    FileModel,
    FsError,
> {
    match r {
        Ok(f) => Ok(f@),
        Err(e) => Err(e),
    }
}

impl<T: Transport> OpenOptions<T> {
    /// A builder with nothing configured and the create flag off.
    pub fn new() -> (r: Self)
        ensures
            r@ == (OptionsModel {
                node: None,
                create: false,
                drive: None,
                fetcher: None,
                sender: None,
            }),
    {
        OpenOptions {
            our_node: None,
            create: false,
            drive: None,
            get_payload: None,
            send_and_await_response: None,
        }
    }

    /// Set the create-if-missing flag.
    pub fn create(self, b: bool) -> (r: Self)
        ensures
            r@ == (OptionsModel { create: b, ..self@ }),
    {
        OpenOptions { create: b, ..self }
    }

    /// Accepted for API symmetry; handles are always readable.
    pub fn read(self, b: bool) -> (r: Self)
        ensures
            r == self,
    {
        let _ = b;
        self
    }

    /// Accepted for API symmetry; handles are always writable.
    pub fn write(self, b: bool) -> (r: Self)
        ensures
            r == self,
    {
        let _ = b;
        self
    }

    /// Name the local node on whose behalf requests are sent.
    pub fn our_node(self, our_node: String) -> (r: Self)
        ensures
            r@ == (OptionsModel { node: Some(our_node@), ..self@ }),
    {
        OpenOptions { our_node: Some(our_node), ..self }
    }

    /// Select the drive (namespace) that paths are resolved in.
    pub fn drive(self, drive: String) -> (r: Self)
        ensures
            r@ == (OptionsModel { drive: Some(drive@), ..self@ }),
    {
        OpenOptions { drive: Some(drive), ..self }
    }

    /// Inject the capability used to fetch out-of-band response payloads.
    pub fn get_payload(self, get_payload: T) -> (r: Self)
        ensures
            r@ == (OptionsModel { fetcher: Some(get_payload.events()), ..self@ }),
    {
        OpenOptions { get_payload: Some(get_payload), ..self }
    }

    /// Inject the capability used for request/response round trips.
    pub fn send_and_await_response(self, send_and_await_response: T) -> (r: Self)
        ensures
            r@ == (OptionsModel { sender: Some(send_and_await_response.events()), ..self@ }),
    {
        OpenOptions { send_and_await_response: Some(send_and_await_response), ..self }
    }

    /// Resolve the configuration against `path`: probe for existence, then
    /// either hand out a file handle, create the entry first, or fail.
    pub fn open(&mut self, path: String) -> (r: Result<File<T>, FsError>)
        ensures
            open_post(old(self)@, final(self)@, path@, open_result_model(r)),
    {
        if self.drive.is_none() {
            return Err(FsError::InvalidConfiguration);
        }
        if self.get_payload.is_none() {
            return Err(FsError::InvalidConfiguration);
        }
        if self.send_and_await_response.is_none() {
            return Err(FsError::InvalidConfiguration);
        }
        if self.our_node.is_none() {
            return Err(FsError::InvalidConfiguration);
        }
        let node = self.our_node.as_ref().unwrap().clone();
        let drive = self.drive.as_ref().unwrap().clone();
        let mut sender = self.send_and_await_response.take().unwrap();
        let mut fetcher = self.get_payload.take().unwrap();
        let ghost s0 = sender.events();
        let ghost f0 = fetcher.events();

        let body = encode_request(&Request::GetEntry { path: path.clone() });
        let reply = sender.send_and_await("vfs", body.as_str(), None);
        proof {
            assert(sender.events().drop_last() =~= s0);
            assert(sender.events().subrange(0, s0.len() as int) =~= s0);
        }
        if reply.is_none() {
            self.send_and_await_response = Some(sender);
            self.get_payload = Some(fetcher);
            return Err(FsError::TransportFailure);
        }
        let payload = fetcher.get_payload();
        proof {
            assert(fetcher.events().drop_last() =~= f0);
        }
        let present = match &payload {
            Some(b) => b.len() > 0,
            None => false,
        };
        if present {
            return Ok(
                File {
                    our_node: node,
                    path,
                    drive,
                    get_payload: fetcher,
                    send_and_await_response: sender,
                },
            );
        }
        if !self.create {
            self.send_and_await_response = Some(sender);
            self.get_payload = Some(fetcher);
            return Err(FsError::NotFound);
        }
        let body2 = encode_request(
            &Request::Add {
                drive: drive.clone(),
                path: path.clone(),
                entry_type: EntryType::NewFile,
            },
        );
        let empty: Vec<u8> = Vec::new();
        let reply2 = sender.send_and_await("vfs", body2.as_str(), Some(empty.as_slice()));
        proof {
            assert(sender.events().subrange(0, s0.len() as int) =~= s0);
            assert(sender.events()[s0.len() as int] == sender.events().drop_last()[s0.len() as int]);
        }
        if reply2.is_none() {
            self.send_and_await_response = Some(sender);
            self.get_payload = Some(fetcher);
            return Err(FsError::TransportFailure);
        }
        Ok(File { our_node: node, path, drive, get_payload: fetcher, send_and_await_response: sender })
    }
}


} // verus!
