//! Laws that relate several operations, proved from the public contracts
//! alone.
//!
//! The client cannot know what the remote service stores, so each law names
//! its assumption about the service explicitly: a faithful service stores
//! what `WriteOffset` carried and answers `GetFileChunk` and
//! `GetEntryLength` from that stored state.  Everything else — which
//! requests go out, and how each result follows from the replies — comes
//! from the operation contracts themselves.

use vstd::prelude::*;
use crate::handles::{
    len_post,
    open_post,
    payload_present,
    read_post,
    set_len_post,
    write_post,
    FileModel,
    MetadataModel,
    OptionsModel,
};
use crate::protocol::{lemma_response_round_trip, spec_encode_response, Response};
use crate::transport::{Event, FsError};

verus! {

// ===== A minimal model of a faithful service's stored content =====

/// Content grown with zeroes up to length `n` (the service zero-fills).
pub open spec fn zero_extend(content: Seq<u8>, n: nat) -> Seq<u8> {
    if content.len() >= n {
        content
    } else {
        content + Seq::new((n - content.len()) as nat, |i: int| 0u8)
    }
}

/// Stored content after a faithful service applies a write of `data` at
/// `offset`.
pub open spec fn store_write(content: Seq<u8>, offset: nat, data: Seq<u8>) -> Seq<u8> {
    let base = zero_extend(content, offset + data.len());
    Seq::new(
        base.len(),
        |i: int|
            if offset <= i < offset + data.len() {
                data[i - offset]
            } else {
                base[i]
            },
    )
}

/// The bytes a faithful service serves for a chunk request: up to `length`
/// bytes of the stored content starting at `offset`.
pub open spec fn chunk_of(content: Seq<u8>, offset: nat, length: nat) -> Seq<u8> {
    if offset >= content.len() {
        Seq::empty()
    } else if offset + length <= content.len() {
        content.subrange(offset as int, (offset + length) as int)
    } else {
        content.subrange(offset as int, content.len() as int)
    }
}

/// Reading back a region that was just written returns exactly the written
/// bytes, whatever was stored before.
pub proof fn lemma_chunk_after_write(content: Seq<u8>, offset: nat, data: Seq<u8>)
    ensures
        chunk_of(store_write(content, offset, data), offset, data.len()) == data,
{
    let st = store_write(content, offset, data);
    assert(st.len() >= offset + data.len());
    if data.len() == 0 {
        if offset < st.len() {
            assert(chunk_of(st, offset, 0) =~= data);
        } else {
            assert(chunk_of(st, offset, 0) =~= data);
        }
    } else {
        assert(offset < st.len());
        assert(chunk_of(st, offset, data.len()) =~= data);
    }
}

// ===== Write/read round trip =====

/// For any byte sequence and offset: a completed `write_all_at` followed by
/// a `read_exact_at` of the same length at the same offset, answered by a
/// service that stored the write and serves chunks from the stored content,
/// returns the written bytes unchanged.
pub proof fn lemma_write_read_round_trip(
    pre: FileModel,
    mid: FileModel,
    post: FileModel,
    data: Seq<u8>,
    offset: u64,
    buf_pre: Seq<u8>,
    buf_post: Seq<u8>,
    r1: Result<(), FsError>,
    r2: Result<(), FsError>,
    content: Seq<u8>,
)
    requires
        write_post(pre, mid, data, offset, r1),
        r1 == Ok::<(), FsError>(()),
        read_post(mid, post, buf_pre, buf_post, offset, r2),
        buf_pre.len() == data.len(),
        // the read's round trip completed and its payload was fetched,
        post.fetched.len() == mid.fetched.len() + 1,
        // and the service served the chunk from the stored content:
        post.fetched.last() == (Event::PayloadFetch {
            result: Some(chunk_of(store_write(content, offset as nat, data), offset as nat, data.len())),
        }),
    ensures
        r2 == Ok::<(), FsError>(()),
        buf_post == data,
{
    lemma_chunk_after_write(content, offset as nat, data);
    let chunk = chunk_of(store_write(content, offset as nat, data), offset as nat, data.len());
    assert(chunk == data);
    assert(chunk.take(buf_pre.len() as int) =~= data);
}

// ===== Truncate, then query the length =====

/// `set_len(size)` followed by `metadata().len()` against a service that
/// answers the length query with the size that was set returns exactly that
/// size.
pub proof fn lemma_set_len_then_len(
    fpre: FileModel,
    fpost: FileModel,
    mpre: MetadataModel,
    mpost: MetadataModel,
    size: u64,
    r1: Result<(), FsError>,
    r2: Result<u64, FsError>,
)
    requires
        set_len_post(fpre, fpost, size, r1),
        r1 == Ok::<(), FsError>(()),
        len_post(mpre, mpost, r2),
        // the service answers the length query with the size that was set:
        (mpost.sent.last() matches Event::RoundTrip { reply, .. } && reply == Some(
            spec_encode_response(Response::GetEntryLength { length: size }),
        )),
    ensures
        r2 == Ok::<u64, FsError>(size),
{
    lemma_response_round_trip(Response::GetEntryLength { length: size });
}

// ===== Create, then query the length =====

/// A handle obtained by `open` after the probe signalled absence exists only
/// because the entry was just created; a service that reports the created
/// entry as empty then answers the first length query with zero.
pub proof fn lemma_open_created_then_len(
    opre: OptionsModel,
    opost: OptionsModel,
    f: FileModel,
    path: Seq<char>,
    mpre: MetadataModel,
    mpost: MetadataModel,
    r2: Result<u64, FsError>,
)
    requires
        open_post(opre, opost, path, Ok(f)),
        // the probe found the entry absent, so the handle came from creation:
        (f.fetched.last() matches Event::PayloadFetch { result } && !payload_present(result)),
        len_post(mpre, mpost, r2),
        // the service reports the just-created entry as empty:
        (mpost.sent.last() matches Event::RoundTrip { reply, .. } && reply == Some(
            spec_encode_response(Response::GetEntryLength { length: 0 }),
        )),
    ensures
        r2 == Ok::<u64, FsError>(0),
{
    lemma_response_round_trip(Response::GetEntryLength { length: 0 });
}

} // verus!
