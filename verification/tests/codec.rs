use uqfile::protocol::{decode_request, decode_response, encode_request, encode_response, EntryType, Request, Response};

fn req_get_entry(path: &str) -> Request {
    Request::GetEntry { path: path.to_string() }
}

#[test]
fn encode_get_entry() {
    assert_eq!(encode_request(&req_get_entry("/a")), "E2:/a");
    assert_eq!(encode_request(&req_get_entry("")), "E0:");
}

#[test]
fn encode_get_entry_counts_characters_not_bytes() {
    // three characters, even though the middle one is multi-byte in UTF-8
    assert_eq!(encode_request(&req_get_entry("aßb")), "E3:aßb");
}

#[test]
fn encode_get_entry_length() {
    let r = Request::GetEntryLength { drive: "d".to_string(), path: "/f".to_string() };
    assert_eq!(encode_request(&r), "L1:d2:/f");
}

#[test]
fn encode_get_file_chunk() {
    let r = Request::GetFileChunk {
        drive: "d".to_string(),
        path: "/f".to_string(),
        offset: 7,
        length: 3,
    };
    assert_eq!(encode_request(&r), "C1:d2:/f7;3;");
}

#[test]
fn encode_set_size() {
    let r = Request::SetSize { drive: "d".to_string(), path: "/f".to_string(), size: 4096 };
    assert_eq!(encode_request(&r), "S1:d2:/f4096;");
}

#[test]
fn encode_write_offset() {
    let r = Request::WriteOffset { drive: "d".to_string(), path: "/f".to_string(), offset: 0 };
    assert_eq!(encode_request(&r), "W1:d2:/f0;");
}

#[test]
fn encode_add() {
    let r = Request::Add {
        drive: "d".to_string(),
        path: "/f".to_string(),
        entry_type: EntryType::NewFile,
    };
    assert_eq!(encode_request(&r), "A1:d2:/fF");
}

#[test]
fn encode_responses() {
    assert_eq!(encode_response(&Response::GetEntry), "e");
    assert_eq!(encode_response(&Response::GetFileChunk), "c");
    assert_eq!(encode_response(&Response::SetSize), "s");
    assert_eq!(encode_response(&Response::WriteOffset), "w");
    assert_eq!(encode_response(&Response::Add), "a");
    assert_eq!(encode_response(&Response::GetEntryLength { length: 0 }), "l0;");
    assert_eq!(
        encode_response(&Response::GetEntryLength { length: u64::MAX }),
        "l18446744073709551615;"
    );
}

#[test]
fn decode_round_trips_every_response() {
    let all = vec![
        Response::GetEntry,
        Response::GetFileChunk,
        Response::SetSize,
        Response::WriteOffset,
        Response::Add,
        Response::GetEntryLength { length: 0 },
        Response::GetEntryLength { length: 1 },
        Response::GetEntryLength { length: 4096 },
        Response::GetEntryLength { length: u64::MAX },
    ];
    for r in all {
        assert_eq!(decode_response(encode_response(&r).as_str()), Some(r));
    }
}

#[test]
fn decode_rejects_malformed_bodies() {
    assert_eq!(decode_response(""), None);
    assert_eq!(decode_response("x"), None);
    assert_eq!(decode_response("ee"), None);
    assert_eq!(decode_response("l"), None);
    assert_eq!(decode_response("l;"), None);
    assert_eq!(decode_response("l5"), None);
    assert_eq!(decode_response("l1x;"), None);
    // a superfluous leading zero is not canonical
    assert_eq!(decode_response("l07;"), None);
}

#[test]
fn decode_rejects_values_beyond_u64() {
    assert_eq!(
        decode_response("l18446744073709551615;"),
        Some(Response::GetEntryLength { length: u64::MAX })
    );
    assert_eq!(decode_response("l18446744073709551616;"), None);
    assert_eq!(decode_response("l99999999999999999999999;"), None);
}

#[test]
fn decode_request_round_trips() {
    let all = vec![
        Request::GetEntry { path: "/a".to_string() },
        Request::GetEntry { path: "".to_string() },
        Request::GetEntryLength { drive: "d".to_string(), path: "/f".to_string() },
        Request::GetFileChunk {
            drive: "d".to_string(),
            path: "/f".to_string(),
            offset: 0,
            length: u64::MAX,
        },
        Request::SetSize { drive: "d".to_string(), path: "/f".to_string(), size: 4096 },
        Request::WriteOffset { drive: "d".to_string(), path: "/f".to_string(), offset: 1 },
        Request::Add {
            drive: "d".to_string(),
            path: "/f".to_string(),
            entry_type: EntryType::NewFile,
        },
        // fields may contain the delimiter characters themselves
        Request::GetEntryLength { drive: "1:2;".to_string(), path: ":;F".to_string() },
    ];
    for r in all {
        assert_eq!(decode_request(encode_request(&r).as_str()), Some(r));
    }
}

#[test]
fn decode_request_rejects_malformed_bodies() {
    assert_eq!(decode_request(""), None);
    assert_eq!(decode_request("E"), None);
    // trailing garbage after a complete request
    assert_eq!(decode_request("E2:/a!"), None);
    // declared length runs past the end
    assert_eq!(decode_request("E3:/a"), None);
    // a non-canonical length prefix
    assert_eq!(decode_request("E02:/a"), None);
    // unknown tag
    assert_eq!(decode_request("X2:/a"), None);
    // a missing entry-type marker
    assert_eq!(decode_request("A1:d2:/f"), None);
    // a missing numeric field
    assert_eq!(decode_request("C1:d2:/f7;"), None);
}
