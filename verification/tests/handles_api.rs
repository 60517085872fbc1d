use std::cell::RefCell;
use std::rc::Rc;

use uqfile::handles::OpenOptions;
use uqfile::protocol::{encode_request, encode_response, EntryType, Request, Response};
use uqfile::transport::{FsError, Transport};

struct BusState {
    sent: Vec<(String, String, Option<Vec<u8>>)>,
    replies: Vec<Option<String>>,
    payloads: Vec<Option<Vec<u8>>>,
    fetches: usize,
}

/// A scripted message bus: records every request, pops the next scripted
/// reply body for each round trip and the next scripted payload for each
/// fetch.  Clones share the same underlying state.
#[derive(Clone)]
struct Bus(Rc<RefCell<BusState>>);

impl Bus {
    fn new(replies: Vec<Option<String>>, payloads: Vec<Option<Vec<u8>>>) -> Bus {
        Bus(Rc::new(RefCell::new(BusState { sent: Vec::new(), replies, payloads, fetches: 0 })))
    }

    fn sent(&self) -> Vec<(String, String, Option<Vec<u8>>)> {
        self.0.borrow().sent.clone()
    }

    fn fetches(&self) -> usize {
        self.0.borrow().fetches
    }
}

impl Transport for Bus {
    // ghost item of the trait; never called at run time
    fn events(&self) -> vstd::seq::Seq<uqfile::transport::Event> {
        unreachable!()
    }

    fn send_and_await(&mut self, service: &str, body: &str, payload: Option<&[u8]>) -> Option<String> {
        let mut st = self.0.borrow_mut();
        st.sent.push((service.to_string(), body.to_string(), payload.map(|p| p.to_vec())));
        if st.replies.is_empty() {
            None
        } else {
            st.replies.remove(0)
        }
    }

    fn get_payload(&mut self) -> Option<Vec<u8>> {
        let mut st = self.0.borrow_mut();
        st.fetches += 1;
        if st.payloads.is_empty() {
            None
        } else {
            st.payloads.remove(0)
        }
    }
}

fn ack(r: Response) -> Option<String> {
    Some(encode_response(&r))
}

fn configured(bus: &Bus) -> OpenOptions<Bus> {
    OpenOptions::new()
        .our_node("node".to_string())
        .drive("drive:pkg".to_string())
        .get_payload(bus.clone())
        .send_and_await_response(bus.clone())
}

fn probe_body(path: &str) -> String {
    encode_request(&Request::GetEntry { path: path.to_string() })
}

#[test]
fn open_missing_without_create_is_not_found() {
    let bus = Bus::new(vec![ack(Response::GetEntry)], vec![None]);
    let mut o = configured(&bus);
    match o.open("/missing".to_string()) {
        Err(e) => assert_eq!(e, FsError::NotFound),
        Ok(_) => panic!("expected NotFound"),
    }
    // exactly one request went out: the GetEntry probe, and no Add
    let sent = bus.sent();
    assert_eq!(sent.len(), 1);
    assert_eq!(sent[0].0, "vfs");
    assert_eq!(sent[0].1, probe_body("/missing"));
    assert_eq!(sent[0].2, None);
}

#[test]
fn open_missing_with_empty_probe_payload_is_not_found() {
    // an empty payload signals absence just as a missing one does
    let bus = Bus::new(vec![ack(Response::GetEntry)], vec![Some(vec![])]);
    let mut o = configured(&bus);
    match o.open("/missing".to_string()) {
        Err(e) => assert_eq!(e, FsError::NotFound),
        Ok(_) => panic!("expected NotFound"),
    }
    assert_eq!(bus.sent().len(), 1);
}

#[test]
fn open_with_create_probes_adds_and_reports_empty() {
    let bus = Bus::new(
        vec![
            ack(Response::GetEntry),
            ack(Response::Add),
            ack(Response::GetEntryLength { length: 0 }),
        ],
        vec![None],
    );
    let mut o = configured(&bus).create(true);
    let f = match o.open("/new".to_string()) {
        Ok(f) => f,
        Err(e) => panic!("open failed: {:?}", e),
    };
    let sent = bus.sent();
    assert_eq!(sent.len(), 2);
    assert_eq!(sent[0].1, probe_body("/new"));
    assert_eq!(
        sent[1].1,
        encode_request(&Request::Add {
            drive: "drive:pkg".to_string(),
            path: "/new".to_string(),
            entry_type: EntryType::NewFile,
        })
    );
    // the creation round trip carries an empty payload
    assert_eq!(sent[1].2, Some(vec![]));
    // the fresh entry reports length zero
    let mut m = match f.metadata() {
        Ok(m) => m,
        Err(e) => panic!("metadata failed: {:?}", e),
    };
    assert_eq!(m.len(), Ok(0));
    let sent = bus.sent();
    assert_eq!(sent.len(), 3);
    assert_eq!(
        sent[2].1,
        encode_request(&Request::GetEntryLength {
            drive: "drive:pkg".to_string(),
            path: "/new".to_string(),
        })
    );
}

#[test]
fn write_then_read_returns_the_bytes_unchanged() {
    let data = vec![10u8, 20, 30, 40];
    let bus = Bus::new(
        vec![ack(Response::GetEntry), ack(Response::WriteOffset), ack(Response::GetFileChunk)],
        vec![Some(vec![1]), Some(data.clone())],
    );
    let mut o = configured(&bus);
    let mut f = match o.open("/file".to_string()) {
        Ok(f) => f,
        Err(e) => panic!("open failed: {:?}", e),
    };
    assert_eq!(f.write_all_at(&data, 7), Ok(()));
    // the write carried the bytes as its payload
    assert_eq!(bus.sent()[1].2, Some(data.clone()));
    assert_eq!(
        bus.sent()[1].1,
        encode_request(&Request::WriteOffset {
            drive: "drive:pkg".to_string(),
            path: "/file".to_string(),
            offset: 7,
        })
    );
    let mut buf = vec![0u8; 4];
    assert_eq!(f.read_exact_at(&mut buf, 7), Ok(()));
    assert_eq!(buf, data);
}

#[test]
fn set_len_then_len_reports_the_size() {
    for n in [0u64, 1, 4096] {
        let bus = Bus::new(
            vec![
                ack(Response::GetEntry),
                ack(Response::SetSize),
                ack(Response::GetEntryLength { length: n }),
            ],
            vec![Some(vec![1])],
        );
        let mut o = configured(&bus);
        let mut f = match o.open("/file".to_string()) {
            Ok(f) => f,
            Err(e) => panic!("open failed: {:?}", e),
        };
        assert_eq!(f.set_len(n), Ok(()));
        assert_eq!(
            bus.sent()[1].1,
            encode_request(&Request::SetSize {
                drive: "drive:pkg".to_string(),
                path: "/file".to_string(),
                size: n,
            })
        );
        let mut m = match f.metadata() {
            Ok(m) => m,
            Err(e) => panic!("metadata failed: {:?}", e),
        };
        assert_eq!(m.len(), Ok(n));
    }
}

#[test]
fn read_sends_exact_offset_and_length() {
    let bus = Bus::new(
        vec![ack(Response::GetEntry), ack(Response::GetFileChunk)],
        vec![Some(vec![1]), Some(vec![0u8; 9])],
    );
    let mut o = configured(&bus);
    let mut f = match o.open("/file".to_string()) {
        Ok(f) => f,
        Err(e) => panic!("open failed: {:?}", e),
    };
    let mut buf = vec![0u8; 5];
    assert_eq!(f.read_exact_at(&mut buf, 1234), Ok(()));
    assert_eq!(
        bus.sent()[1].1,
        encode_request(&Request::GetFileChunk {
            drive: "drive:pkg".to_string(),
            path: "/file".to_string(),
            offset: 1234,
            length: 5,
        })
    );
}

#[test]
fn short_read_payload_is_a_protocol_violation() {
    let bus = Bus::new(
        vec![ack(Response::GetEntry), ack(Response::GetFileChunk)],
        vec![Some(vec![1]), Some(vec![9u8, 9, 9])],
    );
    let mut o = configured(&bus);
    let mut f = match o.open("/file".to_string()) {
        Ok(f) => f,
        Err(e) => panic!("open failed: {:?}", e),
    };
    let mut buf = vec![7u8; 5];
    assert_eq!(f.read_exact_at(&mut buf, 2), Err(FsError::ProtocolViolation));
    // never a silently truncated buffer: the buffer is untouched
    assert_eq!(buf, vec![7u8; 5]);
}

#[test]
fn missing_read_payload_is_a_protocol_violation() {
    let bus = Bus::new(
        vec![ack(Response::GetEntry), ack(Response::GetFileChunk)],
        vec![Some(vec![1]), None],
    );
    let mut o = configured(&bus);
    let mut f = match o.open("/file".to_string()) {
        Ok(f) => f,
        Err(e) => panic!("open failed: {:?}", e),
    };
    let mut buf = vec![7u8; 2];
    assert_eq!(f.read_exact_at(&mut buf, 0), Err(FsError::ProtocolViolation));
    assert_eq!(buf, vec![7u8; 2]);
}

#[test]
fn open_without_drive_is_invalid_configuration() {
    let bus = Bus::new(vec![], vec![]);
    let mut o = OpenOptions::new()
        .our_node("node".to_string())
        .get_payload(bus.clone())
        .send_and_await_response(bus.clone());
    match o.open("/f".to_string()) {
        Err(e) => assert_eq!(e, FsError::InvalidConfiguration),
        Ok(_) => panic!("expected InvalidConfiguration"),
    }
    // nothing was sent and nothing was fetched
    assert_eq!(bus.sent().len(), 0);
    assert_eq!(bus.fetches(), 0);
}

#[test]
fn open_without_transport_is_invalid_configuration() {
    let bus = Bus::new(vec![], vec![]);
    let mut o = OpenOptions::new()
        .our_node("node".to_string())
        .drive("drive:pkg".to_string())
        .get_payload(bus.clone());
    match o.open("/f".to_string()) {
        Err(e) => assert_eq!(e, FsError::InvalidConfiguration),
        Ok(_) => panic!("expected InvalidConfiguration"),
    }
    assert_eq!(bus.sent().len(), 0);
}

#[test]
fn open_without_payload_source_is_invalid_configuration() {
    let bus = Bus::new(vec![], vec![]);
    let mut o = OpenOptions::<Bus>::new()
        .our_node("node".to_string())
        .drive("drive:pkg".to_string())
        .send_and_await_response(bus.clone());
    match o.open("/f".to_string()) {
        Err(e) => assert_eq!(e, FsError::InvalidConfiguration),
        Ok(_) => panic!("expected InvalidConfiguration"),
    }
    assert_eq!(bus.sent().len(), 0);
}

#[test]
fn open_without_node_is_invalid_configuration() {
    let bus = Bus::new(vec![], vec![]);
    let mut o = OpenOptions::new()
        .drive("drive:pkg".to_string())
        .get_payload(bus.clone())
        .send_and_await_response(bus.clone());
    match o.open("/f".to_string()) {
        Err(e) => assert_eq!(e, FsError::InvalidConfiguration),
        Ok(_) => panic!("expected InvalidConfiguration"),
    }
    assert_eq!(bus.sent().len(), 0);
}

#[test]
fn read_and_write_flags_change_nothing() {
    let bus = Bus::new(vec![ack(Response::GetEntry)], vec![Some(vec![1])]);
    let mut o = configured(&bus).read(true).write(false);
    match o.open("/file".to_string()) {
        Ok(_) => {},
        Err(e) => panic!("open failed: {:?}", e),
    }
}

#[test]
fn transport_failure_is_forwarded_from_open() {
    let bus = Bus::new(vec![], vec![]);
    let mut o = configured(&bus);
    match o.open("/f".to_string()) {
        Err(e) => assert_eq!(e, FsError::TransportFailure),
        Ok(_) => panic!("expected TransportFailure"),
    }
    assert_eq!(bus.sent().len(), 1);
}

#[test]
fn transport_failure_is_forwarded_from_operations() {
    let bus = Bus::new(vec![ack(Response::GetEntry)], vec![Some(vec![1])]);
    let mut o = configured(&bus);
    let mut f = match o.open("/file".to_string()) {
        Ok(f) => f,
        Err(e) => panic!("open failed: {:?}", e),
    };
    // the script is exhausted: every further round trip fails
    assert_eq!(f.set_len(3), Err(FsError::TransportFailure));
    assert_eq!(f.write_all_at(&[1, 2], 0), Err(FsError::TransportFailure));
    let mut buf = vec![0u8; 1];
    assert_eq!(f.read_exact_at(&mut buf, 0), Err(FsError::TransportFailure));
    let mut m = match f.metadata() {
        Ok(m) => m,
        Err(e) => panic!("metadata failed: {:?}", e),
    };
    assert_eq!(m.len(), Err(FsError::TransportFailure));
}

#[test]
fn wrong_length_reply_shape_is_a_protocol_violation() {
    let bus = Bus::new(
        vec![
            ack(Response::GetEntry),
            ack(Response::WriteOffset),
            Some("not a response".to_string()),
        ],
        vec![Some(vec![1])],
    );
    let mut o = configured(&bus);
    let f = match o.open("/file".to_string()) {
        Ok(f) => f,
        Err(e) => panic!("open failed: {:?}", e),
    };
    let mut m = match f.metadata() {
        Ok(m) => m,
        Err(e) => panic!("metadata failed: {:?}", e),
    };
    // an acknowledgement of the wrong variant
    assert_eq!(m.len(), Err(FsError::ProtocolViolation));
    // a body that decodes as no response at all
    let mut m2 = match f.metadata() {
        Ok(m) => m,
        Err(e) => panic!("metadata failed: {:?}", e),
    };
    assert_eq!(m2.len(), Err(FsError::ProtocolViolation));
}

#[test]
fn sync_data_never_fails() {
    let bus = Bus::new(vec![ack(Response::GetEntry)], vec![Some(vec![1])]);
    let mut o = configured(&bus);
    let f = match o.open("/file".to_string()) {
        Ok(f) => f,
        Err(e) => panic!("open failed: {:?}", e),
    };
    assert_eq!(f.sync_data(), Ok(()));
    // no further message went out
    assert_eq!(bus.sent().len(), 1);
}

#[test]
fn create_flag_failure_on_add_is_forwarded() {
    // probe completes and signals absence, then the Add round trip fails
    let bus = Bus::new(vec![ack(Response::GetEntry)], vec![None]);
    let mut o = configured(&bus).create(true);
    match o.open("/new".to_string()) {
        Err(e) => assert_eq!(e, FsError::TransportFailure),
        Ok(_) => panic!("expected TransportFailure"),
    }
    assert_eq!(bus.sent().len(), 2);
}

#[test]
fn zero_length_read_succeeds_with_any_payload() {
    let bus = Bus::new(
        vec![ack(Response::GetEntry), ack(Response::GetFileChunk)],
        vec![Some(vec![1]), Some(vec![])],
    );
    let mut o = configured(&bus);
    let mut f = match o.open("/file".to_string()) {
        Ok(f) => f,
        Err(e) => panic!("open failed: {:?}", e),
    };
    let mut buf: Vec<u8> = Vec::new();
    assert_eq!(f.read_exact_at(&mut buf, 0), Ok(()));
    assert_eq!(buf, Vec::<u8>::new());
}
