use shared_list::bridge::{BridgeError, HeadStatus, Mode, ReadStep, RewindStream};

const REQUEST: &[u8] = b"GET / HTTP/1.1\r\nHost: example.com\r\nUpgrade: websocket\r\n\r\n";

fn data(step: ReadStep) -> Vec<u8> {
    match step {
        ReadStep::Data(d) => d,
        other => panic!("expected data, got {:?}", other),
    }
}

#[test]
fn request_then_trailing_bytes() {
    let trailing: &[u8] = b"\x81\x05hello and more";
    let mut input = REQUEST.to_vec();
    input.extend_from_slice(trailing);
    let mut bridge = RewindStream::new();
    bridge.feed(&input);
    assert_eq!(data(bridge.read(4096)), REQUEST.to_vec());
    assert_eq!(bridge.pass_through(), Ok(()));
    assert_eq!(data(bridge.read(4096)), trailing.to_vec());
    assert!(matches!(bridge.read(4096), ReadStep::Direct));
}

#[test]
fn incomplete_request_asks_for_input() {
    let mut bridge = RewindStream::new();
    assert!(matches!(bridge.read(16), ReadStep::NeedInput));
    bridge.feed(&REQUEST[..10]);
    assert!(matches!(bridge.read(16), ReadStep::NeedInput));
    bridge.feed(&REQUEST[10..]);
    let mut got = Vec::new();
    loop {
        match bridge.read(7) {
            ReadStep::Data(d) => {
                assert!(d.len() <= 7);
                got.extend_from_slice(&d);
            }
            ReadStep::NeedInput => break,
            other => panic!("unexpected {:?}", other),
        }
    }
    assert_eq!(got, REQUEST.to_vec());
}

#[test]
fn garbage_is_not_a_request() {
    let mut bridge = RewindStream::new();
    bridge.feed(b"\x00\x01 not http\r\n\r\n");
    assert!(matches!(bridge.read(4096), ReadStep::Invalid));
}

#[test]
fn rewind_replays_once() {
    let mut bridge = RewindStream::new();
    bridge.feed(REQUEST);
    assert_eq!(data(bridge.read(4096)), REQUEST.to_vec());
    assert!(matches!(bridge.read(4096), ReadStep::NeedInput));
    assert_eq!(bridge.rewind(), Ok(()));
    assert_eq!(data(bridge.read(4096)), REQUEST.to_vec());
    assert!(matches!(bridge.read(4096), ReadStep::NeedInput));
}

#[test]
fn rewind_then_pass_through_forwards() {
    let mut bridge = RewindStream::new();
    bridge.feed(REQUEST);
    assert_eq!(data(bridge.read(4096)), REQUEST.to_vec());
    assert_eq!(bridge.rewind(), Ok(()));
    assert_eq!(bridge.pass_through(), Ok(()));
    assert_eq!(bridge.mode(), Mode::PassThrough);
    assert_eq!(data(bridge.read(4096)), REQUEST.to_vec());
    assert!(matches!(bridge.read(4096), ReadStep::Direct));
}

#[test]
fn rewind_after_pass_through_is_refused() {
    let mut bridge = RewindStream::new();
    assert_eq!(bridge.pass_through(), Ok(()));
    assert_eq!(bridge.rewind(), Err(BridgeError::AlreadyPassThrough));
    assert_eq!(bridge.pass_through(), Err(BridgeError::AlreadyPassThrough));
}

#[test]
fn too_many_headers_fails_the_read() {
    let mut req = b"GET / HTTP/1.1\r\n".to_vec();
    for i in 0..129 {
        req.extend_from_slice(format!("X-H{}: v\r\n", i).as_bytes());
    }
    req.extend_from_slice(b"\r\n");
    let mut bridge = RewindStream::new();
    bridge.feed(&req);
    assert!(matches!(bridge.read(4096), ReadStep::Invalid));
}

#[test]
fn read_parsed_uses_the_reported_boundary() {
    let mut bridge = RewindStream::new();
    bridge.feed(b"abcdef");
    assert!(matches!(bridge.read_parsed(10, HeadStatus::Invalid), ReadStep::Invalid));
    assert_eq!(data(bridge.read_parsed(10, HeadStatus::Complete(4))), b"abcd".to_vec());
    assert!(matches!(bridge.read_parsed(10, HeadStatus::Partial), ReadStep::NeedInput));
    assert_eq!(bridge.rewind(), Ok(()));
    assert_eq!(data(bridge.read_parsed(2, HeadStatus::Invalid)), b"ab".to_vec());
    assert_eq!(data(bridge.read_parsed(10, HeadStatus::Partial)), b"cd".to_vec());
}
