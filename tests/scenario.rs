use futures::sync::mpsc::{unbounded, UnboundedReceiver};
use futures::Stream;
use memmap::MmapMut;
use shared_list::sessions::PeerAddr;
use shared_list::state::{align_len, State, StoreError, JSON_INIT};
use tungstenite::Message;

fn next_text(rx: &mut UnboundedReceiver<Message>) -> String {
    match rx.by_ref().wait().next() {
        Some(Ok(Message::Text(t))) => t,
        other => panic!("unexpected {:?}", other),
    }
}

#[test]
fn clients_share_the_list() {
    let mmap = MmapMut::map_anon(align_len(JSON_INIT.len())).unwrap();
    let mut state = State::new(mmap, true, Some("pw".to_string())).unwrap();
    assert_eq!(state.password(), &Some("pw".to_string()));
    let a = PeerAddr { ip: 1, port: 1000 };
    let b = PeerAddr { ip: 2, port: 2000 };
    let c = PeerAddr { ip: 3, port: 3000 };

    let (ta, mut ra) = unbounded();
    assert!(state.connect(a, ta));
    assert_eq!(
        next_text(&mut ra),
        r#"[{"html":"Apples","checked":false},{"html":"Bacon","checked":false},{"html":"Coke","checked":false}]"#
    );
    let (tb, mut rb) = unbounded();
    assert!(state.connect(b, tb));
    assert_eq!(next_text(&mut rb), JSON_INIT);

    let update = r#"[{"html":"Apples","checked":true}]"#;
    let report = state.receive_text(a, update).unwrap();
    assert_eq!(report, vec![(b, true)]);
    assert_eq!(next_text(&mut rb), update);

    assert!(state.is_connected(a));
    assert!(!state.is_connected(c));
    let (tc, mut rc) = unbounded();
    assert!(state.connect(c, tc));
    assert_eq!(next_text(&mut rc), update);

    state.disconnect(a);
    state.disconnect(b);
    state.disconnect(c);
    assert!(ra.wait().next().is_none());
}

#[test]
fn non_array_text_changes_nothing() {
    let mmap = MmapMut::map_anon(align_len(JSON_INIT.len())).unwrap();
    let mut state = State::new(mmap, true, None).unwrap();
    let a = PeerAddr { ip: 1, port: 1 };
    let (tb, _rb) = unbounded();
    state.connect(PeerAddr { ip: 2, port: 2 }, tb);
    assert_eq!(state.receive_text(a, "hello").unwrap(), vec![]);
    assert_eq!(state.get_json(), JSON_INIT);
}

#[test]
fn large_update_grows_the_mapping() {
    let mmap = MmapMut::map_anon(align_len(JSON_INIT.len())).unwrap();
    let mut state = State::new(mmap, true, None).unwrap();
    let a = PeerAddr { ip: 1, port: 1 };
    let (tb, mut rb) = unbounded();
    state.connect(PeerAddr { ip: 2, port: 2 }, tb);
    assert_eq!(next_text(&mut rb), JSON_INIT);
    let big = format!("[{}]", "7".repeat(5000));
    let needed = match state.receive_text(a, &big) {
        Err(StoreError::NeedsCapacity(n)) => n,
        other => panic!("unexpected {:?}", other),
    };
    assert_eq!(needed, 8192);
    assert_eq!(state.get_json(), JSON_INIT);
    let grown = MmapMut::map_anon(needed).unwrap();
    let report = state.receive_text_remapped(a, grown, &big).unwrap();
    assert_eq!(report.len(), 1);
    assert_eq!(state.get_json(), big);
    assert_eq!(next_text(&mut rb), big);
}
