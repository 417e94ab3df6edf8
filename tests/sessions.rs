use futures::sync::mpsc::{unbounded, UnboundedReceiver};
use futures::Stream;
use shared_list::sessions::{PeerAddr, Sessions};
use tungstenite::Message;

fn peer(port: u16) -> PeerAddr {
    PeerAddr { ip: 0x7f00_0001, port }
}

fn texts(rx: UnboundedReceiver<Message>) -> Vec<String> {
    rx.wait()
        .map(|m| match m.unwrap() {
            Message::Text(t) => t,
            other => panic!("unexpected {:?}", other),
        })
        .collect()
}

#[test]
fn broadcast_skips_sender_only() {
    let mut sessions = Sessions::new();
    let (ta, ra) = unbounded();
    let (tb, rb) = unbounded();
    let (tc, rc) = unbounded();
    sessions.register(peer(1), ta);
    sessions.register(peer(2), tb);
    sessions.register(peer(3), tc);
    let report = sessions.broadcast_except(peer(1), "[x]");
    assert_eq!(report, vec![(peer(2), true), (peer(3), true)]);
    assert_eq!(sessions.len(), 3);
    sessions.deregister(peer(1));
    sessions.deregister(peer(2));
    sessions.deregister(peer(3));
    assert_eq!(sessions.len(), 0);
    assert!(texts(ra).is_empty());
    assert_eq!(texts(rb), vec!["[x]".to_string()]);
    assert_eq!(texts(rc), vec!["[x]".to_string()]);
}

#[test]
fn broadcast_drops_unreachable_recipient() {
    let mut sessions = Sessions::new();
    let (ta, _ra) = unbounded();
    let (tb, rb) = unbounded::<Message>();
    let (tc, _rc) = unbounded();
    sessions.register(peer(1), ta);
    sessions.register(peer(2), tb);
    sessions.register(peer(3), tc);
    drop(rb);
    let report = sessions.broadcast_except(peer(1), "[y]");
    assert_eq!(report, vec![(peer(2), false), (peer(3), true)]);
    assert_eq!(sessions.len(), 2);
    assert!(!sessions.contains(peer(2)));
    assert!(sessions.contains(peer(1)));
    assert!(sessions.contains(peer(3)));
}

#[test]
fn registering_same_identity_replaces() {
    let mut sessions = Sessions::new();
    let (t1, r1) = unbounded();
    let (t2, r2) = unbounded();
    sessions.register(peer(7), t1);
    sessions.register(peer(7), t2);
    assert_eq!(sessions.len(), 1);
    let report = sessions.broadcast_except(peer(8), "[z]");
    assert_eq!(report, vec![(peer(7), true)]);
    sessions.deregister(peer(7));
    assert!(texts(r1).is_empty());
    assert_eq!(texts(r2), vec!["[z]".to_string()]);
}

#[test]
fn deregister_unknown_is_noop() {
    let mut sessions = Sessions::new();
    let (t1, _r1) = unbounded::<Message>();
    sessions.register(peer(1), t1);
    sessions.deregister(peer(9));
    assert_eq!(sessions.len(), 1);
}
