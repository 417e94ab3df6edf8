use shared_list::handshake::{
    offered_protocols, select_protocol, HandshakeError, FORBIDDEN_BODY, FORBIDDEN_STATUS,
};
use shared_list::routing::{next_phase, route, HttpEvent, Phase, PhaseError, Route, NOT_FOUND_BODY};

fn strings(v: &[&str]) -> Vec<String> {
    v.iter().map(|s| s.to_string()).collect()
}

#[test]
fn password_mismatch_is_forbidden() {
    let pw = Some("hunter2".to_string());
    assert_eq!(
        select_protocol(&pw, &strings(&["foo"])),
        Err(HandshakeError::BadSubprotocol)
    );
    assert_eq!(FORBIDDEN_STATUS, 403);
    assert_eq!(FORBIDDEN_BODY, "Bad WebSocket subprotocol");
}

#[test]
fn password_match_is_echoed() {
    let pw = Some("hunter2".to_string());
    assert_eq!(
        select_protocol(&pw, &strings(&["hunter2"])),
        Ok(Some("hunter2".to_string()))
    );
    assert_eq!(
        select_protocol(&pw, &strings(&["foo", "hunter2"])),
        Ok(Some("hunter2".to_string()))
    );
    assert_eq!(
        select_protocol(&pw, &strings(&[])),
        Err(HandshakeError::BadSubprotocol)
    );
}

#[test]
fn no_password_accepts_first_or_none() {
    assert_eq!(
        select_protocol(&None, &strings(&["a", "b"])),
        Ok(Some("a".to_string()))
    );
    assert_eq!(select_protocol(&None, &strings(&[])), Ok(None));
}

#[test]
fn offered_protocols_split_and_trim() {
    let values = vec![b"foo, hunter2 ,bar".to_vec(), vec![0xff, b','], b"x".to_vec()];
    assert_eq!(
        offered_protocols(&values),
        strings(&["foo", "hunter2", "bar", "x"])
    );
    assert_eq!(offered_protocols(&vec![b"a,,b".to_vec()]), strings(&["a", "", "b"]));
    assert_eq!(offered_protocols(&vec![]), strings(&[]));
}

#[test]
fn routes() {
    assert_eq!(route("GET", "/", None), Route::Index);
    assert_eq!(route("GET", "/", Some(b"websocket")), Route::Upgrade);
    assert_eq!(route("GET", "/", Some(b"WebSocket")), Route::Index);
    assert_eq!(route("GET", "/x", Some(b"websocket")), Route::NotFound);
    assert_eq!(route("POST", "/", None), Route::NotFound);
    assert_eq!(NOT_FOUND_BODY, "404");
}

#[test]
fn connection_phases() {
    assert_eq!(next_phase(Phase::Serving, HttpEvent::Routed(Route::Index)), Ok(Phase::Serving));
    assert_eq!(next_phase(Phase::Serving, HttpEvent::Routed(Route::NotFound)), Ok(Phase::Serving));
    assert_eq!(
        next_phase(Phase::Serving, HttpEvent::Routed(Route::Upgrade)),
        Ok(Phase::UpgradeDetected)
    );
    assert_eq!(next_phase(Phase::UpgradeDetected, HttpEvent::Switched), Ok(Phase::Bridged));
    assert_eq!(next_phase(Phase::Serving, HttpEvent::Switched), Err(PhaseError::OutOfOrder));
    assert_eq!(
        next_phase(Phase::Bridged, HttpEvent::Routed(Route::Index)),
        Err(PhaseError::OutOfOrder)
    );
}
