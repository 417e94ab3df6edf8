//! How the plain-HTTP phase of a connection answers a request: the index
//! page, a 404, or the switch to WebSocket.
use vstd::prelude::*;
use vstd::string::StringSliceAdditionalSpecFns;

verus! {

/// What a request gets.
#[derive(PartialEq, Eq, Structural, Clone, Copy, Debug)]
pub enum Route {
    /// `200`, `text/html`, the static page.
    Index,
    /// `404`, `text/text`, the body `NOT_FOUND_BODY`.
    NotFound,
    /// No response: the request is replayed to the WebSocket handshake.
    Upgrade,
}

/// The body of a `404` response.
pub const NOT_FOUND_BODY: &'static str = "404";

/// The value of the `Upgrade` header that asks for WebSocket.
pub const WEBSOCKET: &'static str = "websocket";

/// The route of a request with this method, path, and value of its first
/// `Upgrade` header, if any: `GET /` is the page, or the upgrade when the
/// header's value is exactly `websocket`; anything else is not found.
pub open spec fn route_of(method: Seq<char>, path: Seq<char>, upgrade: Option<Seq<u8>>) -> Route {
    if method == "GET"@ && path == "/"@ {
        if upgrade == Some(WEBSOCKET.spec_bytes()) {
            Route::Upgrade
        } else {
            Route::Index
        }
    } else {
        Route::NotFound
    }
}

fn same_text(a: &str, b: &str) -> (r: bool)
    ensures
        r == (a@ == b@),
{
    let n = a.unicode_len();
    if n != b.unicode_len() {
        return false;
    }
    let mut i: usize = 0;
    while i < n
        invariant
            n == a@.len() == b@.len(),
            i <= n,
            forall|j: int| 0 <= j < i ==> a@[j] == b@[j],
        decreases n - i,
    {
        if a.get_char(i) != b.get_char(i) {
            return false;
        }
        i = i + 1;
    }
    proof {
        assert(a@ =~= b@);
    }
    true
}

fn same_bytes(a: &[u8], b: &[u8]) -> (r: bool)
    ensures
        r == (a@ == b@),
{
    if a.len() != b.len() {
        return false;
    }
    let mut i: usize = 0;
    while i < a.len()
        invariant
            a@.len() == b@.len(),
            i <= a@.len(),
            forall|j: int| 0 <= j < i ==> a@[j] == b@[j],
        decreases a@.len() - i,
    {
        if a[i] != b[i] {
            return false;
        }
        i = i + 1;
    }
    proof {
        assert(a@ =~= b@);
    }
    true
}

/// The route of a request (see `route_of`).
pub fn route(method: &str, path: &str, upgrade: Option<&[u8]>) -> (r: Route)
    ensures
        r == route_of(
            method@,
            path@,
            match upgrade {
                Some(u) => Some(u@),
                None => None,
            },
        ),
{
    if same_text(method, "GET") && same_text(path, "/") {
        match upgrade {
            Some(u) => {
                if same_bytes(u, WEBSOCKET.as_bytes()) {
                    Route::Upgrade
                } else {
                    Route::Index
                }
            },
            None => Route::Index,
        }
    } else {
        Route::NotFound
    }
}

/// Where a connection stands: answering HTTP requests, holding an upgrade
/// request that is to be replayed, or bridged to the WebSocket handshake.
#[derive(PartialEq, Eq, Structural, Clone, Copy, Debug)]
pub enum Phase {
    Serving,
    UpgradeDetected,
    Bridged,
}

/// What happened on a connection.
#[derive(PartialEq, Eq, Structural, Clone, Copy, Debug)]
pub enum HttpEvent {
    /// A request was routed.
    Routed(Route),
    /// The upgrade request was set to be replayed and the stream now
    /// forwards raw bytes.
    Switched,
}

/// An event that cannot happen in the connection's phase.
#[derive(PartialEq, Eq, Structural, Clone, Copy, Debug)]
pub enum PhaseError {
    OutOfOrder,
}

/// The connection's next phase. While serving, a routed request keeps it
/// serving, unless it is the upgrade; after the upgrade, only the switch of
/// the stream may follow, and it bridges the connection. Nothing follows the
/// bridge.
pub fn next_phase(phase: Phase, event: HttpEvent) -> (r: Result<Phase, PhaseError>)
    ensures
        r == Ok::<Phase, PhaseError>(Phase::Serving) <==> phase == Phase::Serving && event
            is Routed && event != HttpEvent::Routed(Route::Upgrade),
        r == Ok::<Phase, PhaseError>(Phase::UpgradeDetected) <==> phase == Phase::Serving && event
            == HttpEvent::Routed(Route::Upgrade),
        r == Ok::<Phase, PhaseError>(Phase::Bridged) <==> phase == Phase::UpgradeDetected && event
            == HttpEvent::Switched,
        r is Err ==> r == Err::<Phase, PhaseError>(PhaseError::OutOfOrder),
{
    match (phase, event) {
        (Phase::Serving, HttpEvent::Routed(Route::Upgrade)) => Ok(Phase::UpgradeDetected),
        (Phase::Serving, HttpEvent::Routed(_)) => Ok(Phase::Serving),
        (Phase::UpgradeDetected, HttpEvent::Switched) => Ok(Phase::Bridged),
        _ => Err(PhaseError::OutOfOrder),
    }
}

} // verus!
