//! The WebSocket handshake's access check: the subprotocols a client offers,
//! and the one the server accepts, given the optional shared password.
use vstd::prelude::*;
use vstd::utf8::{decode_utf8, valid_utf8};

verus! {

/// What `str::trim` leaves of a text: the text without its leading and
/// trailing Unicode white space.
pub uninterp spec fn trimmed(s: Seq<char>) -> Seq<char>;

/// Relies on `std::str::from_utf8`: the text that `b` encodes, if `b` is
/// valid UTF-8.
#[verifier::external_body]
fn utf8_text(b: &[u8]) -> (r: Option<String>)
    ensures
        r is Some <==> valid_utf8(b@),
        r matches Some(s) ==> s@ == decode_utf8(b@),
{
    std::str::from_utf8(b).ok().map(|s| s.to_string())
}

/// Relies on `str::trim`.
#[verifier::external_body]
fn trim_text(s: &str) -> (r: String)
    ensures
        r@ == trimmed(s@),
{
    s.trim().to_string()
}

/// The pieces of `s` between commas, as `str::split(',')` gives them: one
/// more piece than there are commas, empty pieces included.
pub open spec fn comma_pieces(s: Seq<char>) -> Seq<Seq<char>>
    decreases s.len(),
{
    if s.len() == 0 {
        seq![Seq::<char>::empty()]
    } else {
        let p = comma_pieces(s.drop_last());
        if s.last() == ',' {
            p.push(Seq::empty())
        } else {
            p.update(p.len() - 1, p.last().push(s.last()))
        }
    }
}

/// The subprotocols offered in one header value: its comma-separated
/// pieces, trimmed; none when the value is not valid UTF-8.
pub open spec fn value_protocols(v: Seq<u8>) -> Seq<Seq<char>> {
    if valid_utf8(v) {
        comma_pieces(decode_utf8(v)).map_values(|p: Seq<char>| trimmed(p))
    } else {
        Seq::empty()
    }
}

/// The subprotocols offered in the values of a request's
/// `Sec-WebSocket-Protocol` headers, in order.
pub open spec fn offered(vs: Seq<Seq<u8>>) -> Seq<Seq<char>>
    decreases vs.len(),
{
    if vs.len() == 0 {
        Seq::empty()
    } else {
        offered(vs.drop_last()) + value_protocols(vs.last())
    }
}

proof fn lemma_comma_pieces_nonempty(s: Seq<char>)
    ensures
        comma_pieces(s).len() >= 1,
    decreases s.len(),
{
    if s.len() > 0 {
        lemma_comma_pieces_nonempty(s.drop_last());
    }
}

/// The trimmed comma-separated pieces of `text`.
fn split_protocols(text: &str) -> (r: Vec<String>)
    ensures
        r@.map_values(|s: String| s@) == comma_pieces(text@).map_values(|p: Seq<char>| trimmed(p)),
{
    let n = text.unicode_len();
    let mut out: Vec<String> = Vec::new();
    let mut start: usize = 0;
    let mut i: usize = 0;
    proof {
        assert(text@.take(0) =~= Seq::<char>::empty());
    }
    while i < n
        invariant
            n == text@.len(),
            start <= i <= n,
            comma_pieces(text@.take(i as int)).len() >= 1,
            out@.map_values(|s: String| s@) == comma_pieces(text@.take(i as int)).drop_last().map_values(
                |p: Seq<char>| trimmed(p),
            ),
            comma_pieces(text@.take(i as int)).last() == text@.subrange(start as int, i as int),
        decreases n - i,
    {
        let ghost t = text@.take(i + 1);
        proof {
            assert(t.drop_last() =~= text@.take(i as int));
            lemma_comma_pieces_nonempty(t);
        }
        let c = text.get_char(i);
        if c == ',' {
            let piece = trim_text(text.substring_char(start, i));
            proof {
                let p = comma_pieces(text@.take(i as int));
                assert(comma_pieces(t) == p.push(Seq::<char>::empty()));
                assert(p.push(Seq::<char>::empty()).drop_last() =~= p);
                assert(p =~= p.drop_last().push(p.last()));
            }
            out.push(piece);
            proof {
                let p = comma_pieces(text@.take(i as int));
                assert(out@.map_values(|s: String| s@) =~= p.drop_last().map_values(
                    |q: Seq<char>| trimmed(q),
                ).push(trimmed(p.last())));
                assert(p.map_values(|q: Seq<char>| trimmed(q)) =~= p.drop_last().map_values(
                    |q: Seq<char>| trimmed(q),
                ).push(trimmed(p.last())));
                assert(comma_pieces(t).drop_last().map_values(|q: Seq<char>| trimmed(q))
                    =~= p.map_values(|q: Seq<char>| trimmed(q)));
                assert(text@.subrange(i + 1, i + 1) =~= Seq::<char>::empty());
            }
            start = i + 1;
        } else {
            proof {
                let p = comma_pieces(text@.take(i as int));
                assert(comma_pieces(t).drop_last() =~= p.drop_last());
                assert(text@.subrange(start as int, i + 1) =~= text@.subrange(
                    start as int,
                    i as int,
                ).push(c));
            }
        }
        i = i + 1;
    }
    let last = trim_text(text.substring_char(start, n));
    out.push(last);
    proof {
        let p = comma_pieces(text@);
        assert(text@.take(n as int) =~= text@);
        assert(p =~= p.drop_last().push(p.last()));
        assert(out@.map_values(|s: String| s@) =~= p.drop_last().map_values(
            |q: Seq<char>| trimmed(q),
        ).push(trimmed(p.last())));
        assert(p.map_values(|q: Seq<char>| trimmed(q)) =~= p.drop_last().map_values(
            |q: Seq<char>| trimmed(q),
        ).push(trimmed(p.last())));
    }
    out
}

/// The subprotocols offered in the values of a request's
/// `Sec-WebSocket-Protocol` headers: each value that is valid UTF-8 is split
/// at commas and each piece trimmed; other values are skipped.
pub fn offered_protocols(values: &Vec<Vec<u8>>) -> (r: Vec<String>)
    ensures
        r@.map_values(|s: String| s@) == offered(values.deep_view()),
{
    let ghost vs = values.deep_view();
    let mut out: Vec<String> = Vec::new();
    let mut i: usize = 0;
    while i < values.len()
        invariant
            vs == values.deep_view(),
            i <= vs.len(),
            out@.map_values(|s: String| s@) == offered(vs.take(i as int)),
        decreases vs.len() - i,
    {
        proof {
            assert(vs.take(i + 1).drop_last() =~= vs.take(i as int));
            assert(vs[i as int] == values@[i as int]@);
        }
        let ghost before = out@;
        if let Some(text) = utf8_text(values[i].as_slice()) {
            let pieces = split_protocols(text.as_str());
            let mut j: usize = 0;
            while j < pieces.len()
                invariant
                    j <= pieces@.len(),
                    out@.map_values(|s: String| s@) == before.map_values(|s: String| s@)
                        + pieces@.take(j as int).map_values(|s: String| s@),
                decreases pieces@.len() - j,
            {
                let piece = pieces[j].clone();
                let ghost prev = out@;
                out.push(piece);
                proof {
                    assert(out@.map_values(|s: String| s@) =~= prev.map_values(|s: String| s@).push(
                        pieces@[j as int]@,
                    ));
                    assert(pieces@.take(j + 1).map_values(|s: String| s@) =~= pieces@.take(
                        j as int,
                    ).map_values(|s: String| s@).push(pieces@[j as int]@));
                    assert(pieces@.take(j + 1) =~= pieces@.take(j as int).push(pieces@[j as int]));
                    assert(out@.map_values(|s: String| s@) =~= before.map_values(|s: String| s@)
                        + pieces@.take(j + 1).map_values(|s: String| s@));
                }
                j = j + 1;
            }
            proof {
                assert(pieces@.take(pieces@.len() as int) =~= pieces@);
            }
        } else {
            proof {
                assert(value_protocols(vs[i as int]) =~= Seq::<Seq<char>>::empty());
                assert(out@.map_values(|s: String| s@) =~= offered(vs.take(i + 1)));
            }
        }
        i = i + 1;
    }
    proof {
        assert(vs.take(vs.len() as int) =~= vs);
    }
    out
}

/// Why a handshake was refused.
#[derive(PartialEq, Eq, Structural, Clone, Copy, Debug)]
pub enum HandshakeError {
    /// The password is not among the offered subprotocols.
    BadSubprotocol,
}

/// The HTTP status of a refused handshake.
pub const FORBIDDEN_STATUS: u16 = 403;

/// The body of a refused handshake's response.
pub const FORBIDDEN_BODY: &'static str = "Bad WebSocket subprotocol";

/// The subprotocol the server accepts. With a password, the client must
/// offer it (exact match), and it is accepted; else the handshake is refused.
/// Without one, the first offered subprotocol is accepted, or none when none
/// is offered.
pub fn select_protocol(password: &Option<String>, offered: &Vec<String>) -> (r: Result<
    Option<String>,
    HandshakeError,
>)
    ensures
        password matches Some(pw) ==> {
            &&& r is Ok <==> exists|i: int| 0 <= i < offered@.len() && offered@[i]@ == pw@
            &&& r is Err ==> r == Err::<Option<String>, HandshakeError>(HandshakeError::BadSubprotocol)
            &&& r matches Ok(p) ==> p matches Some(q) && q@ == pw@
        },
        password is None ==> {
            &&& offered@.len() == 0 ==> r == Ok::<Option<String>, HandshakeError>(None)
            &&& offered@.len() > 0 ==> (r matches Ok(p) && p matches Some(q) && q@ == offered@[0]@)
        },
{
    match password {
        Some(pw) => {
            let mut i: usize = 0;
            while i < offered.len()
                invariant
                    *password == Some(*pw),
                    i <= offered@.len(),
                    forall|j: int| 0 <= j < i ==> offered@[j]@ != pw@,
                decreases offered@.len() - i,
            {
                if offered[i] == *pw {
                    return Ok(Some(offered[i].clone()));
                }
                i = i + 1;
            }
            Err(HandshakeError::BadSubprotocol)
        },
        None => {
            if offered.len() > 0 {
                Ok(Some(offered[0].clone()))
            } else {
                Ok(None)
            }
        },
    }
}

} // verus!
