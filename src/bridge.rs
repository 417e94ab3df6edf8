//! A byte-stream bridge that lets two protocol parsers see the same HTTP
//! request: bytes are buffered until a complete request head is found, that
//! head is handed out and kept, and it can be replayed once before the bridge
//! switches to forwarding raw bytes.
use bytes::BytesMut;
use vstd::prelude::*;

verus! {

#[verifier::external_type_specification]
#[verifier::external_body]
pub struct ExBytesMut(BytesMut);

/// The bytes held by a `BytesMut` buffer, in order.
pub uninterp spec fn bytes_of(b: BytesMut) -> Seq<u8>;

/// What httparse finds at the start of `buf`, with room for `max_headers`
/// headers: a complete request head (request line and headers, not the body)
/// and where it ends, an incomplete one, or bytes that are no request.
pub uninterp spec fn request_head(buf: Seq<u8>, max_headers: nat) -> HeadStatus;

/// Relies on `BytesMut::new`: an empty buffer.
#[verifier::external_body]
fn bytes_new() -> (r: BytesMut)
    ensures
        bytes_of(r) == Seq::<u8>::empty(),
{
    BytesMut::new()
}

/// Relies on `BytesMut::len`: the number of bytes held.
#[verifier::external_body]
fn bytes_len(b: &BytesMut) -> (r: usize)
    ensures
        r == bytes_of(*b).len(),
{
    b.len()
}

/// Relies on `BytesMut::extend_from_slice`: appends `data` at the end.
#[verifier::external_body]
fn bytes_extend(b: &mut BytesMut, data: &[u8])
    ensures
        bytes_of(*final(b)) == bytes_of(*old(b)) + data@,
{
    b.extend_from_slice(data)
}

/// Relies on `BytesMut::split_to`: returns the first `at` bytes and keeps the
/// rest (it panics when `at` exceeds the length).
#[verifier::external_body]
fn bytes_split_to(b: &mut BytesMut, at: usize) -> (r: BytesMut)
    requires
        at <= bytes_of(*old(b)).len(),
    ensures
        bytes_of(r) == bytes_of(*old(b)).take(at as int),
        bytes_of(*final(b)) == bytes_of(*old(b)).skip(at as int),
{
    b.split_to(at)
}

/// Relies on `BytesMut`'s `Deref` to `[u8]`: copies the bytes held.
#[verifier::external_body]
fn bytes_to_vec(b: &BytesMut) -> (r: Vec<u8>)
    ensures
        r@ == bytes_of(*b),
{
    b.to_vec()
}

/// Relies on `httparse::Request::parse`, which returns `Complete(n)` with `n`
/// the offset of the body in `buf`, so never past its end, `Partial` for an
/// incomplete head, and an error otherwise (more headers than room for them
/// among the errors).
#[verifier::external_body]
fn parse_request_head(buf: &BytesMut, max_headers: usize) -> (r: HeadStatus)
    ensures
        r == request_head(bytes_of(*buf), max_headers as nat),
        r matches HeadStatus::Complete(n) ==> n <= bytes_of(*buf).len(),
{
    let mut headers = vec![httparse::EMPTY_HEADER; max_headers];
    let mut req = httparse::Request::new(&mut headers);
    match req.parse(buf) {
        Ok(httparse::Status::Complete(n)) => HeadStatus::Complete(n),
        Ok(httparse::Status::Partial) => HeadStatus::Partial,
        Err(_) => HeadStatus::Invalid,
    }
}

/// What the parser found at the start of the buffered input.
#[derive(PartialEq, Eq, Structural, Clone, Copy, Debug)]
pub enum HeadStatus {
    /// A complete request head of this many bytes.
    Complete(usize),
    /// The head is not complete yet.
    Partial,
    /// The bytes are no valid request head.
    Invalid,
}

/// Where a complete head ends, if the parser found one.
pub open spec fn head_len(s: HeadStatus) -> Option<nat> {
    match s {
        HeadStatus::Complete(n) => Some(n as nat),
        _ => None,
    }
}

/// The most headers a request may carry; more is a parse failure.
pub const MAX_HEADERS: usize = 128;

/// The bridge's two modes: it starts buffering and may switch, once, to
/// forwarding bytes untouched.
#[derive(PartialEq, Eq, Structural, Clone, Copy, Debug)]
pub enum Mode {
    Buffering,
    PassThrough,
}

/// Why a mode change was refused.
#[derive(PartialEq, Eq, Structural, Clone, Copy, Debug)]
pub enum BridgeError {
    /// The bridge already forwards raw bytes.
    AlreadyPassThrough,
}

/// What a read asks of the caller.
#[derive(Debug)]
pub enum ReadStep {
    /// These bytes are the read's result (at most the requested length).
    Data(Vec<u8>),
    /// No complete request is buffered yet: read more from the underlying
    /// stream and hand it over with `feed` (an end of stream ends the read).
    NeedInput,
    /// Read from the underlying stream directly.
    Direct,
    /// The buffered input is no valid request: the connection fails.
    Invalid,
}

/// The bridge as values: bytes taken in and not yet classified, bytes ready
/// for the reader, the last request head found, and the mode.
pub struct BridgeView {
    pub input: Seq<u8>,
    pub output: Seq<u8>,
    pub last: Seq<u8>,
    pub mode: Mode,
}

/// The buffering state of one connection's bridge; the caller owns the
/// underlying stream and performs the reads and writes it asks for.
pub struct RewindStream {
    buf_in: BytesMut,
    buf_out: BytesMut,
    last_req: BytesMut,
    mode: Mode,
}

/// The state after the reader looked for a request head, given what the
/// parser reported: a complete head moves out of the input, into the output,
/// and becomes the last request.
pub open spec fn after_parse(v: BridgeView, parsed: Option<nat>) -> BridgeView {
    if v.output.len() == 0 && v.mode == Mode::Buffering && parsed is Some {
        let n = parsed->0 as int;
        BridgeView {
            input: v.input.skip(n),
            output: v.input.take(n),
            last: v.input.take(n),
            mode: v.mode,
        }
    } else {
        v
    }
}

/// How many bytes a read of at most `max_len` takes from the output.
pub open spec fn served_len(v: BridgeView, max_len: nat) -> nat {
    if max_len < v.output.len() {
        max_len
    } else {
        v.output.len()
    }
}

/// The bytes a read of at most `max_len` hands out.
pub open spec fn served(v: BridgeView, max_len: nat) -> Seq<u8> {
    v.output.take(served_len(v, max_len) as int)
}

/// The state after a read of at most `max_len` bytes was served.
pub open spec fn after_serve(v: BridgeView, max_len: nat) -> BridgeView {
    BridgeView { output: v.output.skip(served_len(v, max_len) as int), ..v }
}

/// A read of at most `max_len` bytes, given where the parser found a complete
/// request head (if it did): the state after it, the bytes it hands out (if
/// any), and whether the caller is to read the underlying stream directly.
pub open spec fn read_result(v: BridgeView, max_len: nat, parsed: Option<nat>) -> (BridgeView, Option<Seq<u8>>, bool) {
    let p = after_parse(v, parsed);
    if p.output.len() > 0 {
        (after_serve(p, max_len), Some(served(p, max_len)), false)
    } else {
        (p, None, p.mode == Mode::PassThrough)
    }
}

/// The state after `rewind`: the last request goes back in front of the output.
pub open spec fn after_rewind(v: BridgeView) -> BridgeView {
    BridgeView { output: v.last + v.output, ..v }
}

/// The state after `pass_through`: what was taken in and not yet handed out
/// follows the output, and no more parsing happens.
pub open spec fn after_pass_through(v: BridgeView) -> BridgeView {
    BridgeView {
        input: Seq::empty(),
        output: v.output + v.input,
        last: v.last,
        mode: Mode::PassThrough,
    }
}

/// The state after `feed(data)`.
pub open spec fn after_feed(v: BridgeView, data: Seq<u8>) -> BridgeView {
    BridgeView { input: v.input + data, ..v }
}

/// Whether a read step matches the expected outcome of `read_result`.
pub open spec fn step_matches(r: ReadStep, out: Option<Seq<u8>>, direct: bool) -> bool {
    match r {
        ReadStep::Data(d) => out == Some(d@),
        ReadStep::NeedInput => out is None && !direct,
        ReadStep::Direct => out is None && direct,
        ReadStep::Invalid => false,
    }
}

/// A fresh bridge's state.
pub open spec fn fresh_view() -> BridgeView {
    BridgeView { input: Seq::empty(), output: Seq::empty(), last: Seq::empty(), mode: Mode::Buffering }
}

/// A request head followed by arbitrary bytes, fed into a fresh bridge: once
/// the parser reports the head's end, a read hands out exactly the head; after
/// the switch to forwarding, a read hands out exactly the trailing bytes, and
/// then reads go to the underlying stream. What was handed out is what was
/// taken in, byte for byte.
pub proof fn lemma_request_then_trailing(req: Seq<u8>, trailing: Seq<u8>, max_len: nat)
    requires
        req.len() > 0,
        trailing.len() > 0,
        max_len >= req.len(),
        max_len >= trailing.len(),
    ensures
        ({
            let fed = after_feed(fresh_view(), req + trailing);
            let first = read_result(fed, max_len, Some(req.len()));
            let bridged = after_pass_through(first.0);
            let second = read_result(bridged, max_len, None);
            let third = read_result(second.0, max_len, None);
            &&& first.1 == Some(req)
            &&& second.1 == Some(trailing)
            &&& third.1 is None && third.2
            &&& first.1->0 + second.1->0 == req + trailing
        }),
{
    let all = req + trailing;
    let fed = after_feed(fresh_view(), all);
    assert(fed.input =~= all);
    assert(all.take(req.len() as int) =~= req);
    assert(all.skip(req.len() as int) =~= trailing);
    let first = read_result(fed, max_len, Some(req.len()));
    assert(req.take(req.len() as int) =~= req);
    assert(first.0.output =~= Seq::<u8>::empty());
    let bridged = after_pass_through(first.0);
    assert(bridged.output =~= trailing);
    assert(trailing.take(trailing.len() as int) =~= trailing);
    let second = read_result(bridged, max_len, None);
    assert(second.0.output =~= Seq::<u8>::empty());
}

/// The bytes a read step hands out, none when it hands out nothing.
pub open spec fn handed_out(out: Option<Seq<u8>>) -> Seq<u8> {
    match out {
        Some(d) => d,
        None => Seq::empty(),
    }
}

/// No read loses, duplicates or reorders a byte: what it hands out, followed
/// by the output and input still held, is what was held before. The switch
/// to forwarding keeps the held bytes in order too. So, without a rewind,
/// everything fed in comes out once, in order, whatever the read sizes.
pub proof fn lemma_reads_conserve_bytes(v: BridgeView, max_len: nat, parsed: Option<nat>)
    requires
        parsed matches Some(n) ==> n <= v.input.len(),
    ensures
        ({
            let res = read_result(v, max_len, parsed);
            handed_out(res.1) + res.0.output + res.0.input == v.output + v.input
        }),
        after_pass_through(v).output + after_pass_through(v).input == v.output + v.input,
{
    let p = after_parse(v, parsed);
    if v.output.len() == 0 && v.mode == Mode::Buffering && parsed is Some {
        let n = parsed->0 as int;
        assert(v.output + v.input =~= v.input);
        assert(p.output + p.input =~= v.input.take(n) + v.input.skip(n));
        assert(v.input.take(n) + v.input.skip(n) =~= v.input);
    }
    assert(p.output + p.input == v.output + v.input);
    if p.output.len() > 0 {
        let k = served_len(p, max_len) as int;
        assert(p.output.take(k) + p.output.skip(k) =~= p.output);
        assert(p.output.take(k) + (p.output.skip(k) + p.input) =~= p.output + p.input);
    } else {
        assert(Seq::<u8>::empty() + p.output + p.input =~= p.output + p.input);
    }
    assert(after_pass_through(v).output + after_pass_through(v).input =~= v.output + v.input);
}

/// While buffering with nothing pending, a read before the parser finds a
/// complete head hands out nothing and changes nothing: bytes fed in any
/// chunks wait in the input, and when the head is found it comes out first
/// and whole (`after_parse`), ahead of the bytes behind it.
pub proof fn lemma_no_bytes_before_head(v: BridgeView, max_len: nat, data: Seq<u8>)
    requires
        v.output.len() == 0,
        v.mode == Mode::Buffering,
    ensures
        read_result(v, max_len, None) == (v, None::<Seq<u8>>, false),
        after_feed(v, data).input == v.input + data,
        after_feed(v, data).output.len() == 0,
{
}

/// The total of read sizes.
pub open spec fn total(sizes: Seq<nat>) -> nat
    decreases sizes.len(),
{
    if sizes.len() == 0 {
        0
    } else {
        total(sizes.drop_last()) + sizes.last()
    }
}

/// The state after reads of the given sizes, one after the other, and the
/// bytes they hand out, in order; the parser finds no new head meanwhile.
pub open spec fn read_many(v: BridgeView, sizes: Seq<nat>) -> (BridgeView, Seq<u8>)
    decreases sizes.len(),
{
    if sizes.len() == 0 {
        (v, Seq::empty())
    } else {
        let before = read_many(v, sizes.drop_last());
        let res = read_result(before.0, sizes.last(), None);
        (res.0, before.1 + handed_out(res.1))
    }
}

/// A request head waiting in the output is handed out in pieces of any
/// sizes, byte for byte and in order, before anything else: reads that
/// together ask for no more than the head return exactly its first bytes,
/// leave the rest of it first in line, and do not touch the input behind it
/// (the parser is not consulted while output is pending).
pub proof fn lemma_head_read_in_pieces(v: BridgeView, sizes: Seq<nat>)
    requires
        v.output.len() > 0,
        forall|i: int| 0 <= i < sizes.len() ==> sizes[i] >= 1,
        total(sizes) <= v.output.len(),
    ensures
        read_many(v, sizes).1 == v.output.take(total(sizes) as int),
        read_many(v, sizes).0 == (BridgeView { output: v.output.skip(total(sizes) as int), ..v }),
    decreases sizes.len(),
{
    if sizes.len() == 0 {
        assert(v.output.take(0) =~= Seq::<u8>::empty());
        assert(v.output.skip(0) =~= v.output);
    } else {
        let front = sizes.drop_last();
        assert forall|i: int| 0 <= i < front.len() implies front[i] >= 1 by {
            assert(front[i] == sizes[i]);
        }
        assert(sizes.last() == sizes[sizes.len() - 1]);
        lemma_head_read_in_pieces(v, front);
        let t = total(front) as int;
        let k = sizes.last() as int;
        let w = read_many(v, front).0;
        assert(w.output.len() == v.output.len() - t);
        assert(w.output.len() > 0);
        assert(after_parse(w, None) == w);
        assert(served_len(w, sizes.last()) == k);
        assert(v.output.take(t) + w.output.take(k) =~= v.output.take(t + k));
        assert(w.output.skip(k) =~= v.output.skip(t + k));
    }
}

/// Right after a rewind, a read hands out the last request head exactly,
/// once: the bridge is then back in the state it had before the rewind, so
/// the following reads go on with the input as usual.
pub proof fn lemma_rewind_replays_once(v: BridgeView, max_len: nat, parsed: Option<nat>)
    requires
        v.mode == Mode::Buffering,
        v.output.len() == 0,
        v.last.len() > 0,
        max_len >= v.last.len(),
    ensures
        read_result(after_rewind(v), max_len, parsed).1 == Some(v.last),
        read_result(after_rewind(v), max_len, parsed).0 == v,
{
    let w = after_rewind(v);
    assert(w.output =~= v.last);
    assert(v.last.take(v.last.len() as int) =~= v.last);
    assert(v.last.skip(v.last.len() as int) =~= v.output);
}

impl View for RewindStream {
    type V = BridgeView;

    closed spec fn view(&self) -> BridgeView {
        BridgeView {
            input: bytes_of(self.buf_in),
            output: bytes_of(self.buf_out),
            last: bytes_of(self.last_req),
            mode: self.mode,
        }
    }
}

impl RewindStream {
    /// A bridge for a fresh connection: empty buffers, buffering mode.
    pub fn new() -> (r: RewindStream)
        ensures
            r@ == fresh_view(),
    {
        RewindStream {
            buf_in: bytes_new(),
            buf_out: bytes_new(),
            last_req: bytes_new(),
            mode: Mode::Buffering,
        }
    }

    /// The current mode.
    pub fn mode(&self) -> (r: Mode)
        ensures
            r == self@.mode,
    {
        self.mode
    }

    /// Hands over bytes read from the underlying stream.
    pub fn feed(&mut self, data: &[u8])
        ensures
            final(self)@ == after_feed(old(self)@, data@),
    {
        bytes_extend(&mut self.buf_in, data);
    }

    /// Replays the last request head: the next reads return it before
    /// anything else. Refused once the bridge forwards raw bytes.
    pub fn rewind(&mut self) -> (r: Result<(), BridgeError>)
        ensures
            old(self)@.mode == Mode::PassThrough ==> r == Err::<(), BridgeError>(
                BridgeError::AlreadyPassThrough,
            ) && final(self)@ == old(self)@,
            old(self)@.mode == Mode::Buffering ==> r is Ok && final(self)@ == after_rewind(
                old(self)@,
            ),
    {
        if self.mode == Mode::PassThrough {
            return Err(BridgeError::AlreadyPassThrough);
        }
        let last = bytes_to_vec(&self.last_req);
        let rest = bytes_to_vec(&self.buf_out);
        let mut out = bytes_new();
        bytes_extend(&mut out, last.as_slice());
        bytes_extend(&mut out, rest.as_slice());
        self.buf_out = out;
        assert(self@ =~= after_rewind(old(self)@));
        Ok(())
    }

    /// Switches, once, to forwarding raw bytes; bytes already taken in are
    /// still handed out first, in order. Refused when already forwarding.
    pub fn pass_through(&mut self) -> (r: Result<(), BridgeError>)
        ensures
            old(self)@.mode == Mode::PassThrough ==> r == Err::<(), BridgeError>(
                BridgeError::AlreadyPassThrough,
            ) && final(self)@ == old(self)@,
            old(self)@.mode == Mode::Buffering ==> r is Ok && final(self)@ == after_pass_through(
                old(self)@,
            ),
    {
        if self.mode == Mode::PassThrough {
            return Err(BridgeError::AlreadyPassThrough);
        }
        let len = bytes_len(&self.buf_in);
        let rest = bytes_split_to(&mut self.buf_in, len);
        let pending = bytes_to_vec(&rest);
        bytes_extend(&mut self.buf_out, pending.as_slice());
        self.mode = Mode::PassThrough;
        assert(self@.input =~= Seq::<u8>::empty());
        assert(self@.output =~= old(self)@.output + old(self)@.input);
        Ok(())
    }

    /// Whether a read looks at the buffered input: only while buffering
    /// with no output pending.
    pub open spec fn consults_parser(v: BridgeView) -> bool {
        v.output.len() == 0 && v.mode == Mode::Buffering
    }

    /// One read of at most `max_len` bytes, given what the parser reported on
    /// the buffered input (consulted only when `consults_parser` holds). An
    /// invalid request fails the read and changes nothing.
    pub fn read_parsed(&mut self, max_len: usize, status: HeadStatus) -> (r: ReadStep)
        requires
            status matches HeadStatus::Complete(n) ==> n <= old(self)@.input.len(),
        ensures
            Self::consults_parser(old(self)@) && status == HeadStatus::Invalid ==> r is Invalid
                && final(self)@ == old(self)@,
            !(Self::consults_parser(old(self)@) && status == HeadStatus::Invalid) ==> ({
                let res = read_result(old(self)@, max_len as nat, head_len(status));
                final(self)@ == res.0 && step_matches(r, res.1, res.2)
            }),
    {
        let ghost pn = head_len(status);
        if bytes_len(&self.buf_out) == 0 && self.mode == Mode::Buffering {
            match status {
                HeadStatus::Complete(n) => {
                    let head = bytes_split_to(&mut self.buf_in, n);
                    let copy = bytes_to_vec(&head);
                    self.last_req = head;
                    bytes_extend(&mut self.buf_out, copy.as_slice());
                },
                HeadStatus::Partial => {},
                HeadStatus::Invalid => {
                    return ReadStep::Invalid;
                },
            }
        }
        assert(self@ == after_parse(old(self)@, pn));
        let out_len = bytes_len(&self.buf_out);
        if out_len == 0 {
            if self.mode == Mode::PassThrough {
                ReadStep::Direct
            } else {
                ReadStep::NeedInput
            }
        } else {
            let len = if max_len < out_len {
                max_len
            } else {
                out_len
            };
            let chunk = bytes_split_to(&mut self.buf_out, len);
            ReadStep::Data(bytes_to_vec(&chunk))
        }
    }

    /// One read of at most `max_len` bytes: serves pending output, else asks
    /// for a direct read when forwarding, else looks for a complete request
    /// head in the buffered input (with room for `MAX_HEADERS` headers) and
    /// serves it, or asks for more input, or fails on an invalid request.
    pub fn read(&mut self, max_len: usize) -> (r: ReadStep)
        ensures
            ({
                let status = if Self::consults_parser(old(self)@) {
                    request_head(old(self)@.input, MAX_HEADERS as nat)
                } else {
                    HeadStatus::Partial
                };
                &&& status == HeadStatus::Invalid ==> r is Invalid && final(self)@ == old(self)@
                &&& status != HeadStatus::Invalid ==> ({
                    let res = read_result(old(self)@, max_len as nat, head_len(status));
                    final(self)@ == res.0 && step_matches(r, res.1, res.2)
                })
            }),
    {
        let status = if bytes_len(&self.buf_out) == 0 && self.mode == Mode::Buffering {
            parse_request_head(&self.buf_in, MAX_HEADERS)
        } else {
            HeadStatus::Partial
        };
        self.read_parsed(max_len, status)
    }
}

} // verus!
