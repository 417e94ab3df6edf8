//! The shared document, kept in a memory-mapped file whose length is a whole
//! number of pages, together with the session registry and the optional
//! password; and what happens when a session connects or sends text.
use crate::sessions::{
    delivered, queue_text, queue_view, queued, recipients, Entry, PeerAddr, Sessions,
};
use futures::sync::mpsc::UnboundedSender;
use memmap::MmapMut;
use tungstenite::Message;
use vstd::prelude::*;
use vstd::string::StringSliceAdditionalSpecFns;
use vstd::utf8::{decode_utf8, encode_utf8, valid_utf8};

verus! {

#[verifier::external_type_specification]
#[verifier::external_body]
pub struct ExMmapMut(MmapMut);

/// The bytes of a writable memory mapping, in order.
pub uninterp spec fn mapped_bytes(m: MmapMut) -> Seq<u8>;

/// What `String::from_utf8_lossy` makes of bytes that are not valid UTF-8.
pub uninterp spec fn lossy_utf8(b: Seq<u8>) -> Seq<char>;

/// The text that bytes decode to: the decoded characters when the bytes are
/// valid UTF-8, else the lossy decoding.
pub open spec fn decoded_text(b: Seq<u8>) -> Seq<char> {
    if valid_utf8(b) {
        decode_utf8(b)
    } else {
        lossy_utf8(b)
    }
}

/// Relies on `MmapMut`'s `Deref` to `[u8]`: the mapping's length.
#[verifier::external_body]
fn mapping_len(m: &MmapMut) -> (r: usize)
    ensures
        r == mapped_bytes(*m).len(),
{
    m.len()
}

/// Relies on `MmapMut`'s `Deref` to `[u8]`: the byte at `i`.
#[verifier::external_body]
fn mapping_byte(m: &MmapMut, i: usize) -> (r: u8)
    requires
        i < mapped_bytes(*m).len(),
    ensures
        r == mapped_bytes(*m)[i as int],
{
    m[i]
}

/// Relies on `MmapMut`'s `DerefMut` to `[u8]`: overwrites the mapping's first
/// bytes with `data`.
#[verifier::external_body]
fn mapping_write(m: &mut MmapMut, data: &[u8])
    requires
        data@.len() <= mapped_bytes(*old(m)).len(),
    ensures
        mapped_bytes(*final(m)) == data@ + mapped_bytes(*old(m)).skip(data@.len() as int),
{
    m[..data.len()].copy_from_slice(data)
}

/// Relies on `MmapMut`'s `DerefMut` to `[u8]`: sets the byte at `i`.
#[verifier::external_body]
fn mapping_set(m: &mut MmapMut, i: usize, b: u8)
    requires
        i < mapped_bytes(*old(m)).len(),
    ensures
        mapped_bytes(*final(m)) == mapped_bytes(*old(m)).update(i as int, b),
{
    m[i] = b
}

/// Relies on `MmapMut`'s `Deref` to `[u8]`: copies the first `n` bytes.
#[verifier::external_body]
fn mapping_prefix(m: &MmapMut, n: usize) -> (r: Vec<u8>)
    requires
        n <= mapped_bytes(*m).len(),
    ensures
        r@ == mapped_bytes(*m).take(n as int),
{
    m[..n].to_vec()
}

/// Relies on `String::from_utf8_lossy`, which returns the decoded text of
/// valid UTF-8 unchanged.
#[verifier::external_body]
fn lossy_text(b: &[u8]) -> (r: String)
    ensures
        valid_utf8(b@) ==> r@ == decode_utf8(b@),
        !valid_utf8(b@) ==> r@ == lossy_utf8(b@),
{
    String::from_utf8_lossy(b).into_owned()
}

/// The size of a page of the mapping.
pub const PAGE_SIZE: usize = 4096;

/// The document a fresh store starts with.
pub const JSON_INIT: &'static str = "[{\"html\":\"Apples\",\"checked\":false},{\"html\":\"Bacon\",\"checked\":false},{\"html\":\"Coke\",\"checked\":false}]";

/// The smallest positive multiple of the page size that holds `len` bytes.
pub open spec fn aligned_len(len: nat) -> nat {
    if len == 0 {
        PAGE_SIZE as nat
    } else {
        PAGE_SIZE as nat * ((len - 1) as nat / PAGE_SIZE as nat + 1)
    }
}

/// The smallest positive multiple of the page size that holds `len` bytes.
pub fn align_len(len: usize) -> (r: usize)
    requires
        len <= usize::MAX - (PAGE_SIZE - 1),
    ensures
        r == aligned_len(len as nat),
        r % PAGE_SIZE == 0,
        r >= len,
        r > 0,
        r < (if len > 0 {
            len as int
        } else {
            1
        }) + PAGE_SIZE,
{
    let n: usize = PAGE_SIZE;
    let m: usize = if len > 1 {
        len
    } else {
        1
    };
    let q: usize = (m - 1) / n;
    proof {
        vstd::arithmetic::div_mod::lemma_fundamental_div_mod((m - 1) as int, n as int);
        vstd::arithmetic::div_mod::lemma_mod_bound((m - 1) as int, n as int);
        vstd::arithmetic::div_mod::lemma_mod_multiples_basic((q + 1) as int, n as int);
        assert((n as int) * ((q + 1) as int) == ((q + 1) as int) * (n as int)) by (nonlinear_arith);
    }
    n * (q + 1)
}

/// Aligning is idempotent and monotone: an aligned length stays as it is,
/// and a longer length never gets a shorter mapping.
pub proof fn lemma_aligned_len_laws(a: nat, b: nat)
    ensures
        aligned_len(aligned_len(a)) == aligned_len(a),
        a <= b ==> aligned_len(a) <= aligned_len(b),
{
    let p = PAGE_SIZE as int;
    let k = if a == 0 { 0 } else { (a - 1) as int / p };
    assert(aligned_len(a) == p * (k + 1));
    assert((p * (k + 1) - 1) / p == k) by {
        vstd::arithmetic::div_mod::lemma_fundamental_div_mod_converse(p * (k + 1) - 1, p, k, p - 1);
    }
    if a <= b && a > 0 {
        vstd::arithmetic::div_mod::lemma_div_is_ordered((a - 1) as int, (b - 1) as int, p);
        let kb = (b - 1) as int / p;
        assert(p * (k + 1) <= p * (kb + 1)) by (nonlinear_arith)
            requires
                k <= kb,
                p > 0,
        ;
    }
    if a == 0 && b > 0 {
        let kb = (b - 1) as int / p;
        assert(kb >= 0) by {
            vstd::arithmetic::div_mod::lemma_div_pos_is_pos((b - 1) as int, p);
        }
        assert(p * 1 <= p * (kb + 1)) by (nonlinear_arith)
            requires
                kb >= 0,
                p > 0,
        ;
    }
}

/// Where the document stored in `b` ends: `n` is the index of the first zero
/// byte, or the length of `b` when there is none.
pub open spec fn is_stored_len(b: Seq<u8>, n: nat) -> bool {
    &&& n <= b.len()
    &&& forall|j: int| 0 <= j < n ==> b[j] != 0
    &&& (n == b.len() || b[n as int] == 0)
}

/// The mapping's bytes after `d` is written as the document: `d` first,
/// then, if room is left, a zero byte that marks its end, then the bytes that
/// were there.
pub open spec fn write_document(b: Seq<u8>, d: Seq<u8>) -> Seq<u8> {
    if d.len() < b.len() {
        d + seq![0u8] + b.skip(d.len() as int + 1)
    } else {
        d + b.skip(d.len() as int)
    }
}

/// A document written without zero bytes is found again, whole, when the
/// mapping's bytes are read back, as on a restart: its end is where the
/// stored document ends.
pub proof fn lemma_restart_recovers(b: Seq<u8>, d: Seq<u8>, n: nat)
    requires
        d.len() <= b.len(),
        forall|j: int| 0 <= j < d.len() ==> d[j] != 0,
        is_stored_len(write_document(b, d), n),
    ensures
        n == d.len(),
        write_document(b, d).take(n as int) == d,
{
    let w = write_document(b, d);
    if n < d.len() {
        assert(w[n as int] == d[n as int]);
    }
    if n > d.len() {
        assert(w[d.len() as int] == 0u8);
    }
    assert(w.take(d.len() as int) =~= d);
}

/// Text stored as its UTF-8 bytes reads back as the same text.
pub proof fn lemma_text_round_trip(text: Seq<char>)
    ensures
        decoded_text(vstd::utf8::encode_utf8(text)) == text,
{
    vstd::utf8::encode_utf8_valid_utf8(text);
    vstd::utf8::encode_utf8_decode_utf8(text);
}

/// After `set_json(json)` succeeded, `get_json` returns `json`: the stored
/// bytes are its UTF-8 encoding, and nothing past them is read.
pub proof fn lemma_set_then_get(s: State, json: &str)
    requires
        s.content() == json.spec_bytes(),
    ensures
        s.text() == json@,
{
    lemma_text_round_trip(json@);
}

/// A document set without zero characters is what a store reopened on the
/// same bytes (with `new`, not fresh) returns.
pub proof fn lemma_set_then_reopen(before: State, b: Seq<u8>, reopened: State, json: &str)
    requires
        json.spec_bytes().len() <= b.len(),
        before.mapped() == write_document(b, json.spec_bytes()),
        reopened.mapped() == before.mapped(),
        is_stored_len(reopened.mapped(), reopened.doc_len()),
        forall|j: int| 0 <= j < json@.len() ==> json@[j] != '\0',
    ensures
        reopened.text() == json@,
{
    lemma_no_zero_byte(json@);
    lemma_restart_recovers(b, json.spec_bytes(), reopened.doc_len());
    lemma_text_round_trip(json@);
}

/// Text without the zero character encodes to bytes without a zero byte.
pub proof fn lemma_no_zero_byte(text: Seq<char>)
    requires
        forall|j: int| 0 <= j < text.len() ==> text[j] != '\0',
    ensures
        forall|j: int| 0 <= j < encode_utf8(text).len() ==> encode_utf8(text)[j] != 0,
    decreases text.len(),
{
    if text.len() > 0 {
        lemma_no_zero_byte(text.drop_first());
        let c = text[0] as u32;
        vstd::utf8::char_is_scalar(text[0]);
        if c == 0 {
            vstd::utf8::char_u32_cast(text[0], c);
            vstd::utf8::char_u32_cast('\0', 0u32);
        }
        lemma_scalar_no_zero_byte(c);
        let e = vstd::utf8::encode_scalar(c);
        let rest = encode_utf8(text.drop_first());
        assert forall|j: int| 0 <= j < encode_utf8(text).len() implies encode_utf8(text)[j] != 0 by {
            if j < e.len() {
                assert(encode_utf8(text)[j] == e[j]);
            } else {
                assert(encode_utf8(text)[j] == rest[j - e.len()]);
            }
        }
    }
}

/// A nonzero scalar's UTF-8 encoding holds no zero byte.
proof fn lemma_scalar_no_zero_byte(c: u32)
    requires
        c != 0,
        vstd::utf8::is_scalar(c),
    ensures
        forall|j: int| 0 <= j < vstd::utf8::encode_scalar(c).len() ==> vstd::utf8::encode_scalar(c)[j] != 0,
{
    assert(c != 0 && c <= 0x7F ==> (c & 0x7F) as u8 != 0) by (bit_vector);
    assert(forall|y: u8| (0xC0u8 | y) != 0 && (0xE0u8 | y) != 0 && (0xF0u8 | y) != 0 && (0x80u8 | y) != 0) by (bit_vector);
}

/// Why a store operation was refused.
#[derive(PartialEq, Eq, Structural, Clone, Copy, Debug)]
pub enum StoreError {
    /// The mapping is empty, not a whole number of pages, or too small.
    BadMapping,
    /// The document needs a mapping of this many bytes.
    NeedsCapacity(usize),
    /// No mapping can hold a document this long.
    TooLarge,
}

/// Whether `text` replaces the document: it starts with `[`.
pub fn is_document_update(text: &str) -> (r: bool)
    ensures
        r == (text@.len() > 0 && text@[0] == '['),
{
    text.unicode_len() > 0 && text.get_char(0) == '['
}

/// The shared document in its mapping, the live sessions, and the password
/// that clients must offer as a subprotocol.
pub struct State {
    connections: Sessions,
    password: Option<String>,
    mmap: MmapMut,
    len: usize,
    size: usize,
}

impl State {
    /// The bytes of the whole mapping.
    pub closed spec fn mapped(&self) -> Seq<u8> {
        mapped_bytes(self.mmap)
    }

    /// The document's length in bytes.
    pub closed spec fn doc_len(&self) -> nat {
        self.len as nat
    }

    /// The mapping's length: a whole number of pages.
    pub closed spec fn capacity(&self) -> nat {
        self.size as nat
    }

    /// The document's bytes; what lies past them in the mapping is padding.
    pub open spec fn content(&self) -> Seq<u8> {
        self.mapped().take(self.doc_len() as int)
    }

    /// The document as text.
    pub open spec fn text(&self) -> Seq<char> {
        decoded_text(self.content())
    }

    /// The store's invariant: the document fits in the mapping, whose length
    /// is the capacity, a positive whole number of pages.
    pub open spec fn store_wf(&self) -> bool {
        &&& self.doc_len() <= self.capacity()
        &&& self.capacity() == self.mapped().len()
        &&& self.capacity() % PAGE_SIZE as nat == 0
        &&& self.capacity() > 0
    }

    /// The live sessions.
    pub closed spec fn sessions(&self) -> Sessions {
        self.connections
    }

    /// The password clients must offer, if any.
    pub closed spec fn secret(&self) -> Option<String> {
        self.password
    }

    /// The state's invariant: the store's, and the registry's.
    pub open spec fn wf(&self) -> bool {
        self.store_wf() && self.sessions().wf()
    }

    /// Opens the store on a mapping of its file. A `fresh` file gets the
    /// initial document; otherwise the stored document runs up to the first
    /// zero byte, or over the whole mapping. Refused when the mapping is
    /// empty or not a whole number of pages, or, when fresh, shorter than
    /// the initial document.
    pub fn new(mmap: MmapMut, fresh: bool, password: Option<String>) -> (r: Result<State, StoreError>)
        ensures
            ({
                let b = mapped_bytes(mmap);
                let bad = b.len() == 0 || b.len() % PAGE_SIZE as nat != 0 || (fresh && b.len()
                    < JSON_INIT.spec_bytes().len());
                &&& bad <==> r is Err
                &&& bad ==> r == Err::<State, StoreError>(StoreError::BadMapping)
                &&& r matches Ok(s) ==> {
                    &&& s.wf()
                    &&& s.sessions().entries() == Seq::<Entry>::empty()
                    &&& s.secret() == password
                    &&& s.capacity() == b.len()
                    &&& fresh ==> s.mapped() == write_document(b, JSON_INIT.spec_bytes())
                        && s.content() == JSON_INIT.spec_bytes()
                    &&& !fresh ==> s.mapped() == b && is_stored_len(b, s.doc_len())
                }
            }),
    {
        let size = mapping_len(&mmap);
        if size == 0 || size % PAGE_SIZE != 0 {
            return Err(StoreError::BadMapping);
        }
        let mut state = State { connections: Sessions::new(), password, mmap, len: 0, size };
        if fresh {
            let init = JSON_INIT.as_bytes();
            if init.len() > size {
                return Err(StoreError::BadMapping);
            }
            state.write(init);
        } else {
            let mut i: usize = 0;
            while i < size && mapping_byte(&state.mmap, i) != 0
                invariant
                    i <= size,
                    size == mapped_bytes(state.mmap).len(),
                    forall|j: int| 0 <= j < i ==> mapped_bytes(state.mmap)[j] != 0,
                decreases size - i,
            {
                i = i + 1;
            }
            state.len = i;
        }
        Ok(state)
    }

    /// Writes `data` as the document, with a zero byte after it when it
    /// leaves room.
    fn write(&mut self, data: &[u8])
        requires
            data@.len() <= old(self).capacity(),
            old(self).capacity() == old(self).mapped().len(),
        ensures
            final(self).mapped() == write_document(old(self).mapped(), data@),
            final(self).content() == data@,
            final(self).doc_len() == data@.len(),
            final(self).capacity() == old(self).capacity(),
            final(self).sessions() == old(self).sessions(),
            final(self).secret() == old(self).secret(),
    {
        let ghost b = self.mapped();
        let len = data.len();
        mapping_write(&mut self.mmap, data);
        if len < self.size {
            mapping_set(&mut self.mmap, len, 0);
            assert(self.mapped() =~= data@ + seq![0u8] + b.skip(len as int + 1));
        }
        self.len = len;
        assert(self.content() =~= data@);
    }

    /// The document as text; bytes past its length are never read.
    pub fn get_json(&self) -> (r: String)
        requires
            self.store_wf(),
        ensures
            r@ == self.text(),
    {
        let bytes = mapping_prefix(&self.mmap, self.len);
        lossy_text(bytes.as_slice())
    }

    /// Replaces the document with `json` when it fits in the mapping. When it
    /// does not, nothing changes and the error says how long a mapping it
    /// needs (a positive whole number of pages). A reopened store finds the
    /// document's end at its first zero byte, so text holding a NUL character
    /// is stored whole but reopens cut at that character.
    pub fn set_json(&mut self, json: &str) -> (r: Result<(), StoreError>)
        requires
            old(self).wf(),
        ensures
            final(self).wf(),
            r is Ok <==> json.spec_bytes().len() <= old(self).capacity(),
            r is Ok ==> final(self).mapped() == write_document(old(self).mapped(), json.spec_bytes())
                && final(self).content() == json.spec_bytes() && final(self).capacity()
                == old(self).capacity(),
            r is Err ==> *final(self) == *old(self),
            r is Err && json.spec_bytes().len() <= usize::MAX - (PAGE_SIZE - 1) ==> r == Err::<
                (),
                StoreError,
            >(StoreError::NeedsCapacity(aligned_len(json.spec_bytes().len()) as usize)),
            r is Err && json.spec_bytes().len() > usize::MAX - (PAGE_SIZE - 1) ==> r == Err::<
                (),
                StoreError,
            >(StoreError::TooLarge),
            final(self).sessions() == old(self).sessions(),
            final(self).secret() == old(self).secret(),
    {
        let bytes = json.as_bytes();
        let len = bytes.len();
        if len > self.size {
            if len > usize::MAX - (PAGE_SIZE - 1) {
                return Err(StoreError::TooLarge);
            }
            return Err(StoreError::NeedsCapacity(align_len(len)));
        }
        self.write(bytes);
        Ok(())
    }

    /// Replaces the mapping with `mmap`, a larger mapping of the same file,
    /// and writes `json` as the document in it. Refused, with nothing
    /// changed, when `mmap` is empty, not a whole number of pages, or too
    /// short for `json`.
    pub fn set_json_remapped(&mut self, mmap: MmapMut, json: &str) -> (r: Result<(), StoreError>)
        requires
            old(self).wf(),
        ensures
            final(self).wf(),
            ({
                let b = mapped_bytes(mmap);
                let bad = b.len() == 0 || b.len() % PAGE_SIZE as nat != 0 || json.spec_bytes().len()
                    > b.len();
                &&& bad <==> r is Err
                &&& bad ==> r == Err::<(), StoreError>(StoreError::BadMapping) && *final(self)
                    == *old(self)
                &&& !bad ==> final(self).mapped() == write_document(b, json.spec_bytes())
                    && final(self).content() == json.spec_bytes() && final(self).capacity()
                    == b.len()
            }),
            final(self).sessions() == old(self).sessions(),
            final(self).secret() == old(self).secret(),
    {
        let size = mapping_len(&mmap);
        let bytes = json.as_bytes();
        if size == 0 || size % PAGE_SIZE != 0 || bytes.len() > size {
            return Err(StoreError::BadMapping);
        }
        self.mmap = mmap;
        self.size = size;
        self.write(bytes);
        Ok(())
    }

    /// The password clients must offer as a subprotocol, if any.
    pub fn password(&self) -> (r: &Option<String>)
        ensures
            *r == self.secret(),
    {
        &self.password
    }

    /// Whether a session is registered under `id`.
    pub fn is_connected(&self, id: PeerAddr) -> (r: bool)
        ensures
            r == exists|i: int|
                0 <= i < self.sessions().entries().len() && self.sessions().entries()[i].0 == id,
    {
        let r = self.connections.contains(id);
        proof {
            assert(self.sessions() == self.connections);
            if r {
                let i = choose|i: int|
                    0 <= i < self.connections.entries().len() && self.connections.entries()[i].0 == id;
                assert(self.sessions().entries()[i].0 == id);
            }
        }
        r
    }

    /// A session connects under `id`: it is registered (replacing any
    /// session under the same identity) and the current document is queued
    /// to it as its first message. Returns whether the message was queued.
    pub fn connect(&mut self, id: PeerAddr, tx: UnboundedSender<Message>) -> (r: bool)
        requires
            old(self).wf(),
        ensures
            final(self).wf(),
            queue_view(final(self).sessions().entries()) == queue_view(
                old(self).sessions().entries().filter(|e: Entry| e.0 != id),
            ).push(
                (
                    id,
                    if r {
                        queued(tx).push(old(self).text())
                    } else {
                        queued(tx)
                    },
                ),
            ),
            final(self).mapped() == old(self).mapped(),
            final(self).doc_len() == old(self).doc_len(),
            final(self).capacity() == old(self).capacity(),
            final(self).secret() == old(self).secret(),
    {
        let doc = self.get_json();
        let mut tx = tx;
        let ok = queue_text(&mut tx, doc.as_str());
        let ghost sent = tx;
        self.connections.register(id, tx);
        proof {
            let kept = old(self).sessions().entries().filter(|e: Entry| e.0 != id);
            assert(queue_view(kept.push((id, sent))) =~= queue_view(kept).push((id, queued(sent))));
        }
        ok
    }

    /// The session under `id` is gone: it is removed from the registry.
    pub fn disconnect(&mut self, id: PeerAddr)
        requires
            old(self).wf(),
        ensures
            final(self).wf(),
            final(self).sessions().entries() == old(self).sessions().entries().filter(
                |e: Entry| e.0 != id,
            ),
            final(self).mapped() == old(self).mapped(),
            final(self).doc_len() == old(self).doc_len(),
            final(self).capacity() == old(self).capacity(),
            final(self).secret() == old(self).secret(),
    {
        self.connections.deregister(id);
    }

    /// Text received from the session `sender`. A document update (text
    /// starting with `[`) is first written to the store and then queued, as
    /// it is, for every other session; the report lists each recipient with
    /// whether the message was queued, and recipients whose queue is gone are
    /// removed. Other text changes nothing. An update that does not fit in
    /// the mapping changes nothing and fails as `set_json` does.
    pub fn receive_text(&mut self, sender: PeerAddr, text: &str) -> (r: Result<
        Vec<(PeerAddr, bool)>,
        StoreError,
    >)
        requires
            old(self).wf(),
        ensures
            final(self).wf(),
            final(self).secret() == old(self).secret(),
            r is Err || !(text@.len() > 0 && text@[0] == '[') ==> queue_view(
                final(self).sessions().entries(),
            ) == queue_view(old(self).sessions().entries()) && final(self).content() == old(
                self,
            ).content(),
            !(text@.len() > 0 && text@[0] == '[') ==> (r matches Ok(rep) && rep@.len() == 0
                && *final(self) == *old(self)),
            text@.len() > 0 && text@[0] == '[' ==> {
                &&& r is Ok <==> text.spec_bytes().len() <= old(self).capacity()
                &&& r is Err ==> *final(self) == *old(self)
                &&& r matches Ok(rep) ==> {
                    &&& final(self).mapped() == write_document(old(self).mapped(), text.spec_bytes())
                    &&& final(self).content() == text.spec_bytes()
                    &&& final(self).capacity() == old(self).capacity()
                    &&& rep@.map_values(|o: (PeerAddr, bool)| o.0) == recipients(
                        old(self).sessions().entries(),
                        sender,
                    )
                    &&& queue_view(final(self).sessions().entries()) == delivered(
                        queue_view(old(self).sessions().entries()),
                        sender,
                        text@,
                        rep@,
                    )
                }
            },
    {
        if !is_document_update(text) {
            return Ok(Vec::new());
        }
        match self.set_json(text) {
            Err(e) => Err(e),
            Ok(()) => Ok(self.connections.broadcast_except(sender, text)),
        }
    }

    /// `receive_text` for an update that needed a larger mapping: `mmap` is
    /// that mapping of the same file. Refused, with nothing changed, as
    /// `set_json_remapped` refuses.
    pub fn receive_text_remapped(&mut self, sender: PeerAddr, mmap: MmapMut, text: &str) -> (r:
        Result<Vec<(PeerAddr, bool)>, StoreError>)
        requires
            old(self).wf(),
        ensures
            final(self).wf(),
            final(self).secret() == old(self).secret(),
            r is Err || !(text@.len() > 0 && text@[0] == '[') ==> queue_view(
                final(self).sessions().entries(),
            ) == queue_view(old(self).sessions().entries()) && final(self).content() == old(
                self,
            ).content(),
            !(text@.len() > 0 && text@[0] == '[') ==> (r matches Ok(rep) && rep@.len() == 0
                && *final(self) == *old(self)),
            text@.len() > 0 && text@[0] == '[' ==> {
                let b = mapped_bytes(mmap);
                let bad = b.len() == 0 || b.len() % PAGE_SIZE as nat != 0 || text.spec_bytes().len()
                    > b.len();
                &&& bad <==> r is Err
                &&& r is Err ==> r == Err::<Vec<(PeerAddr, bool)>, StoreError>(
                    StoreError::BadMapping,
                ) && *final(self) == *old(self)
                &&& r matches Ok(rep) ==> {
                    &&& final(self).mapped() == write_document(b, text.spec_bytes())
                    &&& final(self).content() == text.spec_bytes()
                    &&& final(self).capacity() == b.len()
                    &&& rep@.map_values(|o: (PeerAddr, bool)| o.0) == recipients(
                        old(self).sessions().entries(),
                        sender,
                    )
                    &&& queue_view(final(self).sessions().entries()) == delivered(
                        queue_view(old(self).sessions().entries()),
                        sender,
                        text@,
                        rep@,
                    )
                }
            },
    {
        if !is_document_update(text) {
            return Ok(Vec::new());
        }
        match self.set_json_remapped(mmap, text) {
            Err(e) => Err(e),
            Ok(()) => Ok(self.connections.broadcast_except(sender, text)),
        }
    }

    /// Closes the store, handing back its mapping (which holds the document
    /// as it is stored).
    pub fn close(self) -> (r: MmapMut)
        ensures
            mapped_bytes(r) == self.mapped(),
    {
        self.mmap
    }
}

} // verus!
