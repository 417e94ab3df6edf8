//! The registry of live WebSocket sessions, each with the queue of messages
//! waiting to be written to it, and the broadcast of a message to all
//! sessions but one.
use futures::sync::mpsc::UnboundedSender;
use tungstenite::Message;
use vstd::prelude::*;

verus! {

#[verifier::external_type_specification]
#[verifier::external_body]
#[verifier::reject_recursive_types(T)]
pub struct ExUnboundedSender<T>(UnboundedSender<T>);

#[verifier::external_type_specification]
#[verifier::external_body]
pub struct ExMessage(Message);

/// The texts waiting in the queue that `tx` sends into, oldest first.
pub uninterp spec fn queued(tx: UnboundedSender<Message>) -> Seq<Seq<char>>;

/// Relies on `UnboundedSender::unbounded_send`: queues `text` as a text
/// message, or, when the receiving side is gone, fails before queueing
/// anything.
#[verifier::external_body]
pub(crate) fn queue_text(tx: &mut UnboundedSender<Message>, text: &str) -> (r: bool)
    ensures
        r ==> queued(*final(tx)) == queued(*old(tx)).push(text@),
        !r ==> queued(*final(tx)) == queued(*old(tx)),
{
    tx.unbounded_send(Message::Text(text.to_string())).is_ok()
}

/// A session's identity: the peer's IP address (IPv4 addresses mapped into
/// IPv6) and port.
#[derive(PartialEq, Eq, Structural, Clone, Copy, Debug, Hash)]
pub struct PeerAddr {
    pub ip: u128,
    pub port: u16,
}

/// One registered session: its identity and its outbound queue.
pub type Entry = (PeerAddr, UnboundedSender<Message>);

/// The identities of `s`'s sessions other than `sender`, in order: who a
/// broadcast from `sender` is sent to.
pub open spec fn recipients(s: Seq<Entry>, sender: PeerAddr) -> Seq<PeerAddr>
    decreases s.len(),
{
    if s.len() == 0 {
        Seq::empty()
    } else {
        let prev = recipients(s.drop_last(), sender);
        if s.last().0 == sender {
            prev
        } else {
            prev.push(s.last().0)
        }
    }
}

/// Each session's identity with the texts waiting in its queue.
pub open spec fn queue_view(s: Seq<Entry>) -> Seq<(PeerAddr, Seq<Seq<char>>)> {
    s.map_values(|e: Entry| (e.0, queued(e.1)))
}

/// The sessions and their queues after `text` was broadcast from `sender`,
/// with `report` listing each recipient in order and whether its queue took
/// the text: `sender`'s session is kept as it was; each other session is kept
/// with `text` added once at the end of its queue when the report says so,
/// and is dropped, its queue untouched, when the report says it failed.
pub open spec fn delivered(
    s: Seq<(PeerAddr, Seq<Seq<char>>)>,
    sender: PeerAddr,
    text: Seq<char>,
    report: Seq<(PeerAddr, bool)>,
) -> Seq<(PeerAddr, Seq<Seq<char>>)>
    decreases s.len(),
{
    if s.len() == 0 {
        Seq::empty()
    } else if s.last().0 == sender {
        delivered(s.drop_last(), sender, text, report).push(s.last())
    } else {
        let prev = delivered(s.drop_last(), sender, text, report.drop_last());
        if report.last().1 {
            prev.push((s.last().0, s.last().1.push(text)))
        } else {
            prev
        }
    }
}

/// A broadcast leaves the sender's own queue as it was: every session kept
/// under `sender`'s identity is one that was there, with the same queue.
pub proof fn lemma_broadcast_spares_sender(
    s: Seq<(PeerAddr, Seq<Seq<char>>)>,
    sender: PeerAddr,
    text: Seq<char>,
    report: Seq<(PeerAddr, bool)>,
)
    ensures
        forall|k: int|
            0 <= k < delivered(s, sender, text, report).len() && delivered(s, sender, text, report)[k].0
                == sender ==> s.contains(delivered(s, sender, text, report)[k]),
    decreases s.len(),
{
    if s.len() > 0 {
        let rest = if s.last().0 == sender {
            report
        } else {
            report.drop_last()
        };
        lemma_broadcast_spares_sender(s.drop_last(), sender, text, rest);
        let prev = delivered(s.drop_last(), sender, text, rest);
        let d = delivered(s, sender, text, report);
        assert forall|k: int| 0 <= k < d.len() && d[k].0 == sender implies s.contains(d[k]) by {
            if k < prev.len() {
                assert(d[k] == prev[k]);
                let j = choose|j: int| 0 <= j < s.drop_last().len() && s.drop_last()[j] == prev[k];
                assert(s[j] == prev[k]);
            } else {
                assert(d[k] == s.last());
                assert(s[s.len() - 1] == s.last());
            }
        }
    }
}

/// Whether no identity appears twice.
pub open spec fn unique_ids(s: Seq<Entry>) -> bool {
    forall|i: int, j: int| 0 <= i < j < s.len() ==> s[i].0 != s[j].0
}

/// A broadcast from `sender` reaches no session under `sender`'s identity,
/// and every other registered session.
pub proof fn lemma_broadcast_skips_only_sender(s: Seq<Entry>, sender: PeerAddr)
    ensures
        !recipients(s, sender).contains(sender),
        forall|i: int| 0 <= i < s.len() && s[i].0 != sender ==> recipients(s, sender).contains(s[i].0),
    decreases s.len(),
{
    if s.len() > 0 {
        lemma_broadcast_skips_only_sender(s.drop_last(), sender);
        let prev = recipients(s.drop_last(), sender);
        assert forall|i: int| 0 <= i < s.len() && s[i].0 != sender implies recipients(s, sender).contains(s[i].0) by {
            if i < s.len() - 1 {
                assert(s.drop_last()[i] == s[i]);
                let k = choose|k: int| 0 <= k < prev.len() && prev[k] == s[i].0;
                if s.last().0 != sender {
                    assert(prev.push(s.last().0)[k] == s[i].0);
                }
            } else {
                assert(prev.push(s.last().0).last() == s[i].0);
            }
        }
        if s.last().0 != sender {
            assert forall|k: int| 0 <= k < prev.push(s.last().0).len() implies prev.push(s.last().0)[k] != sender by {
                if k < prev.len() {
                    assert(prev.push(s.last().0)[k] == prev[k]);
                }
            }
        }
    }
}

/// The live sessions; an identity is registered at most once.
pub struct Sessions {
    entries: Vec<Entry>,
}

impl Sessions {
    /// The registered sessions, in registry order.
    pub closed spec fn entries(&self) -> Seq<Entry> {
        self.entries@
    }

    /// The registry's invariant: identities are unique.
    pub open spec fn wf(&self) -> bool {
        unique_ids(self.entries())
    }

    /// An empty registry.
    pub fn new() -> (r: Sessions)
        ensures
            r.entries() == Seq::<Entry>::empty(),
            r.wf(),
    {
        Sessions { entries: Vec::new() }
    }

    /// How many sessions are registered.
    pub fn len(&self) -> (r: usize)
        ensures
            r == self.entries().len(),
    {
        self.entries.len()
    }

    /// Whether a session is registered under `id`.
    pub fn contains(&self, id: PeerAddr) -> (r: bool)
        ensures
            r == exists|i: int| 0 <= i < self.entries().len() && self.entries()[i].0 == id,
    {
        let mut i: usize = 0;
        while i < self.entries.len()
            invariant
                i <= self.entries@.len(),
                forall|j: int| 0 <= j < i ==> self.entries@[j].0 != id,
            decreases self.entries@.len() - i,
        {
            if self.entries[i].0 == id {
                proof {
                    assert(self.entries()[i as int].0 == id);
                }
                return true;
            }
            i = i + 1;
        }
        false
    }

    /// Removes the session registered under `id`, if any.
    pub fn deregister(&mut self, id: PeerAddr)
        requires
            old(self).wf(),
        ensures
            final(self).entries() == old(self).entries().filter(|e: Entry| e.0 != id),
            final(self).wf(),
    {
        let ghost pred: spec_fn(Entry) -> bool = |e: Entry| e.0 != id;
        let ghost s = self.entries@;
        let mut kept: Vec<Entry> = Vec::new();
        let n = self.entries.len();
        let mut i: usize = 0;
        while i < n
            invariant
                n == s.len(),
                i <= n,
                self.entries@ == s.skip(i as int),
                kept@ == s.take(i as int).filter(pred),
                unique_ids(s),
                unique_ids(kept@),
                pred == (|e: Entry| e.0 != id),
                forall|a: int, j: int| 0 <= a < kept@.len() && i <= j < n ==> kept@[a].0 != s[j].0,
            decreases n - i,
        {
            let e = self.entries.remove(0);
            proof {
                assert(e == s[i as int]);
                assert(self.entries@ =~= s.skip(i + 1));
                assert(s.take(i + 1) =~= s.take(i as int).push(s[i as int]));
                s.take(i as int).lemma_filter_push(s[i as int], pred);
                assert(pred(e) == (e.0 != id));
            }
            if e.0 != id {
                kept.push(e);
            }
            i = i + 1;
        }
        proof {
            assert(s.take(n as int) =~= s);
        }
        self.entries = kept;
    }

    /// Registers a session under `id`, replacing any session registered
    /// under the same identity.
    pub fn register(&mut self, id: PeerAddr, tx: UnboundedSender<Message>)
        requires
            old(self).wf(),
        ensures
            final(self).entries() == old(self).entries().filter(|e: Entry| e.0 != id).push((id, tx)),
            final(self).wf(),
    {
        self.deregister(id);
        proof {
            broadcast use vstd::seq_lib::group_filter_ensures;
            assert forall|k: int| 0 <= k < self.entries@.len() implies self.entries@[k].0 != id by {
                assert((|e: Entry| e.0 != id)(self.entries@[k]));
            }
        }
        self.entries.push((id, tx));
    }

    /// Queues `text` for every registered session whose identity is not
    /// `sender`, in registry order, and reports each recipient with whether
    /// its queue took the text. Recipients whose queue is gone are removed;
    /// the others stay.
    pub fn broadcast_except(&mut self, sender: PeerAddr, text: &str) -> (r: Vec<(PeerAddr, bool)>)
        requires
            old(self).wf(),
        ensures
            r@.map_values(|o: (PeerAddr, bool)| o.0) == recipients(old(self).entries(), sender),
            queue_view(final(self).entries()) == delivered(
                queue_view(old(self).entries()),
                sender,
                text@,
                r@,
            ),
            final(self).wf(),
    {
        let ghost s = self.entries@;
        let mut report: Vec<(PeerAddr, bool)> = Vec::new();
        let mut kept: Vec<Entry> = Vec::new();
        let n = self.entries.len();
        let mut i: usize = 0;
        proof {
            assert(s.take(0) =~= Seq::<Entry>::empty());
            assert(queue_view(kept@) =~= Seq::<(PeerAddr, Seq<Seq<char>>)>::empty());
            assert(report@.map_values(|o: (PeerAddr, bool)| o.0) =~= Seq::<PeerAddr>::empty());
        }
        while i < n
            invariant
                n == s.len(),
                i <= n,
                self.entries@ == s.skip(i as int),
                unique_ids(s),
                unique_ids(kept@),
                forall|a: int, j: int| 0 <= a < kept@.len() && i <= j < n ==> kept@[a].0 != s[j].0,
                report@.map_values(|o: (PeerAddr, bool)| o.0) == recipients(s.take(i as int), sender),
                queue_view(kept@) == delivered(queue_view(s.take(i as int)), sender, text@, report@),
            decreases n - i,
        {
            let mut e = self.entries.remove(0);
            let ghost e0 = e;
            let ghost rep0 = report@;
            let ghost kept0 = kept@;
            proof {
                assert(e == s[i as int]);
                assert(self.entries@ =~= s.skip(i + 1));
                assert(s.take(i + 1) =~= s.take(i as int).push(e));
                assert(s.take(i + 1).drop_last() =~= s.take(i as int));
                assert(queue_view(s.take(i + 1)) =~= queue_view(s.take(i as int)).push(
                    (e.0, queued(e.1)),
                ));
                assert(queue_view(s.take(i + 1)).drop_last() =~= queue_view(s.take(i as int)));
            }
            if e.0 == sender {
                kept.push(e);
                proof {
                    assert(queue_view(kept@) =~= queue_view(kept0).push((e0.0, queued(e0.1))));
                }
            } else {
                let ok = queue_text(&mut e.1, text);
                let id = e.0;
                report.push((id, ok));
                proof {
                    assert(report@.drop_last() =~= rep0);
                    assert(report@.map_values(|o: (PeerAddr, bool)| o.0) =~= rep0.map_values(
                        |o: (PeerAddr, bool)| o.0,
                    ).push(id));
                }
                if ok {
                    kept.push(e);
                    proof {
                        assert(queue_view(kept@) =~= queue_view(kept0).push(
                            (e0.0, queued(e0.1).push(text@)),
                        ));
                    }
                }
            }
            i = i + 1;
        }
        proof {
            assert(s.take(n as int) =~= s);
        }
        self.entries = kept;
        report
    }
}

} // verus!
