//! The state shared by all users of a connection: the outbound serializer,
//! the table of pending requests, the event queue and the reader role.
use vstd::prelude::*;

use crate::errors::{ConnectionError, ParseError};
use crate::wire::{append_bytes, read_u16_le, u16_le};
use crate::x11_utils::{KEYMAP_NOTIFY_EVENT, REPLY};

verus! {

/// Response type of an error packet.
pub const X_ERROR: u8 = 0;


/// Whether the server answers a request with a reply on success.
#[derive(Clone, Copy, Debug, PartialEq, Eq, Structural)]
pub enum RequestKind {
    IsVoid,
    HasResponse,
}

/// What to do with the answer to a request that nobody will wait for.
#[derive(Clone, Copy, Debug, PartialEq, Eq, Structural)]
pub enum DiscardMode {
    /// Drop both a reply and an error.
    DiscardReplyAndError,
    /// Drop a reply, keep an error for a later check.
    DiscardReply,
}

/// Outcome of polling for the answer to one request.
#[derive(Debug)]
pub enum PollReply {
    /// Nothing yet: more packets have to be read.
    TryAgain,
    /// No answer will come.
    NoReply,
    /// The answer (reply or error packet).
    Reply(Vec<u8>),
}

/// A request that was sent and is not fully resolved.
#[derive(Debug)]
pub struct SentRequest {
    pub seqno: u64,
    pub kind: RequestKind,
    pub discard_mode: Option<DiscardMode>,
    /// The reply or error packet received for it and not yet consumed.
    pub answer: Option<Vec<u8>>,
}

/// Smallest value not below `last` whose low 16 bits are `s`.
pub open spec fn extend_sequence(last: u64, s: u16) -> int {
    let candidate = last - last % 0x10000 + s;
    if candidate >= last {
        candidate
    } else {
        candidate + 0x10000
    }
}

/// The full sequence number given to an answer or event carries the short
/// number the server sent in its low 16 bits, is not below the last one
/// given, and is the smallest such value.
pub proof fn lemma_extend_sequence(last: u64, s: u16)
    ensures
        extend_sequence(last, s) % 0x10000 == s as int,
        last <= extend_sequence(last, s) < last + 0x10000,
{
    let q = last / 0x10000;
    assert(last - last % 0x10000 == q * 0x10000);
    assert((q * 0x10000 + s) % 0x10000 == s as int) by (nonlinear_arith)
        requires 0 <= s < 0x10000, q >= 0;
    assert((q * 0x10000 + s + 0x10000) % 0x10000 == s as int) by (nonlinear_arith)
        requires 0 <= s < 0x10000, q >= 0;
}

/// Index of the request numbered `seq` in `reqs`, or -1.
pub open spec fn find(reqs: Seq<SentRequest>, seq: int) -> int {
    if exists|i: int| 0 <= i < reqs.len() && reqs[i].seqno == seq {
        choose|i: int| 0 <= i < reqs.len() && reqs[i].seqno == seq
    } else {
        -1
    }
}

/// Requests numbered in strictly increasing order.
pub open spec fn sorted(reqs: Seq<SentRequest>) -> bool {
    forall|a: int, b: int| 0 <= a < b < reqs.len() ==> reqs[a].seqno < reqs[b].seqno
}

/// Replaces the request at `i` by `o`, or removes it where `o` is `None`.
pub open spec fn apply_at(reqs: Seq<SentRequest>, i: int, o: Option<SentRequest>) -> Seq<SentRequest> {
    match o {
        Some(r) => reqs.update(i, r),
        None => reqs.remove(i),
    }
}

/// The request `r` with `answer` stored.
pub open spec fn with_answer(r: SentRequest, answer: Vec<u8>) -> SentRequest {
    SentRequest { seqno: r.seqno, kind: r.kind, discard_mode: r.discard_mode, answer: Some(answer) }
}

/// The request `r` marked with `mode`.
pub open spec fn with_mode(r: SentRequest, mode: DiscardMode) -> SentRequest {
    SentRequest { seqno: r.seqno, kind: r.kind, discard_mode: Some(mode), answer: r.answer }
}

/// What becomes of a pending request when the packet `p` answering it
/// arrives (`None`: the request is resolved and leaves the table).
pub open spec fn on_answer(r: SentRequest, p: Seq<u8>, packet: Vec<u8>) -> Option<SentRequest> {
    if p[0] == REPLY {
        if r.discard_mode is Some {
            None
        } else if r.kind == RequestKind::IsVoid || r.answer is Some {
            Some(r)
        } else {
            Some(with_answer(r, packet))
        }
    } else if r.discard_mode == Some(DiscardMode::DiscardReplyAndError) {
        None
    } else if r.answer is Some {
        Some(r)
    } else {
        Some(with_answer(r, packet))
    }
}

/// What becomes of a pending request when its answer is discarded.
pub open spec fn on_discard(r: SentRequest, mode: DiscardMode) -> Option<SentRequest> {
    match r.answer {
        Some(a) => if mode == DiscardMode::DiscardReply && a@[0] == X_ERROR {
            Some(with_mode(r, mode))
        } else {
            None
        },
        None => Some(with_mode(r, mode)),
    }
}

/// The table once an answer to `seq` arrived: the requests before it that
/// hold no answer can no longer receive one and are resolved.
pub open spec fn prune(reqs: Seq<SentRequest>, seq: int) -> Seq<SentRequest> {
    reqs.filter(stays_pending(seq))
}

/// Whether a request stays pending once an answer to `seq` arrived.
pub open spec fn stays_pending(seq: int) -> spec_fn(SentRequest) -> bool {
    |r: SentRequest| r.seqno >= seq || r.answer is Some
}

/// The table once the answer `packet` to `seq` was delivered.
pub open spec fn deliver(reqs: Seq<SentRequest>, seq: int, packet: Vec<u8>) -> Seq<SentRequest> {
    let i = find(reqs, seq);
    if i < 0 {
        reqs
    } else {
        apply_at(reqs, i, on_answer(reqs[i], packet@, packet))
    }
}

/// The table once the answer to `seq` was discarded with `mode`.
pub open spec fn discard(reqs: Seq<SentRequest>, seq: int, mode: DiscardMode) -> Seq<SentRequest> {
    let i = find(reqs, seq);
    if i < 0 {
        reqs
    } else {
        apply_at(reqs, i, on_discard(reqs[i], mode))
    }
}

/// Whether `p` is the keymap-notify event, which carries no sequence number.
pub open spec fn is_keymap_notify(p: Seq<u8>) -> bool {
    p[0] & 0x7f == KEYMAP_NOTIFY_EVENT
}

/// Whether `p` is a reply or an error.
pub open spec fn is_answer(p: Seq<u8>) -> bool {
    p[0] == X_ERROR || p[0] == REPLY
}

/// The short sequence number in bytes 2 and 3 of `p`.
pub open spec fn short_sequence(p: Seq<u8>) -> u16 {
    u16_le(p[2], p[3]) as u16
}

/// The bytes of the request that makes the server answer at once
/// (`GetInputFocus`), used as a fence.
pub open spec fn fence_request() -> Seq<u8> {
    seq![0x2Bu8, 0u8, 1u8, 0u8]
}

/// The stored answer to request `seq`, if it has one.
pub open spec fn stored_answer(reqs: Seq<SentRequest>, seq: int) -> Option<Vec<u8>> {
    let i = find(reqs, seq);
    if i < 0 {
        None
    } else {
        reqs[i].answer
    }
}

/// The table once the stored answer to `seq`, if any, was taken out.
pub open spec fn consume(reqs: Seq<SentRequest>, seq: int) -> Seq<SentRequest> {
    let i = find(reqs, seq);
    if i >= 0 && reqs[i].answer is Some {
        reqs.remove(i)
    } else {
        reqs
    }
}

/// What polling for the answer to `seq` reports where none is stored: the
/// request is resolved once it left the table or the server went past it.
pub open spec fn no_answer_yet(reqs: Seq<SentRequest>, seq: int, last_read: u64) -> PollReply {
    if find(reqs, seq) < 0 || last_read > seq {
        PollReply::NoReply
    } else {
        PollReply::TryAgain
    }
}

/// The record of a freshly sent request.
pub open spec fn new_record(seq: u64, kind: RequestKind, mode: Option<DiscardMode>) -> SentRequest {
    SentRequest { seqno: seq, kind: kind, discard_mode: mode, answer: None }
}

/// Within a sorted table, `find` gives the one index holding `seq`.
pub proof fn lemma_find_unique(reqs: Seq<SentRequest>, seq: int, i: int)
    requires
        sorted(reqs),
        0 <= i < reqs.len(),
        reqs[i].seqno == seq,
    ensures
        find(reqs, seq) == i,
{
    assert(exists|k: int| 0 <= k < reqs.len() && reqs[k].seqno == seq);
    let c = choose|k: int| 0 <= k < reqs.len() && reqs[k].seqno == seq;
    if c < i {
        assert(reqs[c].seqno < reqs[i].seqno);
    } else if c > i {
        assert(reqs[i].seqno < reqs[c].seqno);
    }
}

/// Discarding the answer to `seq` with `DiscardReplyAndError` and then
/// receiving a reply or an error for it leaves a table that held only `seq`
/// empty: the answer is dropped and reaches no caller.
pub proof fn lemma_discard_then_answer(reqs: Seq<SentRequest>, seq: u64, packet: Vec<u8>)
    requires
        forall|i: int| 0 <= i < reqs.len() ==> (#[trigger] reqs[i]).seqno == seq,
        sorted(reqs),
        packet@.len() >= 32,
        is_answer(packet@),
    ensures
        deliver(prune(discard(reqs, seq as int, DiscardMode::DiscardReplyAndError), seq as int), seq as int, packet).len() == 0,
{
    reveal(Seq::filter);
    let m = DiscardMode::DiscardReplyAndError;
    if reqs.len() > 1 {
        assert(reqs[0].seqno < reqs[1].seqno);
    }
    if reqs.len() == 0 {
        assert(find(reqs, seq as int) == -1);
        assert(prune(reqs, seq as int) =~= reqs);
    } else {
        lemma_find_unique(reqs, seq as int, 0);
        let d = discard(reqs, seq as int, m);
        match reqs[0].answer {
            Some(_) => {
                assert(d =~= Seq::<SentRequest>::empty());
                assert(prune(d, seq as int) =~= d);
                assert(find(d, seq as int) == -1);
            },
            None => {
                let r = with_mode(reqs[0], m);
                assert(d =~= seq![r]);
                assert(d.drop_last() =~= Seq::<SentRequest>::empty());
                assert(prune(d, seq as int) =~= seq![r]);
                lemma_find_unique(seq![r], seq as int, 0);
                assert(on_answer(r, packet@, packet) is None);
            },
        }
    }
}

/// Mutable state of a connection, guarded by one lock.
pub struct ConnectionInner {
    last_sequence_written: u64,
    next_reply_expected: u64,
    last_sequence_read: u64,
    sent_requests: Vec<SentRequest>,
    pending_events: Vec<(Vec<u8>, u64)>,
    write_buffer: Vec<u8>,
    reader_active: bool,
}

/// `n` is `o` after sending `bytes` as a request of `kind`, with result `r`:
/// the request gets the number after the last one written, unless every
/// number is used up.
pub open spec fn sent(o: ConnectionInner, n: ConnectionInner, bytes: Seq<u8>, kind: RequestKind, r: Result<u64, ConnectionError>) -> bool {
    &&& n.wf()
    &&& n.last_read() == o.last_read()
    &&& n.events() == o.events()
    &&& n.reader_active() == o.reader_active()
    &&& o.last_written() == u64::MAX ==> r == Err::<u64, ConnectionError>(ConnectionError::UnknownError) && n == o
    &&& o.last_written() < u64::MAX ==> {
        &&& r == Ok::<u64, ConnectionError>((o.last_written() + 1) as u64)
        &&& n.last_written() == o.last_written() + 1
        &&& forall|i: int| 0 <= i < o.requests().len() ==> (#[trigger] o.requests()[i]).seqno < n.last_written()
        &&& n.requests() == o.requests().push(new_record(n.last_written(), kind, None))
        &&& n.output() == o.output() + bytes
        &&& n.reply_expected() == if kind == RequestKind::HasResponse {
            n.last_written()
        } else {
            o.reply_expected()
        }
    }
}

/// A request sent later gets a larger sequence number: between the two
/// sends the count of requests written may only have stayed or grown, as
/// every operation on the state ensures.
pub proof fn lemma_sequences_increase(
    o: ConnectionInner,
    n: ConnectionInner,
    m: ConnectionInner,
    p: ConnectionInner,
    first: (Seq<u8>, RequestKind, u64),
    second: (Seq<u8>, RequestKind, u64),
)
    requires
        sent(o, n, first.0, first.1, Ok(first.2)),
        n.last_written() <= m.last_written(),
        sent(m, p, second.0, second.1, Ok(second.2)),
    ensures
        first.2 < second.2,
        forall|i: int| 0 <= i < m.requests().len() ==> (#[trigger] m.requests()[i]).seqno < second.2,
{
}

/// `n` is `o` after the packet `packet` was filed, with result `r`.
pub open spec fn enqueued(o: ConnectionInner, n: ConnectionInner, packet: Vec<u8>, r: Result<(), ParseError>) -> bool {
    &&& n.wf()
    &&& n.last_written() == o.last_written()
    &&& n.reply_expected() == o.reply_expected()
    &&& n.output() == o.output()
    &&& is_keymap_notify(packet@) ==> {
        &&& r is Ok
        &&& n.last_read() == o.last_read()
        &&& n.requests() == o.requests()
        &&& n.events() == o.events().push((packet, o.last_read()))
    }
    &&& !is_keymap_notify(packet@) ==> {
        let x = extend_sequence(o.last_read(), short_sequence(packet@));
        if x > o.last_written() {
            &&& r == Err::<(), ParseError>(ParseError::ParseError)
            &&& n.last_read() == o.last_read()
            &&& n.requests() == o.requests()
            &&& n.events() == o.events()
        } else {
            &&& r is Ok
            &&& n.last_read() == x
            &&& if is_answer(packet@) {
                &&& n.requests() == deliver(prune(o.requests(), x), x, packet)
                &&& n.events() == o.events()
            } else {
                &&& n.requests() == o.requests()
                &&& n.events() == o.events().push((packet, x as u64))
            }
        }
    }
}

/// `n` is `o` with the pending table and the reader role alone changed.
pub open spec fn counters_kept(o: ConnectionInner, n: ConnectionInner) -> bool {
    &&& n.wf()
    &&& n.last_written() == o.last_written()
    &&& n.reply_expected() == o.reply_expected()
    &&& n.last_read() == o.last_read()
    &&& n.events() == o.events()
    &&& n.output() == o.output()
}

impl ConnectionInner {
    /// Number of the last request written.
    pub closed spec fn last_written(&self) -> u64 {
        self.last_sequence_written
    }

    /// Number of the last request that expects a reply.
    pub closed spec fn reply_expected(&self) -> u64 {
        self.next_reply_expected
    }

    /// Highest sequence number the server has acknowledged.
    pub closed spec fn last_read(&self) -> u64 {
        self.last_sequence_read
    }

    /// The pending table.
    pub closed spec fn requests(&self) -> Seq<SentRequest> {
        self.sent_requests@
    }

    /// The event queue, oldest first.
    pub closed spec fn events(&self) -> Seq<(Vec<u8>, u64)> {
        self.pending_events@
    }

    /// Bytes written and not yet flushed.
    pub closed spec fn output(&self) -> Seq<u8> {
        self.write_buffer@
    }

    /// Whether some thread holds the reader role.
    pub closed spec fn reader_active(&self) -> bool {
        self.reader_active
    }

    /// The invariant of the state.
    pub closed spec fn wf(&self) -> bool {
        &&& self.last_sequence_read <= self.last_sequence_written
        &&& self.next_reply_expected <= self.last_sequence_written
        &&& sorted(self.sent_requests@)
        &&& forall|i: int| 0 <= i < self.sent_requests@.len() ==> {
            let r = #[trigger] self.sent_requests@[i];
            &&& 1 <= r.seqno <= self.last_sequence_written
            &&& (r.answer matches Some(a) ==> a@.len() >= 32)
        }
        &&& forall|i: int| 0 <= i < self.pending_events@.len() ==> (#[trigger] self.pending_events@[i]).0@.len() >= 32
    }

    /// A fresh state: the server's setup answer counts as sequence 0.
    pub fn new() -> (r: Self)
        ensures
            r.wf(),
            r.last_written() == 0,
            r.last_read() == 0,
            r.reply_expected() == 0,
            r.requests().len() == 0,
            r.events().len() == 0,
            r.output().len() == 0,
            !r.reader_active(),
    {
        ConnectionInner {
            last_sequence_written: 0,
            next_reply_expected: 0,
            last_sequence_read: 0,
            sent_requests: Vec::new(),
            pending_events: Vec::new(),
            write_buffer: Vec::new(),
            reader_active: false,
        }
    }

    /// Where the request numbered `seq` stands in the table.
    fn find_request(&self, seq: u64) -> (r: Option<usize>)
        requires
            self.wf(),
        ensures
            match r {
                Some(i) => i < self.requests().len() && find(self.requests(), seq as int) == i,
                None => find(self.requests(), seq as int) == -1,
            },
    {
        let mut i: usize = 0;
        while i < self.sent_requests.len()
            invariant
                self.wf(),
                i <= self.sent_requests@.len(),
                forall|k: int| 0 <= k < i ==> self.sent_requests@[k].seqno != seq,
            decreases self.sent_requests@.len() - i,
        {
            if self.sent_requests[i].seqno == seq {
                proof {
                    lemma_find_unique(self.sent_requests@, seq as int, i as int);
                }
                return Some(i);
            }
            i = i + 1;
        }
        None
    }

    /// Appends a request to the output and records it as pending.
    fn push_request(&mut self, bytes: &[u8], kind: RequestKind, mode: Option<DiscardMode>) -> (r: Result<u64, ConnectionError>)
        requires
            old(self).wf(),
        ensures
            final(self).wf(),
            final(self).last_read() == old(self).last_read(),
            final(self).events() == old(self).events(),
            final(self).reader_active() == old(self).reader_active(),
            old(self).last_written() == u64::MAX ==> r == Err::<u64, ConnectionError>(ConnectionError::UnknownError) && *final(self) == *old(self),
            old(self).last_written() < u64::MAX ==> {
                &&& r == Ok::<u64, ConnectionError>((old(self).last_written() + 1) as u64)
                &&& final(self).last_written() == old(self).last_written() + 1
                &&& final(self).requests() == old(self).requests().push(new_record((old(self).last_written() + 1) as u64, kind, mode))
                &&& final(self).output() == old(self).output() + bytes@
                &&& final(self).reply_expected() == if kind == RequestKind::HasResponse {
                    final(self).last_written()
                } else {
                    old(self).reply_expected()
                }
            },
    {
        if self.last_sequence_written == u64::MAX {
            return Err(ConnectionError::UnknownError);
        }
        let seqno = self.last_sequence_written + 1;
        self.last_sequence_written = seqno;
        if kind == RequestKind::HasResponse {
            self.next_reply_expected = seqno;
        }
        self.sent_requests.push(SentRequest { seqno, kind, discard_mode: mode, answer: None });
        append_bytes(&mut self.write_buffer, bytes);
        proof {
            let reqs = self.sent_requests@;
            assert forall|a: int, b: int| 0 <= a < b < reqs.len() implies reqs[a].seqno < reqs[b].seqno by {
                if b == reqs.len() - 1 {
                    assert(old(self).wf());
                    assert(old(self).sent_requests@[a].seqno <= old(self).last_sequence_written);
                }
            }
            assert forall|i: int| 0 <= i < reqs.len() implies {
                let r = #[trigger] reqs[i];
                &&& 1 <= r.seqno <= self.last_sequence_written
                &&& (r.answer matches Some(a) ==> a@.len() >= 32)
            } by {
                if i < reqs.len() - 1 {
                    assert(old(self).sent_requests@[i] == reqs[i]);
                }
            }
        }
        Ok(seqno)
    }

    /// Writes a request to the output buffer and assigns it the next
    /// sequence number; fails only once every number has been used.
    pub fn send_request(&mut self, bytes: &[u8], kind: RequestKind) -> (r: Result<u64, ConnectionError>)
        requires
            old(self).wf(),
        ensures
            sent(*old(self), *final(self), bytes@, kind, r),
    {
        self.push_request(bytes, kind, None)
    }

    /// Makes sure that some request at or after `seq` is answered by the
    /// server: where none expects a reply, a fence whose reply is dropped
    /// is sent.
    pub fn prepare_check_for_reply_or_error(&mut self, seq: u64) -> (r: Result<(), ConnectionError>)
        requires
            old(self).wf(),
        ensures
            final(self).wf(),
            final(self).last_read() == old(self).last_read(),
            final(self).events() == old(self).events(),
            final(self).reader_active() == old(self).reader_active(),
            old(self).reply_expected() >= seq ==> r is Ok && *final(self) == *old(self),
            old(self).reply_expected() < seq && old(self).last_written() == u64::MAX ==> r == Err::<(), ConnectionError>(ConnectionError::UnknownError) && *final(self) == *old(self),
            old(self).reply_expected() < seq && old(self).last_written() < u64::MAX ==> {
                &&& r is Ok
                &&& final(self).last_written() == old(self).last_written() + 1
                &&& final(self).reply_expected() == final(self).last_written()
                &&& final(self).requests() == old(self).requests().push(new_record(
                    final(self).last_written(), RequestKind::HasResponse, Some(DiscardMode::DiscardReplyAndError)))
                &&& final(self).output() == old(self).output() + fence_request()
            },
    {
        if self.next_reply_expected < seq {
            let fence: [u8; 4] = [0x2B, 0, 1, 0];
            let f = fence.as_slice();
            assert(f@ =~= fence_request());
            match self.push_request(f, RequestKind::HasResponse, Some(DiscardMode::DiscardReplyAndError)) {
                Ok(_) => Ok(()),
                Err(e) => Err(e),
            }
        } else {
            Ok(())
        }
    }


    /// Replaces the request at `i` by `o`, or removes it.
    fn replace_at(&mut self, i: usize, o: Option<SentRequest>)
        requires
            old(self).wf(),
            i < old(self).requests().len(),
            o matches Some(r) ==> r.seqno == old(self).requests()[i as int].seqno
                && (r.answer matches Some(a) ==> a@.len() >= 32),
        ensures
            final(self).wf(),
            final(self).last_written() == old(self).last_written(),
            final(self).reply_expected() == old(self).reply_expected(),
            final(self).last_read() == old(self).last_read(),
            final(self).events() == old(self).events(),
            final(self).output() == old(self).output(),
            final(self).reader_active() == old(self).reader_active(),
            final(self).requests() == apply_at(old(self).requests(), i as int, o),
    {
        let ghost og = o;
        self.sent_requests.remove(i);
        match o {
            Some(r) => {
                self.sent_requests.insert(i, r);
                assert(self.sent_requests@ =~= old(self).sent_requests@.update(i as int, r));
            },
            None => {},
        }
        proof {
            let reqs = self.sent_requests@;
            let ol = old(self).sent_requests@;
            assert forall|x: int| 0 <= x < reqs.len() implies {
                let r = #[trigger] reqs[x];
                &&& 1 <= r.seqno <= self.last_sequence_written
                &&& (r.answer matches Some(a) ==> a@.len() >= 32)
            } by {
                if og is None {
                    if x < i { assert(reqs[x] == ol[x]); } else { assert(reqs[x] == ol[x + 1]); }
                } else if x != i {
                    assert(reqs[x] == ol[x]);
                }
            }
            assert forall|a: int, b: int| 0 <= a < b < reqs.len() implies reqs[a].seqno < reqs[b].seqno by {
                if og is None {
                    let a2 = if a < i { a } else { a + 1 };
                    let b2 = if b < i { b } else { b + 1 };
                    assert(reqs[a] == ol[a2] && reqs[b] == ol[b2]);
                } else {
                    assert(reqs[a].seqno == ol[a].seqno && reqs[b].seqno == ol[b].seqno);
                }
            }
        }
    }

    /// Marks the request at `i` with a discard mode.
    fn mark_at(&mut self, i: usize, mode: DiscardMode)
        requires
            old(self).wf(),
            i < old(self).requests().len(),
        ensures
            final(self).wf(),
            final(self).last_written() == old(self).last_written(),
            final(self).reply_expected() == old(self).reply_expected(),
            final(self).last_read() == old(self).last_read(),
            final(self).events() == old(self).events(),
            final(self).output() == old(self).output(),
            final(self).reader_active() == old(self).reader_active(),
            final(self).requests() == old(self).requests().update(i as int, with_mode(old(self).requests()[i as int], mode)),
    {
        let rec = self.sent_requests.remove(i);
        let rec = SentRequest { seqno: rec.seqno, kind: rec.kind, discard_mode: Some(mode), answer: rec.answer };
        self.sent_requests.insert(i, rec);
        proof {
            let reqs = self.sent_requests@;
            let ol = old(self).sent_requests@;
            assert(reqs =~= ol.update(i as int, with_mode(ol[i as int], mode)));
            assert forall|x: int| 0 <= x < reqs.len() implies {
                let r = #[trigger] reqs[x];
                &&& 1 <= r.seqno <= self.last_sequence_written
                &&& (r.answer matches Some(a) ==> a@.len() >= 32)
            } by {
                assert(reqs[x].seqno == ol[x].seqno && reqs[x].answer == ol[x].answer);
            }
            assert forall|a: int, b: int| 0 <= a < b < reqs.len() implies reqs[a].seqno < reqs[b].seqno by {
                assert(reqs[a].seqno == ol[a].seqno && reqs[b].seqno == ol[b].seqno);
            }
        }
    }

    /// Polls for a reply to `seq`; an error counts as no reply.
    pub fn poll_for_reply(&mut self, seq: u64) -> (r: PollReply)
        requires
            old(self).wf(),
        ensures
            final(self).wf(),
            final(self).last_written() == old(self).last_written(),
            final(self).reply_expected() == old(self).reply_expected(),
            final(self).last_read() == old(self).last_read(),
            final(self).events() == old(self).events(),
            final(self).output() == old(self).output(),
            final(self).reader_active() == old(self).reader_active(),
            final(self).requests() == consume(old(self).requests(), seq as int),
            r == match stored_answer(old(self).requests(), seq as int) {
                Some(a) => if a@[0] == X_ERROR { PollReply::NoReply } else { PollReply::Reply(a) },
                None => no_answer_yet(old(self).requests(), seq as int, old(self).last_read()),
            },
    {
        match self.poll_for_reply_or_error(seq) {
            PollReply::Reply(buffer) => {
                if buffer[0] == X_ERROR {
                    PollReply::NoReply
                } else {
                    PollReply::Reply(buffer)
                }
            },
            other => other,
        }
    }

    /// Polls for the answer to `seq` once
    /// `prepare_check_for_reply_or_error(seq)` made sure that one comes.
    pub fn poll_check_for_reply_or_error(&mut self, seq: u64) -> (r: PollReply)
        requires
            old(self).wf(),
        ensures
            final(self).wf(),
            final(self).last_written() == old(self).last_written(),
            final(self).reply_expected() == old(self).reply_expected(),
            final(self).last_read() == old(self).last_read(),
            final(self).events() == old(self).events(),
            final(self).output() == old(self).output(),
            final(self).reader_active() == old(self).reader_active(),
            final(self).requests() == consume(old(self).requests(), seq as int),
            r == match stored_answer(old(self).requests(), seq as int) {
                Some(a) => PollReply::Reply(a),
                None => no_answer_yet(old(self).requests(), seq as int, old(self).last_read()),
            },
            r matches PollReply::Reply(a) ==> a@.len() >= 32,
    {
        self.poll_for_reply_or_error(seq)
    }

    /// Marks the answer to `seq` as unwanted.
    pub fn discard_reply(&mut self, seq: u64, mode: DiscardMode)
        requires
            old(self).wf(),
        ensures
            final(self).wf(),
            final(self).last_written() == old(self).last_written(),
            final(self).reply_expected() == old(self).reply_expected(),
            final(self).last_read() == old(self).last_read(),
            final(self).events() == old(self).events(),
            final(self).output() == old(self).output(),
            final(self).reader_active() == old(self).reader_active(),
            final(self).requests() == discard(old(self).requests(), seq as int, mode),
    {
        if let Some(i) = self.find_request(seq) {
            let keep = match &self.sent_requests[i].answer {
                Some(a) => mode == DiscardMode::DiscardReply && a.len() > 0 && a[0] == X_ERROR,
                None => true,
            };
            if keep {
                self.mark_at(i, mode);
            } else {
                self.replace_at(i, None);
            }
        }
    }


    /// Resolves every request before `seq` that holds no answer.
    fn prune_requests(&mut self, seq: u64)
        requires
            old(self).wf(),
        ensures
            final(self).wf(),
            final(self).last_written() == old(self).last_written(),
            final(self).reply_expected() == old(self).reply_expected(),
            final(self).last_read() == old(self).last_read(),
            final(self).events() == old(self).events(),
            final(self).output() == old(self).output(),
            final(self).reader_active() == old(self).reader_active(),
            final(self).requests() == prune(old(self).requests(), seq as int),
    {
        let ghost orig = self.sent_requests@;
        let ghost n = orig.len() as int;
        let ghost mut j: int = 0;
        let mut i: usize = 0;
        assert(orig.subrange(0, 0).filter(stays_pending(seq as int)) =~= Seq::<SentRequest>::empty()) by {
            reveal(Seq::filter);
        }
        assert(orig.subrange(0, 0).filter(stays_pending(seq as int)) + orig.subrange(0, n) =~= orig);
        while i < self.sent_requests.len()
            invariant
                self.wf(),
                self.last_sequence_written == old(self).last_sequence_written,
                self.next_reply_expected == old(self).next_reply_expected,
                self.last_sequence_read == old(self).last_sequence_read,
                self.pending_events@ == old(self).pending_events@,
                self.write_buffer@ == old(self).write_buffer@,
                self.reader_active == old(self).reader_active,
                orig == old(self).sent_requests@,
                n == orig.len(),
                0 <= j <= n,
                self.sent_requests@ == orig.subrange(0, j).filter(stays_pending(seq as int)) + orig.subrange(j, n),
                i == orig.subrange(0, j).filter(stays_pending(seq as int)).len(),
            decreases n - j,
        {
            let ghost pre = orig.subrange(0, j).filter(stays_pending(seq as int));
            proof {
                assert(orig.subrange(0, j + 1) =~= orig.subrange(0, j).push(orig[j]));
                orig.subrange(0, j).lemma_filter_push(orig[j], stays_pending(seq as int));
                assert(self.sent_requests@[i as int] == orig[j]);
            }
            if self.sent_requests[i].seqno < seq && self.sent_requests[i].answer.is_none() {
                self.replace_at(i, None);
                proof {
                    assert(self.sent_requests@ =~= pre + orig.subrange(j + 1, n));
                }
            } else {
                proof {
                    assert(self.sent_requests@ =~= pre.push(orig[j]) + orig.subrange(j + 1, n));
                }
                i = i + 1;
            }
            proof {
                j = j + 1;
            }
        }
        assert(orig.subrange(0, n) =~= orig);
        assert(self.sent_requests@ =~= orig.subrange(0, j).filter(stays_pending(seq as int)));
    }

    /// Stores `packet` as the answer of the request at `i`.
    fn store_at(&mut self, i: usize, packet: Vec<u8>)
        requires
            old(self).wf(),
            i < old(self).requests().len(),
            packet@.len() >= 32,
        ensures
            final(self).wf(),
            final(self).last_written() == old(self).last_written(),
            final(self).reply_expected() == old(self).reply_expected(),
            final(self).last_read() == old(self).last_read(),
            final(self).events() == old(self).events(),
            final(self).output() == old(self).output(),
            final(self).reader_active() == old(self).reader_active(),
            final(self).requests() == old(self).requests().update(i as int, with_answer(old(self).requests()[i as int], packet)),
    {
        let rec = self.sent_requests.remove(i);
        let rec = SentRequest { seqno: rec.seqno, kind: rec.kind, discard_mode: rec.discard_mode, answer: Some(packet) };
        self.sent_requests.insert(i, rec);
        proof {
            let reqs = self.sent_requests@;
            let ol = old(self).sent_requests@;
            assert(reqs =~= ol.update(i as int, with_answer(ol[i as int], packet)));
            assert forall|x: int| 0 <= x < reqs.len() implies {
                let r = #[trigger] reqs[x];
                &&& 1 <= r.seqno <= self.last_sequence_written
                &&& (r.answer matches Some(a) ==> a@.len() >= 32)
            } by {
                assert(reqs[x].seqno == ol[x].seqno);
                if x != i {
                    assert(reqs[x] == ol[x]);
                }
            }
            assert forall|a: int, b: int| 0 <= a < b < reqs.len() implies reqs[a].seqno < reqs[b].seqno by {
                assert(reqs[a].seqno == ol[a].seqno && reqs[b].seqno == ol[b].seqno);
            }
        }
    }

    /// Files one packet read from the server: an answer goes to its
    /// request, an event to the queue. A packet whose sequence number lies
    /// beyond every request written is refused and changes nothing.
    pub fn enqueue_packet(&mut self, packet: Vec<u8>) -> (r: Result<(), ParseError>)
        requires
            old(self).wf(),
            packet@.len() >= 32,
        ensures
            enqueued(*old(self), *final(self), packet, r),
            final(self).reader_active() == old(self).reader_active(),
    {
        let ghost pk = packet;
        if packet[0] & 0x7f == KEYMAP_NOTIFY_EVENT {
            let seq = self.last_sequence_read;
            self.pending_events.push((packet, seq));
            return Ok(());
        }
        let s = read_u16_le(packet.as_slice(), 2);
        let last = self.last_sequence_read;
        let base: u64 = last - last % 0x10000;
        let candidate = match base.checked_add(s as u64) {
            Some(c) => c,
            None => return Err(ParseError::ParseError),
        };
        let full = if candidate >= last {
            candidate
        } else {
            match candidate.checked_add(0x10000) {
                Some(c) => c,
                None => return Err(ParseError::ParseError),
            }
        };
        assert(full == extend_sequence(last, short_sequence(packet@)));
        if full > self.last_sequence_written {
            return Err(ParseError::ParseError);
        }
        self.last_sequence_read = full;
        let kind = packet[0];
        if kind == X_ERROR || kind == REPLY {
            self.prune_requests(full);
            let ghost pruned = self.sent_requests@;
            assert(pruned == prune(old(self).sent_requests@, full as int));
            if let Some(i) = self.find_request(full) {
                let remove = if kind == REPLY {
                    self.sent_requests[i].discard_mode.is_some()
                } else {
                    self.sent_requests[i].discard_mode == Some(DiscardMode::DiscardReplyAndError)
                };
                let keep = (kind == REPLY && self.sent_requests[i].kind == RequestKind::IsVoid)
                    || self.sent_requests[i].answer.is_some();
                if remove {
                    self.replace_at(i, None);
                } else if !keep {
                    self.store_at(i, packet);
                }
                assert(self.sent_requests@ == deliver(pruned, full as int, pk));
            } else {
                assert(self.sent_requests@ == deliver(pruned, full as int, pk));
            }
        } else {
            self.pending_events.push((packet, full));
        }
        Ok(())
    }

    /// Takes the oldest queued event with its sequence number.
    pub fn poll_for_event_with_sequence(&mut self) -> (r: Option<(Vec<u8>, u64)>)
        requires
            old(self).wf(),
        ensures
            final(self).wf(),
            final(self).last_written() == old(self).last_written(),
            final(self).reply_expected() == old(self).reply_expected(),
            final(self).last_read() == old(self).last_read(),
            final(self).requests() == old(self).requests(),
            final(self).output() == old(self).output(),
            final(self).reader_active() == old(self).reader_active(),
            old(self).events().len() == 0 ==> r is None && final(self).events() == old(self).events(),
            old(self).events().len() > 0 ==> r == Some(old(self).events()[0]) && final(self).events() == old(self).events().drop_first(),
            r matches Some(e) ==> e.0@.len() >= 32,
    {
        if self.pending_events.len() == 0 {
            None
        } else {
            let e = self.pending_events.remove(0);
            assert(self.pending_events@ =~= old(self).pending_events@.drop_first());
            proof {
                assert forall|i: int| 0 <= i < self.pending_events@.len() implies (#[trigger] self.pending_events@[i]).0@.len() >= 32 by {
                    assert(self.pending_events@[i] == old(self).pending_events@[i + 1]);
                }
            }
            Some(e)
        }
    }

    /// Hands out the bytes written since the last flush.
    pub fn take_output(&mut self) -> (r: Vec<u8>)
        requires
            old(self).wf(),
        ensures
            final(self).wf(),
            r@ == old(self).output(),
            final(self).output().len() == 0,
            final(self).last_written() == old(self).last_written(),
            final(self).reply_expected() == old(self).reply_expected(),
            final(self).last_read() == old(self).last_read(),
            final(self).requests() == old(self).requests(),
            final(self).events() == old(self).events(),
            final(self).reader_active() == old(self).reader_active(),
    {
        let mut out = Vec::new();
        std::mem::swap(&mut out, &mut self.write_buffer);
        out
    }

    /// Claims the reader role; returns whether it was free. A caller that
    /// gets `false` waits for the active reader, which exists.
    pub fn begin_read(&mut self) -> (r: bool)
        requires
            old(self).wf(),
        ensures
            final(self).wf(),
            r == !old(self).reader_active(),
            final(self).reader_active(),
            final(self).last_written() == old(self).last_written(),
            final(self).reply_expected() == old(self).reply_expected(),
            final(self).last_read() == old(self).last_read(),
            final(self).requests() == old(self).requests(),
            final(self).events() == old(self).events(),
            final(self).output() == old(self).output(),
    {
        if self.reader_active {
            false
        } else {
            self.reader_active = true;
            true
        }
    }

    /// Gives the reader role up.
    pub fn end_read(&mut self)
        requires
            old(self).wf(),
        ensures
            final(self).wf(),
            !final(self).reader_active(),
            final(self).last_written() == old(self).last_written(),
            final(self).reply_expected() == old(self).reply_expected(),
            final(self).last_read() == old(self).last_read(),
            final(self).requests() == old(self).requests(),
            final(self).events() == old(self).events(),
            final(self).output() == old(self).output(),
    {
        self.reader_active = false;
    }

    /// Takes the answer to `seq` out of the table where one arrived.
    pub fn poll_for_reply_or_error(&mut self, seq: u64) -> (r: PollReply)
        requires
            old(self).wf(),
        ensures
            final(self).wf(),
            final(self).last_written() == old(self).last_written(),
            final(self).reply_expected() == old(self).reply_expected(),
            final(self).last_read() == old(self).last_read(),
            final(self).events() == old(self).events(),
            final(self).output() == old(self).output(),
            final(self).reader_active() == old(self).reader_active(),
            final(self).requests() == consume(old(self).requests(), seq as int),
            r == match stored_answer(old(self).requests(), seq as int) {
                Some(a) => PollReply::Reply(a),
                None => no_answer_yet(old(self).requests(), seq as int, old(self).last_read()),
            },
            r matches PollReply::Reply(a) ==> a@.len() >= 32,
    {
        match self.find_request(seq) {
            Some(i) => {
                if self.sent_requests[i].answer.is_some() {
                    let rec = self.sent_requests.remove(i);
                    proof {
                        assert(old(self).sent_requests@[i as int].answer is Some);
                        let reqs = self.sent_requests@;
                        let o = old(self).sent_requests@;
                        assert forall|x: int| 0 <= x < reqs.len() implies {
                            let r = #[trigger] reqs[x];
                            &&& 1 <= r.seqno <= self.last_sequence_written
                            &&& (r.answer matches Some(a) ==> a@.len() >= 32)
                        } by {
                            if x < i { assert(reqs[x] == o[x]); } else { assert(reqs[x] == o[x + 1]); }
                        }
                        assert forall|a: int, b: int| 0 <= a < b < reqs.len() implies reqs[a].seqno < reqs[b].seqno by {
                            let a2 = if a < i { a } else { a + 1 };
                            let b2 = if b < i { b } else { b + 1 };
                            assert(reqs[a] == o[a2] && reqs[b] == o[b2]);
                        }
                    }
                    match rec.answer {
                        Some(a) => PollReply::Reply(a),
                        None => PollReply::NoReply,
                    }
                } else if self.last_sequence_read > seq {
                    PollReply::NoReply
                } else {
                    PollReply::TryAgain
                }
            },
            None => PollReply::NoReply,
        }
    }
}

} // verus!
