//! The connection: the state that all callers share, and the decisions they
//! take in turn while they send requests and wait for answers. Each wait is
//! a loop run by the caller under the connection's lock: it asks for a step,
//! and the step either finishes, tells the caller to become the reader and
//! read one packet, or tells it to wait for the active reader.
use vstd::prelude::*;

use crate::errors::{ConnectError, ConnectionError, ParseError, ReplyError, ReplyOrIdError};
use crate::id_allocator::{increment_of, IdAllocator};
use crate::inner::{
    consume, counters_kept, discard, enqueued, fence_request, new_record, no_answer_yet, sent, stored_answer,
    ConnectionInner, DiscardMode, PollReply, RequestKind, SentRequest,
};
use crate::request::{compute_length_field, flatten, framed_request};
use crate::setup::{parse_setup, parsed_setup, setup_request, setup_request_bytes, Setup};
use crate::wire::{read_u32_le, u32_le};
use crate::x11_utils::{is_error_packet, ExtensionInformation, GenericError, GE_GENERIC_EVENT, REPLY};

verus! {

/// Minor opcode of `BigRequests.Enable`.
pub const BIG_REQUESTS_ENABLE: u8 = 0;

/// Minor opcode of `XCMisc.GetXIDRange`.
pub const XC_MISC_GET_XID_RANGE: u8 = 1;

/// Where the negotiation of the maximum request length stands.
#[derive(Debug, Clone, Copy, PartialEq, Eq, Structural)]
pub enum MaxRequestBytes {
    Unknown,
    /// The big-requests query is in flight under this sequence number, or
    /// could not be sent.
    Requested(Option<u64>),
    Known(usize),
}

/// One step of a wait.
#[derive(Debug)]
pub enum WaitStep<T> {
    /// The wait is over.
    Done(T),
    /// The caller now holds the reader role: it reads one packet and hands
    /// it to `read_packet_and_enqueue`.
    Read,
    /// Another caller is reading: wait until it has enqueued its packet.
    Wait,
}

/// Length of the part of a packet that follows its 32-byte header:
/// replies and generic events (also when sent by a client) count it in
/// 4-byte words at offset 4, every other packet has none.
pub open spec fn tail_length(header: Seq<u8>) -> int {
    if header[0] == REPLY || header[0] == GE_GENERIC_EVENT || header[0] == (GE_GENERIC_EVENT | 0x80) {
        (4 * u32_le(header[4], header[5], header[6], header[7])) as int
    } else {
        0
    }
}

/// How many bytes follow the 32-byte header of an inbound packet.
pub fn packet_tail_length(header: &[u8]) -> (r: u64)
    requires
        header@.len() >= 32,
    ensures
        r == tail_length(header@),
{
    let b = header[0];
    if b == REPLY || b == GE_GENERIC_EVENT || b == (GE_GENERIC_EVENT | 0x80) {
        4 * (read_u32_le(header, 4) as u64)
    } else {
        0
    }
}

/// The maximum request length in bytes for a length in words, cut at the
/// largest `usize`.
pub open spec fn words_to_bytes(words: nat) -> int {
    if 4 * words > usize::MAX {
        usize::MAX as int
    } else {
        (4 * words) as int
    }
}

/// The maximum request length in words: what the big-requests reply gives
/// where there is one, else what the setup gave.
pub open spec fn negotiated_words(reply: Option<Seq<u8>>, setup: Setup) -> nat {
    match reply {
        Some(r) => if r.len() >= 12 {
            u32_le(r[8], r[9], r[10], r[11])
        } else {
            setup.maximum_request_length as nat
        },
        None => setup.maximum_request_length as nat,
    }
}

/// The first step of connecting: the bytes to send, and the screen wanted.
pub struct SetupHandshake {
    request: Vec<u8>,
    screen: usize,
}

impl SetupHandshake {
    /// The setup request to send.
    pub closed spec fn request_bytes(&self) -> Seq<u8> {
        self.request@
    }

    /// The screen asked for.
    pub closed spec fn screen_number(&self) -> usize {
        self.screen
    }

    /// The bytes to send to the server.
    pub fn request(&self) -> (r: &[u8])
        ensures
            r@ == self.request_bytes(),
    {
        self.request.as_slice()
    }

    /// Completes the connection with the server's setup answer; fails
    /// where the server refused, the answer is malformed, the screen does
    /// not exist or the ID mask is zero.
    pub fn finish(self, reply: &[u8]) -> (r: Result<RustConnection, ConnectError>)
        ensures
            match parsed_setup(reply@) {
                Err(e) => r == Err::<RustConnection, ConnectError>(e),
                Ok(s) => if self.screen_number() >= s.roots_len {
                    r == Err::<RustConnection, ConnectError>(ConnectError::InvalidScreen)
                } else if s.resource_id_mask == 0 {
                    r == Err::<RustConnection, ConnectError>(ConnectError::ZeroIdMask)
                } else {
                    r matches Ok(c) && c.fresh(s)
                },
            },
    {
        let setup = match parse_setup(reply) {
            Ok(s) => s,
            Err(e) => return Err(e),
        };
        if self.screen >= setup.roots_len as usize {
            return Err(ConnectError::InvalidScreen);
        }
        RustConnection::for_inner(ConnectionInner::new(), setup)
    }
}

/// The pending table once the check of `seq` made sure that an answer
/// comes: a fence is added where no request from `seq` on expects a reply.
pub open spec fn fenced(inner: ConnectionInner, seq: u64) -> Seq<SentRequest> {
    if inner.reply_expected() >= seq {
        inner.requests()
    } else {
        inner.requests().push(new_record((inner.last_written() + 1) as u64, RequestKind::HasResponse, Some(DiscardMode::DiscardReplyAndError)))
    }
}

/// `r` is the step where no answer is stored: done with `done` where none
/// will come, else a read or a wait depending on whether a reader exists.
pub open spec fn read_or_wait<T>(o: ConnectionInner, n: ConnectionInner, reqs: Seq<SentRequest>, seq: u64, r: WaitStep<T>, done: T) -> bool {
    match no_answer_yet(reqs, seq as int, o.last_read()) {
        PollReply::TryAgain => {
            &&& n.reader_active()
            &&& (o.reader_active() ==> r is Wait)
            &&& (!o.reader_active() ==> r is Read)
        },
        _ => r == WaitStep::Done(done) && n.reader_active() == o.reader_active(),
    }
}

/// The reader role goes to one caller at a time, and a caller is told to
/// wait only while a reader is active: of two callers that find no answer
/// while nobody reads, the first becomes the reader and the second waits
/// for it.
pub proof fn lemma_single_reader<T, U>(
    o: ConnectionInner,
    n: ConnectionInner,
    m: ConnectionInner,
    first: (Seq<SentRequest>, u64, WaitStep<T>, T),
    second: (Seq<SentRequest>, u64, WaitStep<U>, U),
)
    requires
        !o.reader_active(),
        no_answer_yet(first.0, first.1 as int, o.last_read()) is TryAgain,
        read_or_wait(o, n, first.0, first.1, first.2, first.3),
        no_answer_yet(second.0, second.1 as int, n.last_read()) is TryAgain,
        read_or_wait(n, m, second.0, second.1, second.2, second.3),
    ensures
        first.2 is Read,
        second.2 is Wait,
        m.reader_active(),
{
}

/// A caller told to wait finds a reader active before and after its step.
pub proof fn lemma_wait_behind_reader<T>(
    o: ConnectionInner,
    n: ConnectionInner,
    reqs: Seq<SentRequest>,
    seq: u64,
    r: WaitStep<T>,
    done: T,
)
    requires
        read_or_wait(o, n, reqs, seq, r, done),
        r is Wait,
    ensures
        o.reader_active(),
        n.reader_active(),
{
}

/// A connection to an X11 server, without its transport.
pub struct RustConnection {
    inner: ConnectionInner,
    id_allocator: IdAllocator,
    setup: Setup,
    maximum_request_bytes: MaxRequestBytes,
}

impl RustConnection {
    /// The shared state of requests, answers and events.
    pub closed spec fn state(&self) -> ConnectionInner {
        self.inner
    }

    /// The resource-ID allocator.
    pub closed spec fn ids(&self) -> IdAllocator {
        self.id_allocator
    }

    /// The setup the server sent.
    pub closed spec fn setup_info(&self) -> Setup {
        self.setup
    }

    /// The state of the maximum-request-length negotiation.
    pub closed spec fn max_bytes(&self) -> MaxRequestBytes {
        self.maximum_request_bytes
    }

    /// The invariant of a connection.
    pub open spec fn wf(&self) -> bool {
        self.state().wf() && self.ids().wf()
    }

    /// A connection just set up with `s`, before any request.
    pub open spec fn fresh(&self, s: Setup) -> bool {
        &&& self.wf()
        &&& self.setup_info() == s
        &&& self.max_bytes() == MaxRequestBytes::Unknown
        &&& self.state().last_written() == 0
        &&& self.state().last_read() == 0
        &&& self.state().reply_expected() == 0
        &&& self.state().requests().len() == 0
        &&& self.state().events().len() == 0
        &&& self.state().output().len() == 0
        &&& !self.state().reader_active()
        &&& self.ids().next() == s.resource_id_base
        &&& self.ids().max() == (s.resource_id_base | s.resource_id_mask)
        &&& self.ids().step() == increment_of(s.resource_id_mask)
        &&& self.ids().issued().is_empty()
    }

    /// The maximum request length the sender works with: the negotiated one
    /// where known, else the one of the setup.
    pub open spec fn cached_maximum_request_bytes(&self) -> nat {
        match self.max_bytes() {
            MaxRequestBytes::Known(b) => b as nat,
            _ => 4 * self.setup_info().maximum_request_length as nat,
        }
    }

    /// Starts connecting: the setup request carries no authorization.
    pub fn connect_to_stream(screen: usize) -> (r: SetupHandshake)
        ensures
            r.request_bytes() == setup_request_bytes(Seq::empty(), Seq::empty()),
            r.screen_number() == screen,
    {
        Self::connect_to_stream_with_auth_info(screen, Vec::new(), Vec::new())
    }

    /// Starts connecting with the given authorization name and data.
    pub fn connect_to_stream_with_auth_info(screen: usize, auth_name: Vec<u8>, auth_data: Vec<u8>) -> (r: SetupHandshake)
        requires
            auth_name@.len() <= 0xffff,
            auth_data@.len() <= 0xffff,
        ensures
            r.request_bytes() == setup_request_bytes(auth_name@, auth_data@),
            r.screen_number() == screen,
    {
        let request = setup_request(auth_name.as_slice(), auth_data.as_slice());
        SetupHandshake { request, screen }
    }

    /// A connection for a stream whose setup answer `setup` was just read:
    /// the first request gets sequence number 1.
    pub fn for_connected_stream(setup: Setup) -> (r: Result<Self, ConnectError>)
        ensures
            setup.resource_id_mask == 0 ==> r == Err::<Self, ConnectError>(ConnectError::ZeroIdMask),
            setup.resource_id_mask != 0 ==> (r matches Ok(c) && c.fresh(setup)),
    {
        Self::for_inner(ConnectionInner::new(), setup)
    }

    fn for_inner(inner: ConnectionInner, setup: Setup) -> (r: Result<Self, ConnectError>)
        requires
            inner.wf(),
            inner.last_written() == 0,
            inner.last_read() == 0,
            inner.reply_expected() == 0,
            inner.requests().len() == 0,
            inner.events().len() == 0,
            inner.output().len() == 0,
            !inner.reader_active(),
        ensures
            setup.resource_id_mask == 0 ==> r == Err::<Self, ConnectError>(ConnectError::ZeroIdMask),
            setup.resource_id_mask != 0 ==> (r matches Ok(c) && c.fresh(setup)),
    {
        let allocator = match IdAllocator::new(setup.resource_id_base, setup.resource_id_mask) {
            Ok(a) => a,
            Err(e) => return Err(e),
        };
        Ok(RustConnection { inner, id_allocator: allocator, setup, maximum_request_bytes: MaxRequestBytes::Unknown })
    }


    /// The maximum request length the sender works with now.
    fn current_maximum_request_bytes(&self) -> (r: usize)
        ensures
            r == self.cached_maximum_request_bytes(),
    {
        match self.maximum_request_bytes {
            MaxRequestBytes::Known(b) => b,
            _ => 4 * (self.setup.maximum_request_length as usize),
        }
    }

    /// Sends a request; descriptors cannot be passed.
    fn send_request(&mut self, bytes: &[u8], fds: &[i32], kind: RequestKind) -> (r: Result<u64, ConnectionError>)
        requires
            old(self).wf(),
        ensures
            final(self).wf(),
            final(self).ids() == old(self).ids(),
            final(self).setup_info() == old(self).setup_info(),
            final(self).max_bytes() == old(self).max_bytes(),
            fds@.len() > 0 ==> r == Err::<u64, ConnectionError>(ConnectionError::FdPassingFailed) && final(self).state() == old(self).state(),
            fds@.len() == 0 ==> sent(old(self).state(), final(self).state(), bytes@, kind, r),
    {
        if fds.len() > 0 {
            return Err(ConnectionError::FdPassingFailed);
        }
        self.inner.send_request(bytes, kind)
    }

    /// Frames and sends a request that expects a reply; returns its
    /// sequence number.
    pub fn send_request_with_reply(&mut self, bufs: &Vec<Vec<u8>>, fds: &[i32]) -> (r: Result<u64, ConnectionError>)
        requires
            old(self).wf(),
            flatten(bufs@).len() >= 4,
            flatten(bufs@).len() % 4 == 0,
        ensures
            final(self).wf(),
            final(self).ids() == old(self).ids(),
            final(self).setup_info() == old(self).setup_info(),
            final(self).max_bytes() == old(self).max_bytes(),
            match framed_request(flatten(bufs@), old(self).cached_maximum_request_bytes()) {
                None => r == Err::<u64, ConnectionError>(ConnectionError::MaximumRequestLengthExceeded)
                    && final(self).state() == old(self).state(),
                Some(w) => if fds@.len() > 0 {
                    r == Err::<u64, ConnectionError>(ConnectionError::FdPassingFailed) && final(self).state() == old(self).state()
                } else {
                    sent(old(self).state(), final(self).state(), w, RequestKind::HasResponse, r)
                },
            },
    {
        let max = self.current_maximum_request_bytes();
        let request = match compute_length_field(bufs, max) {
            Ok(v) => v,
            Err(e) => return Err(e),
        };
        self.send_request(request.as_slice(), fds, RequestKind::HasResponse)
    }

    /// Frames and sends a request that expects no reply.
    pub fn send_request_without_reply(&mut self, bufs: &Vec<Vec<u8>>, fds: &[i32]) -> (r: Result<u64, ConnectionError>)
        requires
            old(self).wf(),
            flatten(bufs@).len() >= 4,
            flatten(bufs@).len() % 4 == 0,
        ensures
            final(self).wf(),
            final(self).ids() == old(self).ids(),
            final(self).setup_info() == old(self).setup_info(),
            final(self).max_bytes() == old(self).max_bytes(),
            match framed_request(flatten(bufs@), old(self).cached_maximum_request_bytes()) {
                None => r == Err::<u64, ConnectionError>(ConnectionError::MaximumRequestLengthExceeded)
                    && final(self).state() == old(self).state(),
                Some(w) => if fds@.len() > 0 {
                    r == Err::<u64, ConnectionError>(ConnectionError::FdPassingFailed) && final(self).state() == old(self).state()
                } else {
                    sent(old(self).state(), final(self).state(), w, RequestKind::IsVoid, r)
                },
            },
    {
        let max = self.current_maximum_request_bytes();
        let request = match compute_length_field(bufs, max) {
            Ok(v) => v,
            Err(e) => return Err(e),
        };
        self.send_request(request.as_slice(), fds, RequestKind::IsVoid)
    }

    /// Requests whose reply carries descriptors cannot be sent: this fails
    /// always, with the framing error where the request is too long.
    pub fn send_request_with_reply_with_fds(&self, bufs: &Vec<Vec<u8>>, fds: &[i32]) -> (r: Result<u64, ConnectionError>)
        requires
            flatten(bufs@).len() >= 4,
            flatten(bufs@).len() % 4 == 0,
        ensures
            framed_request(flatten(bufs@), self.cached_maximum_request_bytes()) is None
                ==> r == Err::<u64, ConnectionError>(ConnectionError::MaximumRequestLengthExceeded),
            framed_request(flatten(bufs@), self.cached_maximum_request_bytes()) is Some
                ==> r == Err::<u64, ConnectionError>(ConnectionError::FdPassingFailed),
    {
        let max = self.current_maximum_request_bytes();
        match compute_length_field(bufs, max) {
            Ok(_) => Err(ConnectionError::FdPassingFailed),
            Err(e) => Err(e),
        }
    }

    /// Marks the answer to `sequence` as unwanted.
    pub fn discard_reply(&mut self, sequence: u64, kind: RequestKind, mode: DiscardMode)
        requires
            old(self).wf(),
        ensures
            final(self).wf(),
            final(self).ids() == old(self).ids(),
            final(self).setup_info() == old(self).setup_info(),
            final(self).max_bytes() == old(self).max_bytes(),
            counters_kept(old(self).state(), final(self).state()),
            final(self).state().reader_active() == old(self).state().reader_active(),
            final(self).state().requests() == discard(old(self).state().requests(), sequence as int, mode),
    {
        self.inner.discard_reply(sequence, mode);
    }

    /// Claims the reader role where no answer is there yet.
    fn claim_reader<T>(&mut self) -> (r: WaitStep<T>)
        requires
            old(self).wf(),
        ensures
            final(self).wf(),
            final(self).ids() == old(self).ids(),
            final(self).setup_info() == old(self).setup_info(),
            final(self).max_bytes() == old(self).max_bytes(),
            counters_kept(old(self).state(), final(self).state()),
            final(self).state().requests() == old(self).state().requests(),
            final(self).state().reader_active(),
            old(self).state().reader_active() ==> r is Wait,
            !old(self).state().reader_active() ==> r is Read,
    {
        if self.inner.begin_read() {
            WaitStep::Read
        } else {
            WaitStep::Wait
        }
    }

    /// One step of waiting for the reply or the error to `sequence`.
    pub fn wait_for_reply_or_error(&mut self, sequence: u64) -> (r: WaitStep<Result<Vec<u8>, ReplyError>>)
        requires
            old(self).wf(),
        ensures
            final(self).wf(),
            final(self).ids() == old(self).ids(),
            final(self).setup_info() == old(self).setup_info(),
            final(self).max_bytes() == old(self).max_bytes(),
            counters_kept(old(self).state(), final(self).state()),
            final(self).state().requests() == consume(old(self).state().requests(), sequence as int),
            match stored_answer(old(self).state().requests(), sequence as int) {
                Some(a) => {
                    &&& final(self).state().reader_active() == old(self).state().reader_active()
                    &&& if a@[0] != 0 {
                        r == WaitStep::<Result<Vec<u8>, ReplyError>>::Done(Ok(a))
                    } else if is_error_packet(a@) {
                        r matches WaitStep::Done(Err(ReplyError::X11Error(e))) && e@ == a@
                    } else {
                        r matches WaitStep::Done(Err(ReplyError::ConnectionError(ConnectionError::ParseError)))
                    }
                },
                None => read_or_wait(old(self).state(), final(self).state(), old(self).state().requests(), sequence, r,
                    Err(ReplyError::ConnectionError(ConnectionError::UnknownError))),
            },
    {
        match self.inner.poll_for_reply_or_error(sequence) {
            PollReply::Reply(reply) => {
                if reply[0] == 0 {
                    match GenericError::new(reply) {
                        Ok(e) => WaitStep::Done(Err(ReplyError::X11Error(e))),
                        Err(_) => WaitStep::Done(Err(ReplyError::ConnectionError(ConnectionError::ParseError))),
                    }
                } else {
                    WaitStep::Done(Ok(reply))
                }
            },
            PollReply::NoReply => WaitStep::Done(Err(ReplyError::ConnectionError(ConnectionError::UnknownError))),
            PollReply::TryAgain => self.claim_reader(),
        }
    }

    /// One step of waiting for the reply to `sequence`; an error counts as
    /// no reply.
    pub fn wait_for_reply(&mut self, sequence: u64) -> (r: WaitStep<Option<Vec<u8>>>)
        requires
            old(self).wf(),
        ensures
            final(self).wf(),
            final(self).ids() == old(self).ids(),
            final(self).setup_info() == old(self).setup_info(),
            final(self).max_bytes() == old(self).max_bytes(),
            counters_kept(old(self).state(), final(self).state()),
            final(self).state().requests() == consume(old(self).state().requests(), sequence as int),
            match stored_answer(old(self).state().requests(), sequence as int) {
                Some(a) => {
                    &&& final(self).state().reader_active() == old(self).state().reader_active()
                    &&& r == WaitStep::Done(if a@[0] == 0 { None } else { Some(a) })
                },
                None => read_or_wait(old(self).state(), final(self).state(), old(self).state().requests(), sequence, r, None),
            },
    {
        match self.inner.poll_for_reply(sequence) {
            PollReply::TryAgain => self.claim_reader(),
            PollReply::NoReply => WaitStep::Done(None),
            PollReply::Reply(buffer) => WaitStep::Done(Some(buffer)),
        }
    }

    /// One step of checking whether request `sequence` failed. The first
    /// step sends a fence where needed, so that an answer surely comes.
    pub fn check_for_error(&mut self, sequence: u64) -> (r: WaitStep<Result<Option<GenericError>, ConnectionError>>)
        requires
            old(self).wf(),
        ensures
            final(self).wf(),
            final(self).ids() == old(self).ids(),
            final(self).setup_info() == old(self).setup_info(),
            final(self).max_bytes() == old(self).max_bytes(),
            final(self).state().last_read() == old(self).state().last_read(),
            final(self).state().events() == old(self).state().events(),
            old(self).state().reply_expected() < sequence && old(self).state().last_written() == u64::MAX ==> {
                &&& r matches WaitStep::Done(Err(ConnectionError::UnknownError))
                &&& final(self).state() == old(self).state()
            },
            !(old(self).state().reply_expected() < sequence && old(self).state().last_written() == u64::MAX) ==> {
                let reqs = fenced(old(self).state(), sequence);
                &&& final(self).state().requests() == consume(reqs, sequence as int)
                &&& final(self).state().output() == if old(self).state().reply_expected() >= sequence {
                    old(self).state().output()
                } else {
                    old(self).state().output() + fence_request()
                }
                &&& match stored_answer(reqs, sequence as int) {
                    Some(a) => {
                        &&& final(self).state().reader_active() == old(self).state().reader_active()
                        &&& if is_error_packet(a@) {
                            r matches WaitStep::Done(Ok(Some(e))) && e@ == a@
                        } else {
                            r matches WaitStep::Done(Ok(None))
                        }
                    },
                    None => read_or_wait(old(self).state(), final(self).state(), reqs, sequence, r, Ok(None)),
                }
            },
    {
        match self.inner.prepare_check_for_reply_or_error(sequence) {
            Ok(()) => {},
            Err(e) => return WaitStep::Done(Err(e)),
        }
        match self.inner.poll_check_for_reply_or_error(sequence) {
            PollReply::TryAgain => self.claim_reader(),
            PollReply::NoReply => WaitStep::Done(Ok(None)),
            PollReply::Reply(buffer) => match GenericError::new(buffer) {
                Ok(e) => WaitStep::Done(Ok(Some(e))),
                Err(_) => WaitStep::Done(Ok(None)),
            },
        }
    }

    /// One step of waiting for the next event.
    pub fn wait_for_event_with_sequence(&mut self) -> (r: WaitStep<(Vec<u8>, u64)>)
        requires
            old(self).wf(),
        ensures
            final(self).wf(),
            final(self).ids() == old(self).ids(),
            final(self).setup_info() == old(self).setup_info(),
            final(self).max_bytes() == old(self).max_bytes(),
            final(self).state().last_written() == old(self).state().last_written(),
            final(self).state().last_read() == old(self).state().last_read(),
            final(self).state().requests() == old(self).state().requests(),
            final(self).state().output() == old(self).state().output(),
            old(self).state().events().len() > 0 ==> {
                &&& r == WaitStep::Done(old(self).state().events()[0])
                &&& final(self).state().events() == old(self).state().events().drop_first()
                &&& final(self).state().reader_active() == old(self).state().reader_active()
            },
            old(self).state().events().len() == 0 ==> {
                &&& final(self).state().events() == old(self).state().events()
                &&& final(self).state().reader_active()
                &&& (old(self).state().reader_active() ==> r is Wait)
                &&& (!old(self).state().reader_active() ==> r is Read)
            },
    {
        match self.inner.poll_for_event_with_sequence() {
            Some(event) => WaitStep::Done(event),
            None => self.claim_reader(),
        }
    }

    /// Takes the oldest queued event, if any.
    pub fn poll_for_event_with_sequence(&mut self) -> (r: Option<(Vec<u8>, u64)>)
        requires
            old(self).wf(),
        ensures
            final(self).wf(),
            final(self).ids() == old(self).ids(),
            final(self).setup_info() == old(self).setup_info(),
            final(self).max_bytes() == old(self).max_bytes(),
            final(self).state().requests() == old(self).state().requests(),
            final(self).state().last_read() == old(self).state().last_read(),
            final(self).state().reader_active() == old(self).state().reader_active(),
            old(self).state().events().len() == 0 ==> r is None,
            old(self).state().events().len() > 0 ==> r == Some(old(self).state().events()[0])
                && final(self).state().events() == old(self).state().events().drop_first(),
    {
        self.inner.poll_for_event_with_sequence()
    }

    /// Files the packet the reader read and gives the reader role up.
    pub fn read_packet_and_enqueue(&mut self, packet: Vec<u8>) -> (r: Result<(), ParseError>)
        requires
            old(self).wf(),
            packet@.len() >= 32,
        ensures
            final(self).wf(),
            final(self).ids() == old(self).ids(),
            final(self).setup_info() == old(self).setup_info(),
            final(self).max_bytes() == old(self).max_bytes(),
            enqueued(old(self).state(), final(self).state(), packet, r),
            !final(self).state().reader_active(),
    {
        self.inner.end_read();
        self.inner.enqueue_packet(packet)
    }

    /// Gives the reader role up after a failed read.
    pub fn read_failed(&mut self)
        requires
            old(self).wf(),
        ensures
            final(self).wf(),
            final(self).ids() == old(self).ids(),
            final(self).setup_info() == old(self).setup_info(),
            final(self).max_bytes() == old(self).max_bytes(),
            counters_kept(old(self).state(), final(self).state()),
            final(self).state().requests() == old(self).state().requests(),
            !final(self).state().reader_active(),
    {
        self.inner.end_read();
    }

    /// Hands out the bytes to write to the server.
    pub fn flush(&mut self) -> (r: Vec<u8>)
        requires
            old(self).wf(),
        ensures
            final(self).wf(),
            final(self).ids() == old(self).ids(),
            final(self).setup_info() == old(self).setup_info(),
            final(self).max_bytes() == old(self).max_bytes(),
            r@ == old(self).state().output(),
            final(self).state().output().len() == 0,
            final(self).state().requests() == old(self).state().requests(),
            final(self).state().events() == old(self).state().events(),
            final(self).state().last_written() == old(self).state().last_written(),
            final(self).state().last_read() == old(self).state().last_read(),
            final(self).state().reader_active() == old(self).state().reader_active(),
    {
        self.inner.take_output()
    }


    /// Hands out a resource ID; `None` once the current range is used up,
    /// after which a new range has to be requested.
    pub fn generate_id(&mut self) -> (r: Option<u32>)
        requires
            old(self).wf(),
        ensures
            final(self).wf(),
            final(self).state() == old(self).state(),
            final(self).setup_info() == old(self).setup_info(),
            final(self).max_bytes() == old(self).max_bytes(),
            final(self).ids().max() == old(self).ids().max(),
            old(self).ids().next() > old(self).ids().max() ==> r is None && final(self).ids() == old(self).ids(),
            old(self).ids().next() <= old(self).ids().max() ==> {
                &&& r == Some(old(self).ids().next() as u32)
                &&& !old(self).ids().issued().contains(old(self).ids().next() as u32)
                &&& final(self).ids().issued() == old(self).ids().issued().insert(old(self).ids().next() as u32)
                &&& final(self).ids().next() == old(self).ids().next() + old(self).ids().step()
            },
    {
        self.id_allocator.generate_id()
    }

    /// Sends `XCMisc.GetXIDRange` through the extension `xc_misc`.
    pub fn request_xid_range(&mut self, xc_misc: ExtensionInformation) -> (r: Result<u64, ConnectionError>)
        requires
            old(self).wf(),
        ensures
            final(self).wf(),
            final(self).ids() == old(self).ids(),
            final(self).setup_info() == old(self).setup_info(),
            final(self).max_bytes() == old(self).max_bytes(),
            sent(old(self).state(), final(self).state(),
                seq![xc_misc.major_opcode, XC_MISC_GET_XID_RANGE, 1u8, 0u8], RequestKind::HasResponse, r),
    {
        let request: [u8; 4] = [xc_misc.major_opcode, XC_MISC_GET_XID_RANGE, 1, 0];
        let bytes = request.as_slice();
        assert(bytes@ =~= seq![xc_misc.major_opcode, XC_MISC_GET_XID_RANGE, 1u8, 0u8]);
        self.inner.send_request(bytes, RequestKind::HasResponse)
    }

    /// Starts a new ID range from the `GetXIDRange` reply `reply` (start
    /// at offset 8, count at offset 12); no reply, a short one, or a count
    /// of zero mean that no IDs are left.
    pub fn update_xid_range(&mut self, reply: Option<&[u8]>) -> (r: Result<(), ReplyOrIdError>)
        requires
            old(self).wf(),
        ensures
            final(self).wf(),
            final(self).state() == old(self).state(),
            final(self).setup_info() == old(self).setup_info(),
            final(self).max_bytes() == old(self).max_bytes(),
            match reply {
                Some(b) if b@.len() >= 16 && u32_le(b@[12], b@[13], b@[14], b@[15]) > 0 => {
                    &&& r is Ok
                    &&& final(self).ids().next() == u32_le(b@[8], b@[9], b@[10], b@[11])
                    &&& final(self).ids().issued().is_empty()
                },
                _ => (r matches Err(ReplyOrIdError::IdsExhausted)) && final(self).ids() == old(self).ids(),
            },
    {
        match reply {
            Some(b) => {
                if b.len() < 16 {
                    return Err(ReplyOrIdError::IdsExhausted);
                }
                let start = read_u32_le(b, 8);
                let count = read_u32_le(b, 12);
                self.id_allocator.update_xid_range(start, count)
            },
            None => Err(ReplyOrIdError::IdsExhausted),
        }
    }

    /// Starts the negotiation of the maximum request length where it has
    /// not started: sends `BigRequests.Enable` where the server has the
    /// extension `big_requests`.
    pub fn prefetch_maximum_request_bytes_impl(&mut self, big_requests: Option<ExtensionInformation>)
        requires
            old(self).wf(),
        ensures
            final(self).wf(),
            final(self).ids() == old(self).ids(),
            final(self).setup_info() == old(self).setup_info(),
            old(self).max_bytes() != MaxRequestBytes::Unknown ==> *final(self) == *old(self),
            old(self).max_bytes() == MaxRequestBytes::Unknown ==> match big_requests {
                None => final(self).max_bytes() == MaxRequestBytes::Requested(None)
                    && final(self).state() == old(self).state(),
                Some(ext) => exists|res: Result<u64, ConnectionError>| {
                    &&& sent(old(self).state(), final(self).state(), seq![ext.major_opcode, BIG_REQUESTS_ENABLE, 1u8, 0u8], RequestKind::HasResponse, res)
                    &&& final(self).max_bytes() == MaxRequestBytes::Requested(match res { Ok(s) => Some(s), Err(_) => None })
                },
            },
    {
        if self.maximum_request_bytes == MaxRequestBytes::Unknown {
            let ghost mut witness: Result<u64, ConnectionError> = Err(ConnectionError::UnknownError);
            let request = match big_requests {
                Some(ext) => {
                    let bytes: [u8; 4] = [ext.major_opcode, BIG_REQUESTS_ENABLE, 1, 0];
                    let b = bytes.as_slice();
                    assert(b@ =~= seq![ext.major_opcode, BIG_REQUESTS_ENABLE, 1u8, 0u8]);
                    let res = self.inner.send_request(b, RequestKind::HasResponse);
                    proof {
                        witness = res;
                    }
                    match res {
                        Ok(seq) => Some(seq),
                        Err(_) => None,
                    }
                },
                None => None,
            };
            self.maximum_request_bytes = MaxRequestBytes::Requested(request);
            if let Some(ext) = big_requests {
                assert(sent(old(self).state(), self.state(), seq![ext.major_opcode, BIG_REQUESTS_ENABLE, 1u8, 0u8], RequestKind::HasResponse, witness));
            }
        }
    }

    /// Same as `prefetch_maximum_request_bytes_impl`.
    pub fn prefetch_maximum_request_bytes(&mut self, big_requests: Option<ExtensionInformation>)
        requires
            old(self).wf(),
        ensures
            final(self).wf(),
            final(self).ids() == old(self).ids(),
            final(self).setup_info() == old(self).setup_info(),
            old(self).max_bytes() != MaxRequestBytes::Unknown ==> *final(self) == *old(self),
            old(self).max_bytes() == MaxRequestBytes::Unknown ==> match big_requests {
                None => final(self).max_bytes() == MaxRequestBytes::Requested(None)
                    && final(self).state() == old(self).state(),
                Some(ext) => exists|res: Result<u64, ConnectionError>| {
                    &&& sent(old(self).state(), final(self).state(), seq![ext.major_opcode, BIG_REQUESTS_ENABLE, 1u8, 0u8], RequestKind::HasResponse, res)
                    &&& final(self).max_bytes() == MaxRequestBytes::Requested(match res { Ok(s) => Some(s), Err(_) => None })
                },
            },
    {
        self.prefetch_maximum_request_bytes_impl(big_requests)
    }

    /// Where the negotiation of the maximum request length stands.
    pub fn maximum_request_bytes_state(&self) -> (r: MaxRequestBytes)
        ensures
            r == self.max_bytes(),
    {
        self.maximum_request_bytes
    }

    /// The sequence number of the big-requests query whose reply the
    /// negotiation waits for, if any.
    pub fn maximum_request_bytes_sequence(&self) -> (r: Option<u64>)
        ensures
            r == match self.max_bytes() {
                MaxRequestBytes::Requested(s) => s,
                _ => None,
            },
    {
        match self.maximum_request_bytes {
            MaxRequestBytes::Requested(s) => s,
            _ => None,
        }
    }

    /// Ends the negotiation of the maximum request length and returns it in
    /// bytes: the length from the big-requests reply `enable_reply` (offset
    /// 8, in words) where there is one, else the length from the setup.
    /// Once known, the length stays.
    pub fn maximum_request_bytes(&mut self, enable_reply: Option<&[u8]>) -> (r: usize)
        requires
            old(self).wf(),
            old(self).max_bytes() != MaxRequestBytes::Unknown,
        ensures
            final(self).wf(),
            final(self).state() == old(self).state(),
            final(self).ids() == old(self).ids(),
            final(self).setup_info() == old(self).setup_info(),
            final(self).max_bytes() == MaxRequestBytes::Known(r),
            match old(self).max_bytes() {
                MaxRequestBytes::Known(b) => r == b,
                _ => r == words_to_bytes(negotiated_words(
                    match enable_reply { Some(b) => Some(b@), None => None },
                    old(self).setup_info())),
            },
    {
        match self.maximum_request_bytes {
            MaxRequestBytes::Known(b) => b,
            _ => {
                let words: u32 = match enable_reply {
                    Some(b) => if b.len() >= 12 {
                        read_u32_le(b, 8)
                    } else {
                        self.setup.maximum_request_length as u32
                    },
                    None => self.setup.maximum_request_length as u32,
                };
                let bytes: u64 = 4 * (words as u64);
                let length: usize = if bytes > usize::MAX as u64 {
                    usize::MAX
                } else {
                    bytes as usize
                };
                self.maximum_request_bytes = MaxRequestBytes::Known(length);
                length
            },
        }
    }

    /// The setup the server sent.
    pub fn setup(&self) -> (r: &Setup)
        ensures
            *r == self.setup_info(),
    {
        &self.setup
    }
}

} // verus!
