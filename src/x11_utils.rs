//! Raw X11 packets (events and errors) and the wire form of primitive values.
use vstd::prelude::*;

use crate::errors::ParseError;
use crate::wire::{read_u16_le, read_u32_le, u16_le, u32_le};

verus! {

/// Response type of a generic event, whose length field counts extra words.
pub const GE_GENERIC_EVENT: u8 = 0x23;

/// Response type of a reply.
pub const REPLY: u8 = 1;

/// Response type of the keymap-notify event, which has no sequence number.
pub const KEYMAP_NOTIFY_EVENT: u8 = 11;

/// Information about an X11 extension.
#[derive(Debug, Copy, Clone, PartialEq, Eq, Structural)]
pub struct ExtensionInformation {
    /// Major opcode used in requests.
    pub major_opcode: u8,
    /// Lowest event number used by the extension.
    pub first_event: u8,
    /// Lowest error number used by the extension.
    pub first_error: u8,
}

/// Looks extensions up by the numbers they were assigned.
pub trait ExtInfoProvider {
    /// The extension whose major opcode is `major_opcode`.
    fn get_from_major_opcode(&self, major_opcode: u8) -> Option<(&str, ExtensionInformation)>;

    /// The extension whose event range holds `event_code`.
    fn get_from_event_code(&self, event_code: u8) -> Option<(&str, ExtensionInformation)>;

    /// The extension whose error range holds `error_code`.
    fn get_from_error_code(&self, error_code: u8) -> Option<(&str, ExtensionInformation)>;
}

/// The response type without the bit that marks a packet sent by a client.
pub open spec fn response_type_of(p: Seq<u8>) -> u8 {
    p[0] & 0x7f
}

/// The length a packet must have, given its first 32 bytes.
pub open spec fn expected_length(p: Seq<u8>) -> int {
    let t = response_type_of(p);
    if t == GE_GENERIC_EVENT || t == REPLY {
        (32 + 4 * u32_le(p[4], p[5], p[6], p[7])) as int
    } else {
        32
    }
}

/// Whether `p` is a well-framed event, error or reply.
pub open spec fn is_packet(p: Seq<u8>) -> bool {
    p.len() >= 32 && p.len() == expected_length(p)
}

/// Common information on events and errors.
pub trait Event {
    /// The raw bytes of the packet.
    spec fn packet(&self) -> Seq<u8>;

    /// The raw bytes of the packet, at least 32 of them.
    fn raw_bytes(&self) -> (r: &[u8])
        ensures
            r@ == self.packet(),
            r@.len() >= 32,
    ;

    /// The response type including the bit that marks a packet sent by
    /// another client.
    fn raw_response_type(&self) -> (r: u8)
        ensures
            r == self.packet()[0],
    {
        let b = self.raw_bytes();
        b[0]
    }

    /// The response type: 0 for errors, 1 for replies, an event number else.
    fn response_type(&self) -> (r: u8)
        ensures
            r == response_type_of(self.packet()),
    {
        self.raw_response_type() & 0x7f
    }

    /// Whether the server generated this packet (not `SendEvent`).
    fn server_generated(&self) -> (r: bool)
        ensures
            r == (self.packet()[0] & 0x80 == 0),
    {
        self.raw_response_type() & 0x80 == 0
    }

    /// The short sequence number; the keymap-notify event has none.
    fn raw_sequence_number(&self) -> (r: Option<u16>)
        ensures
            response_type_of(self.packet()) == KEYMAP_NOTIFY_EVENT ==> r is None,
            response_type_of(self.packet()) != KEYMAP_NOTIFY_EVENT ==> r == Some(u16_le(self.packet()[2], self.packet()[3]) as u16),
    {
        if self.response_type() == KEYMAP_NOTIFY_EVENT {
            None
        } else {
            let bytes = self.raw_bytes();
            Some(read_u16_le(bytes, 2))
        }
    }
}

/// A well-framed event (or error, or reply) packet.
#[derive(Debug)]
pub struct GenericEvent(Vec<u8>);

impl View for GenericEvent {
    type V = Seq<u8>;

    closed spec fn view(&self) -> Seq<u8> {
        self.0@
    }
}

impl GenericEvent {
    #[verifier::type_invariant]
    spec fn framed(&self) -> bool {
        is_packet(self.0@)
    }

    /// Checks the framing of `value`: at least 32 bytes, and for generic
    /// events and replies exactly as many as the length field says.
    pub fn new(value: Vec<u8>) -> (r: Result<Self, ParseError>)
        ensures
            is_packet(value@) <==> r is Ok,
            r matches Ok(e) ==> e@ == value@,
    {
        if value.len() < 32 {
            return Err(ParseError::ParseError);
        }
        let length_field = read_u32_le(value.as_slice(), 4);
        let actual_length = value.len() as u64;
        let t = value[0] & 0x7f;
        let expected_length: u64 = if t == GE_GENERIC_EVENT || t == REPLY {
            32 + 4 * (length_field as u64)
        } else {
            32
        };
        if actual_length != expected_length {
            return Err(ParseError::ParseError);
        }
        Ok(GenericEvent(value))
    }

    /// The bytes of the packet.
    pub fn into_buffer(self) -> (r: Vec<u8>)
        ensures
            r@ == self@,
            is_packet(r@),
    {
        proof {
            use_type_invariant(&self);
        }
        self.0
    }
}

impl Event for GenericEvent {
    open spec fn packet(&self) -> Seq<u8> {
        self@
    }

    fn raw_bytes(&self) -> (r: &[u8]) {
        proof {
            use_type_invariant(self);
        }
        self.0.as_slice()
    }
}

/// A well-framed error packet.
#[derive(Debug)]
pub struct GenericError(Vec<u8>);

impl View for GenericError {
    type V = Seq<u8>;

    closed spec fn view(&self) -> Seq<u8> {
        self.0@
    }
}

/// Whether `p` is a well-framed error packet.
pub open spec fn is_error_packet(p: Seq<u8>) -> bool {
    is_packet(p) && response_type_of(p) == 0
}

impl GenericError {
    #[verifier::type_invariant]
    spec fn framed(&self) -> bool {
        is_error_packet(self.0@)
    }

    /// Checks that `value` is a well-framed error packet.
    pub fn new(value: Vec<u8>) -> (r: Result<Self, ParseError>)
        ensures
            is_error_packet(value@) <==> r is Ok,
            r matches Ok(e) ==> e@ == value@,
    {
        match GenericEvent::new(value) {
            Ok(event) => GenericError::try_from(event),
            Err(e) => Err(e),
        }
    }

    /// Turns an event into an error where its response type is 0.
    pub fn try_from(event: GenericEvent) -> (r: Result<Self, ParseError>)
        ensures
            (response_type_of(event@) == 0) <==> r is Ok,
            r matches Ok(e) ==> e@ == event@,
    {
        if event.response_type() != 0 {
            return Err(ParseError::ParseError);
        }
        let bytes = event.into_buffer();
        Ok(GenericError(bytes))
    }

    /// The bytes of the packet.
    pub fn into_buffer(self) -> (r: Vec<u8>)
        ensures
            r@ == self@,
            is_error_packet(r@),
    {
        proof {
            use_type_invariant(&self);
        }
        self.0
    }

    /// The error code, which tells what kind of error this is.
    pub fn error_code(&self) -> (r: u8)
        ensures
            r == self@[1],
    {
        let b = self.raw_bytes();
        b[1]
    }
}

impl From<GenericError> for GenericEvent {
    fn from(value: GenericError) -> (r: GenericEvent)
        ensures
            r@ == value@,
    {
        proof {
            use_type_invariant(&value);
        }
        GenericEvent(value.0)
    }
}

impl vstd::std_specs::convert::FromSpecImpl<GenericError> for GenericEvent {
    open spec fn obeys_from_spec() -> bool {
        true
    }

    closed spec fn from_spec(v: GenericError) -> GenericEvent {
        GenericEvent(v.0)
    }
}

impl Event for GenericError {
    open spec fn packet(&self) -> Seq<u8> {
        self@
    }

    fn raw_bytes(&self) -> (r: &[u8]) {
        proof {
            use_type_invariant(self);
        }
        self.0.as_slice()
    }
}

/// `256` to the power `n`.
pub open spec fn pow256(n: nat) -> nat
    decreases n,
{
    if n == 0 {
        1
    } else {
        256 * pow256((n - 1) as nat)
    }
}

/// The `n` little-endian bytes of `v`.
pub open spec fn le_bytes(v: nat, n: nat) -> Seq<u8>
    decreases n,
{
    if n == 0 {
        Seq::empty()
    } else {
        seq![(v % 256) as u8] + le_bytes(v / 256, (n - 1) as nat)
    }
}

/// The number whose little-endian bytes are `s`.
pub open spec fn le_value(s: Seq<u8>) -> nat
    decreases s.len(),
{
    if s.len() == 0 {
        0
    } else {
        s[0] as nat + 256 * le_value(s.drop_first())
    }
}

proof fn lemma_pow256_values()
    ensures
        pow256(1) == 0x100,
        pow256(2) == 0x1_0000,
        pow256(4) == 0x1_0000_0000,
        pow256(8) == 0x1_0000_0000_0000_0000,
{
    assert(pow256(0) == 1);
    assert(pow256(1) == 0x100);
    assert(pow256(2) == 0x1_0000);
    assert(pow256(3) == 0x100_0000);
    assert(pow256(4) == 0x1_0000_0000);
    assert(pow256(5) == 0x100_0000_0000);
    assert(pow256(6) == 0x1_0000_0000_0000);
    assert(pow256(7) == 0x100_0000_0000_0000);
    assert(pow256(8) == 0x1_0000_0000_0000_0000);
}

/// Reading back the bytes of a number that fits gives the number.
pub proof fn lemma_le_round_trip(v: nat, n: nat)
    requires
        v < pow256(n),
    ensures
        le_bytes(v, n).len() == n,
        le_value(le_bytes(v, n)) == v,
    decreases n,
{
    if n > 0 {
        assert(v / 256 < pow256((n - 1) as nat)) by (nonlinear_arith)
            requires v < 256 * pow256((n - 1) as nat);
        lemma_le_round_trip(v / 256, (n - 1) as nat);
        let s = le_bytes(v, n);
        assert(s.drop_first() =~= le_bytes(v / 256, (n - 1) as nat));
        assert(v == v % 256 + 256 * (v / 256)) by (nonlinear_arith);
    }
}

/// A number read from `n` bytes is below `256` to the power `n`.
pub proof fn lemma_le_value_bound(s: Seq<u8>)
    ensures
        le_value(s) < pow256(s.len()),
    decreases s.len(),
{
    if s.len() > 0 {
        lemma_le_value_bound(s.drop_first());
        let r = le_value(s.drop_first());
        let p = pow256((s.len() - 1) as nat);
        assert(s[0] as nat + 256 * r < 256 * p) by (nonlinear_arith)
            requires r < p, s[0] < 256;
    }
}

/// Appends the `n` little-endian bytes of `v`.
pub fn push_le(out: &mut Vec<u8>, v: u64, n: usize)
    requires
        n <= 8,
        v < pow256(n as nat),
    ensures
        final(out)@ == old(out)@ + le_bytes(v as nat, n as nat),
{
    let mut x = v;
    let mut k: usize = 0;
    while k < n
        invariant
            k <= n,
            out@ + le_bytes(x as nat, (n - k) as nat) == old(out)@ + le_bytes(v as nat, n as nat),
        decreases n - k,
    {
        let ghost before = out@;
        assert(le_bytes(x as nat, (n - k) as nat) =~= seq![(x % 256) as u8] + le_bytes((x / 256) as nat, (n - k - 1) as nat));
        out.push((x % 256) as u8);
        x = x / 256;
        k = k + 1;
        assert(out@ + le_bytes(x as nat, (n - k) as nat) =~= before + (seq![out@.last()] + le_bytes(x as nat, (n - k) as nat)));
    }
    assert(le_bytes(x as nat, 0) =~= Seq::<u8>::empty());
    assert(out@ =~= out@ + le_bytes(x as nat, 0));
}

/// The number in the first `n` bytes of `data`, little-endian.
pub fn read_le(data: &[u8], n: usize) -> (r: u64)
    requires
        n <= 8,
        n <= data@.len(),
    ensures
        r as nat == le_value(data@.subrange(0, n as int)),
{
    let mut acc: u64 = 0;
    let mut i: usize = n;
    proof {
        lemma_pow256_values();
        assert(data@.subrange(n as int, n as int).len() == 0);
    }
    while i > 0
        invariant
            i <= n <= 8,
            n <= data@.len(),
            acc as nat == le_value(data@.subrange(i as int, n as int)),
            acc < pow256((n - i) as nat),
        decreases i,
    {
        i = i - 1;
        let ghost s = data@.subrange(i as int, n as int);
        assert(s.drop_first() =~= data@.subrange(i + 1, n as int));
        proof {
            lemma_pow256_values();
            lemma_pow256_monotone((n - i - 1) as nat, 7);
            assert(acc * 256 + data@[i as int] < 256 * pow256((n - i - 1) as nat)) by (nonlinear_arith)
                requires acc < pow256((n - i - 1) as nat), data@[i as int] < 256;
            assert(256 * pow256((n - i - 1) as nat) <= 256 * pow256(7)) by (nonlinear_arith)
                requires pow256((n - i - 1) as nat) <= pow256(7);
        }
        acc = acc * 256 + data[i] as u64;
    }
    acc
}

proof fn lemma_pow256_monotone(a: nat, b: nat)
    requires
        a <= b,
    ensures
        pow256(a) <= pow256(b),
    decreases b,
{
    if a < b {
        lemma_pow256_monotone(a, (b - 1) as nat);
    }
}

/// A value that can be read from the start of some bytes.
pub trait TryParse: Sized {
    /// The value at the start of `bytes` and the number of bytes it takes,
    /// if they hold one.
    spec fn parsed(bytes: Seq<u8>) -> Option<(Self, nat)>;

    /// Reads a value from the start of `value`; returns it with the bytes
    /// that follow it.
    fn try_parse(value: &[u8]) -> (r: Result<(Self, &[u8]), ParseError>)
        ensures
            match Self::parsed(value@) {
                Some((v, n)) => n <= value@.len() && (r matches Ok((x, rest)) && x == v
                    && rest@ == value@.subrange(n as int, value@.len() as int)),
                None => r is Err,
            },
    ;
}

/// A value with a wire form.
pub trait Serialize {
    /// The bytes of the value on the wire.
    spec fn wire(&self) -> Seq<u8>;

    /// The bytes of the value.
    fn serialize(&self) -> (r: Vec<u8>)
        ensures
            r@ == self.wire(),
    ;

    /// Appends the bytes of the value to `bytes`.
    fn serialize_into(&self, bytes: &mut Vec<u8>)
        ensures
            final(bytes)@ == old(bytes)@ + self.wire(),
    ;
}

/// A value that reads back from its own wire form.
pub trait WireValue: TryParse + Serialize {
    /// Parsing the wire form of `v`, whatever follows it, gives `v` back
    /// and takes exactly its bytes.
    proof fn lemma_round_trip(v: Self, rest: Seq<u8>)
        ensures
            Self::parsed(v.wire() + rest) == Some((v, v.wire().len())),
    ;
}

/// The value of a two's-complement number whose unsigned form is `u`, with
/// `p` distinct values.
pub open spec fn signed_of(u: nat, p: nat) -> int {
    if 2 * u >= p {
        u - p
    } else {
        u as int
    }
}

/// The unsigned form of the two's-complement number `v`, with `p` distinct
/// values.
pub open spec fn unsigned_of(v: int, p: nat) -> nat {
    if v < 0 {
        (v + p) as nat
    } else {
        v as nat
    }
}

impl TryParse for u8 {
    open spec fn parsed(bytes: Seq<u8>) -> Option<(u8, nat)> {
        if bytes.len() >= 1 {
            Some((le_value(bytes.subrange(0, 1)) as u8, 1))
        } else {
            None
        }
    }

    fn try_parse(value: &[u8]) -> (r: Result<(u8, &[u8]), ParseError>) {
        if value.len() < 1 {
            return Err(ParseError::ParseError);
        }
        let v = read_le(value, 1);
        proof {
            lemma_le_value_bound(value@.subrange(0, 1));
            lemma_pow256_values();
        }
        Ok((v as u8, vstd::slice::slice_subrange(value, 1, value.len())))
    }
}

impl Serialize for u8 {
    open spec fn wire(&self) -> Seq<u8> {
        le_bytes(*self as nat, 1)
    }

    fn serialize(&self) -> (r: Vec<u8>) {
        let mut out: Vec<u8> = Vec::new();
        self.serialize_into(&mut out);
        assert(out@ =~= self.wire());
        out
    }

    fn serialize_into(&self, bytes: &mut Vec<u8>) {
        proof {
            lemma_pow256_values();
        }
        push_le(bytes, *self as u64, 1);
    }
}

impl WireValue for u8 {
    proof fn lemma_round_trip(v: u8, rest: Seq<u8>) {
        lemma_pow256_values();
        lemma_le_round_trip(v as nat, 1);
        assert((v.wire() + rest).subrange(0, 1) =~= v.wire());
    }
}

impl TryParse for u16 {
    open spec fn parsed(bytes: Seq<u8>) -> Option<(u16, nat)> {
        if bytes.len() >= 2 {
            Some((le_value(bytes.subrange(0, 2)) as u16, 2))
        } else {
            None
        }
    }

    fn try_parse(value: &[u8]) -> (r: Result<(u16, &[u8]), ParseError>) {
        if value.len() < 2 {
            return Err(ParseError::ParseError);
        }
        let v = read_le(value, 2);
        proof {
            lemma_le_value_bound(value@.subrange(0, 2));
            lemma_pow256_values();
        }
        Ok((v as u16, vstd::slice::slice_subrange(value, 2, value.len())))
    }
}

impl Serialize for u16 {
    open spec fn wire(&self) -> Seq<u8> {
        le_bytes(*self as nat, 2)
    }

    fn serialize(&self) -> (r: Vec<u8>) {
        let mut out: Vec<u8> = Vec::new();
        self.serialize_into(&mut out);
        assert(out@ =~= self.wire());
        out
    }

    fn serialize_into(&self, bytes: &mut Vec<u8>) {
        proof {
            lemma_pow256_values();
        }
        push_le(bytes, *self as u64, 2);
    }
}

impl WireValue for u16 {
    proof fn lemma_round_trip(v: u16, rest: Seq<u8>) {
        lemma_pow256_values();
        lemma_le_round_trip(v as nat, 2);
        assert((v.wire() + rest).subrange(0, 2) =~= v.wire());
    }
}

impl TryParse for u32 {
    open spec fn parsed(bytes: Seq<u8>) -> Option<(u32, nat)> {
        if bytes.len() >= 4 {
            Some((le_value(bytes.subrange(0, 4)) as u32, 4))
        } else {
            None
        }
    }

    fn try_parse(value: &[u8]) -> (r: Result<(u32, &[u8]), ParseError>) {
        if value.len() < 4 {
            return Err(ParseError::ParseError);
        }
        let v = read_le(value, 4);
        proof {
            lemma_le_value_bound(value@.subrange(0, 4));
            lemma_pow256_values();
        }
        Ok((v as u32, vstd::slice::slice_subrange(value, 4, value.len())))
    }
}

impl Serialize for u32 {
    open spec fn wire(&self) -> Seq<u8> {
        le_bytes(*self as nat, 4)
    }

    fn serialize(&self) -> (r: Vec<u8>) {
        let mut out: Vec<u8> = Vec::new();
        self.serialize_into(&mut out);
        assert(out@ =~= self.wire());
        out
    }

    fn serialize_into(&self, bytes: &mut Vec<u8>) {
        proof {
            lemma_pow256_values();
        }
        push_le(bytes, *self as u64, 4);
    }
}

impl WireValue for u32 {
    proof fn lemma_round_trip(v: u32, rest: Seq<u8>) {
        lemma_pow256_values();
        lemma_le_round_trip(v as nat, 4);
        assert((v.wire() + rest).subrange(0, 4) =~= v.wire());
    }
}

impl TryParse for u64 {
    open spec fn parsed(bytes: Seq<u8>) -> Option<(u64, nat)> {
        if bytes.len() >= 8 {
            Some((le_value(bytes.subrange(0, 8)) as u64, 8))
        } else {
            None
        }
    }

    fn try_parse(value: &[u8]) -> (r: Result<(u64, &[u8]), ParseError>) {
        if value.len() < 8 {
            return Err(ParseError::ParseError);
        }
        let v = read_le(value, 8);
        proof {
            lemma_le_value_bound(value@.subrange(0, 8));
            lemma_pow256_values();
        }
        Ok((v as u64, vstd::slice::slice_subrange(value, 8, value.len())))
    }
}

impl Serialize for u64 {
    open spec fn wire(&self) -> Seq<u8> {
        le_bytes(*self as nat, 8)
    }

    fn serialize(&self) -> (r: Vec<u8>) {
        let mut out: Vec<u8> = Vec::new();
        self.serialize_into(&mut out);
        assert(out@ =~= self.wire());
        out
    }

    fn serialize_into(&self, bytes: &mut Vec<u8>) {
        proof {
            lemma_pow256_values();
        }
        push_le(bytes, *self as u64, 8);
    }
}

impl WireValue for u64 {
    proof fn lemma_round_trip(v: u64, rest: Seq<u8>) {
        lemma_pow256_values();
        lemma_le_round_trip(v as nat, 8);
        assert((v.wire() + rest).subrange(0, 8) =~= v.wire());
    }
}

impl TryParse for i8 {
    open spec fn parsed(bytes: Seq<u8>) -> Option<(i8, nat)> {
        if bytes.len() >= 1 {
            Some((signed_of(le_value(bytes.subrange(0, 1)), 0x100) as i8, 1))
        } else {
            None
        }
    }

    fn try_parse(value: &[u8]) -> (r: Result<(i8, &[u8]), ParseError>) {
        if value.len() < 1 {
            return Err(ParseError::ParseError);
        }
        let u = read_le(value, 1);
        proof {
            lemma_le_value_bound(value@.subrange(0, 1));
            lemma_pow256_values();
        }
        let v: i8 = if u >= 0x80 {
            ((u - 0x80) as i8) - i8::MAX - 1
        } else {
            u as i8
        };
        Ok((v, vstd::slice::slice_subrange(value, 1, value.len())))
    }
}

impl Serialize for i8 {
    open spec fn wire(&self) -> Seq<u8> {
        le_bytes(unsigned_of(*self as int, 0x100), 1)
    }

    fn serialize(&self) -> (r: Vec<u8>) {
        let mut out: Vec<u8> = Vec::new();
        self.serialize_into(&mut out);
        assert(out@ =~= self.wire());
        out
    }

    fn serialize_into(&self, bytes: &mut Vec<u8>) {
        proof {
            lemma_pow256_values();
        }
        let v = *self;
        let u: u64 = if v < 0 {
            ((v + i8::MAX + 1) as u64) + 0x80
        } else {
            v as u64
        };
        push_le(bytes, u, 1);
    }
}

impl WireValue for i8 {
    proof fn lemma_round_trip(v: i8, rest: Seq<u8>) {
        lemma_pow256_values();
        lemma_le_round_trip(unsigned_of(v as int, 0x100), 1);
        assert((v.wire() + rest).subrange(0, 1) =~= v.wire());
    }
}

impl TryParse for i16 {
    open spec fn parsed(bytes: Seq<u8>) -> Option<(i16, nat)> {
        if bytes.len() >= 2 {
            Some((signed_of(le_value(bytes.subrange(0, 2)), 0x1_0000) as i16, 2))
        } else {
            None
        }
    }

    fn try_parse(value: &[u8]) -> (r: Result<(i16, &[u8]), ParseError>) {
        if value.len() < 2 {
            return Err(ParseError::ParseError);
        }
        let u = read_le(value, 2);
        proof {
            lemma_le_value_bound(value@.subrange(0, 2));
            lemma_pow256_values();
        }
        let v: i16 = if u >= 0x8000 {
            ((u - 0x8000) as i16) - i16::MAX - 1
        } else {
            u as i16
        };
        Ok((v, vstd::slice::slice_subrange(value, 2, value.len())))
    }
}

impl Serialize for i16 {
    open spec fn wire(&self) -> Seq<u8> {
        le_bytes(unsigned_of(*self as int, 0x1_0000), 2)
    }

    fn serialize(&self) -> (r: Vec<u8>) {
        let mut out: Vec<u8> = Vec::new();
        self.serialize_into(&mut out);
        assert(out@ =~= self.wire());
        out
    }

    fn serialize_into(&self, bytes: &mut Vec<u8>) {
        proof {
            lemma_pow256_values();
        }
        let v = *self;
        let u: u64 = if v < 0 {
            ((v + i16::MAX + 1) as u64) + 0x8000
        } else {
            v as u64
        };
        push_le(bytes, u, 2);
    }
}

impl WireValue for i16 {
    proof fn lemma_round_trip(v: i16, rest: Seq<u8>) {
        lemma_pow256_values();
        lemma_le_round_trip(unsigned_of(v as int, 0x1_0000), 2);
        assert((v.wire() + rest).subrange(0, 2) =~= v.wire());
    }
}

impl TryParse for i32 {
    open spec fn parsed(bytes: Seq<u8>) -> Option<(i32, nat)> {
        if bytes.len() >= 4 {
            Some((signed_of(le_value(bytes.subrange(0, 4)), 0x1_0000_0000) as i32, 4))
        } else {
            None
        }
    }

    fn try_parse(value: &[u8]) -> (r: Result<(i32, &[u8]), ParseError>) {
        if value.len() < 4 {
            return Err(ParseError::ParseError);
        }
        let u = read_le(value, 4);
        proof {
            lemma_le_value_bound(value@.subrange(0, 4));
            lemma_pow256_values();
        }
        let v: i32 = if u >= 0x8000_0000 {
            ((u - 0x8000_0000) as i32) - i32::MAX - 1
        } else {
            u as i32
        };
        Ok((v, vstd::slice::slice_subrange(value, 4, value.len())))
    }
}

impl Serialize for i32 {
    open spec fn wire(&self) -> Seq<u8> {
        le_bytes(unsigned_of(*self as int, 0x1_0000_0000), 4)
    }

    fn serialize(&self) -> (r: Vec<u8>) {
        let mut out: Vec<u8> = Vec::new();
        self.serialize_into(&mut out);
        assert(out@ =~= self.wire());
        out
    }

    fn serialize_into(&self, bytes: &mut Vec<u8>) {
        proof {
            lemma_pow256_values();
        }
        let v = *self;
        let u: u64 = if v < 0 {
            ((v + i32::MAX + 1) as u64) + 0x8000_0000
        } else {
            v as u64
        };
        push_le(bytes, u, 4);
    }
}

impl WireValue for i32 {
    proof fn lemma_round_trip(v: i32, rest: Seq<u8>) {
        lemma_pow256_values();
        lemma_le_round_trip(unsigned_of(v as int, 0x1_0000_0000), 4);
        assert((v.wire() + rest).subrange(0, 4) =~= v.wire());
    }
}

impl TryParse for i64 {
    open spec fn parsed(bytes: Seq<u8>) -> Option<(i64, nat)> {
        if bytes.len() >= 8 {
            Some((signed_of(le_value(bytes.subrange(0, 8)), 0x1_0000_0000_0000_0000) as i64, 8))
        } else {
            None
        }
    }

    fn try_parse(value: &[u8]) -> (r: Result<(i64, &[u8]), ParseError>) {
        if value.len() < 8 {
            return Err(ParseError::ParseError);
        }
        let u = read_le(value, 8);
        proof {
            lemma_le_value_bound(value@.subrange(0, 8));
            lemma_pow256_values();
        }
        let v: i64 = if u >= 0x8000_0000_0000_0000 {
            ((u - 0x8000_0000_0000_0000) as i64) - i64::MAX - 1
        } else {
            u as i64
        };
        Ok((v, vstd::slice::slice_subrange(value, 8, value.len())))
    }
}

impl Serialize for i64 {
    open spec fn wire(&self) -> Seq<u8> {
        le_bytes(unsigned_of(*self as int, 0x1_0000_0000_0000_0000), 8)
    }

    fn serialize(&self) -> (r: Vec<u8>) {
        let mut out: Vec<u8> = Vec::new();
        self.serialize_into(&mut out);
        assert(out@ =~= self.wire());
        out
    }

    fn serialize_into(&self, bytes: &mut Vec<u8>) {
        proof {
            lemma_pow256_values();
        }
        let v = *self;
        let u: u64 = if v < 0 {
            ((v + i64::MAX + 1) as u64) + 0x8000_0000_0000_0000
        } else {
            v as u64
        };
        push_le(bytes, u, 8);
    }
}

impl WireValue for i64 {
    proof fn lemma_round_trip(v: i64, rest: Seq<u8>) {
        lemma_pow256_values();
        lemma_le_round_trip(unsigned_of(v as int, 0x1_0000_0000_0000_0000), 8);
        assert((v.wire() + rest).subrange(0, 8) =~= v.wire());
    }
}

impl TryParse for bool {
    open spec fn parsed(bytes: Seq<u8>) -> Option<(bool, nat)> {
        if bytes.len() >= 1 {
            Some((bytes[0] != 0, 1))
        } else {
            None
        }
    }

    fn try_parse(value: &[u8]) -> (r: Result<(bool, &[u8]), ParseError>) {
        match u8::try_parse(value) {
            Ok((data, remaining)) => {
                proof {
                    lemma_pow256_values();
                    assert(value@.subrange(0, 1).drop_first() =~= Seq::<u8>::empty());
                    assert(le_value(Seq::<u8>::empty()) == 0);
                    assert(le_value(value@.subrange(0, 1)) == value@[0]);
                }
                Ok((data != 0, remaining))
            },
            Err(e) => Err(e),
        }
    }
}

impl Serialize for bool {
    open spec fn wire(&self) -> Seq<u8> {
        seq![if *self { 1u8 } else { 0u8 }]
    }

    fn serialize(&self) -> (r: Vec<u8>) {
        let mut out: Vec<u8> = Vec::new();
        self.serialize_into(&mut out);
        assert(out@ =~= self.wire());
        out
    }

    fn serialize_into(&self, bytes: &mut Vec<u8>) {
        bytes.push(if *self { 1 } else { 0 });
        assert(bytes@ =~= old(bytes)@ + self.wire());
    }
}

impl WireValue for bool {
    proof fn lemma_round_trip(v: bool, rest: Seq<u8>) {
    }
}

impl<A: TryParse, B: TryParse> TryParse for (A, B) {
    open spec fn parsed(bytes: Seq<u8>) -> Option<((A, B), nat)> {
        match A::parsed(bytes) {
            Some((a, n)) => match B::parsed(bytes.subrange(n as int, bytes.len() as int)) {
                Some((b, m)) => Some(((a, b), n + m)),
                None => None,
            },
            None => None,
        }
    }

    fn try_parse(value: &[u8]) -> (r: Result<((A, B), &[u8]), ParseError>) {
        let (a, remaining) = match A::try_parse(value) {
            Ok(x) => x,
            Err(e) => return Err(e),
        };
        let (b, remaining) = match B::try_parse(remaining) {
            Ok(x) => x,
            Err(e) => return Err(e),
        };
        proof {
            let n = A::parsed(value@)->Some_0.1;
            let m = B::parsed(value@.subrange(n as int, value@.len() as int))->Some_0.1;
            assert(value@.subrange(n as int, value@.len() as int).subrange(m as int, value@.len() - n) =~= value@.subrange((n + m) as int, value@.len() as int));
        }
        Ok(((a, b), remaining))
    }
}

impl<A: Serialize, B: Serialize> Serialize for (A, B) {
    open spec fn wire(&self) -> Seq<u8> {
        self.0.wire() + self.1.wire()
    }

    fn serialize(&self) -> (r: Vec<u8>) {
        let mut out: Vec<u8> = Vec::new();
        self.serialize_into(&mut out);
        assert(out@ =~= self.wire());
        out
    }

    fn serialize_into(&self, bytes: &mut Vec<u8>) {
        self.0.serialize_into(bytes);
        self.1.serialize_into(bytes);
        assert(bytes@ =~= old(bytes)@ + self.wire());
    }
}

impl<A: WireValue, B: WireValue> WireValue for (A, B) {
    proof fn lemma_round_trip(v: (A, B), rest: Seq<u8>) {
        let w = v.wire() + rest;
        assert(w =~= v.0.wire() + (v.1.wire() + rest));
        A::lemma_round_trip(v.0, v.1.wire() + rest);
        assert(w.subrange(v.0.wire().len() as int, w.len() as int) =~= v.1.wire() + rest);
        B::lemma_round_trip(v.1, rest);
    }
}

impl<A: TryParse, B: TryParse, C: TryParse> TryParse for (A, B, C) {
    open spec fn parsed(bytes: Seq<u8>) -> Option<((A, B, C), nat)> {
        match <(A, B)>::parsed(bytes) {
            Some((ab, n)) => match C::parsed(bytes.subrange(n as int, bytes.len() as int)) {
                Some((c, m)) => Some(((ab.0, ab.1, c), n + m)),
                None => None,
            },
            None => None,
        }
    }

    fn try_parse(value: &[u8]) -> (r: Result<((A, B, C), &[u8]), ParseError>) {
        let ((a, b), remaining) = match <(A, B)>::try_parse(value) {
            Ok(x) => x,
            Err(e) => return Err(e),
        };
        let (c, remaining) = match C::try_parse(remaining) {
            Ok(x) => x,
            Err(e) => return Err(e),
        };
        proof {
            let n = <(A, B)>::parsed(value@)->Some_0.1;
            let m = C::parsed(value@.subrange(n as int, value@.len() as int))->Some_0.1;
            assert(value@.subrange(n as int, value@.len() as int).subrange(m as int, value@.len() - n) =~= value@.subrange((n + m) as int, value@.len() as int));
        }
        Ok(((a, b, c), remaining))
    }
}

impl<A: Serialize, B: Serialize, C: Serialize> Serialize for (A, B, C) {
    open spec fn wire(&self) -> Seq<u8> {
        self.0.wire() + self.1.wire() + self.2.wire()
    }

    fn serialize(&self) -> (r: Vec<u8>) {
        let mut out: Vec<u8> = Vec::new();
        self.serialize_into(&mut out);
        assert(out@ =~= self.wire());
        out
    }

    fn serialize_into(&self, bytes: &mut Vec<u8>) {
        self.0.serialize_into(bytes);
        self.1.serialize_into(bytes);
        self.2.serialize_into(bytes);
        assert(bytes@ =~= old(bytes)@ + self.wire());
    }
}

impl<A: WireValue, B: WireValue, C: WireValue> WireValue for (A, B, C) {
    proof fn lemma_round_trip(v: (A, B, C), rest: Seq<u8>) {
        let w = v.wire() + rest;
        let ab = (v.0, v.1);
        assert(w =~= ab.wire() + (v.2.wire() + rest));
        <(A, B)>::lemma_round_trip(ab, v.2.wire() + rest);
        assert(w.subrange(ab.wire().len() as int, w.len() as int) =~= v.2.wire() + rest);
        C::lemma_round_trip(v.2, rest);
    }
}

/// `k` values read one after another from the start of `bytes`, with the
/// number of bytes they take.
pub open spec fn parsed_list<T: TryParse>(bytes: Seq<u8>, k: nat) -> Option<(Seq<T>, nat)>
    decreases k,
{
    if k == 0 {
        Some((Seq::empty(), 0))
    } else {
        match parsed_list::<T>(bytes, (k - 1) as nat) {
            Some((items, n)) => if n <= bytes.len() {
                match T::parsed(bytes.subrange(n as int, bytes.len() as int)) {
                    Some((x, m)) => Some((items.push(x), n + m)),
                    None => None,
                }
            } else {
                None
            },
            None => None,
        }
    }
}

/// Parses a list of `list_length` values whose count was given elsewhere.
pub fn parse_list<T: TryParse>(data: &[u8], list_length: usize) -> (r: Result<(Vec<T>, &[u8]), ParseError>)
    ensures
        match parsed_list::<T>(data@, list_length as nat) {
            Some((items, n)) => r matches Ok((v, rest)) && v@ == items && n <= data@.len()
                && rest@ == data@.subrange(n as int, data@.len() as int),
            None => r is Err,
        },
{
    let mut remaining = data;
    let mut result: Vec<T> = Vec::new();
    let ghost mut consumed: nat = 0;
    let mut i: usize = 0;
    assert(data@.subrange(0, data@.len() as int) =~= data@);
    while i < list_length
        invariant
            i <= list_length,
            consumed <= data@.len(),
            parsed_list::<T>(data@, i as nat) == Some((result@, consumed)),
            remaining@ == data@.subrange(consumed as int, data@.len() as int),
        decreases list_length - i,
    {
        let (entry, new_remaining) = match T::try_parse(remaining) {
            Ok(x) => x,
            Err(e) => {
                proof {
                    lemma_parsed_list_stuck::<T>(data@, (i + 1) as nat, list_length as nat);
                }
                return Err(e);
            },
        };
        let ghost m = T::parsed(remaining@)->Some_0.1;
        result.push(entry);
        remaining = new_remaining;
        proof {
            assert(remaining@ =~= data@.subrange((consumed + m) as int, data@.len() as int));
            consumed = consumed + m;
        }
        i = i + 1;
    }
    Ok((result, remaining))
}

/// Once a list stops parsing, no longer list parses.
proof fn lemma_parsed_list_stuck<T: TryParse>(bytes: Seq<u8>, k: nat, j: nat)
    requires
        k <= j,
        parsed_list::<T>(bytes, k) is None,
    ensures
        parsed_list::<T>(bytes, j) is None,
    decreases j - k,
{
    if k < j {
        lemma_parsed_list_stuck::<T>(bytes, k, (j - 1) as nat);
    }
}

/// Splits `list_length` bytes off the start of `data`.
pub fn parse_u8_list(data: &[u8], list_length: usize) -> (r: Result<(&[u8], &[u8]), ParseError>)
    ensures
        data@.len() < list_length ==> r is Err,
        data@.len() >= list_length ==> (r matches Ok((a, b)) && a@ == data@.subrange(0, list_length as int)
            && b@ == data@.subrange(list_length as int, data@.len() as int)),
{
    if data.len() < list_length {
        Err(ParseError::ParseError)
    } else {
        Ok((vstd::slice::slice_subrange(data, 0, list_length), vstd::slice::slice_subrange(data, list_length, data.len())))
    }
}

/// The wire forms of `items` one after another.
pub open spec fn list_wire<T: Serialize>(items: Seq<T>) -> Seq<u8>
    decreases items.len(),
{
    if items.len() == 0 {
        Seq::empty()
    } else {
        list_wire(items.drop_last()) + items.last().wire()
    }
}

impl<T: Serialize> Serialize for Vec<T> {
    open spec fn wire(&self) -> Seq<u8> {
        list_wire(self@)
    }

    fn serialize(&self) -> (r: Vec<u8>) {
        let mut out: Vec<u8> = Vec::new();
        self.serialize_into(&mut out);
        assert(out@ =~= self.wire());
        out
    }

    fn serialize_into(&self, bytes: &mut Vec<u8>) {
        let mut i: usize = 0;
        while i < self.len()
            invariant
                i <= self@.len(),
                bytes@ == old(bytes)@ + list_wire(self@.subrange(0, i as int)),
            decreases self@.len() - i,
        {
            self[i].serialize_into(bytes);
            i = i + 1;
            assert(self@.subrange(0, i as int).drop_last() =~= self@.subrange(0, i - 1));
            assert(bytes@ =~= old(bytes)@ + list_wire(self@.subrange(0, i as int)));
        }
        assert(self@.subrange(0, self@.len() as int) =~= self@);
    }
}

/// Parsing the wire form of a list, whatever follows it, gives the list
/// back and takes exactly its bytes.
pub proof fn lemma_list_round_trip<T: WireValue>(items: Seq<T>, rest: Seq<u8>)
    ensures
        parsed_list::<T>(list_wire(items) + rest, items.len()) == Some((items, list_wire(items).len())),
    decreases items.len(),
{
    if items.len() > 0 {
        let init = items.drop_last();
        let x = items.last();
        let bytes = list_wire(items) + rest;
        assert(bytes =~= list_wire(init) + (x.wire() + rest));
        lemma_list_round_trip::<T>(init, x.wire() + rest);
        assert(bytes.subrange(list_wire(init).len() as int, bytes.len() as int) =~= x.wire() + rest);
        T::lemma_round_trip(x, rest);
        assert(init.push(x) =~= items);
    } else {
        assert(list_wire(items) + rest =~= rest);
    }
}

} // verus!
