//! Outbound framing: gathering a request and filling in its length field.
use vstd::prelude::*;

use crate::errors::ConnectionError;
use crate::wire::{append_bytes, write_u16_le};

verus! {

/// The bytes of `bufs` one after another.
pub open spec fn flatten(bufs: Seq<Vec<u8>>) -> Seq<u8>
    decreases bufs.len(),
{
    if bufs.len() == 0 {
        Seq::empty()
    } else {
        flatten(bufs.drop_last()) + bufs.last()@
    }
}

/// The four little-endian bytes of `v`.
pub open spec fn le32(v: nat) -> Seq<u8> {
    seq![(v % 256) as u8, ((v / 256) % 256) as u8, ((v / 65536) % 256) as u8, ((v / 16777216) % 256) as u8]
}

/// The request `req` as it goes on the wire, its length counted in 4-byte
/// words. Up to 65535 words the length stands in bytes 2 and 3; longer
/// requests take the big form, where those bytes are zero and a 32-bit
/// length (counting the four inserted bytes) follows the first word. A
/// request longer than `max_bytes` has no wire form.
pub open spec fn framed_request(req: Seq<u8>, max_bytes: nat) -> Option<Seq<u8>> {
    let words = req.len() / 4;
    if words <= 0xffff && req.len() <= max_bytes {
        Some(req.update(2, (words % 256) as u8).update(3, (words / 256) as u8))
    } else if (words + 1) * 4 <= max_bytes && words + 1 <= u32::MAX {
        Some(seq![req[0], req[1], 0u8, 0u8] + le32((words + 1) as nat) + req.subrange(4, req.len() as int))
    } else {
        None
    }
}

/// Gathers `bufs` into one buffer.
pub fn gather(bufs: &Vec<Vec<u8>>) -> (r: Vec<u8>)
    ensures
        r@ == flatten(bufs@),
{
    let mut out: Vec<u8> = Vec::new();
    let mut i: usize = 0;
    while i < bufs.len()
        invariant
            i <= bufs@.len(),
            out@ == flatten(bufs@.subrange(0, i as int)),
        decreases bufs@.len() - i,
    {
        append_bytes(&mut out, bufs[i].as_slice());
        i = i + 1;
        assert(bufs@.subrange(0, i as int).drop_last() =~= bufs@.subrange(0, i - 1));
    }
    assert(bufs@.subrange(0, bufs@.len() as int) =~= bufs@);
    out
}

/// Gathers a request and fills in its length field, in the small form
/// where it fits and in the big form otherwise; fails where the request is
/// longer than `maximum_request_bytes`.
pub fn compute_length_field(bufs: &Vec<Vec<u8>>, maximum_request_bytes: usize) -> (r: Result<Vec<u8>, ConnectionError>)
    requires
        flatten(bufs@).len() >= 4,
        flatten(bufs@).len() % 4 == 0,
    ensures
        match framed_request(flatten(bufs@), maximum_request_bytes as nat) {
            Some(w) => r matches Ok(v) && v@ == w,
            None => r == Err::<Vec<u8>, ConnectionError>(ConnectionError::MaximumRequestLengthExceeded),
        },
{
    let mut req = gather(bufs);
    let length = req.len();
    let words = length / 4;
    if words <= 0xffff && length <= maximum_request_bytes {
        write_u16_le(&mut req, 2, words as u16);
        let ghost w = flatten(bufs@);
        assert(req@ =~= w.update(2, (words % 256) as u8).update(3, (words / 256) as u8));
        return Ok(req);
    }
    if maximum_request_bytes < 4 || words >= 0xffff_ffff || words > maximum_request_bytes / 4 - 1 {
        return Err(ConnectionError::MaximumRequestLengthExceeded);
    }
    let total = (words + 1) as u32;
    let mut out: Vec<u8> = Vec::new();
    out.push(req[0]);
    out.push(req[1]);
    out.push(0);
    out.push(0);
    out.push((total % 256) as u8);
    out.push(((total / 256) % 256) as u8);
    out.push(((total / 65536) % 256) as u8);
    out.push((total / 16777216) as u8);
    let rest = vstd::slice::slice_subrange(req.as_slice(), 4, length);
    append_bytes(&mut out, rest);
    let ghost w = flatten(bufs@);
    assert(out@ =~= seq![w[0], w[1], 0u8, 0u8] + le32((words + 1) as nat) + w.subrange(4, w.len() as int));
    Ok(out)
}

} // verus!
