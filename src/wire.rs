//! Little-endian integer helpers shared by the framer, the demultiplexer and
//! the request serializer.
use vstd::prelude::*;

verus! {

/// The value of two bytes read in little-endian order.
pub open spec fn u16_le(b0: u8, b1: u8) -> nat {
    b0 as nat + 256 * (b1 as nat)
}

/// The value of four bytes read in little-endian order.
pub open spec fn u32_le(b0: u8, b1: u8, b2: u8, b3: u8) -> nat {
    u16_le(b0, b1) + 65536 * u16_le(b2, b3)
}

/// Reads the `u16` stored little-endian at `offset`.
pub fn read_u16_le(data: &[u8], offset: usize) -> (r: u16)
    requires
        offset + 2 <= data@.len(),
    ensures
        r as nat == u16_le(data@[offset as int], data@[offset + 1]),
{
    data[offset] as u16 + 256 * (data[offset + 1] as u16)
}

/// Reads the `u32` stored little-endian at `offset`.
pub fn read_u32_le(data: &[u8], offset: usize) -> (r: u32)
    requires
        offset + 4 <= data@.len(),
    ensures
        r as nat == u32_le(data@[offset as int], data@[offset + 1], data@[offset + 2], data@[offset + 3]),
{
    // The slice length fits in `usize`, and so does `offset + 2` below it.
    let _len = data.len();
    let lo = read_u16_le(data, offset);
    let hi = read_u16_le(data, offset + 2);
    lo as u32 + 65536 * (hi as u32)
}

/// Appends `data` to `out`.
pub fn append_bytes(out: &mut Vec<u8>, data: &[u8])
    ensures
        final(out)@ == old(out)@ + data@,
{
    let mut i: usize = 0;
    while i < data.len()
        invariant
            i <= data@.len(),
            out@ == old(out)@ + data@.subrange(0, i as int),
        decreases data@.len() - i,
    {
        out.push(data[i]);
        i = i + 1;
        assert(data@.subrange(0, i as int) =~= data@.subrange(0, i - 1).push(data@[i - 1]));
    }
    assert(data@.subrange(0, data@.len() as int) =~= data@);
}

/// Writes `value` little-endian into `out` at `offset`.
pub fn write_u16_le(out: &mut Vec<u8>, offset: usize, value: u16)
    requires
        offset + 2 <= old(out)@.len(),
    ensures
        final(out)@.len() == old(out)@.len(),
        u16_le(final(out)@[offset as int], final(out)@[offset + 1]) == value as nat,
        forall|k: int| 0 <= k < old(out)@.len() && k != offset && k != offset + 1 ==> final(out)@[k] == old(out)@[k],
{
    let _len = out.len();
    out.set(offset, (value % 256) as u8);
    out.set(offset + 1, (value / 256) as u8);
}

} // verus!
