//! Hands out resource IDs from the range the server granted.
use vstd::prelude::*;

use crate::errors::{ConnectError, ReplyOrIdError};

verus! {

/// The lowest set bit of `mask`: the step between two IDs.
pub open spec fn increment_of(mask: u32) -> u32 {
    mask & (!mask).wrapping_add(1)
}

/// The last ID of a range of `count` IDs from `start`, cut at the largest
/// `u32`.
pub open spec fn range_end(start: u32, count: u32, increment: u32) -> int {
    let end = start + (count - 1) * increment;
    if end > u32::MAX { u32::MAX as int } else { end }
}

/// Allocator of resource IDs. Within one range (an epoch), IDs come out in
/// strictly increasing order, so none is handed out twice.
pub struct IdAllocator {
    next_id: u64,
    max_id: u64,
    increment: u32,
    issued: Ghost<Set<u32>>,
}

impl IdAllocator {
    /// The next ID to hand out.
    pub closed spec fn next(&self) -> u64 {
        self.next_id
    }

    /// The last ID of the current range.
    pub closed spec fn max(&self) -> u64 {
        self.max_id
    }

    /// The step between two IDs.
    pub closed spec fn step(&self) -> u32 {
        self.increment
    }

    /// The IDs handed out in the current range.
    pub closed spec fn issued(&self) -> Set<u32> {
        self.issued@
    }

    /// The invariant of the allocator.
    pub closed spec fn wf(&self) -> bool {
        &&& self.increment > 0
        &&& self.max_id <= u32::MAX
        &&& self.next_id <= u32::MAX as int + self.increment as int + 1
        &&& forall|id: u32| self.issued@.contains(id) ==> id < self.next_id
    }

    /// An allocator for the IDs `base | k` where `k` runs over `mask` in
    /// steps of its lowest set bit; a zero mask leaves no ID at all.
    pub fn new(id_base: u32, id_mask: u32) -> (r: Result<Self, ConnectError>)
        ensures
            id_mask == 0 <==> r is Err,
            r matches Err(e) ==> e == ConnectError::ZeroIdMask,
            r matches Ok(a) ==> {
                &&& a.wf()
                &&& a.next() == id_base
                &&& a.max() == (id_base | id_mask)
                &&& a.step() == increment_of(id_mask)
                &&& a.issued().is_empty()
            },
    {
        if id_mask == 0 {
            return Err(ConnectError::ZeroIdMask);
        }
        let increment = id_mask & (!id_mask).wrapping_add(1);
        assert(id_mask != 0 ==> id_mask & (!id_mask).wrapping_add(1) != 0) by (bit_vector);
        Ok(IdAllocator {
            next_id: id_base as u64,
            max_id: (id_base | id_mask) as u64,
            increment,
            issued: Ghost(Set::empty()),
        })
    }

    /// Hands out the next ID of the current range; `None` once the range
    /// is used up.
    pub fn generate_id(&mut self) -> (r: Option<u32>)
        requires
            old(self).wf(),
        ensures
            final(self).wf(),
            final(self).max() == old(self).max(),
            final(self).step() == old(self).step(),
            old(self).next() > old(self).max() ==> r is None && *final(self) == *old(self),
            old(self).next() <= old(self).max() ==> {
                &&& r == Some(old(self).next() as u32)
                &&& !old(self).issued().contains(old(self).next() as u32)
                &&& final(self).issued() == old(self).issued().insert(old(self).next() as u32)
                &&& final(self).next() == old(self).next() + old(self).step()
            },
    {
        if self.next_id > self.max_id {
            return None;
        }
        let id = self.next_id as u32;
        self.next_id = self.next_id + self.increment as u64;
        self.issued = Ghost(self.issued@.insert(id));
        Some(id)
    }

    /// Starts a new range of `count` IDs from `start`, as the server's
    /// answer to a request for more IDs gave it; a count of zero means that
    /// the server has none left.
    pub fn update_xid_range(&mut self, start: u32, count: u32) -> (r: Result<(), ReplyOrIdError>)
        requires
            old(self).wf(),
        ensures
            final(self).wf(),
            final(self).step() == old(self).step(),
            count == 0 ==> (r matches Err(ReplyOrIdError::IdsExhausted)) && *final(self) == *old(self),
            count > 0 ==> {
                &&& r is Ok
                &&& final(self).next() == start
                &&& final(self).max() == range_end(start, count, old(self).step())
                &&& final(self).issued().is_empty()
            },
    {
        if count == 0 {
            return Err(ReplyOrIdError::IdsExhausted);
        }
        let c: u64 = count as u64 - 1;
        let inc: u64 = self.increment as u64;
        assert(c * inc <= 0xffff_ffff * 0xffff_ffff) by (nonlinear_arith)
            requires c <= 0xffff_ffff, inc <= 0xffff_ffff;
        let span: u64 = c * inc;
        let end = span + start as u64;
        self.max_id = if end > u32::MAX as u64 { u32::MAX as u64 } else { end };
        self.next_id = start as u64;
        self.issued = Ghost(Set::empty());
        Ok(())
    }
}

} // verus!
