//! A target made of byte regions held in memory.

use crate::remote::{Attachable, ProcessReader};
use vstd::prelude::*;

verus! {

/// Bytes mapped at `start`.
#[derive(Clone, Debug)]
pub struct Region {
    pub start: u64,
    pub bytes: Vec<u8>,
}

/// The `len` bytes at `addr` out of the first region of `regions` that
/// holds all of them.
pub open spec fn region_bytes(regions: Seq<Region>, addr: u64, len: usize) -> Option<Seq<u8>>
    decreases regions.len(),
{
    if regions.len() == 0 {
        None
    } else {
        let r = regions[0];
        if r.start <= addr && (addr - r.start) + len <= r.bytes@.len() {
            let lo = addr - r.start;
            Some(r.bytes@.subrange(lo, lo + len))
        } else {
            region_bytes(regions.drop_first(), addr, len)
        }
    }
}

/// An attach or a detach, as a target saw it.
#[derive(Clone, Copy, Debug, PartialEq, Eq, Structural)]
pub enum TraceeEvent {
    Attached,
    Detached,
}

pub open spec fn count_detached(log: Seq<TraceeEvent>) -> nat
    decreases log.len(),
{
    if log.len() == 0 {
        0
    } else {
        count_detached(log.drop_last()) + if log.last() == TraceeEvent::Detached {
            1nat
        } else {
            0nat
        }
    }
}

/// A target whose memory is a list of regions and which records every
/// attach and detach.
#[derive(Clone, Debug)]
pub struct MemoryImage {
    pub regions: Vec<Region>,
    pub log: Vec<TraceeEvent>,
}

impl MemoryImage {
    pub fn new(regions: Vec<Region>) -> (r: MemoryImage)
        ensures
            r.regions@ == regions@,
            r.log@.len() == 0,
    {
        MemoryImage { regions, log: Vec::new() }
    }

    /// How many times the target has been released.
    pub fn detaches(&self) -> (r: usize)
        ensures
            r == count_detached(self.log@),
    {
        let mut n: usize = 0;
        let mut i: usize = 0;
        assert(self.log@.take(0) =~= Seq::<TraceeEvent>::empty());
        while i < self.log.len()
            invariant
                i <= self.log@.len(),
                n == count_detached(self.log@.take(i as int)),
                n <= i,
            decreases self.log.len() - i,
        {
            assert(self.log@.take(i + 1).drop_last() =~= self.log@.take(i as int));
            if self.log[i] == TraceeEvent::Detached {
                n = n + 1;
            }
            i = i + 1;
        }
        assert(self.log@.take(i as int) =~= self.log@);
        n
    }
}

impl ProcessReader for MemoryImage {
    open spec fn bytes_at(&self, addr: u64, len: usize) -> Option<Seq<u8>> {
        region_bytes(self.regions@, addr, len)
    }

    fn read(&self, addr: u64, len: usize) -> (r: Option<Vec<u8>>) {
        let mut i: usize = 0;
        assert(self.regions@.subrange(0, self.regions@.len() as int) =~= self.regions@);
        while i < self.regions.len()
            invariant
                i <= self.regions@.len(),
                region_bytes(self.regions@, addr, len) == region_bytes(
                    self.regions@.subrange(i as int, self.regions@.len() as int),
                    addr,
                    len,
                ),
            decreases self.regions.len() - i,
        {
            let ghost rest = self.regions@.subrange(i as int, self.regions@.len() as int);
            assert(rest[0] == self.regions@[i as int]);
            assert(rest.drop_first() =~= self.regions@.subrange(i + 1, self.regions@.len() as int));
            let r = &self.regions[i];
            let n = r.bytes.len();
            if r.start <= addr && addr - r.start <= n as u64 && n - ((addr - r.start) as usize)
                >= len {
                let lo = (addr - r.start) as usize;
                let mut out: Vec<u8> = Vec::new();
                let mut k: usize = 0;
                while k < len
                    invariant
                        k <= len,
                        lo + len <= n,
                        n == r.bytes@.len(),
                        out@ =~= r.bytes@.subrange(lo as int, lo + k),
                    decreases len - k,
                {
                    out.push(r.bytes[lo + k]);
                    k = k + 1;
                }
                return Some(out);
            }
            i = i + 1;
        }
        None
    }
}

impl Attachable for MemoryImage {
    open spec fn detach_count(&self) -> nat {
        count_detached(self.log@)
    }

    fn attach(&mut self) -> (r: bool) {
        self.log.push(TraceeEvent::Attached);
        assert(self.log@.drop_last() =~= old(self).log@);
        true
    }

    fn detach(&mut self) {
        self.log.push(TraceeEvent::Detached);
        assert(self.log@.drop_last() =~= old(self).log@);
    }
}

} // verus!
