//! Reading another process's memory.

use vstd::prelude::*;

verus! {

/// The largest read that is ever issued: a bound against corrupt sizes
/// read out of the target.
pub const MAX_READ: usize = 524288;

/// Reads bytes out of a target's address space.
pub trait ProcessReader {
    /// The `len` bytes at `addr`, or `None` where some of them are not
    /// mapped.  Implementors checked by Verus define it; the default only
    /// lets implementors outside verified code (a live process) compile,
    /// and nothing is proved of them.
    open spec fn bytes_at(&self, addr: u64, len: usize) -> Option<Seq<u8>> {
        None
    }

    fn read(&self, addr: u64, len: usize) -> (r: Option<Vec<u8>>)
        ensures
            match self.bytes_at(addr, len) {
                Some(b) => b.len() == len && (r matches Some(v) && v@ == b),
                None => r is None,
            },
    ;
}

/// A target that can be held still while it is read.
pub trait Attachable: ProcessReader {
    /// How many times the target has been released.  Implementors checked
    /// by Verus define it; see `ProcessReader::bytes_at` on the default.
    open spec fn detach_count(&self) -> nat {
        0
    }

    /// Stops the target; `false` when that did not succeed, in which case
    /// reads may observe a running target.
    fn attach(&mut self) -> (r: bool)
        ensures
            final(self).detach_count() == old(self).detach_count(),
            forall|a: u64, l: usize| #[trigger]
                final(self).bytes_at(a, l) == old(self).bytes_at(a, l),
    ;

    /// Releases the target.
    fn detach(&mut self)
        ensures
            final(self).detach_count() == old(self).detach_count() + 1,
            forall|a: u64, l: usize| #[trigger]
                final(self).bytes_at(a, l) == old(self).bytes_at(a, l),
    ;
}

/// Why a sample failed.
#[derive(Clone, Copy, Debug, PartialEq, Eq, Structural)]
pub enum SampleError {
    /// Some byte asked for is not mapped in the target.
    UnreadableRegion,
    /// A read longer than `MAX_READ` was asked for.
    TooLarge,
    /// The innermost frame lies outside the captured stack: the target is
    /// not running user code right now.
    NoLivestack,
}

/// What a capped read of `len` bytes at `addr` yields; addresses past
/// the end of the address space are unreadable.
pub open spec fn fetch<R: ProcessReader>(rd: &R, addr: int, len: int) -> Result<Seq<u8>, SampleError> {
    if len > MAX_READ {
        Err(SampleError::TooLarge)
    } else if addr < 0 || addr > u64::MAX || len < 0 {
        Err(SampleError::UnreadableRegion)
    } else {
        match rd.bytes_at(addr as u64, len as usize) {
            Some(b) => Ok(b),
            None => Err(SampleError::UnreadableRegion),
        }
    }
}

/// Reads `len` bytes at `addr`.  A read longer than `MAX_READ` fails with
/// `TooLarge` before the target is asked for anything.
pub fn read_remote<R: ProcessReader>(rd: &R, addr: u64, len: usize) -> (r: Result<Vec<u8>, SampleError>)
    ensures
        match fetch(rd, addr as int, len as int) {
            Ok(b) => b.len() == len && (r matches Ok(v) && v@ == b),
            Err(e) => r == Err::<Vec<u8>, SampleError>(e),
        },
        len > MAX_READ ==> r == Err::<Vec<u8>, SampleError>(SampleError::TooLarge),
{
    if len > MAX_READ {
        return Err(SampleError::TooLarge);
    }
    match rd.read(addr, len) {
        Some(v) => Ok(v),
        None => Err(SampleError::UnreadableRegion),
    }
}

/// The unsigned little-endian number that `b` holds.
pub open spec fn le_value(b: Seq<u8>) -> nat
    decreases b.len(),
{
    if b.len() == 0 {
        0
    } else {
        b[0] as nat + 256 * le_value(b.drop_first())
    }
}

proof fn lemma_le_bound(b: Seq<u8>)
    ensures
        le_value(b) < pow256(b.len()),
    decreases b.len(),
{
    if b.len() > 0 {
        lemma_le_bound(b.drop_first());
    }
}

pub open spec fn pow256(n: nat) -> nat
    decreases n,
{
    if n == 0 {
        1
    } else {
        256 * pow256((n - 1) as nat)
    }
}

proof fn lemma_pow256_mono(a: nat, b: nat)
    requires
        a <= b,
    ensures
        pow256(a) <= pow256(b),
    decreases b,
{
    if a < b {
        lemma_pow256_mono(a, (b - 1) as nat);
    }
}

/// The 8-byte little-endian word at `off` in `b`.
pub open spec fn word_at(b: Seq<u8>, off: int) -> nat {
    le_value(b.subrange(off, off + 8))
}

/// Decodes the 8-byte little-endian word at `off` in `b`.
pub fn read_word(b: &Vec<u8>, off: usize) -> (r: u64)
    requires
        off + 8 <= b@.len(),
    ensures
        r as nat == word_at(b@, off as int),
{
    let n = b.len();
    let mut acc: u64 = 0;
    let mut i: usize = 8;
    proof {
        assert(b@.subrange(off + 8, off + 8) =~= Seq::<u8>::empty());
        reveal_with_fuel(pow256, 9);
        assert(pow256(8) == 0x1_0000_0000_0000_0000);
    }
    while i > 0
        invariant
            i <= 8,
            off + 8 <= b@.len(),
            n == b@.len(),
            acc as nat == le_value(b@.subrange(off + i, off + 8)),
            pow256(8) == 0x1_0000_0000_0000_0000,
        decreases i,
    {
        let ghost tail = b@.subrange(off + i, off + 8);
        let ghost next = b@.subrange(off + i - 1, off + 8);
        assert(next.drop_first() =~= tail);
        proof {
            lemma_le_bound(next);
            lemma_pow256_mono(next.len(), 8);
        }
        let byte = b[off + i - 1];
        assert(le_value(next) == byte as nat + 256 * acc as nat);
        acc = byte as u64 + 256 * acc;
        i = i - 1;
    }
    acc
}

} // verus!
