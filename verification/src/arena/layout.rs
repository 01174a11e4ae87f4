//! Size and alignment requests, and byte-level access to arena memory.

use vstd::prelude::*;
use crate::codec::ArenaValue;

verus! {

/// A request for `size` bytes aligned to `align`.
#[derive(Debug, Clone, Copy, PartialEq, Eq, Structural)]
pub struct ArenaLayout {
    pub size: usize,
    pub align: usize,
}

impl ArenaLayout {
    /// The layout of a value of type `T`.
    pub fn of<T: ArenaValue>() -> (r: ArenaLayout)
        ensures
            r.size as nat == T::spec_size(),
            r.align as nat == T::spec_align(),
    {
        ArenaLayout { size: T::size(), align: T::align() }
    }

    pub fn from_size_align(size: usize, align: usize) -> (r: ArenaLayout)
        ensures
            r == (ArenaLayout { size, align }),
    {
        ArenaLayout { size, align }
    }
}

/// `mem` with the bytes starting at `off` replaced by `data`.
pub open spec fn splice(mem: Seq<u8>, off: int, data: Seq<u8>) -> Seq<u8> {
    mem.subrange(0, off) + data + mem.subrange(off + data.len(), mem.len() as int)
}

/// Replacing bytes before `off` leaves the bytes from `off` on untouched.
pub proof fn lemma_splice_preserves_later(mem: Seq<u8>, at: int, data: Seq<u8>, off: int, n: int)
    requires
        0 <= at,
        at + data.len() <= off,
        0 <= n,
        off + n <= mem.len(),
    ensures
        splice(mem, at, data).subrange(off, off + n) == mem.subrange(off, off + n),
{
    assert(splice(mem, at, data).subrange(off, off + n) =~= mem.subrange(off, off + n));
}

/// Replacing a range of bytes leaves every range disjoint from it untouched.
pub proof fn lemma_splice_disjoint(mem: Seq<u8>, at: int, data: Seq<u8>, off: int, n: int)
    requires
        0 <= at,
        at + data.len() <= mem.len(),
        0 <= off,
        0 <= n,
        off + n <= mem.len(),
        at + data.len() <= off || off + n <= at,
    ensures
        splice(mem, at, data).subrange(off, off + n) == mem.subrange(off, off + n),
        splice(mem, at, data).len() == mem.len(),
{
    assert(splice(mem, at, data).subrange(off, off + n) =~= mem.subrange(off, off + n));
}

/// Copies `data` into `mem` starting at `off`.
pub fn copy_into(mem: &mut Vec<u8>, off: usize, data: &[u8])
    requires
        off + data@.len() <= old(mem)@.len(),
    ensures
        final(mem)@ == splice(old(mem)@, off as int, data@),
{
    let n = data.len();
    let mlen = mem.len();
    let mut i: usize = 0;
    while i < n
        invariant
            n == data@.len(),
            mlen == mem@.len(),
            i <= n,
            off + n <= mem@.len(),
            mem@.len() == old(mem)@.len(),
            forall|j: int|
                0 <= j < mem@.len() ==> #[trigger] mem@[j] == (if off <= j < off + i {
                    data@[j - off]
                } else {
                    old(mem)@[j]
                }),
        decreases n - i,
    {
        mem.set(off + i, data[i]);
        i = i + 1;
    }
    assert(mem@ =~= splice(old(mem)@, off as int, data@));
}

/// The `n` bytes of `mem` starting at `off`.
pub fn read_bytes(mem: &Vec<u8>, off: usize, n: usize) -> (r: Vec<u8>)
    requires
        off + n <= mem@.len(),
    ensures
        r@ == mem@.subrange(off as int, off + n),
{
    let mut out: Vec<u8> = Vec::new();
    let mlen = mem.len();
    let mut i: usize = 0;
    while i < n
        invariant
            mlen == mem@.len(),
            i <= n,
            off + n <= mem@.len(),
            out@ == mem@.subrange(off as int, off + i),
        decreases n - i,
    {
        out.push(mem[off + i]);
        i = i + 1;
        assert(out@ =~= mem@.subrange(off as int, off + i));
    }
    out
}

} // verus!
