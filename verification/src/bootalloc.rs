//! One-shot bump allocator over a single usable region, used before the
//! frame allocator exists.

use vstd::prelude::*;
use crate::layout::{aligned_to, align_up, lemma_common_pow2, PAGE_SIZE};

verus! {

/// The rounded value is the next frame boundary.
pub proof fn lemma_aligned_to_4096(v: int)
    ensures
        aligned_to(v, 4096) % 4096 == 0,
        v <= aligned_to(v, 4096) < v + 4096,
{
    vstd::arithmetic::div_mod::lemma_fundamental_div_mod(v, 4096);
    vstd::arithmetic::div_mod::lemma_mod_bound(v, 4096);
    let q = v / 4096;
    if v % 4096 == 0 {
        vstd::arithmetic::mul::lemma_mul_is_commutative(4096, q);
        vstd::arithmetic::div_mod::lemma_mod_multiples_basic(q, 4096);
    } else {
        assert(aligned_to(v, 4096) == 4096 * (q + 1));
        vstd::arithmetic::mul::lemma_mul_is_commutative(4096, q + 1);
        vstd::arithmetic::div_mod::lemma_mod_multiples_basic(q + 1, 4096);
    }
}

/// Rounding up to a frame boundary is monotone.
pub proof fn lemma_aligned_to_mono(a: int, b: int)
    requires
        a <= b,
    ensures
        aligned_to(a, 4096) <= aligned_to(b, 4096),
{
    lemma_aligned_to_4096(a);
    lemma_aligned_to_4096(b);
    crate::layout::lemma_aligned_le(aligned_to(a, 4096), aligned_to(b, 4096));
}

/// Boot-time bump allocator: hands out chunks from `[start, end)` and
/// never reclaims them.
pub struct BootAllocator {
    start: u64,
    current: u64,
    end: u64,
}

impl BootAllocator {
    pub closed spec fn spec_start(&self) -> u64 {
        self.start
    }

    pub closed spec fn spec_current(&self) -> u64 {
        self.current
    }

    pub closed spec fn spec_end(&self) -> u64 {
        self.end
    }

    pub open spec fn wf(&self) -> bool {
        self.spec_start() <= self.spec_current()
    }

    /// Sets up the allocator over `[start, end)`; the start is rounded up
    /// to a frame boundary first.
    pub fn init(start: u64, end: u64) -> (r: BootAllocator)
        requires
            start + 4095 <= u64::MAX,
        ensures
            r.wf(),
            r.spec_start() % 4096 == 0,
            start <= r.spec_start() < start + 4096,
            r.spec_current() == r.spec_start(),
            r.spec_end() == end,
    {
        proof {
            lemma_common_pow2();
        }
        let aligned = align_up(start, PAGE_SIZE as u64);
        BootAllocator { start: aligned, current: aligned, end }
    }

    /// Carves the next `size` bytes, aligned to `align`, out of the boot
    /// region. Returns the chunk's address, or `None` once the aligned
    /// cursor and size no longer fit below the region's end (or when the
    /// cursor is the never-initialized marker 0).
    pub fn alloc_bytes(&mut self, size: usize, align: usize) -> (r: Option<u64>)
        requires
            old(self).wf(),
        ensures
            final(self).wf(),
            final(self).spec_start() == old(self).spec_start(),
            final(self).spec_end() == old(self).spec_end(),
            ({
                let al = if align == 0 {
                    1int
                } else {
                    align as int
                };
                let cur = aligned_to(old(self).spec_current() as int, al);
                match r {
                    Some(addr) => {
                        &&& addr == cur
                        &&& addr != 0
                        &&& addr + size <= old(self).spec_end()
                        &&& final(self).spec_current() == addr + size
                    },
                    None => *final(self) == *old(self) && (cur == 0 || cur + size > old(
                        self,
                    ).spec_end()),
                }
            }),
    {
        let al: u64 = if align == 0 {
            1
        } else {
            align as u64
        };
        let rem = self.current % al;
        let cur = if rem == 0 {
            self.current
        } else {
            if al - rem > u64::MAX - self.current {
                proof {
                    assert(aligned_to(self.current as int, al as int) > u64::MAX >= self.end);
                }
                return None;
            }
            self.current + (al - rem)
        };
        if cur == 0 {
            return None;
        }
        if size as u64 > u64::MAX - cur {
            return None;
        }
        let next = cur + size as u64;
        if next > self.end {
            return None;
        }
        proof {
            assert(cur >= self.current);
        }
        self.current = next;
        Some(cur)
    }

    /// Page-sized convenience allocation.
    pub fn alloc_pages(&mut self, pages: usize) -> (r: Option<u64>)
        requires
            old(self).wf(),
            pages * 4096 <= usize::MAX,
        ensures
            final(self).wf(),
            final(self).spec_start() == old(self).spec_start(),
            final(self).spec_end() == old(self).spec_end(),
            ({
                let cur = aligned_to(old(self).spec_current() as int, 4096);
                match r {
                    Some(addr) => {
                        &&& addr == cur
                        &&& addr != 0
                        &&& addr + pages * 4096 <= old(self).spec_end()
                        &&& final(self).spec_current() == addr + pages * 4096
                    },
                    None => *final(self) == *old(self) && (cur == 0 || cur + pages * 4096 > old(
                        self,
                    ).spec_end()),
                }
            }),
    {
        self.alloc_bytes(pages * PAGE_SIZE, PAGE_SIZE)
    }

    /// The range consumed so far, for the frame allocator to re-reserve.
    pub fn used_range(&self) -> (r: (u64, u64))
        ensures
            r.0 == self.spec_start(),
            r.1 == self.spec_current(),
    {
        (self.start, self.current)
    }
}

} // verus!
