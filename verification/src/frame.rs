//! Frame allocator: one bit per 4 KiB frame from address 0 up to the
//! highest usable address; a set bit means the frame is unavailable.

use vstd::prelude::*;
use crate::bootalloc::BootAllocator;
use crate::layout::aligned_to;
use crate::region::{NormalizedMap, PhysRegion, RegionKind};

verus! {

/// Bit `b` of word `w`.
spec fn word_bit(w: u64, b: u64) -> bool {
    (w >> b) & 1 == 1
}

proof fn lemma_word_bit_max(b: u64)
    by (bit_vector)
    requires
        b < 64,
    ensures
        word_bit(u64::MAX, b),
{
}

proof fn lemma_word_bit_or(w: u64, b: u64, j: u64)
    by (bit_vector)
    requires
        b < 64,
        j < 64,
    ensures
        word_bit(w | (1u64 << b), j) == (j == b || word_bit(w, j)),
{
}

proof fn lemma_word_bit_and_not(w: u64, b: u64, j: u64)
    by (bit_vector)
    requires
        b < 64,
        j < 64,
    ensures
        word_bit(w & !(1u64 << b), j) == (j != b && word_bit(w, j)),
{
}

proof fn lemma_word_bit_test(w: u64, b: u64)
    by (bit_vector)
    requires
        b < 64,
    ensures
        (w & (1u64 << b) != 0) == word_bit(w, b),
{
}

/// Word and bit position of frame `idx` fit the bitmap bookkeeping.
proof fn lemma_word_index(idx: int, fc: int)
    requires
        0 <= idx < fc,
    ensures
        0 <= idx / 64 < (fc + 63) / 64,
        0 <= idx % 64 < 64,
{
    vstd::arithmetic::div_mod::lemma_fundamental_div_mod(idx, 64);
    vstd::arithmetic::div_mod::lemma_mod_bound(idx, 64);
    vstd::arithmetic::div_mod::lemma_fundamental_div_mod(fc + 63, 64);
    vstd::arithmetic::div_mod::lemma_mod_bound(fc + 63, 64);
    let q = idx / 64;
    let qf = (fc + 63) / 64;
    if q >= qf {
        assert(64 * q >= 64 * qf) by (nonlinear_arith)
            requires
                q >= qf,
        ;
        assert(idx >= 64 * qf);
        assert(fc + 63 == 64 * qf + (fc + 63) % 64);
        assert(idx >= fc + 63 - 63);
        assert(false);
    }
    assert(64 * q >= 0) by (nonlinear_arith)
        requires
            q >= 0,
    ;
}

/// The highest end address of any usable-RAM span.
pub open spec fn max_usable_end(s: Seq<PhysRegion>) -> int
    decreases s.len(),
{
    if s.len() == 0 {
        0
    } else {
        let rest = max_usable_end(s.drop_last());
        if s.last().kind == RegionKind::UsableRam && s.last().end > rest {
            s.last().end as int
        } else {
            rest
        }
    }
}

/// Every usable span ends at or below the recorded maximum.
proof fn lemma_max_usable_bound(s: Seq<PhysRegion>)
    ensures
        forall|j: int|
            0 <= j < s.len() && (#[trigger] s[j]).kind == RegionKind::UsableRam ==> s[j].end
                <= max_usable_end(s),
    decreases s.len(),
{
    if s.len() > 0 {
        lemma_max_usable_bound(s.drop_last());
        assert(s.last() == s[s.len() - 1]);
        assert forall|j: int|
            0 <= j < s.len() && (#[trigger] s[j]).kind == RegionKind::UsableRam implies s[j].end
            <= max_usable_end(s) by {
            if j < s.len() - 1 {
                assert(s.drop_last()[j] == s[j]);
            }
        }
    }
}

/// True when frame `j` lies inside a usable-RAM span of the map.
pub open spec fn frame_in_usable(s: Seq<PhysRegion>, j: int) -> bool {
    exists|i: int|
        0 <= i < s.len() && (#[trigger] s[i]).kind == RegionKind::UsableRam && s[i].start as int
            / 4096 <= j < s[i].end as int / 4096
}

/// What a single-frame allocation does: first-fit over the bitmap.
pub open spec fn alloc_frame_post(pre: Seq<bool>, post: Seq<bool>, r: Option<u64>) -> bool {
    match r {
        Some(addr) => {
            let i = addr as int / 4096;
            &&& addr % 4096 == 0
            &&& 0 <= i < pre.len()
            &&& pre[i] == false
            &&& forall|j: int| 0 <= j < i ==> pre[j] == true
            &&& post == pre.update(i, true)
        },
        None => {
            &&& post == pre
            &&& forall|j: int| 0 <= j < pre.len() ==> pre[j] == true
        },
    }
}

/// True when the window of `pages` frames starting at `s` holds at
/// least one unavailable frame.
pub open spec fn run_blocked(pre: Seq<bool>, s: int, pages: int) -> bool {
    exists|k: int| s <= k < s + pages && pre[k] == true
}

/// What a contiguous allocation does: first fit of a free run.
pub open spec fn alloc_contiguous_post(
    pre: Seq<bool>,
    post: Seq<bool>,
    pages: int,
    r: Option<u64>,
) -> bool {
    match r {
        Some(addr) => {
            let i = addr as int / 4096;
            &&& addr % 4096 == 0
            &&& pages > 0
            &&& 0 <= i && i + pages <= pre.len()
            &&& forall|k: int| i <= k < i + pages ==> pre[k] == false
            &&& forall|s: int| 0 <= s < i ==> #[trigger] run_blocked(pre, s, pages)
            &&& post.len() == pre.len()
            &&& forall|j: int|
                0 <= j < pre.len() ==> #[trigger] post[j] == (i <= j < i + pages || pre[j])
        },
        None => {
            &&& post == pre
            &&& (pages == 0 || forall|s: int|
                0 <= s && s + pages <= pre.len() ==> #[trigger] run_blocked(pre, s, pages))
        },
    }
}

/// What freeing a frame does: clears its bit; addresses past the bitmap
/// are ignored.
pub open spec fn free_frame_post(pre: Seq<bool>, post: Seq<bool>, addr: u64) -> bool {
    if addr as int / 4096 < pre.len() {
        post == pre.update(addr as int / 4096, false)
    } else {
        post == pre
    }
}

/// The frame bitmap. The view is one `bool` per frame; `true` means the
/// frame is unavailable.
pub struct FrameAllocator {
    frame_count: usize,
    bitmap: Vec<u64>,
}

impl FrameAllocator {
    pub closed spec fn view(&self) -> Seq<bool> {
        Seq::new(
            self.frame_count as nat,
            |i: int| word_bit(self.bitmap@[i / 64], (i % 64) as u64),
        )
    }

    pub closed spec fn wf(&self) -> bool {
        self.bitmap@.len() == (self.frame_count + 63) / 64 && self.frame_count
            <= 0x10_0000_0000_0000
    }

    /// Reads the bit of frame `idx`.
    pub fn test_bit(&self, idx: usize) -> (r: bool)
        requires
            self.wf(),
            idx < self@.len(),
        ensures
            r == self@[idx as int],
    {
        proof {
            lemma_word_index(idx as int, self.frame_count as int);
        }
        let word = idx / 64;
        let bit = idx % 64;
        proof {
            lemma_word_bit_test(self.bitmap@[word as int], bit as u64);
        }
        (self.bitmap[word] & (1u64 << (bit as u64))) != 0
    }

    /// Marks frame `idx` unavailable.
    pub fn set_bit(&mut self, idx: usize)
        requires
            old(self).wf(),
            idx < old(self)@.len(),
        ensures
            final(self).wf(),
            final(self)@ == old(self)@.update(idx as int, true),
    {
        proof {
            lemma_word_index(idx as int, self.frame_count as int);
        }
        let word = idx / 64;
        let bit = idx % 64;
        let w = self.bitmap[word];
        self.bitmap[word] = w | (1u64 << (bit as u64));
        proof {
            assert forall|j: int| 0 <= j < self@.len() implies #[trigger] self@[j] == old(
                self,
            )@.update(idx as int, true)[j] by {
                lemma_word_index(j, self.frame_count as int);
                if j / 64 == idx as int / 64 {
                    lemma_word_bit_or(w, (idx as int % 64) as u64, (j % 64) as u64);
                    if j != idx as int {
                        assert(j % 64 != idx as int % 64) by {
                            vstd::arithmetic::div_mod::lemma_fundamental_div_mod(j, 64);
                            vstd::arithmetic::div_mod::lemma_fundamental_div_mod(idx as int, 64);
                        }
                    }
                }
            }
            assert(self@ =~= old(self)@.update(idx as int, true));
        }
    }

    /// Marks frame `idx` available.
    pub fn clear_bit(&mut self, idx: usize)
        requires
            old(self).wf(),
            idx < old(self)@.len(),
        ensures
            final(self).wf(),
            final(self)@ == old(self)@.update(idx as int, false),
    {
        proof {
            lemma_word_index(idx as int, self.frame_count as int);
        }
        let word = idx / 64;
        let bit = idx % 64;
        let w = self.bitmap[word];
        self.bitmap[word] = w & !(1u64 << (bit as u64));
        proof {
            assert forall|j: int| 0 <= j < self@.len() implies #[trigger] self@[j] == old(
                self,
            )@.update(idx as int, false)[j] by {
                lemma_word_index(j, self.frame_count as int);
                if j / 64 == idx as int / 64 {
                    lemma_word_bit_and_not(w, (idx as int % 64) as u64, (j % 64) as u64);
                    if j != idx as int {
                        assert(j % 64 != idx as int % 64) by {
                            vstd::arithmetic::div_mod::lemma_fundamental_div_mod(j, 64);
                            vstd::arithmetic::div_mod::lemma_fundamental_div_mod(idx as int, 64);
                        }
                    }
                }
            }
            assert(self@ =~= old(self)@.update(idx as int, false));
        }
    }

    /// Clears the bits of the frames in `[start, end)`; the bounds are in
    /// bytes and are rounded inward to whole frames.
    pub fn mark_free(&mut self, start: u64, end: u64)
        requires
            old(self).wf(),
            start <= end,
            end as int / 4096 <= old(self)@.len(),
        ensures
            final(self).wf(),
            final(self)@.len() == old(self)@.len(),
            forall|j: int|
                0 <= j < old(self)@.len() ==> #[trigger] final(self)@[j] == if start as int / 4096
                    <= j < end as int / 4096 {
                    false
                } else {
                    old(self)@[j]
                },
    {
        proof {
            vstd::arithmetic::div_mod::lemma_div_is_ordered(start as int, end as int, 4096);
        }
        let mut idx: usize = (start / 4096) as usize;
        let end_idx: usize = (end / 4096) as usize;
        while idx < end_idx
            invariant
                self.wf(),
                self@.len() == old(self)@.len(),
                end_idx <= self@.len(),
                idx <= end_idx,
                idx as int >= start as int / 4096,
                end_idx == end as int / 4096,
                forall|j: int|
                    0 <= j < old(self)@.len() ==> #[trigger] self@[j] == if start as int / 4096
                        <= j < idx as int {
                        false
                    } else {
                        old(self)@[j]
                    },
            decreases end_idx - idx,
        {
            self.clear_bit(idx);
            idx += 1;
        }
    }

    /// Sets the bits of the frames overlapping `[start, end)`; the end is
    /// rounded outward to a whole frame.
    pub fn mark_used(&mut self, start: u64, end: u64)
        requires
            old(self).wf(),
            start <= end,
            aligned_to(end as int, 4096) / 4096 <= old(self)@.len(),
        ensures
            final(self).wf(),
            final(self)@.len() == old(self)@.len(),
            forall|j: int|
                0 <= j < old(self)@.len() ==> #[trigger] final(self)@[j] == if start as int / 4096
                    <= j < aligned_to(end as int, 4096) / 4096 {
                    true
                } else {
                    old(self)@[j]
                },
    {
        proof {
            crate::bootalloc::lemma_aligned_to_4096(end as int);
            vstd::arithmetic::div_mod::lemma_div_is_ordered(
                start as int,
                aligned_to(end as int, 4096),
                4096,
            );
        }
        let mut idx: usize = (start / 4096) as usize;
        let rem = end % 4096;
        let end_frames: u64 = if rem == 0 {
            end / 4096
        } else {
            end / 4096 + 1
        };
        proof {
            vstd::arithmetic::div_mod::lemma_fundamental_div_mod(end as int, 4096);
            if rem != 0 {
                assert(aligned_to(end as int, 4096) == 4096 * (end as int / 4096) + 4096);
                vstd::arithmetic::div_mod::lemma_div_multiples_vanish_fancy(
                    end as int / 4096 + 1,
                    0,
                    4096,
                );
            } else {
                vstd::arithmetic::div_mod::lemma_div_multiples_vanish_fancy(
                    end as int / 4096,
                    0,
                    4096,
                );
            }
        }
        let end_idx: usize = end_frames as usize;
        while idx < end_idx
            invariant
                self.wf(),
                self@.len() == old(self)@.len(),
                end_idx <= self@.len(),
                idx <= end_idx,
                idx as int >= start as int / 4096,
                end_idx == aligned_to(end as int, 4096) / 4096,
                forall|j: int|
                    0 <= j < old(self)@.len() ==> #[trigger] self@[j] == if start as int / 4096
                        <= j < idx as int {
                        true
                    } else {
                        old(self)@[j]
                    },
            decreases end_idx - idx,
        {
            self.set_bit(idx);
            idx += 1;
        }
    }

    /// Builds the allocator from a normalized map: every frame starts
    /// unavailable, usable-RAM frames are freed, and the range the boot
    /// allocator has consumed (including this bitmap's own storage,
    /// drawn from it here) is re-reserved. Returns `None` when the map
    /// has no usable RAM or the bitmap storage does not fit.
    pub fn init(map: &NormalizedMap, boot: &mut BootAllocator) -> (r: Option<FrameAllocator>)
        requires
            old(boot).wf(),
            map.wf(),
            old(boot).spec_end() <= max_usable_end(map@),
        ensures
            final(boot).wf(),
            final(boot).spec_start() == old(boot).spec_start(),
            final(boot).spec_end() == old(boot).spec_end(),
            match r {
                Some(a) => {
                    &&& a.wf()
                    &&& a@.len() == aligned_to(max_usable_end(map@), 4096) / 4096
                    &&& forall|j: int|
                        0 <= j < a@.len() ==> #[trigger] a@[j] == (!frame_in_usable(map@, j) || (
                        final(boot).spec_start() as int / 4096 <= j < aligned_to(
                            final(boot).spec_current() as int,
                            4096,
                        ) / 4096))
                },
                None => max_usable_end(map@) == 0 || *final(boot) == *old(boot),
            },
    {
        let regions = map.regions();
        let mut max_end: u64 = 0;
        let mut i: usize = 0;
        while i < regions.len()
            invariant
                regions@ == map@,
                i <= map@.len(),
                max_end == max_usable_end(map@.take(i as int)),
            decreases map@.len() - i,
        {
            proof {
                assert(map@.take(i + 1).drop_last() =~= map@.take(i as int));
                assert(map@.take(i + 1).last() == map@[i as int]);
            }
            let r = regions[i];
            if matches!(r.kind, RegionKind::UsableRam) && r.end > max_end {
                max_end = r.end;
            }
            i += 1;
        }
        proof {
            assert(map@.take(map@.len() as int) =~= map@);
            lemma_max_usable_bound(map@);
        }
        if max_end == 0 {
            return None;
        }
        let rem = max_end % 4096;
        let frames64: u64 = if rem == 0 {
            max_end / 4096
        } else {
            max_end / 4096 + 1
        };
        proof {
            vstd::arithmetic::div_mod::lemma_fundamental_div_mod(max_end as int, 4096);
            if rem != 0 {
                vstd::arithmetic::div_mod::lemma_div_multiples_vanish_fancy(
                    max_end as int / 4096 + 1,
                    0,
                    4096,
                );
            } else {
                vstd::arithmetic::div_mod::lemma_div_multiples_vanish_fancy(
                    max_end as int / 4096,
                    0,
                    4096,
                );
            }
            assert(frames64 == aligned_to(max_end as int, 4096) / 4096);
        }
        if frames64 > (usize::MAX as u64) / 64 {
            return None;
        }
        let frame_count: usize = frames64 as usize;
        let words: usize = (frame_count + 63) / 64;
        let bytes: usize = words * 8;
        let ghost boot0 = *boot;
        let storage = boot.alloc_bytes(bytes, 8);
        if storage.is_none() {
            return None;
        }
        let bitmap: Vec<u64> = vec![u64::MAX; words];
        let mut alloc = FrameAllocator { frame_count, bitmap };
        proof {
            assert forall|j: int| 0 <= j < alloc@.len() implies #[trigger] alloc@[j] == true by {
                lemma_word_index(j, frame_count as int);
                lemma_word_bit_max((j % 64) as u64);
            }
        }
        let mut i: usize = 0;
        while i < regions.len()
            invariant
                regions@ == map@,
                i <= map@.len(),
                alloc.wf(),
                alloc@.len() == frames64,
                frames64 == aligned_to(max_usable_end(map@), 4096) / 4096,
                max_end == max_usable_end(map@),
                forall|j: int|
                    0 <= j < map@.len() && (#[trigger] map@[j]).kind == RegionKind::UsableRam
                        ==> map@[j].end <= max_end,
                forall|j: int|
                    0 <= j < alloc@.len() ==> #[trigger] alloc@[j] == !frame_in_usable(
                        map@.take(i as int),
                        j,
                    ),
                map.wf(),
            decreases map@.len() - i,
        {
            let r = regions[i];
            let ghost pre = alloc@;
            if matches!(r.kind, RegionKind::UsableRam) {
                proof {
                    assert(map@[i as int].start < map@[i as int].end);
                    assert(r.end <= max_end);
                    vstd::arithmetic::div_mod::lemma_div_is_ordered(
                        r.end as int,
                        max_end as int,
                        4096,
                    );
                    vstd::arithmetic::div_mod::lemma_div_is_ordered(
                        max_end as int,
                        aligned_to(max_end as int, 4096),
                        4096,
                    );
                }
                alloc.mark_free(r.start, r.end);
            }
            proof {
                assert(map@.take(i + 1) =~= map@.take(i as int).push(map@[i as int]));
                assert forall|j: int| 0 <= j < alloc@.len() implies #[trigger] alloc@[j]
                    == !frame_in_usable(map@.take(i + 1), j) by {
                    let t0 = map@.take(i as int);
                    let t1 = map@.take(i + 1);
                    assert(forall|q: int| 0 <= q < t0.len() ==> #[trigger] t1[q] == t0[q]);
                    assert(t1[i as int] == map@[i as int]);
                    if frame_in_usable(t1, j) {
                        let w = choose|w: int|
                            0 <= w < t1.len() && (#[trigger] t1[w]).kind == RegionKind::UsableRam
                                && t1[w].start as int / 4096 <= j < t1[w].end as int / 4096;
                        if w < i {
                            assert(frame_in_usable(t0, j));
                        }
                    }
                    if frame_in_usable(t0, j) {
                        let w = choose|w: int|
                            0 <= w < t0.len() && (#[trigger] t0[w]).kind == RegionKind::UsableRam
                                && t0[w].start as int / 4096 <= j < t0[w].end as int / 4096;
                        assert(t1[w] == t0[w]);
                        assert(frame_in_usable(t1, j));
                    }
                }
            }
            i += 1;
        }
        proof {
            assert(map@.take(map@.len() as int) =~= map@);
        }
        let (boot_start, boot_end) = boot.used_range();
        proof {
            crate::bootalloc::lemma_aligned_to_mono(boot_end as int, max_end as int);
            vstd::arithmetic::div_mod::lemma_div_is_ordered(
                aligned_to(boot_end as int, 4096),
                aligned_to(max_end as int, 4096),
                4096,
            );
        }
        alloc.mark_used(boot_start, boot_end);
        Some(alloc)
    }

    /// First-fit allocation of a single frame; returns its physical
    /// address, or `None` when every frame is taken.
    pub fn alloc_frame(&mut self) -> (r: Option<u64>)
        requires
            old(self).wf(),
        ensures
            final(self).wf(),
            final(self)@.len() == old(self)@.len(),
            alloc_frame_post(old(self)@, final(self)@, r),
    {
        let mut idx: usize = 0;
        while idx < self.frame_count
            invariant
                self.wf(),
                self@ == old(self)@,
                idx <= self@.len(),
                forall|j: int| 0 <= j < idx ==> old(self)@[j] == true,
            decreases self.frame_count - idx,
        {
            if !self.test_bit(idx) {
                self.set_bit(idx);
                proof {
                    vstd::arithmetic::div_mod::lemma_div_multiples_vanish_fancy(
                        idx as int,
                        0,
                        4096,
                    );
                    vstd::arithmetic::div_mod::lemma_mod_multiples_basic(idx as int, 4096);
                }
                return Some((idx as u64) * 4096);
            }
            idx += 1;
        }
        None
    }

    /// First-fit allocation of `pages` contiguous frames.
    pub fn alloc_contiguous(&mut self, pages: usize) -> (r: Option<u64>)
        requires
            old(self).wf(),
        ensures
            final(self).wf(),
            final(self)@.len() == old(self)@.len(),
            alloc_contiguous_post(old(self)@, final(self)@, pages as int, r),
    {
        if pages == 0 {
            return None;
        }
        if pages > self.frame_count {
            proof {
                assert forall|s: int| 0 <= s && s + pages <= self@.len() implies #[trigger]
                run_blocked(self@, s, pages as int) by {
                    assert(false);
                }
            }
            return None;
        }
        let mut idx: usize = 0;
        while idx <= self.frame_count - pages
            invariant
                self.wf(),
                self@ == old(self)@,
                0 < pages <= self@.len(),
                idx <= self@.len(),
                forall|s: int| 0 <= s < idx ==> #[trigger] run_blocked(
                    old(self)@,
                    s,
                    pages as int,
                ),
            decreases self.frame_count - idx,
        {
            let mut ok = true;
            let mut blocker: usize = 0;
            let mut check: usize = idx;
            while ok && check < idx + pages
                invariant
                    self.wf(),
                    self@ == old(self)@,
                    idx <= check <= idx + pages,
                    idx + pages <= self@.len(),
                    ok ==> forall|k: int| idx <= k < check ==> old(self)@[k] == false,
                    !ok ==> idx <= blocker < idx + pages && old(self)@[blocker as int] == true,
                decreases idx + pages - check, (if ok { 1int } else { 0int }),
            {
                if self.test_bit(check) {
                    ok = false;
                    blocker = check;
                } else {
                    check += 1;
                }
            }
            if ok {
                let mut bit: usize = idx;
                while bit < idx + pages
                    invariant
                        self.wf(),
                        self@.len() == old(self)@.len(),
                        idx <= bit <= idx + pages,
                        idx + pages <= self@.len(),
                        forall|j: int|
                            0 <= j < self@.len() ==> #[trigger] self@[j] == (idx <= j < bit || old(
                                self,
                            )@[j]),
                    decreases idx + pages - bit,
                {
                    self.set_bit(bit);
                    bit += 1;
                }
                let addr = (idx as u64) * 4096;
                proof {
                    vstd::arithmetic::div_mod::lemma_div_multiples_vanish_fancy(
                        idx as int,
                        0,
                        4096,
                    );
                    vstd::arithmetic::div_mod::lemma_mod_multiples_basic(idx as int, 4096);
                    assert(addr as int / 4096 == idx as int);
                    assert(check == idx + pages);
                    assert(forall|k: int| idx <= k < idx + pages ==> old(self)@[k] == false);
                }
                return Some(addr);
            }
            proof {
                assert forall|s: int| 0 <= s < idx + 1 implies #[trigger] run_blocked(
                    old(self)@,
                    s,
                    pages as int,
                ) by {
                    if s == idx as int {
                        assert(s <= blocker < s + pages && old(self)@[blocker as int] == true);
                    }
                }
            }
            idx += 1;
        }
        proof {
            assert forall|s: int| 0 <= s && s + pages <= self@.len() implies #[trigger]
            run_blocked(old(self)@, s, pages as int) by {
            }
        }
        None
    }

    /// Returns the frame holding `paddr` to the allocator; addresses past
    /// the bitmap are ignored.
    pub fn free_frame(&mut self, paddr: u64)
        requires
            old(self).wf(),
        ensures
            final(self).wf(),
            final(self)@.len() == old(self)@.len(),
            free_frame_post(old(self)@, final(self)@, paddr),
    {
        let idx64 = paddr / 4096;
        if idx64 < self.frame_count as u64 {
            self.clear_bit(idx64 as usize);
        }
    }
}

/// Distinct frames: two successful allocations in a row never hand out
/// the same frame, since the first one marks its frame unavailable.
pub proof fn lemma_alloc_distinct(b1: Seq<bool>, b2: Seq<bool>, b3: Seq<bool>, a1: u64, a2: u64)
    requires
        alloc_frame_post(b1, b2, Some(a1)),
        alloc_frame_post(b2, b3, Some(a2)),
    ensures
        a1 != a2,
{
    let i1 = a1 as int / 4096;
    let i2 = a2 as int / 4096;
    assert(b2[i1] == true);
    assert(b2[i2] == false);
    assert(i1 != i2);
    vstd::arithmetic::div_mod::lemma_fundamental_div_mod(a1 as int, 4096);
    vstd::arithmetic::div_mod::lemma_fundamental_div_mod(a2 as int, 4096);
}

/// Exhaustion: once every frame is taken, allocation fails.
pub proof fn lemma_alloc_exhausted(b1: Seq<bool>, b2: Seq<bool>, r: Option<u64>)
    requires
        alloc_frame_post(b1, b2, r),
        forall|j: int| 0 <= j < b1.len() ==> b1[j] == true,
    ensures
        r is None,
{
    if r is Some {
        let i = r->Some_0 as int / 4096;
        assert(b1[i] == true);
    }
}

/// Free and reuse: after freeing a frame whose predecessors are all
/// taken, the next allocation returns that very frame again.
pub proof fn lemma_free_reuse(
    b1: Seq<bool>,
    b2: Seq<bool>,
    b3: Seq<bool>,
    addr: u64,
    r: Option<u64>,
)
    requires
        addr % 4096 == 0,
        addr as int / 4096 < b1.len(),
        free_frame_post(b1, b2, addr),
        forall|j: int| 0 <= j < addr as int / 4096 ==> b2[j] == true,
        alloc_frame_post(b2, b3, r),
    ensures
        r == Some(addr),
{
    let i = addr as int / 4096;
    assert(b2[i] == false);
    if r is None {
        assert(b2[i] == true);
    }
    let a2 = r->Some_0;
    let i2 = a2 as int / 4096;
    assert(b2[i2] == false);
    if i2 < i {
        assert(b2[i2] == true);
    }
    if i2 > i {
        assert(b2[i] == true);
    }
    assert(i2 == i);
    vstd::arithmetic::div_mod::lemma_fundamental_div_mod(a2 as int, 4096);
    vstd::arithmetic::div_mod::lemma_fundamental_div_mod(addr as int, 4096);
}

} // verus!
