//! Physical memory region map: raw, possibly overlapping spans tagged by
//! kind, and its normalization into a sorted, disjoint, priority-resolved
//! map with usable RAM trimmed inward to frame boundaries.

use vstd::prelude::*;

verus! {

/// What a span of physical memory is used for.
#[derive(Clone, Copy, Debug, Eq, PartialEq, Structural)]
pub enum RegionKind {
    UsableRam,
    Reserved,
    Mmio,
    KernelImage,
    BootStack,
    BootInfo,
}

/// A physical span `[start, end)` with its kind.
#[derive(Clone, Copy, Debug, Eq, PartialEq, Structural)]
pub struct PhysRegion {
    pub start: u64,
    pub end: u64,
    pub kind: RegionKind,
}

/// A bare physical span `[start, end)`.
#[derive(Clone, Copy, Debug, Eq, PartialEq, Structural)]
pub struct PhysRange {
    pub start: u64,
    pub end: u64,
}

/// Capacity of the raw region list; spans added beyond it are dropped.
pub const MAX_REGIONS: usize = 128;

/// Resolution priority of a kind: when raw spans overlap, the highest
/// priority wins for the overlapping addresses.
pub open spec fn prio(kind: RegionKind) -> int {
    match kind {
        RegionKind::KernelImage => 6,
        RegionKind::BootStack => 5,
        RegionKind::BootInfo => 4,
        RegionKind::Reserved => 3,
        RegionKind::Mmio => 2,
        RegionKind::UsableRam => 1,
    }
}

/// Inverse of `prio` on the priorities in use.
pub open spec fn kind_of_prio(p: int) -> RegionKind {
    if p == 6 {
        RegionKind::KernelImage
    } else if p == 5 {
        RegionKind::BootStack
    } else if p == 4 {
        RegionKind::BootInfo
    } else if p == 3 {
        RegionKind::Reserved
    } else if p == 2 {
        RegionKind::Mmio
    } else {
        RegionKind::UsableRam
    }
}

/// True when the region covers address `a`.
pub open spec fn covers(r: PhysRegion, a: int) -> bool {
    r.start <= a < r.end
}

/// Highest priority among the regions of `s` that cover `a`; 0 when none
/// covers it.
pub open spec fn max_cover_prio(s: Seq<PhysRegion>, a: int) -> int
    decreases s.len(),
{
    if s.len() == 0 {
        0
    } else {
        let p = if covers(s.last(), a) {
            prio(s.last().kind)
        } else {
            0
        };
        let q = max_cover_prio(s.drop_last(), a);
        if p > q {
            p
        } else {
            q
        }
    }
}

/// The kind a raw region list assigns to address `a`: the kind of the
/// highest-priority covering span, or `None` when no span covers it.
pub open spec fn raw_kind_at(s: Seq<PhysRegion>, a: int) -> Option<RegionKind> {
    if max_cover_prio(s, a) == 0 {
        None
    } else {
        Some(kind_of_prio(max_cover_prio(s, a)))
    }
}

/// The kind a normalized (disjoint) region list assigns to address `a`:
/// the kind of the first region covering it.
pub open spec fn map_kind_at(s: Seq<PhysRegion>, a: int) -> Option<RegionKind>
    decreases s.len(),
{
    if s.len() == 0 {
        None
    } else if covers(s[0], a) {
        Some(s[0].kind)
    } else {
        map_kind_at(s.subrange(1, s.len() as int), a)
    }
}

/// Every region is nonempty and the list is sorted with pairwise
/// disjoint spans.
pub open spec fn wf_sd(s: Seq<PhysRegion>) -> bool {
    &&& forall|i: int| 0 <= i < s.len() ==> (#[trigger] s[i]).start < s[i].end
    &&& forall|i: int, j: int|
        0 <= i && i + 1 == j && j < s.len() ==> (#[trigger] s[i]).end <= (#[trigger] s[j]).start
}

/// Touching neighbours have distinct kinds (same-kind runs are merged).
pub open spec fn merged_prop(s: Seq<PhysRegion>) -> bool {
    forall|i: int, j: int|
        0 <= i && i + 1 == j && j < s.len() && (#[trigger] s[i]).end == (#[trigger] s[j]).start
            ==> s[i].kind != s[j].kind
}

/// Usable RAM spans sit on frame boundaries.
pub open spec fn aligned_usable(s: Seq<PhysRegion>) -> bool {
    forall|i: int|
        0 <= i < s.len() && (#[trigger] s[i]).kind == RegionKind::UsableRam ==> s[i].start % 4096
            == 0 && s[i].end % 4096 == 0
}

/// Well-formedness of a normalized map: every region nonempty, the list
/// sorted and pairwise disjoint, touching neighbours of distinct kinds,
/// and usable RAM trimmed to frame boundaries.
pub open spec fn wf_normalized(s: Seq<PhysRegion>) -> bool {
    wf_sd(s) && merged_prop(s) && aligned_usable(s)
}

/// The first address of the frame containing `a`.
pub open spec fn page_of(a: int) -> int {
    a - (a % 4096)
}

/// True when the raw list resolves every address of the frame containing
/// `a` to usable RAM.
pub open spec fn page_all_usable(s: Seq<PhysRegion>, a: int) -> bool {
    forall|x: int|
        page_of(a) <= x < page_of(a) + 4096 ==> #[trigger] raw_kind_at(s, x) == Some(
            RegionKind::UsableRam,
        )
}

/// True when a normalized list assigns every address of the frame
/// containing `a` to usable RAM.
pub open spec fn map_page_all_usable(s: Seq<PhysRegion>, a: int) -> bool {
    forall|x: int|
        page_of(a) <= x < page_of(a) + 4096 ==> #[trigger] map_kind_at(s, x) == Some(
            RegionKind::UsableRam,
        )
}

/// Maps `prio` back and forth: the two spec functions are inverses.
pub proof fn lemma_prio_inverse(kind: RegionKind)
    ensures
        kind_of_prio(prio(kind)) == kind,
        1 <= prio(kind) <= 6,
{
}

/// Returns the resolution priority of `kind`.
pub fn kind_priority(kind: RegionKind) -> (r: u8)
    ensures
        r == prio(kind),
{
    match kind {
        RegionKind::KernelImage => 6,
        RegionKind::BootStack => 5,
        RegionKind::BootInfo => 4,
        RegionKind::Reserved => 3,
        RegionKind::Mmio => 2,
        RegionKind::UsableRam => 1,
    }
}

/// True when `s` is sorted in ascending order.
pub open spec fn sorted_u64(s: Seq<u64>) -> bool {
    forall|i: int, j: int| 0 <= i <= j < s.len() ==> s[i] <= s[j]
}

/// Swapping two elements of a sequence preserves its multiset.
proof fn lemma_swap_multiset(s: Seq<u64>, i: int, j: int)
    requires
        0 <= i < j < s.len(),
    ensures
        s.update(i, s[j]).update(j, s[i]).to_multiset() == s.to_multiset(),
{
    broadcast use vstd::seq_lib::to_multiset_update;
    broadcast use vstd::prelude::Seq::to_multiset_ensures;
    broadcast use vstd::multiset::group_multiset_axioms;

    let vi = s[i];
    let vj = s[j];
    let s1 = s.update(i, vj);
    assert(s1[j] == vj);
    assert(s1.update(j, vi).to_multiset() == s1.to_multiset().insert(vi).remove(vj));
    assert(s1.to_multiset() == s.to_multiset().insert(vj).remove(vi));
    assert(s.contains(vi)) by {
        assert(s[i] == vi);
    }
    assert(s.to_multiset().count(vi) > 0) by {
        s.to_multiset_ensures();
    }
    assert(s.to_multiset().insert(vj).remove(vi).insert(vi).remove(vj) =~= s.to_multiset());
}

/// Sorts the values ascending in place.
pub fn sort_u64(values: &mut Vec<u64>)
    ensures
        sorted_u64(final(values)@),
        final(values)@.to_multiset() == old(values)@.to_multiset(),
{
    let len = values.len();
    let mut i: usize = 0;
    while i < len
        invariant
            len == values@.len(),
            values@.to_multiset() == old(values)@.to_multiset(),
            i <= len,
            forall|p: int, q: int| 0 <= p <= q < i ==> values@[p] <= values@[q],
            forall|p: int, q: int| 0 <= p < i <= q < len ==> values@[p] <= values@[q],
        decreases len - i,
    {
        let mut j: usize = i + 1;
        while j < len
            invariant
                i < len,
                i < j,
                len == values@.len(),
                values@.to_multiset() == old(values)@.to_multiset(),
                j <= len,
                forall|p: int, q: int| 0 <= p <= q < i ==> values@[p] <= values@[q],
                forall|p: int, q: int| 0 <= p < i <= q < len ==> values@[p] <= values@[q],
                forall|q: int| i <= q < j ==> values@[i as int] <= values@[q],
            decreases len - j,
        {
            if values[j] < values[i] {
                let vi = values[i];
                let vj = values[j];
                proof {
                    lemma_swap_multiset(values@, i as int, j as int);
                }
                values[i] = vj;
                values[j] = vi;
            }
            j += 1;
        }
        i += 1;
    }
}

/// True when the region covers the whole span `[lo, hi)`.
pub open spec fn covers_span(r: PhysRegion, lo: int, hi: int) -> bool {
    r.start <= lo && hi <= r.end
}

/// Highest priority among the regions of `s` that cover all of
/// `[lo, hi)`; 0 when none does.
pub open spec fn max_span_prio(s: Seq<PhysRegion>, lo: int, hi: int) -> int
    decreases s.len(),
{
    if s.len() == 0 {
        0
    } else {
        let p = if covers_span(s.last(), lo, hi) {
            prio(s.last().kind)
        } else {
            0
        };
        let q = max_span_prio(s.drop_last(), lo, hi);
        if p > q {
            p
        } else {
            q
        }
    }
}

/// A normalized list assigns nothing past the ends of its regions.
proof fn lemma_map_none_beyond(s: Seq<PhysRegion>, a: int)
    requires
        forall|k: int| 0 <= k < s.len() ==> (#[trigger] s[k]).end <= a,
    ensures
        map_kind_at(s, a) == None::<RegionKind>,
    decreases s.len(),
{
    if s.len() > 0 {
        let t = s.subrange(1, s.len() as int);
        assert(forall|k: int| 0 <= k < t.len() ==> (#[trigger] t[k]) == s[k + 1]);
        lemma_map_none_beyond(t, a);
    }
}

/// How appending a region at the end changes the assignment: earlier
/// regions win, then the new one.
proof fn lemma_map_push(s: Seq<PhysRegion>, r: PhysRegion, a: int)
    ensures
        map_kind_at(s.push(r), a) == if map_kind_at(s, a) is Some {
            map_kind_at(s, a)
        } else if covers(r, a) {
            Some(r.kind)
        } else {
            None
        },
    decreases s.len(),
{
    let p = s.push(r);
    assert(p.len() == s.len() + 1);
    if s.len() == 0 {
        assert(p[0] == r);
        assert(p.subrange(1, p.len() as int) =~= Seq::<PhysRegion>::empty());
        if covers(r, a) {
            assert(map_kind_at(p, a) == Some(r.kind));
        } else {
            assert(map_kind_at(p, a) == map_kind_at(p.subrange(1, p.len() as int), a));
            assert(map_kind_at(p, a) == None::<RegionKind>);
        }
    } else {
        assert(p[0] == s[0]);
        let st = s.subrange(1, s.len() as int);
        assert(p.subrange(1, p.len() as int) =~= st.push(r));
        lemma_map_push(st, r, a);
        if covers(s[0], a) {
            assert(map_kind_at(p, a) == Some(s[0].kind));
            assert(map_kind_at(s, a) == Some(s[0].kind));
        } else {
            assert(map_kind_at(p, a) == map_kind_at(st.push(r), a));
            assert(map_kind_at(s, a) == map_kind_at(st, a));
        }
    }
}

/// An assigned address is covered by a region of the same kind.
proof fn lemma_map_witness(s: Seq<PhysRegion>, a: int) -> (j: int)
    requires
        map_kind_at(s, a) is Some,
    ensures
        0 <= j < s.len(),
        covers(s[j], a),
        map_kind_at(s, a) == Some(s[j].kind),
    decreases s.len(),
{
    if covers(s[0], a) {
        0
    } else {
        let t = s.subrange(1, s.len() as int);
        let j = lemma_map_witness(t, a) + 1;
        assert(s[j] == t[j - 1]);
        j
    }
}

/// A covered address is assigned some kind.
proof fn lemma_map_covered_some(s: Seq<PhysRegion>, a: int, j: int)
    requires
        0 <= j < s.len(),
        covers(s[j], a),
    ensures
        map_kind_at(s, a) is Some,
    decreases s.len(),
{
    if !covers(s[0], a) {
        let t = s.subrange(1, s.len() as int);
        assert(t[j - 1] == s[j]);
        lemma_map_covered_some(t, a, j - 1);
    }
}

/// In a sorted disjoint list the spans are ordered across any distance.
proof fn lemma_sd_ordered(s: Seq<PhysRegion>, i: int, j: int)
    requires
        wf_sd(s),
        0 <= i < j < s.len(),
    ensures
        s[i].end <= s[j].start,
    decreases j - i,
{
    if i + 1 < j {
        lemma_sd_ordered(s, i + 1, j);
    }
}

/// When no region of `s` covers `a`, the raw resolution is empty.
proof fn lemma_raw_uncovered(s: Seq<PhysRegion>, a: int)
    requires
        forall|k: int| 0 <= k < s.len() ==> !covers(#[trigger] s[k], a),
    ensures
        max_cover_prio(s, a) == 0,
    decreases s.len(),
{
    if s.len() > 0 {
        assert(s.last() == s[s.len() - 1]);
        assert(forall|k: int| 0 <= k < s.len() - 1 ==> #[trigger] s.drop_last()[k] == s[k]);
        lemma_raw_uncovered(s.drop_last(), a);
    }
}

/// The raw resolution picks the kind of an actual covering region, and
/// dominates every covering region's priority.
proof fn lemma_raw_bounds(s: Seq<PhysRegion>, a: int)
    ensures
        forall|k: int|
            0 <= k < s.len() && covers(#[trigger] s[k], a) ==> prio(s[k].kind) <= max_cover_prio(
                s,
                a,
            ),
        max_cover_prio(s, a) != 0 ==> exists|k: int|
            0 <= k < s.len() && covers(#[trigger] s[k], a) && prio(s[k].kind) == max_cover_prio(
                s,
                a,
            ),
    decreases s.len(),
{
    if s.len() > 0 {
        let t = s.drop_last();
        lemma_raw_bounds(t, a);
        assert(s.last() == s[s.len() - 1]);
        assert(forall|k: int| 0 <= k < s.len() - 1 ==> #[trigger] t[k] == s[k]);
        assert forall|k: int| 0 <= k < s.len() && covers(#[trigger] s[k], a) implies prio(s[k].kind)
            <= max_cover_prio(s, a) by {
            if k < s.len() - 1 {
                assert(t[k] == s[k]);
                assert(prio(t[k].kind) <= max_cover_prio(t, a));
            }
        }
        if max_cover_prio(s, a) != 0 {
            if max_cover_prio(s, a) == max_cover_prio(t, a) {
                let k = choose|k: int|
                    0 <= k < t.len() && covers(#[trigger] t[k], a) && prio(t[k].kind)
                        == max_cover_prio(t, a);
                assert(covers(s[k], a) && prio(s[k].kind) == max_cover_prio(s, a));
            } else {
                assert(covers(s[s.len() - 1], a) && prio(s[s.len() - 1].kind) == max_cover_prio(
                    s,
                    a,
                ));
            }
        }
    }
}

/// No element of a sorted list lies strictly between two neighbours.
proof fn lemma_sorted_between(b: Seq<u64>, i: int, v: u64)
    requires
        sorted_u64(b),
        b.contains(v),
        0 <= i,
        i + 1 < b.len(),
    ensures
        !(b[i] < v && v < b[i + 1]),
{
    let idx = choose|idx: int| 0 <= idx < b.len() && b[idx] == v;
    if idx <= i {
        assert(b[idx] <= b[i]);
    } else {
        assert(b[i + 1] <= b[idx]);
    }
}

/// Over a span between two adjacent sorted boundaries, covering one
/// address is covering the whole span, so the span's resolution equals
/// the resolution at each of its addresses.
proof fn lemma_span_point(s: Seq<PhysRegion>, b: Seq<u64>, i: int, a: int)
    requires
        sorted_u64(b),
        0 <= i,
        i + 1 < b.len(),
        forall|k: int|
            0 <= k < s.len() ==> b.contains((#[trigger] s[k]).start) && b.contains(s[k].end),
        b[i] <= a < b[i + 1],
    ensures
        max_span_prio(s, b[i] as int, b[i + 1] as int) == max_cover_prio(s, a),
    decreases s.len(),
{
    if s.len() > 0 {
        let t = s.drop_last();
        assert(forall|k: int| 0 <= k < s.len() - 1 ==> #[trigger] t[k] == s[k]);
        lemma_span_point(t, b, i, a);
        let r = s.last();
        assert(r == s[s.len() - 1]);
        if covers(r, a) && !covers_span(r, b[i] as int, b[i + 1] as int) {
            lemma_sorted_between(b, i, r.start);
            lemma_sorted_between(b, i, r.end);
            assert(false);
        }
    }
}

/// Two sequences with equal multisets contain the same values.
proof fn lemma_multiset_contains_eq(s1: Seq<u64>, s2: Seq<u64>)
    requires
        s1.to_multiset() == s2.to_multiset(),
    ensures
        forall|v: u64| s1.contains(v) <==> s2.contains(v),
{
    assert forall|v: u64| s1.contains(v) <==> s2.contains(v) by {
        vstd::seq_lib::to_multiset_contains(s1, v);
        vstd::seq_lib::to_multiset_contains(s2, v);
    }
}

/// The first address of a frame is frame-aligned, and the frame holds its
/// own addresses.
proof fn lemma_page_of(a: int)
    ensures
        page_of(a) % 4096 == 0,
        page_of(a) <= a < page_of(a) + 4096,
{
    vstd::arithmetic::div_mod::lemma_mod_bound(a, 4096);
    vstd::arithmetic::div_mod::lemma_fundamental_div_mod(a, 4096);
    let q = a / 4096;
    assert(page_of(a) == 4096 * q);
    vstd::arithmetic::mul::lemma_mul_is_commutative(4096, q);
    vstd::arithmetic::div_mod::lemma_mod_multiples_basic(q, 4096);
}

/// Every region of a sorted disjoint list ends by the last region's end.
proof fn lemma_sd_ends(s: Seq<PhysRegion>, j: int)
    requires
        wf_sd(s),
        0 <= j < s.len(),
    ensures
        s[j].end <= s[s.len() - 1].end,
{
    if j < s.len() - 1 {
        lemma_sd_ordered(s, j, s.len() - 1);
    }
}

/// When a normalized list marks a whole frame usable, one single usable
/// region contains that frame.
#[verifier::rlimit(100)]
proof fn lemma_page_single_region(s: Seq<PhysRegion>, a: int) -> (j: int)
    requires
        wf_sd(s),
        merged_prop(s),
        map_page_all_usable(s, a),
    ensures
        0 <= j < s.len(),
        s[j].kind == RegionKind::UsableRam,
        covers(s[j], a),
        s[j].start <= page_of(a),
        page_of(a) + 4096 <= s[j].end,
{
    lemma_page_of(a);
    let p = page_of(a);
    assert(map_kind_at(s, p) == Some(RegionKind::UsableRam));
    let j = lemma_map_witness(s, p);
    if s[j].end < p + 4096 {
        let x = s[j].end;
        assert(map_kind_at(s, x as int) == Some(RegionKind::UsableRam));
        let j2 = lemma_map_witness(s, x as int);
        if j2 < j {
            lemma_sd_ordered(s, j2, j);
            assert(false);
        } else if j2 == j {
            assert(false);
        } else if j2 > j + 1 {
            lemma_sd_ordered(s, j + 1, j2);
            assert(false);
        } else {
            assert(j2 == j + 1);
            assert(s[j + 1].start >= s[j].end);
            assert(s[j + 1].start <= x);
            assert(s[j].end == s[j + 1].start);
            assert(s[j].kind != s[j + 1].kind);
            assert(false);
        }
    }
    j
}

/// Invariant step of the usable-RAM trim when the trimmed span survives.
#[verifier::rlimit(100)]
proof fn lemma_align_invariants_kept(
    orig: Seq<PhysRegion>,
    pre: Seq<PhysRegion>,
    r: PhysRegion,
    t: PhysRegion,
    k: int,
)
    requires
        wf_sd(orig),
        merged_prop(orig),
        0 <= k < orig.len(),
        r == orig[k],
        r.kind == RegionKind::UsableRam,
        wf_normalized(pre),
        pre.len() > 0 ==> pre.last().end <= r.start && (pre.last().end == r.start
            ==> pre.last().kind != r.kind),
        forall|a: int|
            (#[trigger] map_kind_at(pre, a)) is Some ==> map_kind_at(orig.take(k), a)
                == map_kind_at(pre, a),
        forall|a: int|
            (#[trigger] map_kind_at(orig.take(k), a)) is Some && map_kind_at(orig.take(k), a)
                != Some(RegionKind::UsableRam) ==> map_kind_at(pre, a) == map_kind_at(
                orig.take(k),
                a,
            ),
        forall|a: int, j: int|
            0 <= j < k && orig[j].kind == RegionKind::UsableRam && #[trigger] covers(orig[j], a)
                && orig[j].start <= page_of(a) && page_of(a) + 4096 <= orig[j].end
                ==> map_kind_at(pre, a) == Some(RegionKind::UsableRam),
        t.kind == RegionKind::UsableRam,
        r.start <= t.start,
        t.end <= r.end,
        t.start < t.end,
        t.start % 4096 == 0,
        t.end % 4096 == 0,
        t.start < r.start + 4096,
        r.end < t.end + 4096,
    ensures
        wf_normalized(pre.push(t)),
        k + 1 < orig.len() ==> pre.push(t).last().end <= orig[k + 1].start && (pre.push(
            t,
        ).last().end == orig[k + 1].start ==> pre.push(t).last().kind != orig[k + 1].kind),
        forall|a: int|
            (#[trigger] map_kind_at(pre.push(t), a)) is Some ==> map_kind_at(orig.take(k + 1), a)
                == map_kind_at(pre.push(t), a),
        forall|a: int|
            (#[trigger] map_kind_at(orig.take(k + 1), a)) is Some && map_kind_at(
                orig.take(k + 1),
                a,
            ) != Some(RegionKind::UsableRam) ==> map_kind_at(pre.push(t), a) == map_kind_at(
                orig.take(k + 1),
                a,
            ),
        forall|a: int, j: int|
            0 <= j < k + 1 && orig[j].kind == RegionKind::UsableRam && #[trigger] covers(
                orig[j],
                a,
            ) && orig[j].start <= page_of(a) && page_of(a) + 4096 <= orig[j].end ==> map_kind_at(
                pre.push(t),
                a,
            ) == Some(RegionKind::UsableRam),
{
    let post = pre.push(t);
    let tk1 = orig.take(k + 1);
    assert(tk1 =~= orig.take(k).push(r));
    lemma_align_common(orig, pre, k);
    // Well-formedness of the extended output list.
    assert forall|i: int| 0 <= i < post.len() implies (#[trigger] post[i]).start < post[i].end by {
        if i < pre.len() {
            assert(post[i] == pre[i]);
        }
    }
    assert forall|i: int, j: int| 0 <= i && i + 1 == j && j < post.len() implies (
    #[trigger] post[i]).end <= (#[trigger] post[j]).start by {
        if j < pre.len() {
            assert(post[i] == pre[i] && post[j] == pre[j]);
        } else {
            assert(post[i] == pre.last() && post[j] == t);
        }
    }
    assert forall|i: int, j: int|
        0 <= i && i + 1 == j && j < post.len() && (#[trigger] post[i]).end == (
    #[trigger] post[j]).start implies post[i].kind != post[j].kind by {
        if j < pre.len() {
            assert(post[i] == pre[i] && post[j] == pre[j]);
        } else {
            assert(post[i] == pre.last() && post[j] == t);
            assert(pre.last().end <= r.start <= t.start);
        }
    }
    assert forall|i: int|
        0 <= i < post.len() && (#[trigger] post[i]).kind == RegionKind::UsableRam implies post[
        i].start % 4096 == 0 && post[i].end % 4096 == 0 by {
        if i < pre.len() {
            assert(post[i] == pre[i]);
        }
    }
    // Soundness and non-RAM completeness.
    assert forall|a: int| (#[trigger] map_kind_at(post, a)) is Some implies map_kind_at(tk1, a)
        == map_kind_at(post, a) by {
        lemma_map_push(pre, t, a);
        lemma_map_push(orig.take(k), r, a);
    }
    assert forall|a: int|
        (#[trigger] map_kind_at(tk1, a)) is Some && map_kind_at(tk1, a) != Some(
            RegionKind::UsableRam,
        ) implies map_kind_at(post, a) == map_kind_at(tk1, a) by {
        lemma_map_push(pre, t, a);
        lemma_map_push(orig.take(k), r, a);
    }
    // Full frames inside the new region stay usable.
    assert forall|a: int, j: int|
        0 <= j < k + 1 && orig[j].kind == RegionKind::UsableRam && #[trigger] covers(orig[j], a)
            && orig[j].start <= page_of(a) && page_of(a) + 4096 <= orig[j].end implies map_kind_at(
        post,
        a,
    ) == Some(RegionKind::UsableRam) by {
        lemma_map_push(pre, t, a);
        if j == k {
            lemma_page_of(a);
            crate::layout::lemma_aligned_le(t.start as int, page_of(a));
            crate::layout::lemma_aligned_le(page_of(a) + 4096, t.end as int);
            assert(covers(t, a));
        }
    }
}

/// Facts shared by the trim steps: earlier regions assign nothing at or
/// past the start of the region under consideration.
#[verifier::rlimit(100)]
proof fn lemma_align_common(orig: Seq<PhysRegion>, pre: Seq<PhysRegion>, k: int)
    requires
        wf_sd(orig),
        0 <= k < orig.len(),
        wf_sd(pre),
        pre.len() > 0 ==> pre.last().end <= orig[k].start,
    ensures
        forall|a: int|
            a >= orig[k].start ==> #[trigger] map_kind_at(orig.take(k), a) == None::<RegionKind>,
        forall|a: int| a >= orig[k].start ==> #[trigger] map_kind_at(pre, a) == None::<RegionKind>,
{
    assert forall|a: int| a >= orig[k].start implies #[trigger] map_kind_at(orig.take(k), a)
        == None::<RegionKind> by {
        assert forall|j: int| 0 <= j < k implies (#[trigger] orig.take(k)[j]).end <= a by {
            lemma_sd_ordered(orig, j, k);
        }
        lemma_map_none_beyond(orig.take(k), a);
    }
    assert forall|a: int| a >= orig[k].start implies #[trigger] map_kind_at(pre, a) == None::<
        RegionKind,
    > by {
        assert forall|j: int| 0 <= j < pre.len() implies (#[trigger] pre[j]).end <= a by {
            lemma_sd_ends(pre, j);
        }
        lemma_map_none_beyond(pre, a);
    }
}

/// Invariant step of the usable-RAM trim when the whole span is dropped:
/// no full frame fits in it.
#[verifier::rlimit(100)]
proof fn lemma_align_dropped_invariants(
    orig: Seq<PhysRegion>,
    pre: Seq<PhysRegion>,
    r: PhysRegion,
    k: int,
)
    requires
        wf_sd(orig),
        merged_prop(orig),
        0 <= k < orig.len(),
        r == orig[k],
        r.kind == RegionKind::UsableRam,
        wf_normalized(pre),
        pre.len() > 0 ==> pre.last().end <= r.start && (pre.last().end == r.start
            ==> pre.last().kind != r.kind),
        forall|a: int|
            (#[trigger] map_kind_at(pre, a)) is Some ==> map_kind_at(orig.take(k), a)
                == map_kind_at(pre, a),
        forall|a: int|
            (#[trigger] map_kind_at(orig.take(k), a)) is Some && map_kind_at(orig.take(k), a)
                != Some(RegionKind::UsableRam) ==> map_kind_at(pre, a) == map_kind_at(
                orig.take(k),
                a,
            ),
        forall|a: int, j: int|
            0 <= j < k && orig[j].kind == RegionKind::UsableRam && #[trigger] covers(orig[j], a)
                && orig[j].start <= page_of(a) && page_of(a) + 4096 <= orig[j].end
                ==> map_kind_at(pre, a) == Some(RegionKind::UsableRam),
        forall|p: int| #[trigger] (p % 4096) == 0 && r.start <= p && p + 4096 <= r.end ==> false,
    ensures
        k + 1 < orig.len() ==> pre.len() > 0 ==> pre.last().end <= orig[k + 1].start && (
        pre.last().end == orig[k + 1].start ==> pre.last().kind != orig[k + 1].kind),
        forall|a: int|
            (#[trigger] map_kind_at(pre, a)) is Some ==> map_kind_at(orig.take(k + 1), a)
                == map_kind_at(pre, a),
        forall|a: int|
            (#[trigger] map_kind_at(orig.take(k + 1), a)) is Some && map_kind_at(
                orig.take(k + 1),
                a,
            ) != Some(RegionKind::UsableRam) ==> map_kind_at(pre, a) == map_kind_at(
                orig.take(k + 1),
                a,
            ),
        forall|a: int, j: int|
            0 <= j < k + 1 && orig[j].kind == RegionKind::UsableRam && #[trigger] covers(
                orig[j],
                a,
            ) && orig[j].start <= page_of(a) && page_of(a) + 4096 <= orig[j].end ==> map_kind_at(
                pre,
                a,
            ) == Some(RegionKind::UsableRam),
{
    let tk1 = orig.take(k + 1);
    assert(tk1 =~= orig.take(k).push(r));
    lemma_align_common(orig, pre, k);
    if k + 1 < orig.len() && pre.len() > 0 {
        assert(pre.last().end <= r.start < r.end <= orig[k + 1].start);
    }
    assert forall|a: int| (#[trigger] map_kind_at(pre, a)) is Some implies map_kind_at(tk1, a)
        == map_kind_at(pre, a) by {
        lemma_map_push(orig.take(k), r, a);
    }
    assert forall|a: int|
        (#[trigger] map_kind_at(tk1, a)) is Some && map_kind_at(tk1, a) != Some(
            RegionKind::UsableRam,
        ) implies map_kind_at(pre, a) == map_kind_at(tk1, a) by {
        lemma_map_push(orig.take(k), r, a);
    }
    assert forall|a: int, j: int|
        0 <= j < k + 1 && orig[j].kind == RegionKind::UsableRam && #[trigger] covers(orig[j], a)
            && orig[j].start <= page_of(a) && page_of(a) + 4096 <= orig[j].end implies map_kind_at(
        pre,
        a,
    ) == Some(RegionKind::UsableRam) by {
        if j == k {
            lemma_page_of(a);
            assert(page_of(a) % 4096 == 0 && r.start <= page_of(a) && page_of(a) + 4096 <= r.end);
            assert(false);
        }
    }
}

/// Invariant step of the trim for a region of any other kind, which is
/// copied unchanged.
#[verifier::rlimit(100)]
proof fn lemma_align_other_invariants(
    orig: Seq<PhysRegion>,
    pre: Seq<PhysRegion>,
    r: PhysRegion,
    k: int,
)
    requires
        wf_sd(orig),
        merged_prop(orig),
        0 <= k < orig.len(),
        r == orig[k],
        r.kind != RegionKind::UsableRam,
        wf_normalized(pre),
        pre.len() > 0 ==> pre.last().end <= r.start && (pre.last().end == r.start
            ==> pre.last().kind != r.kind),
        forall|a: int|
            (#[trigger] map_kind_at(pre, a)) is Some ==> map_kind_at(orig.take(k), a)
                == map_kind_at(pre, a),
        forall|a: int|
            (#[trigger] map_kind_at(orig.take(k), a)) is Some && map_kind_at(orig.take(k), a)
                != Some(RegionKind::UsableRam) ==> map_kind_at(pre, a) == map_kind_at(
                orig.take(k),
                a,
            ),
        forall|a: int, j: int|
            0 <= j < k && orig[j].kind == RegionKind::UsableRam && #[trigger] covers(orig[j], a)
                && orig[j].start <= page_of(a) && page_of(a) + 4096 <= orig[j].end
                ==> map_kind_at(pre, a) == Some(RegionKind::UsableRam),
    ensures
        wf_normalized(pre.push(r)),
        k + 1 < orig.len() ==> pre.push(r).last().end <= orig[k + 1].start && (pre.push(
            r,
        ).last().end == orig[k + 1].start ==> pre.push(r).last().kind != orig[k + 1].kind),
        forall|a: int|
            (#[trigger] map_kind_at(pre.push(r), a)) is Some ==> map_kind_at(orig.take(k + 1), a)
                == map_kind_at(pre.push(r), a),
        forall|a: int|
            (#[trigger] map_kind_at(orig.take(k + 1), a)) is Some && map_kind_at(
                orig.take(k + 1),
                a,
            ) != Some(RegionKind::UsableRam) ==> map_kind_at(pre.push(r), a) == map_kind_at(
                orig.take(k + 1),
                a,
            ),
        forall|a: int, j: int|
            0 <= j < k + 1 && orig[j].kind == RegionKind::UsableRam && #[trigger] covers(
                orig[j],
                a,
            ) && orig[j].start <= page_of(a) && page_of(a) + 4096 <= orig[j].end ==> map_kind_at(
                pre.push(r),
                a,
            ) == Some(RegionKind::UsableRam),
{
    let post = pre.push(r);
    let tk1 = orig.take(k + 1);
    assert(tk1 =~= orig.take(k).push(r));
    lemma_align_common(orig, pre, k);
    assert forall|i: int| 0 <= i < post.len() implies (#[trigger] post[i]).start < post[i].end by {
        if i < pre.len() {
            assert(post[i] == pre[i]);
        }
    }
    assert forall|i: int, j: int| 0 <= i && i + 1 == j && j < post.len() implies (
    #[trigger] post[i]).end <= (#[trigger] post[j]).start by {
        if j < pre.len() {
            assert(post[i] == pre[i] && post[j] == pre[j]);
        } else {
            assert(post[i] == pre.last() && post[j] == r);
        }
    }
    assert forall|i: int, j: int|
        0 <= i && i + 1 == j && j < post.len() && (#[trigger] post[i]).end == (
    #[trigger] post[j]).start implies post[i].kind != post[j].kind by {
        if j < pre.len() {
            assert(post[i] == pre[i] && post[j] == pre[j]);
        } else {
            assert(post[i] == pre.last() && post[j] == r);
        }
    }
    assert forall|i: int|
        0 <= i < post.len() && (#[trigger] post[i]).kind == RegionKind::UsableRam implies post[
        i].start % 4096 == 0 && post[i].end % 4096 == 0 by {
        if i < pre.len() {
            assert(post[i] == pre[i]);
        }
    }
    assert forall|a: int| (#[trigger] map_kind_at(post, a)) is Some implies map_kind_at(tk1, a)
        == map_kind_at(post, a) by {
        lemma_map_push(pre, r, a);
        lemma_map_push(orig.take(k), r, a);
    }
    assert forall|a: int|
        (#[trigger] map_kind_at(tk1, a)) is Some && map_kind_at(tk1, a) != Some(
            RegionKind::UsableRam,
        ) implies map_kind_at(post, a) == map_kind_at(tk1, a) by {
        lemma_map_push(pre, r, a);
        lemma_map_push(orig.take(k), r, a);
    }
    assert forall|a: int, j: int|
        0 <= j < k + 1 && orig[j].kind == RegionKind::UsableRam && #[trigger] covers(orig[j], a)
            && orig[j].start <= page_of(a) && page_of(a) + 4096 <= orig[j].end implies map_kind_at(
        post,
        a,
    ) == Some(RegionKind::UsableRam) by {
        lemma_map_push(pre, r, a);
    }
}

/// A normalized list assigns nothing before the start of its regions.
proof fn lemma_map_none_before(s: Seq<PhysRegion>, a: int)
    requires
        forall|k: int| 0 <= k < s.len() ==> (#[trigger] s[k]).start > a,
    ensures
        map_kind_at(s, a) == None::<RegionKind>,
    decreases s.len(),
{
    if s.len() > 0 {
        let t = s.subrange(1, s.len() as int);
        assert(forall|k: int| 0 <= k < t.len() ==> (#[trigger] t[k]) == s[k + 1]);
        lemma_map_none_before(t, a);
    }
}

/// In a sorted disjoint list, at most one region covers an address.
proof fn lemma_cover_unique(s: Seq<PhysRegion>, a: int, j1: int, j2: int)
    requires
        wf_sd(s),
        0 <= j1 < s.len(),
        0 <= j2 < s.len(),
        covers(s[j1], a),
        covers(s[j2], a),
    ensures
        j1 == j2,
{
    if j1 < j2 {
        lemma_sd_ordered(s, j1, j2);
    } else if j2 < j1 {
        lemma_sd_ordered(s, j2, j1);
    }
}

/// On a sorted disjoint list, priority resolution agrees with the plain
/// first-covering-region reading: covers are unique, so priority never
/// has to break a tie.
pub proof fn lemma_wf_raw_eq_map(s: Seq<PhysRegion>)
    requires
        wf_sd(s),
    ensures
        forall|a: int| #[trigger] raw_kind_at(s, a) == map_kind_at(s, a),
{
    assert forall|a: int| #[trigger] raw_kind_at(s, a) == map_kind_at(s, a) by {
        lemma_raw_bounds(s, a);
        if map_kind_at(s, a) is Some {
            let j = lemma_map_witness(s, a);
            assert(prio(s[j].kind) <= max_cover_prio(s, a));
            assert(max_cover_prio(s, a) != 0);
            let k = choose|k: int|
                0 <= k < s.len() && covers(#[trigger] s[k], a) && prio(s[k].kind)
                    == max_cover_prio(s, a);
            lemma_cover_unique(s, a, j, k);
            lemma_prio_inverse(s[j].kind);
        } else {
            assert forall|k: int| 0 <= k < s.len() implies !covers(#[trigger] s[k], a) by {
                if covers(s[k], a) {
                    lemma_map_covered_some(s, a, k);
                }
            }
            lemma_raw_uncovered(s, a);
        }
    }
}

/// The tail of a well-formed normalized list is well-formed.
proof fn lemma_wf_tail(s: Seq<PhysRegion>)
    requires
        wf_normalized(s),
        s.len() > 0,
    ensures
        wf_normalized(s.subrange(1, s.len() as int)),
{
    let t = s.subrange(1, s.len() as int);
    assert(forall|k: int| 0 <= k < t.len() ==> (#[trigger] t[k]) == s[k + 1]);
    assert forall|i: int, j: int| 0 <= i && i + 1 == j && j < t.len() implies (
    #[trigger] t[i]).end <= (#[trigger] t[j]).start by {
        assert(t[i] == s[i + 1] && t[j] == s[j + 1]);
    }
    assert forall|i: int, j: int|
        0 <= i && i + 1 == j && j < t.len() && (#[trigger] t[i]).end == (
    #[trigger] t[j]).start implies t[i].kind != t[j].kind by {
        assert(t[i] == s[i + 1] && t[j] == s[j + 1]);
    }
}

/// Two well-formed normalized maps that assign every address the same
/// kind are the same list.
proof fn lemma_canonical(s1: Seq<PhysRegion>, s2: Seq<PhysRegion>)
    requires
        wf_normalized(s1),
        wf_normalized(s2),
        forall|a: int| #[trigger] map_kind_at(s1, a) == map_kind_at(s2, a),
    ensures
        s1 == s2,
    decreases s1.len(),
{
    if s1.len() == 0 {
        if s2.len() > 0 {
            lemma_map_covered_some(s2, s2[0].start as int, 0);
            assert(map_kind_at(s1, s2[0].start as int) is Some);
            let j = lemma_map_witness(s1, s2[0].start as int);
            assert(false);
        }
        assert(s1 =~= s2);
    } else if s2.len() == 0 {
        lemma_map_covered_some(s1, s1[0].start as int, 0);
        assert(map_kind_at(s2, s1[0].start as int) is Some);
        let j = lemma_map_witness(s2, s1[0].start as int);
        assert(false);
    } else {
        // Heads agree on start ...
        if s1[0].start < s2[0].start {
            let a = s1[0].start as int;
            lemma_map_covered_some(s1, a, 0);
            assert(map_kind_at(s2, a) is Some);
            let j = lemma_map_witness(s2, a);
            if j > 0 {
                lemma_sd_ordered(s2, 0, j);
            }
            assert(false);
        }
        if s2[0].start < s1[0].start {
            let a = s2[0].start as int;
            lemma_map_covered_some(s2, a, 0);
            assert(map_kind_at(s1, a) is Some);
            let j = lemma_map_witness(s1, a);
            if j > 0 {
                lemma_sd_ordered(s1, 0, j);
            }
            assert(false);
        }
        assert(s1[0].start == s2[0].start);
        // ... on kind ...
        assert(map_kind_at(s1, s1[0].start as int) == Some(s1[0].kind));
        assert(map_kind_at(s2, s2[0].start as int) == Some(s2[0].kind));
        assert(s1[0].kind == s2[0].kind);
        // ... and on end.
        lemma_head_end_eq(s1, s2);
        lemma_head_end_eq(s2, s1);
        assert(s1[0] == s2[0]);
        let t1 = s1.subrange(1, s1.len() as int);
        let t2 = s2.subrange(1, s2.len() as int);
        lemma_wf_tail(s1);
        lemma_wf_tail(s2);
        assert(forall|k: int| 0 <= k < t1.len() ==> (#[trigger] t1[k]) == s1[k + 1]);
        assert(forall|k: int| 0 <= k < t2.len() ==> (#[trigger] t2[k]) == s2[k + 1]);
        assert forall|a: int| #[trigger] map_kind_at(t1, a) == map_kind_at(t2, a) by {
            if a >= s1[0].end {
                assert(map_kind_at(s1, a) == map_kind_at(t1, a));
                assert(map_kind_at(s2, a) == map_kind_at(t2, a));
            } else {
                assert forall|k: int| 0 <= k < t1.len() implies (#[trigger] t1[k]).start > a by {
                    assert(t1[k] == s1[k + 1]);
                    lemma_sd_ordered(s1, 0, k + 1);
                }
                assert forall|k: int| 0 <= k < t2.len() implies (#[trigger] t2[k]).start > a by {
                    assert(t2[k] == s2[k + 1]);
                    lemma_sd_ordered(s2, 0, k + 1);
                }
                lemma_map_none_before(t1, a);
                lemma_map_none_before(t2, a);
            }
        }
        lemma_canonical(t1, t2);
        assert(s1.len() == s2.len());
        assert forall|i: int| 0 <= i < s1.len() implies s1[i] == s2[i] by {
            if i > 0 {
                assert(t1[i - 1] == s1[i]);
                assert(t2[i - 1] == s2[i]);
            }
        }
        assert(s1 =~= s2);
    }
}

/// With equal heads otherwise, the first region of `s1` does not end
/// before the first region of `s2`.
proof fn lemma_head_end_eq(s1: Seq<PhysRegion>, s2: Seq<PhysRegion>)
    requires
        wf_normalized(s1),
        wf_normalized(s2),
        forall|a: int| #[trigger] map_kind_at(s1, a) == map_kind_at(s2, a),
        s1.len() > 0,
        s2.len() > 0,
        s1[0].start == s2[0].start,
        s1[0].kind == s2[0].kind,
    ensures
        s1[0].end >= s2[0].end,
{
    if s1[0].end < s2[0].end {
        let a = s1[0].end as int;
        lemma_map_covered_some(s2, a, 0);
        assert(map_kind_at(s2, a) == Some(s2[0].kind));
        assert(map_kind_at(s1, a) == Some(s2[0].kind));
        let j = lemma_map_witness(s1, a);
        assert(j > 0);
        if j > 1 {
            lemma_sd_ordered(s1, 1, j);
            assert(s1[1].start < s1[1].end);
            assert(false);
        }
        assert(j == 1);
        assert(s1[1].start >= s1[0].end);
        assert(s1[1].start <= a);
        assert(s1[0].end == s1[1].start);
        assert(s1[0].kind != s1[1].kind);
        assert(false);
    }
}

/// Normalization is idempotent: feeding a map that already satisfies the
/// normalized-map contract back through normalization reproduces it
/// exactly. `n1` is the already-normalized input, read as a raw list;
/// `n2` is any output satisfying the normalization contract for it.
pub proof fn lemma_normalize_idempotent(n1: Seq<PhysRegion>, n2: Seq<PhysRegion>)
    requires
        wf_normalized(n1),
        wf_normalized(n2),
        forall|a: int|
            (#[trigger] map_kind_at(n2, a)) is Some ==> raw_kind_at(n1, a) == map_kind_at(n2, a),
        forall|a: int|
            (#[trigger] raw_kind_at(n1, a)) is Some && raw_kind_at(n1, a) != Some(
                RegionKind::UsableRam,
            ) ==> map_kind_at(n2, a) == raw_kind_at(n1, a),
        forall|a: int|
            #[trigger] page_all_usable(n1, a) ==> map_kind_at(n2, a) == Some(RegionKind::UsableRam),
    ensures
        n2 == n1,
{
    lemma_wf_raw_eq_map(n1);
    assert forall|a: int| #[trigger] map_kind_at(n1, a) == map_kind_at(n2, a) by {
        if map_kind_at(n1, a) is Some {
            let j = lemma_map_witness(n1, a);
            if n1[j].kind == RegionKind::UsableRam {
                lemma_page_of(a);
                crate::layout::lemma_aligned_le(n1[j].start as int, page_of(a));
                crate::layout::lemma_aligned_le(page_of(a) + 4096, n1[j].end as int);
                assert forall|x: int| page_of(a) <= x < page_of(a) + 4096 implies #[trigger]
                raw_kind_at(n1, x) == Some(RegionKind::UsableRam) by {
                    assert(covers(n1[j], x));
                    lemma_map_covered_some(n1, x, j);
                    let j2 = lemma_map_witness(n1, x);
                    lemma_cover_unique(n1, x, j, j2);
                }
                assert(page_all_usable(n1, a));
            }
        } else {
            if map_kind_at(n2, a) is Some {
                assert(raw_kind_at(n1, a) == map_kind_at(n2, a));
                assert(false);
            }
        }
    }
    lemma_canonical(n1, n2);
}

/// First usable region at or after index `k` that covers address `a`.
pub open spec fn first_usable_covering(s: Seq<PhysRegion>, a: int, k: int) -> Option<int>
    decreases s.len() - k,
{
    if k < 0 || k >= s.len() {
        None
    } else if s[k].kind == RegionKind::UsableRam && covers(s[k], a) {
        Some(k)
    } else {
        first_usable_covering(s, a, k + 1)
    }
}

/// First usable region at or after index `k`.
pub open spec fn first_usable(s: Seq<PhysRegion>, k: int) -> Option<int>
    decreases s.len() - k,
{
    if k < 0 || k >= s.len() {
        None
    } else if s[k].kind == RegionKind::UsableRam {
        Some(k)
    } else {
        first_usable(s, k + 1)
    }
}

/// The raw region list: spans in insertion order, possibly overlapping.
pub struct MemoryMap {
    regions: Vec<PhysRegion>,
}

impl MemoryMap {
    pub closed spec fn view(&self) -> Seq<PhysRegion> {
        self.regions@
    }

    pub open spec fn wf(&self) -> bool {
        self@.len() <= MAX_REGIONS
    }

    /// An empty raw map.
    pub fn new() -> (r: MemoryMap)
        ensures
            r.wf(),
            r@ =~= Seq::<PhysRegion>::empty(),
    {
        MemoryMap { regions: Vec::new() }
    }

    /// Appends the raw span `[start, start + size)`, saturated at the top
    /// of the address space. Empty spans, and spans beyond the fixed
    /// capacity, are dropped.
    pub fn add_region(&mut self, start: u64, size: u64, kind: RegionKind)
        requires
            old(self).wf(),
        ensures
            final(self).wf(),
            ({
                let end = if start + size <= u64::MAX {
                    (start + size) as u64
                } else {
                    u64::MAX
                };
                if size == 0 || old(self)@.len() >= MAX_REGIONS {
                    final(self)@ == old(self)@
                } else {
                    final(self)@ == old(self)@.push(PhysRegion { start, end, kind })
                }
            }),
    {
        if size == 0 || self.regions.len() >= MAX_REGIONS {
            return ;
        }
        let end = if u64::MAX - start >= size {
            start + size
        } else {
            u64::MAX
        };
        self.regions.push(PhysRegion { start, end, kind });
    }

    /// Appends a raw span given as a range; inverted or empty ranges are
    /// dropped.
    pub fn add_range(&mut self, range: PhysRange, kind: RegionKind)
        requires
            old(self).wf(),
        ensures
            final(self).wf(),
            if range.end <= range.start || old(self)@.len() >= MAX_REGIONS {
                final(self)@ == old(self)@
            } else {
                final(self)@ == old(self)@.push(
                    PhysRegion { start: range.start, end: range.end, kind },
                )
            },
    {
        if range.end <= range.start {
            return ;
        }
        self.add_region(range.start, range.end - range.start, kind);
    }

    /// The raw spans added so far.
    pub fn regions(&self) -> (r: &Vec<PhysRegion>)
        ensures
            r@ == self@,
    {
        &self.regions
    }

    /// Resolves the raw spans into a sorted, disjoint map. Every address
    /// gets the kind of its highest-priority covering span; usable RAM is
    /// then trimmed inward to frame boundaries, so an address keeps a
    /// usable-RAM verdict exactly when it is part of a fully usable
    /// frame, and every other verdict is kept unchanged.
    #[verifier::rlimit(100)]
    pub fn normalize(&self) -> (out: NormalizedMap)
        requires
            self.wf(),
        ensures
            out.wf(),
            forall|a: int|
                (#[trigger] map_kind_at(out@, a)) is Some ==> raw_kind_at(self@, a) == map_kind_at(
                    out@,
                    a,
                ),
            forall|a: int|
                (#[trigger] raw_kind_at(self@, a)) is Some && raw_kind_at(self@, a) != Some(
                    RegionKind::UsableRam,
                ) ==> map_kind_at(out@, a) == raw_kind_at(self@, a),
            forall|a: int|
                #[trigger] page_all_usable(self@, a) ==> map_kind_at(out@, a) == Some(
                    RegionKind::UsableRam,
                ),
    {
        // Collect every span boundary.
        let mut boundaries: Vec<u64> = Vec::new();
        let n = self.regions.len();
        let mut idx: usize = 0;
        while idx < n
            invariant
                n == self@.len() <= MAX_REGIONS,
                idx <= n,
                boundaries@.len() == 2 * idx,
                forall|j: int|
                    0 <= j < idx ==> boundaries@[2 * j] == (#[trigger] self@[j]).start
                        && boundaries@[2 * j + 1] == self@[j].end,
            decreases n - idx,
        {
            let r = self.regions[idx];
            boundaries.push(r.start);
            boundaries.push(r.end);
            idx += 1;
        }
        proof {
            assert forall|j: int| 0 <= j < self@.len() implies boundaries@.contains(
                (#[trigger] self@[j]).start,
            ) && boundaries@.contains(self@[j].end) by {
                assert(boundaries@[2 * j] == self@[j].start);
                assert(boundaries@[2 * j + 1] == self@[j].end);
            }
        }
        let ghost b0 = boundaries@;
        sort_u64(&mut boundaries);
        proof {
            lemma_multiset_contains_eq(b0, boundaries@);
            b0.to_multiset_ensures();
            boundaries@.to_multiset_ensures();
            assert(boundaries@.len() == b0.len());
        }
        let ghost b = boundaries@;
        let mut out = NormalizedMap::new();
        let mut i: usize = 0;
        proof {
            if b.len() > 0 {
                assert forall|a: int| a < b[0] implies #[trigger] map_kind_at(out@, a)
                    == raw_kind_at(self@, a) by {
                    assert forall|jj: int| 0 <= jj < self@.len() implies !covers(
                        #[trigger] self@[jj],
                        a,
                    ) by {
                        let bi = choose|bi: int| 0 <= bi < b.len() && b[bi] == self@[jj].start;
                        assert(b[0] <= b[bi]);
                    }
                    lemma_raw_uncovered(self@, a);
                }
            }
        }
        while i + 1 < boundaries.len()
            invariant
                boundaries@ == b,
                sorted_u64(b),
                n == self@.len(),
                b.len() == 2 * self@.len(),
                b.len() == 0 ==> out@.len() == 0,
                self@.len() <= MAX_REGIONS,
                forall|j: int|
                    0 <= j < self@.len() ==> b.contains((#[trigger] self@[j]).start) && b.contains(
                        self@[j].end,
                    ),
                b.len() > 0 ==> i < b.len(),
                b.len() == 0 ==> i == 0,
                wf_sd(out@),
                out@.len() > 0 && i < b.len() ==> out@.last().end <= b[i as int],
                i < b.len() ==> forall|a: int|
                    a < b[i as int] ==> #[trigger] map_kind_at(out@, a) == raw_kind_at(self@, a),
            decreases b.len() - i,
        {
            let start = boundaries[i];
            let end = boundaries[i + 1];
            if start == end {
                i += 1;
                continue ;
            }
            let mut best: u8 = 0;
            let mut found: Option<RegionKind> = None;
            let mut k: usize = 0;
            proof {
                assert(self@.take(0) =~= Seq::<PhysRegion>::empty());
            }
            while k < n
                invariant
                    n == self@.len(),
                    k <= n,
                    boundaries@ == b,
                    i + 1 < b.len(),
                    start == b[i as int],
                    end == b[i as int + 1],
                    start < end,
                    best as int == max_span_prio(self@.take(k as int), start as int, end as int),
                    best == 0 <==> found is None,
                    best > 0 ==> found == Some(kind_of_prio(best as int)) && best <= 6,
                decreases n - k,
            {
                let r = self.regions[k];
                proof {
                    assert(self@.take(k + 1).drop_last() =~= self@.take(k as int));
                    assert(self@.take(k + 1).last() == self@[k as int]);
                }
                if r.start <= start && r.end >= end {
                    let p = kind_priority(r.kind);
                    if p > best {
                        best = p;
                        found = Some(r.kind);
                        proof {
                            lemma_prio_inverse(r.kind);
                        }
                    }
                }
                k += 1;
            }
            proof {
                assert(self@.take(n as int) =~= self@);
            }
            let ghost pre = out@;
            if let Some(kd) = found {
                out.push(
                    PhysRegion { start, end, kind: kd },
                );
            }
            proof {
                let reg = PhysRegion { start, end, kind: found->Some_0 };
                assert forall|a: int| a < b[i as int + 1] implies #[trigger] map_kind_at(out@, a)
                    == raw_kind_at(self@, a) by {
                    assert forall|jj: int| 0 <= jj < pre.len() implies (#[trigger] pre[jj]).end
                        <= b[i as int] by {
                        lemma_sd_ends(pre, jj);
                    }
                    if a < b[i as int] {
                        if found is Some {
                            lemma_map_push(pre, reg, a);
                        }
                    } else {
                        lemma_span_point(self@, b, i as int, a);
                        lemma_map_none_beyond(pre, a);
                        if found is Some {
                            lemma_map_push(pre, reg, a);
                        }
                    }
                }
                if found is Some {
                    assert forall|ii: int, jj: int|
                        0 <= ii && ii + 1 == jj && jj < out@.len() implies (
                    #[trigger] out@[ii]).end <= (#[trigger] out@[jj]).start by {
                        assert(out@[ii] == pre[ii]);
                        if jj < pre.len() {
                            assert(out@[jj] == pre[jj]);
                        } else {
                            assert(out@[jj] == reg);
                            lemma_sd_ends(pre, ii);
                        }
                    }
                    assert forall|ii: int| 0 <= ii < out@.len() implies (
                    #[trigger] out@[ii]).start < out@[ii].end by {
                        if ii < pre.len() {
                            assert(out@[ii] == pre[ii]);
                        } else {
                            assert(out@[ii] == reg);
                        }
                    }
                }
            }
            i += 1;
        }
        proof {
            if b.len() == 0 {
                assert(self@ =~= Seq::<PhysRegion>::empty());
                assert forall|a: int| #[trigger] map_kind_at(out@, a) == raw_kind_at(self@, a) by {
                    lemma_raw_uncovered(self@, a);
                }
            } else {
                assert(i == b.len() - 1);
                assert forall|a: int| #[trigger] map_kind_at(out@, a) == raw_kind_at(self@, a) by {
                    if a >= b[i as int] {
                        assert forall|jj: int| 0 <= jj < self@.len() implies !covers(
                            #[trigger] self@[jj],
                            a,
                        ) by {
                            let bi = choose|bi: int| 0 <= bi < b.len() && b[bi] == self@[jj].end;
                            assert(b[bi] <= b[b.len() - 1]);
                        }
                        lemma_raw_uncovered(self@, a);
                        assert forall|jj: int| 0 <= jj < out@.len() implies (
                        #[trigger] out@[jj]).end <= a by {
                            lemma_sd_ends(out@, jj);
                        }
                        lemma_map_none_beyond(out@, a);
                    }
                }
            }
        }
        let ghost emitted = out@;
        out.merge_adjacent();
        let ghost merged = out@;
        out.align_usable();
        proof {
            assert forall|a: int| #[trigger] page_all_usable(self@, a) implies map_kind_at(
                out@,
                a,
            ) == Some(RegionKind::UsableRam) by {
                assert(map_page_all_usable(merged, a));
            }
        }
        out
    }
}

/// The normalized map: sorted, disjoint, merged, priority-resolved.
pub struct NormalizedMap {
    regions: Vec<PhysRegion>,
}

impl NormalizedMap {
    pub closed spec fn view(&self) -> Seq<PhysRegion> {
        self.regions@
    }

    pub open spec fn wf(&self) -> bool {
        wf_normalized(self@)
    }

    /// An empty normalized map.
    pub fn new() -> (r: NormalizedMap)
        ensures
            r.wf(),
            r@ =~= Seq::<PhysRegion>::empty(),
    {
        NormalizedMap { regions: Vec::new() }
    }

    /// The normalized regions, sorted ascending and pairwise disjoint.
    pub fn regions(&self) -> (r: &Vec<PhysRegion>)
        ensures
            r@ == self@,
    {
        &self.regions
    }

    /// The usable RAM spans of the map, in ascending order.
    pub fn usable_regions(&self) -> (r: Vec<PhysRange>)
        ensures
            r@ == self@.filter(|pr: PhysRegion| pr.kind == RegionKind::UsableRam).map_values(
                |pr: PhysRegion| PhysRange { start: pr.start, end: pr.end },
            ),
    {
        let mut out: Vec<PhysRange> = Vec::new();
        let mut i: usize = 0;
        proof {
            assert(self@.take(0) =~= Seq::<PhysRegion>::empty());
        }
        while i < self.regions.len()
            invariant
                i <= self.regions.len(),
                out@ == self@.take(i as int).filter(
                    |pr: PhysRegion| pr.kind == RegionKind::UsableRam,
                ).map_values(|pr: PhysRegion| PhysRange { start: pr.start, end: pr.end }),
            decreases self.regions.len() - i,
        {
            let r = self.regions[i];
            proof {
                broadcast use vstd::prelude::Seq::lemma_filter_push;

                let pred = |pr: PhysRegion| pr.kind == RegionKind::UsableRam;
                let g = |pr: PhysRegion| PhysRange { start: pr.start, end: pr.end };
                assert(self@.take(i + 1) =~= self@.take(i as int).push(self@[i as int]));
                if pred(self@[i as int]) {
                    assert(self@.take(i as int).filter(pred).push(self@[i as int]).map_values(g)
                        =~= self@.take(i as int).filter(pred).map_values(g).push(
                        g(self@[i as int]),
                    ));
                }
            }
            if r.kind == RegionKind::UsableRam {
                out.push(PhysRange { start: r.start, end: r.end });
            }
            i += 1;
        }
        proof {
            assert(self@.take(self@.len() as int) =~= self@);
        }
        out
    }

    /// The highest end address of any region in the map; 0 when empty.
    pub fn max_phys_end(&self) -> (r: u64)
        ensures
            forall|i: int| 0 <= i < self@.len() ==> (#[trigger] self@[i]).end <= r,
            r != 0 ==> exists|i: int| 0 <= i < self@.len() && (#[trigger] self@[i]).end == r,
            self@.len() == 0 ==> r == 0,
    {
        let mut best: u64 = 0;
        let mut i: usize = 0;
        while i < self.regions.len()
            invariant
                i <= self@.len(),
                forall|j: int| 0 <= j < i ==> (#[trigger] self@[j]).end <= best,
                best != 0 ==> exists|j: int| 0 <= j < i && (#[trigger] self@[j]).end == best,
            decreases self@.len() - i,
        {
            if self.regions[i].end > best {
                best = self.regions[i].end;
            }
            i += 1;
        }
        best
    }

    /// The end of the usable window that boot-time allocations draw
    /// from: the usable region holding `boot_start`, or, when none
    /// does, the first usable region; 0 when the map has no usable RAM.
    pub fn boot_window_end(&self, boot_start: u64) -> (r: u64)
        ensures
            r == ({
                match first_usable_covering(self@, boot_start as int, 0) {
                    Some(j) => self@[j].end,
                    None => match first_usable(self@, 0) {
                        Some(j) => self@[j].end,
                        None => 0u64,
                    },
                }
            }),
    {
        let mut i: usize = 0;
        while i < self.regions.len()
            invariant
                i <= self@.len(),
                first_usable_covering(self@, boot_start as int, 0) == first_usable_covering(
                    self@,
                    boot_start as int,
                    i as int,
                ),
            decreases self@.len() - i,
        {
            let reg = self.regions[i];
            let usable = match reg.kind {
                RegionKind::UsableRam => true,
                _ => false,
            };
            if usable && reg.start <= boot_start && boot_start < reg.end {
                return reg.end;
            }
            i += 1;
        }
        let mut i: usize = 0;
        while i < self.regions.len()
            invariant
                i <= self@.len(),
                first_usable_covering(self@, boot_start as int, 0) is None,
                first_usable(self@, 0) == first_usable(self@, i as int),
            decreases self@.len() - i,
        {
            let reg = self.regions[i];
            let usable = match reg.kind {
                RegionKind::UsableRam => true,
                _ => false,
            };
            if usable {
                return reg.end;
            }
            i += 1;
        }
        0
    }

    /// Appends a region, without maintaining the map invariant; used only
    /// while a normalized map is being built.
    fn push(&mut self, region: PhysRegion)
        ensures
            final(self)@ == old(self)@.push(region),
    {
        self.regions.push(region);
    }

    /// Merges back-to-back regions of the same kind. Keeps the list
    /// sorted and disjoint and changes no address's assignment.
    #[verifier::rlimit(100)]
    fn merge_adjacent(&mut self)
        requires
            wf_sd(old(self)@),
        ensures
            wf_sd(final(self)@),
            merged_prop(final(self)@),
            forall|a: int|
                #[trigger] map_kind_at(final(self)@, a) == map_kind_at(old(self)@, a),
    {
        if self.regions.len() == 0 {
            return ;
        }
        let ghost orig = self.regions@;
        let mut out: Vec<PhysRegion> = Vec::new();
        let mut current: PhysRegion = self.regions[0];
        let mut k: usize = 1;
        proof {
            assert(out@.push(current) =~= orig.take(1));
        }
        while k < self.regions.len()
            invariant
                self.regions@ == orig,
                wf_sd(orig),
                1 <= k <= orig.len(),
                current.start < current.end,
                current.end == orig[k - 1].end,
                wf_sd(out@.push(current)),
                merged_prop(out@.push(current)),
                forall|a: int|
                    #[trigger] map_kind_at(out@.push(current), a) == map_kind_at(
                        orig.take(k as int),
                        a,
                    ),
            decreases orig.len() - k,
        {
            let r = self.regions[k];
            let ghost pre_out = out@;
            let ghost pre_cur = current;
            if r.kind == current.kind && r.start == current.end {
                current = PhysRegion { start: current.start, end: r.end, kind: current.kind };
                proof {
                    assert(orig.take(k + 1) =~= orig.take(k as int).push(r));
                    assert forall|a: int|
                        #[trigger] map_kind_at(pre_out.push(current), a) == map_kind_at(
                            orig.take(k + 1),
                            a,
                        ) by {
                        lemma_map_push(pre_out, current, a);
                        lemma_map_push(pre_out, pre_cur, a);
                        lemma_map_push(orig.take(k as int), r, a);
                    }
                    let post = pre_out.push(current);
                    let old_post = pre_out.push(pre_cur);
                    assert forall|i: int| 0 <= i < post.len() implies (#[trigger] post[i]).start
                        < post[i].end by {
                        if i < pre_out.len() {
                            assert(post[i] == old_post[i]);
                            assert(old_post[i].start < old_post[i].end);
                        }
                    }
                    assert forall|i: int, j: int| 0 <= i && i + 1 == j && j < post.len() implies (
                    #[trigger] post[i]).end <= (#[trigger] post[j]).start by {
                        assert(old_post[i] == post[i]);
                        if j < pre_out.len() {
                            assert(post[j] == old_post[j]);
                            assert(old_post[i].end <= old_post[j].start);
                        } else {
                            assert(old_post[i].end <= old_post[j].start);
                            assert(old_post[j] == pre_cur);
                        }
                    }
                    assert forall|i: int, j: int|
                        0 <= i && i + 1 == j && j < post.len() && (#[trigger] post[i]).end == (
                    #[trigger] post[j]).start implies post[i].kind != post[j].kind by {
                        assert(old_post[i] == post[i]);
                        if j < pre_out.len() {
                            assert(post[j] == old_post[j]);
                            assert(old_post[i].end == old_post[j].start);
                        } else {
                            assert(old_post[j] == pre_cur);
                            assert(post[j].start == pre_cur.start && post[j].kind == pre_cur.kind);
                            assert(old_post[i].end == old_post[j].start);
                        }
                    }
                }
            } else {
                proof {
                    assert(orig[k - 1].end <= orig[k as int].start);
                    assert(orig.take(k + 1) =~= orig.take(k as int).push(r));
                    assert forall|a: int|
                        #[trigger] map_kind_at(pre_out.push(pre_cur).push(r), a) == map_kind_at(
                            orig.take(k + 1),
                            a,
                        ) by {
                        lemma_map_push(pre_out.push(pre_cur), r, a);
                        lemma_map_push(pre_out, pre_cur, a);
                        lemma_map_push(orig.take(k as int), r, a);
                    }
                    let post = pre_out.push(pre_cur).push(r);
                    let old_post = pre_out.push(pre_cur);
                    assert forall|i: int| 0 <= i < post.len() implies (#[trigger] post[i]).start
                        < post[i].end by {
                        if i < old_post.len() {
                            assert(post[i] == old_post[i]);
                            assert(old_post[i].start < old_post[i].end);
                        } else {
                            assert(post[i] == r);
                        }
                    }
                    assert forall|i: int, j: int| 0 <= i && i + 1 == j && j < post.len() implies (
                    #[trigger] post[i]).end <= (#[trigger] post[j]).start by {
                        assert(post[i] == old_post[i]);
                        if j < old_post.len() {
                            assert(post[j] == old_post[j]);
                            assert(old_post[i].end <= old_post[j].start);
                        } else {
                            assert(post[i] == pre_cur && post[j] == r);
                            assert(pre_cur.end == orig[k - 1].end);
                            assert(orig[k - 1].end <= orig[k as int].start);
                        }
                    }
                    assert forall|i: int, j: int|
                        0 <= i && i + 1 == j && j < post.len() && (#[trigger] post[i]).end == (
                    #[trigger] post[j]).start implies post[i].kind != post[j].kind by {
                        assert(post[i] == old_post[i]);
                        if j < old_post.len() {
                            assert(post[j] == old_post[j]);
                            assert(old_post[i].end == old_post[j].start);
                        } else {
                            assert(post[i] == pre_cur && post[j] == r);
                        }
                    }
                }
                out.push(current);
                current = r;
            }
            k += 1;
        }
        proof {
            assert(orig.take(orig.len() as int) =~= orig);
        }
        out.push(current);
        self.regions = out;
    }

    /// Trims usable RAM spans inward to frame boundaries; a span without
    /// a full frame is dropped entirely. Other kinds are untouched.
    #[verifier::rlimit(100)]
    fn align_usable(&mut self)
        requires
            wf_sd(old(self)@),
            merged_prop(old(self)@),
        ensures
            wf_normalized(final(self)@),
            forall|a: int|
                (#[trigger] map_kind_at(final(self)@, a)) is Some ==> map_kind_at(old(self)@, a)
                    == map_kind_at(final(self)@, a),
            forall|a: int|
                (#[trigger] map_kind_at(old(self)@, a)) is Some && map_kind_at(old(self)@, a)
                    != Some(RegionKind::UsableRam) ==> map_kind_at(final(self)@, a) == map_kind_at(
                    old(self)@,
                    a,
                ),
            forall|a: int|
                #[trigger] map_page_all_usable(old(self)@, a) ==> map_kind_at(final(self)@, a)
                    == Some(RegionKind::UsableRam),
    {
        let ghost orig = self.regions@;
        let mut out: Vec<PhysRegion> = Vec::new();
        let mut k: usize = 0;
        while k < self.regions.len()
            invariant
                self.regions@ == orig,
                wf_sd(orig),
                merged_prop(orig),
                k <= orig.len(),
                wf_normalized(out@),
                out@.len() > 0 && k < orig.len() ==> out@.last().end <= orig[k as int].start && (
                out@.last().end == orig[k as int].start ==> out@.last().kind != orig[
                    k as int
                ].kind),
                forall|a: int|
                    (#[trigger] map_kind_at(out@, a)) is Some ==> map_kind_at(
                        orig.take(k as int),
                        a,
                    ) == map_kind_at(out@, a),
                forall|a: int|
                    (#[trigger] map_kind_at(orig.take(k as int), a)) is Some && map_kind_at(
                        orig.take(k as int),
                        a,
                    ) != Some(RegionKind::UsableRam) ==> map_kind_at(out@, a) == map_kind_at(
                        orig.take(k as int),
                        a,
                    ),
                forall|a: int, j: int|
                    0 <= j < k && orig[j].kind == RegionKind::UsableRam && #[trigger] covers(
                        orig[j],
                        a,
                    ) && orig[j].start <= page_of(a) && page_of(a) + 4096 <= orig[j].end
                        ==> map_kind_at(out@, a) == Some(RegionKind::UsableRam),
            decreases orig.len() - k,
        {
            let r = self.regions[k];
            let ghost pre = out@;
            if r.kind == RegionKind::UsableRam {
                if r.start <= u64::MAX - 4095 {
                    proof {
                        crate::layout::lemma_common_pow2();
                    }
                    let s2 = crate::layout::align_up(r.start, 4096);
                    let e2 = crate::layout::align_down(r.end, 4096);
                    if s2 < e2 {
                        let t = PhysRegion { start: s2, end: e2, kind: RegionKind::UsableRam };
                        out.push(t);
                        proof {
                            lemma_align_invariants_kept(orig, pre, r, t, k as int);
                        }
                    } else {
                        proof {
                            assert forall|p: int|
                                #[trigger] (p % 4096) == 0 && r.start <= p && p + 4096
                                <= r.end implies false by {
                                crate::layout::lemma_aligned_le(s2 as int, p);
                                crate::layout::lemma_aligned_le(p + 4096, e2 as int);
                            }
                            lemma_align_dropped_invariants(orig, pre, r, k as int);
                        }
                    }
                } else {
                    proof {
                        assert forall|p: int|
                            #[trigger] (p % 4096) == 0 && r.start <= p && p + 4096
                            <= r.end implies false by {
                            assert(p + 4096 <= u64::MAX);
                            assert(p >= r.start > u64::MAX - 4095);
                        }
                        lemma_align_dropped_invariants(orig, pre, r, k as int);
                    }
                }
            } else {
                out.push(r);
                proof {
                    lemma_align_other_invariants(orig, pre, r, k as int);
                }
            }
            k += 1;
        }
        proof {
            assert(orig.take(orig.len() as int) =~= orig);
            assert forall|a: int| #[trigger] map_page_all_usable(orig, a) implies map_kind_at(
                out@,
                a,
            ) == Some(RegionKind::UsableRam) by {
                let j = lemma_page_single_region(orig, a);
                assert(covers(orig[j], a));
            }
        }
        self.regions = out;
    }
}

} // verus!
