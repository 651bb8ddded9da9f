//! The address-space builder: two independent two-level translation
//! trees of hardware block descriptors, one identity-mapped low half
//! and one high-half remap. Tables live in a bounded arena and are
//! addressed by index; turning an arena index into the physical table
//! address, and programming the translation registers, is the hardware
//! edge outside this crate.

use vstd::prelude::*;
use crate::layout::KERNEL_VIRT_BASE;
use crate::region::{NormalizedMap, RegionKind};

verus! {

/// Size of the arena of second-level tables; exhausting it at boot is
/// fatal for the caller.
pub const L2_TABLES: usize = 1024;

/// Mapping granularity: one block descriptor covers 2 MiB.
pub const BLOCK_SIZE: u64 = 0x20_0000;

pub const DESC_BLOCK: u64 = 0b01;

pub const DESC_TABLE: u64 = 0b11;

pub const AF_BIT: u64 = 0x400;

pub const UXN_BIT: u64 = 0x0040_0000_0000_0000;

pub const PXN_BIT: u64 = 0x0020_0000_0000_0000;

pub const ATTR_DEVICE: u64 = 0;

pub const ATTR_NORMAL: u64 = 1;

pub const AP_EL1_RW: u64 = 0b00;

pub const AP_EL0_RW: u64 = 0b01;

pub const SH_NONE: u64 = 0b00;

pub const SH_INNER: u64 = 0b11;

/// One 512-entry translation table.
pub struct PageTable {
    pub entries: Vec<u64>,
}

impl PageTable {
    pub open spec fn wf(&self) -> bool {
        self.entries@.len() == 512
    }

    /// A table of empty descriptors.
    pub fn new() -> (r: PageTable)
        ensures
            r.wf(),
            forall|i: int| 0 <= i < 512 ==> r.entries@[i] == 0,
    {
        PageTable { entries: vec![0u64; 512] }
    }

    /// Clears every descriptor.
    pub fn zero(&mut self)
        requires
            old(self).wf(),
        ensures
            final(self).wf(),
            forall|i: int| 0 <= i < 512 ==> final(self).entries@[i] == 0,
    {
        let mut i: usize = 0;
        while i < 512
            invariant
                self.wf(),
                i <= 512,
                forall|j: int| 0 <= j < i ==> self.entries@[j] == 0,
            decreases 512 - i,
        {
            self.entries[i] = 0;
            i += 1;
        }
    }
}

/// The bit pattern of a next-level table descriptor.
pub open spec fn spec_table_desc(pa: u64) -> u64 {
    (pa & 0x0000_FFFF_FFFF_F000) | DESC_TABLE
}

/// Builds a table descriptor pointing at the table at `pa`.
pub fn table_desc(pa: u64) -> (r: u64)
    ensures
        r == spec_table_desc(pa),
{
    (pa & 0x0000_FFFF_FFFF_F000) | DESC_TABLE
}

/// The bit pattern of a 2 MiB block descriptor: valid block bits, the
/// memory-attribute index, the access permission, the shareability, the
/// access flag, the block-aligned physical address, and — for
/// non-executable mappings — both execute-never bits.
pub open spec fn spec_block_desc(pa: u64, attr: u64, ap: u64, sh: u64, xn: bool) -> u64 {
    (DESC_BLOCK | ((attr & 0x7) << 2) | ((ap & 0x3) << 6) | ((sh & 0x3) << 8) | AF_BIT | (pa
        & 0x0000_FFFF_FFE0_0000)) | (if xn {
        UXN_BIT | PXN_BIT
    } else {
        0
    })
}

/// Builds a block descriptor.
pub fn block_desc(pa: u64, attr: u64, ap: u64, sh: u64, xn: bool) -> (r: u64)
    ensures
        r == spec_block_desc(pa, attr, ap, sh, xn),
{
    let base = DESC_BLOCK | ((attr & 0x7) << 2) | ((ap & 0x3) << 6) | ((sh & 0x3) << 8) | AF_BIT
        | (pa & 0x0000_FFFF_FFE0_0000);
    let desc = base | (if xn {
        UXN_BIT | PXN_BIT
    } else {
        0
    });
    desc
}

/// The first-level index of a virtual address: bits 30 to 38.
pub fn l1_index(vaddr: u64) -> (r: usize)
    ensures
        r == ((vaddr >> 30) & 0x1ff) as usize,
        ((vaddr >> 30) & 0x1ff) < 512,
        r == ((vaddr >> 30) & 0x1ff) as int,
        r < 512,
{
    proof {
        assert(((vaddr >> 30) & 0x1ff) < 512) by (bit_vector);
    }
    ((vaddr >> 30) & 0x1ff) as usize
}

/// The second-level index of a virtual address: bits 21 to 29, the
/// 2 MiB block within the first-level slot.
pub fn l2_index(vaddr: u64) -> (r: usize)
    ensures
        r == ((vaddr >> 21) & 0x1ff) as usize,
        ((vaddr >> 21) & 0x1ff) < 512,
        r == ((vaddr >> 21) & 0x1ff) as int,
        r < 512,
{
    proof {
        assert(((vaddr >> 21) & 0x1ff) < 512) by (bit_vector);
    }
    ((vaddr >> 21) & 0x1ff) as usize
}

/// One translation tree: the first level maps each slot to a table in
/// the arena; each arena table holds block descriptors.
pub struct AddressSpace {
    l1_slots: Vec<Option<usize>>,
    pool: Vec<PageTable>,
    owners: Ghost<Seq<usize>>,
}

impl AddressSpace {
    pub closed spec fn l1(&self) -> Seq<Option<usize>> {
        self.l1_slots@
    }

    pub closed spec fn pool_len(&self) -> int {
        self.pool@.len() as int
    }

    pub closed spec fn wf(&self) -> bool {
        &&& self.l1_slots@.len() == 512
        &&& self.pool@.len() <= L2_TABLES
        &&& forall|i: int| 0 <= i < self.pool@.len() ==> (#[trigger] self.pool@[i]).wf()
        &&& forall|i: int|
            0 <= i < 512 && (#[trigger] self.l1_slots@[i]) is Some ==> self.l1_slots@[i]->Some_0
                < self.pool@.len()
        &&& forall|i: int, j: int|
            0 <= i < j < 512 && (#[trigger] self.l1_slots@[i]) is Some && (
            #[trigger] self.l1_slots@[j]) is Some ==> self.l1_slots@[i]->Some_0
                != self.l1_slots@[j]->Some_0
        &&& self.owners@.len() == self.pool@.len()
        &&& forall|t: int|
            0 <= t < self.pool@.len() ==> (#[trigger] self.owners@[t]) < 512
                && self.l1_slots@[self.owners@[t] as int] == Some(t as usize)
    }

    /// The descriptor the tree holds for the given first- and
    /// second-level indices; 0 (an empty descriptor) where no table
    /// exists.
    pub closed spec fn entry(&self, l1i: int, l2i: int) -> u64 {
        match self.l1_slots@[l1i] {
            Some(t) => self.pool@[t as int].entries@[l2i],
            None => 0,
        }
    }

    /// An empty tree.
    pub fn new() -> (r: AddressSpace)
        ensures
            r.wf(),
            r.pool_len() == 0,
            forall|i: int, j: int| 0 <= i < 512 && 0 <= j < 512 ==> r.entry(i, j) == 0,
    {
        AddressSpace { l1_slots: vec![None; 512], pool: Vec::new(), owners: Ghost(Seq::empty()) }
    }

    /// The arena table serving a first-level slot, allocating a zeroed
    /// one when the slot is empty. The arena cannot run out: it holds at
    /// most one table per first-level slot, and the pool is sized past
    /// that, so the hard capacity limit the platform build must respect
    /// is discharged by proof rather than met at run time.
    fn get_l2(&mut self, l1i: usize) -> (t: usize)
        requires
            old(self).wf(),
            l1i < 512,
        ensures
            final(self).wf(),
            t < final(self).pool_len(),
            final(self).l1() =~= old(self).l1().update(l1i as int, Some(t)),
            old(self).l1()[l1i as int] is Some ==> final(self).pool_len() == old(self).pool_len()
                && t == old(self).l1()[l1i as int]->Some_0,
            forall|i: int, j: int|
                0 <= i < 512 && 0 <= j < 512 ==> #[trigger] final(self).entry(i, j) == old(
                    self,
                ).entry(i, j),
    {
        let ghost pre = *self;
        let existing = self.l1_slots[l1i];
        match existing {
            Some(t) => {
                proof {
                    assert(self.l1() =~= self.l1().update(l1i as int, Some(t)));
                }
                t
            },
            None => {
                proof {
                    lemma_pool_bounded(self);
                }
                let t = self.pool.len();
                self.pool.push(PageTable::new());
                self.l1_slots[l1i] = Some(t);
                self.owners = Ghost(self.owners@.push(l1i));
                proof {
                    assert forall|u: int| 0 <= u < self.pool@.len() implies (
                    #[trigger] self.owners@[u]) < 512 && self.l1_slots@[self.owners@[u] as int]
                        == Some(u as usize) by {
                        if u < pre.pool_len() {
                            assert(self.owners@[u] == pre.owners@[u]);
                            assert(pre.l1()[pre.owners@[u] as int] == Some(u as usize));
                        } else {
                            assert(self.owners@[u] == l1i);
                        }
                    }
                    assert forall|i: int, j: int| 0 <= i < 512 && 0 <= j < 512 implies #[trigger]
                    self.entry(i, j) == pre.entry(i, j) by {
                        if i != l1i as int {
                            assert(self.l1_slots@[i] == pre.l1()[i]);
                            match pre.l1()[i] {
                                Some(u) => {
                                    assert(self.pool@[u as int] == pre.pool@[u as int]);
                                },
                                None => {},
                            }
                        } else {
                            assert(pre.entry(i, j) == 0);
                            assert(self.pool@[t as int].entries@[j] == 0);
                        }
                    }
                }
                t
            },
        }
    }

    /// Installs the block descriptor for one 2 MiB-aligned virtual
    /// address, mapping it to `paddr` with the given attributes; every
    /// other descriptor of the tree is untouched.
    pub fn map_block(&mut self, vaddr: u64, paddr: u64, attr: u64, ap: u64, sh: u64, xn: bool)
        requires
            old(self).wf(),
        ensures
            final(self).wf(),
            ({
                let l1i = ((vaddr >> 30) & 0x1ff) as int;
                let l2i = ((vaddr >> 21) & 0x1ff) as int;
                &&& final(self).entry(l1i, l2i) == spec_block_desc(paddr, attr, ap, sh, xn)
                &&& forall|i: int, j: int|
                    0 <= i < 512 && 0 <= j < 512 && !(i == l1i && j == l2i)
                        ==> #[trigger] final(self).entry(i, j) == old(self).entry(i, j)
            }),
    {
        let l1i = l1_index(vaddr);
        let l2i = l2_index(vaddr);
        let ghost pre = *self;
        let t = self.get_l2(l1i);
        let desc = block_desc(paddr, attr, ap, sh, xn);
        let ghost mid = *self;
        let table = vstd::std_specs::vec::vec_index_mut(&mut self.pool, t);
        table.entries[l2i] = desc;
        proof {
            assert(self.l1() == mid.l1());
            assert(self.l1()[l1i as int] == Some(t));
            assert(self.entry(l1i as int, l2i as int) == desc);

            assert forall|i: int, j: int|
                0 <= i < 512 && 0 <= j < 512 && !(i == l1i as int && j == l2i as int) implies
            #[trigger] self.entry(i, j) == pre.entry(i, j) by {
                assert(mid.entry(i, j) == pre.entry(i, j));
                if i != l1i as int {
                    match self.l1()[i] {
                        Some(u) => {
                            assert(u != t);
                            assert(self.pool@[u as int] == mid.pool@[u as int]);
                        },
                        None => {},
                    }
                }
            }
        }
    }

    /// Maps the virtual range `[vstart, vstart + size)` onto the
    /// physical range starting at `pstart`, in 2 MiB blocks, rounding
    /// the range outward to block boundaries; descriptors outside the
    /// rounded range are untouched.
    pub fn map_range(
        &mut self,
        vstart: u64,
        pstart: u64,
        size: u64,
        attr: u64,
        ap: u64,
        sh: u64,
        xn: bool,
    )
        requires
            old(self).wf(),
            vstart + size <= u64::MAX - 0x1F_FFFF,
            pstart + size <= u64::MAX - 0x3F_FFFF,
            size <= 0x40_0000_0000,
        ensures
            final(self).wf(),
            size == 0 ==> *final(self) == *old(self),
            forall|w: u64|
                #[trigger] in_rounded(w, vstart, size) ==> block_entry(*final(self), w)
                    == spec_block_desc(
                    ((pstart as int - pstart as int % 0x20_0000) + (w - (vstart as int
                        - vstart as int % 0x20_0000))) as u64,
                    attr,
                    ap,
                    sh,
                    xn,
                ),
            forall|i: int, j: int|
                0 <= i < 512 && 0 <= j < 512 && (forall|w: u64|
                    in_rounded(w, vstart, size) ==> !(i == ((w >> 30) & 0x1ff) as int && j == ((w
                        >> 21) & 0x1ff) as int)) ==> #[trigger] final(self).entry(i, j) == old(
                    self,
                ).entry(i, j),
    {
        if size == 0 {
            return ;
        }
        proof {
            crate::layout::lemma_common_pow2();
        }
        let mut vaddr = crate::layout::align_down(vstart, BLOCK_SIZE);
        let mut paddr = crate::layout::align_down(pstart, BLOCK_SIZE);
        let ghost valign = vaddr;
        let ghost palign = paddr;
        let end = crate::layout::align_up(vstart + size, BLOCK_SIZE);
        while vaddr < end
            invariant
                self.wf(),
                0 < size,
                size <= 0x40_0000_0000,
                vaddr % 0x20_0000 == 0,
                end % 0x20_0000 == 0,
                valign % 0x20_0000 == 0,
                valign == vstart as int - vstart as int % 0x20_0000,
                palign == pstart as int - pstart as int % 0x20_0000,
                end == crate::layout::aligned_to(vstart as int + size, 0x20_0000),
                valign <= vstart,
                valign > vstart - 0x20_0000,
                vaddr >= valign,
                vaddr <= end,
                palign <= pstart,
                end <= vstart + size + 0x1F_FFFF,
                vstart + size <= u64::MAX - 0x1F_FFFF,
                pstart + size <= u64::MAX - 0x3F_FFFF,
                paddr == palign + (vaddr - valign),
                forall|w: u64|
                    w % 0x20_0000 == 0 && valign <= w < vaddr ==> #[trigger] block_entry(
                        *self,
                        w,
                    ) == spec_block_desc((palign + (w - valign)) as u64, attr, ap, sh, xn),
                forall|i: int, j: int|
                    0 <= i < 512 && 0 <= j < 512 && (forall|w: u64|
                        in_rounded(w, vstart, size) ==> !(i == ((w >> 30) & 0x1ff) as int && j == ((
                        w >> 21) & 0x1ff) as int)) ==> #[trigger] self.entry(i, j) == old(
                        self,
                    ).entry(i, j),
            decreases end - vaddr,
        {
            let ghost pre = *self;
            self.map_block(vaddr, paddr, attr, ap, sh, xn);
            proof {
                assert forall|i: int, j: int|
                    0 <= i < 512 && 0 <= j < 512 && (forall|w: u64|
                        in_rounded(w, vstart, size) ==> !(i == ((w >> 30) & 0x1ff) as int && j == ((
                        w >> 21) & 0x1ff) as int)) implies #[trigger] self.entry(i, j) == old(
                    self,
                ).entry(i, j) by {
                    assert(in_rounded(vaddr, vstart, size));
                    assert(!(i == ((vaddr >> 30) & 0x1ff) as int && j == ((vaddr >> 21)
                        & 0x1ff) as int));
                    assert(pre.entry(i, j) == old(self).entry(i, j));
                }
            }
            proof {
                crate::layout::lemma_aligned_le_unit(vaddr + 0x20_0000, end as int, 0x20_0000);
                assert forall|w: u64|
                    w % 0x20_0000 == 0 && valign <= w < vaddr + 0x20_0000 implies #[trigger]
                block_entry(*self, w) == spec_block_desc(
                    (palign + (w - valign)) as u64,
                    attr,
                    ap,
                    sh,
                    xn,
                ) by {
                    if w < vaddr {
                        lemma_block_index_distinct(w, vaddr);
                        assert(block_entry(*self, w) == block_entry(pre, w));
                    } else {
                        assert(w == vaddr) by {
                            crate::layout::lemma_aligned_le_unit(
                                w as int,
                                vaddr as int,
                                0x20_0000,
                            );
                        }
                    }
                }
            }
            vaddr = vaddr + BLOCK_SIZE;
            paddr = paddr + BLOCK_SIZE;
        }
        proof {
            assert forall|w: u64| #[trigger] in_rounded(w, vstart, size) implies block_entry(
                *self,
                w,
            ) == spec_block_desc(
                ((pstart as int - pstart as int % 0x20_0000) + (w - (vstart as int - vstart as int
                    % 0x20_0000))) as u64,
                attr,
                ap,
                sh,
                xn,
            ) by {
                assert(valign <= w < end);
            }
        }
    }
}

/// Each arena table is owned by exactly one first-level slot, so the
/// pool never grows past the slot count — the arena cannot be
/// exhausted.
proof fn lemma_pool_bounded(s: &AddressSpace)
    requires
        s.wf(),
    ensures
        s.pool_len() <= 512,
{
    let ws = s.owners@.map_values(|v: usize| v as int);
    assert(ws.no_duplicates()) by {
        assert forall|t1: int, t2: int|
            0 <= t1 < ws.len() && 0 <= t2 < ws.len() && t1 != t2 implies ws[t1] != ws[t2] by {
            assert(s.l1()[s.owners@[t1] as int] == Some(t1 as usize));
            assert(s.l1()[s.owners@[t2] as int] == Some(t2 as usize));
        }
    }
    ws.unique_seq_to_set();
    let range = vstd::set_lib::set_int_range(0, 512);
    vstd::set_lib::lemma_int_range(0, 512);
    assert(ws.to_set().subset_of(range)) by {
        assert forall|v: int| ws.to_set().contains(v) implies range.contains(v) by {
            let w = choose|w: int| 0 <= w < ws.len() && ws[w] == v;
            assert(s.owners@[w] < 512);
        }
    }
    vstd::set_lib::lemma_len_subset(ws.to_set(), range);
}

/// True when `w` is one of the 2 MiB-aligned addresses of the nonempty
/// range `[vstart, vstart + size)` rounded outward to block boundaries.
pub open spec fn in_rounded(w: u64, vstart: u64, size: u64) -> bool {
    &&& size > 0
    &&& w % 0x20_0000 == 0
    &&& vstart as int - vstart as int % 0x20_0000 <= w
    &&& (w as int) < crate::layout::aligned_to(vstart as int + size, 0x20_0000)
}

/// A block outside a mapped range keeps its descriptor across the
/// mapping, as long as both sit within one 512 GiB translation window.
proof fn lemma_entry_preserved(
    pre: AddressSpace,
    post: AddressSpace,
    vstart: u64,
    size: u64,
    w0: u64,
    lo: u64,
)
    requires
        size > 0,
        w0 % 0x20_0000 == 0,
        !in_rounded(w0, vstart, size),
        lo <= w0,
        (w0 as int) < lo + 0x80_0000_0000,
        lo <= vstart as int - vstart as int % 0x20_0000,
        crate::layout::aligned_to(vstart as int + size, 0x20_0000) <= lo + 0x80_0000_0000,
        forall|i: int, j: int|
            0 <= i < 512 && 0 <= j < 512 && (forall|w: u64|
                in_rounded(w, vstart, size) ==> !(i == ((w >> 30) & 0x1ff) as int && j == ((w
                    >> 21) & 0x1ff) as int)) ==> #[trigger] post.entry(i, j) == pre.entry(i, j),
    ensures
        block_entry(post, w0) == block_entry(pre, w0),
{
    let i0 = ((w0 >> 30) & 0x1ff) as int;
    let j0 = ((w0 >> 21) & 0x1ff) as int;
    assert(0 <= i0 < 512 && 0 <= j0 < 512) by {
        assert(((w0 >> 30) & 0x1ff) < 512 && ((w0 >> 21) & 0x1ff) < 512) by (bit_vector);
    }
    assert forall|w: u64| in_rounded(w, vstart, size) implies !(i0 == ((w >> 30) & 0x1ff) as int
        && j0 == ((w >> 21) & 0x1ff) as int) by {
        if w < w0 {
            lemma_block_index_distinct(w, w0);
        } else {
            assert(w != w0);
            lemma_block_index_distinct(w0, w);
        }
    }
    assert(post.entry(i0, j0) == pre.entry(i0, j0));
}

/// The descriptor a tree holds for the 2 MiB block containing `va`.
pub open spec fn block_entry(s: AddressSpace, va: u64) -> u64 {
    s.entry(((va >> 30) & 0x1ff) as int, ((va >> 21) & 0x1ff) as int)
}

/// Two distinct block-aligned addresses less than half a terabyte apart
/// select distinct table positions.
proof fn lemma_block_index_distinct(va1: u64, va2: u64)
    by (bit_vector)
    requires
        va1 % 0x20_0000 == 0,
        va2 % 0x20_0000 == 0,
        va1 < va2,
        va2 - va1 < 0x80_0000_0000,
    ensures
        ((va1 >> 30) & 0x1ff) != ((va2 >> 30) & 0x1ff) || ((va1 >> 21) & 0x1ff) != ((va2 >> 21)
            & 0x1ff),
        ((va1 >> 30) & 0x1ff) < 512 && ((va1 >> 21) & 0x1ff) < 512,
        ((va2 >> 30) & 0x1ff) < 512 && ((va2 >> 21) & 0x1ff) < 512,
{
}

/// The descriptor of a user-tree RAM block: identity-mapped, normal
/// write-back memory, unprivileged access, inner-shareable, executable.
pub open spec fn ram_desc_user(w: u64) -> u64 {
    spec_block_desc(w, ATTR_NORMAL, AP_EL0_RW, SH_INNER, false)
}

/// The descriptor of a kernel-tree RAM block: privileged access,
/// otherwise as the user mapping.
pub open spec fn ram_desc_kernel(w: u64) -> u64 {
    spec_block_desc(w, ATTR_NORMAL, AP_EL1_RW, SH_INNER, false)
}

/// The descriptor of a device block: device attribute, non-shareable,
/// never executable at either privilege level.
pub open spec fn device_desc(w: u64) -> u64 {
    spec_block_desc(w, ATTR_DEVICE, AP_EL1_RW, SH_NONE, true)
}

/// True when `w` is a block of the optional extra device window.
pub open spec fn in_extra(extra: Option<(u64, u64)>, w: u64) -> bool {
    match extra {
        Some((base, size)) => in_rounded(w, base, size),
        None => false,
    }
}

/// Shifting a low window into the high half moves its rounded blocks by
/// exactly the high-half base.
proof fn lemma_window_shift(base: u64, size: u64, w: u64)
    requires
        base + size <= 0x40_0000_0000,
        w < 0x8000_0000_0000,
    ensures
        in_rounded(w, base, size) == in_rounded(
            (0xFFFF_8000_0000_0000u64 + w) as u64,
            (0xFFFF_8000_0000_0000u64 + base) as u64,
            size,
        ),
        (0xFFFF_8000_0000_0000u64 + w) as u64 as int == 0xFFFF_8000_0000_0000 + w,
{
    let kvb: int = 0xFFFF_8000_0000_0000;
    assert(kvb == 0x20_0000 * 0x7FF_FC00_0000);
    vstd::arithmetic::div_mod::lemma_mod_multiples_vanish(0x7FF_FC00_0000, w as int, 0x20_0000);
    vstd::arithmetic::div_mod::lemma_mod_multiples_vanish(
        0x7FF_FC00_0000,
        base as int,
        0x20_0000,
    );
    vstd::arithmetic::div_mod::lemma_mod_multiples_vanish(
        0x7FF_FC00_0000,
        base as int + size as int,
        0x20_0000,
    );
}

/// The window's own blocks carry the device descriptor in both trees
/// after the two device-window mapping calls.
proof fn lemma_window_positive(
    u_post: AddressSpace,
    k_post: AddressSpace,
    base: u64,
    size: u64,
    kbase: u64,
)
    requires
        base + size <= 0x40_0000_0000,
        kbase == 0xFFFF_8000_0000_0000 + base,
        forall|w: u64|
            #[trigger] in_rounded(w, base, size) ==> block_entry(u_post, w) == spec_block_desc(
                ((base as int - base as int % 0x20_0000) + (w - (base as int - base as int
                    % 0x20_0000))) as u64,
                ATTR_DEVICE,
                AP_EL1_RW,
                SH_NONE,
                true,
            ),
        forall|w: u64|
            #[trigger] in_rounded(w, kbase, size) ==> block_entry(k_post, w) == spec_block_desc(
                ((base as int - base as int % 0x20_0000) + (w - (kbase as int - kbase as int
                    % 0x20_0000))) as u64,
                ATTR_DEVICE,
                AP_EL1_RW,
                SH_NONE,
                true,
            ),
    ensures
        forall|w: u64|
            #[trigger] in_rounded(w, base, size) ==> block_entry(u_post, w) == device_desc(w)
                && block_entry(k_post, (KERNEL_VIRT_BASE + w) as u64) == device_desc(w),
{
    assert forall|w: u64| #[trigger] in_rounded(w, base, size) implies block_entry(u_post, w)
        == device_desc(w) && block_entry(k_post, (KERNEL_VIRT_BASE + w) as u64) == device_desc(
        w,
    ) by {
        assert((w as int) < crate::layout::aligned_to(base as int + size, 0x20_0000));
        assert(w < 0x40_2000_0000) by {
            assert(crate::layout::aligned_to(base as int + size, 0x20_0000) < base + size
                + 0x20_0000);
        }
        lemma_window_shift(base, size, w);
        assert(0xFFFF_8000_0000_0000 == 0x20_0000 * 0x7FF_FC00_0000);
        vstd::arithmetic::div_mod::lemma_mod_multiples_vanish(
            0x7FF_FC00_0000,
            base as int,
            0x20_0000,
        );
        assert(in_rounded((0xFFFF_8000_0000_0000u64 + w) as u64, (0xFFFF_8000_0000_0000u64
            + base) as u64, size));
    }
}

/// A block outside the just-mapped window keeps its descriptor in both
/// trees, the kernel one at its high-half alias.
proof fn lemma_preserved_pair(
    u_pre: AddressSpace,
    u_post: AddressSpace,
    k_pre: AddressSpace,
    k_post: AddressSpace,
    vbase: u64,
    vsize: u64,
    kbase: u64,
    w: u64,
)
    requires
        0 < vsize,
        vbase + vsize <= 0x40_0000_0000,
        kbase == 0xFFFF_8000_0000_0000 + vbase,
        w % 0x20_0000 == 0,
        w < 0x40_2000_0000,
        !in_rounded(w, vbase, vsize),
        forall|i: int, j: int|
            0 <= i < 512 && 0 <= j < 512 && (forall|ww: u64|
                in_rounded(ww, vbase, vsize) ==> !(i == ((ww >> 30) & 0x1ff) as int && j == ((ww
                    >> 21) & 0x1ff) as int)) ==> #[trigger] u_post.entry(i, j) == u_pre.entry(
                i,
                j,
            ),
        forall|i: int, j: int|
            0 <= i < 512 && 0 <= j < 512 && (forall|ww: u64|
                in_rounded(ww, kbase, vsize) ==> !(i == ((ww >> 30) & 0x1ff) as int && j == ((ww
                    >> 21) & 0x1ff) as int)) ==> #[trigger] k_post.entry(i, j) == k_pre.entry(
                i,
                j,
            ),
    ensures
        block_entry(u_post, w) == block_entry(u_pre, w),
        block_entry(k_post, (KERNEL_VIRT_BASE + w) as u64) == block_entry(
            k_pre,
            (KERNEL_VIRT_BASE + w) as u64,
        ),
{
    assert(crate::layout::aligned_to(vbase as int + vsize, 0x20_0000) < vbase + vsize + 0x20_0000);
    lemma_entry_preserved(u_pre, u_post, vbase, vsize, w, 0);
    lemma_window_shift(vbase, vsize, w);
    assert(0xFFFF_8000_0000_0000 == 0x20_0000 * 0x7FF_FC00_0000);
    vstd::arithmetic::div_mod::lemma_mod_multiples_vanish(
        0x7FF_FC00_0000,
        vbase as int,
        0x20_0000,
    );
    vstd::arithmetic::div_mod::lemma_mod_multiples_vanish(
        0x7FF_FC00_0000,
        vbase as int + vsize as int,
        0x20_0000,
    );
    vstd::arithmetic::div_mod::lemma_mod_multiples_vanish(0x7FF_FC00_0000, w as int, 0x20_0000);
    lemma_entry_preserved(
        k_pre,
        k_post,
        kbase,
        vsize,
        (0xFFFF_8000_0000_0000u64 + w) as u64,
        0xFFFF_8000_0000_0000u64,
    );
}

/// The first `upto` regions of the map are mapped: every block of a
/// non-device region among them carries its RAM descriptor in the user
/// tree and, at its high-half alias, in the kernel tree.
pub open spec fn regions_mapped(
    map: Seq<crate::region::PhysRegion>,
    upto: int,
    user: AddressSpace,
    kernel: AddressSpace,
) -> bool {
    forall|j: int, w: u64|
        0 <= j < upto && map[j].kind != RegionKind::Mmio && #[trigger] in_rounded(
            w,
            map[j].start,
            (map[j].end - map[j].start) as u64,
        ) ==> block_entry(user, w) == ram_desc_user(w) && block_entry(
            kernel,
            (KERNEL_VIRT_BASE + w) as u64,
        ) == ram_desc_kernel(w)
}

/// Reads one block's claim out of `regions_mapped`.
proof fn lemma_regions_mapped_point(
    map: Seq<crate::region::PhysRegion>,
    upto: int,
    user: AddressSpace,
    kernel: AddressSpace,
    j: int,
    w: u64,
)
    requires
        regions_mapped(map, upto, user, kernel),
        0 <= j < upto,
        map[j].kind != RegionKind::Mmio,
        in_rounded(w, map[j].start, (map[j].end - map[j].start) as u64),
    ensures
        block_entry(user, w) == ram_desc_user(w),
        block_entry(kernel, (KERNEL_VIRT_BASE + w) as u64) == ram_desc_kernel(w),
{
}

/// After mapping one more non-device region into both trees, a block of
/// any region handled so far carries its RAM descriptors.
proof fn lemma_region_point(
    map: Seq<crate::region::PhysRegion>,
    i: int,
    u_pre: AddressSpace,
    u_post: AddressSpace,
    k_pre: AddressSpace,
    k_post: AddressSpace,
    start: u64,
    size: u64,
    kbase: u64,
    j: int,
    w: u64,
)
    requires
        0 <= i < map.len(),
        0 <= j < i + 1,
        map[j].kind != RegionKind::Mmio,
        in_rounded(w, map[j].start, (map[j].end - map[j].start) as u64),
        kbase == 0xFFFF_8000_0000_0000 + start,
        forall|j: int| 0 <= j < map.len() ==> (#[trigger] map[j]).end <= 0x40_0000_0000,
        forall|j: int| 0 <= j < map.len() ==> (#[trigger] map[j]).start < map[j].end,
        start == map[i].start,
        size == if map[i].kind != RegionKind::Mmio {
            map[i].end - map[i].start
        } else {
            0
        },
        regions_mapped(map, i, u_pre, k_pre),
        forall|w: u64|
            #[trigger] in_rounded(w, start, size) ==> block_entry(u_post, w) == spec_block_desc(
                ((start as int - start as int % 0x20_0000) + (w - (start as int - start as int
                    % 0x20_0000))) as u64,
                ATTR_NORMAL,
                AP_EL0_RW,
                SH_INNER,
                false,
            ),
        forall|i2: int, j2: int|
            0 <= i2 < 512 && 0 <= j2 < 512 && (forall|ww: u64|
                in_rounded(ww, start, size) ==> !(i2 == ((ww >> 30) & 0x1ff) as int && j2 == ((ww
                    >> 21) & 0x1ff) as int)) ==> #[trigger] u_post.entry(i2, j2) == u_pre.entry(
                i2,
                j2,
            ),
        forall|w: u64|
            #[trigger] in_rounded(w, kbase, size) ==> block_entry(k_post, w) == spec_block_desc(
                ((start as int - start as int % 0x20_0000) + (w - (kbase as int - kbase as int
                    % 0x20_0000))) as u64,
                ATTR_NORMAL,
                AP_EL1_RW,
                SH_INNER,
                false,
            ),
        forall|i2: int, j2: int|
            0 <= i2 < 512 && 0 <= j2 < 512 && (forall|ww: u64|
                in_rounded(ww, kbase, size) ==> !(i2 == ((ww >> 30) & 0x1ff) as int && j2 == ((ww
                    >> 21) & 0x1ff) as int)) ==> #[trigger] k_post.entry(i2, j2) == k_pre.entry(
                i2,
                j2,
            ),
        size == 0 ==> u_post == u_pre && k_post == k_pre,
    ensures
        block_entry(u_post, w) == ram_desc_user(w),
        block_entry(k_post, (KERNEL_VIRT_BASE + w) as u64) == ram_desc_kernel(w),
{
    assert(0xFFFF_8000_0000_0000 == 0x20_0000 * 0x7FF_FC00_0000);
    vstd::arithmetic::div_mod::lemma_mod_multiples_vanish(
        0x7FF_FC00_0000,
        start as int,
        0x20_0000,
    );
    assert(w < 0x40_2000_0000) by {
        assert((w as int) < crate::layout::aligned_to(
            map[j].start as int + (map[j].end - map[j].start),
            0x20_0000,
        ));
        assert(crate::layout::aligned_to(
            map[j].start as int + (map[j].end - map[j].start),
            0x20_0000,
        ) < map[j].end + 0x20_0000);
    }
    if size == 0 {
        assert(j < i);
        assert(block_entry(u_pre, w) == ram_desc_user(w));
        assert(block_entry(u_post, w) == block_entry(u_pre, w));
        assert(block_entry(k_post, (KERNEL_VIRT_BASE + w) as u64) == block_entry(
            k_pre,
            (KERNEL_VIRT_BASE + w) as u64,
        ));
    } else if in_rounded(w, start, size) {
        lemma_window_shift(start, size, w);
        vstd::arithmetic::div_mod::lemma_mod_multiples_vanish(
            0x7FF_FC00_0000,
            w as int,
            0x20_0000,
        );
        assert(block_entry(u_post, w) == ram_desc_user(w));
        assert(block_entry(k_post, (KERNEL_VIRT_BASE + w) as u64) == ram_desc_kernel(w));
    } else {
        assert(j < i);
        assert(block_entry(u_pre, w) == ram_desc_user(w));
        lemma_preserved_pair(u_pre, u_post, k_pre, k_post, start, size, kbase, w);
    }
}

/// The two translation trees of the system: the user (low half,
/// identity) tree and the kernel (high half) tree.
pub struct AddressSpacePair {
    pub user: AddressSpace,
    pub kernel: AddressSpace,
}

/// Builds both translation trees from a normalized map. Every
/// non-device region is block-mapped into the user tree at its identity
/// address with unprivileged access and into the kernel tree at its
/// high-half alias with privileged access; the board peripheral window
/// and the optional extra device window are then mapped into both trees
/// with the device attribute, non-shareable and never executable — a
/// device window laid over a RAM block wins, which the region clause
/// reflects by excluding window blocks. The table arena cannot run out
/// (one table per first-level slot at most), so every given block is
/// mapped.
pub fn init(map: &NormalizedMap, extra_mmio: Option<(u64, u64)>) -> (r: AddressSpacePair)
    requires
        map.wf(),
        forall|j: int| 0 <= j < map@.len() ==> (#[trigger] map@[j]).end <= 0x40_0000_0000,
        match extra_mmio {
            Some((base, size)) => base + size <= 0x40_0000_0000,
            None => true,
        },
    ensures
        r.user.wf(),
        r.kernel.wf(),
        forall|w: u64|
            #[trigger] in_rounded(
                w,
                crate::platform::board::PERIPHERAL_BASE as u64,
                crate::platform::board::PERIPHERAL_SIZE as u64,
            ) ==> block_entry(r.user, w) == device_desc(w) && block_entry(
                r.kernel,
                (KERNEL_VIRT_BASE + w) as u64,
            ) == device_desc(w),
        forall|w: u64|
            #[trigger] in_extra(extra_mmio, w) ==> block_entry(r.user, w) == device_desc(w)
                && block_entry(r.kernel, (KERNEL_VIRT_BASE + w) as u64) == device_desc(w),
        forall|j: int, w: u64|
            #![trigger map@[j], block_entry(r.user, w)]
            0 <= j < map@.len() && map@[j].kind != RegionKind::Mmio && in_rounded(
                w,
                map@[j].start,
                (map@[j].end - map@[j].start) as u64,
            ) && !in_rounded(
                w,
                crate::platform::board::PERIPHERAL_BASE as u64,
                crate::platform::board::PERIPHERAL_SIZE as u64,
            ) && !in_extra(extra_mmio, w) ==> block_entry(r.user, w) == ram_desc_user(w)
                && block_entry(r.kernel, (KERNEL_VIRT_BASE + w) as u64) == ram_desc_kernel(w),
{
    let mut user = AddressSpace::new();
    let mut kernel = AddressSpace::new();
    let regions = map.regions();
    let mut i: usize = 0;
    while i < regions.len()
        invariant
            regions@ == map@,
            map.wf(),
            forall|j: int| 0 <= j < map@.len() ==> (#[trigger] map@[j]).end <= 0x40_0000_0000,
            i <= map@.len(),
            user.wf(),
            kernel.wf(),
            regions_mapped(map@, i as int, user, kernel),
        decreases map@.len() - i,
    {
        let r = regions[i];
        let ghost u_pre = user;
        let ghost k_pre = kernel;
        let keep = match r.kind {
            RegionKind::Mmio => false,
            _ => true,
        };
        // A device region contributes no RAM mapping: its range shrinks
        // to nothing and the calls leave both trees unchanged.
        let start = r.start;
        let size = if keep {
            r.end - r.start
        } else {
            0
        };
        user.map_range(start, start, size, ATTR_NORMAL, AP_EL0_RW, SH_INNER, false);
        let vbase = KERNEL_VIRT_BASE + start;
        kernel.map_range(vbase, start, size, ATTR_NORMAL, AP_EL1_RW, SH_INNER, false);
        proof {
            assert(regions_mapped(map@, i + 1, user, kernel)) by {
                assert forall|j: int, w: u64|
                    0 <= j < i + 1 && map@[j].kind != RegionKind::Mmio && #[trigger] in_rounded(
                        w,
                        map@[j].start,
                        (map@[j].end - map@[j].start) as u64,
                    ) implies block_entry(user, w) == ram_desc_user(w) && block_entry(
                    kernel,
                    (KERNEL_VIRT_BASE + w) as u64,
                ) == ram_desc_kernel(w) by {
                    lemma_region_point(
                        map@,
                        i as int,
                        u_pre,
                        user,
                        k_pre,
                        kernel,
                        start,
                        size,
                        vbase,
                        j,
                        w,
                    );
                }
            }
        }
        i += 1;
    }
    let peri_base = crate::platform::board::PERIPHERAL_BASE as u64;
    let peri_size = crate::platform::board::PERIPHERAL_SIZE as u64;
    let peri_kbase = KERNEL_VIRT_BASE + peri_base;
    let ghost u_r = user;
    let ghost k_r = kernel;
    user.map_range(peri_base, peri_base, peri_size, ATTR_DEVICE, AP_EL1_RW, SH_NONE, true);
    kernel.map_range(peri_kbase, peri_base, peri_size, ATTR_DEVICE, AP_EL1_RW, SH_NONE, true);
    proof {
        lemma_window_positive(user, kernel, peri_base, peri_size, peri_kbase);
    }
    let ghost u_p = user;
    let ghost k_p = kernel;
    match extra_mmio {
        Some((base, size)) => {
            let extra_kbase = KERNEL_VIRT_BASE + base;
            user.map_range(base, base, size, ATTR_DEVICE, AP_EL1_RW, SH_NONE, true);
            kernel.map_range(extra_kbase, base, size, ATTR_DEVICE, AP_EL1_RW, SH_NONE, true);
            proof {
                lemma_window_positive(user, kernel, base, size, extra_kbase);
                assert forall|w: u64|
                    in_rounded(w, peri_base, peri_size) implies block_entry(user, w)
                    == device_desc(w) && block_entry(kernel, (KERNEL_VIRT_BASE + w) as u64)
                    == device_desc(w) by {
                    if size > 0 && !in_rounded(w, base, size) {
                        assert(w < 0x40_2000_0000) by {
                            assert(crate::layout::aligned_to(
                                peri_base as int + peri_size,
                                0x20_0000,
                            ) < peri_base + peri_size + 0x20_0000);
                        }
                        lemma_preserved_pair(u_p, user, k_p, kernel, base, size, extra_kbase, w);
                    } else if size == 0 {
                        assert(*(&user) == u_p && *(&kernel) == k_p);
                    }
                }
            }
        },
        None => {},
    }
    proof {
        let pb = crate::platform::board::PERIPHERAL_BASE as u64;
        let ps = crate::platform::board::PERIPHERAL_SIZE as u64;
        assert(regions_mapped(map@, map@.len() as int, u_r, k_r));
        assert forall|j: int, w: u64|
            0 <= j < map@.len() && (#[trigger] map@[j]).kind != RegionKind::Mmio && in_rounded(
                w,
                map@[j].start,
                (map@[j].end - map@[j].start) as u64,
            ) && !in_rounded(w, pb, ps) && !in_extra(extra_mmio, w) implies #[trigger] block_entry(
            user,
            w,
        ) == ram_desc_user(w) && block_entry(kernel, (KERNEL_VIRT_BASE + w) as u64)
            == ram_desc_kernel(w) by {
            assert(w < 0x40_2000_0000) by {
                assert((w as int) < crate::layout::aligned_to(
                    map@[j].start as int + (map@[j].end - map@[j].start),
                    0x20_0000,
                ));
                assert(crate::layout::aligned_to(
                    map@[j].start as int + (map@[j].end - map@[j].start),
                    0x20_0000,
                ) < map@[j].end + 0x20_0000);
            }
            lemma_regions_mapped_point(map@, map@.len() as int, u_r, k_r, j, w);
            lemma_preserved_pair(u_r, u_p, k_r, k_p, pb, ps, peri_kbase, w);
            match extra_mmio {
                Some((base, size)) => {
                    if size > 0 {
                        lemma_preserved_pair(
                            u_p,
                            user,
                            k_p,
                            kernel,
                            base,
                            size,
                            (KERNEL_VIRT_BASE + base) as u64,
                            w,
                        );
                    } else {
                        assert(*(&user) == u_p && *(&kernel) == k_p);
                    }
                },
                None => {
                    assert(*(&user) == u_p && *(&kernel) == k_p);
                },
            }
        }
    }
    AddressSpacePair { user, kernel }
}

} // verus!