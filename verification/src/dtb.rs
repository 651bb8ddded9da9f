//! Reading the flattened boot-information blob: a pure byte-level
//! walker over the structure block that yields physical memory spans
//! and device descriptions. The blob arrives as a plain byte slice;
//! obtaining it from its boot address is the caller's hardware edge.

use vstd::prelude::*;
use crate::region::{MemoryMap, RegionKind};

verus! {

pub const FDT_MAGIC: u32 = 0xD00D_FEED;

pub const FDT_BEGIN_NODE: u32 = 0x1;

pub const FDT_END_NODE: u32 = 0x2;

pub const FDT_PROP: u32 = 0x3;

pub const FDT_NOP: u32 = 0x4;

pub const FDT_END: u32 = 0x9;

/// Header facts of a parsed blob.
#[derive(Clone, Copy, Debug, Eq, PartialEq, Structural)]
pub struct DtbInfo {
    pub total_size: u32,
}

/// A serial port description read from the blob.
#[derive(Clone, Copy, Debug, Eq, PartialEq, Structural)]
pub struct UartInfo {
    pub addr: u64,
    pub size: u64,
    pub reg_shift: u32,
    pub reg_io_width: u32,
    pub clock_hz: Option<u32>,
    pub skip_init: bool,
}

/// The big-endian 32-bit value at byte offset `off`.
pub open spec fn be32(s: Seq<u8>, off: int) -> u32 {
    (((s[off] as u32) << 24) | ((s[off + 1] as u32) << 16) | ((s[off + 2] as u32) << 8) | (s[off
        + 3] as u32))
}

/// Reads the big-endian 32-bit value at the start of the buffer.
pub fn read_be_u32(buf: &[u8]) -> (r: u32)
    requires
        buf@.len() >= 4,
    ensures
        r == be32(buf@, 0),
{
    be_at(buf, 0)
}

/// Reads the big-endian 32-bit value at byte offset `off`.
fn be_at(buf: &[u8], off: usize) -> (r: u32)
    requires
        off + 4 <= buf@.len(),
    ensures
        r == be32(buf@, off as int),
{
    let b0 = buf[off];
    let b1 = buf[off + 1];
    let b2 = buf[off + 2];
    let b3 = buf[off + 3];
    ((b0 as u32) << 24u32) | ((b1 as u32) << 16u32) | ((b2 as u32) << 8u32) | (b3 as u32)
}

/// Rounds an offset up to the next token boundary.
pub fn align4(value: usize) -> (r: usize)
    requires
        value + 3 <= usize::MAX,
    ensures
        r % 4 == 0,
        value <= r < value + 4,
{
    let w = value + 3;
    proof {
        lemma_align4(w);
    }
    w & !3
}

proof fn lemma_align4(w: usize)
    by (bit_vector)
    ensures
        (w & !3usize) % 4 == 0,
        (w & !3usize) <= w,
        w < (w & !3usize) + 4,
{
}

/// The value of `n` big-endian cells, accumulated high to low into one
/// 64-bit value (earlier cells shift out at the top).
pub open spec fn cells_val(s: Seq<u8>, n: int) -> u64
    decreases n,
{
    if n <= 0 {
        0
    } else {
        (cells_val(s, n - 1) << 32) | (be32(s, (n - 1) * 4) as u64)
    }
}

/// Reads `cells` big-endian cells into one value.
pub fn read_cells(buf: &[u8], cells: u32) -> (r: u64)
    requires
        cells * 4 <= buf@.len(),
    ensures
        r == cells_val(buf@, cells as int),
{
    let n = buf.len();
    let mut value: u64 = 0;
    let mut i: u32 = 0;
    while i < cells
        invariant
            cells * 4 <= buf@.len(),
            n == buf@.len(),
            i <= cells,
            value == cells_val(buf@, i as int),
        decreases cells - i,
    {
        let w = be_at(buf, (i as usize) * 4);
        value = (value << 32u64) | (w as u64);
        i += 1;
    }
    value
}

/// Reads `cells` cells but keeps only the low two, for values wider
/// than an address.
pub fn read_cells_trunc(buf: &[u8], cells: u32) -> (r: u64)
    requires
        cells * 4 <= buf@.len(),
    ensures
        cells <= 2 ==> r == cells_val(buf@, cells as int),
        cells > 2 ==> r == cells_val(buf@.skip((cells - 2) * 4), 2),
{
    if cells <= 2 {
        return read_cells(buf, cells);
    }
    let n = buf.len();
    let start = ((cells - 2) as usize) * 4;
    let sub = vstd::slice::slice_subrange(buf, start, n);
    proof {
        assert(sub@ =~= buf@.skip((cells - 2) * 4));
    }
    read_cells(sub, 2)
}

/// Reads an address of `cells` cells, truncating wide addresses to the
/// low 64 bits.
pub fn read_addr_cells(buf: &[u8], cells: u32) -> (r: u64)
    requires
        cells * 4 <= buf@.len(),
    ensures
        cells <= 2 ==> r == cells_val(buf@, cells as int),
        cells > 2 ==> r == cells_val(buf@.skip((cells - 2) * 4), 2),
{
    if cells > 2 {
        read_cells_trunc(buf, cells)
    } else {
        read_cells(buf, cells)
    }
}

/// True when `name` starts with `prefix`.
pub fn name_starts_with(name: &[u8], prefix: &[u8]) -> (r: bool)
    ensures
        r == (name@.len() >= prefix@.len() && name@.take(prefix@.len() as int) =~= prefix@),
{
    if name.len() < prefix.len() {
        return false;
    }
    let mut i: usize = 0;
    while i < prefix.len()
        invariant
            name@.len() >= prefix@.len(),
            i <= prefix@.len(),
            forall|j: int| 0 <= j < i ==> name@[j] == prefix@[j],
        decreases prefix@.len() - i,
    {
        if name[i] != prefix[i] {
            return false;
        }
        i += 1;
    }
    true
}

/// True when one of the nul-separated strings in `buf` equals
/// `needle`; a positive answer pins an occurrence.
pub fn value_has_string(buf: &[u8], needle: &[u8]) -> (r: bool)
    ensures
        r ==> exists|a: int|
            0 <= a && a + needle@.len() <= buf@.len() && #[trigger] buf@.subrange(
                a,
                a + needle@.len(),
            ) =~= needle@,
{
    let mut start: usize = 0;
    while start < buf.len()
        invariant
            start <= buf@.len() || start <= buf@.len() + 1,
        decreases buf@.len() - start,
    {
        let mut end: usize = start;
        while end < buf.len() && buf[end] != 0
            invariant
                start <= end,
                end <= buf@.len(),
            decreases buf@.len() - end,
        {
            end += 1;
        }
        if end > start && end - start == needle.len() {
            let sub = vstd::slice::slice_subrange(buf, start, end);
            if bytes_equal(sub, needle) {
                proof {
                    assert(buf@.subrange(start as int, start + needle@.len()) =~= needle@);
                }
                return true;
            }
        }
        if end >= buf.len() {
            return false;
        }
        start = end + 1;
    }
    false
}

/// Byte equality of two slices.
fn bytes_equal(a: &[u8], b: &[u8]) -> (r: bool)
    ensures
        r == (a@ =~= b@),
{
    if a.len() != b.len() {
        return false;
    }
    let mut i: usize = 0;
    while i < a.len()
        invariant
            a@.len() == b@.len(),
            i <= a@.len(),
            forall|j: int| 0 <= j < i ==> a@[j] == b@[j],
        decreases a@.len() - i,
    {
        if a[i] != b[i] {
            return false;
        }
        i += 1;
    }
    true
}

/// End of the nul-terminated string starting at `off`.
pub open spec fn nul_end(s: Seq<u8>, off: int) -> int
    decreases s.len() - off,
{
    if off < 0 || off >= s.len() {
        off
    } else if s[off] == 0 {
        off
    } else {
        nul_end(s, off + 1)
    }
}

/// The nul-terminated string at `offset` in the strings block; empty
/// when the offset is out of range.
pub fn get_string(strings: &[u8], offset: usize) -> (r: &[u8])
    ensures
        offset >= strings@.len() ==> r@ =~= Seq::<u8>::empty(),
        offset < strings@.len() ==> r@ =~= strings@.subrange(
            offset as int,
            nul_end(strings@, offset as int),
        ),
{
    if offset >= strings.len() {
        let r = vstd::slice::slice_subrange(strings, 0, 0);
        return r;
    }
    let mut end: usize = offset;
    while end < strings.len() && strings[end] != 0
        invariant
            offset <= end <= strings@.len(),
            nul_end(strings@, offset as int) == nul_end(strings@, end as int),
        decreases strings@.len() - end,
    {
        end += 1;
    }
    proof {
        assert(nul_end(strings@, end as int) == end);
    }
    vstd::slice::slice_subrange(strings, offset, end)
}

/// Byte equality of two paths.
pub fn path_matches(path: &[u8], target: &[u8]) -> (r: bool)
    ensures
        r == (path@ =~= target@),
{
    bytes_equal(path, target)
}

/// A fixed 256-byte string buffer for paths read out of the blob.
pub struct SmallBuf {
    buf: Vec<u8>,
    len: usize,
}

/// Where copying from `src` stops: at a nul, at the optional stop byte,
/// or at the end.
pub open spec fn scan_stop(src: Seq<u8>, stop: Option<u8>, i: int) -> int
    decreases src.len() - i,
{
    if i < 0 || i >= src.len() {
        i
    } else if src[i] == 0 {
        i
    } else if stop is Some && src[i] == stop->Some_0 {
        i
    } else {
        scan_stop(src, stop, i + 1)
    }
}

impl SmallBuf {
    pub closed spec fn view(&self) -> Seq<u8> {
        self.buf@.take(self.len as int)
    }

    pub closed spec fn wf(&self) -> bool {
        self.buf@.len() == 256 && self.len <= 256
    }

    /// An empty buffer.
    pub fn new() -> (r: SmallBuf)
        ensures
            r.wf(),
            r@ =~= Seq::<u8>::empty(),
    {
        SmallBuf { buf: vec![0u8; 256], len: 0 }
    }

    /// Number of bytes held.
    pub fn len(&self) -> (r: usize)
        requires
            self.wf(),
        ensures
            r == self@.len(),
    {
        self.len
    }

    /// Empties the buffer.
    pub fn clear(&mut self)
        requires
            old(self).wf(),
        ensures
            final(self).wf(),
            final(self)@ =~= Seq::<u8>::empty(),
    {
        self.len = 0;
    }

    /// Fills the buffer with the prefix of `src` up to a nul, the
    /// optional stop byte, or the buffer's capacity.
    pub fn set_from(&mut self, src: &[u8], stop: Option<u8>)
        requires
            old(self).wf(),
        ensures
            final(self).wf(),
            final(self)@ == src@.take(
                vstd::math::min(scan_stop(src@, stop, 0), 256) as int,
            ),
    {
        self.len = 0;
        let mut i: usize = 0;
        while i < src.len()
            invariant
                self.wf(),
                i <= src@.len(),
                i < 256,
                self.len == i,
                scan_stop(src@, stop, 0) == scan_stop(src@, stop, i as int),
                self@ == src@.take(i as int),
            decreases src@.len() - i,
        {
            let b = src[i];
            if b == 0 {
                return ;
            }
            match stop {
                Some(s) => {
                    if b == s {
                        return ;
                    }
                },
                None => {},
            }
            self.buf[i] = b;
            self.len = i + 1;
            proof {
                assert(self@ =~= src@.take(i + 1));
            }
            i += 1;
            if i == 256 {
                proof {
                    lemma_scan_stop_bound(src@, stop, i as int);
                }
                return ;
            }
        }
    }

    /// The held bytes.
    pub fn as_slice(&self) -> (r: &[u8])
        requires
            self.wf(),
        ensures
            r@ == self@,
    {
        vstd::slice::slice_subrange(self.buf.as_slice(), 0, self.len)
    }
}

/// The stop scan never runs past the end.
proof fn lemma_scan_stop_bound(src: Seq<u8>, stop: Option<u8>, i: int)
    requires
        0 <= i <= src.len(),
    ensures
        i <= scan_stop(src, stop, i) <= src.len(),
    decreases src.len() - i,
{
    if i < src.len() && src[i] != 0 && !(stop is Some && src[i] == stop->Some_0) {
        lemma_scan_stop_bound(src, stop, i + 1);
    }
}

/// One bus translation window of a node: child addresses map into the
/// parent's space.
#[derive(Clone, Copy, Debug, Eq, PartialEq, Structural)]
pub struct Range {
    pub child_base: u64,
    pub parent_base: u64,
    pub size: u64,
}

/// Cell widths and bus windows of one node on the walk stack.
#[derive(Clone, Copy, Debug)]
pub struct RegNode {
    pub addr_cells: u32,
    pub size_cells: u32,
    pub ranges: [Range; 4],
    pub ranges_len: usize,
}

/// The defaults of a root-level bus node.
fn root_reg_node() -> (r: RegNode)
    ensures
        r.addr_cells == 2 && r.size_cells == 2 && r.ranges_len == 0,
{
    let none = Range { child_base: 0, parent_base: 0, size: 0 };
    RegNode { addr_cells: 2, size_cells: 2, ranges: [none, none, none, none], ranges_len: 0 }
}

/// Translates a device address upward through the bus windows of its
/// ancestors. A node without windows is a transparent bus; an address
/// outside every window of a windowed bus, or one whose translation
/// leaves the address space, does not translate.
pub fn translate_addr(addr: u64, depth: usize, stack: &Vec<RegNode>) -> (r: Option<u64>)
    requires
        stack@.len() == 32,
        depth <= 32,
        forall|i: int| 0 <= i < 32 ==> (#[trigger] stack@[i]).ranges_len <= 4,
    ensures
        depth == 0 ==> r == Some(addr),
{
    let mut cur = addr;
    if depth == 0 {
        return Some(cur);
    }
    let mut idx = depth - 1;
    while idx > 0
        invariant
            stack@.len() == 32,
            idx < 32,
            0 < depth,
            forall|i: int| 0 <= i < 32 ==> (#[trigger] stack@[i]).ranges_len <= 4,
        decreases idx,
    {
        let parent = &stack[idx - 1];
        if parent.ranges_len > 0 {
            let mut mapped: Option<u64> = None;
            let mut i: usize = 0;
            while i < parent.ranges_len
                invariant
                    parent.ranges_len <= 4,
                    i <= parent.ranges_len,
                decreases parent.ranges_len - i,
            {
                let range = parent.ranges[i];
                let in_window = range.child_base <= cur && range.size <= u64::MAX - range.child_base
                    && cur < range.child_base + range.size;
                if in_window {
                    let delta = cur - range.child_base;
                    if delta <= u64::MAX - range.parent_base {
                        mapped = Some(range.parent_base + delta);
                    }
                    break ;
                }
                i += 1;
            }
            match mapped {
                Some(next) => {
                    cur = next;
                },
                None => {
                    return None;
                },
            }
        }
        idx -= 1;
    }
    Some(cur)
}

impl SmallBuf {
    /// Appends one byte; a full buffer stays unchanged.
    pub fn push_byte(&mut self, b: u8) -> (r: bool)
        requires
            old(self).wf(),
        ensures
            final(self).wf(),
            r == (old(self)@.len() < 256),
            r ==> final(self)@ == old(self)@.push(b),
            !r ==> final(self)@ == old(self)@,
    {
        if self.len >= 256 {
            return false;
        }
        self.buf[self.len] = b;
        self.len = self.len + 1;
        proof {
            assert(self@ =~= old(self)@.push(b));
        }
        true
    }

    /// Cuts the buffer back to `n` bytes (a no-op when already shorter).
    pub fn truncate(&mut self, n: usize)
        requires
            old(self).wf(),
        ensures
            final(self).wf(),
            final(self)@ == old(self)@.take(vstd::math::min(n as int, old(self)@.len() as int)),
    {
        if n < self.len {
            self.len = n;
            proof {
                assert(self@ =~= old(self)@.take(n as int));
            }
        } else {
            proof {
                assert(self@ =~= old(self)@.take(old(self)@.len() as int));
            }
        }
    }
}

/// The three blocks of a framed blob: structure bytes, string bytes,
/// and the declared total size. `None` when the frame is unusable.
fn blob_blocks<'a>(blob: &'a [u8]) -> (r: Option<(&'a [u8], &'a [u8], u32)>)
    requires
        blob@.len() <= 0xFFFF_FF00,
    ensures
        r is Some ==> blob@.len() >= 40 && be32(blob@, 0) == FDT_MAGIC && r->Some_0.0@.len()
            <= blob@.len() && r->Some_0.1@.len() <= blob@.len() && r->Some_0.2 == be32(blob@, 4),
{
    if blob.len() < 40 {
        return None;
    }
    let magic = be_at(blob, 0);
    if magic != FDT_MAGIC {
        return None;
    }
    let total_size = be_at(blob, 4);
    let off_dt_struct = be_at(blob, 8) as usize;
    let off_dt_strings = be_at(blob, 12) as usize;
    let size_dt_struct = be_at(blob, 36) as usize;
    let size_dt_strings = be_at(blob, 32) as usize;
    if off_dt_struct > blob.len() || size_dt_struct > blob.len() - off_dt_struct {
        return None;
    }
    if off_dt_strings > blob.len() || size_dt_strings > blob.len() - off_dt_strings {
        return None;
    }
    let struct_block = vstd::slice::slice_subrange(blob, off_dt_struct, off_dt_struct
        + size_dt_struct);
    let strings_block = vstd::slice::slice_subrange(blob, off_dt_strings, off_dt_strings
        + size_dt_strings);
    Some((struct_block, strings_block, total_size))
}

/// Copies the console path named under the chosen node, cut at the
/// configuration colon, into `out`; `out` stays empty when the blob or
/// the property is missing.
pub fn scan_stdout_path(blob: &[u8], out: &mut SmallBuf)
    requires
        blob@.len() <= 0xFFFF_FF00,
        old(out).wf(),
    ensures
        final(out).wf(),
{
    out.clear();
    let blocks = match blob_blocks(blob) {
        Some(b) => b,
        None => {
            return ;
        },
    };
    let (struct_block, strings_block, _total) = blocks;
    let len = struct_block.len();
    if len < 4 {
        return ;
    }
    let chosen_word: Vec<u8> = vec![99, 104, 111, 115, 101, 110];
    let stdout_word: Vec<u8> = vec![115, 116, 100, 111, 117, 116, 45, 112, 97, 116, 104];
    let mut offset: usize = 0;
    let mut depth: usize = 0;
    let mut in_chosen = false;
    let mut chosen_depth: usize = 0;
    while offset <= len - 4
        invariant
            out.wf(),
            4 <= len,
            len == struct_block@.len(),
            len <= 0xFFFF_FF00,
            offset <= len + 4,
            depth <= 0xFFFF_FF00,
        decreases len + 4 - offset,
    {
        let token = be_at(struct_block, offset);
        offset = offset + 4;
        if token == FDT_BEGIN_NODE {
            let name_start = offset;
            while offset < len && struct_block[offset] != 0
                invariant
                    name_start <= offset <= len,
                    len == struct_block@.len(),
                decreases len - offset,
            {
                offset = offset + 1;
            }
            let name = vstd::slice::slice_subrange(struct_block, name_start, offset);
            let is_root = depth == 0 && name.len() == 0;
            if depth < 0xFFFF_FF00 {
                depth = depth + 1;
            }
            if !is_root && depth == 2 && path_matches(name, chosen_word.as_slice()) {
                in_chosen = true;
                chosen_depth = depth;
            }
            offset = align4(offset + 1);
        } else if token == FDT_END_NODE {
            if in_chosen && depth == chosen_depth {
                in_chosen = false;
            }
            if depth > 0 {
                depth = depth - 1;
            }
        } else if token == FDT_PROP {
            if len - offset < 8 {
                return ;
            }
            let plen = be_at(struct_block, offset) as usize;
            let nameoff = be_at(struct_block, offset + 4) as usize;
            offset = offset + 8;
            if plen > len - offset {
                return ;
            }
            let value = vstd::slice::slice_subrange(struct_block, offset, offset + plen);
            offset = align4(offset + plen);
            if in_chosen {
                let name = get_string(strings_block, nameoff);
                if path_matches(name, stdout_word.as_slice()) {
                    out.set_from(value, Some(58));
                    return ;
                }
            }
        } else if token == FDT_NOP {
        } else {
            return ;
        }
    }
}

/// Copies the path an alias name stands for into `out`; reports whether
/// the alias was found.
pub fn read_alias_path(blob: &[u8], alias: &[u8], out: &mut SmallBuf) -> (r: bool)
    requires
        blob@.len() <= 0xFFFF_FF00,
        old(out).wf(),
    ensures
        final(out).wf(),
{
    out.clear();
    let blocks = match blob_blocks(blob) {
        Some(b) => b,
        None => {
            return false;
        },
    };
    let (struct_block, strings_block, _total) = blocks;
    let len = struct_block.len();
    if len < 4 {
        return false;
    }
    let aliases_word: Vec<u8> = vec![97, 108, 105, 97, 115, 101, 115];
    let mut offset: usize = 0;
    let mut depth: usize = 0;
    let mut in_aliases = false;
    let mut aliases_depth: usize = 0;
    while offset <= len - 4
        invariant
            out.wf(),
            4 <= len,
            len == struct_block@.len(),
            len <= 0xFFFF_FF00,
            offset <= len + 4,
            depth <= 0xFFFF_FF00,
        decreases len + 4 - offset,
    {
        let token = be_at(struct_block, offset);
        offset = offset + 4;
        if token == FDT_BEGIN_NODE {
            let name_start = offset;
            while offset < len && struct_block[offset] != 0
                invariant
                    name_start <= offset <= len,
                    len == struct_block@.len(),
                decreases len - offset,
            {
                offset = offset + 1;
            }
            let name = vstd::slice::slice_subrange(struct_block, name_start, offset);
            let is_root = depth == 0 && name.len() == 0;
            if depth < 0xFFFF_FF00 {
                depth = depth + 1;
            }
            if !is_root && depth == 2 && path_matches(name, aliases_word.as_slice()) {
                in_aliases = true;
                aliases_depth = depth;
            }
            offset = align4(offset + 1);
        } else if token == FDT_END_NODE {
            if in_aliases && depth == aliases_depth {
                in_aliases = false;
            }
            if depth > 0 {
                depth = depth - 1;
            }
        } else if token == FDT_PROP {
            if len - offset < 8 {
                return false;
            }
            let plen = be_at(struct_block, offset) as usize;
            let nameoff = be_at(struct_block, offset + 4) as usize;
            offset = offset + 8;
            if plen > len - offset {
                return false;
            }
            let value = vstd::slice::slice_subrange(struct_block, offset, offset + plen);
            offset = align4(offset + plen);
            if in_aliases {
                let name = get_string(strings_block, nameoff);
                if path_matches(name, alias) {
                    out.set_from(value, None);
                    return true;
                }
            }
        } else if token == FDT_NOP {
        } else {
            return false;
        }
    }
    false
}

/// True when the path names a device behind the auxiliary I/O bridge,
/// whose bus addresses need the fixed translation below.
pub fn is_rp1_path(path: &[u8]) -> (r: bool)
    ensures
        r == (path@.len() >= 25 && path@.take(25) =~= rp1_prefix()),
{
    let prefix: Vec<u8> = vec![
        47,
        97,
        120,
        105,
        47,
        112,
        99,
        105,
        101,
        64,
        49,
        48,
        48,
        48,
        49,
        50,
        48,
        48,
        48,
        48,
        47,
        114,
        112,
        49,
        47,
    ];
    proof {
        assert(prefix@ =~= rp1_prefix());
    }
    name_starts_with(path, prefix.as_slice())
}

/// The path prefix of devices behind the auxiliary I/O bridge.
pub open spec fn rp1_prefix() -> Seq<u8> {
    seq![
        47u8,
        97,
        120,
        105,
        47,
        112,
        99,
        105,
        101,
        64,
        49,
        48,
        48,
        48,
        49,
        50,
        48,
        48,
        48,
        48,
        47,
        114,
        112,
        49,
        47,
    ]
}

/// Maps a bridge-local bus address to its fixed physical window.
pub fn rp1_fixup(addr: u64) -> (r: u64)
    requires
        addr < 0xFF00_0000_0000,
    ensures
        addr >= 0xC0_4000_0000 ==> r == 0x1C_0000_0000 + (addr - 0xC0_4000_0000),
        addr < 0xC0_4000_0000 ==> r == 0x1C_0000_0000 + addr,
{
    let child_base: u64 = 0xC0_4000_0000;
    let phys_base: u64 = 0x1C_0000_0000;
    if addr >= child_base {
        phys_base + (addr - child_base)
    } else {
        phys_base + addr
    }
}

/// Walks the tree towards the node at `target` (a full slash-joined
/// path), collecting register-layout and clocking properties on the
/// way, and returns the node's first register span translated through
/// its ancestors' bus windows. `None` when the blob is unusable, the
/// node is missing, or its address does not translate.
pub fn find_reg_by_path(blob: &[u8], target: &[u8]) -> (r: Option<UartInfo>)
    requires
        blob@.len() <= 0xFFFF_FF00,
    ensures
        r is Some ==> blob@.len() >= 40 && be32(blob@, 0) == FDT_MAGIC,
{
    let blocks = match blob_blocks(blob) {
        Some(b) => b,
        None => {
            return None;
        },
    };
    let (struct_block, strings_block, _total) = blocks;
    let len = struct_block.len();
    if len < 4 {
        return None;
    }
    let addr_cells_word: Vec<u8> = vec![35, 97, 100, 100, 114, 101, 115, 115, 45, 99, 101, 108, 108, 115];
    let size_cells_word: Vec<u8> = vec![35, 115, 105, 122, 101, 45, 99, 101, 108, 108, 115];
    let ranges_word: Vec<u8> = vec![114, 97, 110, 103, 101, 115];
    let reg_word: Vec<u8> = vec![114, 101, 103];
    let reg_shift_word: Vec<u8> = vec![114, 101, 103, 45, 115, 104, 105, 102, 116];
    let reg_io_width_word: Vec<u8> = vec![114, 101, 103, 45, 105, 111, 45, 119, 105, 100, 116, 104];
    let clock_word: Vec<u8> = vec![
        99,
        108,
        111,
        99,
        107,
        45,
        102,
        114,
        101,
        113,
        117,
        101,
        110,
        99,
        121,
    ];
    let skip_word: Vec<u8> = vec![115, 107, 105, 112, 45, 105, 110, 105, 116];
    let mut stack: Vec<RegNode> = vec![root_reg_node();32];
    let mut path = SmallBuf::new();
    let mut path_len_stack: Vec<usize> = vec![0;32];
    let mut depth: usize = 0;
    let mut reg_shift: u32 = 0;
    let mut reg_io_width: u32 = 4;
    let mut clock_hz: Option<u32> = None;
    let mut skip_init = false;
    let mut offset: usize = 0;
    while offset <= len - 4
        invariant
            4 <= len,
            len == struct_block@.len(),
            len <= 0xFFFF_FF00,
            offset <= len + 4,
            stack@.len() == 32,
            path_len_stack@.len() == 32,
            path.wf(),
            depth <= 32,
            forall|i: int| 0 <= i < 32 ==> (#[trigger] stack@[i]).ranges_len <= 4,
            blob@.len() >= 40,
            be32(blob@, 0) == FDT_MAGIC,
        decreases len + 4 - offset,
    {
        let token = be_at(struct_block, offset);
        offset = offset + 4;
        if token == FDT_BEGIN_NODE {
            let name_start = offset;
            while offset < len && struct_block[offset] != 0
                invariant
                    name_start <= offset <= len,
                    len == struct_block@.len(),
                decreases len - offset,
            {
                offset = offset + 1;
            }
            let name = vstd::slice::slice_subrange(struct_block, name_start, offset);
            if depth < 32 {
                path_len_stack[depth] = path.len();
            }
            let is_root = depth == 0 && name.len() == 0;
            if !is_root {
                let _ = path.push_byte(47);
                let mut ni: usize = 0;
                while ni < name.len()
                    invariant
                        path.wf(),
                        ni <= name@.len(),
                    decreases name@.len() - ni,
                {
                    let _ = path.push_byte(name[ni]);
                    ni += 1;
                }
            }
            let parent = if depth == 0 {
                root_reg_node()
            } else {
                stack[depth - 1]
            };
            let mut ctx = parent;
            ctx.ranges_len = 0;
            if depth < 32 {
                stack[depth] = ctx;
                depth = depth + 1;
            }
            offset = align4(offset + 1);
        } else if token == FDT_END_NODE {
            if depth > 0 {
                depth = depth - 1;
                path.truncate(path_len_stack[depth]);
            }
        } else if token == FDT_PROP {
            if len - offset < 8 {
                return None;
            }
            let plen = be_at(struct_block, offset) as usize;
            let nameoff = be_at(struct_block, offset + 4) as usize;
            offset = offset + 8;
            if plen > len - offset {
                return None;
            }
            let value = vstd::slice::slice_subrange(struct_block, offset, offset + plen);
            offset = align4(offset + plen);
            if depth == 0 {
                continue ;
            }
            let name = get_string(strings_block, nameoff);
            let here = stack[depth - 1];
            let parent_addr_cells: u32 = if depth >= 2 {
                stack[depth - 2].addr_cells
            } else {
                0
            };
            if path_matches(name, addr_cells_word.as_slice()) {
                if plen >= 4 {
                    let mut ctx = here;
                    ctx.addr_cells = read_be_u32(value);
                    stack[depth - 1] = ctx;
                }
            } else if path_matches(name, size_cells_word.as_slice()) {
                if plen >= 4 {
                    let mut ctx = here;
                    ctx.size_cells = read_be_u32(value);
                    stack[depth - 1] = ctx;
                }
            } else if path_matches(name, ranges_word.as_slice()) {
                let tuple_cells: u64 = here.addr_cells as u64 + parent_addr_cells as u64
                    + here.size_cells as u64;
                let entry_bytes64: u64 = tuple_cells * 4;
                if tuple_cells > 0 && entry_bytes64 <= value.len() as u64 {
                    let entry_bytes = entry_bytes64 as usize;
                    let ac_bytes = (here.addr_cells as usize) * 4;
                    let pac_bytes = (parent_addr_cells as usize) * 4;
                    let mut ctx = here;
                    ctx.ranges_len = 0;
                    let mut pos: usize = 0;
                    while pos <= value.len() - entry_bytes && ctx.ranges_len < 4
                        invariant
                            entry_bytes == (here.addr_cells + parent_addr_cells
                                + here.size_cells) * 4,
                            ac_bytes == here.addr_cells * 4,
                            pac_bytes == parent_addr_cells * 4,
                            0 < entry_bytes,
                            entry_bytes <= value@.len(),
                            pos <= value@.len(),
                            ctx.ranges_len <= 4,
                            value@.len() <= 0xFFFF_FF00,
                        decreases value@.len() - pos,
                    {
                        let child_slice = vstd::slice::slice_subrange(value, pos, pos + ac_bytes);
                        let parent_slice = vstd::slice::slice_subrange(value, pos + ac_bytes, pos
                            + ac_bytes + pac_bytes);
                        let size_slice = vstd::slice::slice_subrange(value, pos + ac_bytes
                            + pac_bytes, pos + entry_bytes);
                        let child_base = read_addr_cells(child_slice, here.addr_cells);
                        let parent_base = read_cells_trunc(parent_slice, parent_addr_cells);
                        let size = read_cells(size_slice, here.size_cells);
                        ctx.ranges[ctx.ranges_len] = Range { child_base, parent_base, size };
                        ctx.ranges_len = ctx.ranges_len + 1;
                        pos = pos + entry_bytes;
                    }
                    stack[depth - 1] = ctx;
                }
            } else if path_matches(name, reg_shift_word.as_slice()) {
                if path_matches(path.as_slice(), target) && plen >= 4 {
                    reg_shift = read_be_u32(value);
                }
            } else if path_matches(name, reg_io_width_word.as_slice()) {
                if path_matches(path.as_slice(), target) && plen >= 4 {
                    reg_io_width = read_be_u32(value);
                }
            } else if path_matches(name, clock_word.as_slice()) {
                if path_matches(path.as_slice(), target) && plen >= 4 {
                    clock_hz = Some(read_be_u32(value));
                }
            } else if path_matches(name, skip_word.as_slice()) {
                if path_matches(path.as_slice(), target) {
                    skip_init = true;
                }
            } else if path_matches(name, reg_word.as_slice()) {
                if path_matches(path.as_slice(), target) {
                    let tuple_cells: u64 = here.addr_cells as u64 + here.size_cells as u64;
                    let entry_bytes64: u64 = tuple_cells * 4;
                    if tuple_cells > 0 && entry_bytes64 <= value.len() as u64 {
                        let entry_bytes = entry_bytes64 as usize;
                        let ac_bytes = (here.addr_cells as usize) * 4;
                        let addr_slice = vstd::slice::slice_subrange(value, 0, ac_bytes);
                        let size_slice = vstd::slice::slice_subrange(value, ac_bytes, entry_bytes);
                        let addr = read_addr_cells(addr_slice, here.addr_cells);
                        let size = read_cells(size_slice, here.size_cells);
                        let mut phys = translate_addr(addr, depth, &stack);
                        let bridged = is_rp1_path(path.as_slice());
                        if phys.is_none() && bridged && addr < 0xFF00_0000_0000 {
                            phys = Some(rp1_fixup(addr));
                        }
                        let phys = match phys {
                            Some(p) => {
                                if bridged && p < 0x1_0000_0000 && addr < 0xFF00_0000_0000 {
                                    rp1_fixup(addr)
                                } else {
                                    p
                                }
                            },
                            None => {
                                return None;
                            },
                        };
                        return Some(
                            UartInfo {
                                addr: phys,
                                size,
                                reg_shift,
                                reg_io_width,
                                clock_hz,
                                skip_init,
                            },
                        );
                    }
                }
            }
        } else if token == FDT_NOP {
        } else {
            return None;
        }
    }
    None
}

/// Finds the serial port the boot configuration points at: the
/// `serial0` alias when present, else the chosen console path (resolved
/// through the alias table when it is not a full path), and reads its
/// register description.
pub fn find_uart(blob: &[u8]) -> (r: Option<UartInfo>)
    requires
        blob@.len() <= 0xFFFF_FF00,
    ensures
        r is Some ==> blob@.len() >= 40 && be32(blob@, 0) == FDT_MAGIC,
{
    let mut stdout = SmallBuf::new();
    scan_stdout_path(blob, &mut stdout);
    let mut target = SmallBuf::new();
    let mut alias = SmallBuf::new();
    let serial0_word: Vec<u8> = vec![115, 101, 114, 105, 97, 108, 48];
    if read_alias_path(blob, serial0_word.as_slice(), &mut target) {
    } else if stdout.len() != 0 {
        let leading_slash = stdout.as_slice()[0] == 47;
        if leading_slash {
            target = stdout;
        } else {
            alias = stdout;
        }
    }
    if target.len() == 0 && alias.len() != 0 {
        let _ = read_alias_path(blob, alias.as_slice(), &mut target);
    }
    if target.len() == 0 {
        return None;
    }
    find_reg_by_path(blob, target.as_slice())
}

/// Address/size cell widths and node roles inherited down the tree.
#[derive(Clone, Copy, Debug, Eq, PartialEq, Structural)]
struct NodeContext {
    addr_cells: u32,
    size_cells: u32,
    in_reserved: bool,
    is_memory: bool,
}

/// The defaults of a root-level node: two cells each way.
fn root_context() -> (r: NodeContext)
    ensures
        r.addr_cells == 2 && r.size_cells == 2 && !r.in_reserved && !r.is_memory,
{
    NodeContext { addr_cells: 2, size_cells: 2, in_reserved: false, is_memory: false }
}

/// Walks the structure block of the boot blob and adds every span of a
/// memory node as usable RAM and every span under the reserved-memory
/// node as reserved. Returns the header facts, or `None` — leaving the
/// map untouched — when the blob is too short, carries the wrong
/// magic, or declares blocks beyond its own bounds.
pub fn parse(blob: &[u8], map: &mut MemoryMap) -> (r: Option<DtbInfo>)
    requires
        old(map).wf(),
        blob@.len() <= 0xFFFF_FF00,
    ensures
        final(map).wf(),
        final(map)@.len() >= old(map)@.len(),
        forall|j: int| 0 <= j < old(map)@.len() ==> final(map)@[j] == old(map)@[j],
        r is Some ==> blob@.len() >= 40 && be32(blob@, 0) == FDT_MAGIC && r->Some_0.total_size
            == be32(blob@, 4),
        r is None ==> final(map)@ == old(map)@,
{
    if blob.len() < 40 {
        return None;
    }
    let magic = be_at(blob, 0);
    if magic != FDT_MAGIC {
        return None;
    }
    let total_size = be_at(blob, 4);
    let off_dt_struct = be_at(blob, 8) as usize;
    let off_dt_strings = be_at(blob, 12) as usize;
    let size_dt_struct = be_at(blob, 36) as usize;
    let size_dt_strings = be_at(blob, 32) as usize;
    if off_dt_struct > blob.len() || size_dt_struct > blob.len() - off_dt_struct {
        return None;
    }
    if off_dt_strings > blob.len() || size_dt_strings > blob.len() - off_dt_strings {
        return None;
    }
    let struct_block = vstd::slice::slice_subrange(blob, off_dt_struct, off_dt_struct
        + size_dt_struct);
    let strings_block = vstd::slice::slice_subrange(blob, off_dt_strings, off_dt_strings
        + size_dt_strings);
    let len = struct_block.len();
    if len < 4 {
        return Some(DtbInfo { total_size });
    }
    let mem_word: Vec<u8> = vec![109, 101, 109, 111, 114, 121];
    let reserved_word: Vec<u8> = vec![
        114,
        101,
        115,
        101,
        114,
        118,
        101,
        100,
        45,
        109,
        101,
        109,
        111,
        114,
        121,
    ];
    let addr_cells_word: Vec<u8> = vec![35, 97, 100, 100, 114, 101, 115, 115, 45, 99, 101, 108, 108, 115];
    let size_cells_word: Vec<u8> = vec![35, 115, 105, 122, 101, 45, 99, 101, 108, 108, 115];
    let device_type_word: Vec<u8> = vec![100, 101, 118, 105, 99, 101, 95, 116, 121, 112, 101];
    let reg_word: Vec<u8> = vec![114, 101, 103];
    let ghost pre_map_len = map@.len();
    let mut stack: Vec<NodeContext> = vec![root_context();32];
    let mut depth: usize = 0;
    let mut offset: usize = 0;
    while offset <= len - 4
        invariant
            map.wf(),
            map@.len() >= old(map)@.len(),
            forall|j: int| 0 <= j < old(map)@.len() ==> map@[j] == old(map)@[j],
            4 <= len,
            len == struct_block@.len(),
            len <= 0xFFFF_FF00,
            offset <= len + 4,
            stack@.len() == 32,
            depth <= 32,
            blob@.len() >= 40,
            be32(blob@, 0) == FDT_MAGIC,
            total_size == be32(blob@, 4),
        decreases len + 4 - offset,
    {
        let token = be_at(struct_block, offset);
        offset = offset + 4;
        if token == FDT_BEGIN_NODE {
            let name_start = offset;
            while offset < len && struct_block[offset] != 0
                invariant
                    name_start <= offset <= len,
                    len == struct_block@.len(),
                decreases len - offset,
            {
                offset = offset + 1;
            }
            let name = vstd::slice::slice_subrange(struct_block, name_start, offset);
            let parent = if depth == 0 {
                root_context()
            } else {
                stack[depth - 1]
            };
            let mut ctx = parent;
            if name_starts_with(name, reserved_word.as_slice()) {
                ctx.in_reserved = true;
            }
            if name_starts_with(name, mem_word.as_slice()) {
                ctx.is_memory = true;
            }
            if depth < 32 {
                stack[depth] = ctx;
                depth = depth + 1;
            }
            offset = align4(offset + 1);
        } else if token == FDT_END_NODE {
            if depth > 0 {
                depth = depth - 1;
            }
        } else if token == FDT_PROP {
            if len - offset < 8 {
                return Some(DtbInfo { total_size });
            }
            let plen = be_at(struct_block, offset) as usize;
            let nameoff = be_at(struct_block, offset + 4) as usize;
            offset = offset + 8;
            if plen > len - offset {
                return Some(DtbInfo { total_size });
            }
            let value = vstd::slice::slice_subrange(struct_block, offset, offset + plen);
            offset = align4(offset + plen);
            let name = get_string(strings_block, nameoff);
            if depth == 0 {
                continue ;
            }
            let mut ctx = stack[depth - 1];
            if path_matches(name, addr_cells_word.as_slice()) {
                if plen >= 4 {
                    ctx.addr_cells = read_be_u32(value);
                    stack[depth - 1] = ctx;
                }
            } else if path_matches(name, size_cells_word.as_slice()) {
                if plen >= 4 {
                    ctx.size_cells = read_be_u32(value);
                    stack[depth - 1] = ctx;
                }
            } else if path_matches(name, device_type_word.as_slice()) {
                if name_starts_with(value, mem_word.as_slice()) {
                    ctx.is_memory = true;
                    stack[depth - 1] = ctx;
                }
            } else if path_matches(name, reg_word.as_slice()) {
                if ctx.is_memory || ctx.in_reserved {
                    let tuple_cells: u64 = ctx.addr_cells as u64 + ctx.size_cells as u64;
                    if tuple_cells > 0 && tuple_cells <= 16 {
                        let entry_bytes: usize = (tuple_cells as usize) * 4;
                        let ac_bytes: usize = (ctx.addr_cells as usize) * 4;
                        let mut pos: usize = 0;
                        while pos + entry_bytes <= value.len()
                            invariant
                                map.wf(),
                                map@.len() >= old(map)@.len(),
                                forall|j: int|
                                    0 <= j < old(map)@.len() ==> map@[j] == old(map)@[j],
                                entry_bytes == (ctx.addr_cells + ctx.size_cells) * 4,
                                ac_bytes == ctx.addr_cells * 4,
                                0 < entry_bytes <= 64,
                                pos <= value@.len(),
                                value@.len() <= 0xFFFF_FF00,
                            decreases value@.len() - pos,
                        {
                            let addr_slice = vstd::slice::slice_subrange(value, pos, pos
                                + ac_bytes);
                            let size_slice = vstd::slice::slice_subrange(value, pos + ac_bytes, pos
                                + entry_bytes);
                            let addr = read_cells(addr_slice, ctx.addr_cells);
                            let size = read_cells(size_slice, ctx.size_cells);
                            if ctx.is_memory {
                                map.add_region(addr, size, RegionKind::UsableRam);
                            } else {
                                map.add_region(addr, size, RegionKind::Reserved);
                            }
                            pos = pos + entry_bytes;
                        }
                    }
                }
            }
        } else if token == FDT_NOP {
        } else {
            return Some(DtbInfo { total_size });
        }
    }
    Some(DtbInfo { total_size })
}

} // verus!
