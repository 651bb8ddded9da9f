//! Physical address space constants and alignment helpers.

use vstd::prelude::*;
use vstd::arithmetic::div_mod::{
    lemma_fundamental_div_mod, lemma_mod_bound, lemma_mod_multiples_basic,
};
use vstd::arithmetic::mul::lemma_mul_is_commutative;
use vstd::arithmetic::power2::{lemma2_to64, lemma2_to64_rest, pow2};
use vstd::bits::{low_bits_mask, lemma_u64_low_bits_mask_is_mod, lemma_u64_pow2_no_overflow};

verus! {

/// Size of one physical frame, in bytes.
pub const PAGE_SIZE: usize = 4096;

/// Mask of the offset bits within a frame.
pub const PAGE_MASK: usize = 4095;

/// Physical load address of the kernel image.
pub const KERNEL_PHYS_BASE: u64 = 0x80000;

/// Base of the canonical high-half virtual window that remaps all of
/// physical memory.
pub const KERNEL_VIRT_BASE: u64 = 0xFFFF_8000_0000_0000;

/// The linear physical-memory map starts at the high-half base.
pub const PHYS_MAP_BASE: u64 = 0xFFFF_8000_0000_0000;

/// The next multiple of `align` at or above `value`, as an unbounded
/// integer.
pub open spec fn aligned_to(value: int, align: int) -> int {
    if value % align == 0 {
        value
    } else {
        value + (align - value % align)
    }
}

/// True when `align` is a power of two, the only alignments the helpers
/// below are defined for.
pub open spec fn is_pow2(align: u64) -> bool {
    exists|k: nat| k < 64 && align == pow2(k)
}

/// The alignments this kernel actually uses are powers of two.
pub proof fn lemma_common_pow2()
    ensures
        is_pow2(1),
        is_pow2(2),
        is_pow2(4),
        is_pow2(8),
        is_pow2(16),
        is_pow2(4096),
        is_pow2(0x20_0000),
{
    lemma2_to64();
    assert(pow2(0) == 1 && pow2(1) == 2 && pow2(2) == 4 && pow2(3) == 8 && pow2(4) == 16
        && pow2(12) == 4096 && pow2(21) == 0x20_0000);
}

/// Two multiples of a positive unit within one unit of each other are
/// ordered.
pub proof fn lemma_aligned_le_unit(x: int, y: int, m: int)
    requires
        m > 0,
        x % m == 0,
        y % m == 0,
        x < y + m,
    ensures
        x <= y,
{
    vstd::arithmetic::div_mod::lemma_fundamental_div_mod(x, m);
    vstd::arithmetic::div_mod::lemma_fundamental_div_mod(y, m);
    let qx = x / m;
    let qy = y / m;
    assert(m * qx < m * qy + m);
    assert(qx <= qy) by (nonlinear_arith)
        requires
            m > 0,
            m * qx < m * qy + m,
    ;
    assert(m * qx <= m * qy) by (nonlinear_arith)
        requires
            m > 0,
            qx <= qy,
    ;
}

/// Two multiples of the frame size within one frame of each other are
/// ordered.
pub proof fn lemma_aligned_le(x: int, y: int)
    requires
        x % 4096 == 0,
        y % 4096 == 0,
        x < y + 4096,
    ensures
        x <= y,
{
    lemma_aligned_le_unit(x, y, 4096);
}

proof fn lemma_clear_low_bits(x: u64, m: u64)
    by (bit_vector)
    ensures
        (x & !m) == x - (x & m),
{
}

/// Masking with the complement of `align - 1` leaves `x - x % align`,
/// the largest multiple of `align` that is at most `x`.
proof fn lemma_mask_mod(x: u64, align: u64)
    requires
        is_pow2(align),
    ensures
        align >= 1,
        (x & !((align - 1) as u64)) == x - x % align,
        x % align < align,
        (x - x % align) % (align as int) == 0,
{
    let k = choose|k: nat| k < 64 && align == pow2(k);
    lemma_u64_pow2_no_overflow(k);
    assert((align - 1) as u64 == low_bits_mask(k) as u64);
    lemma_u64_low_bits_mask_is_mod(x, k);
    lemma_clear_low_bits(x, (align - 1) as u64);
    lemma_mod_bound(x as int, align as int);
    lemma_fundamental_div_mod(x as int, align as int);
    let q = x as int / align as int;
    lemma_mul_is_commutative(align as int, q);
    lemma_mod_multiples_basic(q, align as int);
}

/// Rounds `value` up to the next multiple of `align`.
pub fn align_up(value: u64, align: u64) -> (r: u64)
    requires
        is_pow2(align),
        value + align - 1 <= u64::MAX,
    ensures
        r % align == 0,
        value <= r < value + align,
        r == aligned_to(value as int, align as int),
{
    proof {
        lemma_mask_mod((value + align - 1) as u64, align);
        lemma_aligned_to_unique(value as int, align as int);
        let w = (value + align - 1) as u64;
        let rr = w - w % align;
        let a = aligned_to(value as int, align as int);
        lemma_aligned_le_unit(rr as int, a, align as int);
        lemma_aligned_le_unit(a, rr as int, align as int);
    }
    (value + (align - 1)) & !(align - 1)
}

/// The rounded value is the unique multiple of `align` within one unit
/// above `value`.
proof fn lemma_aligned_to_unique(value: int, align: int)
    requires
        align >= 1,
    ensures
        aligned_to(value, align) % align == 0,
        value <= aligned_to(value, align) < value + align,
{
    vstd::arithmetic::div_mod::lemma_mod_bound(value, align);
    vstd::arithmetic::div_mod::lemma_fundamental_div_mod(value, align);
    let q = value / align;
    if value % align == 0 {
        vstd::arithmetic::mul::lemma_mul_is_commutative(align, q);
        vstd::arithmetic::div_mod::lemma_mod_multiples_basic(q, align);
    } else {
        assert(align * (q + 1) == align * q + align) by (nonlinear_arith);
        assert(aligned_to(value, align) == align * (q + 1));
        vstd::arithmetic::mul::lemma_mul_is_commutative(align, q + 1);
        vstd::arithmetic::div_mod::lemma_mod_multiples_basic(q + 1, align);
    }
}

/// Rounds `value` down to the previous multiple of `align`.
pub fn align_down(value: u64, align: u64) -> (r: u64)
    requires
        is_pow2(align),
    ensures
        r % align == 0,
        r <= value < r + align,
        r == value as int - value as int % align as int,
{
    proof {
        lemma_mask_mod(value, align);
    }
    value & !(align - 1)
}

/// Translates a physical address into the high-half linear map.
pub fn phys_to_virt(paddr: u64) -> (r: u64)
    requires
        paddr < 0x8000_0000_0000,
    ensures
        r == paddr + PHYS_MAP_BASE,
{
    paddr + PHYS_MAP_BASE
}

/// Translates a high-half linear-map address back to its physical address.
pub fn virt_to_phys(vaddr: u64) -> (r: u64)
    requires
        vaddr >= PHYS_MAP_BASE,
    ensures
        r == vaddr - PHYS_MAP_BASE,
{
    vaddr - PHYS_MAP_BASE
}

} // verus!
