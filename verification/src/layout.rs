//! Layout of one allocation: a header holding the reference count, followed
//! by the payload, in a single contiguous block.
//!
//! Every entry point that allocates, and every entry point that re-derives a
//! header address from a payload address, must agree on this arithmetic, so
//! it is centralized here.  Given the payload's alignment `a` and the width
//! `w` of the count field, the header occupies `max(a, w)` leading bytes, so
//! that the payload that follows satisfies `a` and the count is never split;
//! the total size is the header width plus the payload size, padded up to
//! `max(a, w)`.

use vstd::prelude::*;

verus! {

use vstd::arithmetic::div_mod::{lemma_fundamental_div_mod, lemma_mod_multiples_basic};
use vstd::math::max;

/// Distance in bytes from the start of an allocation to the start of its
/// payload, for a payload of alignment `payload_align` behind a count field
/// of `count_width` bytes.
pub open spec fn spec_payload_offset(payload_align: int, count_width: int) -> int {
    max(payload_align, count_width)
}

/// The least multiple of `align` that is at least `size`.
pub open spec fn spec_round_up(size: int, align: int) -> int {
    if size % align == 0 {
        size
    } else {
        size + align - size % align
    }
}

/// Total size in bytes of the allocation for a payload of `payload_size`
/// bytes: header width plus payload size, padded out to the overall
/// alignment `max(payload_align, count_width)`.
pub open spec fn spec_allocation_size(
    payload_size: int,
    payload_align: int,
    count_width: int,
) -> int {
    spec_round_up(
        spec_payload_offset(payload_align, count_width) + payload_size,
        spec_payload_offset(payload_align, count_width),
    )
}

/// An alignment is a power of two.
pub open spec fn is_power_of_two(n: int) -> bool
    decreases n,
{
    if n <= 0 {
        false
    } else if n == 1 {
        true
    } else {
        n % 2 == 0 && is_power_of_two(n / 2)
    }
}

/// The header width.  It is at least as large as the count field, so the
/// count fits in the leading bytes, and at least as large as the payload's
/// alignment, so the payload that follows can be aligned.
pub fn payload_offset(payload_align: usize, count_width: usize) -> (r: usize)
    ensures
        r == spec_payload_offset(payload_align as int, count_width as int),
        r >= payload_align,
        r >= count_width,
{
    if payload_align >= count_width {
        payload_align
    } else {
        count_width
    }
}

/// Pads `size` out to a multiple of `align`; `None` when no such multiple is
/// representable in address-space-sized arithmetic.
pub fn round_up_to_align(size: usize, align: usize) -> (r: Option<usize>)
    requires
        align >= 1,
    ensures
        r is Some <==> spec_round_up(size as int, align as int) <= usize::MAX,
        r is Some ==> r.unwrap() == spec_round_up(size as int, align as int),
{
    let rem = size % align;
    if rem == 0 {
        Some(size)
    } else {
        size.checked_add(align - rem)
    }
}

/// Size of a sequence payload: element size times element count; `None` when
/// the product cannot be represented.
pub fn slice_payload_size(elem_size: usize, len: usize) -> (r: Option<usize>)
    ensures
        r is Some <==> elem_size * len <= usize::MAX,
        r is Some ==> r.unwrap() == elem_size * len,
{
    elem_size.checked_mul(len)
}

/// Total allocation size for one payload; `None` when the padded size cannot
/// be represented.  This is the one routine every allocation site and every
/// address-reconstruction site must share.
pub fn allocation_size(payload_size: usize, payload_align: usize, count_width: usize) -> (r: Option<
    usize,
>)
    requires
        payload_align >= 1,
        count_width >= 1,
    ensures
        r is Some <==> spec_allocation_size(
            payload_size as int,
            payload_align as int,
            count_width as int,
        ) <= usize::MAX,
        r is Some ==> r.unwrap() == spec_allocation_size(
            payload_size as int,
            payload_align as int,
            count_width as int,
        ),
{
    let off = payload_offset(payload_align, count_width);
    match off.checked_add(payload_size) {
        Some(unpadded) => round_up_to_align(unpadded, off),
        None => {
            proof {
                lemma_round_up_properties(off + payload_size, off as int);
            }
            None
        },
    }
}

/// A sequence length is addressable by a wide handle only when it is
/// representable as a non-negative signed offset.
pub fn fits_fat_addressing(len: usize) -> (b: bool)
    ensures
        b <==> len <= isize::MAX as int,
{
    len <= isize::MAX as usize
}

/// Rounding up lands on the least multiple of the alignment that holds the
/// unpadded size.
pub proof fn lemma_round_up_properties(size: int, align: int)
    requires
        size >= 0,
        align >= 1,
    ensures
        spec_round_up(size, align) % align == 0,
        size <= spec_round_up(size, align) < size + align,
{
    let r = size % align;
    if r != 0 {
        lemma_fundamental_div_mod(size, align);
        let q = size / align;
        assert(size + align - r == align * (q + 1)) by (nonlinear_arith)
            requires size == align * q + r,
        ;
        lemma_mod_multiples_basic(q + 1, align);
        assert((align * (q + 1)) % align == 0);
    }
}

/// A smaller power of two divides a larger one.
pub proof fn lemma_power_of_two_divides(a: int, b: int)
    requires
        is_power_of_two(a),
        is_power_of_two(b),
        a <= b,
    ensures
        b % a == 0,
    decreases a,
{
    if a == 1 {
        assert(b % 1 == 0);
    } else {
        lemma_power_of_two_divides(a / 2, b / 2);
        let ah = a / 2;
        let bh = b / 2;
        lemma_fundamental_div_mod(bh, ah);
        let q = bh / ah;
        assert(b == q * a) by (nonlinear_arith)
            requires
                a == 2 * ah,
                b == 2 * bh,
                bh == ah * q + 0,
        ;
        lemma_mod_multiples_basic(q, a);
    }
}

/// The payload of an allocation whose base address satisfies the overall
/// alignment lands on an address satisfying the payload's own alignment, and
/// subtracting the offset from the payload address recovers the base: the
/// offset is reversible.
pub proof fn lemma_payload_aligned(base: int, payload_align: int, count_width: int)
    requires
        base >= 0,
        is_power_of_two(payload_align),
        is_power_of_two(count_width),
        base % spec_payload_offset(payload_align, count_width) == 0,
    ensures
        (base + spec_payload_offset(payload_align, count_width)) % payload_align == 0,
        (base + spec_payload_offset(payload_align, count_width)) - spec_payload_offset(
            payload_align,
            count_width,
        ) == base,
{
    let off = spec_payload_offset(payload_align, count_width);
    if off == payload_align {
        assert(off % payload_align == 0);
    } else {
        lemma_power_of_two_divides(payload_align, count_width);
    }
    lemma_fundamental_div_mod(base, off);
    let qb = base / off;
    lemma_fundamental_div_mod(off, payload_align);
    let qo = off / payload_align;
    assert(base + off == payload_align * (qo * qb + qo)) by (nonlinear_arith)
        requires
            base == off * qb + 0,
            off == payload_align * qo + 0,
    ;
    lemma_mod_multiples_basic(qo * qb + qo, payload_align);
}

} // verus!
