//! Eight-bit arithmetic of the register instructions, together with the
//! carry, borrow and shift flags that go to register VF.

use vstd::prelude::*;

verus! {

/// Sum of two registers, wrapped to eight bits.
pub open spec fn add_wrapped(a: u8, b: u8) -> u8 {
    if a + b > 255 {
        (a + b - 256) as u8
    } else {
        (a + b) as u8
    }
}

/// Carry flag of a register add: 1 exactly when the sum overflows
/// eight bits.
pub open spec fn add_carry(a: u8, b: u8) -> u8 {
    if a + b > 255 {
        1u8
    } else {
        0u8
    }
}

/// Difference `a - b`, wrapped to eight bits.
pub open spec fn sub_wrapped(a: u8, b: u8) -> u8 {
    if a >= b {
        (a - b) as u8
    } else {
        (a - b + 256) as u8
    }
}

/// Borrow flag of a register subtract: 1 exactly when no borrow occurs,
/// that is when the minuend is at least the subtrahend.
pub open spec fn sub_no_borrow(a: u8, b: u8) -> u8 {
    if a >= b {
        1u8
    } else {
        0u8
    }
}

/// Result of a right shift by one.
pub open spec fn shr_result(a: u8) -> u8 {
    a / 2
}

/// Flag of a right shift: the bit shifted out, the lowest bit.
pub open spec fn shr_flag(a: u8) -> u8 {
    (a % 2) as u8
}

/// Result of a left shift by one, wrapped to eight bits.
pub open spec fn shl_result(a: u8) -> u8 {
    ((a * 2) % 256) as u8
}

/// Flag of a left shift: the bit shifted out, the highest bit.
pub open spec fn shl_flag(a: u8) -> u8 {
    a / 128
}

/// Register-register add: for any eight-bit values, the result is the
/// sum modulo 256, and the carry flag is 1 exactly when the true sum
/// exceeds 255.
pub proof fn lemma_add_register(a: u8, b: u8)
    ensures
        add_wrapped(a, b) == (a + b) % 256,
        add_carry(a, b) == 1 <==> a + b > 255,
        add_carry(a, b) == 0 <==> a + b <= 255,
{
}

/// Subtract: for any eight-bit values, the flag is 1 exactly when the
/// minuend is at least the subtrahend (no borrow), and the result is the
/// difference modulo 256.
pub proof fn lemma_sub_register(a: u8, b: u8)
    ensures
        sub_wrapped(a, b) == (a - b) % 256,
        sub_no_borrow(a, b) == 1 <==> a >= b,
        sub_no_borrow(a, b) == 0 <==> a < b,
{
}

/// Right shift: the flag is the pre-shift lowest bit `a & 1`, and the
/// result is `a >> 1`.
pub proof fn lemma_shift_right(a: u8)
    ensures
        shr_result(a) == a >> 1u8,
        shr_flag(a) == a & 1,
{
    assert(a / 2 == a >> 1u8) by (bit_vector);
    assert(a % 2 == a & 1) by (bit_vector);
}

/// Left shift: the flag is the pre-shift highest bit `(a >> 7) & 1`, and
/// the result is `(a << 1)` modulo 256.
pub proof fn lemma_shift_left(a: u8)
    ensures
        shl_result(a) == a << 1u8,
        shl_flag(a) == (a >> 7u8) & 1,
{
    assert((a * 2) % 256 == a << 1u8) by (bit_vector);
    assert(a / 128 == (a >> 7u8) & 1) by (bit_vector);
}

} // verus!
