//! The prime field whose elements fill the tables.
//!
//! Tables hold each field element as its canonical representative: the
//! integer in `0..FIELD_ORDER` that stands for it.

use vstd::prelude::*;

verus! {

/// The order of the field: the BabyBear prime `2^31 - 2^27 + 1`.
pub const FIELD_ORDER: u32 = 2013265921;

/// Whether `value` is the canonical representative of a field element.
pub open spec fn is_canonical(value: u32) -> bool {
    value < FIELD_ORDER
}

/// The canonical representative of the field element that the integer `n`
/// stands for.
pub open spec fn reduce(n: int) -> u32 {
    (n % (FIELD_ORDER as int)) as u32
}

/// The sum of two field elements.
pub fn field_add(a: u32, b: u32) -> (sum: u32)
    requires
        is_canonical(a),
        is_canonical(b),
    ensures
        sum == reduce(a + b),
        is_canonical(sum),
{
    let wide: u64 = a as u64 + b as u64;
    (wide % (FIELD_ORDER as u64)) as u32
}

/// The difference of two field elements.
pub fn field_sub(a: u32, b: u32) -> (difference: u32)
    requires
        is_canonical(a),
        is_canonical(b),
    ensures
        difference == reduce(a - b),
        is_canonical(difference),
{
    let wide: u64 = a as u64 + (FIELD_ORDER as u64 - b as u64);
    assert((a + (FIELD_ORDER - b)) % (FIELD_ORDER as int) == (a - b) % (FIELD_ORDER as int)) by {
        vstd::arithmetic::div_mod::lemma_mod_add_multiples_vanish(a - b, FIELD_ORDER as int);
    }
    (wide % (FIELD_ORDER as u64)) as u32
}

/// The product of two field elements.
pub fn field_mul(a: u32, b: u32) -> (product: u32)
    requires
        is_canonical(a),
        is_canonical(b),
    ensures
        product == reduce(a * b),
        is_canonical(product),
{
    assert(a * b <= 2013265920 * 2013265920) by (nonlinear_arith)
        requires
            0 <= a <= 2013265920,
            0 <= b <= 2013265920,
    ;
    let wide: u64 = a as u64 * b as u64;
    (wide % (FIELD_ORDER as u64)) as u32
}

} // verus!
