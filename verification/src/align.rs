use vstd::prelude::*;
use vstd::arithmetic::power2::pow2;
use vstd::bits::low_bits_mask;

verus! {

/// `alignment` is a power of two (as every Vulkan alignment limit is).
pub open spec fn is_power_of_two(alignment: u32) -> bool {
    exists|k: nat| k < 32 && alignment as nat == pow2(k)
}

/// The value `compute_aligned_size` computes: `size` rounded up with the
/// mask `!(alignment - 1)`.
pub open spec fn spec_aligned_size(size: u32, alignment: u32) -> u32 {
    ((size + (alignment - 1)) as u32) & !((alignment - 1) as u32)
}

/// Rounds `size` up to the alignment: `(size + (alignment - 1)) & !(alignment - 1)`.
/// For a power-of-two alignment this is the least multiple of `alignment`
/// that is not below `size`.
pub fn compute_aligned_size(size: u32, alignment: u32) -> (r: u32)
    requires
        alignment >= 1,
        size + alignment - 1 <= u32::MAX,
    ensures
        r == spec_aligned_size(size, alignment),
        is_power_of_two(alignment) ==> r % alignment == 0 && size <= r && r < size + alignment,
{
    let r = (size + (alignment - 1)) & !(alignment - 1);
    proof {
        lemma_aligned_size_bounds(size, alignment);
    }
    r
}

proof fn lemma_power_of_two_positive(a: u32)
    requires
        is_power_of_two(a),
    ensures
        a >= 1,
{
    let k = choose|k: nat| k < 32 && a as nat == pow2(k);
    vstd::arithmetic::power2::lemma_pow2_pos(k);
}

proof fn lemma_mask_is_mod(x: u32, a: u32)
    requires
        is_power_of_two(a),
    ensures
        x & ((a - 1) as u32) == x % a,
        x & !((a - 1) as u32) == x - x % a,
{
    let k = choose|k: nat| k < 32 && a as nat == pow2(k);
    vstd::arithmetic::power2::lemma_pow2_pos(k);
    vstd::bits::lemma_u32_low_bits_mask_is_mod(x, k);
    assert(low_bits_mask(k) == a - 1);
    let m = (a - 1) as u32;
    assert(x & !m == x - (x & m)) by (bit_vector);
}

/// For a power-of-two alignment, the aligned size is a multiple of the
/// alignment, is not below `size`, and exceeds it by less than the alignment.
pub proof fn lemma_aligned_size_bounds(size: u32, alignment: u32)
    requires
        alignment >= 1,
        size + alignment - 1 <= u32::MAX,
    ensures
        is_power_of_two(alignment) ==> {
            let r = spec_aligned_size(size, alignment);
            r % alignment == 0 && size <= r && r < size + alignment
        },
{
    if is_power_of_two(alignment) {
        let x = (size + (alignment - 1)) as u32;
        lemma_mask_is_mod(x, alignment);
        let r = spec_aligned_size(size, alignment);
        assert(r == x - x % alignment);
        vstd::arithmetic::div_mod::lemma_fundamental_div_mod(x as int, alignment as int);
        vstd::arithmetic::div_mod::lemma_mod_multiples_basic(x as int / alignment as int, alignment as int);
        assert(r as int == alignment * (x as int / alignment as int));
        vstd::arithmetic::mul::lemma_mul_is_commutative(alignment as int, x as int / alignment as int);
        vstd::arithmetic::div_mod::lemma_mod_bound(x as int, alignment as int);
    }
}

/// Aligning an already aligned size changes nothing (power-of-two alignment).
pub proof fn lemma_aligned_size_idempotent(size: u32, alignment: u32)
    requires
        is_power_of_two(alignment),
        size + alignment - 1 <= u32::MAX,
    ensures
        spec_aligned_size(size, alignment) + alignment - 1 <= u32::MAX,
        spec_aligned_size(spec_aligned_size(size, alignment), alignment) == spec_aligned_size(size, alignment),
{
    let r = spec_aligned_size(size, alignment);
    lemma_power_of_two_positive(alignment);
    lemma_aligned_size_bounds(size, alignment);
    lemma_mask_is_mod(r, alignment);
    let m = (alignment - 1) as u32;
    assert(r & m == 0);
    assert((r & m) == 0 ==> r + m <= 0xffff_ffffu32) by (bit_vector);
    lemma_aligned_size_bounds(r, alignment);
    let r2 = spec_aligned_size(r, alignment);
    // r2 is the least multiple >= r; r is itself a multiple.
    assert(r2 % alignment == 0 && r <= r2 && r2 < r + alignment);
    lemma_multiple_between(r as int, r2 as int, alignment as int);
}

proof fn lemma_multiple_between(r: int, r2: int, a: int)
    requires
        a > 0,
        r >= 0,
        r % a == 0,
        r2 % a == 0,
        r <= r2 < r + a,
    ensures
        r2 == r,
{
    vstd::arithmetic::div_mod::lemma_fundamental_div_mod(r, a);
    vstd::arithmetic::div_mod::lemma_fundamental_div_mod(r2, a);
    let q1 = r / a;
    let q2 = r2 / a;
    assert(r == a * q1);
    assert(r2 == a * q2);
    if q2 > q1 {
        vstd::arithmetic::mul::lemma_mul_inequality(q1 + 1, q2, a);
        vstd::arithmetic::mul::lemma_mul_is_distributive_add(a, q1, 1);
        vstd::arithmetic::mul::lemma_mul_is_commutative(a, q1 + 1);
        vstd::arithmetic::mul::lemma_mul_is_commutative(a, q2);
        assert(false);
    }
    if q2 < q1 {
        vstd::arithmetic::mul::lemma_mul_inequality(q2 + 1, q1, a);
        vstd::arithmetic::mul::lemma_mul_is_distributive_add(a, q2, 1);
        vstd::arithmetic::mul::lemma_mul_is_commutative(a, q2 + 1);
        vstd::arithmetic::mul::lemma_mul_is_commutative(a, q1);
        assert(false);
    }
}

} // verus!
