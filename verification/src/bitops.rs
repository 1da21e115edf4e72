use vstd::prelude::*;

verus! {

/// Whether bit `i` of `b` is set.
pub open spec fn has_bit(b: u64, i: int) -> bool {
    ((b >> (i as u64)) & 1u64) == 1u64
}

pub proof fn lemma_bit_xor(x: u64, y: u64, i: int)
    requires 0 <= i < 64,
    ensures has_bit(x ^ y, i) == (has_bit(x, i) != has_bit(y, i)),
{
    let k = i as u64;
    assert((((x ^ y) >> k) & 1u64 == 1u64) == ((((x >> k) & 1u64) == 1u64) != (((y >> k) & 1u64) == 1u64))) by (bit_vector)
        requires k < 64;
}

pub proof fn lemma_bit_or(x: u64, y: u64, i: int)
    requires 0 <= i < 64,
    ensures has_bit(x | y, i) == (has_bit(x, i) || has_bit(y, i)),
{
    let k = i as u64;
    assert((((x | y) >> k) & 1u64 == 1u64) == ((((x >> k) & 1u64) == 1u64) || (((y >> k) & 1u64) == 1u64))) by (bit_vector)
        requires k < 64;
}

pub proof fn lemma_bit_and(x: u64, y: u64, i: int)
    requires 0 <= i < 64,
    ensures has_bit(x & y, i) == (has_bit(x, i) && has_bit(y, i)),
{
    let k = i as u64;
    assert((((x & y) >> k) & 1u64 == 1u64) == ((((x >> k) & 1u64) == 1u64) && (((y >> k) & 1u64) == 1u64))) by (bit_vector)
        requires k < 64;
}

pub proof fn lemma_bit_not(x: u64, i: int)
    requires 0 <= i < 64,
    ensures has_bit(!x, i) == !has_bit(x, i),
{
    let k = i as u64;
    assert((((!x) >> k) & 1u64 == 1u64) == !(((x >> k) & 1u64) == 1u64)) by (bit_vector)
        requires k < 64;
}

pub proof fn lemma_bit_single(j: u64, i: int)
    requires 0 <= i < 64, j < 64,
    ensures has_bit(1u64 << j, i) == (i == j),
{
    let k = i as u64;
    assert((((1u64 << j) >> k) & 1u64 == 1u64) == (k == j)) by (bit_vector)
        requires k < 64, j < 64;
}


pub proof fn lemma_bit_zero(i: int)
    requires
        0 <= i < 64,
    ensures
        !has_bit(0u64, i),
{
    let k = i as u64;
    assert(((0u64 >> k) & 1u64) != 1u64) by (bit_vector);
}

pub proof fn lemma_and63(x: u64)
    ensures
        x & 63u64 < 64,
{
    assert(x & 63u64 < 64) by (bit_vector);
}

/// Clearing a set bit makes the number smaller.
pub proof fn lemma_clear_bit_smaller(x: u64, k: u64)
    requires
        k < 64,
        has_bit(x, k as int),
    ensures
        x ^ (1u64 << k) < x,
{
    assert(((x >> k) & 1u64) == 1u64 ==> x ^ (1u64 << k) < x) by (bit_vector)
        requires k < 64;
}

/// Two bitboards with the same bits are equal.
pub proof fn lemma_bits_ext(x: u64, y: u64)
    requires
        forall|i: int| 0 <= i < 64 ==> #[trigger] has_bit(x, i) == has_bit(y, i),
    ensures
        x == y,
{
    assert forall|i: u64| i < 64 implies (x >> i) & 1u64 == (y >> i) & 1u64 by {
        assert(has_bit(x, i as int) == has_bit(y, i as int));
        assert((x >> i) & 1u64 == 1u64 || (x >> i) & 1u64 == 0u64) by (bit_vector);
        assert((y >> i) & 1u64 == 1u64 || (y >> i) & 1u64 == 0u64) by (bit_vector);
    }
    assert((x >> 0u64) & 1u64 == (y >> 0u64) & 1u64);
    assert((x >> 1u64) & 1u64 == (y >> 1u64) & 1u64);
    assert((x >> 2u64) & 1u64 == (y >> 2u64) & 1u64);
    assert((x >> 3u64) & 1u64 == (y >> 3u64) & 1u64);
    assert((x >> 4u64) & 1u64 == (y >> 4u64) & 1u64);
    assert((x >> 5u64) & 1u64 == (y >> 5u64) & 1u64);
    assert((x >> 6u64) & 1u64 == (y >> 6u64) & 1u64);
    assert((x >> 7u64) & 1u64 == (y >> 7u64) & 1u64);
    assert((x >> 8u64) & 1u64 == (y >> 8u64) & 1u64);
    assert((x >> 9u64) & 1u64 == (y >> 9u64) & 1u64);
    assert((x >> 10u64) & 1u64 == (y >> 10u64) & 1u64);
    assert((x >> 11u64) & 1u64 == (y >> 11u64) & 1u64);
    assert((x >> 12u64) & 1u64 == (y >> 12u64) & 1u64);
    assert((x >> 13u64) & 1u64 == (y >> 13u64) & 1u64);
    assert((x >> 14u64) & 1u64 == (y >> 14u64) & 1u64);
    assert((x >> 15u64) & 1u64 == (y >> 15u64) & 1u64);
    assert((x >> 16u64) & 1u64 == (y >> 16u64) & 1u64);
    assert((x >> 17u64) & 1u64 == (y >> 17u64) & 1u64);
    assert((x >> 18u64) & 1u64 == (y >> 18u64) & 1u64);
    assert((x >> 19u64) & 1u64 == (y >> 19u64) & 1u64);
    assert((x >> 20u64) & 1u64 == (y >> 20u64) & 1u64);
    assert((x >> 21u64) & 1u64 == (y >> 21u64) & 1u64);
    assert((x >> 22u64) & 1u64 == (y >> 22u64) & 1u64);
    assert((x >> 23u64) & 1u64 == (y >> 23u64) & 1u64);
    assert((x >> 24u64) & 1u64 == (y >> 24u64) & 1u64);
    assert((x >> 25u64) & 1u64 == (y >> 25u64) & 1u64);
    assert((x >> 26u64) & 1u64 == (y >> 26u64) & 1u64);
    assert((x >> 27u64) & 1u64 == (y >> 27u64) & 1u64);
    assert((x >> 28u64) & 1u64 == (y >> 28u64) & 1u64);
    assert((x >> 29u64) & 1u64 == (y >> 29u64) & 1u64);
    assert((x >> 30u64) & 1u64 == (y >> 30u64) & 1u64);
    assert((x >> 31u64) & 1u64 == (y >> 31u64) & 1u64);
    assert((x >> 32u64) & 1u64 == (y >> 32u64) & 1u64);
    assert((x >> 33u64) & 1u64 == (y >> 33u64) & 1u64);
    assert((x >> 34u64) & 1u64 == (y >> 34u64) & 1u64);
    assert((x >> 35u64) & 1u64 == (y >> 35u64) & 1u64);
    assert((x >> 36u64) & 1u64 == (y >> 36u64) & 1u64);
    assert((x >> 37u64) & 1u64 == (y >> 37u64) & 1u64);
    assert((x >> 38u64) & 1u64 == (y >> 38u64) & 1u64);
    assert((x >> 39u64) & 1u64 == (y >> 39u64) & 1u64);
    assert((x >> 40u64) & 1u64 == (y >> 40u64) & 1u64);
    assert((x >> 41u64) & 1u64 == (y >> 41u64) & 1u64);
    assert((x >> 42u64) & 1u64 == (y >> 42u64) & 1u64);
    assert((x >> 43u64) & 1u64 == (y >> 43u64) & 1u64);
    assert((x >> 44u64) & 1u64 == (y >> 44u64) & 1u64);
    assert((x >> 45u64) & 1u64 == (y >> 45u64) & 1u64);
    assert((x >> 46u64) & 1u64 == (y >> 46u64) & 1u64);
    assert((x >> 47u64) & 1u64 == (y >> 47u64) & 1u64);
    assert((x >> 48u64) & 1u64 == (y >> 48u64) & 1u64);
    assert((x >> 49u64) & 1u64 == (y >> 49u64) & 1u64);
    assert((x >> 50u64) & 1u64 == (y >> 50u64) & 1u64);
    assert((x >> 51u64) & 1u64 == (y >> 51u64) & 1u64);
    assert((x >> 52u64) & 1u64 == (y >> 52u64) & 1u64);
    assert((x >> 53u64) & 1u64 == (y >> 53u64) & 1u64);
    assert((x >> 54u64) & 1u64 == (y >> 54u64) & 1u64);
    assert((x >> 55u64) & 1u64 == (y >> 55u64) & 1u64);
    assert((x >> 56u64) & 1u64 == (y >> 56u64) & 1u64);
    assert((x >> 57u64) & 1u64 == (y >> 57u64) & 1u64);
    assert((x >> 58u64) & 1u64 == (y >> 58u64) & 1u64);
    assert((x >> 59u64) & 1u64 == (y >> 59u64) & 1u64);
    assert((x >> 60u64) & 1u64 == (y >> 60u64) & 1u64);
    assert((x >> 61u64) & 1u64 == (y >> 61u64) & 1u64);
    assert((x >> 62u64) & 1u64 == (y >> 62u64) & 1u64);
    assert((x >> 63u64) & 1u64 == (y >> 63u64) & 1u64);
    assert(x == y) by (bit_vector)
        requires
            (x >> 0u64) & 1u64 == (y >> 0u64) & 1u64,
            (x >> 1u64) & 1u64 == (y >> 1u64) & 1u64,
            (x >> 2u64) & 1u64 == (y >> 2u64) & 1u64,
            (x >> 3u64) & 1u64 == (y >> 3u64) & 1u64,
            (x >> 4u64) & 1u64 == (y >> 4u64) & 1u64,
            (x >> 5u64) & 1u64 == (y >> 5u64) & 1u64,
            (x >> 6u64) & 1u64 == (y >> 6u64) & 1u64,
            (x >> 7u64) & 1u64 == (y >> 7u64) & 1u64,
            (x >> 8u64) & 1u64 == (y >> 8u64) & 1u64,
            (x >> 9u64) & 1u64 == (y >> 9u64) & 1u64,
            (x >> 10u64) & 1u64 == (y >> 10u64) & 1u64,
            (x >> 11u64) & 1u64 == (y >> 11u64) & 1u64,
            (x >> 12u64) & 1u64 == (y >> 12u64) & 1u64,
            (x >> 13u64) & 1u64 == (y >> 13u64) & 1u64,
            (x >> 14u64) & 1u64 == (y >> 14u64) & 1u64,
            (x >> 15u64) & 1u64 == (y >> 15u64) & 1u64,
            (x >> 16u64) & 1u64 == (y >> 16u64) & 1u64,
            (x >> 17u64) & 1u64 == (y >> 17u64) & 1u64,
            (x >> 18u64) & 1u64 == (y >> 18u64) & 1u64,
            (x >> 19u64) & 1u64 == (y >> 19u64) & 1u64,
            (x >> 20u64) & 1u64 == (y >> 20u64) & 1u64,
            (x >> 21u64) & 1u64 == (y >> 21u64) & 1u64,
            (x >> 22u64) & 1u64 == (y >> 22u64) & 1u64,
            (x >> 23u64) & 1u64 == (y >> 23u64) & 1u64,
            (x >> 24u64) & 1u64 == (y >> 24u64) & 1u64,
            (x >> 25u64) & 1u64 == (y >> 25u64) & 1u64,
            (x >> 26u64) & 1u64 == (y >> 26u64) & 1u64,
            (x >> 27u64) & 1u64 == (y >> 27u64) & 1u64,
            (x >> 28u64) & 1u64 == (y >> 28u64) & 1u64,
            (x >> 29u64) & 1u64 == (y >> 29u64) & 1u64,
            (x >> 30u64) & 1u64 == (y >> 30u64) & 1u64,
            (x >> 31u64) & 1u64 == (y >> 31u64) & 1u64,
            (x >> 32u64) & 1u64 == (y >> 32u64) & 1u64,
            (x >> 33u64) & 1u64 == (y >> 33u64) & 1u64,
            (x >> 34u64) & 1u64 == (y >> 34u64) & 1u64,
            (x >> 35u64) & 1u64 == (y >> 35u64) & 1u64,
            (x >> 36u64) & 1u64 == (y >> 36u64) & 1u64,
            (x >> 37u64) & 1u64 == (y >> 37u64) & 1u64,
            (x >> 38u64) & 1u64 == (y >> 38u64) & 1u64,
            (x >> 39u64) & 1u64 == (y >> 39u64) & 1u64,
            (x >> 40u64) & 1u64 == (y >> 40u64) & 1u64,
            (x >> 41u64) & 1u64 == (y >> 41u64) & 1u64,
            (x >> 42u64) & 1u64 == (y >> 42u64) & 1u64,
            (x >> 43u64) & 1u64 == (y >> 43u64) & 1u64,
            (x >> 44u64) & 1u64 == (y >> 44u64) & 1u64,
            (x >> 45u64) & 1u64 == (y >> 45u64) & 1u64,
            (x >> 46u64) & 1u64 == (y >> 46u64) & 1u64,
            (x >> 47u64) & 1u64 == (y >> 47u64) & 1u64,
            (x >> 48u64) & 1u64 == (y >> 48u64) & 1u64,
            (x >> 49u64) & 1u64 == (y >> 49u64) & 1u64,
            (x >> 50u64) & 1u64 == (y >> 50u64) & 1u64,
            (x >> 51u64) & 1u64 == (y >> 51u64) & 1u64,
            (x >> 52u64) & 1u64 == (y >> 52u64) & 1u64,
            (x >> 53u64) & 1u64 == (y >> 53u64) & 1u64,
            (x >> 54u64) & 1u64 == (y >> 54u64) & 1u64,
            (x >> 55u64) & 1u64 == (y >> 55u64) & 1u64,
            (x >> 56u64) & 1u64 == (y >> 56u64) & 1u64,
            (x >> 57u64) & 1u64 == (y >> 57u64) & 1u64,
            (x >> 58u64) & 1u64 == (y >> 58u64) & 1u64,
            (x >> 59u64) & 1u64 == (y >> 59u64) & 1u64,
            (x >> 60u64) & 1u64 == (y >> 60u64) & 1u64,
            (x >> 61u64) & 1u64 == (y >> 61u64) & 1u64,
            (x >> 62u64) & 1u64 == (y >> 62u64) & 1u64,
            (x >> 63u64) & 1u64 == (y >> 63u64) & 1u64;
}

/// Number of set bits of `x`.
pub open spec fn popcount(x: u64) -> int {
    ((x >> 0u64) & 1u64) + ((x >> 1u64) & 1u64) + ((x >> 2u64) & 1u64) + ((x >> 3u64) & 1u64) + ((x >> 4u64) & 1u64) + ((x >> 5u64) & 1u64) + ((x >> 6u64) & 1u64) + ((x >> 7u64) & 1u64) + ((x >> 8u64) & 1u64) + ((x >> 9u64) & 1u64) + ((x >> 10u64) & 1u64) + ((x >> 11u64) & 1u64) + ((x >> 12u64) & 1u64) + ((x >> 13u64) & 1u64) + ((x >> 14u64) & 1u64) + ((x >> 15u64) & 1u64) + ((x >> 16u64) & 1u64) + ((x >> 17u64) & 1u64) + ((x >> 18u64) & 1u64) + ((x >> 19u64) & 1u64) + ((x >> 20u64) & 1u64) + ((x >> 21u64) & 1u64) + ((x >> 22u64) & 1u64) + ((x >> 23u64) & 1u64) + ((x >> 24u64) & 1u64) + ((x >> 25u64) & 1u64) + ((x >> 26u64) & 1u64) + ((x >> 27u64) & 1u64) + ((x >> 28u64) & 1u64) + ((x >> 29u64) & 1u64) + ((x >> 30u64) & 1u64) + ((x >> 31u64) & 1u64) + ((x >> 32u64) & 1u64) + ((x >> 33u64) & 1u64) + ((x >> 34u64) & 1u64) + ((x >> 35u64) & 1u64) + ((x >> 36u64) & 1u64) + ((x >> 37u64) & 1u64) + ((x >> 38u64) & 1u64) + ((x >> 39u64) & 1u64) + ((x >> 40u64) & 1u64) + ((x >> 41u64) & 1u64) + ((x >> 42u64) & 1u64) + ((x >> 43u64) & 1u64) + ((x >> 44u64) & 1u64) + ((x >> 45u64) & 1u64) + ((x >> 46u64) & 1u64) + ((x >> 47u64) & 1u64) + ((x >> 48u64) & 1u64) + ((x >> 49u64) & 1u64) + ((x >> 50u64) & 1u64) + ((x >> 51u64) & 1u64) + ((x >> 52u64) & 1u64) + ((x >> 53u64) & 1u64) + ((x >> 54u64) & 1u64) + ((x >> 55u64) & 1u64) + ((x >> 56u64) & 1u64) + ((x >> 57u64) & 1u64) + ((x >> 58u64) & 1u64) + ((x >> 59u64) & 1u64) + ((x >> 60u64) & 1u64) + ((x >> 61u64) & 1u64) + ((x >> 62u64) & 1u64) + ((x >> 63u64) & 1u64)
}

/// Sum of the 2-bit fields of `b`.
pub open spec fn field_sum_2(b: u64) -> int {
    ((b >> 0u64) & 0x3u64) + ((b >> 2u64) & 0x3u64) + ((b >> 4u64) & 0x3u64) + ((b >> 6u64) & 0x3u64) + ((b >> 8u64) & 0x3u64) + ((b >> 10u64) & 0x3u64) + ((b >> 12u64) & 0x3u64) + ((b >> 14u64) & 0x3u64) + ((b >> 16u64) & 0x3u64) + ((b >> 18u64) & 0x3u64) + ((b >> 20u64) & 0x3u64) + ((b >> 22u64) & 0x3u64) + ((b >> 24u64) & 0x3u64) + ((b >> 26u64) & 0x3u64) + ((b >> 28u64) & 0x3u64) + ((b >> 30u64) & 0x3u64) + ((b >> 32u64) & 0x3u64) + ((b >> 34u64) & 0x3u64) + ((b >> 36u64) & 0x3u64) + ((b >> 38u64) & 0x3u64) + ((b >> 40u64) & 0x3u64) + ((b >> 42u64) & 0x3u64) + ((b >> 44u64) & 0x3u64) + ((b >> 46u64) & 0x3u64) + ((b >> 48u64) & 0x3u64) + ((b >> 50u64) & 0x3u64) + ((b >> 52u64) & 0x3u64) + ((b >> 54u64) & 0x3u64) + ((b >> 56u64) & 0x3u64) + ((b >> 58u64) & 0x3u64) + ((b >> 60u64) & 0x3u64) + ((b >> 62u64) & 0x3u64)
}

/// Sum of the 4-bit fields of `b`.
pub open spec fn field_sum_4(b: u64) -> int {
    ((b >> 0u64) & 0xfu64) + ((b >> 4u64) & 0xfu64) + ((b >> 8u64) & 0xfu64) + ((b >> 12u64) & 0xfu64) + ((b >> 16u64) & 0xfu64) + ((b >> 20u64) & 0xfu64) + ((b >> 24u64) & 0xfu64) + ((b >> 28u64) & 0xfu64) + ((b >> 32u64) & 0xfu64) + ((b >> 36u64) & 0xfu64) + ((b >> 40u64) & 0xfu64) + ((b >> 44u64) & 0xfu64) + ((b >> 48u64) & 0xfu64) + ((b >> 52u64) & 0xfu64) + ((b >> 56u64) & 0xfu64) + ((b >> 60u64) & 0xfu64)
}

/// Sum of the 8-bit fields of `b`.
pub open spec fn field_sum_8(b: u64) -> int {
    ((b >> 0u64) & 0xffu64) + ((b >> 8u64) & 0xffu64) + ((b >> 16u64) & 0xffu64) + ((b >> 24u64) & 0xffu64) + ((b >> 32u64) & 0xffu64) + ((b >> 40u64) & 0xffu64) + ((b >> 48u64) & 0xffu64) + ((b >> 56u64) & 0xffu64)
}

/// Sum of the 16-bit fields of `b`.
pub open spec fn field_sum_16(b: u64) -> int {
    ((b >> 0u64) & 0xffffu64) + ((b >> 16u64) & 0xffffu64) + ((b >> 32u64) & 0xffffu64) + ((b >> 48u64) & 0xffffu64)
}

/// Sum of the 32-bit fields of `b`.
pub open spec fn field_sum_32(b: u64) -> int {
    ((b >> 0u64) & 0xffffffffu64) + ((b >> 32u64) & 0xffffffffu64)
}

/// Index of the least significant set bit.
pub fn first_one(bitmap: u64) -> (r: u32)
    requires
        bitmap != 0,
    ensures
        r < 64,
        has_bit(bitmap, r as int),
        forall|j: int| 0 <= j < r ==> !has_bit(bitmap, j),
{
    let r = bitmap.trailing_zeros();
    proof {
        vstd::std_specs::bits::axiom_u64_trailing_zeros(bitmap);
        assert forall|j: int| 0 <= j < r implies !has_bit(bitmap, j) by {
            assert((bitmap >> (j as u64)) & 1u64 == 0u64);
        }
    }
    r
}

/// Index of the most significant set bit.
pub fn last_one(bitmap: u64) -> (r: u32)
    requires
        bitmap != 0,
    ensures
        r < 64,
        has_bit(bitmap, r as int),
        forall|j: int| r < j < 64 ==> !has_bit(bitmap, j),
{
    let mut r: u32 = 63;
    while (bitmap >> r) & 1 == 0
        invariant
            bitmap != 0,
            r < 64,
            forall|j: int| r < j < 64 ==> !has_bit(bitmap, j),
        decreases r,
    {
        if r == 0 {
            proof {
                assert forall|i: int| 0 <= i < 64 implies #[trigger] has_bit(bitmap, i) == has_bit(0u64, i) by {
                    lemma_bit_zero(i);
                }
                lemma_bits_ext(bitmap, 0u64);
            }
            return 0;
        }
        r = r - 1;
    }
    proof {
        let k = r as u64;
        assert((bitmap >> k) & 1u64 != 0u64 ==> (bitmap >> k) & 1u64 == 1u64) by (bit_vector);
    }
    r
}

/// Counts the set bits with the classic parallel (SWAR) reduction.
pub fn bit_cnt(bitmap: u64) -> (r: i32)
    ensures
        r == popcount(bitmap),
        0 <= r <= 64,
{
    let m1: u64 = 0x5555555555555555;
    let m2: u64 = 0x3333333333333333;
    let m4: u64 = 0x0f0f0f0f0f0f0f0f;
    let m8: u64 = 0x00ff00ff00ff00ff;
    let m16: u64 = 0x0000ffff0000ffff;
    let m32: u64 = 0x00000000ffffffff;
    let x = bitmap;
    assert((x & 0x5555555555555555u64) + ((x >> 1u64) & 0x5555555555555555u64) <= 0xffff_ffff_ffff_ffffu64) by (bit_vector);
    let b1 = (x & m1) + ((x >> 1) & m1);
    assert((b1 & 0x3333333333333333u64) + ((b1 >> 2u64) & 0x3333333333333333u64) <= 0xffff_ffff_ffff_ffffu64) by (bit_vector);
    let b2 = (b1 & m2) + ((b1 >> 2) & m2);
    assert((b2 & 0x0f0f0f0f0f0f0f0fu64) + ((b2 >> 4u64) & 0x0f0f0f0f0f0f0f0fu64) <= 0xffff_ffff_ffff_ffffu64) by (bit_vector);
    let b3 = (b2 & m4) + ((b2 >> 4) & m4);
    assert((b3 & 0x00ff00ff00ff00ffu64) + ((b3 >> 8u64) & 0x00ff00ff00ff00ffu64) <= 0xffff_ffff_ffff_ffffu64) by (bit_vector);
    let b4 = (b3 & m8) + ((b3 >> 8) & m8);
    assert((b4 & 0x0000ffff0000ffffu64) + ((b4 >> 16u64) & 0x0000ffff0000ffffu64) <= 0xffff_ffff_ffff_ffffu64) by (bit_vector);
    let b5 = (b4 & m16) + ((b4 >> 16) & m16);
    assert((b5 & 0x00000000ffffffffu64) + ((b5 >> 32u64) & 0x00000000ffffffffu64) <= 0xffff_ffff_ffff_ffffu64) by (bit_vector);
    let b6 = (b5 & m32) + ((b5 >> 32) & m32);
    assert(field_sum_2(b1) == popcount(x)) by (bit_vector)
        requires b1 == (x & 0x5555555555555555u64) + ((x >> 1u64) & 0x5555555555555555u64);
    assert(field_sum_4(b2) == field_sum_2(b1)) by (bit_vector)
        requires b2 == (b1 & 0x3333333333333333u64) + ((b1 >> 2u64) & 0x3333333333333333u64);
    assert(field_sum_8(b3) == field_sum_4(b2)) by (bit_vector)
        requires b3 == (b2 & 0x0f0f0f0f0f0f0f0fu64) + ((b2 >> 4u64) & 0x0f0f0f0f0f0f0f0fu64);
    assert(field_sum_16(b4) == field_sum_8(b3)) by (bit_vector)
        requires b4 == (b3 & 0x00ff00ff00ff00ffu64) + ((b3 >> 8u64) & 0x00ff00ff00ff00ffu64);
    assert(field_sum_32(b5) == field_sum_16(b4)) by (bit_vector)
        requires b5 == (b4 & 0x0000ffff0000ffffu64) + ((b4 >> 16u64) & 0x0000ffff0000ffffu64);
    assert(b6 == field_sum_32(b5)) by (bit_vector)
        requires b6 == (b5 & 0x00000000ffffffffu64) + ((b5 >> 32u64) & 0x00000000ffffffffu64);
    assert(popcount(x) <= 64) by (bit_vector);
    b6 as i32
}

}
