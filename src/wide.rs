//! 256-bit occupancy masks, held as the four little-endian 64-bit words of a
//! `primitive_types::U256`, with the bit operations the mesher needs.

use vstd::prelude::*;

use primitive_types::U256;

verus! {

/// Bit `i` of the 256-bit value whose little-endian words are `w`.
pub open spec fn bit256(w: [u64; 4], i: int) -> bool {
    0 <= i < 256 && (w@[i / 64] >> ((i % 64) as u64)) & 1 == 1
}

/// Relies on `From<u8>` for `primitive_types::U256`: the result has the
/// value `v`, so its bits are those of `v` and all higher bits are clear.
#[verifier::external_body]
pub(crate) fn u256_from_u8(v: u8) -> (r: [u64; 4])
    ensures
        forall|i: int| 0 <= i < 256 ==> #[trigger] bit256(r, i) == (i < 8 && (v >> (i as u8)) & 1 == 1),
{
    U256::from(v).0
}

/// Relies on `BitOr` for `primitive_types::U256`: bitwise or.
#[verifier::external_body]
pub(crate) fn u256_or(a: [u64; 4], b: [u64; 4]) -> (r: [u64; 4])
    ensures
        forall|i: int| 0 <= i < 256 ==> #[trigger] bit256(r, i) == (bit256(a, i) || bit256(b, i)),
{
    (U256(a) | U256(b)).0
}

/// Relies on `BitAnd` for `primitive_types::U256`: bitwise and.
#[verifier::external_body]
pub(crate) fn u256_and(a: [u64; 4], b: [u64; 4]) -> (r: [u64; 4])
    ensures
        forall|i: int| 0 <= i < 256 ==> #[trigger] bit256(r, i) == (bit256(a, i) && bit256(b, i)),
{
    (U256(a) & U256(b)).0
}

/// Relies on `Not` for `primitive_types::U256`: every bit flipped.
#[verifier::external_body]
pub(crate) fn u256_not(a: [u64; 4]) -> (r: [u64; 4])
    ensures
        forall|i: int| 0 <= i < 256 ==> #[trigger] bit256(r, i) == !bit256(a, i),
{
    (!U256(a)).0
}

/// Relies on `Shl` for `primitive_types::U256`: bits move up by `n`, zeros
/// enter at the bottom, bits pushed past 255 are lost.
#[verifier::external_body]
pub(crate) fn u256_shl(a: [u64; 4], n: u32) -> (r: [u64; 4])
    requires
        n < 256,
    ensures
        forall|i: int| 0 <= i < 256 ==> #[trigger] bit256(r, i) == (n <= i && bit256(a, i - n)),
{
    (U256(a) << n).0
}

/// Relies on `Shr` for `primitive_types::U256`: bits move down by `n`, zeros
/// enter at the top.
#[verifier::external_body]
pub(crate) fn u256_shr(a: [u64; 4], n: u32) -> (r: [u64; 4])
    requires
        n < 256,
    ensures
        forall|i: int| 0 <= i < 256 ==> #[trigger] bit256(r, i) == (i + n < 256 && bit256(a, i + n)),
{
    (U256(a) >> n).0
}

/// Relies on `primitive_types::U256::is_zero`: true exactly when no bit is set.
#[verifier::external_body]
pub(crate) fn u256_is_zero(a: [u64; 4]) -> (r: bool)
    ensures
        r == (forall|i: int| 0 <= i < 256 ==> !#[trigger] bit256(a, i)),
{
    U256(a).is_zero()
}

proof fn lemma_u8_bits(v: u8, i: u8)
    by (bit_vector)
    requires
        v <= 1,
        i < 8,
    ensures
        ((v >> i) & 1 == 1) == (i == 0 && v == 1),
{
}

/// The mask of `b`: bit 0 set exactly when `b` holds.
pub(crate) fn u256_of_bool(b: bool) -> (r: [u64; 4])
    ensures
        forall|i: int| 0 <= i < 256 ==> #[trigger] bit256(r, i) == (i == 0 && b),
{
    let v: u8 = if b {
        1
    } else {
        0
    };
    let r = u256_from_u8(v);
    assert forall|i: int| 0 <= i < 256 implies #[trigger] bit256(r, i) == (i == 0 && b) by {
        if i < 8 {
            lemma_u8_bits(v, i as u8);
        }
    }
    r
}

/// Sets bit `n` of `m` when `b` holds; other bits are kept.
pub(crate) fn set_bit_u256(m: [u64; 4], n: u32, b: bool) -> (r: [u64; 4])
    requires
        n < 256,
    ensures
        forall|i: int| 0 <= i < 256 ==> #[trigger] bit256(r, i) == (bit256(m, i) || (i == n && b)),
{
    let one = u256_of_bool(b);
    let s = u256_shl(one, n);
    let r = u256_or(m, s);
    assert forall|i: int| 0 <= i < 256 implies #[trigger] bit256(r, i) == (bit256(m, i) || (i == n && b)) by {
        assert(bit256(s, i) == (n <= i && bit256(one, i - n)));
        if n <= i {
            assert(bit256(one, i - n) == (i - n == 0 && b));
        }
    }
    r
}

/// Whether bit `n` of `m` is set.
pub(crate) fn get_bit_u256(m: [u64; 4], n: u32) -> (r: bool)
    requires
        n < 256,
    ensures
        r == bit256(m, n as int),
{
    let s = u256_shr(m, n);
    let one = u256_of_bool(true);
    let x = u256_and(s, one);
    let z = u256_is_zero(x);
    proof {
        assert(bit256(x, 0) == bit256(m, n as int));
        if bit256(m, n as int) {
            assert(bit256(x, 0));
        } else {
            assert forall|i: int| 0 <= i < 256 implies !#[trigger] bit256(x, i) by {
                assert(bit256(one, i) == (i == 0));
            }
        }
    }
    !z
}

} // verus!
