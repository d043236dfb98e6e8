//! Trusted bridge to the 256-bit arithmetic of `primitive_types::U256` and,
//! for the wide-precision modular multiply, `num_bigint::BigUint`. Each
//! wrapper converts a `Word` to the external representation, makes one
//! external computation, and converts back; its contract states the exact
//! arithmetic the external source implements.

use vstd::prelude::*;
use vstd::arithmetic::power::pow;
use vstd::arithmetic::power2::pow2;
use crate::word::Word;
use crate::word::p256;
use primitive_types::U256;
use num_bigint::BigUint;

verus! {

/// Relies on `U256::overflowing_add`: 256-bit addition, wrapping modulo 2^256.
#[verifier::external_body]
pub(crate) fn u_add(a: &Word, b: &Word) -> (r: Word)
    ensures
        r.as_nat() == (a.as_nat() + b.as_nat()) % p256(),
{
    let x = U256([a.l0, a.l1, a.l2, a.l3]).overflowing_add(U256([b.l0, b.l1, b.l2, b.l3])).0;
    Word { l0: x.0[0], l1: x.0[1], l2: x.0[2], l3: x.0[3] }
}

/// Relies on `U256::overflowing_sub`: 256-bit subtraction, wrapping modulo 2^256.
#[verifier::external_body]
pub(crate) fn u_sub(a: &Word, b: &Word) -> (r: Word)
    ensures
        r.as_nat() == (a.as_nat() + p256() - b.as_nat()) % (p256() as int),
{
    let x = U256([a.l0, a.l1, a.l2, a.l3]).overflowing_sub(U256([b.l0, b.l1, b.l2, b.l3])).0;
    Word { l0: x.0[0], l1: x.0[1], l2: x.0[2], l3: x.0[3] }
}

/// Relies on `U256::overflowing_mul`: 256-bit multiplication, wrapping modulo 2^256.
#[verifier::external_body]
pub(crate) fn u_mul(a: &Word, b: &Word) -> (r: Word)
    ensures
        r.as_nat() == (a.as_nat() * b.as_nat()) % p256(),
{
    let x = U256([a.l0, a.l1, a.l2, a.l3]).overflowing_mul(U256([b.l0, b.l1, b.l2, b.l3])).0;
    Word { l0: x.0[0], l1: x.0[1], l2: x.0[2], l3: x.0[3] }
}

/// Relies on `U256::div_mod` (through `Div`): truncating unsigned division.
/// It panics on a zero divisor, so that case is excluded here.
#[verifier::external_body]
pub(crate) fn u_div(a: &Word, b: &Word) -> (r: Word)
    requires
        b.as_nat() != 0,
    ensures
        r.as_nat() == a.as_nat() / b.as_nat(),
{
    let x = U256([a.l0, a.l1, a.l2, a.l3]) / U256([b.l0, b.l1, b.l2, b.l3]);
    Word { l0: x.0[0], l1: x.0[1], l2: x.0[2], l3: x.0[3] }
}

/// Relies on `U256::div_mod` (through `Rem`): unsigned remainder.
/// It panics on a zero divisor, so that case is excluded here.
#[verifier::external_body]
pub(crate) fn u_rem(a: &Word, b: &Word) -> (r: Word)
    requires
        b.as_nat() != 0,
    ensures
        r.as_nat() == a.as_nat() % b.as_nat(),
{
    let x = U256([a.l0, a.l1, a.l2, a.l3]) % U256([b.l0, b.l1, b.l2, b.l3]);
    Word { l0: x.0[0], l1: x.0[1], l2: x.0[2], l3: x.0[3] }
}

/// Relies on `U256::overflowing_pow`: exponentiation by squaring built from
/// `overflowing_mul`, so the result is the true power reduced modulo 2^256.
#[verifier::external_body]
pub(crate) fn u_pow(a: &Word, b: &Word) -> (r: Word)
    ensures
        r.as_nat() == pow(a.as_nat() as int, b.as_nat()) % (p256() as int),
{
    let x = U256([a.l0, a.l1, a.l2, a.l3]).overflowing_pow(U256([b.l0, b.l1, b.l2, b.l3])).0;
    Word { l0: x.0[0], l1: x.0[1], l2: x.0[2], l3: x.0[3] }
}

/// Relies on `Shl<u64> for U256`: logical left shift, dropping the bits
/// shifted past bit 255, i.e. multiplication by 2^s modulo 2^256.
#[verifier::external_body]
pub(crate) fn u_shl(v: &Word, s: u64) -> (r: Word)
    requires
        s <= 255,
    ensures
        r.as_nat() == (v.as_nat() * pow2(s as nat)) % p256(),
{
    let x = U256([v.l0, v.l1, v.l2, v.l3]) << s;
    Word { l0: x.0[0], l1: x.0[1], l2: x.0[2], l3: x.0[3] }
}

/// Relies on `Shr<u64> for U256`: logical right shift, i.e. division by 2^s.
#[verifier::external_body]
pub(crate) fn u_shr(v: &Word, s: u64) -> (r: Word)
    requires
        s <= 255,
    ensures
        r.as_nat() == v.as_nat() / pow2(s as nat),
{
    let x = U256([v.l0, v.l1, v.l2, v.l3]) >> s;
    Word { l0: x.0[0], l1: x.0[1], l2: x.0[2], l3: x.0[3] }
}

/// Relies on `BitAnd for U256`: bitwise conjunction, limb by limb.
#[verifier::external_body]
pub(crate) fn u_and(a: &Word, b: &Word) -> (r: Word)
    ensures
        r.l0 == a.l0 & b.l0,
        r.l1 == a.l1 & b.l1,
        r.l2 == a.l2 & b.l2,
        r.l3 == a.l3 & b.l3,
{
    let x = U256([a.l0, a.l1, a.l2, a.l3]) & U256([b.l0, b.l1, b.l2, b.l3]);
    Word { l0: x.0[0], l1: x.0[1], l2: x.0[2], l3: x.0[3] }
}

/// Relies on `BitOr for U256`: bitwise disjunction, limb by limb.
#[verifier::external_body]
pub(crate) fn u_or(a: &Word, b: &Word) -> (r: Word)
    ensures
        r.l0 == a.l0 | b.l0,
        r.l1 == a.l1 | b.l1,
        r.l2 == a.l2 | b.l2,
        r.l3 == a.l3 | b.l3,
{
    let x = U256([a.l0, a.l1, a.l2, a.l3]) | U256([b.l0, b.l1, b.l2, b.l3]);
    Word { l0: x.0[0], l1: x.0[1], l2: x.0[2], l3: x.0[3] }
}

/// Relies on `BitXor for U256`: bitwise exclusive or, limb by limb.
#[verifier::external_body]
pub(crate) fn u_xor(a: &Word, b: &Word) -> (r: Word)
    ensures
        r.l0 == a.l0 ^ b.l0,
        r.l1 == a.l1 ^ b.l1,
        r.l2 == a.l2 ^ b.l2,
        r.l3 == a.l3 ^ b.l3,
{
    let x = U256([a.l0, a.l1, a.l2, a.l3]) ^ U256([b.l0, b.l1, b.l2, b.l3]);
    Word { l0: x.0[0], l1: x.0[1], l2: x.0[2], l3: x.0[3] }
}

/// Relies on `Not for U256`: bitwise complement, limb by limb.
#[verifier::external_body]
pub(crate) fn u_not(a: &Word) -> (r: Word)
    ensures
        r.l0 == !a.l0,
        r.l1 == !a.l1,
        r.l2 == !a.l2,
        r.l3 == !a.l3,
{
    let x = !U256([a.l0, a.l1, a.l2, a.l3]);
    Word { l0: x.0[0], l1: x.0[1], l2: x.0[2], l3: x.0[3] }
}

/// Relies on `Ord for U256`: lexicographic comparison of the limbs from most
/// significant to least, which is the numeric order of the values.
#[verifier::external_body]
pub(crate) fn u_lt(a: &Word, b: &Word) -> (r: bool)
    ensures
        r == (a.as_nat() < b.as_nat()),
{
    U256([a.l0, a.l1, a.l2, a.l3]) < U256([b.l0, b.l1, b.l2, b.l3])
}

/// Relies on `BigUint`'s `Mul` and `Rem`: the product is exact at arbitrary
/// precision before the reduction, and `Rem` panics on a zero modulus, so
/// that case is excluded here. The byte round trip goes through
/// `U256::to_big_endian`, `BigUint::from_bytes_be`, `BigUint::to_bytes_be`
/// and `U256::from_big_endian`.
#[verifier::external_body]
pub(crate) fn u_mulmod(a: &Word, b: &Word, n: &Word) -> (r: Word)
    requires
        n.as_nat() != 0,
    ensures
        r.as_nat() == (a.as_nat() * b.as_nat()) % n.as_nat(),
{
    let ab = U256([a.l0, a.l1, a.l2, a.l3]).to_big_endian();
    let bb = U256([b.l0, b.l1, b.l2, b.l3]).to_big_endian();
    let nb = U256([n.l0, n.l1, n.l2, n.l3]).to_big_endian();
    let big = (BigUint::from_bytes_be(&ab) * BigUint::from_bytes_be(&bb))
        % BigUint::from_bytes_be(&nb);
    let x = U256::from_big_endian(&big.to_bytes_be());
    Word { l0: x.0[0], l1: x.0[1], l2: x.0[2], l3: x.0[3] }
}

} // verus!
