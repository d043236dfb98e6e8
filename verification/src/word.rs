//! The 256-bit machine word: four little-endian 64-bit limbs, with its
//! unsigned value `as_nat` (0 .. 2^256) and its two's-complement signed
//! reading `to_signed` (bit 255 is the sign bit).

use vstd::prelude::*;
use vstd::arithmetic::div_mod::lemma_div_denominator;
use vstd::arithmetic::div_mod::lemma_fundamental_div_mod;
use vstd::arithmetic::div_mod::lemma_fundamental_div_mod_converse;
use vstd::arithmetic::div_mod::lemma_small_mod;
use vstd::arithmetic::power2::lemma2_to64;
use vstd::arithmetic::power2::lemma2_to64_rest;
use vstd::arithmetic::power2::lemma_pow2_adds;
use vstd::arithmetic::power2::pow2;

verus! {

/// 2^64
pub open spec fn p64() -> nat {
    0x10000000000000000nat
}

/// 2^128
pub open spec fn p128() -> nat {
    0x100000000000000000000000000000000nat
}

/// 2^192
pub open spec fn p192() -> nat {
    0x1000000000000000000000000000000000000000000000000nat
}

/// 2^255
pub open spec fn p255() -> nat {
    0x8000000000000000000000000000000000000000000000000000000000000000nat
}

/// 2^256: the modulus of all unsigned word arithmetic.
pub open spec fn p256() -> nat {
    0x10000000000000000000000000000000000000000000000000000000000000000nat
}

/// A 256-bit word, stored as four 64-bit limbs, least significant first.
#[derive(Clone, Copy, Debug, PartialEq, Eq, Structural)]
pub struct Word {
    pub l0: u64,
    pub l1: u64,
    pub l2: u64,
    pub l3: u64,
}

impl Word {
    /// The unsigned value of the word.
    pub open spec fn as_nat(self) -> nat {
        (self.l0 + self.l1 * p64() + self.l2 * p128() + self.l3 * p192()) as nat
    }
}

/// The two's-complement signed value of the word.
pub open spec fn to_signed(w: Word) -> int {
    if w.as_nat() >= p255() {
        w.as_nat() - p256()
    } else {
        w.as_nat() as int
    }
}

/// The word whose unsigned value is `x % 2^256`, limb by limb.
pub open spec fn word_of(x: nat) -> Word {
    Word {
        l0: (x % p64()) as u64,
        l1: ((x / p64()) % p64()) as u64,
        l2: ((x / p128()) % p64()) as u64,
        l3: ((x / p192()) % p64()) as u64,
    }
}

/// Reduce an arbitrary-precision value to a word value modulo 2^256.
pub open spec fn to_word_val(i: int) -> nat {
    (i % (p256() as int)) as nat
}

/// The word that represents the arbitrary-precision value `i` modulo 2^256.
pub open spec fn w_of_int(i: int) -> Word {
    word_of(to_word_val(i))
}

pub proof fn lemma_as_nat_bound(w: Word)
    ensures
        w.as_nat() < p256(),
{
    assert(w.l0 < p64() && w.l1 < p64() && w.l2 < p64() && w.l3 < p64());
    assert(w.l1 * p64() <= (p64() - 1) * p64());
    assert(w.l2 * p128() <= (p64() - 1) * p128());
    assert(w.l3 * p192() <= (p64() - 1) * p192());
}

/// Recovering a word from its own unsigned value gives the word back.
pub proof fn lemma_word_of_as_nat(w: Word)
    ensures
        word_of(w.as_nat()) == w,
{
    let x = w.as_nat() as int;
    let q1 = w.l1 + w.l2 * p64() + w.l3 * p128();
    assert(x == q1 * p64() + w.l0);
    lemma_fundamental_div_mod_converse(x, p64() as int, q1, w.l0 as int);
    let q2 = w.l2 + w.l3 * p64();
    assert(q1 == q2 * p64() + w.l1);
    lemma_fundamental_div_mod_converse(q1, p64() as int, q2, w.l1 as int);
    assert(q2 == (w.l3 as int) * p64() + w.l2);
    lemma_fundamental_div_mod_converse(q2, p64() as int, w.l3 as int, w.l2 as int);
    lemma_div_denominator(x, p64() as int, p64() as int);
    assert(x / p128() as int == q2);
    lemma_div_denominator(x, p128() as int, p64() as int);
    assert(x / p192() as int == w.l3 as int);
    lemma_small_mod(w.l3 as nat, p64());
}

/// Two words with the same unsigned value are the same word.
pub proof fn lemma_as_nat_injective(a: Word, b: Word)
    requires
        a.as_nat() == b.as_nat(),
    ensures
        a == b,
{
    lemma_word_of_as_nat(a);
    lemma_word_of_as_nat(b);
}

/// The unsigned value of `word_of(x)` is `x` itself whenever `x < 2^256`.
pub proof fn lemma_as_nat_word_of(x: nat)
    requires
        x < p256(),
    ensures
        word_of(x).as_nat() == x,
{
    let xi = x as int;
    lemma_fundamental_div_mod(xi, p64() as int);
    lemma_fundamental_div_mod(xi / p64() as int, p64() as int);
    lemma_fundamental_div_mod(xi / p128() as int, p64() as int);
    lemma_div_denominator(xi, p64() as int, p64() as int);
    lemma_div_denominator(xi, p128() as int, p64() as int);
    assert((xi / (p192() as int)) < (p64() as int)) by {
        if xi / (p192() as int) >= p64() as int {
            assert(xi >= p192() as int * (xi / p192() as int)) by {
                lemma_fundamental_div_mod(xi, p192() as int);
            }
            assert(p192() as int * (xi / p192() as int) >= p192() as int * p64() as int);
        }
    }
    lemma_small_mod((xi / p192() as int) as nat, p64());
}

/// The concrete values of the powers of two that bound the limbs.
pub proof fn lemma_pow2_words()
    ensures
        pow2(8) == 256,
        pow2(64) == p64(),
        pow2(128) == p128(),
        pow2(192) == p192(),
        pow2(255) == p255(),
        pow2(256) == p256(),
{
    lemma2_to64();
    lemma2_to64_rest();
    lemma_pow2_adds(64, 64);
    lemma_pow2_adds(128, 64);
    lemma_pow2_adds(192, 63);
    lemma_pow2_adds(192, 64);
}

/// A word's value fits in its low limb exactly when the high limbs are zero.
pub proof fn lemma_low_limb(w: Word)
    ensures
        (w.as_nat() < p64()) <==> (w.l1 == 0 && w.l2 == 0 && w.l3 == 0),
        (w.l1 == 0 && w.l2 == 0 && w.l3 == 0) ==> w.as_nat() == w.l0,
{
    if w.l1 >= 1 {
        assert(w.l1 * p64() >= p64());
    }
    if w.l2 >= 1 {
        assert(w.l2 * p128() >= p128());
    }
    if w.l3 >= 1 {
        assert(w.l3 * p192() >= p192());
    }
}

/// The sign bit (bit 255) is set exactly when the top limb reaches 2^63.
pub proof fn lemma_sign_bit(w: Word)
    ensures
        (w.as_nat() >= p255()) <==> (w.l3 >= 0x8000000000000000),
        (to_signed(w) < 0) <==> (w.l3 >= 0x8000000000000000),
{
    if w.l3 >= 0x8000000000000000 {
        assert(w.l3 * p192() >= 0x8000000000000000 * p192());
    } else {
        assert(w.l3 * p192() <= 0x7fffffffffffffff * p192());
    }
}

/// The parity of a word is the parity of its low limb.
pub proof fn lemma_low_bit(w: Word)
    ensures
        w.as_nat() % 2 == w.l0 % 2,
{
    let q = w.l0 / 2 + w.l1 * 0x8000000000000000nat + w.l2
        * 0x80000000000000000000000000000000nat + w.l3
        * 0x800000000000000000000000000000000000000000000000nat;
    assert(w.as_nat() == q * 2 + (w.l0 % 2)) by {
        assert(w.l0 == 2 * (w.l0 / 2) + w.l0 % 2);
        assert(w.l1 * p64() == (w.l1 * 0x8000000000000000nat) * 2) by (nonlinear_arith);
        assert(w.l2 * p128() == (w.l2 * 0x80000000000000000000000000000000nat) * 2)
            by (nonlinear_arith);
        assert(w.l3 * p192() == (w.l3
            * 0x800000000000000000000000000000000000000000000000nat) * 2) by (nonlinear_arith);
    }
    lemma_fundamental_div_mod_converse(
        w.as_nat() as int,
        2,
        q as int,
        (w.l0 % 2) as int,
    );
}

/// The all-zero word.
pub fn word_zero() -> (r: Word)
    ensures
        r.as_nat() == 0,
        r == word_of(0),
{
    Word { l0: 0, l1: 0, l2: 0, l3: 0 }
}

/// The word holding a 64-bit value.
pub fn word_from_u64(x: u64) -> (r: Word)
    ensures
        r.as_nat() == x,
{
    Word { l0: x, l1: 0, l2: 0, l3: 0 }
}

/// The all-ones word, the two's-complement representation of -1.
pub fn word_all_ones() -> (r: Word)
    ensures
        r.as_nat() == p256() - 1,
{
    Word { l0: u64::MAX, l1: u64::MAX, l2: u64::MAX, l3: u64::MAX }
}

/// Tests whether the word is zero.
pub fn word_is_zero(w: &Word) -> (r: bool)
    ensures
        r == (w.as_nat() == 0),
{
    proof {
        lemma_low_limb(*w);
    }
    w.l0 == 0 && w.l1 == 0 && w.l2 == 0 && w.l3 == 0
}

/// Tests whether the word, read as a signed value, is negative.
pub fn word_is_negative(w: &Word) -> (r: bool)
    ensures
        r == (to_signed(*w) < 0),
{
    proof {
        lemma_sign_bit(*w);
    }
    w.l3 >= 0x8000000000000000
}

} // verus!
