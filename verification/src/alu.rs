//! Arithmetic/logic unit: the meaning of every instruction as a spec
//! function over word values, executable functions proved to compute those
//! meanings, and the general laws that hold of them.

use vstd::prelude::*;
use vstd::arithmetic::div_mod::lemma_add_mod_noop;
use vstd::arithmetic::div_mod::lemma_div_nonincreasing;
use vstd::arithmetic::div_mod::lemma_fundamental_div_mod;
use vstd::arithmetic::div_mod::lemma_fundamental_div_mod_converse;
use vstd::arithmetic::div_mod::lemma_hoist_over_denominator;
use vstd::arithmetic::div_mod::lemma_mod_add_multiples_vanish;
use vstd::arithmetic::div_mod::lemma_mod_bound;
use vstd::arithmetic::div_mod::lemma_mod_multiples_vanish;
use vstd::arithmetic::div_mod::lemma_mul_mod_noop_general;
use vstd::arithmetic::div_mod::lemma_small_mod;
use vstd::arithmetic::div_mod::lemma_sub_mod_noop;
use vstd::arithmetic::div_mod::lemma_multiply_divide_lt;
use vstd::arithmetic::div_mod::lemma_div_by_multiple;
use vstd::arithmetic::power::pow;
use vstd::arithmetic::power2::lemma_pow2_adds;
use vstd::arithmetic::power2::lemma_pow2_pos;
use vstd::arithmetic::power2::lemma_pow2_strictly_increases;
use vstd::arithmetic::power2::pow2;
use crate::word::Word;
use crate::word::lemma_as_nat_bound;
use crate::word::lemma_as_nat_injective;
use crate::word::lemma_as_nat_word_of;
use crate::word::lemma_low_bit;
use crate::word::lemma_low_limb;
use crate::word::lemma_pow2_words;
use crate::word::lemma_word_of_as_nat;
use crate::word::p255;
use crate::word::p256;
use crate::word::to_signed;
use crate::word::to_word_val;
use crate::word::w_of_int;
use crate::word::word_all_ones;
use crate::word::word_is_negative;
use crate::word::word_is_zero;
use crate::word::word_of;
use crate::word::word_zero;
use crate::u256::u_add;
use crate::u256::u_and;
use crate::u256::u_div;
use crate::u256::u_lt;
use crate::u256::u_mul;
use crate::u256::u_mulmod;
use crate::u256::u_not;
use crate::u256::u_or;
use crate::u256::u_pow;
use crate::u256::u_rem;
use crate::u256::u_shl;
use crate::u256::u_shr;
use crate::u256::u_sub;
use crate::u256::u_xor;

verus! {

/// Magnitude of a signed value.
pub open spec fn iabs(x: int) -> int {
    if x < 0 {
        -x
    } else {
        x
    }
}

/// Truncated signed division: quotient of the magnitudes, negative when the
/// operand signs differ.
pub open spec fn sdiv_int(x: int, y: int) -> int {
    if (x < 0) != (y < 0) {
        -(iabs(x) / iabs(y))
    } else {
        iabs(x) / iabs(y)
    }
}

/// Signed remainder: remainder of the magnitudes, carrying the dividend's sign.
pub open spec fn smod_int(x: int, y: int) -> int {
    if x < 0 {
        -(iabs(x) % iabs(y))
    } else {
        iabs(x) % iabs(y)
    }
}

/// The word 1 for true, the word 0 for false.
pub open spec fn word_bool(b: bool) -> Word {
    if b {
        word_of(1)
    } else {
        word_of(0)
    }
}

pub open spec fn m_add(a: Word, b: Word) -> Word {
    w_of_int(a.as_nat() + b.as_nat() as int)
}

pub open spec fn m_mul(a: Word, b: Word) -> Word {
    w_of_int(a.as_nat() * b.as_nat() as int)
}

pub open spec fn m_sub(a: Word, b: Word) -> Word {
    w_of_int(a.as_nat() - b.as_nat())
}

/// Unsigned division; a zero divisor yields the zero word.
pub open spec fn m_div(a: Word, b: Word) -> Word {
    if b.as_nat() == 0 {
        word_of(0)
    } else {
        word_of(a.as_nat() / b.as_nat())
    }
}

/// Unsigned remainder; a zero divisor yields the zero word.
pub open spec fn m_mod(a: Word, b: Word) -> Word {
    if b.as_nat() == 0 {
        word_of(0)
    } else {
        word_of(a.as_nat() % b.as_nat())
    }
}

/// Two's-complement signed division; a zero divisor yields the zero word.
/// Reducing the signed quotient modulo 2^256 also settles the one overflow
/// case: the minimum value divided by -1 wraps back to the minimum value.
pub open spec fn m_sdiv(a: Word, b: Word) -> Word {
    if b.as_nat() == 0 {
        word_of(0)
    } else {
        w_of_int(sdiv_int(to_signed(a), to_signed(b)))
    }
}

/// Two's-complement signed remainder; a zero divisor yields the zero word.
pub open spec fn m_smod(a: Word, b: Word) -> Word {
    if b.as_nat() == 0 {
        word_of(0)
    } else {
        w_of_int(smod_int(to_signed(a), to_signed(b)))
    }
}

/// Addition at full precision, then reduction; a zero modulus yields zero.
pub open spec fn m_addmod(a: Word, b: Word, n: Word) -> Word {
    if n.as_nat() == 0 {
        word_of(0)
    } else {
        word_of((a.as_nat() + b.as_nat()) % n.as_nat())
    }
}

/// Multiplication at full precision, then reduction; a zero modulus yields zero.
pub open spec fn m_mulmod(a: Word, b: Word, n: Word) -> Word {
    if n.as_nat() == 0 {
        word_of(0)
    } else {
        word_of((a.as_nat() * b.as_nat()) % n.as_nat())
    }
}

/// Exponentiation modulo 2^256; the first operand is the base.
pub open spec fn m_exp(a: Word, b: Word) -> Word {
    w_of_int(pow(a.as_nat() as int, b.as_nat()) as int)
}

/// Sign extension from byte position `b` (0 = low byte); positions past 31
/// leave the value unchanged.
pub open spec fn m_signextend(b: Word, x: Word) -> Word {
    if b.as_nat() >= 32 {
        x
    } else {
        let k = 8 * b.as_nat() + 8;
        let low = x.as_nat() % pow2(k);
        if (x.as_nat() / pow2((k - 1) as nat)) % 2 == 1 {
            word_of((low + p256() - pow2(k)) as nat)
        } else {
            word_of(low)
        }
    }
}

pub open spec fn m_lt(a: Word, b: Word) -> Word {
    word_bool(a.as_nat() < b.as_nat())
}

pub open spec fn m_gt(a: Word, b: Word) -> Word {
    word_bool(a.as_nat() > b.as_nat())
}

pub open spec fn m_slt(a: Word, b: Word) -> Word {
    word_bool(to_signed(a) < to_signed(b))
}

pub open spec fn m_sgt(a: Word, b: Word) -> Word {
    word_bool(to_signed(a) > to_signed(b))
}

pub open spec fn m_eq(a: Word, b: Word) -> Word {
    word_bool(a.as_nat() == b.as_nat())
}

pub open spec fn m_iszero(a: Word) -> Word {
    word_bool(a.as_nat() == 0)
}

pub open spec fn m_and(a: Word, b: Word) -> Word {
    Word { l0: a.l0 & b.l0, l1: a.l1 & b.l1, l2: a.l2 & b.l2, l3: a.l3 & b.l3 }
}

pub open spec fn m_or(a: Word, b: Word) -> Word {
    Word { l0: a.l0 | b.l0, l1: a.l1 | b.l1, l2: a.l2 | b.l2, l3: a.l3 | b.l3 }
}

pub open spec fn m_xor(a: Word, b: Word) -> Word {
    Word { l0: a.l0 ^ b.l0, l1: a.l1 ^ b.l1, l2: a.l2 ^ b.l2, l3: a.l3 ^ b.l3 }
}

pub open spec fn m_not(a: Word) -> Word {
    Word { l0: !a.l0, l1: !a.l1, l2: !a.l2, l3: !a.l3 }
}

/// Logical left shift; the first operand is the shift amount. Amounts past
/// 255 yield zero.
pub open spec fn m_shl(s: Word, v: Word) -> Word {
    if s.as_nat() > 255 {
        word_of(0)
    } else {
        w_of_int(v.as_nat() * pow2(s.as_nat()) as int)
    }
}

/// Logical right shift; the first operand is the shift amount. Amounts past
/// 255 yield zero.
pub open spec fn m_shr(s: Word, v: Word) -> Word {
    if s.as_nat() > 255 {
        word_of(0)
    } else {
        word_of(v.as_nat() / pow2(s.as_nat()))
    }
}

/// Arithmetic right shift: floor division of the signed value by 2^s.
/// Amounts past 255 yield all ones for a negative value, else zero.
pub open spec fn m_sar(s: Word, v: Word) -> Word {
    if s.as_nat() > 255 {
        if to_signed(v) < 0 {
            word_of((p256() - 1) as nat)
        } else {
            word_of(0)
        }
    } else {
        w_of_int(to_signed(v) / (pow2(s.as_nat()) as int))
    }
}

/// Adding a word and then subtracting the same word restores the original
/// value, modulo 2^256: the wraparound round trip.
pub proof fn lemma_add_sub_round_trip(a: Word, b: Word)
    ensures
        m_sub(m_add(a, b), b) == a,
{
    let x = a.as_nat();
    let y = b.as_nat();
    lemma_as_nat_bound(a);
    lemma_as_nat_bound(b);
    let s = to_word_val(x + y as int);
    lemma_mod_bound((x + y) as int, p256() as int);
    lemma_as_nat_word_of(s);
    lemma_sub_mod_noop((x + y) as int, y as int, p256() as int);
    lemma_small_mod(y, p256());
    lemma_small_mod(x, p256());
    lemma_word_of_as_nat(a);
}

/// Division and remainder, unsigned or signed, yield the zero word whenever
/// the divisor is the zero word, for every dividend.
pub proof fn lemma_zero_divisor(a: Word, z: Word)
    requires
        z.as_nat() == 0,
    ensures
        m_div(a, z) == word_of(0),
        m_mod(a, z) == word_of(0),
        m_sdiv(a, z) == word_of(0),
        m_smod(a, z) == word_of(0),
{
}

/// Modular multiplication is multiplication of the residues: reducing both
/// operands modulo n first gives the same result, at full precision.
pub proof fn lemma_mulmod_residues(a: Word, b: Word, n: Word)
    requires
        n.as_nat() != 0,
    ensures
        m_mulmod(a, b, n) == word_of(
            ((a.as_nat() % n.as_nat()) * (b.as_nat() % n.as_nat())) % n.as_nat(),
        ),
{
    lemma_mul_mod_noop_general(a.as_nat() as int, b.as_nat() as int, n.as_nat() as int);
}

/// Sign extension at a fixed byte position is idempotent.
pub proof fn lemma_signextend_idempotent(b: Word, x: Word)
    ensures
        m_signextend(b, m_signextend(b, x)) == m_signextend(b, x),
{
    if b.as_nat() < 32 {
        let k = 8 * b.as_nat() + 8;
        let kb = pow2(k);
        let kh = pow2((k - 1) as nat);
        lemma_pow2_words();
        lemma_pow2_pos(k);
        lemma_pow2_pos((k - 1) as nat);
        vstd::arithmetic::power2::lemma_pow2_unfold(k);
        assert(kb == 2 * kh);
        if k < 256 {
            lemma_pow2_strictly_increases(k, 256);
        }
        assert(kb <= p256());
        let xv = x.as_nat();
        let low = xv % kb;
        lemma_mod_bound(xv as int, kb as int);
        // the low bits determine the probed sign bit
        vstd::arithmetic::div_mod::lemma_breakdown(xv as int, kh as int, 2);
        assert(kh * 2 == kb);
        let bit = (xv / kh) % 2;
        lemma_mod_bound((xv / kh) as int, 2);
        assert(low == kh * bit + xv % kh);
        lemma_mod_bound(xv as int, kh as int);
        lemma_hoist_over_denominator((xv % kh) as int, bit as int, kh);
        assert((xv % kh) / kh == 0) by {
            lemma_small_mod((xv % kh) as nat, kh);
            vstd::arithmetic::div_mod::lemma_basic_div((xv % kh) as int, kh as int);
        }
        assert(low / kh == bit) by {
            assert((xv % kh) + bit * kh == low) by (nonlinear_arith)
                requires low == kh * bit + xv % kh,
            ;
        }
        lemma_small_mod(low % 2, 2);
        let y = m_signextend(b, x);
        let t = pow2((256 - k) as nat);
        lemma_pow2_adds(k, (256 - k) as nat);
        assert(kb * t == p256());
        if bit == 1 {
            assert(y == word_of((low + p256() - kb) as nat));
            let yv = (low + p256() - kb) as nat;
            lemma_as_nat_word_of(yv);
            assert(kb * (t - 1) == p256() - kb) by (nonlinear_arith)
                requires kb * t == p256(),
            ;
            lemma_mod_multiples_vanish(t - 1, low as int, kb as int);
            lemma_small_mod(low, kb);
            assert(y.as_nat() % kb == low);
            // the extended value still carries sign bit 1
            assert((2 * (t - 1)) * kh == (p256() - kb)) by (nonlinear_arith)
                requires kb == 2 * kh, kb * t == p256(),
            ;
            lemma_hoist_over_denominator(low as int, 2 * (t - 1), kh);
            assert(yv / kh == low / kh + 2 * (t - 1));
            lemma_mod_multiples_vanish(t - 1, 1, 2);
            assert((yv / kh) % 2 == 1) by {
                assert(yv / kh == 2 * (t - 1) + 1);
            }
            assert(m_signextend(b, y) == word_of((low + p256() - kb) as nat));
        } else {
            assert(y == word_of(low));
            lemma_as_nat_word_of(low);
            lemma_small_mod(low, kb);
            assert(y.as_nat() % kb == low);
            assert((y.as_nat() / kh) % 2 == bit);
            assert(m_signextend(b, y) == word_of(low));
        }
    }
}

/// The arithmetic and the logical right shift agree on every value whose
/// sign bit is clear, for every shift amount up to 255.
pub proof fn lemma_sar_shr_agree(s: Word, v: Word)
    requires
        s.as_nat() <= 255,
        v.as_nat() < p255(),
    ensures
        m_sar(s, v) == m_shr(s, v),
{
    lemma_pow2_pos(s.as_nat());
    lemma_div_nonincreasing(v.as_nat() as int, pow2(s.as_nat()) as int);
    lemma_as_nat_bound(v);
    lemma_small_mod(v.as_nat() / pow2(s.as_nat()), p256());
}

/// A word is the image under `word_of` of its own value.
proof fn lemma_word_eq(r: Word, v: nat)
    requires
        r.as_nat() == v,
    ensures
        r == word_of(v),
{
    lemma_word_of_as_nat(r);
}

pub fn add_words(a: &Word, b: &Word) -> (r: Word)
    ensures
        r == m_add(*a, *b),
{
    let r = u_add(a, b);
    proof {
        lemma_word_eq(r, to_word_val(a.as_nat() + b.as_nat() as int));
    }
    r
}

pub fn mul_words(a: &Word, b: &Word) -> (r: Word)
    ensures
        r == m_mul(*a, *b),
{
    let r = u_mul(a, b);
    proof {
        lemma_word_eq(r, to_word_val(a.as_nat() * b.as_nat() as int));
    }
    r
}

pub fn sub_words(a: &Word, b: &Word) -> (r: Word)
    ensures
        r == m_sub(*a, *b),
{
    let r = u_sub(a, b);
    proof {
        lemma_as_nat_bound(*b);
        lemma_mod_add_multiples_vanish(a.as_nat() - b.as_nat(), p256() as int);
        lemma_word_eq(r, to_word_val(a.as_nat() - b.as_nat()));
    }
    r
}

pub fn div_words(a: &Word, b: &Word) -> (r: Word)
    ensures
        r == m_div(*a, *b),
{
    if word_is_zero(b) {
        word_zero()
    } else {
        let r = u_div(a, b);
        proof {
            lemma_word_eq(r, a.as_nat() / b.as_nat());
        }
        r
    }
}

pub fn mod_words(a: &Word, b: &Word) -> (r: Word)
    ensures
        r == m_mod(*a, *b),
{
    if word_is_zero(b) {
        word_zero()
    } else {
        let r = u_rem(a, b);
        proof {
            lemma_word_eq(r, a.as_nat() % b.as_nat());
        }
        r
    }
}

pub fn exp_words(a: &Word, b: &Word) -> (r: Word)
    ensures
        r == m_exp(*a, *b),
{
    let r = u_pow(a, b);
    proof {
        lemma_word_eq(r, to_word_val(pow(a.as_nat() as int, b.as_nat()) as int));
    }
    r
}

pub fn mulmod_words(a: &Word, b: &Word, n: &Word) -> (r: Word)
    ensures
        r == m_mulmod(*a, *b, *n),
{
    if word_is_zero(n) {
        word_zero()
    } else {
        let r = u_mulmod(a, b, n);
        proof {
            lemma_word_eq(r, (a.as_nat() * b.as_nat()) % n.as_nat());
        }
        r
    }
}

pub fn lt_words(a: &Word, b: &Word) -> (r: Word)
    ensures
        r == m_lt(*a, *b),
{
    word_from_bool(u_lt(a, b))
}

pub fn gt_words(a: &Word, b: &Word) -> (r: Word)
    ensures
        r == m_gt(*a, *b),
{
    word_from_bool(u_lt(b, a))
}

pub fn eq_words(a: &Word, b: &Word) -> (r: Word)
    ensures
        r == m_eq(*a, *b),
{
    proof {
        if a.as_nat() == b.as_nat() {
            lemma_as_nat_injective(*a, *b);
        }
    }
    word_from_bool(*a == *b)
}

pub fn iszero_words(a: &Word) -> (r: Word)
    ensures
        r == m_iszero(*a),
{
    word_from_bool(word_is_zero(a))
}

pub fn and_words(a: &Word, b: &Word) -> (r: Word)
    ensures
        r == m_and(*a, *b),
{
    u_and(a, b)
}

pub fn or_words(a: &Word, b: &Word) -> (r: Word)
    ensures
        r == m_or(*a, *b),
{
    u_or(a, b)
}

pub fn xor_words(a: &Word, b: &Word) -> (r: Word)
    ensures
        r == m_xor(*a, *b),
{
    u_xor(a, b)
}

pub fn not_words(a: &Word) -> (r: Word)
    ensures
        r == m_not(*a),
{
    u_not(a)
}

/// Either the word 1 or the word 0.
pub fn word_from_bool(b: bool) -> (r: Word)
    ensures
        r == word_bool(b),
{
    if b {
        let r = Word { l0: 1, l1: 0, l2: 0, l3: 0 };
        proof {
            lemma_word_eq(r, 1);
        }
        r
    } else {
        let r = Word { l0: 0, l1: 0, l2: 0, l3: 0 };
        proof {
            lemma_word_eq(r, 0);
        }
        r
    }
}

/// Tests whether the word's value exceeds 255, i.e. whether a shift amount
/// clears the whole word.
pub fn word_over_255(s: &Word) -> (r: bool)
    ensures
        r == (s.as_nat() > 255),
{
    proof {
        lemma_low_limb(*s);
    }
    s.l1 != 0 || s.l2 != 0 || s.l3 != 0 || s.l0 > 255
}

pub fn shl_words(s: &Word, v: &Word) -> (r: Word)
    ensures
        r == m_shl(*s, *v),
{
    if word_over_255(s) {
        word_zero()
    } else {
        proof {
            lemma_low_limb(*s);
        }
        let r = u_shl(v, s.l0);
        proof {
            lemma_word_eq(r, to_word_val(v.as_nat() * pow2(s.as_nat()) as int));
        }
        r
    }
}

/// The magnitude of the word's signed value.
fn abs_word(w: &Word) -> (r: Word)
    ensures
        r.as_nat() == iabs(to_signed(*w)),
{
    if word_is_negative(w) {
        let r = u_sub(&word_zero(), w);
        proof {
            lemma_as_nat_bound(*w);
            lemma_small_mod((p256() - w.as_nat()) as nat, p256());
        }
        r
    } else {
        *w
    }
}

/// Two's-complement negation: the word standing for minus this word's value.
fn negate_word(w: &Word) -> (r: Word)
    ensures
        r.as_nat() == to_word_val(-(w.as_nat() as int)),
{
    let r = u_sub(&word_zero(), w);
    proof {
        lemma_as_nat_bound(*w);
        lemma_mod_add_multiples_vanish(-(w.as_nat() as int), p256() as int);
    }
    r
}

pub fn sdiv_words(a: &Word, b: &Word) -> (r: Word)
    ensures
        r == m_sdiv(*a, *b),
{
    if word_is_zero(b) {
        return word_zero();
    }
    let a_neg = word_is_negative(a);
    let b_neg = word_is_negative(b);
    let abs_a = abs_word(a);
    let abs_b = abs_word(b);
    let ghost sa = to_signed(*a);
    let ghost sb = to_signed(*b);
    proof {
        lemma_as_nat_bound(*b);
        assert(iabs(sb) > 0);
    }
    let q = u_div(&abs_a, &abs_b);
    if a_neg != b_neg {
        let r = negate_word(&q);
        proof {
            lemma_word_eq(r, to_word_val(sdiv_int(sa, sb)));
        }
        r
    } else {
        proof {
            lemma_div_nonincreasing(iabs(sa), iabs(sb));
            lemma_as_nat_bound(*a);
            lemma_small_mod(q.as_nat(), p256());
            lemma_word_eq(q, to_word_val(sdiv_int(sa, sb)));
        }
        q
    }
}

pub fn smod_words(a: &Word, b: &Word) -> (r: Word)
    ensures
        r == m_smod(*a, *b),
{
    if word_is_zero(b) {
        return word_zero();
    }
    let a_neg = word_is_negative(a);
    let abs_a = abs_word(a);
    let abs_b = abs_word(b);
    let ghost sa = to_signed(*a);
    let ghost sb = to_signed(*b);
    proof {
        lemma_as_nat_bound(*b);
        assert(iabs(sb) > 0);
    }
    let r0 = u_rem(&abs_a, &abs_b);
    if a_neg {
        let r = negate_word(&r0);
        proof {
            lemma_word_eq(r, to_word_val(smod_int(sa, sb)));
        }
        r
    } else {
        proof {
            lemma_mod_bound(iabs(sa), iabs(sb));
            lemma_as_nat_bound(*b);
            lemma_small_mod(r0.as_nat(), p256());
            lemma_word_eq(r0, to_word_val(smod_int(sa, sb)));
        }
        r0
    }
}

pub fn slt_words(a: &Word, b: &Word) -> (r: Word)
    ensures
        r == m_slt(*a, *b),
{
    let a_neg = word_is_negative(a);
    let b_neg = word_is_negative(b);
    if a_neg == b_neg {
        word_from_bool(u_lt(a, b))
    } else {
        word_from_bool(a_neg)
    }
}

pub fn sgt_words(a: &Word, b: &Word) -> (r: Word)
    ensures
        r == m_sgt(*a, *b),
{
    let a_neg = word_is_negative(a);
    let b_neg = word_is_negative(b);
    if a_neg == b_neg {
        word_from_bool(u_lt(b, a))
    } else {
        word_from_bool(b_neg)
    }
}

#[verifier::rlimit(60)]
pub fn addmod_words(a: &Word, b: &Word, n: &Word) -> (r: Word)
    ensures
        r == m_addmod(*a, *b, *n),
{
    if word_is_zero(n) {
        return word_zero();
    }
    let ghost nn = n.as_nat();
    let ra = u_rem(a, n);
    let rb = u_rem(b, n);
    proof {
        lemma_as_nat_bound(*n);
        lemma_mod_bound(a.as_nat() as int, nn as int);
        lemma_mod_bound(b.as_nat() as int, nn as int);
        lemma_add_mod_noop(a.as_nat() as int, b.as_nat() as int, nn as int);
    }
    let ghost s_true = ra.as_nat() + rb.as_nat();
    let t = u_add(&ra, &rb);
    proof {
        if s_true < p256() {
            lemma_small_mod(s_true, p256());
        } else {
            lemma_mod_add_multiples_vanish(s_true - p256(), p256() as int);
            lemma_small_mod((s_true - p256()) as nat, p256());
        }
    }
    if u_lt(&t, &ra) {
        // the full-precision sum wrapped past 2^256, so it certainly reached n:
        // hand back sum - n, reduced exactly once
        let mn = negate_word(n);
        proof {
            lemma_mod_add_multiples_vanish(-(nn as int), p256() as int);
            lemma_small_mod((p256() - nn) as nat, p256());
        }
        let r = u_add(&t, &mn);
        proof {
            lemma_fundamental_div_mod_converse(
                s_true as int,
                nn as int,
                1,
                s_true - nn,
            );
            lemma_small_mod((s_true - nn) as nat, p256());
            lemma_word_eq(r, (a.as_nat() + b.as_nat()) % nn);
        }
        r
    } else {
        if u_lt(&t, n) {
            proof {
                lemma_small_mod(s_true, nn);
                lemma_word_eq(t, (a.as_nat() + b.as_nat()) % nn);
            }
            t
        } else {
            let r = u_sub(&t, n);
            proof {
                lemma_fundamental_div_mod_converse(
                    s_true as int,
                    nn as int,
                    1,
                    s_true - nn,
                );
                lemma_small_mod((s_true - nn) as nat, p256());
                lemma_word_eq(r, (a.as_nat() + b.as_nat()) % nn);
            }
            r
        }
    }
}

pub fn sar_words(s: &Word, v: &Word) -> (r: Word)
    ensures
        r == m_sar(*s, *v),
{
    let neg = word_is_negative(v);
    if word_over_255(s) {
        if neg {
            let r = word_all_ones();
            proof {
                lemma_word_eq(r, (p256() - 1) as nat);
            }
            r
        } else {
            word_zero()
        }
    } else {
        proof {
            lemma_low_limb(*s);
        }
        let sh = s.l0;
        let ghost shn = s.as_nat();
        let ghost vv = v.as_nat();
        if sh == 0 {
            proof {
                lemma_pow2_words();
                vstd::arithmetic::power2::lemma2_to64();
                assert(to_signed(*v) / 1int == to_signed(*v));
                lemma_as_nat_bound(*v);
                if to_signed(*v) < 0 {
                    lemma_mod_add_multiples_vanish(to_signed(*v), p256() as int);
                }
                lemma_small_mod(vv, p256());
                lemma_word_of_as_nat(*v);
            }
            return *v;
        }
        let q = u_shr(v, sh);
        proof {
            lemma_pow2_pos(shn);
            lemma_pow2_pos((256 - shn) as nat);
            lemma_pow2_adds(shn, (256 - shn) as nat);
            lemma_pow2_words();
            assert(shn + ((256 - shn) as nat) == 256);
            assert(pow2(shn) * pow2((256 - shn) as nat) == p256());
            lemma_as_nat_bound(*v);
            assert(q.as_nat() < pow2((256 - shn) as nat)) by {
                lemma_multiply_divide_lt(vv as int, pow2(shn) as int, pow2((256 - shn) as nat) as int);
            }
        }
        if neg {
            let ones = word_all_ones();
            let mask = u_shl(&ones, 256 - sh);
            let ghost c = (256 - shn) as nat;
            proof {
                assert((p256() - 1) * pow2(c) == p256() * pow2(c) - pow2(c)) by (nonlinear_arith)
                    requires p256() > 0;
                lemma_mod_multiples_vanish(pow2(c) as int, -(pow2(c) as int), p256() as int);
                lemma_mod_add_multiples_vanish(-(pow2(c) as int), p256() as int);
                lemma_pow2_strictly_increases(c, 256);
                lemma_small_mod((p256() - pow2(c)) as nat, p256());
                assert(mask.as_nat() == p256() - pow2(c));
            }
            let r = u_add(&q, &mask);
            proof {
                lemma_small_mod((q.as_nat() + p256() - pow2(c)) as nat, p256());
                // floor-dividing the signed value matches shifting the magnitude:
                // (vv - 2^256) / 2^sh == vv / 2^sh - 2^c
                lemma_hoist_over_denominator(vv as int, -(pow2(c) as int), pow2(shn));
                assert((-(pow2(c) as int)) * (pow2(shn) as int) == -(p256() as int)) by (nonlinear_arith)
                    requires pow2(shn) * pow2(c) == p256();
                lemma_mod_add_multiples_vanish(
                    vv / pow2(shn) - pow2(c),
                    p256() as int,
                );
                lemma_word_eq(r, to_word_val(to_signed(*v) / (pow2(shn) as int)));
            }
            r
        } else {
            proof {
                lemma_div_nonincreasing(vv as int, pow2(shn) as int);
                lemma_small_mod(q.as_nat(), p256());
                lemma_word_eq(q, to_word_val(to_signed(*v) / (pow2(shn) as int)));
            }
            q
        }
    }
}

pub fn signextend_words(b: &Word, x: &Word) -> (r: Word)
    ensures
        r == m_signextend(*b, *x),
{
    proof {
        lemma_low_limb(*b);
    }
    if b.l1 != 0 || b.l2 != 0 || b.l3 != 0 || b.l0 >= 32 {
        return *x;
    }
    let bp = b.l0;
    let ghost kk = (8 * b.as_nat() + 8) as nat;
    proof {
        lemma_pow2_words();
    }
    if bp == 31 {
        proof {
            lemma_as_nat_bound(*x);
            lemma_small_mod(x.as_nat(), p256());
            lemma_word_of_as_nat(*x);
        }
        return *x;
    }
    let k: u64 = 8 * bp + 8;
    let ghost xx = x.as_nat();
    let probe = u_shr(x, k - 1);
    let sign_set = probe.l0 % 2 == 1;
    proof {
        lemma_low_bit(probe);
        assert(probe.as_nat() == xx / pow2((kk - 1) as nat));
    }
    let up = u_shl(x, 256 - k);
    let low = u_shr(&up, 256 - k);
    let ghost c = (256 - kk) as nat;
    let ghost rl = xx % pow2(kk);
    proof {
        lemma_pow2_pos(kk);
        lemma_pow2_pos(c);
        lemma_pow2_adds(kk, c);
        lemma_fundamental_div_mod(xx as int, pow2(kk) as int);
        lemma_mod_bound(xx as int, pow2(kk) as int);
        let qk = xx as int / pow2(kk) as int;
        assert(xx * pow2(c) == qk * p256() + rl * pow2(c)) by (nonlinear_arith)
            requires
                xx == pow2(kk) * qk + rl,
                pow2(kk) * pow2(c) == p256(),
        ;
        assert(rl * pow2(c) < p256()) by (nonlinear_arith)
            requires
                rl < pow2(kk),
                pow2(c) > 0,
                pow2(kk) * pow2(c) == p256(),
        ;
        lemma_mod_multiples_vanish(qk, rl * pow2(c) as int, p256() as int);
        lemma_small_mod((rl * pow2(c)) as nat, p256());
        assert(up.as_nat() == rl * pow2(c));
        lemma_div_by_multiple(rl as int, pow2(c) as int);
        assert(low.as_nat() == rl);
    }
    if sign_set {
        let ones = word_all_ones();
        let mask = u_shl(&ones, k);
        proof {
            assert((p256() - 1) * pow2(kk) == p256() * pow2(kk) - pow2(kk)) by (nonlinear_arith)
                requires p256() > 0;
            lemma_mod_multiples_vanish(pow2(kk) as int, -(pow2(kk) as int), p256() as int);
            lemma_mod_add_multiples_vanish(-(pow2(kk) as int), p256() as int);
            lemma_pow2_strictly_increases(kk, 256);
            lemma_small_mod((p256() - pow2(kk)) as nat, p256());
            assert(mask.as_nat() == p256() - pow2(kk));
        }
        let r = u_add(&low, &mask);
        proof {
            lemma_small_mod((rl + p256() - pow2(kk)) as nat, p256());
            lemma_word_eq(r, (rl + p256() - pow2(kk)) as nat);
        }
        r
    } else {
        proof {
            lemma_word_eq(low, rl);
        }
        low
    }
}

pub fn shr_words(s: &Word, v: &Word) -> (r: Word)
    ensures
        r == m_shr(*s, *v),
{
    if word_over_255(s) {
        word_zero()
    } else {
        proof {
            lemma_low_limb(*s);
        }
        let r = u_shr(v, s.l0);
        proof {
            lemma_pow2_pos(s.as_nat());
            lemma_word_eq(r, v.as_nat() / pow2(s.as_nat()));
        }
        r
    }
}

} // verus!
