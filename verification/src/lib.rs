//! Execution core of a 256-bit stack machine: a fetch-decode-execute loop
//! over an immutable byte sequence, driving an operand stack of 256-bit
//! words. The whole run is specified by the interpreter `run_from`, and
//! `evm` is proved to return exactly what it describes.
//!
//! Policy choices, stated once and tested: an unknown opcode is a no-op that
//! only advances the program counter; a push immediate truncated by the end
//! of the code is zero-extended, as if the missing trailing bytes were zero;
//! a stack underflow halts execution and reports failure through the
//! result's success flag rather than aborting.

pub mod word;
mod u256;
pub mod alu;

use vstd::prelude::*;
use crate::word::Word;
use crate::word::word_of;
use crate::word::word_zero;
use crate::word::word_from_u64;
use crate::word::lemma_word_of_as_nat;
use crate::word::p256;
use crate::alu::m_add;
use crate::alu::m_mul;
use crate::alu::m_sub;
use crate::alu::m_div;
use crate::alu::m_sdiv;
use crate::alu::m_mod;
use crate::alu::m_smod;
use crate::alu::m_addmod;
use crate::alu::m_mulmod;
use crate::alu::m_exp;
use crate::alu::m_signextend;
use crate::alu::m_lt;
use crate::alu::m_gt;
use crate::alu::m_slt;
use crate::alu::m_sgt;
use crate::alu::m_eq;
use crate::alu::m_iszero;
use crate::alu::m_and;
use crate::alu::m_or;
use crate::alu::m_xor;
use crate::alu::m_not;
use crate::alu::m_shl;
use crate::alu::m_shr;
use crate::alu::m_sar;
use crate::alu::add_words;
use crate::alu::mul_words;
use crate::alu::sub_words;
use crate::alu::div_words;
use crate::alu::sdiv_words;
use crate::alu::mod_words;
use crate::alu::smod_words;
use crate::alu::addmod_words;
use crate::alu::mulmod_words;
use crate::alu::exp_words;
use crate::alu::signextend_words;
use crate::alu::lt_words;
use crate::alu::gt_words;
use crate::alu::slt_words;
use crate::alu::sgt_words;
use crate::alu::eq_words;
use crate::alu::iszero_words;
use crate::alu::and_words;
use crate::alu::or_words;
use crate::alu::xor_words;
use crate::alu::not_words;
use crate::alu::shl_words;
use crate::alu::shr_words;
use crate::alu::sar_words;
use crate::u256::u_add;
use crate::u256::u_shl;
use vstd::arithmetic::power2::pow2;
use vstd::arithmetic::power2::lemma_pow2_adds;
use vstd::arithmetic::power2::lemma_pow2_pos;
use vstd::arithmetic::power2::lemma2_to64;
use vstd::arithmetic::div_mod::lemma_small_mod;
use vstd::arithmetic::power2::lemma_pow2_strictly_increases;
use crate::word::lemma_pow2_words;

verus! {

/// Placeholder gas counter: an extension point for future instruction
/// costing; no instruction consults it yet.
pub struct Gas {
    pub current: u64,
}

impl Gas {
    pub fn decrement(&mut self, n: &u64)
        requires
            old(self).current >= *n,
        ensures
            final(self).current == old(self).current - *n,
    {
        self.current = self.current - *n;
    }

    pub fn increment(&mut self, n: &u64)
        requires
            old(self).current + *n <= u64::MAX,
        ensures
            final(self).current == old(self).current + *n,
    {
        self.current = self.current + *n;
    }
}

/// The snapshot taken when the loop terminates: the final operand stack,
/// top first, and whether execution completed without a fault.
pub struct EvmResult {
    pub stack: Vec<Word>,
    pub success: bool,
}

/// Opcodes popping two words and pushing one.
pub open spec fn is_binary_op(op: u8) -> bool {
    op == 0x01 || op == 0x02 || op == 0x03 || op == 0x04 || op == 0x05 || op == 0x06 || op
        == 0x07 || op == 0x0a || op == 0x0b || op == 0x10 || op == 0x11 || op == 0x12 || op
        == 0x13 || op == 0x14 || op == 0x16 || op == 0x17 || op == 0x18 || op == 0x1b || op
        == 0x1c || op == 0x1d
}

/// Opcodes popping one word and pushing one.
pub open spec fn is_unary_op(op: u8) -> bool {
    op == 0x15 || op == 0x19
}

/// Opcodes popping three words and pushing one.
pub open spec fn is_ternary_op(op: u8) -> bool {
    op == 0x08 || op == 0x09
}

/// The push opcodes, carrying 0 to 32 immediate bytes.
pub open spec fn is_push_op(op: u8) -> bool {
    0x5f <= op && op <= 0x7f
}

/// The result a two-operand instruction pushes; `a` was on top.
pub open spec fn binary_semantics(op: u8, a: Word, b: Word) -> Word {
    if op == 0x01 {
        m_add(a, b)
    } else if op == 0x02 {
        m_mul(a, b)
    } else if op == 0x03 {
        m_sub(a, b)
    } else if op == 0x04 {
        m_div(a, b)
    } else if op == 0x05 {
        m_sdiv(a, b)
    } else if op == 0x06 {
        m_mod(a, b)
    } else if op == 0x07 {
        m_smod(a, b)
    } else if op == 0x0a {
        m_exp(a, b)
    } else if op == 0x0b {
        m_signextend(a, b)
    } else if op == 0x10 {
        m_lt(a, b)
    } else if op == 0x11 {
        m_gt(a, b)
    } else if op == 0x12 {
        m_slt(a, b)
    } else if op == 0x13 {
        m_sgt(a, b)
    } else if op == 0x14 {
        m_eq(a, b)
    } else if op == 0x16 {
        m_and(a, b)
    } else if op == 0x17 {
        m_or(a, b)
    } else if op == 0x18 {
        m_xor(a, b)
    } else if op == 0x1b {
        m_shl(a, b)
    } else if op == 0x1c {
        m_shr(a, b)
    } else {
        m_sar(a, b)
    }
}

/// The result a one-operand instruction pushes.
pub open spec fn unary_semantics(op: u8, a: Word) -> Word {
    if op == 0x15 {
        m_iszero(a)
    } else {
        m_not(a)
    }
}

/// The result a three-operand instruction pushes; `a` was on top and `n`,
/// popped third, is the modulus.
pub open spec fn ternary_semantics(op: u8, a: Word, b: Word, n: Word) -> Word {
    if op == 0x08 {
        m_addmod(a, b, n)
    } else {
        m_mulmod(a, b, n)
    }
}

/// How one non-push, non-halt opcode transforms the stack; `None` is a
/// stack underflow. An opcode outside the instruction set leaves the stack
/// unchanged: unknown opcodes are no-ops by this core's documented policy.
pub open spec fn step_stack(op: u8, s: Seq<Word>) -> Option<Seq<Word>> {
    if is_binary_op(op) {
        if s.len() < 2 {
            Option::None
        } else {
            Option::Some(seq![binary_semantics(op, s[0], s[1])] + s.skip(2))
        }
    } else if is_unary_op(op) {
        if s.len() < 1 {
            Option::None
        } else {
            Option::Some(seq![unary_semantics(op, s[0])] + s.skip(1))
        }
    } else if is_ternary_op(op) {
        if s.len() < 3 {
            Option::None
        } else {
            Option::Some(seq![ternary_semantics(op, s[0], s[1], s[2])] + s.skip(3))
        }
    } else if op == 0x50 {
        if s.len() < 1 {
            Option::None
        } else {
            Option::Some(s.skip(1))
        }
    } else {
        Option::Some(s)
    }
}

/// The byte at position `i`, reading zero past the end of the code: a push
/// immediate truncated by end-of-code is zero-extended.
pub open spec fn imm_byte(code: Seq<u8>, i: int) -> u8 {
    if 0 <= i < code.len() {
        code[i]
    } else {
        0
    }
}

/// The big-endian value of the `k` immediate bytes starting at `start`.
pub open spec fn imm_val(code: Seq<u8>, start: int, k: nat) -> nat
    decreases k,
{
    if k == 0 {
        0
    } else {
        (imm_val(code, start, (k - 1) as nat) * 256 + imm_byte(code, start + k - 1)) as nat
    }
}

/// Where the counter stands after a push at `pc` with `k` immediate bytes.
pub open spec fn pc_after_push(code: Seq<u8>, pc: nat, k: nat) -> nat {
    if pc + 1 + k <= code.len() {
        pc + 1 + k
    } else {
        code.len()
    }
}

/// The interpreter: the final stack and success flag of a run that starts
/// at `pc` with stack `s`. Halting and running off the end both succeed;
/// only a stack underflow reports failure.
pub open spec fn run_from(code: Seq<u8>, pc: nat, s: Seq<Word>) -> (Seq<Word>, bool)
    decreases code.len() - pc,
{
    if pc >= code.len() {
        (s, true)
    } else {
        let op = code[pc as int];
        if op == 0x00 {
            (s, true)
        } else if is_push_op(op) {
            let k = (op - 0x5f) as nat;
            run_from(code, pc_after_push(code, pc, k), seq![word_of(imm_val(code, pc + 1 as int, k))] + s)
        } else {
            match step_stack(op, s) {
                Option::None => (s, false),
                Option::Some(s2) => run_from(code, pc + 1, s2),
            }
        }
    }
}

/// The meaning of a whole execution: run from the start on an empty stack.
pub open spec fn run_code(code: Seq<u8>) -> (Seq<Word>, bool) {
    run_from(code, 0, Seq::empty())
}

fn op_is_binary(op: u8) -> (r: bool)
    ensures
        r == is_binary_op(op),
{
    op == 0x01 || op == 0x02 || op == 0x03 || op == 0x04 || op == 0x05 || op == 0x06 || op
        == 0x07 || op == 0x0a || op == 0x0b || op == 0x10 || op == 0x11 || op == 0x12 || op
        == 0x13 || op == 0x14 || op == 0x16 || op == 0x17 || op == 0x18 || op == 0x1b || op
        == 0x1c || op == 0x1d
}

fn op_is_unary(op: u8) -> (r: bool)
    ensures
        r == is_unary_op(op),
{
    op == 0x15 || op == 0x19
}

fn op_is_ternary(op: u8) -> (r: bool)
    ensures
        r == is_ternary_op(op),
{
    op == 0x08 || op == 0x09
}

/// Route a two-operand opcode to its semantics; `a` was on top.
fn exec_binary(op: u8, a: &Word, b: &Word) -> (r: Word)
    requires
        is_binary_op(op),
    ensures
        r == binary_semantics(op, *a, *b),
{
    if op == 0x01 {
        add_words(a, b)
    } else if op == 0x02 {
        mul_words(a, b)
    } else if op == 0x03 {
        sub_words(a, b)
    } else if op == 0x04 {
        div_words(a, b)
    } else if op == 0x05 {
        sdiv_words(a, b)
    } else if op == 0x06 {
        mod_words(a, b)
    } else if op == 0x07 {
        smod_words(a, b)
    } else if op == 0x0a {
        exp_words(a, b)
    } else if op == 0x0b {
        signextend_words(a, b)
    } else if op == 0x10 {
        lt_words(a, b)
    } else if op == 0x11 {
        gt_words(a, b)
    } else if op == 0x12 {
        slt_words(a, b)
    } else if op == 0x13 {
        sgt_words(a, b)
    } else if op == 0x14 {
        eq_words(a, b)
    } else if op == 0x16 {
        and_words(a, b)
    } else if op == 0x17 {
        or_words(a, b)
    } else if op == 0x18 {
        xor_words(a, b)
    } else if op == 0x1b {
        shl_words(a, b)
    } else if op == 0x1c {
        shr_words(a, b)
    } else {
        sar_words(a, b)
    }
}

fn exec_unary(op: u8, a: &Word) -> (r: Word)
    requires
        is_unary_op(op),
    ensures
        r == unary_semantics(op, *a),
{
    if op == 0x15 {
        iszero_words(a)
    } else {
        not_words(a)
    }
}

fn exec_ternary(op: u8, a: &Word, b: &Word, n: &Word) -> (r: Word)
    requires
        is_ternary_op(op),
    ensures
        r == ternary_semantics(op, *a, *b, *n),
{
    if op == 0x08 {
        addmod_words(a, b, n)
    } else {
        mulmod_words(a, b, n)
    }
}

/// Decode the immediate operand of a push instruction: the `k` bytes at
/// `pc`, big endian, reading zero past the end of the code.
fn read_push_immediate(code: &[u8], pc: usize, k: usize) -> (r: Word)
    requires
        pc <= code@.len(),
        k <= 32,
    ensures
        r == word_of(imm_val(code@, pc as int, k as nat)),
{
    let mut value = word_zero();
    let mut j: usize = 0;
    proof {
        lemma2_to64();
    }
    while j < k
        invariant
            j <= k <= 32,
            pc <= code@.len(),
            value.as_nat() == imm_val(code@, pc as int, j as nat),
            value.as_nat() < pow2((8 * j) as nat),
        decreases k - j,
    {
        let b: u64 = if j < code.len() - pc {
            code[pc + j] as u64
        } else {
            0
        };
        proof {
            assert(b == imm_byte(code@, pc + j as int));
        }
        let shifted = u_shl(&value, 8);
        let ghost old_val = value.as_nat();
        proof {
            lemma2_to64();
            lemma_pow2_adds((8 * j) as nat, 8);
            lemma_pow2_words();
            if 8 * j + 8 < 256 {
                lemma_pow2_strictly_increases((8 * j + 8) as nat, 256);
            }
            assert(old_val * pow2(8) < pow2((8 * j + 8) as nat)) by (nonlinear_arith)
                requires
                    old_val < pow2((8 * j) as nat),
                    pow2(8) > 0,
                    pow2((8 * j) as nat) * pow2(8) == pow2((8 * j + 8) as nat),
            ;
            lemma_small_mod((old_val * pow2(8)) as nat, p256());
        }
        let bw = word_from_u64(b);
        value = u_add(&shifted, &bw);
        proof {
            lemma_small_mod((old_val * 256 + b) as nat, p256());
            assert(value.as_nat() == imm_val(code@, pc as int, (j + 1) as nat));
        }
        j = j + 1;
    }
    proof {
        lemma_word_of_as_nat(value);
    }
    value
}

/// Execute the bytecode and return the final stack, top first, and the
/// success flag: exactly the outcome the interpreter `run_from` describes.
pub fn evm(code: &[u8]) -> (res: EvmResult)
    ensures
        res.stack@ == run_code(code@).0,
        res.success == run_code(code@).1,
{
    let ghost target = run_code(code@);
    let mut stack: Vec<Word> = Vec::new();
    let mut pc: usize = 0;
    let mut stop_flag = false;
    let mut fault = false;
    let _gas = Gas { current: 100000000 };
    while pc < code.len() && !stop_flag && !fault
        invariant
            pc <= code@.len(),
            !stop_flag && !fault ==> run_from(code@, pc as nat, stack@) == target,
            stop_flag ==> target == (stack@, true),
            fault ==> target == (stack@, false),
        decreases code@.len() - pc,
    {
        let ghost s0 = stack@;
        let ghost pc0 = pc as nat;
        let opcode = code[pc];
        pc = pc + 1;
        if opcode == 0x00 {
            stop_flag = true;
        } else if 0x5f <= opcode && opcode <= 0x7f {
            let k = (opcode - 0x5f) as usize;
            let value = read_push_immediate(code, pc, k);
            stack.insert(0, value);
            proof {
                assert(stack@ =~= seq![value] + s0);
            }
            if k <= code.len() - pc {
                pc = pc + k;
            } else {
                pc = code.len();
            }
            proof {
                assert(pc as nat == pc_after_push(code@, pc0, k as nat));
            }
        } else if op_is_binary(opcode) {
            if stack.len() < 2 {
                fault = true;
            } else {
                let a = stack.remove(0);
                let b = stack.remove(0);
                let r = exec_binary(opcode, &a, &b);
                stack.insert(0, r);
                proof {
                    assert(stack@ =~= seq![binary_semantics(opcode, s0[0], s0[1])] + s0.skip(2));
                }
            }
        } else if op_is_unary(opcode) {
            if stack.len() < 1 {
                fault = true;
            } else {
                let a = stack.remove(0);
                let r = exec_unary(opcode, &a);
                stack.insert(0, r);
                proof {
                    assert(stack@ =~= seq![unary_semantics(opcode, s0[0])] + s0.skip(1));
                }
            }
        } else if op_is_ternary(opcode) {
            if stack.len() < 3 {
                fault = true;
            } else {
                let a = stack.remove(0);
                let b = stack.remove(0);
                let n = stack.remove(0);
                let r = exec_ternary(opcode, &a, &b, &n);
                stack.insert(0, r);
                proof {
                    assert(stack@ =~= seq![ternary_semantics(opcode, s0[0], s0[1], s0[2])]
                        + s0.skip(3));
                }
            }
        } else if opcode == 0x50 {
            if stack.len() < 1 {
                fault = true;
            } else {
                stack.remove(0);
                proof {
                    assert(stack@ =~= s0.skip(1));
                }
            }
        } else {
            // outside the instruction set: a no-op by the documented policy
        }
    }
    EvmResult { stack, success: !fault }
}

} // verus!

