use stackvm::evm;
use stackvm::word::Word;

fn w(x: u64) -> Word {
    Word { l0: x, l1: 0, l2: 0, l3: 0 }
}

fn all_ones() -> Word {
    Word { l0: u64::MAX, l1: u64::MAX, l2: u64::MAX, l3: u64::MAX }
}

/// The two's-complement word for a small negative value -x.
fn neg(x: u64) -> Word {
    assert!(x > 0);
    Word { l0: 0u64.wrapping_sub(x), l1: u64::MAX, l2: u64::MAX, l3: u64::MAX }
}

/// PUSH32 of 32 copies of one byte.
fn push32_repeat(code: &mut Vec<u8>, byte: u8) {
    code.push(0x7f);
    for _ in 0..32 {
        code.push(byte);
    }
}

/// PUSH32 of an explicit 32-byte big-endian image.
fn push32_bytes(code: &mut Vec<u8>, bytes: [u8; 32]) {
    code.push(0x7f);
    code.extend_from_slice(&bytes);
}

#[test]
fn empty_code_succeeds_with_empty_stack() {
    let r = evm(&[]);
    assert!(r.success);
    assert!(r.stack.is_empty());
}

#[test]
fn push2_assembles_big_endian() {
    // PUSH2 0x01 0x02 leaves 0x0102 on top
    let r = evm(&[0x61, 0x01, 0x02]);
    assert!(r.success);
    assert_eq!(r.stack, vec![w(0x0102)]);
}

#[test]
fn push0_pushes_zero() {
    let r = evm(&[0x5f]);
    assert!(r.success);
    assert_eq!(r.stack, vec![w(0)]);
}

#[test]
fn push_truncated_by_end_of_code_is_zero_extended() {
    // PUSH2 with a single remaining byte: the missing low byte reads as zero
    let r = evm(&[0x61, 0x01]);
    assert!(r.success);
    assert_eq!(r.stack, vec![w(0x0100)]);
}

#[test]
fn pop_removes_top() {
    let r = evm(&[0x60, 0x01, 0x60, 0x02, 0x50]);
    assert!(r.success);
    assert_eq!(r.stack, vec![w(1)]);
}

#[test]
fn add_wraps_modulo_2_256() {
    // all-ones plus 1 wraps to zero
    let mut code = vec![0x60, 0x01];
    push32_repeat(&mut code, 0xff);
    code.push(0x01);
    let r = evm(&code);
    assert!(r.success);
    assert_eq!(r.stack, vec![w(0)]);
}

#[test]
fn add_then_sub_restores_value() {
    // stack [5, 3, 3]: ADD folds 5+3=8, SUB computes 8-3=5 again
    let r = evm(&[0x60, 0x03, 0x60, 0x03, 0x60, 0x05, 0x01, 0x03]);
    assert!(r.success);
    assert_eq!(r.stack, vec![w(5)]);
}

#[test]
fn add_then_sub_restores_value_across_wraparound() {
    // A = all-ones, B = 2: (A + B) mod 2^256 = 1, then 1 - 2 wraps back to A
    let mut code = vec![0x60, 0x02, 0x60, 0x02];
    push32_repeat(&mut code, 0xff);
    code.push(0x01);
    code.push(0x03);
    let r = evm(&code);
    assert!(r.success);
    assert_eq!(r.stack, vec![all_ones()]);
}

#[test]
fn mul_wraps() {
    // (2^255) * 2 wraps to 0
    let mut min_bytes = [0u8; 32];
    min_bytes[0] = 0x80;
    let mut code = vec![0x60, 0x02];
    push32_bytes(&mut code, min_bytes);
    code.push(0x02);
    let r = evm(&code);
    assert!(r.success);
    assert_eq!(r.stack, vec![w(0)]);
}

#[test]
fn sub_underflow_is_twos_complement() {
    // 3 - 5 leaves the representation of -2
    let r = evm(&[0x60, 0x05, 0x60, 0x03, 0x03]);
    assert!(r.success);
    assert_eq!(r.stack, vec![neg(2)]);
}

#[test]
fn div_by_zero_yields_zero() {
    let r = evm(&[0x60, 0x00, 0x60, 0x00, 0x04]);
    assert!(r.success);
    assert_eq!(r.stack, vec![w(0)]);
}

#[test]
fn div_mod_sdiv_smod_by_zero_yield_zero_for_nonzero_dividends() {
    for op in [0x04u8, 0x06, 0x05, 0x07] {
        let mut code = vec![0x60, 0x00];
        push32_repeat(&mut code, 0xff);
        code.push(op);
        let r = evm(&code);
        assert!(r.success, "op {op:#x}");
        assert_eq!(r.stack, vec![w(0)], "op {op:#x}");
    }
}

#[test]
fn div_and_mod_compute_quotient_and_remainder() {
    // 17 / 5 = 3, 17 % 5 = 2
    let r = evm(&[0x60, 0x05, 0x60, 0x11, 0x04]);
    assert_eq!(r.stack, vec![w(3)]);
    let r = evm(&[0x60, 0x05, 0x60, 0x11, 0x06]);
    assert_eq!(r.stack, vec![w(2)]);
}

#[test]
fn sdiv_negative_by_negative() {
    // (-2) / (-1) = 2
    let mut code = Vec::new();
    push32_repeat(&mut code, 0xff);
    push32_bytes(&mut code, {
        let mut b = [0xffu8; 32];
        b[31] = 0xfe;
        b
    });
    code.push(0x05);
    let r = evm(&code);
    assert!(r.success);
    assert_eq!(r.stack, vec![w(2)]);
}

#[test]
fn sdiv_mixed_signs_is_negative() {
    // (-6) / 3 = -2
    let mut code = vec![0x60, 0x03];
    push32_bytes(&mut code, {
        let mut b = [0xffu8; 32];
        b[31] = 0xfa;
        b
    });
    code.push(0x05);
    let r = evm(&code);
    assert_eq!(r.stack, vec![neg(2)]);
}

#[test]
fn sdiv_minimum_by_minus_one_wraps_to_itself() {
    let mut min_bytes = [0u8; 32];
    min_bytes[0] = 0x80;
    let mut code = Vec::new();
    push32_repeat(&mut code, 0xff);
    push32_bytes(&mut code, min_bytes);
    code.push(0x05);
    let r = evm(&code);
    assert!(r.success);
    assert_eq!(r.stack, vec![Word { l0: 0, l1: 0, l2: 0, l3: 0x8000000000000000 }]);
}

#[test]
fn smod_carries_dividend_sign() {
    // (-5) mod 3 = -2
    let mut code = vec![0x60, 0x03];
    push32_bytes(&mut code, {
        let mut b = [0xffu8; 32];
        b[31] = 0xfb;
        b
    });
    code.push(0x07);
    let r = evm(&code);
    assert_eq!(r.stack, vec![neg(2)]);
    // 5 mod -3 = 2
    let mut code = Vec::new();
    push32_bytes(&mut code, {
        let mut b = [0xffu8; 32];
        b[31] = 0xfd;
        b
    });
    code.extend_from_slice(&[0x60, 0x05, 0x07]);
    let r = evm(&code);
    assert_eq!(r.stack, vec![w(2)]);
}

#[test]
fn addmod_uses_wide_intermediate() {
    // (all-ones + all-ones) mod 10: all-ones is 5 mod 10, so the sum is 0
    let mut code = vec![0x60, 0x0a];
    push32_repeat(&mut code, 0xff);
    push32_repeat(&mut code, 0xff);
    code.push(0x08);
    let r = evm(&code);
    assert!(r.success);
    assert_eq!(r.stack, vec![w(0)]);
}

#[test]
fn addmod_by_zero_yields_zero() {
    let r = evm(&[0x60, 0x00, 0x60, 0x02, 0x60, 0x03, 0x08]);
    assert_eq!(r.stack, vec![w(0)]);
}

#[test]
fn addmod_small_values() {
    // (3 + 4) mod 5 = 2
    let r = evm(&[0x60, 0x05, 0x60, 0x04, 0x60, 0x03, 0x08]);
    assert_eq!(r.stack, vec![w(2)]);
}

#[test]
fn mulmod_uses_wide_intermediate() {
    // all-ones is 3 mod 12, so (all-ones * all-ones) mod 12 = 9, which a
    // 256-bit truncated product would not give
    let mut code = vec![0x60, 0x0c];
    push32_repeat(&mut code, 0xff);
    push32_repeat(&mut code, 0xff);
    code.push(0x09);
    let r = evm(&code);
    assert!(r.success);
    assert_eq!(r.stack, vec![w(9)]);
}

#[test]
fn mulmod_by_zero_yields_zero() {
    let r = evm(&[0x60, 0x00, 0x60, 0x02, 0x60, 0x03, 0x09]);
    assert_eq!(r.stack, vec![w(0)]);
}

#[test]
fn exp_computes_power() {
    // 3^2 = 9: exponent pushed first, base on top
    let r = evm(&[0x60, 0x02, 0x60, 0x03, 0x0a]);
    assert!(r.success);
    assert_eq!(r.stack, vec![w(9)]);
}

#[test]
fn exp_wraps() {
    // 2^256 mod 2^256 = 0
    let r = evm(&[0x61, 0x01, 0x00, 0x60, 0x02, 0x0a]);
    assert_eq!(r.stack, vec![w(0)]);
}

#[test]
fn signextend_extends_negative_byte() {
    // byte 0 of 0xff has its sign bit set: the value becomes -1
    let r = evm(&[0x60, 0xff, 0x60, 0x00, 0x0b]);
    assert!(r.success);
    assert_eq!(r.stack, vec![all_ones()]);
}

#[test]
fn signextend_leaves_positive_byte() {
    let r = evm(&[0x60, 0x7f, 0x60, 0x00, 0x0b]);
    assert_eq!(r.stack, vec![w(0x7f)]);
}

#[test]
fn signextend_position_past_31_is_identity() {
    let r = evm(&[0x60, 0xff, 0x60, 0x20, 0x0b]);
    assert_eq!(r.stack, vec![w(0xff)]);
}

#[test]
fn signextend_is_idempotent_on_example() {
    let once = evm(&[0x60, 0xff, 0x60, 0x00, 0x0b]);
    let twice = evm(&[0x60, 0xff, 0x60, 0x00, 0x0b, 0x60, 0x00, 0x0b]);
    assert_eq!(once.stack, twice.stack);
}

#[test]
fn comparisons_produce_zero_or_one() {
    // 1 < 2
    let r = evm(&[0x60, 0x02, 0x60, 0x01, 0x10]);
    assert_eq!(r.stack, vec![w(1)]);
    // 2 < 1 is false
    let r = evm(&[0x60, 0x01, 0x60, 0x02, 0x10]);
    assert_eq!(r.stack, vec![w(0)]);
    // 2 > 1
    let r = evm(&[0x60, 0x01, 0x60, 0x02, 0x11]);
    assert_eq!(r.stack, vec![w(1)]);
    // 3 == 3
    let r = evm(&[0x60, 0x03, 0x60, 0x03, 0x14]);
    assert_eq!(r.stack, vec![w(1)]);
    // 3 == 4 is false
    let r = evm(&[0x60, 0x04, 0x60, 0x03, 0x14]);
    assert_eq!(r.stack, vec![w(0)]);
}

#[test]
fn signed_comparisons_respect_sign() {
    // -1 < 0 signed, though its unsigned value is the maximum
    let mut code = vec![0x60, 0x00];
    push32_repeat(&mut code, 0xff);
    code.push(0x12);
    let r = evm(&code);
    assert_eq!(r.stack, vec![w(1)]);
    // unsigned comparison disagrees: max > 0
    let mut code = vec![0x60, 0x00];
    push32_repeat(&mut code, 0xff);
    code.push(0x10);
    let r = evm(&code);
    assert_eq!(r.stack, vec![w(0)]);
    // 0 > -1 signed
    let mut code = Vec::new();
    push32_repeat(&mut code, 0xff);
    code.extend_from_slice(&[0x60, 0x00, 0x13]);
    let r = evm(&code);
    assert_eq!(r.stack, vec![w(1)]);
    // -3 < -2 signed
    let mut code = Vec::new();
    push32_bytes(&mut code, {
        let mut b = [0xffu8; 32];
        b[31] = 0xfe;
        b
    });
    push32_bytes(&mut code, {
        let mut b = [0xffu8; 32];
        b[31] = 0xfd;
        b
    });
    code.push(0x12);
    let r = evm(&code);
    assert_eq!(r.stack, vec![w(1)]);
}

#[test]
fn iszero_tests_zero() {
    let r = evm(&[0x60, 0x00, 0x15]);
    assert_eq!(r.stack, vec![w(1)]);
    let r = evm(&[0x60, 0x07, 0x15]);
    assert_eq!(r.stack, vec![w(0)]);
}

#[test]
fn bitwise_operations() {
    // 0b1100 & 0b1010 = 0b1000
    let r = evm(&[0x60, 0x0c, 0x60, 0x0a, 0x16]);
    assert_eq!(r.stack, vec![w(0x08)]);
    // 0b1100 | 0b1010 = 0b1110
    let r = evm(&[0x60, 0x0c, 0x60, 0x0a, 0x17]);
    assert_eq!(r.stack, vec![w(0x0e)]);
    // 0b1100 ^ 0b1010 = 0b0110
    let r = evm(&[0x60, 0x0c, 0x60, 0x0a, 0x18]);
    assert_eq!(r.stack, vec![w(0x06)]);
    // !0 = all ones
    let r = evm(&[0x60, 0x00, 0x19]);
    assert_eq!(r.stack, vec![all_ones()]);
}

#[test]
fn shl_multiplies_by_powers_of_two() {
    // 1 << 4 = 16
    let r = evm(&[0x60, 0x01, 0x60, 0x04, 0x1b]);
    assert_eq!(r.stack, vec![w(16)]);
    // 1 << 255 sets only the sign bit
    let r = evm(&[0x60, 0x01, 0x60, 0xff, 0x1b]);
    assert_eq!(r.stack, vec![Word { l0: 0, l1: 0, l2: 0, l3: 0x8000000000000000 }]);
    // any shift past 255 clears the word
    let r = evm(&[0x60, 0x01, 0x61, 0x01, 0x00, 0x1b]);
    assert_eq!(r.stack, vec![w(0)]);
}

#[test]
fn shr_divides_by_powers_of_two() {
    // 0x40 >> 3 = 8
    let r = evm(&[0x60, 0x40, 0x60, 0x03, 0x1c]);
    assert_eq!(r.stack, vec![w(8)]);
    // shift past 255 clears the word
    let mut code = Vec::new();
    push32_repeat(&mut code, 0xff);
    code.extend_from_slice(&[0x61, 0x01, 0x00, 0x1c]);
    let r = evm(&code);
    assert_eq!(r.stack, vec![w(0)]);
}

#[test]
fn sar_of_minus_one_stays_minus_one() {
    let mut code = Vec::new();
    push32_repeat(&mut code, 0xff);
    code.extend_from_slice(&[0x60, 0x01, 0x1d]);
    let r = evm(&code);
    assert!(r.success);
    assert_eq!(r.stack, vec![all_ones()]);
}

#[test]
fn sar_agrees_with_shr_on_nonnegative_values() {
    let r_sar = evm(&[0x60, 0x40, 0x60, 0x03, 0x1d]);
    let r_shr = evm(&[0x60, 0x40, 0x60, 0x03, 0x1c]);
    assert_eq!(r_sar.stack, r_shr.stack);
    assert_eq!(r_sar.stack, vec![w(8)]);
}

#[test]
fn sar_fills_with_sign_bit() {
    // -8 >> 2 arithmetically is -2
    let mut code = Vec::new();
    push32_bytes(&mut code, {
        let mut b = [0xffu8; 32];
        b[31] = 0xf8;
        b
    });
    code.extend_from_slice(&[0x60, 0x02, 0x1d]);
    let r = evm(&code);
    assert_eq!(r.stack, vec![neg(2)]);
}

#[test]
fn sar_shift_past_255_saturates() {
    // negative value: all ones
    let mut code = Vec::new();
    push32_repeat(&mut code, 0xff);
    code.extend_from_slice(&[0x61, 0x01, 0x00, 0x1d]);
    let r = evm(&code);
    assert_eq!(r.stack, vec![all_ones()]);
    // non-negative value: zero
    let r = evm(&[0x60, 0x40, 0x61, 0x01, 0x00, 0x1d]);
    assert_eq!(r.stack, vec![w(0)]);
}

#[test]
fn stop_halts_without_reading_further_bytes() {
    // two pushes, STOP, then a byte that would otherwise push
    let r = evm(&[0x60, 0x01, 0x60, 0x02, 0x00, 0x60, 0x03]);
    assert!(r.success);
    assert_eq!(r.stack, vec![w(2), w(1)]);
}

#[test]
fn add_underflow_is_reported() {
    // ADD with a single element faults and reports failure
    let r = evm(&[0x60, 0x01, 0x01]);
    assert!(!r.success);
    assert_eq!(r.stack, vec![w(1)]);
}

#[test]
fn pop_underflow_is_reported() {
    let r = evm(&[0x50]);
    assert!(!r.success);
    assert!(r.stack.is_empty());
}

#[test]
fn mulmod_underflow_with_two_elements_is_reported() {
    let r = evm(&[0x60, 0x01, 0x60, 0x02, 0x09]);
    assert!(!r.success);
    assert_eq!(r.stack, vec![w(2), w(1)]);
}

#[test]
fn unknown_opcode_is_a_no_op() {
    // 0x30 is outside the supported set: it advances past itself only
    let r = evm(&[0x60, 0x05, 0x30, 0x60, 0x06]);
    assert!(r.success);
    assert_eq!(r.stack, vec![w(6), w(5)]);
}

#[test]
fn gas_counter_moves_by_the_given_amount() {
    let mut g = stackvm::Gas { current: 10 };
    g.decrement(&3);
    assert_eq!(g.current, 7);
    g.increment(&5);
    assert_eq!(g.current, 12);
}

#[test]
fn push32_fills_all_limbs_big_endian() {
    let mut bytes = [0u8; 32];
    for (i, b) in bytes.iter_mut().enumerate() {
        *b = i as u8;
    }
    let mut code = Vec::new();
    push32_bytes(&mut code, bytes);
    let r = evm(&code);
    assert!(r.success);
    let expect = Word {
        l0: u64::from_be_bytes([24, 25, 26, 27, 28, 29, 30, 31]),
        l1: u64::from_be_bytes([16, 17, 18, 19, 20, 21, 22, 23]),
        l2: u64::from_be_bytes([8, 9, 10, 11, 12, 13, 14, 15]),
        l3: u64::from_be_bytes([0, 1, 2, 3, 4, 5, 6, 7]),
    };
    assert_eq!(r.stack, vec![expect]);
}
