//! What forward width inference promises: the width it infers for a result
//! bounds every value the operation can give on operands of their inferred widths.

use crate::evm::{
    abs, evm_binary, evm_ternary, evm_unary, from_signed, lemma_bitops_bound, lemma_two_pow_8, lemma_two_pow_adds, lemma_two_pow_mono,
    lemma_two_pow_pos, lemma_word_modulus_facts, to_signed,
};
use crate::inference_model::{constraint_of, forward_binary, forward_expression, InferenceState};
use crate::ir::{width_bits, width_for_bits, width_max, BinaryOperation, BitWidth, Expression, Type, UnaryOperation, Value};
use crate::uint::{nat_and, nat_bits, nat_pow, two_pow, word_modulus, Uint};
use vstd::arithmetic::div_mod::{
    lemma_div_is_ordered_by_denominator, lemma_div_pos_is_pos, lemma_mod_bound, lemma_mod_decreases,
    lemma_multiply_divide_lt, lemma_small_mod,
};
use vstd::prelude::*;

verus! {

/// `2^bits(w)`: one past the largest value of width `w`.
pub open spec fn width_limit(w: BitWidth) -> nat {
    two_pow(width_bits(w))
}

proof fn lemma_width_limit(w: BitWidth)
    ensures
        0 < width_limit(w) <= word_modulus(),
{
    lemma_two_pow_pos(width_bits(w));
    lemma_two_pow_mono(width_bits(w), 256);
}

proof fn lemma_width_limit_mono(a: BitWidth, b: BitWidth)
    requires
        width_bits(a) <= width_bits(b),
    ensures
        width_limit(a) <= width_limit(b),
{
    lemma_two_pow_mono(width_bits(a), width_bits(b));
}

proof fn lemma_width_for_bits(n: nat)
    requires
        n <= 256,
    ensures
        width_bits(width_for_bits(n)) >= n,
{
}

proof fn lemma_and_below(a: nat, b: nat)
    ensures
        nat_and(a, b) <= a,
        nat_and(a, b) <= b,
    decreases a,
{
    if a != 0 && b != 0 {
        lemma_and_below(a / 2, b / 2);
        let x = a % 2;
        let y = b % 2;
        assert(x * y <= x && x * y <= y) by (nonlinear_arith)
            requires
                x <= 1,
                y <= 1,
        ;
    }
}

proof fn lemma_from_signed_below(x: int)
    ensures
        from_signed(x) < word_modulus(),
        0 <= x < word_modulus() ==> from_signed(x) == x,
{
    lemma_word_modulus_facts();
    lemma_mod_bound(x, word_modulus() as int);
    if 0 <= x < word_modulus() {
        lemma_small_mod(x as nat, word_modulus());
    }
}

proof fn lemma_small_is_positive(a: nat, w: BitWidth)
    requires
        a < width_limit(w),
        width_bits(w) < 256,
    ensures
        to_signed(a) == a as int,
        a < word_modulus() / 2,
{
    lemma_word_modulus_facts();
    lemma_two_pow_mono(width_bits(w), 255);
}

/// Forward inference never underestimates a result: when each operand fits in
/// the minimum width inferred for it (and a known shift amount is what the
/// state records), the EVM result of the operation fits in the width inferred
/// for the result. A quotient or remainder, for one, fits in the dividend's width.
pub proof fn law_forward_binary_width_is_sound(
    s: InferenceState,
    op: BinaryOperation,
    l: u32,
    r: u32,
    a: nat,
    b: nat,
)
    requires
        a < width_limit(constraint_of(s, l).min_width),
        b < width_limit(constraint_of(s, r).min_width),
        s.known_constants.contains_key(l) ==> a == s.known_constants[l],
    ensures
        evm_binary(op, a, b) < width_limit(forward_binary(s, op, l, r).1),
{
    let lw = constraint_of(s, l).min_width;
    let rw = constraint_of(s, r).min_width;
    let wide = width_max(lw, rw);
    let m = word_modulus();
    let res = evm_binary(op, a, b);
    let w = forward_binary(s, op, l, r).1;
    lemma_width_limit(lw);
    lemma_width_limit(rw);
    lemma_width_limit(w);
    lemma_word_modulus_facts();
    lemma_width_limit_mono(lw, wide);
    lemma_width_limit_mono(rw, wide);
    lemma_two_pow_8();
    match op {
        BinaryOperation::Add => {
            lemma_mod_bound((a + b) as int, m as int);
            if width_bits(wide) < 256 {
                lemma_mod_decreases((a + b) as nat, m);
                lemma_two_pow_adds(width_bits(wide), 1);
                assert(width_bits(w) >= width_bits(wide) + 1);
                lemma_two_pow_mono(width_bits(wide) + 1, width_bits(w));
            } else {
                assert(w == BitWidth::I256);
            }
        },
        BinaryOperation::Sub => {
            assert(w == BitWidth::I256);
        },
        BinaryOperation::Mul => {
            lemma_mod_bound((a * b) as int, m as int);
            let x = width_limit(wide);
            if width_bits(wide) <= 128 {
                lemma_mod_decreases((a * b) as nat, m);
                assert(a * b <= x * x) by (nonlinear_arith)
                    requires
                        a < x,
                        b < x,
                ;
                if a > 0 && b > 0 {
                    assert(a * b < x * x) by (nonlinear_arith)
                        requires
                            a < x,
                            b < x,
                            0 < a,
                            0 < b,
                    ;
                } else {
                    assert(a * b == 0) by (nonlinear_arith)
                        requires
                            a == 0 || b == 0,
                    ;
                    lemma_two_pow_pos(width_bits(w));
                }
                lemma_two_pow_adds(width_bits(wide), width_bits(wide));
                assert(width_bits(w) >= 2 * width_bits(wide));
                lemma_two_pow_mono(width_bits(wide) + width_bits(wide), width_bits(w));
            } else {
                assert(w == BitWidth::I256);
            }
        },
        BinaryOperation::Div => {
            if b != 0 {
                assert(a / b <= a) by {
                    lemma_div_is_ordered_by_denominator(a as int, 1, b as int);
                }
            }
        },
        BinaryOperation::Mod => {
            if b != 0 {
                lemma_mod_decreases(a, b);
            }
        },
        BinaryOperation::SMod => {
            if b != 0 {
                if width_bits(lw) < 256 {
                    lemma_small_is_positive(a, lw);
                    let d = abs(to_signed(b));
                    assert(d > 0);
                    lemma_mod_decreases(a, d);
                } else {
                    let d = abs(to_signed(b));
                    assert(d > 0);
                    assert(d <= m);
                    lemma_mod_bound(abs(to_signed(a)) as int, d as int);
                    if to_signed(a) < 0 {
                        lemma_from_signed_below(-((abs(to_signed(a)) % d) as int));
                    }
                }
            }
        },
        BinaryOperation::SDiv => {
            if b != 0 {
                let q = abs(to_signed(a)) / abs(to_signed(b));
                if width_bits(wide) < 256 {
                    lemma_width_limit_mono(lw, wide);
                    lemma_small_is_positive(a, wide);
                    lemma_small_is_positive(b, wide);
                    assert(q <= a) by {
                        lemma_div_is_ordered_by_denominator(a as int, 1, b as int);
                    }
                    lemma_from_signed_below(q as int);
                } else {
                    lemma_from_signed_below(q as int);
                    lemma_from_signed_below(-q);
                }
            }
        },
        BinaryOperation::Exp => {
            lemma_mod_bound(nat_pow(a, b) as int, m as int);
        },
        BinaryOperation::And => {
            lemma_and_below(a, b);
        },
        BinaryOperation::Or | BinaryOperation::Xor => {
            lemma_bitops_bound(a, b, width_bits(wide));
        },
        BinaryOperation::Shl => {
            if a < 256 {
                lemma_mod_bound((b * two_pow(a)) as int, m as int);
            }
        },
        BinaryOperation::Shr => {
            if a < 256 {
                lemma_two_pow_pos(a);
                assert(b / two_pow(a) <= b) by {
                    lemma_div_is_ordered_by_denominator(b as int, 1, two_pow(a) as int);
                }
                if s.known_constants.contains_key(l) {
                    let k = s.known_constants[l];
                    assert(k == a);
                    lemma_two_pow_adds(a, (256 - a) as nat);
                    assert(b < two_pow(a) * two_pow((256 - a) as nat));
                    lemma_multiply_divide_lt(b as int, two_pow(a) as int, two_pow((256 - a) as nat) as int);
                    lemma_width_for_bits((256 - a) as nat);
                    lemma_two_pow_mono((256 - a) as nat, width_bits(w));
                }
            } else {
                lemma_two_pow_pos(width_bits(w));
            }
        },
        BinaryOperation::Sar => {
            lemma_two_pow_pos(a);
            if width_bits(rw) < 256 {
                lemma_small_is_positive(b, rw);
                let q = (b as int) / (two_pow(a) as int);
                assert(0 <= q <= b) by {
                    lemma_div_pos_is_pos(b as int, two_pow(a) as int);
                    lemma_div_is_ordered_by_denominator(b as int, 1, two_pow(a) as int);
                }
                lemma_from_signed_below(q);
            } else {
                lemma_from_signed_below(to_signed(b) / (two_pow(a) as int));
            }
        },
        BinaryOperation::Lt | BinaryOperation::Gt | BinaryOperation::Eq | BinaryOperation::Slt
        | BinaryOperation::Sgt => {
            assert(width_limit(BitWidth::I1) == 2);
        },
        BinaryOperation::Byte => {
            assert(width_limit(BitWidth::I8) == 256);
        },
        BinaryOperation::SignExtend => {
            if a < 31 {
                let k = (8 * a + 8) as nat;
                lemma_two_pow_pos(k);
                lemma_two_pow_mono(k, 256);
                lemma_mod_bound(b as int, two_pow(k) as int);
            }
        },
        BinaryOperation::AddMod | BinaryOperation::MulMod => {},
    }
}

proof fn lemma_nat_bits_bound(n: nat)
    ensures
        n < two_pow(nat_bits(n)),
    decreases n,
{
    if n > 0 {
        lemma_nat_bits_bound(n / 2);
    }
}

proof fn lemma_nat_bits_at_most(n: nat, k: nat)
    requires
        n < two_pow(k),
    ensures
        nat_bits(n) <= k,
    decreases n,
{
    if n > 0 {
        assert(k > 0) by {
            if k == 0 {
                assert(two_pow(0) == 1);
            }
        }
        assert(two_pow(k) == 2 * two_pow((k - 1) as nat));
        lemma_nat_bits_at_most(n / 2, (k - 1) as nat);
    }
}

/// A literal word fits in the width inferred for it.
pub proof fn law_forward_literal_width_is_sound(s: InferenceState, value: Uint, value_type: Type)
    requires
        value@ < word_modulus(),
    ensures
        value@ < width_limit(forward_expression(s, Expression::Literal { value, value_type }).1),
{
    lemma_nat_bits_bound(value@);
    lemma_nat_bits_at_most(value@, 256);
    let w = forward_expression(s, Expression::Literal { value, value_type }).1;
    assert(w == width_for_bits(nat_bits(value@)));
    lemma_width_for_bits(nat_bits(value@));
    lemma_two_pow_mono(nat_bits(value@), width_bits(w));
}

/// The result of a unary operation on a word fits in the width inferred for it.
pub proof fn law_forward_unary_width_is_sound(s: InferenceState, operation: UnaryOperation, operand: Value, a: nat)
    requires
        a < word_modulus(),
    ensures
        evm_unary(operation, a) < width_limit(forward_expression(s, Expression::Unary { operation, operand }).1),
{
    lemma_word_modulus_facts();
    lemma_two_pow_8();
    let w = forward_expression(s, Expression::Unary { operation, operand }).1;
    lemma_width_limit(w);
    lemma_nat_bits_at_most(a, 256);
    if operation == UnaryOperation::IsZero {
        assert(width_limit(BitWidth::I1) == 2);
    } else {
        assert(w == BitWidth::I256);
        assert(width_limit(w) == word_modulus());
    }
}

/// The result of `addmod` or `mulmod` with a word modulus fits in the width inferred for it.
pub proof fn law_forward_ternary_width_is_sound(s: InferenceState, e: Expression, a: nat, b: nat, n: nat)
    requires
        e is Ternary,
        n < word_modulus(),
    ensures
        evm_ternary(e->Ternary_operation, a, b, n) < width_limit(forward_expression(s, e).1),
{
    lemma_word_modulus_facts();
    if n > 0 {
        lemma_mod_bound((a + b) as int, n as int);
        lemma_mod_bound((a * b) as int, n as int);
    }
    assert(forward_expression(s, e).1 == BitWidth::I256);
}

} // verus!
