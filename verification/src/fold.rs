//! Constant folding of EVM operations on literal words.
//!
//! All arithmetic follows EVM semantics: unsigned 256-bit words, wrapping.

use crate::evm::{
    abs, bool_word, evm_binary, evm_sar, evm_sdiv, evm_signextend, evm_smod, evm_ternary,
    evm_unary, from_signed, is_two_operand, lemma_and_low_mask, lemma_bitops_commute,
    lemma_bitops_self, lemma_or_all_ones, lemma_or_high,
    lemma_or_ones_shifted, lemma_two_pow_8, lemma_two_pow_adds, lemma_two_pow_mono,
    lemma_two_pow_pos, lemma_two_pow_strict, lemma_word_modulus_facts, lemma_xor_all_ones,
    to_signed,
};
use crate::ir::{BinaryOperation, BitWidth, Expression, Type, UnaryOperation, Value};
use crate::uint::{
    bytes_be_value, nat_and, nat_bits, nat_or, nat_to_bytes_le, nat_xor, two_pow, uint_add, uint_and, uint_bits, uint_div,
    uint_eq, uint_from_u64, uint_is_zero, uint_lt, uint_modpow, uint_mul, uint_or, uint_rem,
    uint_from_bytes_be, uint_shl, uint_shr, uint_sub, uint_to_bytes_be, uint_to_u64, uint_xor,
    word_modulus, Uint,
};
use vstd::arithmetic::div_mod::{
    lemma_basic_div, lemma_fundamental_div_mod, lemma_fundamental_div_mod_converse,
    lemma_small_mod,
};
use vstd::prelude::*;

verus! {

/// 2^256 - 1, the largest word.
pub fn max_u256() -> (r: Uint)
    ensures
        r@ == word_modulus() - 1,
{
    let one = uint_from_u64(1);
    let m = uint_shl(&one, 256);
    proof {
        lemma_two_pow_pos(256);
    }
    uint_sub(&m, &one)
}

/// 2^256, the modulus of word arithmetic.
pub fn modulus_u256() -> (r: Uint)
    ensures
        r@ == word_modulus(),
{
    let one = uint_from_u64(1);
    uint_shl(&one, 256)
}

/// Whether a word is negative in two's complement.
fn is_negative(value: &Uint, modulus: &Uint) -> (r: bool)
    requires
        modulus@ == word_modulus(),
    ensures
        r == (value@ >= word_modulus() / 2),
{
    proof {
        lemma_two_pow_8();
    }
    let half = uint_shr(modulus, 1);
    !uint_lt(value, &half)
}

/// 1 for true, 0 for false.
fn bool_to_u256(b: bool) -> (r: Uint)
    ensures
        r@ == bool_word(b),
{
    if b {
        uint_from_u64(1)
    } else {
        uint_from_u64(0)
    }
}

proof fn lemma_neg_mod(q: nat)
    requires
        0 < q <= word_modulus(),
    ensures
        from_signed(-q) == word_modulus() - q,
{
    let m = word_modulus() as int;
    lemma_fundamental_div_mod_converse(-q, m, -1, m - q);
}

proof fn lemma_small_from_signed(q: nat)
    requires
        q < word_modulus(),
    ensures
        from_signed(q as int) == q,
{
    lemma_small_mod(q, word_modulus());
}

/// Signed division of two words.
fn fold_sdiv(a: &Uint, b: &Uint, modulus: &Uint) -> (r: Option<Uint>)
    requires
        a@ < word_modulus(),
        b@ < word_modulus(),
        b@ != 0,
        modulus@ == word_modulus(),
    ensures
        r matches Some(x) && x@ == evm_sdiv(a@, b@),
{
    proof {
        lemma_word_modulus_facts();
    }
    let a_neg = is_negative(a, modulus);
    let b_neg = is_negative(b, modulus);
    let abs_a = if a_neg { uint_sub(modulus, a) } else { a.clone() };
    let abs_b = if b_neg { uint_sub(modulus, b) } else { b.clone() };
    assert(abs_a@ == abs(to_signed(a@)) && abs_b@ == abs(to_signed(b@)));
    if uint_is_zero(&abs_b) {
        return Some(uint_from_u64(0));
    }
    let result = uint_div(&abs_a, &abs_b);
    proof {
        assert(abs_a@ <= word_modulus() / 2);
        assert(result@ <= abs_a@) by {
            lemma_fundamental_div_mod(abs_a@ as int, abs_b@ as int);
            assert(abs_b@ >= 1);
            assert(result@ * abs_b@ >= result@) by (nonlinear_arith)
                requires
                    abs_b@ >= 1,
            ;
        }
    }
    if a_neg != b_neg && !uint_is_zero(&result) {
        proof {
            lemma_neg_mod(result@);
        }
        Some(uint_sub(modulus, &result))
    } else {
        proof {
            lemma_small_from_signed(result@);
            if result@ == 0 {
                assert(from_signed(-0) == 0);
            }
        }
        Some(result)
    }
}

/// Signed remainder of two words.
fn fold_smod(a: &Uint, b: &Uint, modulus: &Uint) -> (r: Option<Uint>)
    requires
        a@ < word_modulus(),
        b@ < word_modulus(),
        b@ != 0,
        modulus@ == word_modulus(),
    ensures
        r matches Some(x) && x@ == evm_smod(a@, b@),
{
    proof {
        lemma_word_modulus_facts();
    }
    let a_neg = is_negative(a, modulus);
    let b_neg = is_negative(b, modulus);
    let abs_a = if a_neg { uint_sub(modulus, a) } else { a.clone() };
    let abs_b = if b_neg { uint_sub(modulus, b) } else { b.clone() };
    assert(abs_a@ == abs(to_signed(a@)) && abs_b@ == abs(to_signed(b@)));
    if uint_is_zero(&abs_b) {
        return Some(uint_from_u64(0));
    }
    let result = uint_rem(&abs_a, &abs_b);
    proof {
        assert(result@ < abs_b@);
    }
    if a_neg && !uint_is_zero(&result) {
        proof {
            lemma_neg_mod(result@);
        }
        Some(uint_sub(modulus, &result))
    } else {
        proof {
            if result@ == 0 {
                assert(from_signed(-0) == 0) by {
                    lemma_small_from_signed(0);
                }
            }
        }
        Some(result)
    }
}

proof fn lemma_sar_negative(v: nat, s: nat)
    requires
        word_modulus() / 2 <= v < word_modulus(),
        s < 256,
    ensures
        ({
            let q = two_pow((256 - s) as nat);
            nat_or(v / two_pow(s), ((word_modulus() - 1) as nat / q) * q)
        }) == evm_sar(s, v),
        evm_sar(s, v) < word_modulus(),
{
    let p = two_pow(s);
    let q = two_pow((256 - s) as nat);
    let m = word_modulus();
    lemma_two_pow_pos(s);
    lemma_two_pow_pos((256 - s) as nat);
    lemma_two_pow_adds(s, (256 - s) as nat);
    assert(m == p * q);
    assert((m - 1) as nat / q == p - 1) by {
        assert(m - 1 == q * (p - 1) + (q - 1)) by (nonlinear_arith)
            requires
                m == p * q,
        ;
        lemma_fundamental_div_mod_converse((m - 1) as int, q as int, (p - 1) as int, (q - 1) as int);
    }
    let x = v / p;
    lemma_fundamental_div_mod(v as int, p as int);
    assert(x < q) by (nonlinear_arith)
        requires
            v < p * q,
            v == p * x + v % p,
            v % p >= 0,
            p > 0,
    ;
    lemma_or_high(x, (p - 1) as nat, (256 - s) as nat);
    let t = x as int - q as int;
    assert(to_signed(v) == v - m);
    let rr = v % p;
    assert((v as int - m as int) / (p as int) == t) by {
        assert(v as int - m as int == p * t + rr) by (nonlinear_arith)
            requires
                v == p * x + rr,
                m == p * q,
                t == x - q,
        ;
        lemma_fundamental_div_mod_converse(v as int - m as int, p as int, t, rr as int);
    }
    assert(x + (p - 1) * q == t + m) by (nonlinear_arith)
        requires
            m == p * q,
            t == x - q,
    ;
    lemma_fundamental_div_mod_converse(t, m as int, -1, t + m);
}

/// Arithmetic shift right of `a` by `b` bits.
fn fold_sar(a: &Uint, b: &Uint, modulus: &Uint, max: &Uint) -> (r: Option<Uint>)
    requires
        a@ < word_modulus(),
        modulus@ == word_modulus(),
        max@ == word_modulus() - 1,
    ensures
        r matches Some(x) && x@ == evm_sar(b@, a@),
{
    proof {
        lemma_word_modulus_facts();
    }
    let limit = uint_from_u64(256);
    if !uint_lt(b, &limit) {
        let negative = is_negative(a, modulus);
        proof {
            let m = word_modulus();
            lemma_two_pow_mono(256, b@);
            lemma_two_pow_pos(b@);
            let d = two_pow(b@) as int;
            if negative {
                lemma_fundamental_div_mod_converse(a@ - m, d, -1, a@ - m + d);
                lemma_fundamental_div_mod_converse(-1, m as int, -1, m - 1);
            } else {
                lemma_basic_div(a@ as int, d);
                lemma_small_from_signed(0);
            }
        }
        return if negative {
            Some(max.clone())
        } else {
            Some(uint_from_u64(0))
        };
    }
    let shift = uint_to_u64(b).unwrap() as usize;
    if is_negative(a, modulus) {
        let shifted = uint_shr(a, shift);
        let high = uint_shr(max, 256 - shift);
        let fill = uint_shl(&high, 256 - shift);
        let combined = uint_or(&shifted, &fill);
        proof {
            lemma_sar_negative(a@, b@);
            lemma_small_mod(combined@, word_modulus());
        }
        Some(uint_rem(&combined, modulus))
    } else {
        proof {
            lemma_two_pow_pos(b@);
            lemma_fundamental_div_mod(a@ as int, two_pow(b@) as int);
            assert(a@ / two_pow(b@) <= a@) by (nonlinear_arith)
                requires
                    two_pow(b@) >= 1,
                    a@ == two_pow(b@) * (a@ / two_pow(b@)) + a@ % two_pow(b@),
                    a@ % two_pow(b@) >= 0,
            ;
            lemma_small_from_signed(a@ / two_pow(b@));
        }
        Some(uint_shr(a, shift))
    }
}

proof fn lemma_signextend_negative(x: nat, k: nat)
    requires
        x < word_modulus(),
        k <= 248,
    ensures
        nat_and(
            nat_or(x, (word_modulus() - 1) as nat * two_pow(k)),
            (word_modulus() - 1) as nat,
        ) == x % two_pow(k) + word_modulus() - two_pow(k),
{
    let m = word_modulus();
    let kk = two_pow(k);
    lemma_two_pow_pos(k);
    lemma_two_pow_pos(256);
    lemma_two_pow_strict(k, 256);
    lemma_two_pow_adds(256, k);
    assert(x < two_pow(256 + k)) by (nonlinear_arith)
        requires
            x < m,
            two_pow(256 + k) == m * kk,
            kk >= 1,
    ;
    lemma_or_ones_shifted(x, 256, k);
    let low = x % kk;
    let that = low + (m - 1) as nat * kk;
    lemma_and_low_mask(that, 256);
    let t: int = low + m - kk;
    let q: int = kk - 1;
    assert(low < kk) by {
        lemma_fundamental_div_mod(x as int, kk as int);
    }
    assert(that as int == (m as int) * q + t) by (nonlinear_arith)
        requires
            that == low + (m - 1) * kk,
            t == low + m - kk,
            q == kk - 1,
    ;
    assert(0 <= t < m);
    lemma_fundamental_div_mod_converse(that as int, m as int, q, t);
}

/// EVM `signextend(b, x)`.
fn fold_signextend(b: &Uint, x: &Uint, max: &Uint) -> (r: Option<Uint>)
    requires
        x@ < word_modulus(),
        max@ == word_modulus() - 1,
    ensures
        r matches Some(v) && v@ == evm_signextend(b@, x@),
{
    let limit = uint_from_u64(31);
    if !uint_lt(b, &limit) {
        return Some(x.clone());
    }
    let byte_pos = uint_to_u64(b).unwrap() as usize;
    let bit_pos = byte_pos * 8 + 7;
    let one = uint_from_u64(1);
    let shifted = uint_shr(x, bit_pos);
    let sign_bit = uint_and(&shifted, &one);
    proof {
        lemma_two_pow_8();
        lemma_and_low_mask(shifted@, 1);
        assert((8 * b@ + 8 - 1) as nat == bit_pos);
    }
    if uint_eq(&sign_bit, &one) {
        let mask = uint_shl(max, bit_pos + 1);
        let combined = uint_or(x, &mask);
        proof {
            lemma_signextend_negative(x@, (bit_pos + 1) as nat);
        }
        Some(uint_and(&combined, max))
    } else {
        let high = uint_shl(&one, bit_pos + 1);
        proof {
            lemma_two_pow_pos((bit_pos + 1) as nat);
        }
        let mask = uint_sub(&high, &one);
        proof {
            lemma_and_low_mask(x@, (bit_pos + 1) as nat);
            lemma_fundamental_div_mod(shifted@ as int, 2);
        }
        Some(uint_and(x, &mask))
    }
}

/// Folds a binary operation on two constant words.
/// `AddMod` and `MulMod` take three operands and are not folded here.
pub fn fold_binary(operation: BinaryOperation, a: &Uint, b: &Uint) -> (r: Option<Uint>)
    requires
        a@ < word_modulus(),
        b@ < word_modulus(),
    ensures
        is_two_operand(operation) ==> (r matches Some(x) && x@ == evm_binary(operation, a@, b@)),
        !is_two_operand(operation) ==> r is None,
{
    let modulus = modulus_u256();
    let max = max_u256();
    proof {
        lemma_word_modulus_facts();
        lemma_two_pow_8();
    }
    match operation {
        BinaryOperation::Add => {
            let s = uint_add(a, b);
            Some(uint_rem(&s, &modulus))
        },
        BinaryOperation::Sub => {
            if !uint_lt(a, b) {
                Some(uint_sub(a, b))
            } else {
                let d = uint_sub(b, a);
                Some(uint_sub(&modulus, &d))
            }
        },
        BinaryOperation::Mul => {
            let p = uint_mul(a, b);
            Some(uint_rem(&p, &modulus))
        },
        BinaryOperation::Div => {
            if uint_is_zero(b) {
                Some(uint_from_u64(0))
            } else {
                Some(uint_div(a, b))
            }
        },
        BinaryOperation::SDiv => {
            if uint_is_zero(b) {
                Some(uint_from_u64(0))
            } else {
                fold_sdiv(a, b, &modulus)
            }
        },
        BinaryOperation::Mod => {
            if uint_is_zero(b) {
                Some(uint_from_u64(0))
            } else {
                Some(uint_rem(a, b))
            }
        },
        BinaryOperation::SMod => {
            if uint_is_zero(b) {
                Some(uint_from_u64(0))
            } else {
                fold_smod(a, b, &modulus)
            }
        },
        BinaryOperation::Exp => Some(uint_modpow(a, b, &modulus)),
        BinaryOperation::And => Some(uint_and(a, b)),
        BinaryOperation::Or => Some(uint_or(a, b)),
        BinaryOperation::Xor => Some(uint_xor(a, b)),
        BinaryOperation::Shl => {
            let limit = uint_from_u64(256);
            if !uint_lt(a, &limit) {
                Some(uint_from_u64(0))
            } else {
                let shift = uint_to_u64(a).unwrap() as usize;
                let shifted = uint_shl(b, shift);
                Some(uint_rem(&shifted, &modulus))
            }
        },
        BinaryOperation::Shr => {
            let limit = uint_from_u64(256);
            if !uint_lt(a, &limit) {
                Some(uint_from_u64(0))
            } else {
                let shift = uint_to_u64(a).unwrap() as usize;
                Some(uint_shr(b, shift))
            }
        },
        BinaryOperation::Sar => fold_sar(b, a, &modulus, &max),
        BinaryOperation::Lt => Some(bool_to_u256(uint_lt(a, b))),
        BinaryOperation::Gt => Some(bool_to_u256(uint_lt(b, a))),
        BinaryOperation::Eq => Some(bool_to_u256(uint_eq(a, b))),
        BinaryOperation::Slt => {
            let a_signed = is_negative(a, &modulus);
            let b_signed = is_negative(b, &modulus);
            if a_signed && !b_signed {
                Some(bool_to_u256(true))
            } else if !a_signed && b_signed {
                Some(bool_to_u256(false))
            } else {
                Some(bool_to_u256(uint_lt(a, b)))
            }
        },
        BinaryOperation::Sgt => {
            let a_signed = is_negative(a, &modulus);
            let b_signed = is_negative(b, &modulus);
            if a_signed && !b_signed {
                Some(bool_to_u256(false))
            } else if !a_signed && b_signed {
                Some(bool_to_u256(true))
            } else {
                Some(bool_to_u256(uint_lt(b, a)))
            }
        },
        BinaryOperation::Byte => {
            let limit = uint_from_u64(32);
            if !uint_lt(a, &limit) {
                Some(uint_from_u64(0))
            } else {
                let n = uint_to_u64(a).unwrap() as usize;
                let shift = (31 - n) * 8;
                let shifted = uint_shr(b, shift);
                let mask = uint_from_u64(0xff);
                proof {
                    lemma_and_low_mask(shifted@, 8);
                    assert(shift == 8 * (31 - a@));
                }
                Some(uint_and(&shifted, &mask))
            }
        },
        BinaryOperation::SignExtend => fold_signextend(a, b, &max),
        BinaryOperation::AddMod | BinaryOperation::MulMod => None,
    }
}

proof fn lemma_bits_bound(a: nat, n: nat)
    requires
        a < two_pow(n),
    ensures
        nat_bits(a) <= n,
    decreases n,
{
    if n > 0 && a > 0 {
        lemma_bits_bound(a / 2, (n - 1) as nat);
    } else if n == 0 {
        assert(a == 0);
    }
}

/// Folds a unary operation on a constant word.
pub fn fold_unary(operation: UnaryOperation, a: &Uint) -> (r: Option<Uint>)
    requires
        a@ < word_modulus(),
    ensures
        r matches Some(x) && x@ == evm_unary(operation, a@),
{
    match operation {
        UnaryOperation::IsZero => Some(bool_to_u256(uint_is_zero(a))),
        UnaryOperation::Not => {
            let max = max_u256();
            proof {
                lemma_xor_all_ones(a@, 256);
            }
            Some(uint_xor(&max, a))
        },
        UnaryOperation::Clz => {
            if uint_is_zero(a) {
                Some(uint_from_u64(256))
            } else {
                let bits = uint_bits(a);
                proof {
                    lemma_bits_bound(a@, 256);
                }
                Some(uint_from_u64(256 - bits))
            }
        },
    }
}

/// Folds `addmod`/`mulmod` on three constant words; any modulus of zero gives zero.
pub fn fold_ternary(operation: BinaryOperation, a: &Uint, b: &Uint, n: &Uint) -> (r: Option<Uint>)
    ensures
        n@ == 0 ==> (r matches Some(x) && x@ == 0),
        n@ != 0 && (operation == BinaryOperation::AddMod || operation == BinaryOperation::MulMod)
            ==> (r matches Some(x) && x@ == evm_ternary(operation, a@, b@, n@)),
        n@ != 0 && !(operation == BinaryOperation::AddMod || operation == BinaryOperation::MulMod)
            ==> r is None,
{
    if uint_is_zero(n) {
        return Some(uint_from_u64(0));
    }
    match operation {
        BinaryOperation::AddMod => {
            let s = uint_add(a, b);
            Some(uint_rem(&s, n))
        },
        BinaryOperation::MulMod => {
            let p = uint_mul(a, b);
            Some(uint_rem(&p, n))
        },
        _ => None,
    }
}

} // verus!

verus! {

/// Whether `v` is a power of two.
pub open spec fn is_power_of_two(v: nat) -> bool {
    exists|k: nat| v == two_pow(k)
}

proof fn lemma_two_pow_parity(k: nat)
    ensures
        k >= 1 ==> two_pow(k) % 2 == 0,
        k >= 1 ==> two_pow(k) / 2 == two_pow((k - 1) as nat),
        k == 0 ==> two_pow(k) == 1,
{
}

proof fn lemma_bits_of_two_pow(k: nat)
    ensures
        nat_bits(two_pow(k)) == k + 1,
    decreases k,
{
    lemma_two_pow_pos(k);
    if k > 0 {
        lemma_bits_of_two_pow((k - 1) as nat);
        lemma_two_pow_parity(k);
    } else {
        assert(nat_bits(0) == 0);
    }
}

/// For positive `v`: `(v - 1) & v == 0` exactly when `v` is a power of two.
proof fn lemma_pow2_test(v: nat)
    requires
        v > 0,
    ensures
        (nat_and((v - 1) as nat, v) == 0) == is_power_of_two(v),
    decreases v,
{
    if v == 1 {
        assert(v == two_pow(0));
    } else if v % 2 == 0 {
        let w = v / 2;
        lemma_pow2_test(w);
        assert((v - 1) as nat % 2 == 1 && (v - 1) as nat / 2 == w - 1);
        assert(nat_and((v - 1) as nat, v) == 2 * nat_and((w - 1) as nat, w));
        if is_power_of_two(w) {
            let k = choose|k: nat| w == two_pow(k);
            assert(v == two_pow(k + 1));
        }
        if is_power_of_two(v) {
            let k = choose|k: nat| v == two_pow(k);
            lemma_two_pow_parity(k);
            assert(k >= 1);
            assert(w == two_pow((k - 1) as nat));
        }
    } else {
        let w = v / 2;
        lemma_bitops_self(w);
        assert((v - 1) as nat / 2 == w && (v - 1) as nat % 2 == 0);
        assert(nat_and((v - 1) as nat, v) == 2 * nat_and(w, w));
        if is_power_of_two(v) {
            let k = choose|k: nat| v == two_pow(k);
            lemma_two_pow_parity(k);
            assert(false);
        }
    }
}

/// The exponent `k` when `value == 2^k`.
pub fn log2_exact(value: &Uint) -> (r: Option<u32>)
    requires
        value@ < word_modulus(),
    ensures
        r matches Some(k) ==> value@ == two_pow(k as nat),
        r is None ==> !is_power_of_two(value@),
{
    if uint_is_zero(value) {
        proof {
            if is_power_of_two(value@) {
                let k = choose|k: nat| value@ == two_pow(k);
                lemma_two_pow_pos(k);
            }
        }
        return None;
    }
    let one = uint_from_u64(1);
    let below = uint_sub(value, &one);
    let masked = uint_and(&below, value);
    proof {
        lemma_pow2_test(value@);
    }
    if !uint_is_zero(&masked) {
        return None;
    }
    let bits = uint_bits(value);
    proof {
        let k = choose|k: nat| value@ == two_pow(k);
        lemma_bits_of_two_pow(k);
    }
    proof {
        lemma_bits_bound(value@, 256);
    }
    Some((bits - 1) as u32)
}

} // verus!

verus! {

/// What an algebraic identity rewrites a binary operation to.
pub enum Identity {
    /// The left operand.
    Lhs,
    /// The right operand.
    Rhs,
    /// A constant word.
    Const(nat),
}

/// The identity that applies to `operation(lhs, rhs)`, given whether both
/// operands are the same value and which of them are known constants.
pub open spec fn binary_identity(
    operation: BinaryOperation,
    same: bool,
    l: Option<nat>,
    r: Option<nat>,
) -> Option<Identity> {
    let max = (word_modulus() - 1) as nat;
    let l_is = |v: nat| l == Some(v);
    let r_is = |v: nat| r == Some(v);
    match operation {
        BinaryOperation::Add => if r_is(0) {
            Some(Identity::Lhs)
        } else if l_is(0) {
            Some(Identity::Rhs)
        } else {
            None
        },
        BinaryOperation::Sub => if r_is(0) {
            Some(Identity::Lhs)
        } else if same {
            Some(Identity::Const(0))
        } else {
            None
        },
        BinaryOperation::Mul => if r_is(0) || l_is(0) {
            Some(Identity::Const(0))
        } else if r_is(1) {
            Some(Identity::Lhs)
        } else if l_is(1) {
            Some(Identity::Rhs)
        } else {
            None
        },
        BinaryOperation::Div | BinaryOperation::SDiv => if r_is(1) {
            Some(Identity::Lhs)
        } else if l_is(0) {
            Some(Identity::Const(0))
        } else if same && l is Some && l.unwrap() != 0 {
            Some(Identity::Const(1))
        } else {
            None
        },
        BinaryOperation::Mod | BinaryOperation::SMod => if r_is(1) || l_is(0) || same {
            Some(Identity::Const(0))
        } else {
            None
        },
        BinaryOperation::And => if r_is(0) || l_is(0) {
            Some(Identity::Const(0))
        } else if r_is(max) || same {
            Some(Identity::Lhs)
        } else if l_is(max) {
            Some(Identity::Rhs)
        } else {
            None
        },
        BinaryOperation::Or => if r_is(0) || same {
            Some(Identity::Lhs)
        } else if l_is(0) {
            Some(Identity::Rhs)
        } else if r_is(max) || l_is(max) {
            Some(Identity::Const(max))
        } else {
            None
        },
        BinaryOperation::Xor => if r_is(0) {
            Some(Identity::Lhs)
        } else if l_is(0) {
            Some(Identity::Rhs)
        } else if same {
            Some(Identity::Const(0))
        } else {
            None
        },
        BinaryOperation::Shl | BinaryOperation::Shr | BinaryOperation::Sar => if l_is(0) {
            Some(Identity::Rhs)
        } else {
            None
        },
        BinaryOperation::Eq => if same {
            Some(Identity::Const(1))
        } else {
            None
        },
        BinaryOperation::Lt | BinaryOperation::Gt | BinaryOperation::Slt | BinaryOperation::Sgt => {
            if same {
                Some(Identity::Const(0))
            } else {
                None
            }
        },
        _ => None,
    }
}

/// The value of an optional constant.
pub open spec fn const_view(c: &Option<Uint>) -> Option<nat> {
    match c {
        Some(v) => Some(v@),
        None => None,
    }
}

/// Whether `e` is the expression that an identity stands for.
pub open spec fn identity_expression(id: Identity, lhs: Value, rhs: Value, e: Expression) -> bool {
    match id {
        Identity::Lhs => e == Expression::Var(lhs.id),
        Identity::Rhs => e == Expression::Var(rhs.id),
        Identity::Const(c) => e matches Expression::Literal { value, value_type } && value@ == c
            && value_type == Type::Int(BitWidth::I256),
    }
}

fn is_const(c: &Option<Uint>, v: u64) -> (r: bool)
    ensures
        r == (const_view(c) == Some(v as nat)),
{
    match c {
        Some(x) => {
            let w = uint_from_u64(v);
            uint_eq(x, &w)
        },
        None => false,
    }
}

fn is_const_max(c: &Option<Uint>) -> (r: bool)
    ensures
        r == (const_view(c) == Some((word_modulus() - 1) as nat)),
{
    match c {
        Some(x) => {
            let w = max_u256();
            uint_eq(x, &w)
        },
        None => false,
    }
}

fn word_literal(value: Uint) -> (r: Expression)
    ensures
        r matches Expression::Literal { value: v, value_type } && v@ == value@ && value_type
            == Type::Int(BitWidth::I256),
{
    Expression::Literal { value, value_type: Type::Int(BitWidth::I256) }
}

/// Applies algebraic identities such as `add(x, 0) -> x` and `xor(x, x) -> 0`.
///
/// `div(x, x) -> 1` is applied only when `x` is a known nonzero constant:
/// EVM division by zero gives 0, so `div(0, 0)` is 0.
pub fn simplify_binary(
    operation: BinaryOperation,
    lhs: &Value,
    rhs: &Value,
    lhs_val: &Option<Uint>,
    rhs_val: &Option<Uint>,
) -> (r: Option<Expression>)
    ensures
        match binary_identity(operation, lhs.id == rhs.id, const_view(lhs_val), const_view(rhs_val)) {
            None => r is None,
            Some(id) => r matches Some(e) && identity_expression(id, *lhs, *rhs, e),
        },
{
    let same = lhs.id == rhs.id;
    let var_l = Expression::Var(lhs.id);
    let var_r = Expression::Var(rhs.id);
    match operation {
        BinaryOperation::Add => {
            if is_const(rhs_val, 0) {
                Some(var_l)
            } else if is_const(lhs_val, 0) {
                Some(var_r)
            } else {
                None
            }
        },
        BinaryOperation::Sub => {
            if is_const(rhs_val, 0) {
                Some(var_l)
            } else if same {
                Some(word_literal(uint_from_u64(0)))
            } else {
                None
            }
        },
        BinaryOperation::Mul => {
            if is_const(rhs_val, 0) || is_const(lhs_val, 0) {
                Some(word_literal(uint_from_u64(0)))
            } else if is_const(rhs_val, 1) {
                Some(var_l)
            } else if is_const(lhs_val, 1) {
                Some(var_r)
            } else {
                None
            }
        },
        BinaryOperation::Div | BinaryOperation::SDiv => {
            if is_const(rhs_val, 1) {
                Some(var_l)
            } else if is_const(lhs_val, 0) {
                Some(word_literal(uint_from_u64(0)))
            } else if same && lhs_val.is_some() && !is_const(lhs_val, 0) {
                Some(word_literal(uint_from_u64(1)))
            } else {
                None
            }
        },
        BinaryOperation::Mod | BinaryOperation::SMod => {
            if is_const(rhs_val, 1) || is_const(lhs_val, 0) || same {
                Some(word_literal(uint_from_u64(0)))
            } else {
                None
            }
        },
        BinaryOperation::And => {
            if is_const(rhs_val, 0) || is_const(lhs_val, 0) {
                Some(word_literal(uint_from_u64(0)))
            } else if is_const_max(rhs_val) || same {
                Some(var_l)
            } else if is_const_max(lhs_val) {
                Some(var_r)
            } else {
                None
            }
        },
        BinaryOperation::Or => {
            if is_const(rhs_val, 0) || same {
                Some(var_l)
            } else if is_const(lhs_val, 0) {
                Some(var_r)
            } else if is_const_max(rhs_val) || is_const_max(lhs_val) {
                Some(word_literal(max_u256()))
            } else {
                None
            }
        },
        BinaryOperation::Xor => {
            if is_const(rhs_val, 0) {
                Some(var_l)
            } else if is_const(lhs_val, 0) {
                Some(var_r)
            } else if same {
                Some(word_literal(uint_from_u64(0)))
            } else {
                None
            }
        },
        BinaryOperation::Shl | BinaryOperation::Shr | BinaryOperation::Sar => {
            if is_const(lhs_val, 0) {
                Some(var_r)
            } else {
                None
            }
        },
        BinaryOperation::Eq => {
            if same {
                Some(word_literal(uint_from_u64(1)))
            } else {
                None
            }
        },
        BinaryOperation::Lt | BinaryOperation::Gt | BinaryOperation::Slt | BinaryOperation::Sgt => {
            if same {
                Some(word_literal(uint_from_u64(0)))
            } else {
                None
            }
        },
        _ => None,
    }
}

/// Every algebraic identity is sound: whatever words the operands hold, as long
/// as they agree with what is known of them (equal when they are the same value,
/// equal to their known constants), the rewritten expression has the value of the
/// original operation.
pub proof fn law_identities_are_sound(
    operation: BinaryOperation,
    x: nat,
    y: nat,
    same: bool,
    l: Option<nat>,
    r: Option<nat>,
)
    requires
        x < word_modulus(),
        y < word_modulus(),
        same ==> x == y,
        l matches Some(c) ==> c == x,
        r matches Some(c) ==> c == y,
    ensures
        match binary_identity(operation, same, l, r) {
            None => true,
            Some(Identity::Lhs) => evm_binary(operation, x, y) == x,
            Some(Identity::Rhs) => evm_binary(operation, x, y) == y,
            Some(Identity::Const(c)) => evm_binary(operation, x, y) == c,
        },
{
    let m = word_modulus();
    lemma_word_modulus_facts();
    lemma_small_mod(x, m);
    lemma_small_mod(y, m);
    lemma_small_mod(0, m);
    lemma_and_low_mask(x, 256);
    lemma_and_low_mask(y, 256);
    lemma_or_all_ones(x, 256);
    lemma_or_all_ones(y, 256);
    lemma_bitops_self(x);
    lemma_bitops_commute(x, y);
    match binary_identity(operation, same, l, r) {
        None => {},
        Some(id) => {
            match operation {
                BinaryOperation::Mul => {
                    assert(x * 0 == 0 && 0 * y == 0 && x * 1 == x && 1 * y == y);
                },
                BinaryOperation::Div => {
                    if same && x != 0 {
                        lemma_fundamental_div_mod_converse(x as int, x as int, 1, 0);
                    }
                    if x == 0 && y != 0 {
                        lemma_basic_div(0, y as int);
                    }
                    assert(x / 1 == x);
                },
                BinaryOperation::SDiv => {
                    lemma_sdiv_identities(x, y);
                },
                BinaryOperation::Mod => {
                    if y != 0 {
                        lemma_small_mod(0, y);
                        lemma_fundamental_div_mod_converse(x as int, 1, x as int, 0);
                        if same {
                            lemma_fundamental_div_mod_converse(x as int, x as int, 1, 0);
                        }
                    }
                },
                BinaryOperation::SMod => {
                    lemma_smod_identities(x, y);
                },
                BinaryOperation::Shl | BinaryOperation::Shr | BinaryOperation::Sar => {
                    assert(two_pow(0) == 1);
                    assert(y * 1 == y);
                    lemma_sar_zero(y);
                },
                _ => {},
            }
        },
    }
}

proof fn lemma_sar_zero(y: nat)
    requires
        y < word_modulus(),
    ensures
        evm_sar(0, y) == y,
{
    let m = word_modulus();
    assert(two_pow(0) == 1);
    assert(to_signed(y) / 1 == to_signed(y));
    if to_signed(y) < 0 {
        lemma_fundamental_div_mod_converse(y - m, m as int, -1, y as int);
    } else {
        lemma_small_mod(y, m);
    }
}

proof fn lemma_sdiv_identities(x: nat, y: nat)
    requires
        x < word_modulus(),
        y < word_modulus(),
    ensures
        evm_sdiv(x, 1) == x,
        y != 0 ==> evm_sdiv(0, y) == 0,
        x != 0 ==> evm_sdiv(x, x) == 1,
{
    let m = word_modulus();
    lemma_word_modulus_facts();
    assert(to_signed(1) == 1);
    assert(abs(to_signed(x)) / 1 == abs(to_signed(x)));
    if to_signed(x) < 0 {
        lemma_neg_mod(abs(to_signed(x)));
    } else {
        lemma_small_mod(x, m);
    }
    if y != 0 {
        lemma_basic_div(0, abs(to_signed(y)) as int);
        lemma_small_mod(0, m);
    }
    if x != 0 {
        let a = abs(to_signed(x));
        lemma_fundamental_div_mod_converse(a as int, a as int, 1, 0);
        lemma_small_mod(1, m);
    }
}

proof fn lemma_smod_identities(x: nat, y: nat)
    requires
        x < word_modulus(),
        y < word_modulus(),
    ensures
        evm_smod(x, 1) == 0,
        evm_smod(0, y) == 0,
        evm_smod(x, x) == 0,
{
    let m = word_modulus();
    lemma_word_modulus_facts();
    assert(to_signed(1) == 1);
    lemma_small_mod(0, m);
    assert(abs(to_signed(x)) % 1 == 0);
    assert(from_signed(-0) == 0);
    if y != 0 {
        lemma_small_mod(0, abs(to_signed(y)));
    }
    if x != 0 {
        let a = abs(to_signed(x));
        lemma_fundamental_div_mod_converse(a as int, a as int, 1, 0);
    }
}

/// Strength reduction is sound: for `1 <= k < 256`, `mul(x, 2^k) == shl(k, x)`,
/// `div(x, 2^k) == shr(k, x)` and `mod(x, 2^k) == and(x, 2^k - 1)`.
pub proof fn law_strength_reduction_is_sound(x: nat, k: nat)
    requires
        x < word_modulus(),
        1 <= k < 256,
    ensures
        evm_binary(BinaryOperation::Mul, x, two_pow(k)) == evm_binary(BinaryOperation::Shl, k, x),
        evm_binary(BinaryOperation::Mul, two_pow(k), x) == evm_binary(BinaryOperation::Shl, k, x),
        evm_binary(BinaryOperation::Div, x, two_pow(k)) == evm_binary(BinaryOperation::Shr, k, x),
        evm_binary(BinaryOperation::Mod, x, two_pow(k)) == evm_binary(
            BinaryOperation::And,
            x,
            (two_pow(k) - 1) as nat,
        ),
{
    lemma_two_pow_pos(k);
    lemma_and_low_mask(x, k);
    assert(two_pow(k) * x == x * two_pow(k)) by (nonlinear_arith);
}

/// Adding and subtracting the same word cancel: `sub(add(a, b), a) == b`,
/// `sub(add(a, b), b) == a`, `add(sub(a, b), b) == a` and `add(b, sub(a, b)) == a`.
pub proof fn law_add_sub_cancel(a: nat, b: nat)
    requires
        a < word_modulus(),
        b < word_modulus(),
    ensures
        evm_binary(BinaryOperation::Sub, evm_binary(BinaryOperation::Add, a, b), a) == b,
        evm_binary(BinaryOperation::Sub, evm_binary(BinaryOperation::Add, a, b), b) == a,
        evm_binary(BinaryOperation::Add, evm_binary(BinaryOperation::Sub, a, b), b) == a,
        evm_binary(BinaryOperation::Add, b, evm_binary(BinaryOperation::Sub, a, b)) == a,
{
    let m = word_modulus();
    lemma_word_modulus_facts();
    if a + b < m {
        lemma_small_mod(a + b, m);
    } else {
        lemma_fundamental_div_mod_converse((a + b) as int, m as int, 1, (a + b - m) as int);
    }
    if a >= b {
        lemma_small_mod(a, m);
    } else {
        lemma_fundamental_div_mod_converse((m + a) as int, m as int, 1, a as int);
    }
}

} // verus!

verus! {

/// The 32 big-endian bytes of a word (the value taken modulo 2^256).
pub open spec fn word_be32(n: nat) -> Seq<u8> {
    Seq::new(32, |i: int| ((n / two_pow((8 * (31 - i)) as nat)) % 256) as u8)
}

/// The Keccak-256 digest of a byte string.
pub uninterp spec fn keccak256_digest(data: Seq<u8>) -> Seq<u8>;

/// `revive_common::Keccak256::from_slice(..).as_bytes()`: the Keccak-256 digest
/// of `data`, 32 bytes long.
#[verifier::external_body]
fn keccak256(data: &[u8]) -> (r: Vec<u8>)
    ensures
        r@ == keccak256_digest(data@),
        r@.len() == 32,
{
    revive_common::Keccak256::from_slice(data).as_bytes().to_vec()
}

proof fn lemma_bytes_le(n: nat)
    ensures
        nat_to_bytes_le(n).len() >= 1,
        n < two_pow(8 * nat_to_bytes_le(n).len()),
        forall|j: int|
            0 <= j < nat_to_bytes_le(n).len() ==> #[trigger] nat_to_bytes_le(n)[j] == ((n / two_pow(
                (8 * j) as nat,
            )) % 256) as u8,
    decreases n,
{
    lemma_two_pow_8();
    assert(two_pow(0) == 1);
    lemma_fundamental_div_mod_converse(n as int, 1, n as int, 0);
    assert(n / two_pow(0) == n);
    if n < 256 {
        lemma_small_mod(n, 256);
        assert forall|j: int| 0 <= j < nat_to_bytes_le(n).len() implies #[trigger] nat_to_bytes_le(
            n,
        )[j] == ((n / two_pow((8 * j) as nat)) % 256) as u8 by {
            assert(j == 0);
            assert((8 * j) as nat == 0);
        }
    } else {
        let h = n / 256;
        lemma_bytes_le(h);
        let t = nat_to_bytes_le(h);
        let s = nat_to_bytes_le(n);
        lemma_fundamental_div_mod(n as int, 256);
        lemma_two_pow_adds(8, 8 * t.len());
        assert(8 * s.len() == 8 + 8 * t.len());
        assert(n < two_pow(8 * s.len())) by (nonlinear_arith)
            requires
                n == 256 * h + n % 256,
                n % 256 < 256,
                h < two_pow(8 * t.len()),
                two_pow(8 * s.len()) == 256 * two_pow(8 * t.len()),
        ;
        assert forall|j: int| 0 <= j < s.len() implies #[trigger] s[j] == ((n / two_pow(
            (8 * j) as nat,
        )) % 256) as u8 by {
            if j == 0 {
                assert((8 * j) as nat == 0);
            } else {
                assert(s[j] == t[j - 1]);
                lemma_two_pow_pos((8 * (j - 1)) as nat);
                lemma_two_pow_adds(8, (8 * (j - 1)) as nat);
                assert((8 + 8 * (j - 1)) as nat == (8 * j) as nat);
                vstd::arithmetic::div_mod::lemma_div_denominator(
                    n as int,
                    256,
                    two_pow((8 * (j - 1)) as nat) as int,
                );
            }
        }
    }
}

/// Encodes a word as 32 big-endian bytes, left-padded with zeros.
fn biguint_to_be32(value: &Uint) -> (r: Vec<u8>)
    ensures
        r@ == word_be32(value@),
{
    let bytes = uint_to_bytes_be(value);
    let len = bytes.len();
    let take = if len < 32 { len } else { 32 };
    let start = 32 - take;
    let mut buf: Vec<u8> = Vec::new();
    let ghost le = nat_to_bytes_le(value@);
    proof {
        lemma_bytes_le(value@);
    }
    for i in 0..32
        invariant
            buf@.len() == i,
            len == bytes@.len(),
            bytes@ == le.reverse(),
            le == nat_to_bytes_le(value@),
            take == (if len < 32 { len } else { 32 }),
            start == 32 - take,
            le.len() >= 1,
            value@ < two_pow(8 * le.len()),
            forall|j: int| 0 <= j < le.len() ==> #[trigger] le[j] == ((value@ / two_pow(
                (8 * j) as nat,
            )) % 256) as u8,
            forall|j: int| 0 <= j < i ==> buf@[j] == word_be32(value@)[j],
    {
        if i < start {
            proof {
                let k = (8 * (31 - i)) as nat;
                assert(le.len() <= 31 - i);
                lemma_two_pow_mono(8 * le.len(), k);
                lemma_basic_div(value@ as int, two_pow(k) as int);
            }
            buf.push(0);
        } else {
            let idx = len - take + (i - start);
            proof {
                assert(bytes@[idx as int] == le[le.len() - 1 - idx]);
                let j = 31 - i;
                if len > 32 {
                    assert(le.len() - 1 - idx == j);
                }
            }
            buf.push(bytes[idx]);
        }
    }
    proof {
        assert(buf@ =~= word_be32(value@));
    }
    buf
}

/// Keccak-256 of a single word, as a word.
pub open spec fn keccak_single_value(word0: nat) -> nat {
    bytes_be_value(keccak256_digest(word_be32(word0)))
}

/// Keccak-256 of two words, as a word.
pub open spec fn keccak_pair_value(word0: nat, word1: nat) -> nat {
    bytes_be_value(keccak256_digest(word_be32(word0) + word_be32(word1)))
}

/// Computes keccak256 of a single 256-bit word at compile time.
pub fn fold_keccak256_single(word0: &Uint) -> (r: Uint)
    ensures
        r@ == keccak_single_value(word0@),
{
    let buf = biguint_to_be32(word0);
    let hash = keccak256(buf.as_slice());
    uint_from_bytes_be(hash.as_slice())
}

/// Computes keccak256 of two 256-bit words at compile time.
pub fn fold_keccak256_pair(word0: &Uint, word1: &Uint) -> (r: Uint)
    ensures
        r@ == keccak_pair_value(word0@, word1@),
        forall|data: Seq<u8>|
            data.len() == 64 && data.subrange(0, 32) == word_be32(word0@) && data.subrange(32, 64) == word_be32(
                word1@,
            ) ==> r@ == bytes_be_value(#[trigger] keccak256_digest(data)),
{
    let mut buf = biguint_to_be32(word0);
    let mut second = biguint_to_be32(word1);
    buf.append(&mut second);
    let hash = keccak256(buf.as_slice());
    proof {
        assert forall|data: Seq<u8>|
            data.len() == 64 && data.subrange(0, 32) == word_be32(word0@) && data.subrange(32, 64) == word_be32(
                word1@,
            ) implies data == buf@ by {
            assert(data =~= buf@);
        }
    }
    uint_from_bytes_be(hash.as_slice())
}

/// Folding a pair of words hashes the 64 bytes with the first word's 32
/// big-endian bytes first and the second word's after them.
pub proof fn law_keccak_pair_hashes_words_in_order(word0: nat, word1: nat, data: Seq<u8>)
    requires
        data.len() == 64,
        data.subrange(0, 32) == word_be32(word0),
        data.subrange(32, 64) == word_be32(word1),
    ensures
        keccak_pair_value(word0, word1) == bytes_be_value(keccak256_digest(data)),
{
    assert(data =~= word_be32(word0) + word_be32(word1));
}

/// Folding one word hashes its 32 big-endian bytes.
pub proof fn law_keccak_single_hashes_the_word(word0: nat, data: Seq<u8>)
    requires
        data.len() == 32,
        forall|i: int| 0 <= i < 32 ==> #[trigger] data[i] == ((word0 / two_pow((8 * (31 - i)) as nat)) % 256) as u8,
    ensures
        keccak_single_value(word0) == bytes_be_value(keccak256_digest(data)),
{
    assert(data =~= word_be32(word0));
}

} // verus!
