//! EVM word semantics over `nat`, and the facts about bit operations that the
//! constant folder relies on.

use crate::ir::{BinaryOperation, UnaryOperation};
use crate::uint::{nat_and, nat_bits, nat_or, nat_pow, nat_xor, two_pow, word_modulus};
use vstd::arithmetic::div_mod::{
    lemma_basic_div, lemma_fundamental_div_mod, lemma_fundamental_div_mod_converse, lemma_small_mod,
};
use vstd::prelude::*;

verus! {

/// A 256-bit EVM word.
pub open spec fn is_word(a: nat) -> bool {
    a < word_modulus()
}

/// The two's complement reading of a word.
pub open spec fn to_signed(a: nat) -> int {
    if a >= word_modulus() / 2 {
        a - word_modulus()
    } else {
        a as int
    }
}

/// The word that holds an integer, wrapping modulo 2^256.
pub open spec fn from_signed(x: int) -> nat {
    (x % (word_modulus() as int)) as nat
}

/// 1 for true, 0 for false.
pub open spec fn bool_word(b: bool) -> nat {
    if b {
        1
    } else {
        0
    }
}

/// Absolute value.
pub open spec fn abs(x: int) -> nat {
    if x < 0 {
        (-x) as nat
    } else {
        x as nat
    }
}

/// EVM `sdiv`: signed division truncating toward zero; 0 for a zero divisor.
pub open spec fn evm_sdiv(a: nat, b: nat) -> nat {
    if b == 0 {
        0
    } else {
        let q = abs(to_signed(a)) / abs(to_signed(b));
        if (to_signed(a) < 0) != (to_signed(b) < 0) {
            from_signed(-q)
        } else {
            from_signed(q as int)
        }
    }
}

/// EVM `smod`: signed remainder with the sign of the dividend; 0 for a zero divisor.
pub open spec fn evm_smod(a: nat, b: nat) -> nat {
    if b == 0 {
        0
    } else {
        let r = abs(to_signed(a)) % abs(to_signed(b));
        if to_signed(a) < 0 {
            from_signed(-r)
        } else {
            r
        }
    }
}

/// EVM `sar(shift, value)`: arithmetic shift right, floor division of the signed value.
pub open spec fn evm_sar(shift: nat, value: nat) -> nat {
    from_signed(to_signed(value) / (two_pow(shift) as int))
}

/// EVM `signextend(b, x)`: sign-extend `x` from its byte `b` (counted from the low end).
pub open spec fn evm_signextend(b: nat, x: nat) -> nat {
    if b >= 31 {
        x
    } else {
        let k = (8 * b + 8) as nat;
        let low = x % two_pow(k);
        if (x / two_pow((k - 1) as nat)) % 2 == 1 {
            (low + word_modulus() - two_pow(k)) as nat
        } else {
            low
        }
    }
}

/// The result of a binary EVM operation on two words (operands in EVM order).
pub open spec fn evm_binary(operation: BinaryOperation, a: nat, b: nat) -> nat {
    let m = word_modulus();
    match operation {
        BinaryOperation::Add => (a + b) % m,
        BinaryOperation::Sub => if a >= b {
            (a - b) as nat
        } else {
            (m + a - b) as nat
        },
        BinaryOperation::Mul => (a * b) % m,
        BinaryOperation::Div => if b == 0 {
            0
        } else {
            a / b
        },
        BinaryOperation::SDiv => evm_sdiv(a, b),
        BinaryOperation::Mod => if b == 0 {
            0
        } else {
            a % b
        },
        BinaryOperation::SMod => evm_smod(a, b),
        BinaryOperation::Exp => nat_pow(a, b) % m,
        BinaryOperation::And => nat_and(a, b),
        BinaryOperation::Or => nat_or(a, b),
        BinaryOperation::Xor => nat_xor(a, b),
        BinaryOperation::Shl => if a >= 256 {
            0
        } else {
            (b * two_pow(a)) % m
        },
        BinaryOperation::Shr => if a >= 256 {
            0
        } else {
            b / two_pow(a)
        },
        BinaryOperation::Sar => evm_sar(a, b),
        BinaryOperation::Lt => bool_word(a < b),
        BinaryOperation::Gt => bool_word(a > b),
        BinaryOperation::Eq => bool_word(a == b),
        BinaryOperation::Slt => bool_word(to_signed(a) < to_signed(b)),
        BinaryOperation::Sgt => bool_word(to_signed(a) > to_signed(b)),
        BinaryOperation::Byte => if a >= 32 {
            0
        } else {
            (b / two_pow((8 * (31 - a)) as nat)) % 256
        },
        BinaryOperation::SignExtend => evm_signextend(a, b),
        BinaryOperation::AddMod => 0,
        BinaryOperation::MulMod => 0,
    }
}

/// The binary operations that take two operands (`AddMod` and `MulMod` take three).
pub open spec fn is_two_operand(operation: BinaryOperation) -> bool {
    !(operation == BinaryOperation::AddMod || operation == BinaryOperation::MulMod)
}

/// The result of a unary EVM operation on a word.
pub open spec fn evm_unary(operation: UnaryOperation, a: nat) -> nat {
    match operation {
        UnaryOperation::IsZero => bool_word(a == 0),
        UnaryOperation::Not => (word_modulus() - 1 - a) as nat,
        UnaryOperation::Clz => (256 - nat_bits(a)) as nat,
    }
}

/// The result of `addmod`/`mulmod`; 0 for a zero modulus.
pub open spec fn evm_ternary(operation: BinaryOperation, a: nat, b: nat, n: nat) -> nat {
    if n == 0 {
        0
    } else if operation == BinaryOperation::AddMod {
        (a + b) % n
    } else {
        (a * b) % n
    }
}

// ---------------------------------------------------------------------------
// Powers of two.

pub proof fn lemma_two_pow_pos(n: nat)
    ensures
        two_pow(n) > 0,
    decreases n,
{
    if n > 0 {
        lemma_two_pow_pos((n - 1) as nat);
    }
}

pub proof fn lemma_two_pow_adds(a: nat, b: nat)
    ensures
        two_pow(a + b) == two_pow(a) * two_pow(b),
    decreases a,
{
    if a > 0 {
        let a1 = (a - 1) as nat;
        lemma_two_pow_adds(a1, b);
        assert((a + b - 1) as nat == a1 + b);
        let x = two_pow(a1);
        let y = two_pow(b);
        assert(two_pow(a + b) == 2 * two_pow(a1 + b));
        assert(two_pow(a) == 2 * x);
        assert(2 * (x * y) == (2 * x) * y) by (nonlinear_arith);
        assert(two_pow(a + b) == two_pow(a) * two_pow(b));
    } else {
        assert(two_pow(a) == 1);
        assert(a + b == b);
    }
}

pub proof fn lemma_two_pow_mono(a: nat, b: nat)
    requires
        a <= b,
    ensures
        two_pow(a) <= two_pow(b),
    decreases b,
{
    if a < b {
        lemma_two_pow_mono(a, (b - 1) as nat);
        lemma_two_pow_pos((b - 1) as nat);
    }
}

pub proof fn lemma_two_pow_strict(a: nat, b: nat)
    requires
        a < b,
    ensures
        two_pow(a) < two_pow(b),
{
    lemma_two_pow_mono(a, (b - 1) as nat);
    lemma_two_pow_pos((b - 1) as nat);
}

pub proof fn lemma_two_pow_8()
    ensures
        two_pow(1) == 2,
        two_pow(8) == 256,
{
    reveal_with_fuel(two_pow, 9);
}

pub proof fn lemma_word_modulus_facts()
    ensures
        word_modulus() == two_pow(255) * 2,
        word_modulus() / 2 == two_pow(255),
        word_modulus() > 0x1_0000_0000_0000_0000,
        two_pow(255) > 0,
{
    lemma_two_pow_pos(255);
    lemma_two_pow_adds(64, 192);
    lemma_two_pow_pos(192);
    lemma_two_pow_strict(64, 256);
    lemma_two_64();
}

pub proof fn lemma_two_64()
    ensures
        two_pow(64) == 0x1_0000_0000_0000_0000,
        two_pow(32) == 0x1_0000_0000,
{
    lemma_two_pow_8();
    lemma_two_pow_adds(8, 8);
    assert(two_pow(16) == 0x10000);
    lemma_two_pow_adds(16, 16);
    assert(two_pow(32) == 0x1_0000_0000);
    lemma_two_pow_adds(32, 32);
    assert(two_pow(64) == 0x1_0000_0000 * 0x1_0000_0000);
}

// ---------------------------------------------------------------------------
// Division facts.

/// `x % 2p` splits into the low bit and the rest.
pub proof fn lemma_mod_double(x: nat, p: nat)
    requires
        p > 0,
    ensures
        x % (2 * p) == x % 2 + 2 * ((x / 2) % p),
        x / (2 * p) == (x / 2) / p,
{
    let h = x / 2;
    let q = h / p;
    let a = x % 2;
    let c = h % p;
    let r = a + 2 * c;
    lemma_fundamental_div_mod(x as int, 2);
    lemma_fundamental_div_mod(h as int, p as int);
    assert(x == 2 * h + a);
    assert(h == p * q + c);
    assert(x == (2 * p) * q + r) by (nonlinear_arith)
        requires
            x == 2 * h + a,
            h == p * q + c,
            r == a + 2 * c,
    ;
    assert(c < p);
    assert(a < 2);
    assert(0 <= r < 2 * p);
    lemma_fundamental_div_mod_converse(x as int, (2 * p) as int, q as int, r as int);
}

// ---------------------------------------------------------------------------
// Bit operations.

/// Masking with `2^k - 1` keeps the low `k` bits.
pub proof fn lemma_and_low_mask(x: nat, k: nat)
    ensures
        nat_and(x, (two_pow(k) - 1) as nat) == x % two_pow(k),
    decreases k,
{
    lemma_two_pow_pos(k);
    if k > 0 {
        let m = (two_pow(k) - 1) as nat;
        let p = two_pow((k - 1) as nat);
        lemma_two_pow_pos((k - 1) as nat);
        assert(m % 2 == 1 && m / 2 == p - 1) by {
            assert(m == 2 * (p - 1) + 1);
        }
        lemma_and_low_mask(x / 2, (k - 1) as nat);
        lemma_mod_double(x, p);
        if x == 0 {
            assert(x % two_pow(k) == 0);
        } else {
            assert(nat_and(x, m) == (x % 2) * (m % 2) + 2 * nat_and(x / 2, m / 2));
        }
    }
}

/// Or-ing a value with bits that lie wholly above it is addition.
pub proof fn lemma_or_high(x: nat, y: nat, k: nat)
    requires
        x < two_pow(k),
    ensures
        nat_or(x, y * two_pow(k)) == x + y * two_pow(k),
    decreases k,
{
    let yy = y * two_pow(k);
    if k == 0 {
        assert(x == 0);
    } else if yy == 0 || x == 0 {
    } else {
        let p = two_pow((k - 1) as nat);
        assert(yy == 2 * (y * p)) by (nonlinear_arith)
            requires
                yy == y * two_pow(k),
                two_pow(k) == 2 * p,
        ;
        assert(yy % 2 == 0 && yy / 2 == y * p);
        lemma_fundamental_div_mod(x as int, 2);
        assert(x / 2 < p);
        lemma_or_high(x / 2, y, (k - 1) as nat);
    }
}

/// Or-ing with all ones below `2^n` gives all ones.
pub proof fn lemma_or_all_ones(x: nat, n: nat)
    requires
        x < two_pow(n),
    ensures
        nat_or(x, (two_pow(n) - 1) as nat) == two_pow(n) - 1,
    decreases n,
{
    lemma_two_pow_pos(n);
    if n > 0 {
        let m = (two_pow(n) - 1) as nat;
        let p = two_pow((n - 1) as nat);
        assert(m % 2 == 1 && m / 2 == p - 1);
        if x != 0 {
            lemma_or_all_ones(x / 2, (n - 1) as nat);
        }
    }
}

/// Or-ing with all ones from bit `k` up to bit `n + k` keeps the low `k` bits of `x`.
pub proof fn lemma_or_ones_shifted(x: nat, n: nat, k: nat)
    requires
        x < two_pow(n + k),
    ensures
        nat_or(x, (two_pow(n) - 1) as nat * two_pow(k)) == x % two_pow(k) + (two_pow(n) - 1) as nat
            * two_pow(k),
    decreases k,
{
    lemma_two_pow_pos(n);
    lemma_two_pow_pos(k);
    let m = (two_pow(n) - 1) as nat;
    if k == 0 {
        lemma_or_all_ones(x, n);
        assert(two_pow(k) == 1);
        assert(m * two_pow(k) == m);
        lemma_fundamental_div_mod(x as int, 1);
        assert(x % two_pow(k) == 0);
    } else {
        let p = two_pow((k - 1) as nat);
        lemma_two_pow_pos((k - 1) as nat);
        let yy = m * two_pow(k);
        assert(two_pow(k) == 2 * p);
        assert(yy == 2 * (m * p)) by (nonlinear_arith)
            requires
                yy == m * two_pow(k),
                two_pow(k) == 2 * p,
        ;
        lemma_mod_double(x, p);
        if yy == 0 {
            assert(m == 0) by (nonlinear_arith)
                requires
                    yy == m * two_pow(k),
                    two_pow(k) > 0,
                    yy == 0,
            ;
            if n > 0 {
                lemma_two_pow_strict(0, n);
            }
            assert(n == 0);
            assert(x < two_pow(k));
            lemma_small_mod(x, two_pow(k));
            assert(nat_or(x, yy) == x);
        } else if x == 0 {
            lemma_small_mod(x, two_pow(k));
            assert(nat_or(x, yy) == yy);
        } else {
            lemma_two_pow_adds(n, k);
            lemma_two_pow_adds(n, (k - 1) as nat);
            assert(x / 2 < two_pow(n + (k - 1) as nat)) by (nonlinear_arith)
                requires
                    x < two_pow(n) * two_pow(k),
                    two_pow(k) == 2 * p,
                    two_pow(n + (k - 1) as nat) == two_pow(n) * p,
            ;
            lemma_or_ones_shifted(x / 2, n, (k - 1) as nat);
            assert(yy % 2 == 0 && yy / 2 == m * p);
            assert(nat_or(x, yy) == (if x % 2 == 1 || yy % 2 == 1 {
                1nat
            } else {
                0nat
            }) + 2 * nat_or(x / 2, yy / 2));
            assert(nat_or(x, yy) == x % 2 + 2 * ((x / 2) % p + m * p));
        }
    }
}

/// Exclusive or with all ones below `2^n` is subtraction from them.
pub proof fn lemma_xor_all_ones(x: nat, n: nat)
    requires
        x < two_pow(n),
    ensures
        nat_xor((two_pow(n) - 1) as nat, x) == two_pow(n) - 1 - x,
    decreases n,
{
    lemma_two_pow_pos(n);
    if n > 0 && x != 0 {
        let m = (two_pow(n) - 1) as nat;
        let p = two_pow((n - 1) as nat);
        assert(m % 2 == 1 && m / 2 == p - 1);
        lemma_xor_all_ones(x / 2, (n - 1) as nat);
    }
}

/// `x & x == x`, `x | x == x`, `x ^ x == 0`.
pub proof fn lemma_bitops_self(x: nat)
    ensures
        nat_and(x, x) == x,
        nat_or(x, x) == x,
        nat_xor(x, x) == 0,
    decreases x,
{
    if x > 0 {
        lemma_bitops_self(x / 2);
        let b = x % 2;
        assert(b * b == b) by (nonlinear_arith)
            requires
                b == 0 || b == 1,
        ;
        lemma_fundamental_div_mod(x as int, 2);
    }
}

/// And, or and exclusive or commute.
pub proof fn lemma_bitops_commute(a: nat, b: nat)
    ensures
        nat_and(a, b) == nat_and(b, a),
        nat_or(a, b) == nat_or(b, a),
        nat_xor(a, b) == nat_xor(b, a),
    decreases a,
{
    if a > 0 {
        lemma_bitops_commute(a / 2, b / 2);
    }
}

/// Bit operations on values below `2^n` stay below `2^n`.
pub proof fn lemma_bitops_bound(a: nat, b: nat, n: nat)
    requires
        a < two_pow(n),
        b < two_pow(n),
    ensures
        nat_and(a, b) < two_pow(n),
        nat_or(a, b) < two_pow(n),
        nat_xor(a, b) < two_pow(n),
    decreases n,
{
    lemma_two_pow_pos(n);
    if n == 0 {
        assert(a == 0 && b == 0);
    } else if a > 0 && b > 0 {
        let p = two_pow((n - 1) as nat);
        assert(two_pow(n) == 2 * p);
        lemma_bitops_bound(a / 2, b / 2, (n - 1) as nat);
        let x = a % 2;
        let y = b % 2;
        assert(x * y <= 1) by (nonlinear_arith)
            requires
                x <= 1,
                y <= 1,
        ;
    }
}

} // verus!
