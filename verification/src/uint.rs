//! Arbitrary-precision unsigned integers for literal values of the IR.
//!
//! A [`Uint`] holds its value as base-2^32 digits, least significant first.
//! Arithmetic is carried out by `num::BigUint`; every such call sits behind a
//! small trusted wrapper whose contract states the result over `nat`.

use num::BigUint;
use num::ToPrimitive;
use num::Zero;
use vstd::prelude::*;

verus! {

/// The value of base-2^32 digits, least significant first.
pub open spec fn digits_value(d: Seq<u32>) -> nat
    decreases d.len(),
{
    if d.len() == 0 {
        0
    } else {
        d[0] as nat + 0x1_0000_0000 * digits_value(d.drop_first())
    }
}

/// 2^n.
pub open spec fn two_pow(n: nat) -> nat
    decreases n,
{
    if n == 0 {
        1
    } else {
        2 * two_pow((n - 1) as nat)
    }
}

/// b^e.
pub open spec fn nat_pow(b: nat, e: nat) -> nat
    decreases e,
{
    if e == 0 {
        1
    } else {
        b * nat_pow(b, (e - 1) as nat)
    }
}

/// Bitwise and of two naturals.
pub open spec fn nat_and(a: nat, b: nat) -> nat
    decreases a,
{
    if a == 0 || b == 0 {
        0
    } else {
        ((a % 2) * (b % 2)) + 2 * nat_and(a / 2, b / 2)
    }
}

/// Bitwise or of two naturals.
pub open spec fn nat_or(a: nat, b: nat) -> nat
    decreases a + b,
{
    if a == 0 {
        b
    } else if b == 0 {
        a
    } else {
        (if a % 2 == 1 || b % 2 == 1 { 1nat } else { 0nat }) + 2 * nat_or(a / 2, b / 2)
    }
}

/// Bitwise exclusive or of two naturals.
pub open spec fn nat_xor(a: nat, b: nat) -> nat
    decreases a + b,
{
    if a == 0 {
        b
    } else if b == 0 {
        a
    } else {
        (if a % 2 != b % 2 { 1nat } else { 0nat }) + 2 * nat_xor(a / 2, b / 2)
    }
}

/// The number of bits needed to write `n` (0 for zero).
pub open spec fn nat_bits(n: nat) -> nat
    decreases n,
{
    if n == 0 {
        0
    } else {
        1 + nat_bits(n / 2)
    }
}

/// Little-endian bytes of `n`; zero is the single byte 0.
pub open spec fn nat_to_bytes_le(n: nat) -> Seq<u8>
    decreases n,
{
    if n < 256 {
        seq![n as u8]
    } else {
        seq![(n % 256) as u8] + nat_to_bytes_le(n / 256)
    }
}

/// The value of big-endian bytes.
pub open spec fn bytes_be_value(s: Seq<u8>) -> nat
    decreases s.len(),
{
    if s.len() == 0 {
        0
    } else {
        bytes_be_value(s.drop_last()) * 256 + s.last() as nat
    }
}

/// 2^256, the modulus of EVM word arithmetic.
pub open spec fn word_modulus() -> nat {
    two_pow(256)
}

/// An unsigned integer of any size.
#[derive(Debug)]
pub struct Uint {
    pub(crate) digits: Vec<u32>,
}

impl View for Uint {
    type V = nat;

    closed spec fn view(&self) -> nat {
        digits_value(self.digits@)
    }
}

impl Clone for Uint {
    fn clone(&self) -> (r: Self)
        ensures
            r@ == self@,
    {
        Uint { digits: self.digits.clone() }
    }
}

impl PartialEq for Uint {
    fn eq(&self, other: &Self) -> (r: bool) {
        uint_eq(self, other)
    }
}

impl vstd::std_specs::cmp::PartialEqSpecImpl for Uint {
    open spec fn obeys_eq_spec() -> bool {
        true
    }

    open spec fn eq_spec(&self, other: &Self) -> bool {
        self@ == other@
    }
}

impl Uint {
    /// Zero.
    pub fn zero() -> (r: Uint)
        ensures
            r@ == 0,
    {
        let r = Uint { digits: Vec::new() };
        assert(r.digits@.len() == 0);
        r
    }

    /// The integer `v`.
    pub fn from_u64(v: u64) -> (r: Uint)
        ensures
            r@ == v,
    {
        uint_from_u64(v)
    }

    /// `self * 2^k`.
    pub fn shl(&self, k: usize) -> (r: Uint)
        ensures
            r@ == self@ * two_pow(k as nat),
    {
        uint_shl(self, k)
    }

    /// Whether the two integers are equal.
    pub fn equals(&self, other: &Uint) -> (r: bool)
        ensures
            r == (self@ == other@),
    {
        uint_eq(self, other)
    }

    /// The integer, if it fits in 64 bits.
    pub fn to_u64(&self) -> (r: Option<u64>)
        ensures
            r == (if self@ <= u64::MAX {
                Some(self@ as u64)
            } else {
                None::<u64>
            }),
    {
        uint_to_u64(self)
    }
}

/// `num::BigUint::from(u64)`: the integer `v`.
#[verifier::external_body]
pub(crate) fn uint_from_u64(v: u64) -> (r: Uint)
    ensures
        r@ == v,
{
    Uint { digits: BigUint::from(v).to_u32_digits() }
}

/// `BigUint + BigUint`: the sum.
#[verifier::external_body]
pub(crate) fn uint_add(a: &Uint, b: &Uint) -> (r: Uint)
    ensures
        r@ == a@ + b@,
{
    Uint { digits: (BigUint::from_slice(&a.digits) + BigUint::from_slice(&b.digits)).to_u32_digits() }
}

/// `BigUint - BigUint`: the difference; num panics when it would be negative.
#[verifier::external_body]
pub(crate) fn uint_sub(a: &Uint, b: &Uint) -> (r: Uint)
    requires
        b@ <= a@,
    ensures
        r@ == a@ - b@,
{
    Uint { digits: (BigUint::from_slice(&a.digits) - BigUint::from_slice(&b.digits)).to_u32_digits() }
}

/// `BigUint * BigUint`: the product.
#[verifier::external_body]
pub(crate) fn uint_mul(a: &Uint, b: &Uint) -> (r: Uint)
    ensures
        r@ == a@ * b@,
{
    Uint { digits: (BigUint::from_slice(&a.digits) * BigUint::from_slice(&b.digits)).to_u32_digits() }
}

/// `BigUint / BigUint`: the floor quotient; num panics on a zero divisor.
#[verifier::external_body]
pub(crate) fn uint_div(a: &Uint, b: &Uint) -> (r: Uint)
    requires
        b@ > 0,
    ensures
        r@ == a@ / b@,
{
    Uint { digits: (BigUint::from_slice(&a.digits) / BigUint::from_slice(&b.digits)).to_u32_digits() }
}

/// `BigUint % BigUint`: the remainder; num panics on a zero divisor.
#[verifier::external_body]
pub(crate) fn uint_rem(a: &Uint, b: &Uint) -> (r: Uint)
    requires
        b@ > 0,
    ensures
        r@ == a@ % b@,
{
    Uint { digits: (BigUint::from_slice(&a.digits) % BigUint::from_slice(&b.digits)).to_u32_digits() }
}

/// `BigUint::modpow`: `a^e mod m`; num panics on a zero modulus.
#[verifier::external_body]
pub(crate) fn uint_modpow(a: &Uint, e: &Uint, m: &Uint) -> (r: Uint)
    requires
        m@ > 0,
    ensures
        r@ == nat_pow(a@, e@) % m@,
{
    let x = BigUint::from_slice(&a.digits);
    Uint { digits: x.modpow(&BigUint::from_slice(&e.digits), &BigUint::from_slice(&m.digits)).to_u32_digits() }
}

/// `BigUint & BigUint`: bitwise and.
#[verifier::external_body]
pub(crate) fn uint_and(a: &Uint, b: &Uint) -> (r: Uint)
    ensures
        r@ == nat_and(a@, b@),
{
    Uint { digits: (BigUint::from_slice(&a.digits) & BigUint::from_slice(&b.digits)).to_u32_digits() }
}

/// `BigUint | BigUint`: bitwise or.
#[verifier::external_body]
pub(crate) fn uint_or(a: &Uint, b: &Uint) -> (r: Uint)
    ensures
        r@ == nat_or(a@, b@),
{
    Uint { digits: (BigUint::from_slice(&a.digits) | BigUint::from_slice(&b.digits)).to_u32_digits() }
}

/// `BigUint ^ BigUint`: bitwise exclusive or.
#[verifier::external_body]
pub(crate) fn uint_xor(a: &Uint, b: &Uint) -> (r: Uint)
    ensures
        r@ == nat_xor(a@, b@),
{
    Uint { digits: (BigUint::from_slice(&a.digits) ^ BigUint::from_slice(&b.digits)).to_u32_digits() }
}

/// `BigUint << usize`: multiplication by a power of two.
#[verifier::external_body]
pub(crate) fn uint_shl(a: &Uint, k: usize) -> (r: Uint)
    ensures
        r@ == a@ * two_pow(k as nat),
{
    Uint { digits: (BigUint::from_slice(&a.digits) << k).to_u32_digits() }
}

/// `BigUint >> usize`: floor division by a power of two.
#[verifier::external_body]
pub(crate) fn uint_shr(a: &Uint, k: usize) -> (r: Uint)
    ensures
        r@ == a@ / two_pow(k as nat),
{
    Uint { digits: (BigUint::from_slice(&a.digits) >> k).to_u32_digits() }
}

/// `BigUint < BigUint`.
#[verifier::external_body]
pub(crate) fn uint_lt(a: &Uint, b: &Uint) -> (r: bool)
    ensures
        r == (a@ < b@),
{
    BigUint::from_slice(&a.digits) < BigUint::from_slice(&b.digits)
}

/// `BigUint == BigUint`.
#[verifier::external_body]
pub(crate) fn uint_eq(a: &Uint, b: &Uint) -> (r: bool)
    ensures
        r == (a@ == b@),
{
    BigUint::from_slice(&a.digits) == BigUint::from_slice(&b.digits)
}

/// `Zero::is_zero` on `BigUint`.
#[verifier::external_body]
pub(crate) fn uint_is_zero(a: &Uint) -> (r: bool)
    ensures
        r == (a@ == 0),
{
    BigUint::from_slice(&a.digits).is_zero()
}

/// `BigUint::bits`: the fewest bits that express the value.
#[verifier::external_body]
pub(crate) fn uint_bits(a: &Uint) -> (r: u64)
    ensures
        r == nat_bits(a@),
{
    BigUint::from_slice(&a.digits).bits()
}

/// `ToPrimitive::to_u64` on `BigUint`: the value when it fits in a `u64`.
#[verifier::external_body]
pub(crate) fn uint_to_u64(a: &Uint) -> (r: Option<u64>)
    ensures
        r == (if a@ <= u64::MAX {
            Some(a@ as u64)
        } else {
            None::<u64>
        }),
{
    BigUint::from_slice(&a.digits).to_u64()
}

/// `BigUint::to_bytes_le`: little-endian bytes, `[0]` for zero.
#[verifier::external_body]
pub(crate) fn uint_to_bytes_le(a: &Uint) -> (r: Vec<u8>)
    ensures
        r@ == nat_to_bytes_le(a@),
{
    BigUint::from_slice(&a.digits).to_bytes_le()
}

/// `BigUint::to_bytes_be`: big-endian bytes, `[0]` for zero.
#[verifier::external_body]
pub(crate) fn uint_to_bytes_be(a: &Uint) -> (r: Vec<u8>)
    ensures
        r@ == nat_to_bytes_le(a@).reverse(),
{
    BigUint::from_slice(&a.digits).to_bytes_be()
}

/// `BigUint::from_bytes_be`: the value of big-endian bytes.
#[verifier::external_body]
pub(crate) fn uint_from_bytes_be(bytes: &[u8]) -> (r: Uint)
    ensures
        r@ == bytes_be_value(bytes@),
{
    Uint { digits: BigUint::from_bytes_be(bytes).to_u32_digits() }
}

} // verus!
