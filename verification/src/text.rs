//! Building the text of diagnostics.

use vstd::prelude::*;
use vstd::string::StringExecFns;

verus! {

/// The character of a decimal digit.
pub open spec fn digit_char(d: nat) -> char {
    (48 + d) as char
}

/// The decimal representation of a natural number.
pub open spec fn decimal(n: nat) -> Seq<char>
    decreases n,
{
    if n < 10 {
        seq![digit_char(n)]
    } else {
        decimal(n / 10).push(digit_char(n % 10))
    }
}

/// `<usize as ToString>::to_string`: the decimal representation of `n`.
#[verifier::external_body]
pub(crate) fn decimal_string(n: usize) -> (r: String)
    ensures
        r@ == decimal(n as nat),
{
    n.to_string()
}

/// `a` followed by `b`.
pub(crate) fn concat(a: &str, b: &str) -> (r: String)
    ensures
        r@ == a@ + b@,
{
    let mut s = String::from_str(a);
    s.append(b);
    s
}

/// `ctx` followed by `[i]`.
pub open spec fn indexed(ctx: Seq<char>, i: nat) -> Seq<char> {
    ctx + "["@ + decimal(i) + "]"@
}

/// `ctx` followed by `[i]`.
pub(crate) fn index_context(ctx: &str, i: usize) -> (r: String)
    ensures
        r@ == indexed(ctx@, i as nat),
{
    let mut s = String::from_str(ctx);
    s.append("[");
    let d = decimal_string(i);
    s.append(d.as_str());
    s.append("]");
    s
}

} // verus!
