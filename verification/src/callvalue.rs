//! Hoisting of the non-payable `callvalue` checks of a dispatch switch.
//!
//! Solidity starts each non-payable function with `let v := callvalue()`
//! followed by `if v { revert(..) }`. When every case and the default of a
//! switch start with the same check, one check above the switch serves all of
//! them.

use crate::canon::{enc_statement, CanonState, Canonicalizer};
use crate::ir::{Expression, Region, Statement, SwitchCase, ValueId};
use crate::outline::has_revert;
use crate::rename::{rename_statements, renamed_list, replace_id};
use vstd::prelude::*;

verus! {

/// `s` starts with `let v = callvalue()` and `if v { .. revert .. }`, with no
/// inputs, outputs or else branch.
pub open spec fn callvalue_check_prefix(s: Seq<Statement>) -> bool {
    &&& s.len() >= 2
    &&& s[0] matches Statement::Let { bindings, value } && bindings@.len() == 1 && value is CallValue
    &&& s[1] matches Statement::If { condition, inputs, then_region, else_region, outputs }
        && condition.id == s[0]->Let_bindings@[0] && inputs@.len() == 0 && outputs@.len() == 0
        && else_region is None && has_revert(then_region.statements@)
}

/// The id that the leading `let v = callvalue()` binds.
pub open spec fn callvalue_id(s: Seq<Statement>) -> ValueId {
    s[0]->Let_bindings@[0]
}

/// The canonical encoding of the two-statement prefix, ids renumbered from zero.
pub open spec fn callvalue_prefix_code(s: Seq<Statement>) -> Seq<u8> {
    let (st1, b1) = enc_statement(CanonState { ids: Map::empty(), next: 0 }, s[0]);
    b1 + enc_statement(st1, s[1]).1
}

/// Returns whether a statement list starts with the callvalue revert check.
#[verifier::loop_isolation(false)]
pub fn has_callvalue_revert_prefix(statements: &Vec<Statement>) -> (r: bool)
    ensures
        r == callvalue_check_prefix(statements@),
{
    if statements.len() < 2 {
        return false;
    }
    let cv_id = match &statements[0] {
        Statement::Let { bindings, value: Expression::CallValue } => {
            if bindings.len() == 1 {
                bindings[0]
            } else {
                return false;
            }
        },
        _ => return false,
    };
    match &statements[1] {
        Statement::If { condition, inputs, then_region, else_region, outputs } => {
            if condition.id != cv_id || inputs.len() != 0 || outputs.len() != 0 || else_region.is_some() {
                return false;
            }
            let mut i: usize = 0;
            while i < then_region.statements.len()
                invariant
                    i <= then_region.statements@.len(),
                    forall|k: int| 0 <= k < i ==> !(#[trigger] then_region.statements@[k] is Revert),
                decreases then_region.statements@.len() - i,
            {
                if let Statement::Revert { .. } = &then_region.statements[i] {
                    return true;
                }
                i = i + 1;
            }
            false
        },
        _ => false,
    }
}

/// The canonical encoding of the callvalue check prefix.
fn canonical_callvalue_prefix(statements: &Vec<Statement>) -> (r: Vec<u8>)
    requires
        statements@.len() >= 2,
    ensures
        r@ == callvalue_prefix_code(statements@),
{
    let mut canon = Canonicalizer::new();
    let mut buf: Vec<u8> = Vec::new();
    canon.encode_statement(&statements[0], &mut buf);
    canon.encode_statement(&statements[1], &mut buf);
    buf
}

fn bytes_equal(a: &Vec<u8>, b: &Vec<u8>) -> (r: bool)
    ensures
        r == (a@ == b@),
{
    if a.len() != b.len() {
        return false;
    }
    let mut i: usize = 0;
    while i < a.len()
        invariant
            a@.len() == b@.len(),
            i <= a@.len(),
            forall|k: int| 0 <= k < i ==> a@[k] == b@[k],
        decreases a@.len() - i,
    {
        if a[i] != b[i] {
            return false;
        }
        i = i + 1;
    }
    proof {
        assert(a@ =~= b@);
    }
    true
}

/// Whether every case and the default start with the same callvalue check, so
/// that one check above the switch can replace them all.
pub open spec fn fully_hoistable(cases: Seq<SwitchCase>, default: Option<Region>) -> bool {
    &&& cases.len() > 0
    &&& default is Some
    &&& forall|j: int| 0 <= j < cases.len() ==> callvalue_check_prefix(#[trigger] cases[j].body.statements@)
    &&& callvalue_check_prefix(default->0.statements@)
    &&& forall|j: int|
        0 <= j < cases.len() ==> callvalue_prefix_code(#[trigger] cases[j].body.statements@)
            == callvalue_prefix_code(cases[0].body.statements@)
    &&& callvalue_prefix_code(default->0.statements@) == callvalue_prefix_code(cases[0].body.statements@)
}

/// Returns whether the leading callvalue check can be hoisted above a switch:
/// every case and the default start with it, and all revert with the same data.
pub fn callvalue_check_fully_hoistable(cases: &Vec<SwitchCase>, default: &Option<Region>) -> (r: bool)
    ensures
        r == fully_hoistable(cases@, *default),
{
    if cases.len() == 0 {
        return false;
    }
    let d = match default {
        Some(d) => d,
        None => return false,
    };
    let mut j: usize = 0;
    while j < cases.len()
        invariant
            j <= cases@.len(),
            forall|k: int| 0 <= k < j ==> callvalue_check_prefix(#[trigger] cases@[k].body.statements@),
        decreases cases@.len() - j,
    {
        if !has_callvalue_revert_prefix(&cases[j].body.statements) {
            return false;
        }
        j = j + 1;
    }
    if !has_callvalue_revert_prefix(&d.statements) {
        return false;
    }
    let reference = canonical_callvalue_prefix(&cases[0].body.statements);
    let mut j: usize = 0;
    while j < cases.len()
        invariant
            j <= cases@.len(),
            forall|k: int| 0 <= k < cases@.len() ==> callvalue_check_prefix(#[trigger] cases@[k].body.statements@),
            reference@ == callvalue_prefix_code(cases@[0].body.statements@),
            forall|k: int|
                0 <= k < j ==> callvalue_prefix_code(#[trigger] cases@[k].body.statements@) == reference@,
        decreases cases@.len() - j,
    {
        let code = canonical_callvalue_prefix(&cases[j].body.statements);
        if !bytes_equal(&code, &reference) {
            return false;
        }
        j = j + 1;
    }
    let code = canonical_callvalue_prefix(&d.statements);
    bytes_equal(&code, &reference)
}

/// Returns the id bound by the leading `let v = callvalue()`.
pub fn callvalue_binding_id(statements: &Vec<Statement>) -> (r: ValueId)
    requires
        callvalue_check_prefix(statements@),
    ensures
        r == callvalue_id(statements@),
{
    match &statements[0] {
        Statement::Let { bindings, .. } => bindings[0],
        _ => ValueId(0),
    }
}

/// Drops the leading callvalue check and points the uses of its binding that
/// remain at `hoisted_cv`, the binding above the switch.
pub fn drain_callvalue_prefix(statements: &mut Vec<Statement>, hoisted_cv: ValueId)
    requires
        callvalue_check_prefix(old(statements)@),
    ensures
        callvalue_id(old(statements)@) == hoisted_cv ==> final(statements)@ == old(statements)@.subrange(
            2,
            old(statements)@.len() as int,
        ),
        callvalue_id(old(statements)@) != hoisted_cv ==> renamed_list(
            old(statements)@.subrange(2, old(statements)@.len() as int),
            final(statements)@,
            replace_id(callvalue_id(old(statements)@).0, hoisted_cv.0),
            0,
        ),
{
    let local_cv = callvalue_binding_id(statements);
    let mut taken: Vec<Statement> = Vec::new();
    std::mem::swap(&mut taken, statements);
    let ghost s0 = taken@;
    let mut rest: Vec<Statement> = Vec::new();
    let n = taken.len();
    let mut i: usize = n;
    while i > 2
        invariant
            2 <= i <= n,
            n == s0.len(),
            taken@ == s0.subrange(0, i as int),
            rest@ == s0.subrange(i as int, n as int).reverse(),
        decreases i,
    {
        let s = taken.pop().unwrap();
        rest.push(s);
        i = i - 1;
        proof {
            assert(rest@ =~= s0.subrange(i as int, n as int).reverse());
        }
    }
    let mut kept: Vec<Statement> = Vec::new();
    while rest.len() > 0
        invariant
            kept@ + rest@.reverse() == s0.subrange(2, n as int),
        decreases rest@.len(),
    {
        let s = rest.pop().unwrap();
        proof {
            assert(kept@.push(s) + rest@.reverse() =~= kept@ + (rest@.push(s)).reverse()) by {
                assert((rest@.push(s)).reverse() =~= seq![s] + rest@.reverse());
            }
        }
        kept.push(s);
    }
    proof {
        assert(kept@ =~= s0.subrange(2, n as int));
    }
    if local_cv.0 != hoisted_cv.0 {
        *statements = rename_statements(kept, local_cv, hoisted_cv);
    } else {
        *statements = kept;
    }
}

/// Whether a statement list starts with a single binding of `callvalue()`.
pub open spec fn starts_with_callvalue(s: Seq<Statement>) -> bool {
    &&& s.len() > 0
    &&& s[0] matches Statement::Let { bindings, value } && bindings@.len() == 1 && value is CallValue
}

/// Returns whether a statement list starts with `let v = callvalue()`.
pub fn starts_with_callvalue_let(statements: &Vec<Statement>) -> (r: bool)
    ensures
        r == starts_with_callvalue(statements@),
{
    if statements.len() == 0 {
        return false;
    }
    match &statements[0] {
        Statement::Let { bindings, value: Expression::CallValue } => bindings.len() == 1,
        _ => false,
    }
}

/// Turns a leading `let v = callvalue()` into `let v = replacement`.
pub fn replace_leading_callvalue_with_var(statements: &mut Vec<Statement>, replacement_id: ValueId)
    ensures
        final(statements)@.len() == old(statements)@.len(),
        starts_with_callvalue(old(statements)@) ==> (final(statements)@[0] matches Statement::Let {
            bindings,
            value,
        } && bindings == old(statements)@[0]->Let_bindings && value == Expression::Var(replacement_id)),
        forall|i: int|
            (if starts_with_callvalue(old(statements)@) {
                1int
            } else {
                0int
            }) <= i < old(statements)@.len() ==> #[trigger] final(statements)@[i] == old(statements)@[i],
{
    if starts_with_callvalue_let(statements) {
        let mut first = Statement::Stop;
        std::mem::swap(&mut first, &mut statements[0]);
        if let Statement::Let { bindings, .. } = first {
            statements.set(0, Statement::Let { bindings, value: Expression::Var(replacement_id) });
        }
    }
}

} // verus!
