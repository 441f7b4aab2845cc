//! Dead code elimination.
//!
//! Statements after an unconditional terminator are unreachable and go; then,
//! bottom-up, bindings whose ids nothing uses and whose values have no side
//! effect go, and so do expression statements without side effects, until
//! nothing more can go.

use crate::ir::{Expression, Region, Statement, SwitchCase, Value, ValueId};
use crate::operands::{add_ids, ids_in, ids_of, lemma_used_in_subset, used_ids, used_in};
use crate::outline::{expr_has_side_effects, has_side_effects, is_terminator, named_ids, terminates, zero_binding};
use crate::uint::Uint;
use crate::ir::{BitWidth, Type};
use std::collections::BTreeSet;
use vstd::prelude::*;

verus! {

/// No binding or expression statement of `s` can go: every binding without side
/// effects binds an id that is used, and every expression statement has a side
/// effect.
pub open spec fn dead_code_free(s: Seq<Statement>, extra: Set<u32>) -> bool {
    forall|i: int|
        0 <= i < s.len() ==> match #[trigger] s[i] {
            Statement::Let { bindings, value } => !has_side_effects(value) ==> exists|k: int|
                0 <= k < bindings@.len() && used_in(s, extra).contains(bindings@[k].0),
            Statement::Expression(e) => has_side_effects(e),
            _ => true,
        }
}

/// Whether a statement stays wherever it is reached: anything but a binding
/// or an expression statement without side effects.
pub open spec fn effectful(s: Statement) -> bool {
    match s {
        Statement::Let { value, .. } => has_side_effects(value),
        Statement::Expression(e) => has_side_effects(e),
        _ => true,
    }
}

/// Whether no statement before `s[i]` terminates.
pub open spec fn reached(s: Seq<Statement>, i: int) -> bool {
    forall|j: int| 0 <= j < i ==> !terminates(#[trigger] s[j])
}

/// `a` is `b`, but for what its nested regions hold.
pub open spec fn same_shape(a: Statement, b: Statement) -> bool {
    match b {
        Statement::If { condition, inputs, else_region, outputs, .. } => a matches Statement::If {
            condition: c2,
            inputs: i2,
            else_region: e2,
            outputs: o2,
            ..
        } && c2 == condition && i2 == inputs && o2 == outputs && (e2 is Some <==> else_region is Some),
        Statement::Switch { scrutinee, inputs, cases, default, outputs } => a matches Statement::Switch {
            scrutinee: s2,
            inputs: i2,
            cases: c2,
            default: d2,
            outputs: o2,
        } && s2 == scrutinee && i2 == inputs && o2 == outputs && c2@.len() == cases@.len() && (d2 is Some
            <==> default is Some),
        Statement::Block(_) => a is Block,
        _ => a == b,
    }
}

/// `after` is what eliminating dead code leaves of `before`, `extra` naming
/// ids to keep defined: it can lose nothing more; every statement with an
/// effect that is reached stays, its nested regions cleaned; and nothing comes
/// in but a zero binding of a value that code after a terminator bound.
pub open spec fn dead_code_cleaned(before: Seq<Statement>, after: Seq<Statement>, extra: Set<u32>) -> bool {
    &&& dead_code_free(after, extra)
    &&& forall|i: int|
        0 <= i < before.len() && reached(before, i) && effectful(#[trigger] before[i]) ==> exists|k: int|
            0 <= k < after.len() && same_shape(#[trigger] after[k], before[i])
    &&& forall|i: int|
        0 <= i < before.len() && reached(before, i) && !removable(#[trigger] before[i], used_in(after, extra))
            ==> exists|k: int| 0 <= k < after.len() && same_shape(#[trigger] after[k], before[i])
    &&& forall|k: int|
        0 <= k < after.len() ==> zero_binding(#[trigger] after[k]) || exists|i: int|
            0 <= i < before.len() && same_shape(after[k], #[trigger] before[i])
}

/// Whether a statement may go, given the ids in use.
pub open spec fn removable(s: Statement, used: Set<u32>) -> bool {
    match s {
        Statement::Let { bindings, value } => !has_side_effects(value) && forall|k: int|
            0 <= k < bindings@.len() ==> !used.contains(#[trigger] bindings@[k].0),
        Statement::Expression(e) => !has_side_effects(e),
        _ => false,
    }
}

fn is_removable(s: &Statement, used: &BTreeSet<u32>) -> (r: bool)
    ensures
        r == removable(*s, used@),
{
    match s {
        Statement::Let { bindings, value } => {
            if expr_has_side_effects(value) {
                return false;
            }
            let mut k: usize = 0;
            while k < bindings.len()
                invariant
                    *s matches Statement::Let { bindings: b, value: v } && b == *bindings && v == *value,
                    !has_side_effects(*value),
                    k <= bindings@.len(),
                    forall|q: int| 0 <= q < k ==> !used@.contains(#[trigger] bindings@[q].0),
                decreases bindings@.len() - k,
            {
                if used.contains(&bindings[k].0) {
                    proof {
                        assert(used@.contains(bindings@[k as int].0));
                    }
                    return false;
                }
                k = k + 1;
            }
            true
        },
        Statement::Expression(e) => !expr_has_side_effects(e),
        _ => false,
    }
}

/// The ids of a region's yields.
pub fn yields_as_used(yields: &Vec<Value>) -> (r: BTreeSet<u32>)
    ensures
        r@ == ids_of(yields@),
{
    let mut used = BTreeSet::new();
    add_ids(yields, &mut used);
    proof {
        assert(used@ =~= ids_of(yields@));
    }
    used
}

fn saturating(a: usize, b: usize) -> (r: usize)
    ensures
        r == if a + b <= usize::MAX {
            (a + b) as usize
        } else {
            usize::MAX
        },
{
    if a <= usize::MAX - b {
        a + b
    } else {
        usize::MAX
    }
}

/// The ids a statement binds, in order.
pub open spec fn defined_seq(s: Statement) -> Seq<ValueId> {
    match s {
        Statement::Let { bindings, .. } => bindings@,
        Statement::If { outputs, .. } => outputs@,
        Statement::Switch { outputs, .. } => outputs@,
        Statement::For { loop_variables, post_input_variables, outputs, .. } => loop_variables@
            + post_input_variables@ + outputs@,
        Statement::ExternalCall { result, .. } => seq![result],
        Statement::Create { result, .. } => seq![result],
        _ => Seq::empty(),
    }
}

/// The ids that the statements of `s` bind and `extra` names, in order.
pub open spec fn dropped_ids(s: Seq<Statement>, extra: Set<u32>) -> Seq<ValueId>
    decreases s.len(),
{
    if s.len() == 0 {
        Seq::empty()
    } else {
        dropped_ids(s.drop_last(), extra) + named_ids(defined_seq(s.last()), extra)
    }
}

/// `p` is the first terminator of `s`.
pub open spec fn first_terminator(s: Seq<Statement>, p: int) -> bool {
    0 <= p < s.len() && terminates(s[p]) && reached(s, p)
}

/// `out` is `s` cut after its first terminator, with the ids that the cut
/// statements bound and `extra` names bound to zero just before it, the last
/// first; `dropped` statements were cut. Without a terminator nothing changes.
#[verifier::opaque]
pub open spec fn truncated(s: Seq<Statement>, extra: Set<u32>, out: Seq<Statement>, dropped: int) -> bool {
    &&& (forall|i: int| 0 <= i < s.len() ==> !terminates(#[trigger] s[i])) ==> dropped == 0 && out == s
    &&& forall|p: int|
        #[trigger] first_terminator(s, p) ==> {
            let rescued = dropped_ids(s.subrange(p + 1, s.len() as int), extra);
            &&& dropped == s.len() - p - 1
            &&& out.len() == p + rescued.len() + 1
            &&& out.subrange(0, p) == s.subrange(0, p)
            &&& out[p + rescued.len()] == s[p]
            &&& forall|q: int|
                0 <= q < rescued.len() ==> crate::outline::zero_binding_of(
                    #[trigger] out[p + q],
                    rescued[rescued.len() - 1 - q],
                )
        }
}

/// The ids a statement binds, in order.
fn defined_list(s: &Statement) -> (r: Vec<ValueId>)
    ensures
        r@ == defined_seq(*s),
{
    let mut out: Vec<ValueId> = Vec::new();
    match s {
        Statement::Let { bindings, .. } => {
            for i in 0..bindings.len()
                invariant
                    out@ == bindings@.subrange(0, i as int),
            {
                out.push(bindings[i]);
                proof {
                    assert(out@ =~= bindings@.subrange(0, i + 1));
                }
            }
            proof {
                assert(out@ =~= bindings@);
            }
        },
        Statement::If { outputs, .. } | Statement::Switch { outputs, .. } => {
            for i in 0..outputs.len()
                invariant
                    out@ == outputs@.subrange(0, i as int),
            {
                out.push(outputs[i]);
                proof {
                    assert(out@ =~= outputs@.subrange(0, i + 1));
                }
            }
            proof {
                assert(out@ =~= outputs@);
            }
        },
        Statement::For { loop_variables, post_input_variables, outputs, .. } => {
            for i in 0..loop_variables.len()
                invariant
                    out@ == loop_variables@.subrange(0, i as int),
            {
                out.push(loop_variables[i]);
                proof {
                    assert(out@ =~= loop_variables@.subrange(0, i + 1));
                }
            }
            proof {
                assert(out@ =~= loop_variables@);
            }
            for i in 0..post_input_variables.len()
                invariant
                    out@ == loop_variables@ + post_input_variables@.subrange(0, i as int),
            {
                out.push(post_input_variables[i]);
                proof {
                    assert(out@ =~= loop_variables@ + post_input_variables@.subrange(0, i + 1));
                }
            }
            proof {
                assert(out@ =~= loop_variables@ + post_input_variables@);
            }
            for i in 0..outputs.len()
                invariant
                    out@ == loop_variables@ + post_input_variables@ + outputs@.subrange(0, i as int),
            {
                out.push(outputs[i]);
                proof {
                    assert(out@ =~= loop_variables@ + post_input_variables@ + outputs@.subrange(0, i + 1));
                }
            }
            proof {
                assert(out@ =~= loop_variables@ + post_input_variables@ + outputs@);
            }
        },
        Statement::ExternalCall { result, .. } | Statement::Create { result, .. } => {
            out.push(*result);
            proof {
                assert(out@ =~= seq![*result]);
            }
        },
        _ => {},
    }
    out
}

fn zero_binding_of(id: ValueId) -> (r: Statement)
    ensures
        crate::outline::zero_binding_of(r, id),
{
    let mut bindings: Vec<ValueId> = Vec::new();
    bindings.push(id);
    let r = Statement::Let {
        bindings,
        value: Expression::Literal { value: Uint::zero(), value_type: Type::Int(BitWidth::I256) },
    };
    proof {
        assert(r matches Statement::Let { bindings: b, .. } && b@ =~= seq![id]);
    }
    r
}

/// Drops what follows the first terminator. Values that `extra_used` names and
/// that the dropped statements bound are bound to zero just before the
/// terminator, the last dropped first: the path that would see them is
/// unreachable. Returns the number of statements dropped.
fn truncate_after_terminator(statements: &mut Vec<Statement>, extra_used: &BTreeSet<u32>) -> (r: usize)
    ensures
        truncated(old(statements)@, extra_used@, final(statements)@, r as int),
        forall|i: int|
            0 <= i < final(statements)@.len() ==> zero_binding(#[trigger] final(statements)@[i]) || old(
                statements,
            )@.contains(final(statements)@[i]),
        forall|i: int|
            0 <= i < old(statements)@.len() && reached(old(statements)@, i) ==> final(statements)@.contains(
                #[trigger] old(statements)@[i],
            ),
{
    let ghost s0 = statements@;
    let ghost extra = extra_used@;
    let mut i: usize = 0;
    while i < statements.len() && !is_terminator(&statements[i])
        invariant
            statements@ == s0,
            i <= statements@.len(),
            forall|j: int| 0 <= j < i ==> !terminates(#[trigger] s0[j]),
        decreases statements@.len() - i,
    {
        i = i + 1;
    }
    let pos: Option<usize> = if i < statements.len() {
        Some(i)
    } else {
        None
    };
    let p = match pos {
        Some(p) => p,
        None => {
            proof {
                assert forall|i: int| 0 <= i < statements@.len() implies s0.contains(#[trigger] statements@[i]) by {
                    assert(s0[i] == statements@[i]);
                }
                assert forall|i: int| 0 <= i < s0.len() && reached(s0, i) implies statements@.contains(
                    #[trigger] s0[i],
                ) by {
                    assert(statements@[i] == s0[i]);
                }
                assert forall|p: int| !first_terminator(s0, p) by {
                    if first_terminator(s0, p) {
                        assert(!terminates(s0[p]));
                    }
                }
                reveal(truncated);
            }
            return 0;
        },
    };
    proof {
        assert(first_terminator(s0, p as int));
        assert forall|i: int| 0 <= i < s0.len() && reached(s0, i) implies i <= p by {
            if i > p {
                assert(terminates(s0[p as int]));
            }
        }
        assert forall|p2: int| #[trigger] first_terminator(s0, p2) implies p2 == p by {
            if p2 < p {
                assert(!terminates(s0[p2]));
            } else if p2 > p {
                assert(terminates(s0[p as int]));
            }
        }
    }
    let unreachable = statements.len() - p - 1;
    if unreachable == 0 {
        proof {
            assert forall|i: int| 0 <= i < statements@.len() implies s0.contains(#[trigger] statements@[i]) by {
                assert(s0[i] == statements@[i]);
            }
            assert forall|i: int| 0 <= i < s0.len() && reached(s0, i) implies statements@.contains(
                #[trigger] s0[i],
            ) by {
                assert(statements@[i] == s0[i]);
            }
            assert(s0.subrange(p + 1, s0.len() as int).len() == 0);
            assert(dropped_ids(s0.subrange(p + 1, s0.len() as int), extra).len() == 0);
            assert(statements@.subrange(0, p as int) == s0.subrange(0, p as int));
            reveal(truncated);
        }
        return 0;
    }
    let mut rescued: Vec<ValueId> = Vec::new();
    let len = statements.len();
    proof {
        assert(s0.subrange(p + 1, p + 1).len() == 0);
        assert(rescued@ =~= dropped_ids(s0.subrange(p + 1, p + 1), extra));
    }
    for k in p + 1..len
        invariant
            statements@ == s0,
            len == s0.len(),
            p < len,
            extra == extra_used@,
            rescued@ == dropped_ids(s0.subrange(p + 1, k as int), extra),
    {
        proof {
            assert(s0.subrange(p + 1, k + 1).drop_last() =~= s0.subrange(p + 1, k as int));
            assert(s0.subrange(p + 1, k + 1).last() == s0[k as int]);
        }
        let ghost before = rescued@;
        let defs = defined_list(&statements[k]);
        proof {
            assert(before =~= before + named_ids(defs@.subrange(0, 0), extra));
        }
        for q in 0..defs.len()
            invariant
                extra == extra_used@,
                rescued@ == before + named_ids(defs@.subrange(0, q as int), extra),
        {
            proof {
                assert(defs@.subrange(0, q + 1).drop_last() =~= defs@.subrange(0, q as int));
                assert(defs@.subrange(0, q + 1).last() == defs@[q as int]);
            }
            if extra_used.contains(&defs[q].0) {
                rescued.push(defs[q]);
            }
            proof {
                assert(rescued@ =~= before + named_ids(defs@.subrange(0, q + 1), extra));
            }
        }
        proof {
            assert(defs@.subrange(0, defs@.len() as int) =~= defs@);
        }
    }
    proof {
        assert(s0.subrange(p + 1, len as int) == s0.subrange(p + 1, s0.len() as int));
    }
    statements.truncate(p + 1);
    proof {
        assert forall|i: int| 0 <= i < statements@.len() implies s0.contains(#[trigger] statements@[i]) by {
            assert(s0[i] == statements@[i]);
        }
        assert forall|i: int| 0 <= i <= p implies statements@.contains(#[trigger] s0[i]) by {
            assert(statements@[i] == s0[i]);
        }
    }
    for q in 0..rescued.len()
        invariant
            p < s0.len(),
            statements@.len() == p + q + 1,
            statements@.subrange(0, p as int) == s0.subrange(0, p as int),
            statements@[p + q] == s0[p as int],
            forall|t: int|
                0 <= t < q ==> crate::outline::zero_binding_of(#[trigger] statements@[p + t], rescued@[q - 1 - t]),
            forall|i: int|
                0 <= i < statements@.len() ==> zero_binding(#[trigger] statements@[i]) || s0.contains(statements@[i]),
            forall|i: int| 0 <= i <= p ==> statements@.contains(#[trigger] s0[i]),
    {
        let ghost before = statements@;
        statements.insert(p, zero_binding_of(rescued[q]));
        proof {
            assert(statements@.subrange(0, p as int) =~= before.subrange(0, p as int));
            assert forall|t: int| 0 <= t < q + 1 implies crate::outline::zero_binding_of(
                #[trigger] statements@[p + t],
                rescued@[q + 1 - 1 - t],
            ) by {
                if t > 0 {
                    assert(statements@[p + t] == before[p + (t - 1)]);
                }
            }
            assert forall|i: int| 0 <= i <= p implies statements@.contains(#[trigger] s0[i]) by {
                assert(before.contains(s0[i]));
                let j = choose|j: int| 0 <= j < before.len() && before[j] == s0[i];
                if j < p {
                    assert(statements@[j] == s0[i]);
                } else {
                    assert(statements@[j + 1] == s0[i]);
                }
            }
        }
    }
    proof {
        assert forall|i: int| 0 <= i < s0.len() && reached(s0, i) implies statements@.contains(#[trigger] s0[i]) by {
            assert(i <= p);
        }
        reveal(truncated);
    }
    unreachable
}

/// What survives the cleaning of a list: `s1` is the list cut after its first
/// terminator, `s2` is `s1` with its nested regions cleaned, `out` is what is
/// left of `s2`.
proof fn lemma_cleaned_keeps_effects(
    s_in: Seq<Statement>,
    s1: Seq<Statement>,
    s2: Seq<Statement>,
    out: Seq<Statement>,
    used: Set<u32>,
)
    requires
        forall|i: int| 0 <= i < s_in.len() && reached(s_in, i) ==> s1.contains(#[trigger] s_in[i]),
        forall|k: int| 0 <= k < s1.len() ==> zero_binding(#[trigger] s1[k]) || s_in.contains(s1[k]),
        s2.len() == s1.len(),
        forall|k: int| 0 <= k < s2.len() ==> same_shape(#[trigger] s2[k], s1[k]),
        forall|k: int| 0 <= k < s2.len() && effectful(#[trigger] s2[k]) ==> out.contains(s2[k]),
        forall|k: int| 0 <= k < out.len() ==> s2.contains(#[trigger] out[k]),
        forall|k: int| 0 <= k < s2.len() ==> out.contains(#[trigger] s2[k]) || removable(s2[k], used),
    ensures
        forall|i: int|
            0 <= i < s_in.len() && reached(s_in, i) && !removable(#[trigger] s_in[i], used) ==> exists|k: int|
                0 <= k < out.len() && same_shape(#[trigger] out[k], s_in[i]),
        forall|i: int|
            0 <= i < s_in.len() && reached(s_in, i) && effectful(#[trigger] s_in[i]) ==> exists|k: int|
                0 <= k < out.len() && same_shape(#[trigger] out[k], s_in[i]),
        forall|k: int|
            0 <= k < out.len() ==> zero_binding(#[trigger] out[k]) || exists|i: int|
                0 <= i < s_in.len() && same_shape(out[k], #[trigger] s_in[i]),
{
    assert forall|i: int|
        0 <= i < s_in.len() && reached(s_in, i) && effectful(#[trigger] s_in[i]) implies exists|k: int|
        0 <= k < out.len() && same_shape(#[trigger] out[k], s_in[i]) by {
        assert(s1.contains(s_in[i]));
        let q = choose|q: int| 0 <= q < s1.len() && s1[q] == s_in[i];
        assert(same_shape(s2[q], s1[q]));
        assert(effectful(s2[q]));
        assert(out.contains(s2[q]));
        let k = choose|k: int| 0 <= k < out.len() && out[k] == s2[q];
        assert(same_shape(out[k], s_in[i]));
    }
    assert forall|i: int|
        0 <= i < s_in.len() && reached(s_in, i) && !removable(#[trigger] s_in[i], used) implies exists|k: int|
        0 <= k < out.len() && same_shape(#[trigger] out[k], s_in[i]) by {
        assert(s1.contains(s_in[i]));
        let q = choose|q: int| 0 <= q < s1.len() && s1[q] == s_in[i];
        assert(same_shape(s2[q], s1[q]));
        assert(!removable(s2[q], used));
        assert(out.contains(s2[q]));
        let k = choose|k: int| 0 <= k < out.len() && out[k] == s2[q];
        assert(same_shape(out[k], s_in[i]));
    }
    assert forall|k: int| 0 <= k < out.len() implies zero_binding(#[trigger] out[k]) || exists|i: int|
        0 <= i < s_in.len() && same_shape(out[k], #[trigger] s_in[i]) by {
        assert(s2.contains(out[k]));
        let q = choose|q: int| 0 <= q < s2.len() && s2[q] == out[k];
        assert(same_shape(s2[q], s1[q]));
        if !zero_binding(s1[q]) {
            assert(s_in.contains(s1[q]));
            let i = choose|i: int| 0 <= i < s_in.len() && s_in[i] == s1[q];
            assert(same_shape(out[k], s_in[i]));
        }
    }
}

/// One pass of removal: drops the statements of `s` that may go given the
/// ids in use; returns what is left and whether anything went.
fn remove_dead_once(s: Vec<Statement>, used: &BTreeSet<u32>) -> (r: (Vec<Statement>, bool))
    ensures
        !r.1 ==> r.0@ == s@,
        r.1 ==> r.0@.len() < s@.len(),
        forall|k: int| 0 <= k < r.0@.len() ==> !removable(#[trigger] r.0@[k], used@),
        forall|k: int| 0 <= k < s@.len() && !removable(#[trigger] s@[k], used@) ==> r.0@.contains(s@[k]),
        forall|k: int| 0 <= k < r.0@.len() ==> s@.contains(#[trigger] r.0@[k]),
{
    let ghost s0 = s@;
    let mut rest = s;
    let mut kept: Vec<Statement> = Vec::new();
    let mut removed_any = false;
    let mut i: usize = 0;
    while i < rest.len()
        invariant
            rest@.len() == s0.len(),
            i <= s0.len(),
            kept@.len() <= i,
            forall|k: int| i <= k < s0.len() ==> #[trigger] rest@[k] == s0[k],
            !removed_any ==> kept@ == s0.subrange(0, i as int),
            removed_any ==> kept@.len() < i,
            forall|k: int| 0 <= k < kept@.len() ==> !removable(#[trigger] kept@[k], used@),
            forall|k: int| 0 <= k < i && !removable(#[trigger] s0[k], used@) ==> kept@.contains(s0[k]),
            forall|k: int| 0 <= k < kept@.len() ==> s0.contains(#[trigger] kept@[k]),
        decreases s0.len() - i,
    {
        let mut st = Statement::Stop;
        std::mem::swap(&mut st, &mut rest[i]);
        proof {
            assert(st == s0[i as int]);
        }
        let ghost kept0 = kept@;
        if is_removable(&st, used) {
            removed_any = true;
        } else {
            kept.push(st);
            proof {
                if !removed_any {
                    assert(kept@ =~= s0.subrange(0, i + 1));
                }
                assert(kept@[kept0.len() as int] == s0[i as int]);
                assert forall|k: int| 0 <= k < i + 1 && !removable(#[trigger] s0[k], used@) implies kept@.contains(
                    s0[k],
                ) by {
                    if k < i {
                        let w = choose|w: int| 0 <= w < kept0.len() && kept0[w] == s0[k];
                        assert(kept@[w] == s0[k]);
                    }
                }
            }
        }
        i = i + 1;
    }
    proof {
        if !removed_any {
            assert(kept@ =~= s0);
        }
    }
    (kept, removed_any)
}

/// Removes dead statements from a list until none is left, after truncating
/// unreachable code and cleaning nested regions; returns the list and how many
/// statements went.
#[verifier::loop_isolation(false)]
fn dce_statements(statements: Vec<Statement>, extra_used: &BTreeSet<u32>) -> (r: (Vec<Statement>, usize))
    ensures
        dead_code_free(r.0@, extra_used@),
        forall|i: int|
            0 <= i < statements@.len() && reached(statements@, i) && effectful(#[trigger] statements@[i])
                ==> exists|k: int| 0 <= k < r.0@.len() && same_shape(#[trigger] r.0@[k], statements@[i]),
        forall|k: int|
            0 <= k < r.0@.len() ==> zero_binding(#[trigger] r.0@[k]) || exists|i: int|
                0 <= i < statements@.len() && same_shape(r.0@[k], #[trigger] statements@[i]),
        forall|i: int|
            0 <= i < statements@.len() && reached(statements@, i) && !removable(
                #[trigger] statements@[i],
                used_in(r.0@, extra_used@),
            ) ==> exists|k: int| 0 <= k < r.0@.len() && same_shape(#[trigger] r.0@[k], statements@[i]),
    decreases statements@, 1int,
{
    let ghost s_in = statements@;
    let mut statements = statements;
    let mut total = truncate_after_terminator(&mut statements, extra_used);
    let ghost s1 = statements@;
    let n = statements.len();
    for i in 0..n
        invariant
            statements@.len() == n,
            n == s1.len(),
            forall|k: int| i <= k < n ==> #[trigger] statements@[k] == s1[k],
            forall|k: int| 0 <= k < n ==> zero_binding(#[trigger] s1[k]) || s_in.contains(s1[k]),
            forall|k: int| 0 <= k < i ==> same_shape(#[trigger] statements@[k], s1[k]),
    {
        let mut statement = Statement::Stop;
        std::mem::swap(&mut statement, &mut statements[i]);
        proof {
            assert(statement == s1[i as int]);
        }
        if let Statement::Let { .. } = &statement {
            statements.set(i, statement);
        } else {
            proof {
                assert(s_in.contains(statement));
                let w = choose|w: int| 0 <= w < s_in.len() && s_in[w] == statement;
                assert(decreases_to!(s_in => s_in[w]));
            }
            let (cleaned, removed) = dce_nested(statement, extra_used);
            statements.set(i, cleaned);
            total = saturating(total, removed);
        }
    }
    let ghost s2 = statements@;
    proof {
        assert forall|k: int| 0 <= k < s2.len() implies s2.contains(#[trigger] statements@[k]) by {}
    }
    loop
        invariant
            s2.len() == s1.len(),
            forall|k: int| 0 <= k < s2.len() ==> same_shape(#[trigger] s2[k], s1[k]),
            forall|k: int| 0 <= k < s2.len() && effectful(#[trigger] s2[k]) ==> statements@.contains(s2[k]),
            forall|k: int| 0 <= k < statements@.len() ==> s2.contains(#[trigger] statements@[k]),
            forall|k: int|
                0 <= k < s2.len() ==> statements@.contains(#[trigger] s2[k]) || removable(
                    s2[k],
                    used_in(statements@, extra_used@),
                ),
        decreases statements@.len(),
    {
        let used = used_ids(&statements, extra_used);
        let before = statements.len();
        let ghost s0 = statements@;
        let mut old_statements = Vec::new();
        std::mem::swap(&mut old_statements, &mut statements);
        let (kept, removed_any) = remove_dead_once(old_statements, &used);
        proof {
            assert forall|k: int| 0 <= k < s2.len() && effectful(#[trigger] s2[k]) implies kept@.contains(s2[k]) by {
                assert(s0.contains(s2[k]));
                let w = choose|w: int| 0 <= w < s0.len() && s0[w] == s2[k];
                assert(!removable(s0[w], used@));
            }
            assert forall|k: int| 0 <= k < kept@.len() implies s2.contains(#[trigger] kept@[k]) by {
                let w = choose|w: int| 0 <= w < s0.len() && s0[w] == kept@[k];
                assert(s2.contains(s0[w]));
            }
            lemma_used_in_subset(kept@, s0, extra_used@);
            assert forall|k: int| 0 <= k < s2.len() implies kept@.contains(#[trigger] s2[k]) || removable(
                s2[k],
                used_in(kept@, extra_used@),
            ) by {
                if s0.contains(s2[k]) {
                    let w = choose|w: int| 0 <= w < s0.len() && s0[w] == s2[k];
                    if !removable(s0[w], used@) {
                        assert(kept@.contains(s0[w]));
                    }
                }
            }
        }
        statements = kept;
        let removed = before - statements.len();
        total = saturating(total, removed);
        if !removed_any {
            proof {
                assert(statements@ =~= s0);
                assert(used@ == used_in(statements@, extra_used@));
                assert forall|k: int| 0 <= k < statements@.len() implies match #[trigger] statements@[k] {
                    Statement::Let { bindings, value } => !has_side_effects(value) ==> exists|q: int|
                        0 <= q < bindings@.len() && used_in(statements@, extra_used@).contains(bindings@[q].0),
                    Statement::Expression(e) => has_side_effects(e),
                    _ => true,
                } by {
                    assert(!removable(statements@[k], used@));
                }
            }
            break;
        }
    }
    proof {
        lemma_cleaned_keeps_effects(s_in, s1, s2, statements@, used_in(statements@, extra_used@));
    }
    (statements, total)
}

/// Cleans the regions nested in a statement; a block's region also keeps what
/// the enclosing scope must keep.
fn dce_nested(statement: Statement, parent_extra_used: &BTreeSet<u32>) -> (r: (Statement, usize))
    ensures
        same_shape(r.0, statement),
    decreases statement, 2int,
{
    match statement {
        Statement::If { condition, inputs, then_region, else_region, outputs } => {
            let (then_region, a) = dce_region(then_region, None);
            let (else_region, b) = match else_region {
                Some(r) => {
                    let (r2, n) = dce_region(r, None);
                    (Some(r2), n)
                },
                None => (None, 0),
            };
            (Statement::If { condition, inputs, then_region, else_region, outputs }, saturating(a, b))
        },
        Statement::Switch { scrutinee, inputs, cases, default, outputs } => {
            let (cases, a) = dce_cases(cases);
            let (default, b) = match default {
                Some(r) => {
                    let (r2, n) = dce_region(r, None);
                    (Some(r2), n)
                },
                None => (None, 0),
            };
            (Statement::Switch { scrutinee, inputs, cases, default, outputs }, saturating(a, b))
        },
        Statement::Block(region) => {
            let (region, n) = dce_region(region, Some(parent_extra_used));
            (Statement::Block(region), n)
        },
        other => (other, 0),
    }
}

/// Cleans a region, keeping what it yields and, for a block, what the
/// enclosing scope keeps.
fn dce_region(region: Region, parent_extra_used: Option<&BTreeSet<u32>>) -> (r: (Region, usize))
    ensures
        r.0.yields == region.yields,
    decreases region, 1int,
{
    let Region { statements, yields } = region;
    let mut extra = match parent_extra_used {
        Some(p) => p.clone(),
        None => BTreeSet::new(),
    };
    add_ids(&yields, &mut extra);
    let (statements, n) = dce_statements(statements, &extra);
    (Region { statements, yields }, n)
}

#[verifier::loop_isolation(false)]
fn dce_cases(cases: Vec<SwitchCase>) -> (r: (Vec<SwitchCase>, usize))
    ensures
        r.0@.len() == cases@.len(),
    decreases cases@, 1int,
{
    let ghost c1 = cases@;
    let mut cases = cases;
    let mut total: usize = 0;
    let n = cases.len();
    for j in 0..n
        invariant
            n == c1.len(),
            cases@.len() == n,
            forall|k: int| j <= k < n ==> #[trigger] cases@[k] == c1[k],
    {
        let mut case = SwitchCase { value: Uint::zero(), body: Region { statements: Vec::new(), yields: Vec::new() } };
        std::mem::swap(&mut case, &mut cases[j]);
        proof {
            assert(case == c1[j as int]);
        }
        let SwitchCase { value, body } = case;
        let (body, removed) = dce_region(body, None);
        cases.set(j, SwitchCase { value, body });
        total = saturating(total, removed);
    }
    (cases, total)
}

/// Eliminates dead code from a list of statements, nested regions first;
/// `extra_used` names ids that must stay defined though no statement uses
/// them (return values, what a region yields). Returns how many statements
/// went.
///
/// What is left can lose nothing more; every statement with an effect that
/// is reached stays, its nested regions cleaned; and nothing comes in but a
/// zero binding of a value that code after a terminator bound.
pub fn eliminate_dead_code_in_stmts(statements: &mut Vec<Statement>, extra_used: &BTreeSet<u32>) -> (r: usize)
    ensures
        dead_code_cleaned(old(statements)@, final(statements)@, extra_used@),
{
    let mut taken: Vec<Statement> = Vec::new();
    std::mem::swap(&mut taken, statements);
    let (cleaned, removed) = dce_statements(taken, extra_used);
    *statements = cleaned;
    removed
}

} // verus!
