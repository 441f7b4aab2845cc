//! What the simplifier makes of statements, lists, regions and switch cases.
//!
//! Each relation takes the knowledge and the next fresh id before and after,
//! so that a list is described statement by statement, each simplified with
//! what the ones before it taught.

use crate::callvalue::{callvalue_check_prefix, callvalue_id, fully_hoistable, starts_with_callvalue};
use crate::ir::{Expression, Region, Statement, SwitchCase, Value, ValueId};
use crate::operands::ids_of;
use crate::outline::{custom_collapsed, has_revert, panic_collapsed, window_view};
use crate::rename::{renamed_list, renamed_values, replace_id};
use crate::simplify::{let_simplified, resolved, resolved_value, resolver, simplified_expression, simplified_plain_statement, Knowledge};
use vstd::prelude::*;

verus! {

/// `out` is what collapsing the panic windows of `s` gives, with the known
/// constants `c` of the scope and the ids `extra` still in use after the
/// list: without a revert nothing changes.
pub open spec fn panic_outlined(c: Map<u32, nat>, extra: Set<u32>, s: Seq<Statement>, out: Seq<Statement>) -> bool {
    &&& !has_revert(s) ==> out == s
    &&& has_revert(s) ==> panic_collapsed(window_view(c, s), extra, s, out)
}

/// `out` is what collapsing the custom error windows of `s` gives, with the
/// known constants `c` of the scope: without a revert nothing changes.
pub open spec fn custom_outlined(c: Map<u32, nat>, s: Seq<Statement>, out: Seq<Statement>) -> bool {
    &&& !has_revert(s) ==> out == s
    &&& has_revert(s) ==> custom_collapsed(window_view(c, s), s, out)
}

/// The knowledge once a list with a scope of its own for constants and
/// copies is left: those of the outer scope come back.
pub open spec fn leave_statements(outer: Knowledge, inner: Knowledge) -> Knowledge {
    Knowledge { constants: outer.constants, copies: outer.copies, ..inner }
}

/// The knowledge once a region is left: the constants, copies and
/// environment reads of the outer scope come back.
pub open spec fn leave_region(outer: Knowledge, inner: Knowledge) -> Knowledge {
    Knowledge { constants: outer.constants, copies: outer.copies, env: outer.env, ..inner }
}

/// Names intermediate values when a relation is proved: the relations below
/// that go through intermediate states take this as their trigger.
pub open spec fn witness<A>(a: A) -> bool {
    true
}

/// `b` binds each output to the value at its position, for the positions
/// that both lists have.
pub open spec fn outputs_bound(outputs: Seq<ValueId>, values: Seq<Value>, b: Seq<Statement>) -> bool {
    &&& b.len() == if outputs.len() < values.len() {
        outputs.len()
    } else {
        values.len()
    }
    &&& forall|i: int|
        0 <= i < b.len() ==> (#[trigger] b[i] matches Statement::Let { bindings, value } && bindings@ == seq![
            outputs[i],
        ] && value == Expression::Var(values[i].id))
}

/// `r` is the statements of the region `t` followed by bindings of `outputs`
/// to what `t` yields.
pub open spec fn inlined_region(t: Region, outputs: Seq<ValueId>, r: Seq<Statement>) -> bool {
    &&& r.len() >= t.statements@.len()
    &&& r.subrange(0, t.statements@.len() as int) == t.statements@
    &&& outputs_bound(outputs, t.yields@, r.subrange(t.statements@.len() as int, r.len() as int))
}

/// The index of the first case from `j` on whose value is `c`.
pub open spec fn first_match(cs: Seq<SwitchCase>, c: nat, j: int) -> Option<int>
    decreases cs.len() - j,
{
    if j < 0 || j >= cs.len() {
        None
    } else if cs[j].value@ == c {
        Some(j)
    } else {
        first_match(cs, c, j + 1)
    }
}

pub proof fn lemma_first_match_in_range(cs: Seq<SwitchCase>, c: nat, j: int)
    ensures
        first_match(cs, c, j) matches Some(i) ==> 0 <= j <= i < cs.len() && cs[i].value@ == c,
    decreases cs.len() - j,
{
    if 0 <= j < cs.len() && cs[j].value@ != c {
        lemma_first_match_in_range(cs, c, j + 1);
    }
}

/// How many of the cases `cs[..n]` start with a binding of `callvalue()`.
pub open spec fn callvalue_leads(cs: Seq<SwitchCase>, n: int) -> nat
    decreases n,
{
    if n <= 0 || n > cs.len() {
        0
    } else {
        callvalue_leads(cs, n - 1) + if starts_with_callvalue(cs[n - 1].body.statements@) {
            1nat
        } else {
            0nat
        }
    }
}

/// `t` is `s` without its leading callvalue check, where it has one, the
/// remaining uses of the check's binding pointed at `h`.
pub open spec fn check_drained(s: Seq<Statement>, t: Seq<Statement>, h: ValueId) -> bool {
    if callvalue_check_prefix(s) {
        if callvalue_id(s) == h {
            t == s.subrange(2, s.len() as int)
        } else {
            renamed_list(s.subrange(2, s.len() as int), t, replace_id(callvalue_id(s).0, h.0), 0)
        }
    } else {
        t == s
    }
}

/// `t` is `s` with a leading `let v = callvalue()` turned into `let v = h`.
pub open spec fn read_replaced(s: Seq<Statement>, t: Seq<Statement>, h: ValueId) -> bool {
    &&& t.len() == s.len()
    &&& starts_with_callvalue(s) ==> (t[0] matches Statement::Let { bindings, value } && bindings
        == s[0]->Let_bindings && value == Expression::Var(h))
    &&& forall|i: int|
        (if starts_with_callvalue(s) {
            1int
        } else {
            0int
        }) <= i < s.len() ==> #[trigger] t[i] == s[i]
}

/// `c2` is the case `c`, but for its statements.
pub open spec fn case_changed(c: SwitchCase, c2: SwitchCase) -> bool {
    c2.value == c.value && c2.body.yields == c.body.yields
}

/// `r` is what hoisting the callvalue checks and reads of a switch gives,
/// from its simplified cases `cs` and default `d` and the next fresh id `n`
/// to the next fresh id `n2`: the hoisted statements, then the switch on
/// `scrutinee` with the inputs `inputs`.
pub open spec fn hoisted_switch(
    scrutinee: Value,
    inputs: Seq<Value>,
    outputs: Seq<ValueId>,
    cs: Seq<SwitchCase>,
    d: Option<Region>,
    n: u32,
    r: Seq<Statement>,
    n2: u32,
) -> bool {
    let sw = r[r.len() - 1];
    let fc = sw->Switch_cases@;
    let fd = sw->Switch_default;
    &&& r.len() >= 1
    &&& sw is Switch
    &&& sw->Switch_scrutinee == scrutinee
    &&& sw->Switch_inputs@ == inputs
    &&& sw->Switch_outputs@ == outputs
    &&& fc.len() == cs.len()
    &&& forall|j: int| 0 <= j < cs.len() ==> case_changed(cs[j], #[trigger] fc[j])
    &&& (fd is Some <==> d is Some)
    &&& (d matches Some(dd) ==> fd->0.yields == dd.yields)
    &&& if cs.len() > 0 && fully_hoistable(cs, d) {
        let first = cs[0].body.statements@;
        let h = callvalue_id(first);
        &&& r.len() == 3
        &&& r[0] == first[0]
        &&& r[1] == first[1]
        &&& n2 == n
        &&& fc[0].body.statements@ == first.subrange(2, first.len() as int)
        &&& forall|j: int|
            1 <= j < cs.len() ==> check_drained(cs[j].body.statements@, #[trigger] fc[j].body.statements@, h)
        &&& check_drained(d->0.statements@, fd->0.statements@, h)
    } else if cs.len() > 0 && callvalue_leads(cs, cs.len() as int) + (if d matches Some(dd)
        && starts_with_callvalue(dd.statements@) {
        1nat
    } else {
        0nat
    }) >= 3 && n < u32::MAX {
        let h = ValueId(n);
        &&& r.len() == 2
        &&& r[0] matches Statement::Let { bindings, value } && bindings@ == seq![h] && value is CallValue
        &&& n2 == n + 1
        &&& forall|j: int|
            0 <= j < cs.len() ==> read_replaced(cs[j].body.statements@, #[trigger] fc[j].body.statements@, h)
        &&& (d matches Some(dd) ==> read_replaced(dd.statements@, fd->0.statements@, h))
    } else {
        &&& r.len() == 1
        &&& n2 == n
        &&& forall|j: int| 0 <= j < cs.len() ==> #[trigger] fc[j] == cs[j]
        &&& fd == d
    }
}

/// `r` is what simplifying the list `s` within the current scope gives, from
/// knowledge `k` and next fresh id `n` to `k2` and `n2`: the statements
/// simplified one after another, each with what the ones before taught.
pub open spec fn list_simplified(k: Knowledge, n: u32, s: Seq<Statement>, r: Seq<Statement>, k2: Knowledge, n2: u32) -> bool
    decreases s, 1int,
{
    if s.len() == 0 {
        r.len() == 0 && k2 == k && n2 == n
    } else {
        exists|p: int, km: Knowledge, nm: u32|
            #![trigger witness((p, km, nm))]
            0 <= p <= r.len() && list_simplified(k, n, s.subrange(0, s.len() - 1), r.subrange(0, p), km, nm)
                && statement_simplified(km, nm, s[s.len() - 1], r.subrange(p, r.len() as int), k2, n2)
    }
}

/// `r` is what simplifying the list `s` in a scope of its own for constants
/// and copies gives, its panic and custom error windows collapsed.
pub open spec fn statements_simplified(
    k: Knowledge,
    n: u32,
    s: Seq<Statement>,
    r: Seq<Statement>,
    k2: Knowledge,
    n2: u32,
) -> bool
    decreases s, 2int,
{
    exists|mid: Seq<Statement>, mid2: Seq<Statement>, ki: Knowledge|
        #![trigger witness((mid, mid2, ki))]
        list_simplified(k, n, s, mid, ki, n2) && panic_outlined(ki.constants, Set::empty(), mid, mid2) && custom_outlined(ki.constants, mid2, r) && k2
            == leave_statements(k, ki)
}

/// `r` is what simplifying the region `a` in a scope of its own gives: its
/// statements simplified and their windows collapsed, its yields resolved.
pub open spec fn region_simplified(k: Knowledge, n: u32, a: Region, r: Region, k2: Knowledge, n2: u32) -> bool
    decreases a, 2int,
{
    exists|mid: Seq<Statement>, mid2: Seq<Statement>, ki: Knowledge|
        #![trigger witness((mid, mid2, ki))]
        list_simplified(k, n, a.statements@, mid, ki, n2) && r.yields@ == renamed_values(a.yields@, resolver(ki))
            && panic_outlined(ki.constants, ids_of(r.yields@), mid, mid2) && custom_outlined(ki.constants, mid2, r.statements@) && k2 == leave_region(k, ki)
}

/// `r` is what simplifying the bodies of the cases `cs`, one after another,
/// gives; the values stay.
pub open spec fn cases_simplified(
    k: Knowledge,
    n: u32,
    cs: Seq<SwitchCase>,
    r: Seq<SwitchCase>,
    k2: Knowledge,
    n2: u32,
) -> bool
    decreases cs, 1int,
{
    if cs.len() == 0 {
        r.len() == 0 && k2 == k && n2 == n
    } else {
        exists|km: Knowledge, nm: u32|
            #![trigger witness((km, nm))]
            r.len() == cs.len() && cases_simplified(
                k,
                n,
                cs.subrange(0, cs.len() - 1),
                r.subrange(0, r.len() - 1),
                km,
                nm,
            ) && r[r.len() - 1].value == cs[cs.len() - 1].value && region_simplified(
                km,
                nm,
                cs[cs.len() - 1].body,
                r[r.len() - 1].body,
                k2,
                n2,
            )
    }
}

/// `r` is what an `if` statement `s` whose condition is known to be
/// `is_true` becomes: the branch taken, its yields bound to the outputs; with
/// no else branch and a false condition, the outputs bound to the inputs.
pub open spec fn constant_if_simplified(
    k: Knowledge,
    n: u32,
    is_true: bool,
    s: Statement,
    r: Seq<Statement>,
    k2: Knowledge,
    n2: u32,
) -> bool
    decreases s, 4int,
{
    match s {
        Statement::If { inputs, then_region, else_region, outputs, .. } => if is_true {
            exists|t2: Region|
                #![trigger witness(t2)]
                region_simplified(k, n, then_region, t2, k2, n2) && inlined_region(t2, outputs@, r)
        } else {
            match else_region {
                Some(er) => exists|t2: Region|
                    #![trigger witness(t2)]
                    region_simplified(k, n, er, t2, k2, n2) && inlined_region(t2, outputs@, r),
                None => outputs_bound(outputs@, renamed_values(inputs@, resolver(k)), r) && k2 == k && n2 == n,
            }
        },
        _ => false,
    }
}

/// `r` is what a `switch` statement `s` whose scrutinee is known to be `c`
/// becomes: the first case with that value, or else the default, its yields
/// bound to the outputs; with neither, the outputs bound to the inputs.
pub open spec fn constant_switch_simplified(
    k: Knowledge,
    n: u32,
    c: nat,
    s: Statement,
    r: Seq<Statement>,
    k2: Knowledge,
    n2: u32,
) -> bool
    decreases s, 4int,
{
    match s {
        Statement::Switch { inputs, cases, default, outputs, .. } => match first_match(cases@, c, 0) {
            Some(j) => {
                proof {
                    lemma_first_match_in_range(cases@, c, 0);
                }
                exists|t2: Region|
                    #![trigger witness(t2)]
                    region_simplified(k, n, cases@[j].body, t2, k2, n2) && inlined_region(t2, outputs@, r)
            },
            None => match default {
                Some(d) => exists|t2: Region|
                    #![trigger witness(t2)]
                    region_simplified(k, n, d, t2, k2, n2) && inlined_region(t2, outputs@, r),
                None => outputs_bound(outputs@, renamed_values(inputs@, resolver(k)), r) && k2 == k && n2 == n,
            },
        },
        _ => false,
    }
}

/// `r` is what a `switch` statement `s` whose scrutinee resolves to the
/// unknown `scrutinee` becomes: its inputs resolved, its cases and default
/// simplified one after another, and its callvalue checks or reads hoisted
/// above it where they can be.
pub open spec fn switch_simplified(
    k: Knowledge,
    n: u32,
    scrutinee: Value,
    s: Statement,
    r: Seq<Statement>,
    k2: Knowledge,
    n2: u32,
) -> bool
    decreases s, 4int,
{
    match s {
        Statement::Switch { inputs, cases, default, outputs, .. } => exists|
            cs: Seq<SwitchCase>,
            kc: Knowledge,
            nc: u32,
            d: Option<Region>,
            nd: u32,
        |
            #![trigger witness((cs, kc, nc, d, nd))]
            cases_simplified(k, n, cases@, cs, kc, nc) && match default {
                Some(dr) => d matches Some(d2) && region_simplified(kc, nc, dr, d2, k2, nd),
                None => d is None && k2 == kc && nd == nc,
            } && hoisted_switch(scrutinee, renamed_values(inputs@, resolver(k)), outputs@, cs, d, nd, r, n2),
        _ => false,
    }
}

/// `r` is what simplifying the statement `s` gives, from knowledge `k` and
/// next fresh id `n` to `k2` and `n2`.
pub open spec fn statement_simplified(k: Knowledge, n: u32, s: Statement, r: Seq<Statement>, k2: Knowledge, n2: u32) -> bool
    decreases s, 5int,
{
    match s {
        Statement::Let { bindings, value } => let_simplified(k, n, bindings@, value, r, k2, n2),
        Statement::If { condition, inputs, then_region, else_region, outputs } => {
            let c = resolved_value(k, condition);
            let cid = resolved(k, c.id.0);
            if k.constants.contains_key(cid) {
                constant_if_simplified(k, n, k.constants[cid] != 0, s, r, k2, n2)
            } else {
                &&& r.len() == 1
                &&& r[0] is If
                &&& r[0]->If_condition == c
                &&& r[0]->If_inputs@ == renamed_values(inputs@, resolver(k))
                &&& r[0]->If_outputs == outputs
                &&& exists|k1: Knowledge, n1: u32|
                    #![trigger witness((k1, n1))]
                    region_simplified(k, n, then_region, r[0]->If_then_region, k1, n1) && match else_region {
                        Some(er) => r[0]->If_else_region matches Some(er2) && region_simplified(k1, n1, er, er2, k2, n2),
                        None => r[0]->If_else_region is None && k2 == k1 && n2 == n1,
                    }
            }
        },
        Statement::Switch { scrutinee, .. } => {
            let c = resolved_value(k, scrutinee);
            let cid = resolved(k, c.id.0);
            if k.constants.contains_key(cid) {
                constant_switch_simplified(k, n, k.constants[cid], s, r, k2, n2)
            } else {
                switch_simplified(k, n, c, s, r, k2, n2)
            }
        },
        Statement::For {
            initial_values,
            loop_variables,
            condition_statements,
            condition,
            body,
            post_input_variables,
            post,
            outputs,
        } => {
            &&& r.len() == 1
            &&& r[0] is For
            &&& r[0]->For_initial_values@ == renamed_values(initial_values@, resolver(k))
            &&& r[0]->For_loop_variables == loop_variables
            &&& r[0]->For_post_input_variables == post_input_variables
            &&& r[0]->For_outputs == outputs
            &&& exists|k1: Knowledge, n1: u32, kb: Knowledge, nb: u32, kp: Knowledge|
                #![trigger witness((k1, n1, kb, nb, kp))]
                statements_simplified(k, n, condition_statements@, r[0]->For_condition_statements@, k1, n1)
                    && simplified_expression(k1, condition, r[0]->For_condition) && region_simplified(
                    k1,
                    n1,
                    body,
                    r[0]->For_body,
                    kb,
                    nb,
                ) && region_simplified(kb, nb, post, r[0]->For_post, kp, n2) && k2 == leave_statements(k, kp)
        },
        Statement::Block(region) => {
            &&& r.len() == 1
            &&& r[0] is Block
            &&& region_simplified(k, n, region, r[0]->Block_0, k2, n2)
        },
        _ => simplified_plain_statement(k, s, r) && k2 == k && n2 == n,
    }
}

} // verus!
