//! Deduplication of functions that differ only in their literals.
//!
//! Functions with the same fuzzy form are grouped. Where a group's literals
//! differ at a few positions, the first function of the group takes one new
//! parameter per distinct pattern of differing values, its literals at those
//! positions become uses of the parameters, every call to a member of the
//! group calls it instead with that member's values as extra arguments, and
//! the other members go.

use crate::dedup::distinct_function_ids;
use crate::fuzzy::fuzzy_canonicalize_function;
use crate::fuzzy_plan::{
    bytes_lt, form_index, fuzzy_grouping, lemma_bytes_lt_irreflexive, lemma_bytes_lt_total,
    lemma_bytes_lt_transitive, lemma_form_index, lemma_grouping_forms_distinct, sorted_order,
    all_narrow, differing_positions, differs_at, first_group, group_max, grouped, index_from, index_of,
    lemma_first_group, lemma_index_from, members_compatible, members_literals, merge_decided, parameter_width,
    row_max, same_pattern_at, signature_matches,
};
use crate::ir::{
    width_bits, BitWidth, Block, Expression, Function, FunctionId, Object, Region, Statement, SwitchCase, Type, Value,
    ValueId,
};
use crate::literals::{
    collect_literals_ordered, list_literals, replace_literals_with_params, replaced_cases, replaced_expression, replaced_list,
    replaced_statement, words_view,
};
use crate::operands::{find_max_value_id, object_value_ids};
use crate::uint::{uint_eq, uint_lt, Uint};
use std::collections::BTreeMap;
use vstd::prelude::*;

verus! {

/// At most this many new parameters are added to a function.
pub const MAX_FUZZY_LITERAL_DIFFS: usize = 4;

/// Functions smaller than this many statements are not merged when a new
/// parameter is wider than 64 bits: wide arguments cost more at every call.
pub const MIN_FUZZY_DEDUP_SIZE: usize = 20;

/// Functions smaller than this many statements are not merged at all.
pub const MIN_FUZZY_DEDUP_SIZE_NARROW_PARAMS: usize = 10;

/// Whether an expression calls `f`.
pub open spec fn calls_function(e: Expression, f: FunctionId) -> bool {
    e matches Expression::Call { function, .. } && function == f
}

/// Whether a binding or expression statement calls `f`, at the top or inside a
/// region of `s` (a loop's condition expression is not looked at).
pub open spec fn statement_calls(s: Statement, f: FunctionId) -> bool
    decreases s, 1int,
{
    match s {
        Statement::Let { value, .. } => calls_function(value, f),
        Statement::Expression(e) => calls_function(e, f),
        Statement::If { then_region, else_region, .. } => list_calls(then_region.statements@, f, 0) || match else_region {
            Some(r) => list_calls(r.statements@, f, 0),
            None => false,
        },
        Statement::Switch { cases, default, .. } => cases_calls(cases@, f, 0) || match default {
            Some(r) => list_calls(r.statements@, f, 0),
            None => false,
        },
        Statement::For { condition_statements, body, post, .. } => list_calls(condition_statements@, f, 0)
            || list_calls(body.statements@, f, 0) || list_calls(post.statements@, f, 0),
        Statement::Block(r) => list_calls(r.statements@, f, 0),
        _ => false,
    }
}

/// Whether one of `ss[i..]` calls `f`.
pub open spec fn list_calls(ss: Seq<Statement>, f: FunctionId, i: int) -> bool
    decreases ss, ss.len() - i,
{
    if i < 0 || i >= ss.len() {
        false
    } else {
        statement_calls(ss[i], f) || list_calls(ss, f, i + 1)
    }
}

/// Whether the body of one of the cases `cs[j..]` calls `f`.
pub open spec fn cases_calls(cs: Seq<SwitchCase>, f: FunctionId, j: int) -> bool
    decreases cs, cs.len() - j,
{
    if j < 0 || j >= cs.len() {
        false
    } else {
        list_calls(cs[j].body.statements@, f, 0) || cases_calls(cs, f, j + 1)
    }
}

proof fn lemma_no_list_calls(ss: Seq<Statement>, f: FunctionId, i: int)
    requires
        0 <= i,
        forall|k: int| i <= k < ss.len() ==> !statement_calls(#[trigger] ss[k], f),
    ensures
        !list_calls(ss, f, i),
    decreases ss.len() - i,
{
    if i < ss.len() {
        lemma_no_list_calls(ss, f, i + 1);
    }
}

proof fn lemma_no_cases_calls(cs: Seq<SwitchCase>, f: FunctionId, j: int)
    requires
        0 <= j,
        forall|k: int| j <= k < cs.len() ==> !list_calls(#[trigger] cs[k].body.statements@, f, 0),
    ensures
        !cases_calls(cs, f, j),
    decreases cs.len() - j,
{
    if j < cs.len() {
        lemma_no_cases_calls(cs, f, j + 1);
    }
}

proof fn lemma_replaced_expression_calls(
    e: Expression,
    r: Expression,
    pos: Map<usize, ValueId>,
    c: nat,
    g: FunctionId,
)
    requires
        replaced_expression(e, r, pos, c),
    ensures
        calls_function(r, g) == calls_function(e, g),
{
}

/// Replacing literals neither adds nor removes a call.
proof fn lemma_replaced_statement_calls(s: Statement, r: Statement, pos: Map<usize, ValueId>, c: nat, g: FunctionId)
    requires
        replaced_statement(s, r, pos, c),
    ensures
        statement_calls(r, g) == statement_calls(s, g),
    decreases s, 1int,
{
    match s {
        Statement::Let { value, .. } => {
            if let Statement::Let { value: v2, .. } = r {
                lemma_replaced_expression_calls(value, v2, pos, c, g);
            }
        },
        Statement::Expression(e) => {
            if let Statement::Expression(e2) = r {
                lemma_replaced_expression_calls(e, e2, pos, c, g);
            }
        },
        Statement::If { then_region, else_region, .. } => {
            if let Statement::If { then_region: t2, else_region: e2, .. } = r {
                lemma_replaced_list_calls(then_region.statements@, t2.statements@, pos, c, 0, g);
                if let Some(er) = else_region {
                    if let Some(er2) = e2 {
                        lemma_replaced_list_calls(
                            er.statements@,
                            er2.statements@,
                            pos,
                            c + list_literals(then_region.statements@, 0).len(),
                            0,
                            g,
                        );
                    }
                }
            }
        },
        Statement::Switch { cases, default, .. } => {
            if let Statement::Switch { cases: c2, default: d2, .. } = r {
                lemma_replaced_cases_calls(cases@, c2@, pos, c, 0, g);
                if let Some(d) = default {
                    if let Some(dd) = d2 {
                        lemma_replaced_list_calls(
                            d.statements@,
                            dd.statements@,
                            pos,
                            c + crate::literals::cases_literals(cases@, 0).len(),
                            0,
                            g,
                        );
                    }
                }
            }
        },
        Statement::For { condition_statements, condition, body, post, .. } => {
            if let Statement::For { condition_statements: cs2, body: b2, post: p2, .. } = r {
                let c1 = c + list_literals(condition_statements@, 0).len();
                let c2 = c1 + crate::literals::expression_literals(condition).len();
                let c3 = c2 + list_literals(body.statements@, 0).len();
                lemma_replaced_list_calls(condition_statements@, cs2@, pos, c, 0, g);
                lemma_replaced_list_calls(body.statements@, b2.statements@, pos, c2, 0, g);
                lemma_replaced_list_calls(post.statements@, p2.statements@, pos, c3, 0, g);
            }
        },
        Statement::Block(region) => {
            if let Statement::Block(r2) = r {
                lemma_replaced_list_calls(region.statements@, r2.statements@, pos, c, 0, g);
            }
        },
        _ => {},
    }
}

proof fn lemma_replaced_list_calls(
    s: Seq<Statement>,
    r: Seq<Statement>,
    pos: Map<usize, ValueId>,
    c: nat,
    i: int,
    g: FunctionId,
)
    requires
        replaced_list(s, r, pos, c, i),
    ensures
        r.len() == s.len(),
        list_calls(r, g, i) == list_calls(s, g, i),
    decreases s, s.len() - i,
{
    if 0 <= i < s.len() {
        lemma_replaced_statement_calls(s[i], r[i], pos, c, g);
        lemma_replaced_list_calls(s, r, pos, c + crate::literals::statement_literals(s[i]).len(), i + 1, g);
    }
}

proof fn lemma_replaced_cases_calls(
    cs: Seq<SwitchCase>,
    r: Seq<SwitchCase>,
    pos: Map<usize, ValueId>,
    c: nat,
    j: int,
    g: FunctionId,
)
    requires
        replaced_cases(cs, r, pos, c, j),
    ensures
        r.len() == cs.len(),
        cases_calls(r, g, j) == cases_calls(cs, g, j),
    decreases cs, cs.len() - j,
{
    if 0 <= j < cs.len() {
        assert(crate::literals::replaced_region(cs[j].body, r[j].body, pos, c));
        lemma_replaced_list_calls(cs[j].body.statements@, r[j].body.statements@, pos, c, 0, g);
        lemma_replaced_cases_calls(
            cs,
            r,
            pos,
            c + list_literals(cs[j].body.statements@, 0).len(),
            j + 1,
            g,
        );
    }
}

/// The next id, wrapping around at the end of the range.
fn fresh_wrapping(next: &mut ValueId) -> (r: ValueId)
    ensures
        r == *old(next),
        final(next).0 == if old(next).0 == u32::MAX {
            0
        } else {
            old(next).0 + 1
        },
{
    let r = *next;
    next.0 = if next.0 == u32::MAX {
        0
    } else {
        next.0 + 1
    };
    r
}

/// Whether `s` is a binding or expression statement that calls `f`.
pub open spec fn calls_at_top(s: Statement, f: FunctionId) -> bool {
    ||| (s matches Statement::Let { value, .. } && calls_function(value, f))
    ||| (s matches Statement::Expression(e) && calls_function(e, f))
}

/// How many extra arguments a redirected call gets: one for each extra value
/// that has a type.
pub open spec fn extra_count(extra: Seq<nat>, types: Seq<Type>) -> int {
    if extra.len() < types.len() {
        extra.len() as int
    } else {
        types.len() as int
    }
}

/// Each `b[q]` binds the literal `extra[q]`, of type `types[q]`, to one id.
pub open spec fn literal_bindings(b: Seq<Statement>, extra: Seq<nat>, types: Seq<Type>) -> bool {
    forall|q: int|
        0 <= q < b.len() ==> (#[trigger] b[q] matches Statement::Let {
            bindings,
            value: Expression::Literal { value, value_type },
        } && bindings@.len() == 1 && value@ == extra[q] && value_type == types[q])
}

/// The values that the bindings `b` bind, typed by `types`.
pub open spec fn bound_values(b: Seq<Statement>, types: Seq<Type>) -> Seq<Value> {
    Seq::new(b.len(), |q: int| Value { id: b[q]->bindings@[0], value_type: types[q] })
}

/// `r` is the call statement `s` pointed at `new_id`, with `values` appended
/// to its arguments.
pub open spec fn retargeted_call(s: Statement, r: Statement, new_id: FunctionId, values: Seq<Value>) -> bool {
    match s {
        Statement::Let { bindings, value: Expression::Call { arguments, .. } } => r matches Statement::Let {
            bindings: b2,
            value: Expression::Call { function, arguments: a2 },
        } && b2@ == bindings@ && function == new_id && a2@ == arguments@ + values,
        Statement::Expression(Expression::Call { arguments, .. }) => r matches Statement::Expression(
            Expression::Call { function, arguments: a2 },
        ) && function == new_id && a2@ == arguments@ + values,
        _ => false,
    }
}

/// `r` is the list `s` with every binding or expression statement that calls
/// `old_id`, in `s` or in its regions, replaced by bindings of the extra
/// literals to new ids followed by the call pointed at `new_id` with those ids
/// appended to its arguments.
pub open spec fn rewritten_list(
    s: Seq<Statement>,
    r: Seq<Statement>,
    old_id: FunctionId,
    new_id: FunctionId,
    extra: Seq<nat>,
    types: Seq<Type>,
) -> bool
    decreases s, 0int,
{
    if s.len() == 0 {
        r.len() == 0
    } else {
        let last = s[s.len() - 1];
        let rest = s.subrange(0, s.len() - 1);
        if calls_at_top(last, old_id) {
            let start = r.len() - extra_count(extra, types) - 1;
            &&& start >= 0
            &&& literal_bindings(r.subrange(start, r.len() - 1), extra, types)
            &&& retargeted_call(last, r[r.len() - 1], new_id, bound_values(r.subrange(start, r.len() - 1), types))
            &&& rewritten_list(rest, r.subrange(0, start), old_id, new_id, extra, types)
        } else {
            &&& r.len() >= 1
            &&& rewritten_statement(last, r[r.len() - 1], old_id, new_id, extra, types)
            &&& rewritten_list(rest, r.subrange(0, r.len() - 1), old_id, new_id, extra, types)
        }
    }
}

/// The cases `r[j..]` are `cs[j..]` with their bodies rewritten as
/// [`rewritten_list`] says.
pub open spec fn rewritten_cases(
    cs: Seq<SwitchCase>,
    r: Seq<SwitchCase>,
    old_id: FunctionId,
    new_id: FunctionId,
    extra: Seq<nat>,
    types: Seq<Type>,
    j: int,
) -> bool
    decreases cs, cs.len() - j,
{
    if j < 0 || j >= cs.len() {
        r.len() == cs.len()
    } else {
        &&& r[j].value == cs[j].value
        &&& r[j].body.yields == cs[j].body.yields
        &&& rewritten_list(cs[j].body.statements@, r[j].body.statements@, old_id, new_id, extra, types)
        &&& rewritten_cases(cs, r, old_id, new_id, extra, types, j + 1)
    }
}

/// `r` is `s` with the regions it holds rewritten as [`rewritten_list`] says.
pub open spec fn rewritten_statement(
    s: Statement,
    r: Statement,
    old_id: FunctionId,
    new_id: FunctionId,
    extra: Seq<nat>,
    types: Seq<Type>,
) -> bool
    decreases s, 0int,
{
    match s {
        Statement::If { condition, inputs, then_region, else_region, outputs } => r matches Statement::If {
            condition: c2,
            inputs: i2,
            then_region: t2,
            else_region: e2,
            outputs: o2,
        } && c2 == condition && i2 == inputs && o2 == outputs && t2.yields == then_region.yields && rewritten_list(
            then_region.statements@,
            t2.statements@,
            old_id,
            new_id,
            extra,
            types,
        ) && match else_region {
            Some(er) => e2 matches Some(er2) && er2.yields == er.yields && rewritten_list(
                er.statements@,
                er2.statements@,
                old_id,
                new_id,
                extra,
                types,
            ),
            None => e2 is None,
        },
        Statement::Switch { scrutinee, inputs, cases, default, outputs } => r matches Statement::Switch {
            scrutinee: s2,
            inputs: i2,
            cases: c2,
            default: d2,
            outputs: o2,
        } && s2 == scrutinee && i2 == inputs && o2 == outputs && rewritten_cases(
            cases@,
            c2@,
            old_id,
            new_id,
            extra,
            types,
            0,
        ) && match default {
            Some(d) => d2 matches Some(dd) && dd.yields == d.yields && rewritten_list(
                d.statements@,
                dd.statements@,
                old_id,
                new_id,
                extra,
                types,
            ),
            None => d2 is None,
        },
        Statement::For {
            initial_values,
            loop_variables,
            condition_statements,
            condition,
            body,
            post_input_variables,
            post,
            outputs,
        } => r matches Statement::For {
            initial_values: iv2,
            loop_variables: lv2,
            condition_statements: cs2,
            condition: cond2,
            body: b2,
            post_input_variables: pv2,
            post: p2,
            outputs: o2,
        } && iv2 == initial_values && lv2 == loop_variables && cond2 == condition && pv2 == post_input_variables
            && o2 == outputs && b2.yields == body.yields && p2.yields == post.yields && rewritten_list(
            condition_statements@,
            cs2@,
            old_id,
            new_id,
            extra,
            types,
        ) && rewritten_list(body.statements@, b2.statements@, old_id, new_id, extra, types) && rewritten_list(
            post.statements@,
            p2.statements@,
            old_id,
            new_id,
            extra,
            types,
        ),
        Statement::Block(region) => r matches Statement::Block(r2) && r2.yields == region.yields && rewritten_list(
            region.statements@,
            r2.statements@,
            old_id,
            new_id,
            extra,
            types,
        ),
        _ => r == s,
    }
}

fn is_call_to(s: &Statement, f: FunctionId) -> (r: bool)
    ensures
        r == calls_at_top(*s, f),
{
    match s {
        Statement::Let { value: Expression::Call { function, .. }, .. } => function.0 == f.0,
        Statement::Expression(Expression::Call { function, .. }) => function.0 == f.0,
        _ => false,
    }
}

/// Points a call statement at `new_id` and appends the extra arguments.
fn retarget_call(s: Statement, old_id: FunctionId, new_id: FunctionId, extra: Vec<Value>) -> (r: Statement)
    requires
        calls_at_top(s, old_id),
    ensures
        retargeted_call(s, r, new_id, extra@),
{
    match s {
        Statement::Let { bindings, value: Expression::Call { arguments, .. } } => {
            let mut arguments = arguments;
            let mut extra = extra;
            let ghost a0 = arguments@;
            let ghost e0 = extra@;
            arguments.append(&mut extra);
            proof {
                assert(arguments@ == a0 + e0);
            }
            Statement::Let { bindings, value: Expression::Call { function: new_id, arguments } }
        },
        Statement::Expression(Expression::Call { arguments, .. }) => {
            let mut arguments = arguments;
            let mut extra = extra;
            let ghost a0 = arguments@;
            let ghost e0 = extra@;
            arguments.append(&mut extra);
            proof {
                assert(arguments@ == a0 + e0);
            }
            Statement::Expression(Expression::Call { function: new_id, arguments })
        },
        other => other,
    }
}

/// Rewrites the calls to `old_id` in statements and their regions into calls to
/// `new_id` with the extra arguments appended; each extra argument is bound to a
/// fresh id just before the call.
#[verifier::loop_isolation(false)]
fn rewrite_calls_list(
    statements: Vec<Statement>,
    old_id: FunctionId,
    new_id: FunctionId,
    extra_args: &Vec<Uint>,
    parameter_types: &Vec<Type>,
    next: &mut ValueId,
) -> (r: Vec<Statement>)
    ensures
        rewritten_list(statements@, r@, old_id, new_id, words_view(extra_args@), parameter_types@),
        forall|g: FunctionId|
            g != new_id && (g == old_id || !list_calls(statements@, g, 0)) ==> !#[trigger] list_calls(r@, g, 0),
    decreases statements@, 1int,
{
    let ghost s1 = statements@;
    let ghost ex = words_view(extra_args@);
    let ghost ty = parameter_types@;
    let mut statements = statements;
    let mut out: Vec<Statement> = Vec::new();
    let n = statements.len();
    proof {
        assert(s1.subrange(0, 0) =~= Seq::<Statement>::empty());
    }
    for i in 0..n
        invariant
            n == s1.len(),
            statements@.len() == n,
            forall|k: int| i <= k < n ==> #[trigger] statements@[k] == s1[k],
            forall|g: FunctionId, k: int|
                0 <= k < out@.len() && g != new_id && (g == old_id || !list_calls(s1, g, 0)) ==> !#[trigger] statement_calls(
                    out@[k],
                    g,
                ),
            rewritten_list(s1.subrange(0, i as int), out@, old_id, new_id, ex, ty),
    {
        let mut statement = Statement::Stop;
        std::mem::swap(&mut statement, &mut statements[i]);
        proof {
            assert(statement == s1[i as int]);
            assert forall|g: FunctionId| !list_calls(s1, g, 0) implies !statement_calls(s1[i as int], g) by {
                lemma_list_calls_element(s1, g, 0, i as int);
            }
        }
        let ghost o0 = out@;
        let ghost t = s1.subrange(0, i + 1);
        proof {
            assert(t[t.len() - 1] == s1[i as int]);
            assert(t.subrange(0, t.len() - 1) =~= s1.subrange(0, i as int));
        }
        let rewritten = rewrite_calls_statement(statement, old_id, new_id, extra_args, parameter_types, next);
        proof {
            assert(calls_at_top(rewritten, old_id) == calls_at_top(s1[i as int], old_id));
        }
        if is_call_to(&rewritten, old_id) {
            let mut extra_values: Vec<Value> = Vec::new();
            let m = if extra_args.len() < parameter_types.len() {
                extra_args.len()
            } else {
                parameter_types.len()
            };
            proof {
                assert(out@.subrange(o0.len() as int, out@.len() as int) =~= Seq::<Statement>::empty());
                assert(bound_values(out@.subrange(o0.len() as int, out@.len() as int), ty) =~= extra_values@);
            }
            for k in 0..m
                invariant
                    m <= extra_args@.len(),
                    m <= parameter_types@.len(),
                    m == extra_count(ex, ty),
                    forall|g: FunctionId, q: int|
                        0 <= q < out@.len() && g != new_id && (g == old_id || !list_calls(s1, g, 0))
                            ==> !#[trigger] statement_calls(out@[q], g),
                    out@.len() == o0.len() + k,
                    out@.subrange(0, o0.len() as int) == o0,
                    literal_bindings(out@.subrange(o0.len() as int, out@.len() as int), ex, ty),
                    extra_values@ == bound_values(out@.subrange(o0.len() as int, out@.len() as int), ty),
            {
                let ghost ob = out@;
                let vid = fresh_wrapping(next);
                let value_type = parameter_types[k];
                let mut bindings: Vec<ValueId> = Vec::new();
                bindings.push(vid);
                proof {
                    assert(bindings@ =~= seq![vid]);
                }
                let literal = extra_args[k].clone();
                out.push(Statement::Let { bindings, value: Expression::Literal { value: literal, value_type } });
                extra_values.push(Value { id: vid, value_type });
                proof {
                    let sub = out@.subrange(o0.len() as int, out@.len() as int);
                    assert(sub =~= ob.subrange(o0.len() as int, ob.len() as int).push(out@[out@.len() - 1]));
                    assert(out@.subrange(0, o0.len() as int) =~= ob.subrange(0, o0.len() as int));
                    assert(literal_bindings(sub, ex, ty)) by {
                        assert forall|q: int| 0 <= q < sub.len() implies (#[trigger] sub[q] matches Statement::Let {
                            bindings,
                            value: Expression::Literal { value, value_type },
                        } && bindings@.len() == 1 && value@ == ex[q] && value_type == ty[q]) by {
                            if q < sub.len() - 1 {
                                assert(sub[q] == ob.subrange(o0.len() as int, ob.len() as int)[q]);
                            }
                        }
                    }
                    assert(bound_values(sub, ty) =~= extra_values@) by {
                        assert forall|q: int| 0 <= q < sub.len() implies bound_values(sub, ty)[q] == extra_values@[q] by {
                            if q < sub.len() - 1 {
                                assert(sub[q] == ob.subrange(o0.len() as int, ob.len() as int)[q]);
                            }
                        }
                    }
                }
            }
            let ghost binds = out@.subrange(o0.len() as int, out@.len() as int);
            let retargeted = retarget_call(rewritten, old_id, new_id, extra_values);
            out.push(retargeted);
            proof {
                assert(rewritten == s1[i as int]);
                assert(out@.subrange(o0.len() as int, out@.len() - 1) =~= binds);
                assert(out@.subrange(0, o0.len() as int) =~= o0);
                assert(out@[out@.len() - 1] == retargeted);
                assert(rewritten_list(t, out@, old_id, new_id, ex, ty));
            }
        } else {
            out.push(rewritten);
            proof {
                assert(out@.subrange(0, out@.len() - 1) =~= o0);
                assert(rewritten_list(t, out@, old_id, new_id, ex, ty));
            }
        }
    }
    proof {
        assert(s1.subrange(0, n as int) =~= s1);
        assert forall|g: FunctionId|
            g != new_id && (g == old_id || !list_calls(s1, g, 0)) implies !#[trigger] list_calls(out@, g, 0) by {
            lemma_no_list_calls(out@, g, 0);
        }
    }
    out
}

proof fn lemma_list_calls_element(ss: Seq<Statement>, g: FunctionId, i: int, k: int)
    requires
        0 <= i <= k < ss.len(),
        !list_calls(ss, g, i),
    ensures
        !statement_calls(ss[k], g),
    decreases k - i,
{
    if i < k {
        lemma_list_calls_element(ss, g, i + 1, k);
    }
}

proof fn lemma_cases_calls_element(cs: Seq<SwitchCase>, g: FunctionId, j: int, k: int)
    requires
        0 <= j <= k < cs.len(),
        !cases_calls(cs, g, j),
    ensures
        !list_calls(cs[k].body.statements@, g, 0),
    decreases k - j,
{
    if j < k {
        lemma_cases_calls_element(cs, g, j + 1, k);
    }
}

#[verifier::loop_isolation(false)]
fn rewrite_calls_cases(
    cases: Vec<SwitchCase>,
    old_id: FunctionId,
    new_id: FunctionId,
    extra_args: &Vec<Uint>,
    parameter_types: &Vec<Type>,
    next: &mut ValueId,
) -> (r: Vec<SwitchCase>)
    ensures
        forall|g: FunctionId|
            g != new_id && (g == old_id || !cases_calls(cases@, g, 0)) ==> !#[trigger] cases_calls(r@, g, 0),
        rewritten_cases(cases@, r@, old_id, new_id, words_view(extra_args@), parameter_types@, 0),
    decreases cases@, 1int,
{
    let ghost c1 = cases@;
    let mut cases = cases;
    let n = cases.len();
    for j in 0..n
        invariant
            n == c1.len(),
            cases@.len() == n,
            forall|k: int| j <= k < n ==> #[trigger] cases@[k] == c1[k],
            forall|g: FunctionId, k: int|
                0 <= k < j && g != new_id && (g == old_id || !cases_calls(c1, g, 0)) ==> !#[trigger] list_calls(
                    cases@[k].body.statements@,
                    g,
                    0,
                ),
            forall|k: int|
                0 <= k < j ==> (#[trigger] cases@[k]).value == c1[k].value && cases@[k].body.yields == c1[k].body.yields
                    && rewritten_list(
                    c1[k].body.statements@,
                    cases@[k].body.statements@,
                    old_id,
                    new_id,
                    words_view(extra_args@),
                    parameter_types@,
                ),
    {
        let mut case = SwitchCase {
            value: Uint::zero(),
            body: Region { statements: Vec::new(), yields: Vec::new() },
        };
        std::mem::swap(&mut case, &mut cases[j]);
        proof {
            assert(case == c1[j as int]);
        }
        proof {
            assert forall|g: FunctionId| !cases_calls(c1, g, 0) implies !list_calls(
                c1[j as int].body.statements@,
                g,
                0,
            ) by {
                lemma_cases_calls_element(c1, g, 0, j as int);
            }
        }
        let SwitchCase { value, body } = case;
        let Region { statements, yields } = body;
        let statements = rewrite_calls_list(statements, old_id, new_id, extra_args, parameter_types, next);
        cases.set(j, SwitchCase { value, body: Region { statements, yields } });
    }
    proof {
        assert forall|g: FunctionId|
            g != new_id && (g == old_id || !cases_calls(c1, g, 0)) implies !#[trigger] cases_calls(cases@, g, 0) by {
            lemma_no_cases_calls(cases@, g, 0);
        }
        lemma_rewritten_cases(c1, cases@, old_id, new_id, words_view(extra_args@), parameter_types@, 0);
    }
    cases
}

proof fn lemma_rewritten_cases(
    cs: Seq<SwitchCase>,
    r: Seq<SwitchCase>,
    old_id: FunctionId,
    new_id: FunctionId,
    extra: Seq<nat>,
    types: Seq<Type>,
    j: int,
)
    requires
        0 <= j,
        r.len() == cs.len(),
        forall|k: int|
            j <= k < cs.len() ==> (#[trigger] r[k]).value == cs[k].value && r[k].body.yields == cs[k].body.yields
                && rewritten_list(cs[k].body.statements@, r[k].body.statements@, old_id, new_id, extra, types),
    ensures
        rewritten_cases(cs, r, old_id, new_id, extra, types, j),
    decreases cs.len() - j,
{
    if j < cs.len() {
        lemma_rewritten_cases(cs, r, old_id, new_id, extra, types, j + 1);
    }
}

fn rewrite_calls_region(
    region: Region,
    old_id: FunctionId,
    new_id: FunctionId,
    extra_args: &Vec<Uint>,
    parameter_types: &Vec<Type>,
    next: &mut ValueId,
) -> (r: Region)
    ensures
        forall|g: FunctionId|
            g != new_id && (g == old_id || !list_calls(region.statements@, g, 0)) ==> !#[trigger] list_calls(
                r.statements@,
                g,
                0,
            ),
        r.yields == region.yields,
        rewritten_list(region.statements@, r.statements@, old_id, new_id, words_view(extra_args@), parameter_types@),
    decreases region, 2int,
{
    let Region { statements, yields } = region;
    let statements = rewrite_calls_list(statements, old_id, new_id, extra_args, parameter_types, next);
    Region { statements, yields }
}

/// Rewrites the calls to `old_id` inside the regions of a statement; a binding
/// or expression statement is left for the caller.
fn rewrite_calls_statement(
    s: Statement,
    old_id: FunctionId,
    new_id: FunctionId,
    extra_args: &Vec<Uint>,
    parameter_types: &Vec<Type>,
    next: &mut ValueId,
) -> (r: Statement)
    ensures
        (s is Let || s is Expression) ==> r == s,
        !(s is Let || s is Expression) ==> forall|g: FunctionId|
            g != new_id && (g == old_id || !statement_calls(s, g)) ==> !#[trigger] statement_calls(r, g),
        rewritten_statement(s, r, old_id, new_id, words_view(extra_args@), parameter_types@),
    decreases s, 3int,
{
    let ghost s0 = s;
    match s {
        Statement::If { condition, inputs, then_region, else_region, outputs } => {
            let ghost t0 = then_region;
            let ghost e0 = else_region;
            let then_region = rewrite_calls_region(then_region, old_id, new_id, extra_args, parameter_types, next);
            let else_region = match else_region {
                Some(r) => Some(rewrite_calls_region(r, old_id, new_id, extra_args, parameter_types, next)),
                None => None,
            };
            let out = Statement::If { condition, inputs, then_region, else_region, outputs };
            proof {
                assert forall|g: FunctionId|
                    g != new_id && (g == old_id || !statement_calls(s0, g)) implies !#[trigger] statement_calls(out, g) by {
                    assert(statement_calls(s0, g) == (list_calls(t0.statements@, g, 0) || match e0 {
                        Some(er) => list_calls(er.statements@, g, 0),
                        None => false,
                    }));
                    assert(!list_calls(then_region.statements@, g, 0));
                    match e0 {
                        Some(er) => {
                            assert(!list_calls(else_region->0.statements@, g, 0));
                        },
                        None => {},
                    }
                }
            }
            out
        },
        Statement::Switch { scrutinee, inputs, cases, default, outputs } => {
            let ghost c0 = cases@;
            let ghost d0 = default;
            let cases = rewrite_calls_cases(cases, old_id, new_id, extra_args, parameter_types, next);
            let default = match default {
                Some(r) => Some(rewrite_calls_region(r, old_id, new_id, extra_args, parameter_types, next)),
                None => None,
            };
            let out = Statement::Switch { scrutinee, inputs, cases, default, outputs };
            proof {
                assert forall|g: FunctionId|
                    g != new_id && (g == old_id || !statement_calls(s0, g)) implies !#[trigger] statement_calls(out, g) by {
                    assert(statement_calls(s0, g) == (cases_calls(c0, g, 0) || match d0 {
                        Some(d) => list_calls(d.statements@, g, 0),
                        None => false,
                    }));
                    assert(!cases_calls(cases@, g, 0));
                    match d0 {
                        Some(d) => {
                            assert(!list_calls(default->0.statements@, g, 0));
                        },
                        None => {},
                    }
                }
            }
            out
        },
        Statement::For {
            initial_values,
            loop_variables,
            condition_statements,
            condition,
            body,
            post_input_variables,
            post,
            outputs,
        } => {
            let condition_statements = rewrite_calls_list(
                condition_statements,
                old_id,
                new_id,
                extra_args,
                parameter_types,
                next,
            );
            let body = rewrite_calls_region(body, old_id, new_id, extra_args, parameter_types, next);
            let post = rewrite_calls_region(post, old_id, new_id, extra_args, parameter_types, next);
            let out = Statement::For {
                initial_values,
                loop_variables,
                condition_statements,
                condition,
                body,
                post_input_variables,
                post,
                outputs,
            };
            proof {
                assert forall|g: FunctionId|
                    g != new_id && (g == old_id || !statement_calls(s0, g)) implies !#[trigger] statement_calls(out, g) by {
                    assert(!list_calls(out->For_condition_statements@, g, 0));
                    assert(!list_calls(out->For_body.statements@, g, 0));
                    assert(!list_calls(out->For_post.statements@, g, 0));
                }
            }
            out
        },
        Statement::Block(region) => {
            let region = rewrite_calls_region(region, old_id, new_id, extra_args, parameter_types, next);
            let out = Statement::Block(region);
            proof {
                assert forall|g: FunctionId|
                    g != new_id && (g == old_id || !statement_calls(s0, g)) implies !#[trigger] statement_calls(out, g) by {
                    assert(!list_calls(region.statements@, g, 0));
                }
            }
            out
        },
        other => other,
    }
}

/// Rewrites the calls to `old_id` in a block into calls to `new_id` with the
/// extra arguments, each bound to a fresh id from `next_value_id` just before
/// the call. Afterwards nothing calls `old_id` (unless it is `new_id`), and
/// no function but `new_id` is called that nothing called before.
pub fn update_call_sites_with_extra_args(
    block: &mut Block,
    old_id: FunctionId,
    new_id: FunctionId,
    extra_args: &Vec<Uint>,
    parameter_types: &Vec<Type>,
    next_value_id: &mut ValueId,
)
    ensures
        rewritten_list(
            old(block).statements@,
            final(block).statements@,
            old_id,
            new_id,
            words_view(extra_args@),
            parameter_types@,
        ),
        forall|g: FunctionId|
            g != new_id && (g == old_id || !list_calls(old(block).statements@, g, 0)) ==> !#[trigger] list_calls(
                final(block).statements@,
                g,
                0,
            ),
{
    let mut statements: Vec<Statement> = Vec::new();
    std::mem::swap(&mut statements, &mut block.statements);
    block.statements = rewrite_calls_list(statements, old_id, new_id, extra_args, parameter_types, next_value_id);
}

fn find_function(functions: &Vec<Function>, id: FunctionId) -> (r: Option<usize>)
    ensures
        r matches Some(i) ==> i < functions@.len() && functions@[i as int].id == id,
        match r {
            Some(i) => index_of(functions@, id) == Some(i as int),
            None => index_of(functions@, id) is None,
        },
{
    let mut i: usize = 0;
    while i < functions.len()
        invariant
            i <= functions@.len(),
            index_of(functions@, id) == index_from(functions@, id, i as int),
        decreases functions@.len() - i,
    {
        if functions[i].id.0 == id.0 {
            return Some(i);
        }
        i = i + 1;
    }
    None
}

fn bytes_equal(a: &Vec<u8>, b: &Vec<u8>) -> (r: bool)
    ensures
        r == (a@ == b@),
{
    if a.len() != b.len() {
        return false;
    }
    let mut i: usize = 0;
    while i < a.len()
        invariant
            a@.len() == b@.len(),
            i <= a@.len(),
            forall|k: int| 0 <= k < i ==> a@[k] == b@[k],
        decreases a@.len() - i,
    {
        if a[i] != b[i] {
            return false;
        }
        i = i + 1;
    }
    proof {
        assert(a@ =~= b@);
    }
    true
}

/// Whether `a` comes before `b` in lexicographic byte order.
fn bytes_before(a: &Vec<u8>, b: &Vec<u8>) -> (r: bool)
    ensures
        r == bytes_lt(a@, b@),
{
    let mut i: usize = 0;
    proof {
        assert(a@.subrange(0, a@.len() as int) =~= a@);
        assert(b@.subrange(0, b@.len() as int) =~= b@);
    }
    while i < a.len() && i < b.len()
        invariant
            i <= a@.len(),
            i <= b@.len(),
            bytes_lt(a@, b@) == bytes_lt(a@.subrange(i as int, a@.len() as int), b@.subrange(i as int, b@.len() as int)),
        decreases a@.len() - i,
    {
        let ghost sa = a@.subrange(i as int, a@.len() as int);
        let ghost sb = b@.subrange(i as int, b@.len() as int);
        proof {
            assert(sa[0] == a@[i as int]);
            assert(sb[0] == b@[i as int]);
        }
        if a[i] != b[i] {
            return a[i] < b[i];
        }
        proof {
            assert(sa.drop_first() =~= a@.subrange(i + 1, a@.len() as int));
            assert(sb.drop_first() =~= b@.subrange(i + 1, b@.len() as int));
        }
        i = i + 1;
    }
    a.len() < b.len()
}

fn copy_ids(ids: &Vec<FunctionId>) -> (r: Vec<FunctionId>)
    ensures
        r@ == ids@,
{
    let mut out: Vec<FunctionId> = Vec::new();
    for i in 0..ids.len()
        invariant
            out@ == ids@.take(i as int),
    {
        out.push(ids[i]);
        proof {
            assert(out@ =~= ids@.take(i + 1));
        }
    }
    proof {
        assert(out@ =~= ids@);
    }
    out
}

fn types_equal(a: &Vec<Type>, b: &Vec<Type>) -> (r: bool)
    ensures
        r == (a@ == b@),
{
    if a.len() != b.len() {
        return false;
    }
    let mut i: usize = 0;
    while i < a.len()
        invariant
            a@.len() == b@.len(),
            i <= a@.len(),
            forall|k: int| 0 <= k < i ==> a@[k] == b@[k],
        decreases a@.len() - i,
    {
        if a[i] != b[i] {
            return false;
        }
        i = i + 1;
    }
    proof {
        assert(a@ =~= b@);
    }
    true
}

/// Whether two functions take parameters of the same types and return the same types.
#[verifier::loop_isolation(false)]
fn signatures_match(f: &Function, g: &Function) -> (r: bool)
    ensures
        r == signature_matches(*f, *g),
{
    if f.parameters.len() != g.parameters.len() || !types_equal(&f.returns, &g.returns) {
        return false;
    }
    let mut i: usize = 0;
    while i < f.parameters.len()
        invariant
            f.parameters@.len() == g.parameters@.len(),
            f.returns@ == g.returns@,
            forall|q: int| 0 <= q < i ==> (#[trigger] f.parameters@[q]).1 == g.parameters@[q].1,
        decreases f.parameters@.len() - i,
    {
        if f.parameters[i].1 != g.parameters[i].1 {
            return false;
        }
        i = i + 1;
    }
    true
}

/// Whether one of `fs[..n]` has the id `id`.
pub open spec fn id_among(fs: Seq<Function>, n: int, id: FunctionId) -> bool {
    exists|j: int| 0 <= j < n && j < fs.len() && #[trigger] fs[j].id == id
}

/// Groups as forms and member lists.
pub open spec fn group_pairs_view(gs: Seq<(Vec<u8>, Vec<FunctionId>)>) -> Seq<(Seq<u8>, Seq<FunctionId>)> {
    Seq::new(gs.len(), |g: int| (gs[g].0@, gs[g].1@))
}

/// The groups of functions with the same fuzzy form, of at least the minimum
/// size, in order of first member; each with its form. Where the functions'
/// ids are distinct, no group repeats its first member.
#[verifier::loop_isolation(false)]
fn fuzzy_groups(functions: &Vec<Function>) -> (r: Vec<(Vec<u8>, Vec<FunctionId>)>)
    ensures
        group_pairs_view(r@) == fuzzy_grouping(
            functions@,
            functions@.len() as int,
            MIN_FUZZY_DEDUP_SIZE_NARROW_PARAMS as nat,
        ),
        distinct_function_ids(functions@) ==> forall|g: int, k: int|
            0 <= g < r@.len() && 1 <= k < r@[g].1@.len() ==> #[trigger] r@[g].1@[k] != r@[g].1@[0],
        forall|g1: int, g2: int| 0 <= g1 < g2 < r@.len() ==> #[trigger] r@[g1].0@ != #[trigger] r@[g2].0@,
{
    let mut groups: Vec<(Vec<u8>, Vec<FunctionId>)> = Vec::new();
    proof {
        assert(group_pairs_view(groups@) =~= fuzzy_grouping(functions@, 0, MIN_FUZZY_DEDUP_SIZE_NARROW_PARAMS as nat));
    }
    for i in 0..functions.len()
        invariant
            forall|g: int, k: int|
                0 <= g < groups@.len() && 0 <= k < groups@[g].1@.len() ==> id_among(
                    functions@,
                    i as int,
                    #[trigger] groups@[g].1@[k],
                ),
            distinct_function_ids(functions@) ==> forall|g: int, k: int|
                0 <= g < groups@.len() && 1 <= k < groups@[g].1@.len() ==> #[trigger] groups@[g].1@[k]
                    != groups@[g].1@[0],
            group_pairs_view(groups@) == fuzzy_grouping(functions@, i as int, MIN_FUZZY_DEDUP_SIZE_NARROW_PARAMS as nat),
    {
        let function = &functions[i];
        let ghost pv = group_pairs_view(groups@);
        if function.size_estimate >= MIN_FUZZY_DEDUP_SIZE_NARROW_PARAMS {
            let key = fuzzy_canonicalize_function(function);
            let mut found: Option<usize> = None;
            let mut g: usize = 0;
            while found.is_none() && g < groups.len()
                invariant
                    pv == group_pairs_view(groups@),
                    g <= groups@.len(),
                    found matches Some(f) ==> f < groups@.len() && form_index(pv, key@, 0) == Some(f as int),
                    found is None ==> form_index(pv, key@, 0) == form_index(pv, key@, g as int),
                decreases groups@.len() - g + if found is None {
                    1int
                } else {
                    0int
                },
            {
                if bytes_equal(&groups[g].0, &key) {
                    found = Some(g);
                } else {
                    g = g + 1;
                }
            }
            let ghost gs = groups@;
            match found {
                Some(g) => {
                    let mut entry = (Vec::new(), Vec::new());
                    std::mem::swap(&mut entry, &mut groups[g]);
                    proof {
                        assert(entry == gs[g as int]);
                    }
                    entry.1.push(function.id);
                    groups.set(g, entry);
                    proof {
                        assert(group_pairs_view(groups@) =~= pv.update(g as int, (pv[g as int].0, pv[g as int].1.push(function.id))));
                        assert forall|h: int, k: int|
                            0 <= h < groups@.len() && 0 <= k < groups@[h].1@.len() implies id_among(
                            functions@,
                            i + 1,
                            #[trigger] groups@[h].1@[k],
                        ) by {
                            if h == g && k == gs[h].1@.len() {
                                assert(functions@[i as int].id == groups@[h].1@[k]);
                            } else {
                                assert(groups@[h].1@[k] == gs[h].1@[k]);
                                assert(id_among(functions@, i as int, gs[h].1@[k]));
                            }
                        }
                        if distinct_function_ids(functions@) {
                            assert forall|h: int, k: int|
                                0 <= h < groups@.len() && 1 <= k < groups@[h].1@.len() implies #[trigger] groups@[h].1@[k]
                                != groups@[h].1@[0] by {
                                if h == g && k == gs[h].1@.len() {
                                    assert(id_among(functions@, i as int, gs[h].1@[0]));
                                    let j0 = choose|j: int|
                                        0 <= j < i && j < functions@.len() && #[trigger] functions@[j].id == gs[h].1@[0];
                                    assert(functions@[j0].id != functions@[i as int].id);
                                } else {
                                    assert(groups@[h].1@[k] == gs[h].1@[k]);
                                    assert(groups@[h].1@[0] == gs[h].1@[0]);
                                }
                            }
                        }
                    }
                },
                None => {
                    let mut members: Vec<FunctionId> = Vec::new();
                    members.push(function.id);
                    groups.push((key, members));
                    proof {
                        assert(group_pairs_view(groups@) =~= pv.push((key@, seq![function.id])));
                        assert forall|h: int, k: int|
                            0 <= h < groups@.len() && 0 <= k < groups@[h].1@.len() implies id_among(
                            functions@,
                            i + 1,
                            #[trigger] groups@[h].1@[k],
                        ) by {
                            if h == gs.len() {
                                assert(functions@[i as int].id == groups@[h].1@[k]);
                            } else {
                                assert(id_among(functions@, i as int, gs[h].1@[k]));
                            }
                        }
                    }
                },
            }
        }
    }
    proof {
        let n = functions@.len() as int;
        lemma_grouping_forms_distinct(functions@, n, MIN_FUZZY_DEDUP_SIZE_NARROW_PARAMS as nat);
        assert forall|g1: int, g2: int| 0 <= g1 < g2 < groups@.len() implies #[trigger] groups@[g1].0@
            != #[trigger] groups@[g2].0@ by {
            assert(group_pairs_view(groups@)[g1].0 == groups@[g1].0@);
            assert(group_pairs_view(groups@)[g2].0 == groups@[g2].0@);
        }
    }
    groups
}

/// The forms of the groups.
pub open spec fn group_forms(gs: Seq<(Vec<u8>, Vec<FunctionId>)>) -> Seq<Seq<u8>> {
    Seq::new(gs.len(), |g: int| gs[g].0@)
}

/// The order of the groups by their forms, smallest first.
#[verifier::loop_isolation(false)]
fn group_order(groups: &Vec<(Vec<u8>, Vec<FunctionId>)>) -> (r: Vec<usize>)
    requires
        forall|g1: int, g2: int|
            0 <= g1 < g2 < groups@.len() ==> #[trigger] groups@[g1].0@ != #[trigger] groups@[g2].0@,
    ensures
        forall|k: int| 0 <= k < r@.len() ==> r@[k] < groups@.len(),
        sorted_order(group_forms(groups@), r@),
{
    let ghost forms = group_forms(groups@);
    let mut order: Vec<usize> = Vec::new();
    for g in 0..groups.len()
        invariant
            forms == group_forms(groups@),
            order@.len() == g,
            forall|k: int| 0 <= k < order@.len() ==> #[trigger] order@[k] < g,
            forall|i: int, j: int| 0 <= i < j < order@.len() ==> order@[i] != order@[j],
            forall|i: int, j: int|
                0 <= i < j < order@.len() ==> bytes_lt(forms[#[trigger] order@[i] as int], forms[#[trigger] order@[j] as int]),
    {
        let mut pos = order.len();
        while pos > 0 && bytes_before(&groups[g].0, &groups[order[pos - 1]].0)
            invariant
                forms == group_forms(groups@),
                pos <= order@.len(),
                forall|k: int| 0 <= k < order@.len() ==> #[trigger] order@[k] < g,
                forall|q: int| pos <= q < order@.len() ==> bytes_lt(forms[g as int], forms[#[trigger] order@[q] as int]),
            decreases pos,
        {
            proof {
                assert(forms[g as int] == groups@[g as int].0@);
                assert(forms[order@[pos - 1] as int] == groups@[order@[pos - 1] as int].0@);
            }
            pos = pos - 1;
        }
        let ghost o0 = order@;
        proof {
            if pos > 0 {
                let p = pos - 1;
                let op = o0[p as int] as int;
                assert(forms[g as int] == groups@[g as int].0@);
                assert(forms[op] == groups@[op].0@);
                assert(!bytes_lt(forms[g as int], forms[op]));
                assert(groups@[op].0@ != groups@[g as int].0@);
                lemma_bytes_lt_total(forms[g as int], forms[op]);
                assert(bytes_lt(forms[op], forms[g as int]));
                assert forall|q: int| 0 <= q < pos implies bytes_lt(forms[#[trigger] o0[q] as int], forms[g as int]) by {
                    if q < p {
                        lemma_bytes_lt_transitive(forms[o0[q] as int], forms[op], forms[g as int]);
                    }
                }
            }
        }
        order.insert(pos, g);
        proof {
            let o1 = order@;
            assert forall|k: int| 0 <= k < o1.len() implies #[trigger] o1[k] == (if k < pos {
                o0[k]
            } else if k == pos {
                g
            } else {
                o0[k - 1]
            }) by {}
            assert forall|i: int, j: int| 0 <= i < j < o1.len() implies o1[i] != o1[j] by {
                if i == pos {
                    assert(o1[j] == o0[j - 1]);
                } else if j == pos {
                    assert(o1[i] == o0[i]);
                }
            }
            assert forall|i: int, j: int|
                0 <= i < j < o1.len() implies bytes_lt(forms[#[trigger] o1[i] as int], forms[#[trigger] o1[j] as int]) by {
                if i < pos && j < pos {
                    assert(o1[i] == o0[i] && o1[j] == o0[j]);
                } else if i < pos && j == pos {
                    assert(o1[i] == o0[i]);
                } else if i < pos && j > pos {
                    assert(o1[i] == o0[i] && o1[j] == o0[j - 1]);
                } else if i == pos {
                    assert(o1[j] == o0[j - 1]);
                } else {
                    assert(o1[i] == o0[i - 1] && o1[j] == o0[j - 1]);
                }
            }
        }
    }
    order
}

/// The largest of the values at `positions` in each member's literals.
#[verifier::loop_isolation(false)]
fn max_literal(group_literals: &Vec<Vec<Uint>>, positions: &Vec<usize>) -> (r: Uint)
    ensures
        r@ == group_max(lits_view(group_literals@), positions@, group_literals@.len() as int),
{
    let ghost ls = lits_view(group_literals@);
    let mut max = Uint::zero();
    for m in 0..group_literals.len()
        invariant
            ls == lits_view(group_literals@),
            max@ == group_max(ls, positions@, m as int),
    {
        let ghost before = max@;
        for p in 0..positions.len()
            invariant
                ls == lits_view(group_literals@),
                m < group_literals@.len(),
                before == group_max(ls, positions@, m as int),
                max@ == if before < row_max(ls[m as int], positions@, p as int) {
                    row_max(ls[m as int], positions@, p as int)
                } else {
                    before
                },
        {
            let pos = positions[p];
            proof {
                assert(ls[m as int] == words_view(group_literals@[m as int]@));
            }
            if pos < group_literals[m].len() {
                if uint_lt(&max, &group_literals[m][pos]) {
                    max = group_literals[m][pos].clone();
                }
            }
        }
    }
    max
}

/// Literal lists as numbers.
pub open spec fn lits_view(ls: Seq<Vec<Uint>>) -> Seq<Seq<nat>> {
    Seq::new(ls.len(), |m: int| words_view(ls[m]@))
}

/// The literal lists of a group's members, in member order.
#[verifier::loop_isolation(false)]
fn member_literals(functions: &Vec<Function>, members: &Vec<FunctionId>) -> (r: Option<Vec<Vec<Uint>>>)
    ensures
        r matches Some(ls) ==> ls@.len() == members@.len() && forall|m: int|
            0 <= m < ls@.len() ==> words_view(#[trigger] ls@[m]@).len() == ls@[m]@.len(),
        match r {
            Some(ls) => members_literals(functions@, members@) == Some(lits_view(ls@)),
            None => members_literals(functions@, members@) is None,
        },
{
    let mut out: Vec<Vec<Uint>> = Vec::new();
    for m in 0..members.len()
        invariant
            out@.len() == m,
            forall|q: int| 0 <= q < m ==> #[trigger] index_of(functions@, members@[q]) is Some,
            forall|q: int|
                0 <= q < m ==> words_view(#[trigger] out@[q]@) == list_literals(
                    functions@[index_of(functions@, members@[q])->0].body.statements@,
                    0,
                ),
    {
        match find_function(functions, members[m]) {
            Some(idx) => {
                out.push(collect_literals_ordered(&functions[idx].body.statements));
            },
            None => {
                proof {
                    assert(!(forall|q: int|
                        0 <= q < members@.len() ==> #[trigger] index_of(functions@, members@[q]) is Some));
                }
                return None;
            },
        }
    }
    proof {
        assert(lits_view(out@) =~= Seq::new(
            members@.len(),
            |q: int| list_literals(functions@[index_of(functions@, members@[q])->0].body.statements@, 0),
        ));
    }
    Some(out)
}

/// Whether every member holds at each position of `a` what it holds at `b`'s first.
#[verifier::loop_isolation(false)]
fn same_pattern(group_literals: &Vec<Vec<Uint>>, a: usize, b: usize) -> (r: bool)
    ensures
        r == same_pattern_at(lits_view(group_literals@), a as int, b as int),
{
    let ghost ls = lits_view(group_literals@);
    for m in 0..group_literals.len()
        invariant
            ls == lits_view(group_literals@),
            forall|q: int| 0 <= q < m ==> a < (#[trigger] ls[q]).len() && b < ls[q].len() && ls[q][a as int] == ls[q][b as int],
    {
        proof {
            assert(ls[m as int] == words_view(group_literals@[m as int]@));
        }
        if a >= group_literals[m].len() || b >= group_literals[m].len() {
            proof {
                assert(!(a < ls[m as int].len() && b < ls[m as int].len()));
            }
            return false;
        }
        if !uint_eq(&group_literals[m][a], &group_literals[m][b]) {
            proof {
                assert(ls[m as int][a as int] != ls[m as int][b as int]);
            }
            return false;
        }
    }
    true
}

/// The positions of each group, as numbers.
pub open spec fn groups_view(gs: Seq<Vec<usize>>) -> Seq<Seq<usize>> {
    Seq::new(gs.len(), |g: int| gs[g]@)
}

/// Whether a group of at least two members passes every check but the size
/// one: all are there, their literal lists have one length and differ
/// somewhere, in at most the allowed number of patterns, and they share a
/// signature.
pub open spec fn literal_groups_found(fs: Seq<Function>, members: Seq<FunctionId>) -> bool {
    &&& members.len() >= 2
    &&& members_literals(fs, members) matches Some(ls) && {
        let n = ls[0].len() as int;
        let ds = differing_positions(ls, n);
        &&& forall|m: int| 0 <= m < ls.len() ==> (#[trigger] ls[m]).len() == n
        &&& ds.len() > 0
        &&& grouped(ls, ds).len() <= MAX_FUZZY_LITERAL_DIFFS
        &&& members_compatible(fs, members)
    }
}

/// The members' literal lists and the groups of differing positions, where the
/// group passes every check but the size one.
#[verifier::loop_isolation(false)]
fn literal_groups(functions: &Vec<Function>, members: &Vec<FunctionId>) -> (r: Option<(Vec<Vec<Uint>>, Vec<Vec<usize>>)>)
    ensures
        r is Some == literal_groups_found(functions@, members@),
        r matches Some(p) ==> {
            let ls = lits_view(p.0@);
            &&& members_literals(functions@, members@) == Some(ls)
            &&& p.0@.len() == members@.len()
            &&& forall|m: int| 0 <= m < p.0@.len() ==> words_view(#[trigger] p.0@[m]@).len() == p.0@[m]@.len()
            &&& groups_view(p.1@) == grouped(ls, differing_positions(ls, ls[0].len() as int))
        },
{
    if members.len() < 2 {
        return None;
    }
    let group_literals = match member_literals(functions, members) {
        Some(ls) => ls,
        None => return None,
    };
    let ghost ls = lits_view(group_literals@);
    let nm = group_literals.len();
    let lit_count = group_literals[0].len();
    proof {
        assert(ls[0] == words_view(group_literals@[0]@));
    }
    let mut same_count = true;
    for m in 0..nm
        invariant
            nm == group_literals@.len(),
            ls == lits_view(group_literals@),
            same_count == forall|q: int| 0 <= q < m ==> (#[trigger] ls[q]).len() == lit_count,
    {
        proof {
            assert(ls[m as int] == words_view(group_literals@[m as int]@));
        }
        if group_literals[m].len() != lit_count {
            same_count = false;
        }
    }
    if !same_count {
        return None;
    }
    let mut differing: Vec<usize> = Vec::new();
    for pos in 0..lit_count
        invariant
            nm == group_literals@.len(),
            ls == lits_view(group_literals@),
            forall|q: int| 0 <= q < nm ==> (#[trigger] ls[q]).len() == lit_count,
            differing@ == differing_positions(ls, pos as int),
    {
        let mut differs = false;
        for m in 0..nm
            invariant
                nm == group_literals@.len(),
                ls == lits_view(group_literals@),
                pos < lit_count,
                forall|q: int| 0 <= q < nm ==> (#[trigger] ls[q]).len() == lit_count,
                differs == exists|q: int| 0 <= q < m && #[trigger] ls[q][pos as int] != ls[0][pos as int],
        {
            proof {
                assert(ls[m as int] == words_view(group_literals@[m as int]@));
                assert(ls[0] == words_view(group_literals@[0]@));
            }
            if pos < group_literals[m].len() && pos < group_literals[0].len() {
                if !uint_eq(&group_literals[m][pos], &group_literals[0][pos]) {
                    differs = true;
                    proof {
                        assert(ls[m as int][pos as int] != ls[0][pos as int]);
                    }
                } else {
                    proof {
                        assert(ls[m as int][pos as int] == ls[0][pos as int]);
                    }
                }
            }
        }
        let ghost before = differing@;
        if differs {
            differing.push(pos);
        }
        proof {
            assert(differs == differs_at(ls, pos as int));
            assert(differing@ =~= differing_positions(ls, pos + 1));
        }
    }
    if differing.len() == 0 {
        return None;
    }
    let ghost ds = differing@;
    let mut parameter_groups: Vec<Vec<usize>> = Vec::new();
    proof {
        assert(ds.subrange(0, 0) =~= Seq::<usize>::empty());
        assert(groups_view(parameter_groups@) =~= Seq::<Seq<usize>>::empty());
    }
    for d in 0..differing.len()
        invariant
            ds == differing@,
            ls == lits_view(group_literals@),
            groups_view(parameter_groups@) == grouped(ls, ds.subrange(0, d as int)),
    {
        let pos = differing[d];
        let ghost gs = groups_view(parameter_groups@);
        let mut found: Option<usize> = None;
        let mut g: usize = 0;
        while found.is_none() && g < parameter_groups.len()
            invariant
                gs == groups_view(parameter_groups@),
                ls == lits_view(group_literals@),
                g <= parameter_groups@.len(),
                found matches Some(f) ==> f < parameter_groups@.len() && first_group(gs, ls, pos, 0) == Some(f as int),
                found is None ==> first_group(gs, ls, pos, 0) == first_group(gs, ls, pos, g as int),
            decreases parameter_groups@.len() - g + if found is None {
                1int
            } else {
                0int
            },
        {
            proof {
                assert(gs[g as int] == parameter_groups@[g as int]@);
            }
            if parameter_groups[g].len() > 0 && same_pattern(&group_literals, pos, parameter_groups[g][0]) {
                found = Some(g);
            } else {
                g = g + 1;
            }
        }
        let ghost pg0 = parameter_groups@;
        match found {
            Some(g) => {
                let mut entry: Vec<usize> = Vec::new();
                std::mem::swap(&mut entry, &mut parameter_groups[g]);
                proof {
                    assert(entry@ == gs[g as int]);
                }
                entry.push(pos);
                parameter_groups.set(g, entry);
                proof {
                    assert(groups_view(parameter_groups@) =~= gs.update(g as int, gs[g as int].push(pos)));
                }
            },
            None => {
                let mut entry: Vec<usize> = Vec::new();
                entry.push(pos);
                parameter_groups.push(entry);
                proof {
                    assert(groups_view(parameter_groups@) =~= gs.push(seq![pos]));
                }
            },
        }
        proof {
            let t = ds.subrange(0, d + 1);
            assert(t.subrange(0, t.len() - 1) =~= ds.subrange(0, d as int));
            assert(t[t.len() - 1] == pos);
        }
    }
    proof {
        assert(ds.subrange(0, ds.len() as int) =~= ds);
    }
    if parameter_groups.len() > MAX_FUZZY_LITERAL_DIFFS {
        return None;
    }
    let canonical_index = match find_function(functions, members[0]) {
        Some(i) => i,
        None => return None,
    };
    let mut compatible = true;
    for m in 1..members.len()
        invariant
            index_of(functions@, members@[0]) == Some(canonical_index as int),
            canonical_index < functions@.len(),
            compatible == forall|q: int|
                1 <= q < m ==> #[trigger] index_of(functions@, members@[q]) is Some && signature_matches(
                    functions@[index_of(functions@, members@[q])->0],
                    functions@[index_of(functions@, members@[0])->0],
                ),
    {
        match find_function(functions, members[m]) {
            Some(idx) => {
                if !signatures_match(&functions[idx], &functions[canonical_index]) {
                    compatible = false;
                }
            },
            None => {
                compatible = false;
            },
        }
    }
    if !compatible {
        return None;
    }
    Some((group_literals, parameter_groups))
}

proof fn lemma_same_ids_index(a: Seq<Function>, b: Seq<Function>, id: FunctionId, i: int)
    requires
        same_ids(a, b),
        0 <= i,
    ensures
        index_from(a, id, i) == index_from(b, id, i),
    decreases a.len() - i,
{
    if i < a.len() {
        assert(a[i].id == b[i].id);
        lemma_same_ids_index(a, b, id, i + 1);
    }
}

/// Whether one of the functions `fs` has the id `id`.
pub open spec fn has_function(fs: Seq<Function>, id: FunctionId) -> bool {
    id_among(fs, fs.len() as int, id)
}

/// The functions `a` and `b` have the same ids at the same places.
pub open spec fn same_ids(a: Seq<Function>, b: Seq<Function>) -> bool {
    a.len() == b.len() && forall|i: int| 0 <= i < a.len() ==> #[trigger] a[i].id == b[i].id
}

/// No binding or expression statement of the code or of a function body
/// calls `g` (a loop's condition expression aside).
pub open spec fn object_free_of_calls(o: Object, g: FunctionId) -> bool {
    &&& !list_calls(o.code.statements@, g, 0)
    &&& forall|f: int| 0 <= f < o.functions@.len() ==> !#[trigger] list_calls(o.functions@[f].body.statements@, g, 0)
}

/// `g` is `f` but for its body.
pub open spec fn same_but_body(f: Function, g: Function) -> bool {
    &&& g.id == f.id
    &&& g.name == f.name
    &&& g.parameters == f.parameters
    &&& g.returns == f.returns
    &&& g.return_values_initial == f.return_values_initial
    &&& g.return_values == f.return_values
    &&& g.call_count == f.call_count
    &&& g.size_estimate == f.size_estimate
}

/// `b` is `a` with the calls to `old_id` in its code and in every function
/// body rewritten as [`rewritten_list`] says; nothing else changes.
pub open spec fn calls_rewritten(
    a: Object,
    b: Object,
    old_id: FunctionId,
    new_id: FunctionId,
    extra: Seq<nat>,
    types: Seq<Type>,
) -> bool {
    &&& b.name == a.name
    &&& b.subobjects == a.subobjects
    &&& b.data == a.data
    &&& rewritten_list(a.code.statements@, b.code.statements@, old_id, new_id, extra, types)
    &&& b.functions@.len() == a.functions@.len()
    &&& forall|f: int|
        0 <= f < a.functions@.len() ==> same_but_body(a.functions@[f], #[trigger] b.functions@[f]) && rewritten_list(
            a.functions@[f].body.statements@,
            b.functions@[f].body.statements@,
            old_id,
            new_id,
            extra,
            types,
        )
}

/// Rewrites every call to `old_id`, in the code and in every function body.
#[verifier::loop_isolation(false)]
fn rewrite_calls_everywhere(
    object: &mut Object,
    old_id: FunctionId,
    new_id: FunctionId,
    extra_args: &Vec<Uint>,
    parameter_types: &Vec<Type>,
    next_value_id: &mut ValueId,
)
    ensures
        calls_rewritten(*old(object), *final(object), old_id, new_id, words_view(extra_args@), parameter_types@),
        old_id != new_id ==> object_free_of_calls(*final(object), old_id),
        forall|g: FunctionId|
            g != new_id && object_free_of_calls(*old(object), g) ==> #[trigger] object_free_of_calls(*final(object), g),
{
    let ghost o0 = *object;
    let ghost ex = words_view(extra_args@);
    update_call_sites_with_extra_args(&mut object.code, old_id, new_id, extra_args, parameter_types, next_value_id);
    let nf = object.functions.len();
    for f in 0..nf
        invariant
            object.functions@.len() == nf,
            nf == o0.functions@.len(),
            object.name == o0.name,
            object.subobjects == o0.subobjects,
            object.data == o0.data,
            rewritten_list(o0.code.statements@, object.code.statements@, old_id, new_id, ex, parameter_types@),
            forall|g: FunctionId|
                g != new_id && (g == old_id || !list_calls(o0.code.statements@, g, 0)) ==> !#[trigger] list_calls(
                    object.code.statements@,
                    g,
                    0,
                ),
            forall|q: int| f <= q < nf ==> #[trigger] object.functions@[q] == o0.functions@[q],
            forall|q: int|
                0 <= q < f ==> same_but_body(o0.functions@[q], #[trigger] object.functions@[q]) && rewritten_list(
                    o0.functions@[q].body.statements@,
                    object.functions@[q].body.statements@,
                    old_id,
                    new_id,
                    ex,
                    parameter_types@,
                ),
            forall|g: FunctionId, q: int|
                0 <= q < f && g != new_id && (g == old_id || !list_calls(o0.functions@[q].body.statements@, g, 0))
                    ==> !#[trigger] list_calls(object.functions@[q].body.statements@, g, 0),
    {
        let mut function = Function {
            id: FunctionId(0),
            name: String::new(),
            parameters: Vec::new(),
            returns: Vec::new(),
            return_values_initial: Vec::new(),
            return_values: Vec::new(),
            body: Block { statements: Vec::new() },
            call_count: 0,
            size_estimate: 0,
        };
        let ghost before = object.functions@;
        std::mem::swap(&mut function, &mut object.functions[f]);
        proof {
            assert(function == o0.functions@[f as int]);
        }
        update_call_sites_with_extra_args(&mut function.body, old_id, new_id, extra_args, parameter_types, next_value_id);
        object.functions.set(f, function);
        proof {
            assert forall|q: int| 0 <= q < nf && q != f implies #[trigger] object.functions@[q] == before[q] by {}
        }
    }
    proof {
        assert forall|g: FunctionId|
            g != new_id && (g == old_id || object_free_of_calls(o0, g)) implies #[trigger] object_free_of_calls(
            *object,
            g,
        ) by {
            assert forall|q: int| 0 <= q < nf implies !#[trigger] list_calls(
                object.functions@[q].body.statements@,
                g,
                0,
            ) by {
                if g != old_id {
                    assert(!list_calls(o0.functions@[q].body.statements@, g, 0));
                }
            }
        }
    }
}

/// The functions `fs` once the members after the first of `members[..k]`
/// are removed one after another, the first function with each id.
pub open spec fn members_removed(fs: Seq<Function>, members: Seq<FunctionId>, k: int) -> Seq<Function>
    decreases k,
{
    if k <= 1 {
        fs
    } else {
        let prev = members_removed(fs, members, k - 1);
        match index_of(prev, members[k - 1]) {
            Some(i) => prev.remove(i),
            None => prev,
        }
    }
}

/// Removes the members after the first, the first function with each id;
/// returns how many went.
#[verifier::loop_isolation(false)]
fn remove_members(object: &mut Object, members: &Vec<FunctionId>) -> (r: usize)
    ensures
        final(object).name == old(object).name,
        final(object).subobjects == old(object).subobjects,
        final(object).data == old(object).data,
        final(object).code == old(object).code,
        final(object).functions@ == members_removed(old(object).functions@, members@, members@.len() as int),
        final(object).functions@.len() + r == old(object).functions@.len(),
        forall|i: int|
            0 <= i < final(object).functions@.len() ==> has_function(
                old(object).functions@,
                #[trigger] final(object).functions@[i].id,
            ),
        distinct_function_ids(old(object).functions@) ==> distinct_function_ids(final(object).functions@),
        distinct_function_ids(old(object).functions@) ==> forall|g: FunctionId|
            has_function(old(object).functions@, g) && !has_function(final(object).functions@, g) ==> exists|k: int|
                1 <= k < members@.len() && #[trigger] members@[k] == g,
        forall|g: FunctionId| object_free_of_calls(*old(object), g) ==> #[trigger] object_free_of_calls(*final(object), g),
        members@.len() >= 2 && index_of(old(object).functions@, members@[1]) is Some ==> r > 0,
{
    let ghost fs0 = object.functions@;
    let ghost obj0 = *object;
    let initial_len = object.functions.len();
    let mut total_removed: usize = 0;
    proof {
        assert forall|i: int| 0 <= i < object.functions@.len() implies has_function(
            fs0,
            #[trigger] object.functions@[i].id,
        ) by {
            assert(fs0[i].id == object.functions@[i].id);
        }
        assert forall|g: FunctionId| has_function(fs0, g) implies has_function(object.functions@, g) by {}
    }
    if members.len() < 2 {
        return 0;
    }
    for m in 1..members.len()
        invariant
            object.name == obj0.name,
            object.subobjects == obj0.subobjects,
            object.data == obj0.data,
            object.code == obj0.code,
            object.functions@ == members_removed(fs0, members@, m as int),
            object.functions@.len() + total_removed == fs0.len(),
            fs0.len() == initial_len,
            forall|g: FunctionId| object_free_of_calls(obj0, g) ==> #[trigger] object_free_of_calls(*object, g),
            forall|i: int| 0 <= i < object.functions@.len() ==> has_function(fs0, #[trigger] object.functions@[i].id),
            distinct_function_ids(fs0) ==> distinct_function_ids(object.functions@),
            distinct_function_ids(fs0) ==> forall|g: FunctionId|
                has_function(fs0, g) && !has_function(object.functions@, g) ==> exists|k: int|
                    1 <= k < m && #[trigger] members@[k] == g,
            total_removed == 0 ==> object.functions@ == fs0,
            m > 1 && index_of(fs0, members@[1]) is Some ==> total_removed > 0,
    {
        let ghost fs = object.functions@;
        let ghost obj_r = *object;
        match find_function(&object.functions, members[m]) {
            Some(idx) => {
                object.functions.remove(idx);
                proof {
                    let nfs = object.functions@;
                    assert(nfs == fs.remove(idx as int));
                    assert forall|i: int| 0 <= i < nfs.len() implies #[trigger] nfs[i] == (if i < idx {
                        fs[i]
                    } else {
                        fs[i + 1]
                    }) by {}
                    assert forall|g: FunctionId| object_free_of_calls(obj0, g) implies #[trigger] object_free_of_calls(
                        *object,
                        g,
                    ) by {
                        assert(object_free_of_calls(obj_r, g));
                        assert forall|f2: int| 0 <= f2 < nfs.len() implies !#[trigger] list_calls(
                            nfs[f2].body.statements@,
                            g,
                            0,
                        ) by {
                            if f2 < idx {
                                assert(!list_calls(obj_r.functions@[f2].body.statements@, g, 0));
                            } else {
                                assert(!list_calls(obj_r.functions@[f2 + 1].body.statements@, g, 0));
                            }
                        }
                    }
                    assert forall|i: int| 0 <= i < nfs.len() implies has_function(fs0, #[trigger] nfs[i].id) by {
                        if i < idx {
                            assert(has_function(fs0, fs[i].id));
                        } else {
                            assert(has_function(fs0, fs[i + 1].id));
                        }
                    }
                    if distinct_function_ids(fs0) {
                        assert forall|a: int, b: int| 0 <= a < b < nfs.len() implies nfs[a].id != nfs[b].id by {
                            let a2 = if a < idx {
                                a
                            } else {
                                a + 1
                            };
                            let b2 = if b < idx {
                                b
                            } else {
                                b + 1
                            };
                            assert(nfs[a] == fs[a2]);
                            assert(nfs[b] == fs[b2]);
                            assert(fs[a2].id != fs[b2].id);
                        }
                        assert forall|g: FunctionId| has_function(fs0, g) && !has_function(nfs, g) implies exists|k: int|
                            1 <= k < m + 1 && #[trigger] members@[k] == g by {
                            if has_function(fs, g) {
                                let i = choose|j: int| 0 <= j < fs.len() && j < fs.len() && #[trigger] fs[j].id == g;
                                if i < idx {
                                    assert(nfs[i] == fs[i]);
                                    assert(has_function(nfs, g));
                                } else if i > idx {
                                    assert(nfs[i - 1] == fs[i]);
                                    assert(has_function(nfs, g));
                                } else {
                                    assert(members@[m as int] == g);
                                }
                            } else {
                                let k = choose|k: int| 1 <= k < m && #[trigger] members@[k] == g;
                                assert(1 <= k < m + 1 && members@[k] == g);
                            }
                        }
                    }
                }
                total_removed = total_removed + 1;
            },
            None => {
                proof {
                    if m == 1 {
                        assert(total_removed == 0);
                    }
                }
            },
        }
    }
    total_removed
}

/// The fresh ids `n`, `n + 1`, and so on, `count` of them, wrapping around at
/// the end of the range.
pub open spec fn fresh_ids(n: u32, count: int) -> Seq<ValueId> {
    Seq::new(count as nat, |g: int| ValueId(((n as int + g) % 0x1_0000_0000) as u32))
}

/// The types of the new parameters, one per group of positions.
pub open spec fn parameter_types_of(ls: Seq<Seq<nat>>, gs: Seq<Seq<usize>>) -> Seq<Type> {
    Seq::new(gs.len(), |g: int| Type::Int(parameter_width(ls, gs[g])))
}

/// `m` with each of the positions `ps[..k]` mapped to `id`.
pub open spec fn map_positions(m: Map<usize, ValueId>, ps: Seq<usize>, id: ValueId, k: int) -> Map<usize, ValueId>
    decreases k,
{
    if k <= 0 {
        m
    } else {
        map_positions(m, ps, id, k - 1).insert(ps[k - 1], id)
    }
}

/// The positions of the groups `gs[..g]`, each mapped to its parameter's id.
pub open spec fn parameter_positions(gs: Seq<Seq<usize>>, ids: Seq<ValueId>, g: int) -> Map<usize, ValueId>
    decreases g,
{
    if g <= 0 {
        Map::empty()
    } else {
        map_positions(parameter_positions(gs, ids, g - 1), gs[g - 1], ids[g - 1], gs[g - 1].len() as int)
    }
}

/// The new parameters: each id with its type.
pub open spec fn new_parameters(ids: Seq<ValueId>, types: Seq<Type>) -> Seq<(ValueId, Type)> {
    Seq::new(ids.len(), |g: int| (ids[g], types[g]))
}

/// `f2` is `f` with the parameters `params` appended and its literals at the
/// positions that `pos` names replaced by them.
pub open spec fn parameterized(f: Function, f2: Function, params: Seq<(ValueId, Type)>, pos: Map<usize, ValueId>) -> bool {
    &&& f2.id == f.id
    &&& f2.name == f.name
    &&& f2.returns == f.returns
    &&& f2.return_values_initial == f.return_values_initial
    &&& f2.return_values == f.return_values
    &&& f2.call_count == f.call_count
    &&& f2.size_estimate == f.size_estimate
    &&& f2.parameters@ == f.parameters@ + params
    &&& replaced_list(f.body.statements@, f2.body.statements@, pos, 0, 0)
}

/// The literals that member `m` passes for the new parameters: its value at
/// the first position of each group.
pub open spec fn member_extra(ls: Seq<Seq<nat>>, gs: Seq<Seq<usize>>, m: int) -> Seq<nat> {
    Seq::new(
        gs.len(),
        |g: int|
            {
                let first = if gs[g].len() > 0 {
                    gs[g][0] as int
                } else {
                    0
                };
                if first < ls[m].len() {
                    ls[m][first]
                } else {
                    0
                }
            },
    )
}

/// `b` is `a` once the calls to `members[..k]` were rewritten, one member
/// after another, into calls to `new_id` with each member's literals.
pub open spec fn members_rewritten(
    a: Object,
    b: Object,
    members: Seq<FunctionId>,
    new_id: FunctionId,
    ls: Seq<Seq<nat>>,
    gs: Seq<Seq<usize>>,
    types: Seq<Type>,
    k: int,
) -> bool
    decreases k,
{
    if k <= 0 {
        b == a
    } else {
        exists|mid: Object|
            #![trigger crate::simplified::witness(mid)]
            members_rewritten(a, mid, members, new_id, ls, gs, types, k - 1) && calls_rewritten(
                mid,
                b,
                members[k - 1],
                new_id,
                member_extra(ls, gs, k - 1),
                types,
            )
    }
}

/// `b` is what merging the group `members` makes of `a`, `n` being the next
/// fresh id: the first member takes a new parameter per group of differing
/// positions, with fresh ids from `n`, in place of its literals there; every
/// call to a member, in the code and in every function, becomes a call to
/// the first member with that member's literals; and the other members go.
pub open spec fn merged(a: Object, n: u32, members: Seq<FunctionId>, b: Object) -> bool {
    let fs = a.functions@;
    let ls = members_literals(fs, members)->0;
    let gs = grouped(ls, differing_positions(ls, ls[0].len() as int));
    let ci = index_of(fs, members[0])->0;
    let ids = fresh_ids(n, gs.len() as int);
    let types = parameter_types_of(ls, gs);
    exists|f1: Function, o1: Object, o2: Object|
        #![trigger crate::simplified::witness((f1, o1, o2))]
        {
            &&& parameterized(fs[ci], f1, new_parameters(ids, types), parameter_positions(gs, ids, gs.len() as int))
            &&& o1.name == a.name
            &&& o1.subobjects == a.subobjects
            &&& o1.data == a.data
            &&& o1.code == a.code
            &&& o1.functions@ == fs.update(ci, f1)
            &&& members_rewritten(o1, o2, members, members[0], ls, gs, types, members.len() as int)
            &&& b.name == a.name
            &&& b.subobjects == a.subobjects
            &&& b.data == a.data
            &&& b.code == o2.code
            &&& b.functions@ == members_removed(o2.functions@, members, members.len() as int)
        }
}

/// The next fresh id after a group that is not merged was looked at: a
/// group that passes every check but the size one has taken its new
/// parameters' ids.
pub open spec fn next_after_plan(fs: Seq<Function>, n: u32, members: Seq<FunctionId>) -> u32 {
    if literal_groups_found(fs, members) {
        let ls = members_literals(fs, members)->0;
        let gs = grouped(ls, differing_positions(ls, ls[0].len() as int));
        ((n as int + gs.len()) % 0x1_0000_0000) as u32
    } else {
        n
    }
}

/// `b` is what merging the groups `groups[order[..k]]`, one after another,
/// makes of `a`, `n` being the next fresh id before and `n2` after; `r`
/// functions went. A group of fewer than two is passed over.
pub open spec fn fuzzy_merged(
    a: Object,
    n: u32,
    groups: Seq<Seq<FunctionId>>,
    order: Seq<usize>,
    k: int,
    b: Object,
    n2: u32,
    r: int,
) -> bool
    decreases k,
{
    if k <= 0 {
        b == a && n2 == n && r == 0
    } else {
        exists|mid: Object, nm: u32, rm: int|
            #![trigger crate::simplified::witness((mid, nm, rm))]
            fuzzy_merged(a, n, groups, order, k - 1, mid, nm, rm) && {
                let members = groups[order[k - 1] as int];
                if members.len() < 2 {
                    b == mid && n2 == nm && r == rm
                } else if merge_decided(
                    mid.functions@,
                    members,
                    MAX_FUZZY_LITERAL_DIFFS as nat,
                    MIN_FUZZY_DEDUP_SIZE_NARROW_PARAMS as nat,
                    MIN_FUZZY_DEDUP_SIZE as nat,
                ) {
                    merged(mid, nm, members, b) && r == rm + mid.functions@.len() - b.functions@.len()
                } else {
                    b == mid && n2 == next_after_plan(mid.functions@, nm, members) && r == rm
                }
            }
    }
}

proof fn lemma_wrap_next(x: int)
    requires
        0 <= x,
    ensures
        x % 0x1_0000_0000 == 0xffff_ffff ==> (x + 1) % 0x1_0000_0000 == 0,
        x % 0x1_0000_0000 < 0xffff_ffff ==> (x + 1) % 0x1_0000_0000 == x % 0x1_0000_0000 + 1,
{
}

/// Merges one group of functions with the same fuzzy form into its first
/// member, where [`merge_decided`] says so; returns how many functions went.
/// Once any went, nothing calls the other members any more; no function that
/// is not there is called afresh; and, where ids are distinct and the first
/// member is not repeated, every function that went is called nowhere.
#[verifier::loop_isolation(false)]
#[verifier::rlimit(60)]
fn merge_group(object: &mut Object, members: Vec<FunctionId>, next_value_id: &mut ValueId) -> (r: usize)
    ensures
        final(object).name == old(object).name,
        final(object).subobjects == old(object).subobjects,
        final(object).data == old(object).data,
        final(object).functions@.len() + r == old(object).functions@.len(),
        r > 0 ==> forall|k: int|
            1 <= k < members@.len() && members@[k] != members@[0] ==> object_free_of_calls(
                *final(object),
                #[trigger] members@[k],
            ),
        forall|g: FunctionId|
            !has_function(old(object).functions@, g) && object_free_of_calls(*old(object), g)
                ==> #[trigger] object_free_of_calls(*final(object), g),
        forall|i: int|
            0 <= i < final(object).functions@.len() ==> has_function(
                old(object).functions@,
                #[trigger] final(object).functions@[i].id,
            ),
        distinct_function_ids(old(object).functions@) ==> distinct_function_ids(final(object).functions@),
        distinct_function_ids(old(object).functions@) && (forall|k: int|
            1 <= k < members@.len() ==> #[trigger] members@[k] != members@[0]) ==> {
            forall|g: FunctionId|
                has_function(old(object).functions@, g) && !has_function(final(object).functions@, g)
                    ==> #[trigger] object_free_of_calls(*final(object), g)
        },
        (r > 0) == merge_decided(
            old(object).functions@,
            members@,
            MAX_FUZZY_LITERAL_DIFFS as nat,
            MIN_FUZZY_DEDUP_SIZE_NARROW_PARAMS as nat,
            MIN_FUZZY_DEDUP_SIZE as nat,
        ),
        !merge_decided(
            old(object).functions@,
            members@,
            MAX_FUZZY_LITERAL_DIFFS as nat,
            MIN_FUZZY_DEDUP_SIZE_NARROW_PARAMS as nat,
            MIN_FUZZY_DEDUP_SIZE as nat,
        ) ==> *final(object) == *old(object),
        merge_decided(
            old(object).functions@,
            members@,
            MAX_FUZZY_LITERAL_DIFFS as nat,
            MIN_FUZZY_DEDUP_SIZE_NARROW_PARAMS as nat,
            MIN_FUZZY_DEDUP_SIZE as nat,
        ) ==> merged(*old(object), old(next_value_id).0, members@, *final(object)),
        !merge_decided(
            old(object).functions@,
            members@,
            MAX_FUZZY_LITERAL_DIFFS as nat,
            MIN_FUZZY_DEDUP_SIZE_NARROW_PARAMS as nat,
            MIN_FUZZY_DEDUP_SIZE as nat,
        ) ==> final(next_value_id).0 == next_after_plan(old(object).functions@, old(next_value_id).0, members@),
{
    let ghost fs0 = object.functions@;
    let ghost obj0 = *object;
    let ghost n_start = next_value_id.0;
    if members.len() < 2 {
        return 0;
    }
    let (group_literals, parameter_groups) = match literal_groups(&object.functions, &members) {
        Some(p) => p,
        None => return 0,
    };
    let ghost ls = lits_view(group_literals@);
    let ghost gs = groups_view(parameter_groups@);
    let unique_param_count = parameter_groups.len();
    let canonical_id = members[0];
    let canonical_index = match find_function(&object.functions, canonical_id) {
        Some(i) => i,
        None => {
            proof {
                assert(index_of(fs0, members@[0]) is Some);
            }
            return 0;
        },
    };
    let mut new_parameter_ids: Vec<ValueId> = Vec::new();
    proof {
        assert(new_parameter_ids@ =~= fresh_ids(n_start, 0));
        assert(n_start as int % 0x1_0000_0000 == n_start as int);
    }
    for g in 0..unique_param_count
        invariant
            new_parameter_ids@ == fresh_ids(n_start, g as int),
            next_value_id.0 as int == (n_start as int + g) % 0x1_0000_0000,
    {
        proof {
            lemma_wrap_next(n_start as int + g);
        }
        new_parameter_ids.push(fresh_wrapping(next_value_id));
        proof {
            assert(new_parameter_ids@ =~= fresh_ids(n_start, g + 1));
        }
    }
    let ghost ids = new_parameter_ids@;
    let mut positions: BTreeMap<usize, ValueId> = BTreeMap::new();
    let mut parameter_types: Vec<Type> = Vec::new();
    let mut all_narrow = true;
    proof {
        assert(positions@ =~= parameter_positions(gs, ids, 0));
    }
    for g in 0..unique_param_count
        invariant
            new_parameter_ids@ == ids,
            ids.len() == unique_param_count,
            parameter_groups@.len() == unique_param_count,
            parameter_types@.len() == g,
            ls == lits_view(group_literals@),
            gs == groups_view(parameter_groups@),
            all_narrow == forall|q: int| 0 <= q < g ==> width_bits(parameter_width(ls, #[trigger] gs[q])) <= 64,
            forall|q: int| 0 <= q < g ==> #[trigger] parameter_types@[q] == Type::Int(parameter_width(ls, gs[q])),
            positions@ == parameter_positions(gs, ids, g as int),
    {
        let ghost before = positions@;
        proof {
            assert(gs[g as int] == parameter_groups@[g as int]@);
        }
        for p in 0..parameter_groups[g].len()
            invariant
                new_parameter_ids@ == ids,
                ids.len() == unique_param_count,
                parameter_groups@.len() == unique_param_count,
                g < unique_param_count,
                gs == groups_view(parameter_groups@),
                gs[g as int] == parameter_groups@[g as int]@,
                positions@ == map_positions(before, gs[g as int], ids[g as int], p as int),
        {
            positions.insert(parameter_groups[g][p], new_parameter_ids[g]);
        }
        let max_value = max_literal(&group_literals, &parameter_groups[g]);
        let width = BitWidth::from_max_value(&max_value);
        proof {
            assert(width == parameter_width(ls, gs[g as int]));
        }
        if width.bits() > 64 {
            all_narrow = false;
        }
        parameter_types.push(Type::Int(width));
    }
    proof {
        assert(parameter_types@ =~= parameter_types_of(ls, gs));
    }
    let effective_min_size = if all_narrow {
        MIN_FUZZY_DEDUP_SIZE_NARROW_PARAMS
    } else {
        MIN_FUZZY_DEDUP_SIZE
    };
    if object.functions[canonical_index].size_estimate < effective_min_size {
        return 0;
    }
    let mut canonical = Function {
        id: FunctionId(0),
        name: String::new(),
        parameters: Vec::new(),
        returns: Vec::new(),
        return_values_initial: Vec::new(),
        return_values: Vec::new(),
        body: Block { statements: Vec::new() },
        call_count: 0,
        size_estimate: 0,
    };
    std::mem::swap(&mut canonical, &mut object.functions[canonical_index]);
    let ghost f0 = canonical;
    proof {
        assert(f0 == fs0[canonical_index as int]);
        assert(canonical.parameters@ =~= f0.parameters@ + new_parameters(ids, parameter_types@).take(0));
    }
    for g in 0..unique_param_count
        invariant
            new_parameter_ids@ == ids,
            ids.len() == unique_param_count,
            parameter_types@.len() == unique_param_count,
            canonical.id == f0.id,
            canonical.name == f0.name,
            canonical.returns == f0.returns,
            canonical.return_values_initial == f0.return_values_initial,
            canonical.return_values == f0.return_values,
            canonical.call_count == f0.call_count,
            canonical.size_estimate == f0.size_estimate,
            canonical.body == f0.body,
            canonical.parameters@ == f0.parameters@ + new_parameters(ids, parameter_types@).take(g as int),
    {
        canonical.parameters.push((new_parameter_ids[g], parameter_types[g]));
        proof {
            assert(new_parameters(ids, parameter_types@).take(g + 1) =~= new_parameters(ids, parameter_types@).take(
                g as int,
            ).push((ids[g as int], parameter_types@[g as int])));
            assert(canonical.parameters@ =~= f0.parameters@ + new_parameters(ids, parameter_types@).take(g + 1));
        }
    }
    proof {
        assert(new_parameters(ids, parameter_types@).take(unique_param_count as int) =~= new_parameters(
            ids,
            parameter_types@,
        ));
    }
    let mut body: Vec<Statement> = Vec::new();
    std::mem::swap(&mut body, &mut canonical.body.statements);
    let body_literals = collect_literals_ordered(&body);
    let literal_count = body_literals.len();
    proof {
        assert(list_literals(body@, 0).len() == words_view(body_literals@).len());
        assert(words_view(body_literals@).len() == body_literals@.len());
        assert(literal_count == body_literals@.len());
    }
    let ghost old_body = body@;
    canonical.body.statements = replace_literals_with_params(body, &positions);
    proof {
        assert(old_body == f0.body.statements@);
        assert forall|g: FunctionId| #[trigger] list_calls(canonical.body.statements@, g, 0) == list_calls(
            old_body,
            g,
            0,
        ) by {
            lemma_replaced_list_calls(old_body, canonical.body.statements@, positions@, 0, 0, g);
        }
    }
    let ghost f1 = canonical;
    object.functions.set(canonical_index, canonical);
    let ghost obj_start = *object;
    proof {
        assert(same_ids(object.functions@, fs0));
        assert(has_function(fs0, canonical_id)) by {
            assert(fs0[canonical_index as int].id == canonical_id);
        }
        assert forall|g: FunctionId| object_free_of_calls(obj0, g) implies #[trigger] object_free_of_calls(
            obj_start,
            g,
        ) by {
            assert forall|f2: int| 0 <= f2 < obj_start.functions@.len() implies !#[trigger] list_calls(
                obj_start.functions@[f2].body.statements@,
                g,
                0,
            ) by {
                assert(!list_calls(fs0[f2].body.statements@, g, 0));
                if f2 != canonical_index {
                    assert(obj_start.functions@[f2] == fs0[f2]);
                }
            }
        }
    }
    for m in 0..members.len()
        invariant
            object.name == old(object).name,
            object.subobjects == old(object).subobjects,
            object.data == old(object).data,
            group_literals@.len() == members@.len(),
            canonical_id == members@[0],
            ls == lits_view(group_literals@),
            gs == groups_view(parameter_groups@),
            forall|k: int|
                0 <= k < m && members@[k] != canonical_id ==> object_free_of_calls(*object, #[trigger] members@[k]),
            same_ids(object.functions@, fs0),
            forall|g: FunctionId|
                g != canonical_id && object_free_of_calls(obj_start, g) ==> #[trigger] object_free_of_calls(
                    *object,
                    g,
                ),
            members_rewritten(obj_start, *object, members@, canonical_id, ls, gs, parameter_types@, m as int),
    {
        let mut extra_args: Vec<Uint> = Vec::new();
        proof {
            assert(ls[m as int] == words_view(group_literals@[m as int]@));
        }
        for g in 0..parameter_groups.len()
            invariant
                ls == lits_view(group_literals@),
                gs == groups_view(parameter_groups@),
                m < group_literals@.len(),
                ls[m as int] == words_view(group_literals@[m as int]@),
                words_view(extra_args@) == member_extra(ls, gs, m as int).take(g as int),
        {
            proof {
                assert(gs[g as int] == parameter_groups@[g as int]@);
            }
            let first = if parameter_groups[g].len() > 0 {
                parameter_groups[g][0]
            } else {
                0
            };
            if first < group_literals[m].len() {
                extra_args.push(group_literals[m][first].clone());
            } else {
                extra_args.push(Uint::zero());
            }
            proof {
                assert(words_view(extra_args@) =~= member_extra(ls, gs, m as int).take(g + 1));
            }
        }
        proof {
            assert(member_extra(ls, gs, m as int).take(parameter_groups@.len() as int) =~= member_extra(
                ls,
                gs,
                m as int,
            ));
        }
        let ghost mid = *object;
        rewrite_calls_everywhere(object, members[m], canonical_id, &extra_args, &parameter_types, next_value_id);
        proof {
            assert(crate::simplified::witness(mid));
            assert forall|q: int| 0 <= q < object.functions@.len() implies #[trigger] object.functions@[q].id
                == fs0[q].id by {
                assert(same_but_body(mid.functions@[q], object.functions@[q]));
            }
            assert forall|k: int|
                0 <= k < m + 1 && members@[k] != canonical_id implies object_free_of_calls(
                *object,
                #[trigger] members@[k],
            ) by {
                if k < m {
                    assert(object_free_of_calls(mid, members@[k]));
                }
            }
            assert forall|g: FunctionId|
                g != canonical_id && object_free_of_calls(obj_start, g) implies #[trigger] object_free_of_calls(
                *object,
                g,
            ) by {
                assert(object_free_of_calls(mid, g));
            }
        }
    }
    let ghost o2 = *object;
    proof {
        lemma_same_ids_index(o2.functions@, fs0, members@[1], 0);
        assert(index_of(fs0, members@[1]) is Some);
    }
    let removed = remove_members(object, &members);
    proof {
        assert(crate::simplified::witness((f1, obj_start, o2)));
        assert(members_literals(fs0, members@) == Some(ls));
        assert(gs == grouped(ls, differing_positions(ls, ls[0].len() as int)));
        assert(index_of(fs0, members@[0]) == Some(canonical_index as int));
        assert(ids == fresh_ids(n_start, gs.len() as int));
        assert(parameter_types@ == parameter_types_of(ls, gs));
        assert(positions@ == parameter_positions(gs, ids, gs.len() as int));
        assert(parameterized(fs0[canonical_index as int], f1, new_parameters(ids, parameter_types@), positions@));
        assert(obj_start.functions@ == fs0.update(canonical_index as int, f1));
        assert(members_rewritten(obj_start, o2, members@, members@[0], ls, gs, parameter_types@, members@.len() as int));
        assert(object.functions@ == members_removed(o2.functions@, members@, members@.len() as int));
        assert(merged(obj0, n_start, members@, *object));
        assert forall|g: FunctionId|
            !has_function(fs0, g) && object_free_of_calls(obj0, g) implies #[trigger] object_free_of_calls(*object, g) by {
            assert(object_free_of_calls(obj_start, g));
            assert(object_free_of_calls(o2, g));
        }
        assert forall|k: int|
            1 <= k < members@.len() && members@[k] != members@[0] implies object_free_of_calls(
            *object,
            #[trigger] members@[k],
        ) by {
            assert(object_free_of_calls(o2, members@[k]));
        }
        assert forall|i: int| 0 <= i < object.functions@.len() implies has_function(
            fs0,
            #[trigger] object.functions@[i].id,
        ) by {
            assert(has_function(o2.functions@, object.functions@[i].id));
            let j = choose|j: int|
                0 <= j < o2.functions@.len() && j < o2.functions@.len() && #[trigger] o2.functions@[j].id
                    == object.functions@[i].id;
            assert(fs0[j].id == object.functions@[i].id);
        }
        if distinct_function_ids(fs0) {
            assert(distinct_function_ids(o2.functions@)) by {
                assert forall|a: int, b: int| 0 <= a < b < o2.functions@.len() implies o2.functions@[a].id
                    != o2.functions@[b].id by {
                    assert(fs0[a].id != fs0[b].id);
                }
            }
            assert forall|g: FunctionId| has_function(fs0, g) implies has_function(o2.functions@, g) by {
                let j = choose|j: int| 0 <= j < fs0.len() && j < fs0.len() && #[trigger] fs0[j].id == g;
                assert(o2.functions@[j].id == g);
            }
            if forall|k: int| 1 <= k < members@.len() ==> #[trigger] members@[k] != members@[0] {
                assert forall|g: FunctionId|
                    has_function(fs0, g) && !has_function(object.functions@, g) implies #[trigger] object_free_of_calls(
                    *object,
                    g,
                ) by {
                    let k = choose|k: int| 1 <= k < members@.len() && #[trigger] members@[k] == g;
                    assert(members@[k] != members@[0]);
                    assert(object_free_of_calls(o2, members@[k]));
                }
            }
        }
    }
    removed
}

/// Deduplicates functions that are structurally identical except for literal
/// constants; returns the number of functions removed.
///
/// A group's first member becomes the canonical function: it takes one new
/// parameter per distinct pattern of differing literal values (at most
/// [`MAX_FUZZY_LITERAL_DIFFS`]), and calls to every member are redirected to it
/// with that member's values passed as extra arguments. Parameters wider than
/// 64 bits require a body of [`MIN_FUZZY_DEDUP_SIZE`] statements. Groups are
/// taken in the byte order of their fuzzy forms.
///
/// Where the functions' ids are distinct, they stay distinct, every function
/// left was there before, and no function that was removed is called anywhere.
pub fn deduplicate_functions_fuzzy(object: &mut Object) -> (r: usize)
    ensures
        old(object).functions@.len() >= 2 ==> ({
            let gs = fuzzy_grouping(
                old(object).functions@,
                old(object).functions@.len() as int,
                MIN_FUZZY_DEDUP_SIZE_NARROW_PARAMS as nat,
            );
            let forms = Seq::new(gs.len(), |g: int| gs[g].0);
            let lists = Seq::new(gs.len(), |g: int| gs[g].1);
            exists|order: Seq<usize>, n0: u32, n2: u32|
                #![trigger crate::simplified::witness((order, n0, n2))]
                sorted_order(forms, order) && (forall|x: u32|
                    object_value_ids(*old(object)).contains(x) ==> x < n0 || x == u32::MAX) && fuzzy_merged(
                    *old(object),
                    n0,
                    lists,
                    order,
                    order.len() as int,
                    *final(object),
                    n2,
                    r as int,
                )
        }),
        final(object).name == old(object).name,
        final(object).subobjects == old(object).subobjects,
        final(object).data == old(object).data,
        final(object).functions@.len() + r == old(object).functions@.len(),
        old(object).functions@.len() < 2 ==> r == 0 && *final(object) == *old(object),
        distinct_function_ids(old(object).functions@) ==> {
            &&& distinct_function_ids(final(object).functions@)
            &&& forall|i: int|
                0 <= i < final(object).functions@.len() ==> has_function(
                    old(object).functions@,
                    #[trigger] final(object).functions@[i].id,
                )
            &&& forall|g: FunctionId|
                has_function(old(object).functions@, g) && !has_function(final(object).functions@, g)
                    ==> #[trigger] object_free_of_calls(*final(object), g)
        },
{
    if object.functions.len() < 2 {
        return 0;
    }
    let ghost n0 = object.functions@.len();
    let ghost fs0 = object.functions@;
    let groups = fuzzy_groups(&object.functions);
    let order = group_order(&groups);
    let mut total_removed: usize = 0;
    let max = find_max_value_id(object);
    let mut next_value_id = ValueId(if max < u32::MAX {
        max + 1
    } else {
        u32::MAX
    });
    let ghost obj0 = *object;
    let ghost first_fresh = next_value_id.0;
    proof {
        assert(obj0 == *old(object));
    }
    let ghost gsv = fuzzy_grouping(fs0, fs0.len() as int, MIN_FUZZY_DEDUP_SIZE_NARROW_PARAMS as nat);
    let ghost lists = Seq::new(gsv.len(), |g: int| gsv[g].1);
    proof {
        assert forall|i: int| 0 <= i < object.functions@.len() implies has_function(
            fs0,
            #[trigger] object.functions@[i].id,
        ) by {
            assert(fs0[i].id == object.functions@[i].id);
        }
        assert(group_forms(groups@) =~= Seq::new(gsv.len(), |g: int| gsv[g].0)) by {
            assert forall|g: int| 0 <= g < gsv.len() implies group_forms(groups@)[g] == gsv[g].0 by {
                assert(group_pairs_view(groups@)[g] == gsv[g]);
            }
        }
    }
    for oi in 0..order.len()
        invariant
            object.name == old(object).name,
            object.subobjects == old(object).subobjects,
            object.data == old(object).data,
            object.functions@.len() + total_removed == n0,
            n0 <= usize::MAX,
            fs0 == old(object).functions@,
            forall|k: int| 0 <= k < order@.len() ==> order@[k] < groups@.len(),
            distinct_function_ids(fs0) ==> forall|h: int, k: int|
                0 <= h < groups@.len() && 1 <= k < groups@[h].1@.len() ==> #[trigger] groups@[h].1@[k]
                    != groups@[h].1@[0],
            distinct_function_ids(fs0) ==> distinct_function_ids(object.functions@),
            forall|i: int| 0 <= i < object.functions@.len() ==> has_function(fs0, #[trigger] object.functions@[i].id),
            distinct_function_ids(fs0) ==> forall|g: FunctionId|
                has_function(fs0, g) && !has_function(object.functions@, g) ==> #[trigger] object_free_of_calls(
                    *object,
                    g,
                ),
            fuzzy_merged(obj0, first_fresh, lists, order@, oi as int, *object, next_value_id.0, total_removed as int),
            group_pairs_view(groups@) == gsv,
            lists == Seq::new(gsv.len(), |g: int| gsv[g].1),
            sorted_order(Seq::new(gsv.len(), |g: int| gsv[g].0), order@),
            forall|x: u32| object_value_ids(obj0).contains(x) ==> x < first_fresh || x == u32::MAX,
    {
        let members = copy_ids(&groups[order[oi]].1);
        let ghost prev = *object;
        let ghost nprev = next_value_id.0;
        let ghost rprev = total_removed as int;
        proof {
            assert(members@ == lists[order@[oi as int] as int]) by {
                assert(group_pairs_view(groups@)[order@[oi as int] as int] == gsv[order@[oi as int] as int]);
            }
            assert(crate::simplified::witness((prev, nprev, rprev)));
        }
        if members.len() >= 2 {
            let removed = merge_group(object, members, &mut next_value_id);
            proof {
                assert forall|i: int| 0 <= i < object.functions@.len() implies has_function(
                    fs0,
                    #[trigger] object.functions@[i].id,
                ) by {
                    assert(has_function(prev.functions@, object.functions@[i].id));
                    let j = choose|j: int|
                        0 <= j < prev.functions@.len() && j < prev.functions@.len() && #[trigger] prev.functions@[j].id
                            == object.functions@[i].id;
                    assert(has_function(fs0, prev.functions@[j].id));
                }
                if distinct_function_ids(fs0) {
                    assert forall|g: FunctionId|
                        has_function(fs0, g) && !has_function(object.functions@, g) implies #[trigger] object_free_of_calls(
                        *object,
                        g,
                    ) by {
                        if !has_function(prev.functions@, g) {
                            assert(object_free_of_calls(prev, g));
                        }
                    }
                }
            }
            total_removed = total_removed + removed;
        }
        proof {
            let t = order@.len();
            assert(fuzzy_merged(obj0, first_fresh, lists, order@, oi + 1, *object, next_value_id.0, total_removed as int));
        }
    }
    proof {
        assert(crate::simplified::witness((order@, first_fresh, next_value_id.0)));
    }
    total_removed
}

} // verus!
