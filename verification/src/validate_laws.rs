//! What a successful validation promises about the code it accepts: every
//! operand of an expression is bound by an earlier statement of the code.

use crate::dce::defined_seq;
use crate::ir::{Expression, Function, Object, Region, Statement, SwitchCase, Value, ValueId};
use crate::operands::{expression_uses, ids_in, ids_of, statement_uses};
use crate::text::indexed;
use crate::validate::{
    check_count, define_id, define_ids, object_errors, restore, use_id, use_ids, use_opt, use_values, v_cases_from,
    v_expr, v_function, v_functions_from, v_object, v_objects_from, v_region, v_stmt, v_stmts_from, VState,
    initial_state, use2, use3,
};
use vstd::prelude::*;

verus! {

/// The ids that statements `s[0..i]` bind, at the top level.
pub open spec fn bound_before(s: Seq<Statement>, i: int) -> Set<u32> {
    Set::new(
        |id: u32|
            exists|j: int, k: int|
                0 <= j < i && 0 <= k < defined_seq(s[j]).len() && #[trigger] defined_seq(s[j])[k].0 == id,
    )
}

/// The expression a binding or expression statement evaluates.
pub open spec fn evaluated(s: Statement) -> Option<Expression> {
    match s {
        Statement::Let { value, .. } => Some(value),
        Statement::Expression(e) => Some(e),
        _ => None,
    }
}

/// The state after checking statements `s[0..i]`.
pub open spec fn state_at(s: Seq<Statement>, i: int, st: VState, ctx: Seq<char>) -> VState
    decreases i,
{
    if i <= 0 {
        st
    } else {
        v_stmt(s[i - 1], state_at(s, i - 1, st, ctx), indexed(ctx, (i - 1) as nat))
    }
}

pub broadcast proof fn lemma_use_id(st: VState, id: u32, ctx: Seq<char>)
    ensures
        (#[trigger] use_id(st, id, ctx)).errors.len() >= st.errors.len(),
        use_id(st, id, ctx).defined == st.defined,
        !st.defined.contains(id) ==> use_id(st, id, ctx).errors.len() > st.errors.len(),
{
}

proof fn lemma_use_values_rec(vals: Seq<Value>, st: VState, ctx: Seq<char>)
    ensures
        use_values(vals, st, ctx).errors.len() >= st.errors.len(),
        use_values(vals, st, ctx).defined == st.defined,
        !ids_of(vals).subset_of(st.defined) ==> use_values(vals, st, ctx).errors.len() > st.errors.len(),
    decreases vals.len(),
{
    if vals.len() > 0 {
        let st1 = use_id(st, vals[0].id.0, ctx);
        lemma_use_values_rec(vals.drop_first(), st1, ctx);
        if !ids_of(vals).subset_of(st.defined) && st.defined.contains(vals[0].id.0) {
            let id = choose|id: u32| ids_of(vals).contains(id) && !st.defined.contains(id);
            let i = choose|i: int| 0 <= i < vals.len() && vals[i].id.0 == id;
            assert(i != 0);
            assert(vals.drop_first()[i - 1].id.0 == id);
            assert(ids_of(vals.drop_first()).contains(id));
        }
    }
}

pub broadcast proof fn lemma_use_values(vals: Seq<Value>, st: VState, ctx: Seq<char>)
    ensures
        (#[trigger] use_values(vals, st, ctx)).errors.len() >= st.errors.len(),
        use_values(vals, st, ctx).defined == st.defined,
        !ids_of(vals).subset_of(st.defined) ==> use_values(vals, st, ctx).errors.len() > st.errors.len(),
{
    lemma_use_values_rec(vals, st, ctx);
}

proof fn lemma_use_ids_rec(ids: Seq<ValueId>, st: VState, ctx: Seq<char>)
    ensures
        use_ids(ids, st, ctx).errors.len() >= st.errors.len(),
        use_ids(ids, st, ctx).defined == st.defined,
    decreases ids.len(),
{
    if ids.len() > 0 {
        lemma_use_ids_rec(ids.drop_first(), use_id(st, ids[0].0, ctx), ctx);
    }
}

pub broadcast proof fn lemma_use_ids(ids: Seq<ValueId>, st: VState, ctx: Seq<char>)
    ensures
        (#[trigger] use_ids(ids, st, ctx)).errors.len() >= st.errors.len(),
        use_ids(ids, st, ctx).defined == st.defined,
{
    lemma_use_ids_rec(ids, st, ctx);
}

proof fn lemma_define_ids_rec(ids: Seq<ValueId>, st: VState)
    ensures
        define_ids(ids, st).errors.len() >= st.errors.len(),
        define_ids(ids, st).defined.subset_of(st.defined.union(ids_in(ids))),
    decreases ids.len(),
{
    if ids.len() > 0 {
        let st1 = define_id(st, ids[0].0);
        lemma_define_ids_rec(ids.drop_first(), st1);
        assert forall|x: u32| define_ids(ids, st).defined.contains(x) implies st.defined.union(ids_in(ids)).contains(
            x,
        ) by {
            if ids_in(ids.drop_first()).contains(x) {
                let i = choose|i: int| 0 <= i < ids.drop_first().len() && ids.drop_first()[i].0 == x;
                assert(ids[i + 1].0 == x);
            }
        }
    }
}

pub broadcast proof fn lemma_define_ids(ids: Seq<ValueId>, st: VState)
    ensures
        (#[trigger] define_ids(ids, st)).errors.len() >= st.errors.len(),
        define_ids(ids, st).defined.subset_of(st.defined.union(ids_in(ids))),
{
    lemma_define_ids_rec(ids, st);
}

pub broadcast group group_validate_steps {
    lemma_use_id,
    lemma_use_values,
    lemma_use_ids,
    lemma_define_ids,
}

/// Checking an expression keeps the defined values, never drops an error, and
/// reports one when an operand is not defined.
proof fn lemma_v_expr(e: Expression, st: VState, ctx: Seq<char>)
    ensures
        v_expr(e, st, ctx).errors.len() >= st.errors.len(),
        v_expr(e, st, ctx).defined == st.defined,
        !expression_uses(e).subset_of(st.defined) ==> v_expr(e, st, ctx).errors.len() > st.errors.len(),
{
    broadcast use group_validate_steps;
    match e {
        Expression::Call { function, arguments } => {
            let st1 = if st.known.contains(function.0) {
                st
            } else {
                crate::validate::push_error(st, crate::validate::ErrorView::UnknownFunction(function.0))
            };
            lemma_use_values(arguments@, st1, ctx);
        },
        _ => {},
    }
}

proof fn lemma_cases_keep_defined(cases: Seq<SwitchCase>, j: int, outputs: nat, st: VState, ctx: Seq<char>)
    ensures
        v_cases_from(cases, j, outputs, st, ctx).defined == st.defined,
    decreases cases.len() - j,
{
    if 0 <= j < cases.len() {
        let loc = indexed(ctx + " case"@, j as nat);
        let after = restore(v_region(cases[j].body, st, loc), st);
        lemma_cases_keep_defined(cases, j + 1, outputs, check_count(outputs, cases[j].body.yields.len() as nat, loc, after), ctx);
    }
}

/// Errors are never dropped: checking a statement only adds to them.
#[verifier::rlimit(40)]
proof fn lemma_stmt_grows(s: Statement, st: VState, ctx: Seq<char>)
    ensures
        v_stmt(s, st, ctx).errors.len() >= st.errors.len(),
    decreases s, 0int,
{
    broadcast use group_validate_steps;
    match s {
        Statement::Let { bindings, value } => {
            lemma_v_expr(value, st, ctx);
        },
        Statement::If { condition, inputs, then_region, else_region, outputs } => {
            let st1 = use_values(inputs@, use_id(st, condition.id.0, ctx), ctx);
            lemma_region_grows(then_region, st1, ctx + " then"@);
            let st2 = restore(v_region(then_region, st1, ctx + " then"@), st1);
            match else_region {
                Some(r) => lemma_region_grows(r, st2, ctx + " else"@),
                None => {},
            }
        },
        Statement::Switch { scrutinee, inputs, cases, default, outputs } => {
            let st1 = use_values(inputs@, use_id(st, scrutinee.id.0, ctx), ctx);
            lemma_cases_grows(cases@, 0, outputs.len() as nat, st1, ctx);
            let st2 = v_cases_from(cases@, 0, outputs.len() as nat, st1, ctx);
            match default {
                Some(d) => lemma_region_grows(d, st2, ctx + " default"@),
                None => {},
            }
        },
        Statement::For {
            initial_values,
            loop_variables,
            condition_statements,
            condition,
            body,
            post_input_variables,
            post,
            outputs,
        } => {
            let st1 = use_values(initial_values@, st, ctx);
            let st2 = v_stmt(s, st, ctx);
            let st2 = if loop_variables.len() != initial_values.len() {
                crate::validate::push_error(
                    st1,
                    crate::validate::ErrorView::FunctionError(
                        crate::validate::count_message(
                            ctx,
                            ": loop_vars count ("@,
                            loop_variables.len() as nat,
                            ") != init_values count ("@,
                            initial_values.len() as nat,
                        ),
                    ),
                )
            } else {
                st1
            };
            let st3 = define_ids(loop_variables@, st2);
            lemma_stmts_grows(condition_statements@, 0, st3, ctx + " cond_stmt"@);
            let st4 = v_stmts_from(condition_statements@, 0, st3, ctx + " cond_stmt"@);
            lemma_v_expr(condition, st4, ctx + " condition"@);
            let st5 = v_expr(condition, st4, ctx + " condition"@);
            lemma_region_grows(body, st5, ctx + " body"@);
            let st6 = v_region(body, st5, ctx + " body"@);
            lemma_region_grows(post, define_ids(post_input_variables@, st6), ctx + " post"@);
        },
        Statement::Block(region) => {
            lemma_region_grows(region, st, ctx);
        },
        Statement::Expression(e) => {
            lemma_v_expr(e, st, ctx);
        },
        _ => {},
    }
}

proof fn lemma_region_grows(r: Region, st: VState, ctx: Seq<char>)
    ensures
        v_region(r, st, ctx).errors.len() >= st.errors.len(),
    decreases r, 0int,
{
    broadcast use group_validate_steps;
    lemma_stmts_grows(r.statements@, 0, st, ctx);
}

proof fn lemma_stmts_grows(stmts: Seq<Statement>, i: int, st: VState, ctx: Seq<char>)
    ensures
        v_stmts_from(stmts, i, st, ctx).errors.len() >= st.errors.len(),
    decreases stmts, stmts.len() - i,
{
    if 0 <= i < stmts.len() {
        lemma_stmt_grows(stmts[i], st, indexed(ctx, i as nat));
        lemma_stmts_grows(stmts, i + 1, v_stmt(stmts[i], st, indexed(ctx, i as nat)), ctx);
    }
}

proof fn lemma_cases_grows(cases: Seq<SwitchCase>, j: int, outputs: nat, st: VState, ctx: Seq<char>)
    ensures
        v_cases_from(cases, j, outputs, st, ctx).errors.len() >= st.errors.len(),
    decreases cases, cases.len() - j,
{
    if 0 <= j < cases.len() {
        let loc = indexed(ctx + " case"@, j as nat);
        lemma_region_grows(cases[j].body, st, loc);
        let after = restore(v_region(cases[j].body, st, loc), st);
        lemma_cases_grows(cases, j + 1, outputs, check_count(outputs, cases[j].body.yields.len() as nat, loc, after), ctx);
    }
}

proof fn lemma_function_grows(f: Function, st: VState)
    ensures
        v_function(f, st).errors.len() >= st.errors.len(),
{
    broadcast use group_validate_steps;
    let ctx = crate::validate::function_context(f.name@);
    let st1 = define_ids(f.parameters@.map_values(|p: (ValueId, crate::ir::Type)| p.0), st);
    let st2 = define_ids(f.return_values_initial@, st1);
    let st4 = v_function(f, st);
    assert forall|st4: VState| st4.errors.len() >= st2.errors.len() implies v_stmts_from(f.body.statements@, 0, st4, ctx).errors.len() >= st2.errors.len() by {
        lemma_stmts_grows(f.body.statements@, 0, st4, ctx);
    }
}

proof fn lemma_functions_grows(fs: Seq<Function>, i: int, st: VState)
    ensures
        v_functions_from(fs, i, st).errors.len() >= st.errors.len(),
    decreases fs.len() - i,
{
    if 0 <= i < fs.len() {
        lemma_function_grows(fs[i], st);
        lemma_functions_grows(fs, i + 1, v_function(fs[i], st));
    }
}

proof fn lemma_object_grows(o: Object, st: VState)
    ensures
        v_object(o, st).errors.len() >= st.errors.len(),
    decreases o, 0int,
{
    let st1 = VState { known: st.known.union(crate::validate::function_ids(o.functions@)), ..st };
    let ctx = "object '"@ + o.name@ + "' code"@;
    lemma_stmts_grows(o.code.statements@, 0, st1, ctx);
    let st2 = v_stmts_from(o.code.statements@, 0, st1, ctx);
    lemma_functions_grows(o.functions@, 0, st2);
    let st3 = v_functions_from(o.functions@, 0, st2);
    lemma_objects_grows(o.subobjects@, 0, st3);
}

proof fn lemma_objects_grows(os: Seq<Object>, i: int, st: VState)
    ensures
        v_objects_from(os, i, st).errors.len() >= st.errors.len(),
    decreases os, os.len() - i,
{
    if 0 <= i < os.len() {
        let inner = VState { defined: Set::empty(), known: Set::empty(), errors: st.errors };
        lemma_object_grows(os[i], inner);
        lemma_objects_grows(
            os,
            i + 1,
            VState { errors: v_object(os[i], inner).errors, ..st },
        );
    }
}

/// A statement defines, at the level it stands, only the ids it binds.
#[verifier::rlimit(40)]
proof fn lemma_stmt_defines(s: Statement, st: VState, ctx: Seq<char>)
    ensures
        v_stmt(s, st, ctx).defined.subset_of(st.defined.union(ids_in(defined_seq(s)))),
{
    broadcast use group_validate_steps;
    match s {
        Statement::Let { bindings, value } => {
            lemma_v_expr(value, st, ctx);
            lemma_define_ids_rec(bindings@, v_expr(value, st, ctx));
            assert(defined_seq(s) == bindings@);
            assert(v_stmt(s, st, ctx) == define_ids(bindings@, v_expr(value, st, ctx)));
            let e1 = v_expr(value, st, ctx);
            assert forall|x: u32| v_stmt(s, st, ctx).defined.contains(x) implies st.defined.union(
                ids_in(defined_seq(s)),
            ).contains(x) by {
                assert(define_ids(bindings@, e1).defined.contains(x));
                assert(e1.defined.union(ids_in(bindings@)).contains(x));
            }
            assert(v_stmt(s, st, ctx).defined.subset_of(st.defined.union(ids_in(defined_seq(s)))));
        },
        Statement::If { condition, inputs, then_region, else_region, outputs } => {
            let st1 = use_values(inputs@, use_id(st, condition.id.0, ctx), ctx);
            assert(st1.defined == st.defined);
            let st2 = restore(v_region(then_region, st1, ctx + " then"@), st1);
            let st3 = match else_region {
                Some(r) => restore(v_region(r, st2, ctx + " else"@), st2),
                None => st2,
            };
            let else_count = match else_region {
                Some(r) => r.yields.len(),
                None => inputs.len(),
            };
            let st4 = check_count(outputs.len() as nat, then_region.yields.len() as nat, ctx + " then"@, st3);
            let st5 = check_count(outputs.len() as nat, else_count as nat, ctx + " else"@, st4);
            assert(st5.defined == st.defined);
            assert(v_stmt(s, st, ctx) == define_ids(outputs@, st5));
            lemma_define_ids_rec(outputs@, st5);
            assert(defined_seq(s) == outputs@);
        },
        Statement::Switch { scrutinee, inputs, cases, default, outputs } => {
            let st1 = use_values(inputs@, use_id(st, scrutinee.id.0, ctx), ctx);
            lemma_cases_keep_defined(cases@, 0, outputs.len() as nat, st1, ctx);
            let st2 = v_cases_from(cases@, 0, outputs.len() as nat, st1, ctx);
            let st3 = match default {
                Some(d) => check_count(
                    outputs.len() as nat,
                    d.yields.len() as nat,
                    ctx + " default"@,
                    restore(v_region(d, st2, ctx + " default"@), st2),
                ),
                None => st2,
            };
            assert(st3.defined == st.defined);
            assert(v_stmt(s, st, ctx) == define_ids(outputs@, st3));
            lemma_define_ids_rec(outputs@, st3);
            assert(defined_seq(s) == outputs@);
        },
        Statement::For { loop_variables, post_input_variables, outputs, .. } => {
            let d = defined_seq(s);
            assert forall|x: u32| ids_in(outputs@).contains(x) implies ids_in(d).contains(x) by {
                let k = choose|k: int| 0 <= k < outputs@.len() && outputs@[k].0 == x;
                assert(d[loop_variables@.len() + post_input_variables@.len() + k] == outputs@[k]);
            }
        },
        Statement::ExternalCall { result, .. } => {
            assert(ids_in(defined_seq(s)).contains(result.0)) by {
                assert(defined_seq(s)[0] == result);
            }
        },
        Statement::Create { result, .. } => {
            assert(ids_in(defined_seq(s)).contains(result.0)) by {
                assert(defined_seq(s)[0] == result);
            }
        },
        _ => {},
    }
}

proof fn lemma_stmts_unfold(s: Seq<Statement>, i: int, st: VState, ctx: Seq<char>)
    requires
        0 <= i <= s.len(),
    ensures
        v_stmts_from(s, 0, st, ctx) == v_stmts_from(s, i, state_at(s, i, st, ctx), ctx),
        state_at(s, i, st, ctx).defined.subset_of(st.defined.union(bound_before(s, i))),
    decreases i,
{
    if i > 0 {
        lemma_stmts_unfold(s, i - 1, st, ctx);
        let p = state_at(s, i - 1, st, ctx);
        lemma_stmt_defines(s[i - 1], p, indexed(ctx, (i - 1) as nat));
        assert forall|x: u32| state_at(s, i, st, ctx).defined.contains(x) implies st.defined.union(
            bound_before(s, i),
        ).contains(x) by {
            if !p.defined.contains(x) {
                let d = defined_seq(s[i - 1]);
                assert(ids_in(d).contains(x));
                let k = choose|k: int| 0 <= k < d.len() && d[k].0 == x;
                assert(defined_seq(s[i - 1])[k].0 == x);
            } else if !st.defined.contains(x) {
                assert(bound_before(s, i - 1).contains(x));
                let (j, k) = choose|j: int, k: int|
                    0 <= j < i - 1 && 0 <= k < defined_seq(s[j]).len() && #[trigger] defined_seq(s[j])[k].0 == x;
                assert(defined_seq(s[j])[k].0 == x);
            }
        }
    }
}

/// Validation accepts only code in which every operand of an evaluated
/// expression (both operands of a binary operation among them) is bound by an
/// earlier statement of the code: an object that validates without errors
/// uses no value of its code before defining it.
pub proof fn law_valid_code_binds_before_use(o: Object, i: int)
    requires
        object_errors(o).len() == 0,
        0 <= i < o.code.statements@.len(),
        evaluated(o.code.statements@[i]) is Some,
    ensures
        expression_uses(evaluated(o.code.statements@[i])->0).subset_of(bound_before(o.code.statements@, i)),
{
    let s = o.code.statements@;
    let st = initial_state();
    let st1 = VState { known: st.known.union(crate::validate::function_ids(o.functions@)), ..st };
    let ctx = "object '"@ + o.name@ + "' code"@;
    lemma_stmts_unfold(s, i, st1, ctx);
    let p = state_at(s, i, st1, ctx);
    let e = evaluated(s[i])->0;
    if !expression_uses(e).subset_of(bound_before(s, i)) {
        assert(!expression_uses(e).subset_of(p.defined));
        lemma_v_expr(e, p, indexed(ctx, i as nat));
        let q = v_stmt(s[i], p, indexed(ctx, i as nat));
        match s[i] {
            Statement::Let { bindings, value } => {
                lemma_define_ids_rec(bindings@, v_expr(value, p, indexed(ctx, i as nat)));
            },
            _ => {},
        }
        assert(q.errors.len() > p.errors.len());
        lemma_stmts_grows(s, i + 1, q, ctx);
        assert(v_stmts_from(s, i, p, ctx) == v_stmts_from(s, i + 1, q, ctx));
        let st2 = v_stmts_from(s, 0, st1, ctx);
        lemma_functions_grows(o.functions@, 0, st2);
        lemma_objects_grows(o.subobjects@, 0, v_functions_from(o.functions@, 0, st2));
        assert(object_errors(o).len() > 0);
    }
}

/// The ids a statement reads before anything nested in it runs: the operands
/// of a plain statement, the condition or scrutinee and inputs of a branch,
/// the initial values of a loop.
pub open spec fn entry_uses(s: Statement) -> Set<u32> {
    match s {
        Statement::If { condition, inputs, .. } => set![condition.id.0] + ids_of(inputs@),
        Statement::Switch { scrutinee, inputs, .. } => set![scrutinee.id.0] + ids_of(inputs@),
        Statement::For { initial_values, .. } => ids_of(initial_values@),
        Statement::Block(_) => Set::empty(),
        _ => statement_uses(s),
    }
}

/// Checking a statement reports an error when it reads an id that is not defined.
#[verifier::rlimit(40)]
proof fn lemma_stmt_reports(s: Statement, st: VState, ctx: Seq<char>)
    requires
        !entry_uses(s).subset_of(st.defined),
    ensures
        v_stmt(s, st, ctx).errors.len() > st.errors.len(),
{
    broadcast use group_validate_steps;
    match s {
        Statement::Let { bindings, value } => {
            lemma_v_expr(value, st, ctx);
            lemma_define_ids_rec(bindings@, v_expr(value, st, ctx));
        },
        Statement::Expression(e) => {
            lemma_v_expr(e, st, ctx);
        },
        Statement::If { condition, inputs, then_region, else_region, outputs } => {
            let st0 = use_id(st, condition.id.0, ctx);
            let st1 = use_values(inputs@, st0, ctx);
            assert(st1.errors.len() > st.errors.len());
            lemma_region_grows(then_region, st1, ctx + " then"@);
            let st2 = restore(v_region(then_region, st1, ctx + " then"@), st1);
            match else_region {
                Some(r) => lemma_region_grows(r, st2, ctx + " else"@),
                None => {},
            }
        },
        Statement::Switch { scrutinee, inputs, cases, default, outputs } => {
            let st0 = use_id(st, scrutinee.id.0, ctx);
            let st1 = use_values(inputs@, st0, ctx);
            assert(st1.errors.len() > st.errors.len());
            lemma_cases_grows(cases@, 0, outputs.len() as nat, st1, ctx);
            let st2 = v_cases_from(cases@, 0, outputs.len() as nat, st1, ctx);
            match default {
                Some(d) => lemma_region_grows(d, st2, ctx + " default"@),
                None => {},
            }
        },
        Statement::For { .. } => {
            lemma_stmt_grows_after_entry(s, st, ctx);
        },
        _ => {},
    }
}

/// A loop's checks after its initial values only add errors.
#[verifier::rlimit(40)]
proof fn lemma_stmt_grows_after_entry(s: Statement, st: VState, ctx: Seq<char>)
    requires
        s is For,
    ensures
        v_stmt(s, st, ctx).errors.len() >= use_values(s->For_initial_values@, st, ctx).errors.len(),
{
    broadcast use group_validate_steps;
    match s {
        Statement::For {
            initial_values,
            loop_variables,
            condition_statements,
            condition,
            body,
            post_input_variables,
            post,
            outputs,
        } => {
            let st1 = use_values(initial_values@, st, ctx);
            let st2 = if loop_variables.len() != initial_values.len() {
                crate::validate::push_error(
                    st1,
                    crate::validate::ErrorView::FunctionError(
                        crate::validate::count_message(
                            ctx,
                            ": loop_vars count ("@,
                            loop_variables.len() as nat,
                            ") != init_values count ("@,
                            initial_values.len() as nat,
                        ),
                    ),
                )
            } else {
                st1
            };
            let st3 = define_ids(loop_variables@, st2);
            lemma_stmts_grows(condition_statements@, 0, st3, ctx + " cond_stmt"@);
            let st4 = v_stmts_from(condition_statements@, 0, st3, ctx + " cond_stmt"@);
            lemma_v_expr(condition, st4, ctx + " condition"@);
            let st5 = v_expr(condition, st4, ctx + " condition"@);
            lemma_region_grows(body, st5, ctx + " body"@);
            let st6 = v_region(body, st5, ctx + " body"@);
            lemma_region_grows(post, define_ids(post_input_variables@, st6), ctx + " post"@);
        },
        _ => {},
    }
}

/// Validation accepts only code in which every statement reads, on entry,
/// ids bound by earlier statements of the code: the operands of plain
/// statements and expressions (both operands of a binary operation among
/// them), the condition, scrutinee and inputs of branches and the initial
/// values of loops.
pub proof fn law_valid_code_reads_only_bound_ids(o: Object, i: int)
    requires
        object_errors(o).len() == 0,
        0 <= i < o.code.statements@.len(),
    ensures
        entry_uses(o.code.statements@[i]).subset_of(bound_before(o.code.statements@, i)),
{
    let s = o.code.statements@;
    let st = initial_state();
    let st1 = VState { known: st.known.union(crate::validate::function_ids(o.functions@)), ..st };
    let ctx = "object '"@ + o.name@ + "' code"@;
    lemma_stmts_unfold(s, i, st1, ctx);
    let p = state_at(s, i, st1, ctx);
    if !entry_uses(s[i]).subset_of(bound_before(s, i)) {
        assert(!entry_uses(s[i]).subset_of(p.defined));
        lemma_stmt_reports(s[i], p, indexed(ctx, i as nat));
        let q = v_stmt(s[i], p, indexed(ctx, i as nat));
        lemma_stmts_grows(s, i + 1, q, ctx);
        assert(v_stmts_from(s, i, p, ctx) == v_stmts_from(s, i + 1, q, ctx));
        let st2 = v_stmts_from(s, 0, st1, ctx);
        lemma_functions_grows(o.functions@, 0, st2);
        lemma_objects_grows(o.subobjects@, 0, v_functions_from(o.functions@, 0, st2));
        assert(object_errors(o).len() > 0);
    }
}

} // verus!
