//! Removal of functions whose bodies are identical up to value numbering.

use crate::canon::{
    canon_id, enc_ids, enc_statements, le_u64, push_u64_le, type_code, type_tag, CanonState, Canonicalizer,
};
use crate::ir::{Block, Expression, Function, FunctionId, Object, Region, Statement, SwitchCase, Type, ValueId};
use std::collections::BTreeMap;
use vstd::prelude::*;

verus! {

broadcast use vstd::laws_cmp::group_laws_cmp;

/// Functions estimated smaller than this many statements are not worth sharing:
/// the call costs about as much as the body.
pub const MIN_DEDUP_SIZE: usize = 4;

/// The tags of a list of types.
pub open spec fn type_codes(ts: Seq<Type>) -> Seq<u8> {
    ts.map_values(|t: Type| type_code(t))
}

/// The parameter types of a function.
pub open spec fn parameter_types(f: Function) -> Seq<Type> {
    f.parameters@.map_values(|p: (ValueId, Type)| p.1)
}

/// The renumbering after giving numbers to ids `ids[i..]` in order.
pub open spec fn canon_ids(st: CanonState, ids: Seq<ValueId>, i: int) -> CanonState
    decreases ids.len() - i,
{
    if i < 0 || i >= ids.len() {
        st
    } else {
        canon_ids(canon_id(st, ids[i].0).0, ids, i + 1)
    }
}

/// The canonical encoding of a function: parameter and return types, each list
/// prefixed by its count; its body with parameters and initial return values
/// numbered first; then a separator and its fall-through return values.
pub open spec fn canonical_function(f: Function, parameter_types: Seq<Type>, return_types: Seq<Type>) -> Seq<u8> {
    let header = le_u64(parameter_types.len() as u64) + type_codes(parameter_types) + le_u64(
        return_types.len() as u64,
    ) + type_codes(return_types);
    let st0 = CanonState { ids: Map::empty(), next: 0 };
    let st1 = canon_ids(st0, f.parameters@.map_values(|p: (ValueId, Type)| p.0), 0);
    let st2 = canon_ids(st1, f.return_values_initial@, 0);
    let (st3, body) = enc_statements(st2, f.body.statements@, 0);
    let rets = enc_ids(st3, f.return_values@, 0).1;
    header + body + seq![0xFEu8] + rets
}

/// Appends the tags of a list of types.
pub(crate) fn push_type_tags(buf: &mut Vec<u8>, types: &Vec<Type>)
    ensures
        final(buf)@ == old(buf)@ + type_codes(types@),
{
    let n = types.len();
    for i in 0..n
        invariant
            n == types@.len(),
            buf@ == old(buf)@ + type_codes(types@.take(i as int)),
    {
        buf.push(type_tag(&types[i]));
        proof {
            assert(type_codes(types@.take(i + 1)) =~= type_codes(types@.take(i as int)).push(
                type_code(types@[i as int]),
            ));
            assert(buf@ =~= old(buf)@ + type_codes(types@.take(i + 1)));
        }
    }
    proof {
        assert(types@.take(n as int) =~= types@);
    }
}

/// Produces the canonical byte encoding of a function body for comparison: value
/// ids are renumbered 0, 1, 2, ... in order of first occurrence; function ids are
/// kept, since they name functions of the whole object.
pub fn canonicalize_function(function: &Function, parameter_types: &Vec<Type>, return_types: &Vec<Type>) -> (r: Vec<u8>)
    ensures
        r@ == canonical_function(*function, parameter_types@, return_types@),
{
    let mut canon = Canonicalizer::new();
    let mut buf: Vec<u8> = Vec::new();
    push_u64_le(&mut buf, parameter_types.len() as u64);
    push_type_tags(&mut buf, parameter_types);
    push_u64_le(&mut buf, return_types.len() as u64);
    push_type_tags(&mut buf, return_types);
    let ghost header = buf@;
    let ghost pids = function.parameters@.map_values(|p: (ValueId, Type)| p.0);
    let ghost st0 = canon.state();
    let np = function.parameters.len();
    for i in 0..np
        invariant
            np == function.parameters@.len(),
            pids == function.parameters@.map_values(|p: (ValueId, Type)| p.0),
            canon_ids(canon.state(), pids, i as int) == canon_ids(st0, pids, 0),
    {
        canon.get_or_insert(function.parameters[i].0);
    }
    let ghost st1 = canon.state();
    let nr = function.return_values_initial.len();
    for i in 0..nr
        invariant
            nr == function.return_values_initial@.len(),
            canon_ids(canon.state(), function.return_values_initial@, i as int) == canon_ids(
                st1,
                function.return_values_initial@,
                0,
            ),
    {
        canon.get_or_insert(function.return_values_initial[i]);
    }
    let ghost st2 = canon.state();
    canon.encode_statements(&function.body.statements, &mut buf);
    buf.push(0xFE);
    let ghost st3 = canon.state();
    let ghost before_rets = buf@;
    let nv = function.return_values.len();
    for i in 0..nv
        invariant
            nv == function.return_values@.len(),
            before_rets + enc_ids(st3, function.return_values@, 0).1 == buf@ + enc_ids(
                canon.state(),
                function.return_values@,
                i as int,
            ).1,
    {
        let ghost st = canon.state();
        let ghost b = buf@;
        canon.encode_value_id(function.return_values[i], &mut buf);
        proof {
            assert(b + enc_ids(st, function.return_values@, i as int).1 =~= buf@ + enc_ids(
                canon.state(),
                function.return_values@,
                i + 1,
            ).1);
        }
    }
    proof {
        assert(buf@ + enc_ids(canon.state(), function.return_values@, nv as int).1 =~= buf@);
        assert(buf@ =~= canonical_function(*function, parameter_types@, return_types@));
    }
    buf
}

/// The function a call to `f` goes to after redirection.
pub open spec fn redirect_id(red: Map<u32, u32>, f: u32) -> u32 {
    if red.contains_key(f) {
        red[f]
    } else {
        f
    }
}

/// `e2` is `e` with a call redirected.
pub open spec fn redirected_expression(red: Map<u32, u32>, e: Expression, e2: Expression) -> bool {
    match e {
        Expression::Call { function, arguments } => e2 matches Expression::Call {
            function: f2,
            arguments: a2,
        } && a2 == arguments && f2.0 == redirect_id(red, function.0),
        _ => e2 == e,
    }
}

/// `r2` is region `r` with its calls redirected.
pub open spec fn redirected_region(red: Map<u32, u32>, r: Region, r2: Region) -> bool
    decreases r, 0int,
{
    r2.yields == r.yields && redirected_list(red, r.statements@, r2.statements@)
}

/// `s2` is the list `s1` with every statement's calls redirected.
pub open spec fn redirected_list(red: Map<u32, u32>, s1: Seq<Statement>, s2: Seq<Statement>) -> bool
    decreases s1, 0int,
{
    s2.len() == s1.len() && forall|i: int|
        0 <= i < s1.len() ==> redirected_statement(red, s1[i], #[trigger] s2[i])
}

/// `st2` is `st` with the calls of its own expressions and of its nested regions
/// redirected.
pub open spec fn redirected_statement(red: Map<u32, u32>, st: Statement, st2: Statement) -> bool
    decreases st, 0int,
{
    match st {
        Statement::Let { bindings, value } => st2 matches Statement::Let { bindings: b2, value: v2 }
            && b2 == bindings && redirected_expression(red, value, v2),
        Statement::Expression(e) => st2 matches Statement::Expression(e2) && redirected_expression(
            red,
            e,
            e2,
        ),
        Statement::If { condition, inputs, then_region, else_region, outputs } => st2 matches Statement::If {
            condition: c2,
            inputs: i2,
            then_region: t2,
            else_region: e2,
            outputs: o2,
        } && c2 == condition && i2 == inputs && o2 == outputs && redirected_region(
            red,
            then_region,
            t2,
        ) && match else_region {
            Some(r) => e2 matches Some(r2) && redirected_region(red, r, r2),
            None => e2 is None,
        },
        Statement::Switch { scrutinee, inputs, cases, default, outputs } => st2 matches Statement::Switch {
            scrutinee: s2,
            inputs: i2,
            cases: cs2,
            default: d2,
            outputs: o2,
        } && s2 == scrutinee && i2 == inputs && o2 == outputs && cs2@.len() == cases@.len() && (
        forall|j: int|
            0 <= j < cases@.len() ==> (#[trigger] cs2@[j]).value == cases@[j].value
                && redirected_region(red, cases@[j].body, cs2@[j].body)) && match default {
            Some(r) => d2 matches Some(r2) && redirected_region(red, r, r2),
            None => d2 is None,
        },
        Statement::For {
            initial_values,
            loop_variables,
            condition_statements,
            condition,
            body,
            post_input_variables,
            post,
            outputs,
        } => st2 matches Statement::For {
            initial_values: iv2,
            loop_variables: lv2,
            condition_statements: cs2,
            condition: cond2,
            body: b2,
            post_input_variables: pv2,
            post: p2,
            outputs: o2,
        } && iv2 == initial_values && lv2 == loop_variables && pv2 == post_input_variables && o2
            == outputs && redirected_expression(red, condition, cond2) && redirected_list(
            red,
            condition_statements@,
            cs2@,
        ) && redirected_region(red, body, b2) && redirected_region(red, post, p2),
        Statement::Block(r) => st2 matches Statement::Block(r2) && redirected_region(red, r, r2),
        _ => st2 == st,
    }
}

/// Redirects a call to a deduplicated function.
fn redirect_expression(e: Expression, redirects: &BTreeMap<u32, u32>) -> (r: Expression)
    ensures
        redirected_expression(redirects@, e, r),
{
    match e {
        Expression::Call { function, arguments } => {
            let target = match redirects.get(&function.0) {
                Some(t) => FunctionId(*t),
                None => function,
            };
            Expression::Call { function: target, arguments }
        },
        other => other,
    }
}

/// Redirects the calls of a region.
fn redirect_region(region: Region, redirects: &BTreeMap<u32, u32>) -> (r: Region)
    ensures
        redirected_region(redirects@, region, r),
    decreases region, 1int,
{
    let Region { statements, yields } = region;
    let statements = redirect_statements(statements, redirects);
    Region { statements, yields }
}

/// Redirects the calls of a statement and of its nested regions.
fn redirect_statement(statement: Statement, redirects: &BTreeMap<u32, u32>) -> (r: Statement)
    ensures
        redirected_statement(redirects@, statement, r),
    decreases statement, 1int,
{
    match statement {
        Statement::Let { bindings, value } => Statement::Let {
            bindings,
            value: redirect_expression(value, redirects),
        },
        Statement::Expression(e) => Statement::Expression(redirect_expression(e, redirects)),
        Statement::If { condition, inputs, then_region, else_region, outputs } => {
            let then_region = redirect_region(then_region, redirects);
            let else_region = match else_region {
                Some(r) => Some(redirect_region(r, redirects)),
                None => None,
            };
            Statement::If { condition, inputs, then_region, else_region, outputs }
        },
        Statement::Switch { scrutinee, inputs, cases, default, outputs } => {
            let cases = redirect_cases(cases, redirects);
            let default = match default {
                Some(r) => Some(redirect_region(r, redirects)),
                None => None,
            };
            Statement::Switch { scrutinee, inputs, cases, default, outputs }
        },
        Statement::For {
            initial_values,
            loop_variables,
            condition_statements,
            condition,
            body,
            post_input_variables,
            post,
            outputs,
        } => {
            let condition_statements = redirect_statements(condition_statements, redirects);
            let condition = redirect_expression(condition, redirects);
            let body = redirect_region(body, redirects);
            let post = redirect_region(post, redirects);
            Statement::For {
                initial_values,
                loop_variables,
                condition_statements,
                condition,
                body,
                post_input_variables,
                post,
                outputs,
            }
        },
        Statement::Block(region) => Statement::Block(redirect_region(region, redirects)),
        other => other,
    }
}

/// Redirects the calls of switch case bodies.
#[verifier::loop_isolation(false)]
fn redirect_cases(cases: Vec<SwitchCase>, redirects: &BTreeMap<u32, u32>) -> (r: Vec<SwitchCase>)
    ensures
        r@.len() == cases@.len(),
        forall|j: int|
            0 <= j < cases@.len() ==> (#[trigger] r@[j]).value == cases@[j].value && redirected_region(
                redirects@,
                cases@[j].body,
                r@[j].body,
            ),
    decreases cases@, 1int,
{
    let ghost old_cases = cases@;
    let mut cases = cases;
    let n = cases.len();
    for j in 0..n
        invariant
            n == old_cases.len(),
            cases@.len() == n,
            forall|k: int| j <= k < n ==> #[trigger] cases@[k] == old_cases[k],
            forall|k: int|
                0 <= k < j ==> (#[trigger] cases@[k]).value == old_cases[k].value
                    && redirected_region(redirects@, old_cases[k].body, cases@[k].body),
    {
        let mut case = SwitchCase {
            value: crate::uint::Uint::zero(),
            body: Region { statements: Vec::new(), yields: Vec::new() },
        };
        std::mem::swap(&mut case, &mut cases[j]);
        proof {
            assert(case == old_cases[j as int]);
        }
        let SwitchCase { value, body } = case;
        let body = redirect_region(body, redirects);
        cases.set(j, SwitchCase { value, body });
    }
    cases
}

/// Redirects the calls of a list of statements.
#[verifier::loop_isolation(false)]
fn redirect_statements(statements: Vec<Statement>, redirects: &BTreeMap<u32, u32>) -> (r: Vec<Statement>)
    ensures
        redirected_list(redirects@, statements@, r@),
    decreases statements@, 1int,
{
    let ghost s1 = statements@;
    let mut statements = statements;
    let n = statements.len();
    for i in 0..n
        invariant
            n == s1.len(),
            statements@.len() == n,
            forall|k: int| i <= k < n ==> #[trigger] statements@[k] == s1[k],
            forall|k: int| 0 <= k < i ==> redirected_statement(redirects@, s1[k], #[trigger] statements@[k]),
    {
        let mut statement = Statement::Stop;
        std::mem::swap(&mut statement, &mut statements[i]);
        proof {
            assert(statement == s1[i as int]);
        }
        let redirected = redirect_statement(statement, redirects);
        statements.set(i, redirected);
    }
    statements
}

/// The function id recorded for an encoding in the table of first-seen
/// encodings, searching from entry `i`.
pub open spec fn table_lookup(table: Seq<(Seq<u8>, u32)>, key: Seq<u8>, i: int) -> Option<u32>
    decreases table.len() - i,
{
    if i < 0 || i >= table.len() {
        None
    } else if table[i].0 == key {
        Some(table[i].1)
    } else {
        table_lookup(table, key, i + 1)
    }
}

/// The canonical encoding a function is compared by.
pub open spec fn function_key(f: Function) -> Seq<u8> {
    canonical_function(f, parameter_types(f), f.returns@)
}

/// The redirections found scanning functions `fs[i..]`: a function big enough to
/// share whose encoding was seen before is redirected to the first function with
/// that encoding; otherwise its encoding is recorded.
pub open spec fn dedup_scan(fs: Seq<Function>, i: int, table: Seq<(Seq<u8>, u32)>, red: Map<u32, u32>) -> Map<
    u32,
    u32,
>
    decreases fs.len() - i,
{
    if i < 0 || i >= fs.len() {
        red
    } else if fs[i].size_estimate < MIN_DEDUP_SIZE {
        dedup_scan(fs, i + 1, table, red)
    } else {
        let key = function_key(fs[i]);
        match table_lookup(table, key, 0) {
            Some(c) => dedup_scan(fs, i + 1, table, red.insert(fs[i].id.0, c)),
            None => dedup_scan(fs, i + 1, table.push((key, fs[i].id.0)), red),
        }
    }
}

/// The redirections for an object's functions.
pub open spec fn dedup_redirects(fs: Seq<Function>) -> Map<u32, u32> {
    dedup_scan(fs, 0, Seq::empty(), Map::empty())
}

/// The ids of an object's functions are pairwise distinct.
pub open spec fn distinct_function_ids(fs: Seq<Function>) -> bool {
    forall|a: int, b: int| 0 <= a < b < fs.len() ==> fs[a].id != fs[b].id
}

proof fn lemma_table_lookup(table: Seq<(Seq<u8>, u32)>, key: Seq<u8>, i: int)
    requires
        0 <= i,
    ensures
        table_lookup(table, key, i) matches Some(c) ==> exists|k: int| 0 <= k < table.len() && table[k].1 == c,
    decreases table.len() - i,
{
    if i < table.len() && table[i].0 != key {
        lemma_table_lookup(table, key, i + 1);
    }
}

/// What holds while scanning: recorded ids and redirected ids are ids of
/// functions already scanned, no recorded id is redirected, and every redirect
/// goes to a recorded id.
pub open spec fn scan_invariant(fs: Seq<Function>, i: int, table: Seq<(Seq<u8>, u32)>, red: Map<u32, u32>) -> bool {
    &&& forall|k: int|
        0 <= k < table.len() ==> (exists|j: int| 0 <= j < i && fs[j].id.0 == #[trigger] table[k].1) && !red.contains_key(
            table[k].1,
        )
    &&& forall|f: u32|
        #[trigger] red.contains_key(f) ==> (exists|k: int| 0 <= k < table.len() && table[k].1 == red[f]) && exists|
            j: int,
        |
            0 <= j < i && fs[j].id.0 == f
}

proof fn lemma_invariant_extends(fs: Seq<Function>, i: int, table: Seq<(Seq<u8>, u32)>, red: Map<u32, u32>)
    requires
        scan_invariant(fs, i, table, red),
    ensures
        scan_invariant(fs, i + 1, table, red),
{
    assert forall|k: int| 0 <= k < table.len() implies (exists|j: int|
        0 <= j < i + 1 && fs[j].id.0 == #[trigger] table[k].1) && !red.contains_key(table[k].1) by {
        let j = choose|j: int| 0 <= j < i && fs[j].id.0 == table[k].1;
        assert(0 <= j < i + 1 && fs[j].id.0 == table[k].1);
    }
    assert forall|f: u32| #[trigger] red.contains_key(f) implies (exists|k: int|
        0 <= k < table.len() && table[k].1 == red[f]) && exists|j: int| 0 <= j < i + 1 && fs[j].id.0 == f by {
        let j = choose|j: int| 0 <= j < i && fs[j].id.0 == f;
        assert(0 <= j < i + 1 && fs[j].id.0 == f);
    }
}

proof fn lemma_scan_keeps_targets(fs: Seq<Function>, i: int, table: Seq<(Seq<u8>, u32)>, red: Map<u32, u32>)
    requires
        0 <= i <= fs.len(),
        distinct_function_ids(fs),
        scan_invariant(fs, i, table, red),
    ensures
        forall|f: u32|
            dedup_scan(fs, i, table, red).contains_key(f) ==> !dedup_scan(fs, i, table, red).contains_key(
                #[trigger] dedup_scan(fs, i, table, red)[f],
            ) && exists|j: int| 0 <= j < fs.len() && fs[j].id.0 == dedup_scan(fs, i, table, red)[f],
    decreases fs.len() - i,
{
    if i < fs.len() {
        if fs[i].size_estimate < MIN_DEDUP_SIZE {
            lemma_invariant_extends(fs, i, table, red);
            lemma_scan_keeps_targets(fs, i + 1, table, red);
            assert(dedup_scan(fs, i, table, red) == dedup_scan(fs, i + 1, table, red));
        } else {
            let key = function_key(fs[i]);
            let id = fs[i].id.0;
            assert forall|k: int| 0 <= k < table.len() implies table[k].1 != id by {
                let j = choose|j: int| 0 <= j < i && fs[j].id.0 == table[k].1;
            }
            assert(!red.contains_key(id)) by {
                if red.contains_key(id) {
                    let j = choose|j: int| 0 <= j < i && fs[j].id.0 == id;
                }
            }
            match table_lookup(table, key, 0) {
                Some(c) => {
                    lemma_table_lookup(table, key, 0);
                    let red2 = red.insert(id, c);
                    assert(scan_invariant(fs, i + 1, table, red2)) by {
                        assert forall|f: u32| #[trigger] red2.contains_key(f) implies (exists|k: int|
                            0 <= k < table.len() && table[k].1 == red2[f]) && exists|j: int|
                            0 <= j < i + 1 && fs[j].id.0 == f by {
                            if f == id {
                                assert(fs[i].id.0 == f);
                            } else {
                                let j = choose|j: int| 0 <= j < i && fs[j].id.0 == f;
                                assert(0 <= j < i + 1 && fs[j].id.0 == f);
                            }
                        }
                        assert forall|k: int| 0 <= k < table.len() implies (exists|j: int|
                            0 <= j < i + 1 && fs[j].id.0 == #[trigger] table[k].1) && !red2.contains_key(table[k].1) by {
                            let j = choose|j: int| 0 <= j < i && fs[j].id.0 == table[k].1;
                            assert(0 <= j < i + 1 && fs[j].id.0 == table[k].1);
                        }
                    }
                    lemma_scan_keeps_targets(fs, i + 1, table, red2);
                    assert(dedup_scan(fs, i, table, red) == dedup_scan(fs, i + 1, table, red2));
                },
                None => {
                    let table2 = table.push((key, id));
                    assert(scan_invariant(fs, i + 1, table2, red)) by {
                        assert forall|k: int| 0 <= k < table2.len() implies (exists|j: int|
                            0 <= j < i + 1 && fs[j].id.0 == #[trigger] table2[k].1) && !red.contains_key(table2[k].1) by {
                            if k == table.len() {
                                assert(fs[i].id.0 == table2[k].1);
                            } else {
                                let j = choose|j: int| 0 <= j < i && fs[j].id.0 == table[k].1;
                                assert(0 <= j < i + 1 && fs[j].id.0 == table2[k].1);
                            }
                        }
                        assert forall|f: u32| #[trigger] red.contains_key(f) implies (exists|k: int|
                            0 <= k < table2.len() && table2[k].1 == red[f]) && exists|j: int|
                            0 <= j < i + 1 && fs[j].id.0 == f by {
                            let k = choose|k: int| 0 <= k < table.len() && table[k].1 == red[f];
                            assert(table2[k].1 == red[f]);
                            let j = choose|j: int| 0 <= j < i && fs[j].id.0 == f;
                            assert(0 <= j < i + 1 && fs[j].id.0 == f);
                        }
                    }
                    lemma_scan_keeps_targets(fs, i + 1, table2, red);
                    assert(dedup_scan(fs, i, table, red) == dedup_scan(fs, i + 1, table2, red));
                },
            }
        }
    } else {
        assert(dedup_scan(fs, i, table, red) == red);
        assert forall|f: u32| red.contains_key(f) implies !red.contains_key(#[trigger] red[f]) && exists|j: int|
            0 <= j < fs.len() && fs[j].id.0 == red[f] by {
            let k = choose|k: int| 0 <= k < table.len() && table[k].1 == red[f];
            let j = choose|j: int| 0 <= j < i && fs[j].id.0 == table[k].1;
        }
    }
}

/// Deduplication redirects only to functions that stay: when the functions'
/// ids are distinct, every redirected function is redirected to the id of a
/// function of the object that is not itself redirected.
pub proof fn law_redirect_targets_are_kept(fs: Seq<Function>)
    requires
        distinct_function_ids(fs),
    ensures
        forall|f: u32|
            dedup_redirects(fs).contains_key(f) ==> !dedup_redirects(fs).contains_key(
                #[trigger] dedup_redirects(fs)[f],
            ) && exists|j: int| 0 <= j < fs.len() && fs[j].id.0 == dedup_redirects(fs)[f],
{
    lemma_scan_keeps_targets(fs, 0, Seq::empty(), Map::empty());
}

/// The functions of `fs[..n]` that are not redirected, in order.
pub open spec fn kept_functions(fs: Seq<Function>, red: Map<u32, u32>, n: nat) -> Seq<Function>
    decreases n,
{
    if n == 0 || n > fs.len() {
        Seq::empty()
    } else {
        let prev = kept_functions(fs, red, (n - 1) as nat);
        if red.contains_key(fs[n - 1].id.0) {
            prev
        } else {
            prev.push(fs[n - 1])
        }
    }
}

/// `f2` is `f` with its body's calls redirected.
pub open spec fn redirected_function(red: Map<u32, u32>, f: Function, f2: Function) -> bool {
    &&& f2.id == f.id
    &&& f2.name == f.name
    &&& f2.parameters == f.parameters
    &&& f2.returns == f.returns
    &&& f2.return_values_initial == f.return_values_initial
    &&& f2.return_values == f.return_values
    &&& f2.call_count == f.call_count
    &&& f2.size_estimate == f.size_estimate
    &&& redirected_list(red, f.body.statements@, f2.body.statements@)
}

/// Whether two byte lists are equal.
fn bytes_equal(a: &Vec<u8>, b: &Vec<u8>) -> (r: bool)
    ensures
        r == (a@ == b@),
{
    if a.len() != b.len() {
        return false;
    }
    let n = a.len();
    for i in 0..n
        invariant
            n == a@.len(),
            n == b@.len(),
            forall|k: int| 0 <= k < i ==> a@[k] == b@[k],
    {
        if a[i] != b[i] {
            return false;
        }
    }
    proof {
        assert(a@ =~= b@);
    }
    true
}

/// The function id recorded for an encoding, if any.
fn find_canonical(table: &Vec<(Vec<u8>, FunctionId)>, key: &Vec<u8>) -> (r: Option<FunctionId>)
    ensures
        r == (match table_lookup(table_view(table@), key@, 0) {
            Some(c) => Some(FunctionId(c)),
            None => None,
        }),
{
    let n = table.len();
    for i in 0..n
        invariant
            n == table@.len(),
            table_lookup(table_view(table@), key@, i as int) == table_lookup(table_view(table@), key@, 0),
    {
        if bytes_equal(&table[i].0, key) {
            return Some(table[i].1);
        }
    }
    None
}

/// The table of encodings as sequences.
pub open spec fn table_view(t: Seq<(Vec<u8>, FunctionId)>) -> Seq<(Seq<u8>, u32)> {
    t.map_values(|e: (Vec<u8>, FunctionId)| (e.0@, e.1.0))
}

/// The parameter types of a function, as a list.
fn collect_parameter_types(function: &Function) -> (r: Vec<Type>)
    ensures
        r@ == parameter_types(*function),
{
    let mut r: Vec<Type> = Vec::new();
    let n = function.parameters.len();
    for i in 0..n
        invariant
            n == function.parameters@.len(),
            r@ == parameter_types(*function).take(i as int),
    {
        r.push(function.parameters[i].1);
        proof {
            assert(parameter_types(*function).take(i + 1) =~= parameter_types(*function).take(
                i as int,
            ).push(function.parameters@[i as int].1));
        }
    }
    proof {
        assert(parameter_types(*function).take(n as int) =~= parameter_types(*function));
    }
    r
}

/// A copy of a list of types.
fn copy_types(ts: &Vec<Type>) -> (r: Vec<Type>)
    ensures
        r@ == ts@,
{
    let mut r: Vec<Type> = Vec::new();
    let n = ts.len();
    for i in 0..n
        invariant
            n == ts@.len(),
            r@ == ts@.take(i as int),
    {
        r.push(ts[i]);
        proof {
            assert(ts@.take(i + 1) =~= ts@.take(i as int).push(ts@[i as int]));
        }
    }
    proof {
        assert(ts@.take(n as int) =~= ts@);
    }
    r
}

/// Deduplicates functions with identical bodies in an object.
///
/// Two functions are duplicates when they have the same parameter and return
/// types and structurally identical bodies (equal up to value numbering). Functions
/// too small to be worth sharing are left alone. Calls to a duplicate are
/// redirected to the first function seen with its body, and the duplicate is
/// removed. Returns the number of functions removed.
pub fn deduplicate_functions(object: &mut Object) -> (r: usize)
    ensures
        old(object).functions@.len() < 2 || dedup_redirects(old(object).functions@).len() == 0
            ==> *final(object) == *old(object) && r == 0,
        old(object).functions@.len() >= 2 ==> r == dedup_redirects(old(object).functions@).len(),
        old(object).functions@.len() >= 2 && dedup_redirects(old(object).functions@).len() > 0 ==> {
            let red = dedup_redirects(old(object).functions@);
            let kept = kept_functions(old(object).functions@, red, old(object).functions@.len());
            &&& final(object).name == old(object).name
            &&& final(object).subobjects == old(object).subobjects
            &&& final(object).data == old(object).data
            &&& redirected_list(red, old(object).code.statements@, final(object).code.statements@)
            &&& final(object).functions@.len() == kept.len()
            &&& forall|i: int|
                0 <= i < kept.len() ==> redirected_function(red, kept[i], #[trigger] final(object).functions@[i])
        },
{
    if object.functions.len() < 2 {
        return 0;
    }
    let ghost fs = object.functions@;
    let mut table: Vec<(Vec<u8>, FunctionId)> = Vec::new();
    let mut redirects: BTreeMap<u32, u32> = BTreeMap::new();
    proof {
        assert(table_view(table@) =~= Seq::<(Seq<u8>, u32)>::empty());
    }
    let n = object.functions.len();
    for i in 0..n
        invariant
            n == fs.len(),
            object.functions@ == fs,
            dedup_scan(fs, i as int, table_view(table@), redirects@) == dedup_redirects(fs),
    {
        let function = &object.functions[i];
        if function.size_estimate >= MIN_DEDUP_SIZE {
            let parameter_types = collect_parameter_types(function);
            let return_types = copy_types(&function.returns);
            let canonical = canonicalize_function(function, &parameter_types, &return_types);
            match find_canonical(&table, &canonical) {
                Some(canonical_id) => {
                    redirects.insert(function.id.0, canonical_id.0);
                },
                None => {
                    let ghost t0 = table_view(table@);
                    table.push((canonical, function.id));
                    proof {
                        assert(table_view(table@) =~= t0.push((function_key(fs[i as int]), fs[i as int].id.0)));
                    }
                },
            }
        }
    }
    if redirects.len() == 0 {
        return 0;
    }
    let removed_count = redirects.len();
    let ghost red = redirects@;
    let mut code = Block { statements: Vec::new() };
    std::mem::swap(&mut code, &mut object.code);
    object.code = Block { statements: redirect_statements(code.statements, &redirects) };
    let mut functions: Vec<Function> = Vec::new();
    std::mem::swap(&mut functions, &mut object.functions);
    let ghost code1 = object.code;
    for i in 0..n
        invariant
            n == fs.len(),
            functions@.len() == n,
            redirects@ == red,
            object.name == old(object).name,
            object.subobjects == old(object).subobjects,
            object.data == old(object).data,
            object.code == code1,
            forall|k: int| i <= k < n ==> #[trigger] functions@[k] == fs[k],
            object.functions@.len() == kept_functions(fs, red, i as nat).len(),
            forall|k: int|
                0 <= k < object.functions@.len() ==> redirected_function(
                    red,
                    kept_functions(fs, red, i as nat)[k],
                    #[trigger] object.functions@[k],
                ),
    {
        let mut function = Function {
            id: FunctionId(0),
            name: String::new(),
            parameters: Vec::new(),
            returns: Vec::new(),
            return_values_initial: Vec::new(),
            return_values: Vec::new(),
            body: Block { statements: Vec::new() },
            call_count: 0,
            size_estimate: 0,
        };
        std::mem::swap(&mut function, &mut functions[i]);
        proof {
            assert(function == fs[i as int]);
        }
        if !redirects.contains_key(&function.id.0) {
            let Function {
                id,
                name,
                parameters,
                returns: return_types,
                return_values_initial,
                return_values,
                body,
                call_count,
                size_estimate,
            } = function;
            let body = Block { statements: redirect_statements(body.statements, &redirects) };
            object.functions.push(
                Function {
                    id,
                    name,
                    parameters,
                    returns: return_types,
                    return_values_initial,
                    return_values,
                    body,
                    call_count,
                    size_estimate,
                },
            );
        }
    }
    removed_count
}

} // verus!
