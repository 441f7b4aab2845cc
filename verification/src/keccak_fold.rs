//! Folding of Keccak-256 hashes whose words are constants.
//!
//! Scratch memory is volatile in compiler-generated code, so a hash of constant
//! words can be computed at compile time without writing the words to memory.

use crate::fold::{fold_keccak256_pair, fold_keccak256_single, keccak_pair_value, keccak_single_value};
use crate::ir::{BitWidth, Block, Expression, Function, Object, Region, Statement, SwitchCase, Type, ValueId};
use crate::uint::Uint;
use std::collections::BTreeMap;
use vstd::prelude::*;

verus! {

broadcast use vstd::laws_cmp::group_laws_cmp;

/// A map of constants viewed as numbers.
pub open spec fn constants_view(m: Map<u32, Uint>) -> Map<u32, nat> {
    m.map_values(|u: Uint| u@)
}

/// The value of a literal expression.
pub open spec fn literal_value(e: Expression) -> Option<nat> {
    match e {
        Expression::Literal { value, .. } => Some(value@),
        _ => None,
    }
}

/// The hash that a Keccak expression folds to, when all its words are known.
pub open spec fn keccak_fold_value(c: Map<u32, nat>, e: Expression) -> Option<nat> {
    match e {
        Expression::Keccak256Single { word0 } => if c.contains_key(word0.id.0) {
            Some(keccak_single_value(c[word0.id.0]))
        } else {
            None
        },
        Expression::Keccak256Pair { word0, word1 } => if c.contains_key(word0.id.0) && c.contains_key(
            word1.id.0,
        ) {
            Some(keccak_pair_value(c[word0.id.0], c[word1.id.0]))
        } else {
            None
        },
        _ => None,
    }
}

/// `e2` is `e` folded: a 256-bit literal of the hash when its words are known,
/// else `e` itself.
pub open spec fn keccak_folded_expression(c: Map<u32, nat>, e: Expression, e2: Expression) -> bool {
    match keccak_fold_value(c, e) {
        Some(v) => e2 matches Expression::Literal { value, value_type } && value@ == v && value_type
            == Type::Int(BitWidth::I256),
        None => e2 == e,
    }
}

/// The constants known after a binding of `bindings` to `value` (before folding):
/// a single binding of a literal, before and after folding, is known.
pub open spec fn constants_after_let(c: Map<u32, nat>, bindings: Seq<ValueId>, value: Expression) -> Map<
    u32,
    nat,
> {
    let c1 = if bindings.len() == 1 && literal_value(value) is Some {
        c.insert(bindings[0].0, literal_value(value)->0)
    } else {
        c
    };
    let folded = match keccak_fold_value(c1, value) {
        Some(v) => Some(v),
        None => literal_value(value),
    };
    if bindings.len() == 1 && folded is Some {
        c1.insert(bindings[0].0, folded->0)
    } else {
        c1
    }
}

/// The constants known after a statement at the same level: bindings add to them,
/// and so do the condition statements of a loop; nested regions work on copies.
pub open spec fn constants_after(c: Map<u32, nat>, st: Statement) -> Map<u32, nat>
    decreases st, 0int,
{
    match st {
        Statement::Let { bindings, value } => constants_after_let(c, bindings@, value),
        Statement::For { condition_statements, .. } => constants_after_list(c, condition_statements@, 0),
        _ => c,
    }
}

/// The constants known after statements `stmts[i..]`.
pub open spec fn constants_after_list(c: Map<u32, nat>, stmts: Seq<Statement>, i: int) -> Map<u32, nat>
    decreases stmts, stmts.len() - i,
{
    if i < 0 || i >= stmts.len() {
        c
    } else {
        constants_after_list(constants_after(c, stmts[i]), stmts, i + 1)
    }
}

/// `r2` is region `r` with its statements folded from the constants `c`.
pub open spec fn keccak_folded_region(c: Map<u32, nat>, r: Region, r2: Region) -> bool
    decreases r, 0int,
{
    r2.yields == r.yields && keccak_folded_list(c, r.statements@, r2.statements@)
}

/// `st2` is statement `st` folded from the constants `c`.
pub open spec fn keccak_folded_statement(c: Map<u32, nat>, st: Statement, st2: Statement) -> bool
    decreases st, 0int,
{
    match st {
        Statement::Let { bindings, value } => {
            let c1 = if bindings.len() == 1 && literal_value(value) is Some {
                c.insert(bindings[0].0, literal_value(value)->0)
            } else {
                c
            };
            st2 matches Statement::Let { bindings: b2, value: v2 } && b2 == bindings
                && keccak_folded_expression(c1, value, v2)
        },
        Statement::If { condition, inputs, then_region, else_region, outputs } => st2 matches Statement::If {
            condition: c2,
            inputs: i2,
            then_region: t2,
            else_region: e2,
            outputs: o2,
        } && c2 == condition && i2 == inputs && o2 == outputs && keccak_folded_region(
            c,
            then_region,
            t2,
        ) && match else_region {
            Some(r) => e2 matches Some(r2) && keccak_folded_region(c, r, r2),
            None => e2 is None,
        },
        Statement::Switch { scrutinee, inputs, cases, default, outputs } => st2 matches Statement::Switch {
            scrutinee: s2,
            inputs: i2,
            cases: cs2,
            default: d2,
            outputs: o2,
        } && s2 == scrutinee && i2 == inputs && o2 == outputs && cs2@.len() == cases@.len()
            && keccak_folded_cases(c, cases@, cs2@, 0) && match default {
            Some(r) => d2 matches Some(r2) && keccak_folded_region(c, r, r2),
            None => d2 is None,
        },
        Statement::For {
            initial_values,
            loop_variables,
            condition_statements,
            condition,
            body,
            post_input_variables,
            post,
            outputs,
        } => {
            let c1 = constants_after_list(c, condition_statements@, 0);
            st2 matches Statement::For {
                initial_values: iv2,
                loop_variables: lv2,
                condition_statements: cs2,
                condition: cond2,
                body: b2,
                post_input_variables: pv2,
                post: p2,
                outputs: o2,
            } && iv2 == initial_values && lv2 == loop_variables && cond2 == condition && pv2
                == post_input_variables && o2 == outputs && keccak_folded_list(
                c,
                condition_statements@,
                cs2@,
            ) && keccak_folded_region(c1, body, b2) && keccak_folded_region(c1, post, p2)
        },
        Statement::Block(r) => st2 matches Statement::Block(r2) && keccak_folded_region(c, r, r2),
        _ => st2 == st,
    }
}

/// `s2` is the statement list `s1` folded from the constants `c`, each statement
/// seeing the constants of those before it.
pub open spec fn keccak_folded_list(c: Map<u32, nat>, s1: Seq<Statement>, s2: Seq<Statement>) -> bool
    decreases s1, s1.len() + 1,
{
    s2.len() == s1.len() && keccak_folded_from(c, s1, s2, 0)
}

/// Statements `i..` of `s2` are those of `s1` folded, from the constants `c`.
pub open spec fn keccak_folded_from(c: Map<u32, nat>, s1: Seq<Statement>, s2: Seq<Statement>, i: int) -> bool
    decreases s1, s1.len() - i,
{
    if i < 0 || i >= s1.len() {
        true
    } else {
        keccak_folded_statement(c, s1[i], s2[i]) && keccak_folded_from(
            constants_after(c, s1[i]),
            s1,
            s2,
            i + 1,
        )
    }
}

/// Cases `j..` of `cs2` are those of `cs1` with their bodies folded from `c`.
pub open spec fn keccak_folded_cases(c: Map<u32, nat>, cs1: Seq<SwitchCase>, cs2: Seq<SwitchCase>, j: int) -> bool
    decreases cs1, cs1.len() - j,
{
    if j < 0 || j >= cs1.len() {
        true
    } else {
        cs2[j].value == cs1[j].value && keccak_folded_region(c, cs1[j].body, cs2[j].body)
            && keccak_folded_cases(c, cs1, cs2, j + 1)
    }
}

/// `f2` is `f` with its body folded.
pub open spec fn keccak_folded_function(f: Function, f2: Function) -> bool {
    &&& f2.id == f.id
    &&& f2.name == f.name
    &&& f2.parameters == f.parameters
    &&& f2.returns == f.returns
    &&& f2.return_values_initial == f.return_values_initial
    &&& f2.return_values == f.return_values
    &&& f2.call_count == f.call_count
    &&& f2.size_estimate == f.size_estimate
    &&& keccak_folded_list(Map::empty(), f.body.statements@, f2.body.statements@)
}

/// The constants known before statement `k` of `s`.
pub open spec fn constants_before(c: Map<u32, nat>, s: Seq<Statement>, k: nat) -> Map<u32, nat>
    decreases k,
{
    if k == 0 {
        c
    } else {
        constants_after(constants_before(c, s, (k - 1) as nat), s[k - 1])
    }
}

proof fn lemma_folded_from_prefix(c: Map<u32, nat>, s1: Seq<Statement>, s2: Seq<Statement>, i: nat)
    requires
        i <= s1.len(),
        s2.len() == s1.len(),
        forall|k: nat|
            i <= k < s1.len() ==> keccak_folded_statement(
                constants_before(c, s1, k),
                s1[k as int],
                #[trigger] s2[k as int],
            ),
    ensures
        keccak_folded_from(constants_before(c, s1, i), s1, s2, i as int),
    decreases s1.len() - i,
{
    if i < s1.len() {
        lemma_folded_from_prefix(c, s1, s2, i + 1);
        assert(constants_before(c, s1, i + 1) == constants_after(constants_before(c, s1, i), s1[i as int]));
    }
}

proof fn lemma_constants_after_list(c: Map<u32, nat>, s: Seq<Statement>, i: nat)
    requires
        i <= s.len(),
    ensures
        constants_after_list(constants_before(c, s, i), s, i as int) == constants_before(c, s, s.len()),
    decreases s.len() - i,
{
    if i < s.len() {
        lemma_constants_after_list(c, s, i + 1);
    }
}

/// Folds a Keccak expression whose words are all known constants.
fn fold_keccak_expression(constants: &BTreeMap<u32, Uint>, value: Expression) -> (r: Expression)
    ensures
        keccak_folded_expression(constants_view(constants@), value, r),
{
    match value {
        Expression::Keccak256Single { word0 } => match constants.get(&word0.id.0) {
            Some(c) => Expression::Literal {
                value: fold_keccak256_single(c),
                value_type: Type::Int(BitWidth::I256),
            },
            None => Expression::Keccak256Single { word0 },
        },
        Expression::Keccak256Pair { word0, word1 } => {
            match (constants.get(&word0.id.0), constants.get(&word1.id.0)) {
                (Some(c0), Some(c1)) => Expression::Literal {
                    value: fold_keccak256_pair(c0, c1),
                    value_type: Type::Int(BitWidth::I256),
                },
                _ => Expression::Keccak256Pair { word0, word1 },
            }
        },
        other => other,
    }
}

/// Records a single binding of a literal as a known constant.
fn note_literal(constants: &mut BTreeMap<u32, Uint>, bindings: &Vec<ValueId>, value: &Expression)
    ensures
        constants_view(final(constants)@) == (if bindings@.len() == 1 && literal_value(*value) is Some {
            constants_view(old(constants)@).insert(bindings@[0].0, literal_value(*value)->0)
        } else {
            constants_view(old(constants)@)
        }),
{
    if bindings.len() == 1 {
        if let Expression::Literal { value: literal, .. } = value {
            let ghost before = constants_view(constants@);
            constants.insert(bindings[0].0, literal.clone());
            proof {
                assert(constants_view(constants@) =~= before.insert(bindings@[0].0, literal@));
            }
        }
    }
}

/// Folds the Keccak expressions of a region's statements, from a copy of the
/// constants.
fn fold_keccak_region(region: Region, constants: &BTreeMap<u32, Uint>) -> (r: Region)
    ensures
        keccak_folded_region(constants_view(constants@), region, r),
    decreases region, 1int,
{
    let Region { statements, yields } = region;
    let mut scope = constants.clone();
    let statements = fold_keccak_statements(statements, &mut scope);
    Region { statements, yields }
}

/// Folds the Keccak expressions of a statement and of its nested regions.
fn fold_keccak_statement(statement: Statement, constants: &mut BTreeMap<u32, Uint>) -> (r: Statement)
    ensures
        keccak_folded_statement(constants_view(old(constants)@), statement, r),
        constants_view(final(constants)@) == constants_after(constants_view(old(constants)@), statement),
    decreases statement, 1int,
{
    match statement {
        Statement::Let { bindings, value } => {
            note_literal(constants, &bindings, &value);
            let folded = fold_keccak_expression(constants, value);
            note_literal(constants, &bindings, &folded);
            Statement::Let { bindings, value: folded }
        },
        Statement::If { condition, inputs, then_region, else_region, outputs } => {
            let then_region = fold_keccak_region(then_region, constants);
            let else_region = match else_region {
                Some(r) => Some(fold_keccak_region(r, constants)),
                None => None,
            };
            Statement::If { condition, inputs, then_region, else_region, outputs }
        },
        Statement::Switch { scrutinee, inputs, cases, default, outputs } => {
            let cases = fold_keccak_cases(cases, constants);
            let default = match default {
                Some(r) => Some(fold_keccak_region(r, constants)),
                None => None,
            };
            Statement::Switch { scrutinee, inputs, cases, default, outputs }
        },
        Statement::For {
            initial_values,
            loop_variables,
            condition_statements,
            condition,
            body,
            post_input_variables,
            post,
            outputs,
        } => {
            let condition_statements = fold_keccak_statements(condition_statements, constants);
            let body = fold_keccak_region(body, constants);
            let post = fold_keccak_region(post, constants);
            Statement::For {
                initial_values,
                loop_variables,
                condition_statements,
                condition,
                body,
                post_input_variables,
                post,
                outputs,
            }
        },
        Statement::Block(region) => Statement::Block(fold_keccak_region(region, constants)),
        other => other,
    }
}

/// Folds the Keccak expressions of switch case bodies, each from a copy of the
/// constants.
#[verifier::loop_isolation(false)]
fn fold_keccak_cases(cases: Vec<SwitchCase>, constants: &BTreeMap<u32, Uint>) -> (r: Vec<SwitchCase>)
    ensures
        r@.len() == cases@.len(),
        keccak_folded_cases(constants_view(constants@), cases@, r@, 0),
    decreases cases@, 1int,
{
    let ghost c0 = constants_view(constants@);
    let ghost old_cases = cases@;
    let mut cases = cases;
    let n = cases.len();
    for j in 0..n
        invariant
            n == old_cases.len(),
            cases@.len() == n,
            c0 == constants_view(constants@),
            forall|k: int| j <= k < n ==> #[trigger] cases@[k] == old_cases[k],
            forall|k: int|
                0 <= k < j ==> (#[trigger] cases@[k]).value == old_cases[k].value
                    && keccak_folded_region(c0, old_cases[k].body, cases@[k].body),
    {
        let mut case = SwitchCase { value: Uint::zero(), body: Region { statements: Vec::new(), yields: Vec::new() } };
        std::mem::swap(&mut case, &mut cases[j]);
        proof {
            assert(case == old_cases[j as int]);
        }
        let SwitchCase { value, body } = case;
        let body = fold_keccak_region(body, constants);
        cases.set(j, SwitchCase { value, body });
    }
    proof {
        lemma_folded_cases(c0, old_cases, cases@, 0);
    }
    cases
}

proof fn lemma_folded_cases(c: Map<u32, nat>, cs1: Seq<SwitchCase>, cs2: Seq<SwitchCase>, j: nat)
    requires
        j <= cs1.len(),
        cs2.len() == cs1.len(),
        forall|k: int|
            0 <= k < cs1.len() ==> (#[trigger] cs2[k]).value == cs1[k].value && keccak_folded_region(
                c,
                cs1[k].body,
                cs2[k].body,
            ),
    ensures
        keccak_folded_cases(c, cs1, cs2, j as int),
    decreases cs1.len() - j,
{
    if j < cs1.len() {
        lemma_folded_cases(c, cs1, cs2, j + 1);
    }
}

/// Folds the Keccak expressions of a list of statements, tracking the constants
/// that bindings make known.
#[verifier::loop_isolation(false)]
fn fold_keccak_statements(statements: Vec<Statement>, constants: &mut BTreeMap<u32, Uint>) -> (r: Vec<Statement>)
    ensures
        keccak_folded_list(constants_view(old(constants)@), statements@, r@),
        constants_view(final(constants)@) == constants_after_list(
            constants_view(old(constants)@),
            statements@,
            0,
        ),
    decreases statements@, 1int,
{
    let ghost c0 = constants_view(constants@);
    let ghost s1 = statements@;
    let mut statements = statements;
    let n = statements.len();
    for i in 0..n
        invariant
            n == s1.len(),
            statements@.len() == n,
            constants_view(constants@) == constants_before(c0, s1, i as nat),
            forall|k: int| i <= k < n ==> #[trigger] statements@[k] == s1[k],
            forall|k: nat|
                k < i ==> keccak_folded_statement(
                    constants_before(c0, s1, k),
                    s1[k as int],
                    #[trigger] statements@[k as int],
                ),
    {
        let mut statement = Statement::Stop;
        std::mem::swap(&mut statement, &mut statements[i]);
        proof {
            assert(statement == s1[i as int]);
        }
        let folded = fold_keccak_statement(statement, constants);
        statements.set(i, folded);
    }
    proof {
        lemma_folded_from_prefix(c0, s1, statements@, 0);
        lemma_constants_after_list(c0, s1, 0);
        lemma_constants_after_list(c0, s1, n as nat);
    }
    statements
}

/// Folds every Keccak-256 hash of constant words in the object's code and
/// function bodies to a literal.
///
/// Each block starts with no known constants; a single binding of a literal makes
/// its value known to the statements after it and to nested regions, which work on
/// copies (what they learn stays inside them), except a loop's condition statements,
/// whose constants stay known after the loop. A folded hash binding is itself a
/// known constant afterwards. Scratch memory is never read back as data after a
/// hash in compiler-generated code, so the words need not be written.
pub fn fold_constant_keccak(object: &mut Object)
    ensures
        final(object).name == old(object).name,
        final(object).subobjects == old(object).subobjects,
        final(object).data == old(object).data,
        keccak_folded_list(Map::empty(), old(object).code.statements@, final(object).code.statements@),
        final(object).functions@.len() == old(object).functions@.len(),
        forall|i: int|
            0 <= i < old(object).functions@.len() ==> keccak_folded_function(
                old(object).functions@[i],
                #[trigger] final(object).functions@[i],
            ),
{
    let mut code = Block { statements: Vec::new() };
    std::mem::swap(&mut code, &mut object.code);
    let mut constants: BTreeMap<u32, Uint> = BTreeMap::new();
    proof {
        assert(constants_view(constants@) =~= Map::empty());
    }
    let statements = fold_keccak_statements(code.statements, &mut constants);
    object.code = Block { statements };
    let ghost fs0 = object.functions@;
    let ghost code1 = object.code;
    let n = object.functions.len();
    for i in 0..n
        invariant
            n == fs0.len(),
            object.name == old(object).name,
            object.subobjects == old(object).subobjects,
            object.data == old(object).data,
            object.code == code1,
            object.functions@.len() == n,
            forall|k: int| i <= k < n ==> #[trigger] object.functions@[k] == fs0[k],
            forall|k: int| 0 <= k < i ==> keccak_folded_function(fs0[k], #[trigger] object.functions@[k]),
    {
        let mut body = Block { statements: Vec::new() };
        std::mem::swap(&mut body, &mut object.functions[i].body);
        let mut constants: BTreeMap<u32, Uint> = BTreeMap::new();
        proof {
            assert(constants_view(constants@) =~= Map::empty());
        }
        let statements = fold_keccak_statements(body.statements, &mut constants);
        object.functions[i].body = Block { statements };
    }
}

} // verus!
