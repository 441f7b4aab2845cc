//! Renaming the value ids that statements use.
//!
//! A renaming maps each used id through a function; the ids that statements
//! bind stay as they are. Renaming a statement renames the statements of its
//! nested regions and what those regions yield.

use crate::ir::{Expression, Region, Statement, SwitchCase, Value, ValueId};
use vstd::prelude::*;

verus! {

/// A value with its id renamed.
pub open spec fn renamed_value(v: Value, f: spec_fn(u32) -> u32) -> Value {
    Value { id: ValueId(f(v.id.0)), ..v }
}

/// A list of values with their ids renamed.
pub open spec fn renamed_values(vs: Seq<Value>, f: spec_fn(u32) -> u32) -> Seq<Value> {
    vs.map_values(|v: Value| renamed_value(v, f))
}

/// An optional value with its id renamed.
pub open spec fn renamed_opt(v: Option<Value>, f: spec_fn(u32) -> u32) -> Option<Value> {
    match v {
        Some(x) => Some(renamed_value(x, f)),
        None => None,
    }
}

/// `r` is `e` with the ids it uses renamed.
pub open spec fn renamed_expression(e: Expression, r: Expression, f: spec_fn(u32) -> u32) -> bool {
    let rv = |v: Value| renamed_value(v, f);
    match e {
        Expression::Var(id) => r == Expression::Var(ValueId(f(id.0))),
        Expression::Binary { operation, lhs, rhs } => r == Expression::Binary {
            operation,
            lhs: rv(lhs),
            rhs: rv(rhs),
        },
        Expression::Ternary { operation, a, b, n } => r == Expression::Ternary {
            operation,
            a: rv(a),
            b: rv(b),
            n: rv(n),
        },
        Expression::Unary { operation, operand } => r == Expression::Unary { operation, operand: rv(operand) },
        Expression::CallDataLoad { offset } => r == Expression::CallDataLoad { offset: rv(offset) },
        Expression::ExtCodeSize { address } => r == Expression::ExtCodeSize { address: rv(address) },
        Expression::ExtCodeHash { address } => r == Expression::ExtCodeHash { address: rv(address) },
        Expression::BlockHash { number } => r == Expression::BlockHash { number: rv(number) },
        Expression::BlobHash { index } => r == Expression::BlobHash { index: rv(index) },
        Expression::Balance { address } => r == Expression::Balance { address: rv(address) },
        Expression::MLoad { offset, region } => r == Expression::MLoad { offset: rv(offset), region },
        Expression::SLoad { key, static_slot } => r matches Expression::SLoad { key: k2, static_slot: s2 }
            && k2 == rv(key) && s2 == static_slot,
        Expression::TLoad { key } => r == Expression::TLoad { key: rv(key) },
        Expression::Call { function, arguments } => r matches Expression::Call {
            function: f2,
            arguments: a2,
        } && f2 == function && a2@ == renamed_values(arguments@, f),
        Expression::Truncate { value, to } => r == Expression::Truncate { value: rv(value), to },
        Expression::ZeroExtend { value, to } => r == Expression::ZeroExtend { value: rv(value), to },
        Expression::SignExtendTo { value, to } => r == Expression::SignExtendTo { value: rv(value), to },
        Expression::Keccak256 { offset, length } => r == Expression::Keccak256 {
            offset: rv(offset),
            length: rv(length),
        },
        Expression::Keccak256Pair { word0, word1 } => r == Expression::Keccak256Pair {
            word0: rv(word0),
            word1: rv(word1),
        },
        Expression::Keccak256Single { word0 } => r == Expression::Keccak256Single { word0: rv(word0) },
        Expression::MappingSLoad { key, slot } => r == Expression::MappingSLoad {
            key: rv(key),
            slot: rv(slot),
        },
        _ => r == e,
    }
}

/// `r` is region `a` with the ids its statements and yields use renamed.
pub open spec fn renamed_region(a: Region, r: Region, f: spec_fn(u32) -> u32) -> bool
    decreases a, 0int,
{
    r.yields@ == renamed_values(a.yields@, f) && renamed_list(a.statements@, r.statements@, f, 0)
}

/// `r[i..]` is `s[i..]` renamed, statement by statement, and both have the same length.
pub open spec fn renamed_list(s: Seq<Statement>, r: Seq<Statement>, f: spec_fn(u32) -> u32, i: int) -> bool
    decreases s, s.len() - i,
{
    if i < 0 || i >= s.len() {
        r.len() == s.len()
    } else {
        renamed_statement(s[i], r[i], f) && renamed_list(s, r, f, i + 1)
    }
}

/// `r[j..]` are the cases `c[j..]` renamed, and both have the same length.
pub open spec fn renamed_cases(c: Seq<SwitchCase>, r: Seq<SwitchCase>, f: spec_fn(u32) -> u32, j: int) -> bool
    decreases c, c.len() - j,
{
    if j < 0 || j >= c.len() {
        r.len() == c.len()
    } else {
        r[j].value == c[j].value && renamed_region(c[j].body, r[j].body, f) && renamed_cases(c, r, f, j + 1)
    }
}

/// `r` is statement `s` with the ids it uses renamed, nested regions included.
pub open spec fn renamed_statement(s: Statement, r: Statement, f: spec_fn(u32) -> u32) -> bool
    decreases s, 1int,
{
    let rv = |v: Value| renamed_value(v, f);
    match s {
        Statement::Let { bindings, value } => r matches Statement::Let { bindings: b2, value: v2 } && b2
            == bindings && renamed_expression(value, v2, f),
        Statement::MStore { offset, value, region } => r == Statement::MStore {
            offset: rv(offset),
            value: rv(value),
            region,
        },
        Statement::MStore8 { offset, value, region } => r == Statement::MStore8 {
            offset: rv(offset),
            value: rv(value),
            region,
        },
        Statement::MCopy { dest, src, length } => r == Statement::MCopy {
            dest: rv(dest),
            src: rv(src),
            length: rv(length),
        },
        Statement::SStore { key, value, static_slot } => r matches Statement::SStore {
            key: k2,
            value: v2,
            static_slot: s2,
        } && k2 == rv(key) && v2 == rv(value) && s2 == static_slot,
        Statement::TStore { key, value } => r == Statement::TStore { key: rv(key), value: rv(value) },
        Statement::MappingSStore { key, slot, value } => r == Statement::MappingSStore {
            key: rv(key),
            slot: rv(slot),
            value: rv(value),
        },
        Statement::If { condition, inputs, then_region, else_region, outputs } => r matches Statement::If {
            condition: c2,
            inputs: i2,
            then_region: t2,
            else_region: e2,
            outputs: o2,
        } && c2 == rv(condition) && i2@ == renamed_values(inputs@, f) && o2 == outputs
            && renamed_region(then_region, t2, f) && match else_region {
            Some(er) => e2 matches Some(er2) && renamed_region(er, er2, f),
            None => e2 is None,
        },
        Statement::Switch { scrutinee, inputs, cases, default, outputs } => r matches Statement::Switch {
            scrutinee: s2,
            inputs: i2,
            cases: c2,
            default: d2,
            outputs: o2,
        } && s2 == rv(scrutinee) && i2@ == renamed_values(inputs@, f) && o2 == outputs && renamed_cases(
            cases@,
            c2@,
            f,
            0,
        ) && match default {
            Some(d) => d2 matches Some(dd) && renamed_region(d, dd, f),
            None => d2 is None,
        },
        Statement::For {
            initial_values,
            loop_variables,
            condition_statements,
            condition,
            body,
            post_input_variables,
            post,
            outputs,
        } => r matches Statement::For {
            initial_values: iv2,
            loop_variables: lv2,
            condition_statements: cs2,
            condition: c2,
            body: b2,
            post_input_variables: pv2,
            post: p2,
            outputs: o2,
        } && iv2@ == renamed_values(initial_values@, f) && lv2 == loop_variables && renamed_list(
            condition_statements@,
            cs2@,
            f,
            0,
        ) && renamed_expression(condition, c2, f) && renamed_region(body, b2, f) && pv2
            == post_input_variables && renamed_region(post, p2, f) && o2 == outputs,
        Statement::Break { values } => r matches Statement::Break { values: v2 } && v2@ == renamed_values(
            values@,
            f,
        ),
        Statement::Continue { values } => r matches Statement::Continue { values: v2 } && v2@
            == renamed_values(values@, f),
        Statement::Leave { return_values } => r matches Statement::Leave { return_values: v2 } && v2@
            == renamed_values(return_values@, f),
        Statement::Revert { offset, length } => r == Statement::Revert { offset: rv(offset), length: rv(length) },
        Statement::Return { offset, length } => r == Statement::Return { offset: rv(offset), length: rv(length) },
        Statement::CustomErrorRevert { selector, arguments } => r matches Statement::CustomErrorRevert {
            selector: s2,
            arguments: a2,
        } && s2 == selector && a2@ == renamed_values(arguments@, f),
        Statement::SelfDestruct { address } => r == Statement::SelfDestruct { address: rv(address) },
        Statement::ExternalCall {
            kind,
            gas,
            address,
            value,
            args_offset,
            args_length,
            ret_offset,
            ret_length,
            result,
        } => r == Statement::ExternalCall {
            kind,
            gas: rv(gas),
            address: rv(address),
            value: renamed_opt(value, f),
            args_offset: rv(args_offset),
            args_length: rv(args_length),
            ret_offset: rv(ret_offset),
            ret_length: rv(ret_length),
            result,
        },
        Statement::Create { kind, value, offset, length, salt, result } => r == Statement::Create {
            kind,
            value: rv(value),
            offset: rv(offset),
            length: rv(length),
            salt: renamed_opt(salt, f),
            result,
        },
        Statement::Log { offset, length, topics } => r matches Statement::Log {
            offset: o2,
            length: l2,
            topics: t2,
        } && o2 == rv(offset) && l2 == rv(length) && t2@ == renamed_values(topics@, f),
        Statement::CodeCopy { dest, offset, length } => r == Statement::CodeCopy {
            dest: rv(dest),
            offset: rv(offset),
            length: rv(length),
        },
        Statement::ExtCodeCopy { address, dest, offset, length } => r == Statement::ExtCodeCopy {
            address: rv(address),
            dest: rv(dest),
            offset: rv(offset),
            length: rv(length),
        },
        Statement::ReturnDataCopy { dest, offset, length } => r == Statement::ReturnDataCopy {
            dest: rv(dest),
            offset: rv(offset),
            length: rv(length),
        },
        Statement::DataCopy { dest, offset, length } => r == Statement::DataCopy {
            dest: rv(dest),
            offset: rv(offset),
            length: rv(length),
        },
        Statement::CallDataCopy { dest, offset, length } => r == Statement::CallDataCopy {
            dest: rv(dest),
            offset: rv(offset),
            length: rv(length),
        },
        Statement::Block(region) => r matches Statement::Block(r2) && renamed_region(region, r2, f),
        Statement::Expression(e) => r matches Statement::Expression(e2) && renamed_expression(e, e2, f),
        Statement::SetImmutable { key, value } => r matches Statement::SetImmutable { key: k2, value: v2 } && k2
            == key && v2 == rv(value),
        _ => r == s,
    }
}

/// The renaming that sends `from` to `to` and keeps every other id.
pub open spec fn replace_id(from: u32, to: u32) -> spec_fn(u32) -> u32 {
    |id: u32| if id == from { to } else { id }
}

fn rv(v: Value, from: ValueId, to: ValueId) -> (r: Value)
    ensures
        r == renamed_value(v, replace_id(from.0, to.0)),
{
    if v.id.0 == from.0 {
        Value { id: to, ..v }
    } else {
        v
    }
}

fn rvs(vs: Vec<Value>, from: ValueId, to: ValueId) -> (r: Vec<Value>)
    ensures
        r@ == renamed_values(vs@, replace_id(from.0, to.0)),
{
    let mut out: Vec<Value> = Vec::new();
    for i in 0..vs.len()
        invariant
            out@ == renamed_values(vs@.subrange(0, i as int), replace_id(from.0, to.0)),
    {
        out.push(rv(vs[i], from, to));
        proof {
            assert(vs@.subrange(0, i + 1) =~= vs@.subrange(0, i as int).push(vs@[i as int]));
            assert(out@ =~= renamed_values(vs@.subrange(0, i + 1), replace_id(from.0, to.0)));
        }
    }
    proof {
        assert(vs@.subrange(0, vs@.len() as int) =~= vs@);
    }
    out
}

fn ropt(v: Option<Value>, from: ValueId, to: ValueId) -> (r: Option<Value>)
    ensures
        r == renamed_opt(v, replace_id(from.0, to.0)),
{
    match v {
        Some(x) => Some(rv(x, from, to)),
        None => None,
    }
}

/// Renames the uses of `from` in an expression to `to`.
pub fn rename_expression(e: Expression, from: ValueId, to: ValueId) -> (r: Expression)
    ensures
        renamed_expression(e, r, replace_id(from.0, to.0)),
{
    match e {
        Expression::Var(id) => Expression::Var(if id.0 == from.0 { to } else { id }),
        Expression::Binary { operation, lhs, rhs } => Expression::Binary {
            operation,
            lhs: rv(lhs, from, to),
            rhs: rv(rhs, from, to),
        },
        Expression::Ternary { operation, a, b, n } => Expression::Ternary {
            operation,
            a: rv(a, from, to),
            b: rv(b, from, to),
            n: rv(n, from, to),
        },
        Expression::Unary { operation, operand } => Expression::Unary { operation, operand: rv(operand, from, to) },
        Expression::CallDataLoad { offset } => Expression::CallDataLoad { offset: rv(offset, from, to) },
        Expression::ExtCodeSize { address } => Expression::ExtCodeSize { address: rv(address, from, to) },
        Expression::ExtCodeHash { address } => Expression::ExtCodeHash { address: rv(address, from, to) },
        Expression::BlockHash { number } => Expression::BlockHash { number: rv(number, from, to) },
        Expression::BlobHash { index } => Expression::BlobHash { index: rv(index, from, to) },
        Expression::Balance { address } => Expression::Balance { address: rv(address, from, to) },
        Expression::MLoad { offset, region } => Expression::MLoad { offset: rv(offset, from, to), region },
        Expression::SLoad { key, static_slot } => Expression::SLoad { key: rv(key, from, to), static_slot },
        Expression::TLoad { key } => Expression::TLoad { key: rv(key, from, to) },
        Expression::Call { function, arguments } => Expression::Call {
            function,
            arguments: rvs(arguments, from, to),
        },
        Expression::Truncate { value, to: width } => Expression::Truncate { value: rv(value, from, to), to: width },
        Expression::ZeroExtend { value, to: width } => Expression::ZeroExtend {
            value: rv(value, from, to),
            to: width,
        },
        Expression::SignExtendTo { value, to: width } => Expression::SignExtendTo {
            value: rv(value, from, to),
            to: width,
        },
        Expression::Keccak256 { offset, length } => Expression::Keccak256 {
            offset: rv(offset, from, to),
            length: rv(length, from, to),
        },
        Expression::Keccak256Pair { word0, word1 } => Expression::Keccak256Pair {
            word0: rv(word0, from, to),
            word1: rv(word1, from, to),
        },
        Expression::Keccak256Single { word0 } => Expression::Keccak256Single { word0: rv(word0, from, to) },
        Expression::MappingSLoad { key, slot } => Expression::MappingSLoad {
            key: rv(key, from, to),
            slot: rv(slot, from, to),
        },
        other => other,
    }
}

/// Renames the uses of `from` in a region to `to`.
pub fn rename_region(region: Region, from: ValueId, to: ValueId) -> (r: Region)
    ensures
        renamed_region(region, r, replace_id(from.0, to.0)),
    decreases region, 1int,
{
    let Region { statements, yields } = region;
    let statements = rename_statements(statements, from, to);
    Region { statements, yields: rvs(yields, from, to) }
}

proof fn lemma_renamed_list(s: Seq<Statement>, r: Seq<Statement>, f: spec_fn(u32) -> u32, i: int)
    requires
        0 <= i <= s.len(),
        r.len() == s.len(),
        forall|k: int| 0 <= k < s.len() ==> renamed_statement(s[k], #[trigger] r[k], f),
    ensures
        renamed_list(s, r, f, i),
    decreases s.len() - i,
{
    if i < s.len() {
        lemma_renamed_list(s, r, f, i + 1);
    }
}

proof fn lemma_renamed_cases(c: Seq<SwitchCase>, r: Seq<SwitchCase>, f: spec_fn(u32) -> u32, j: int)
    requires
        0 <= j <= c.len(),
        r.len() == c.len(),
        forall|k: int|
            0 <= k < c.len() ==> (#[trigger] r[k]).value == c[k].value && renamed_region(c[k].body, r[k].body, f),
    ensures
        renamed_cases(c, r, f, j),
    decreases c.len() - j,
{
    if j < c.len() {
        lemma_renamed_cases(c, r, f, j + 1);
    }
}

/// Renames the uses of `from` in a list of statements to `to`.
#[verifier::loop_isolation(false)]
pub fn rename_statements(statements: Vec<Statement>, from: ValueId, to: ValueId) -> (r: Vec<Statement>)
    ensures
        renamed_list(statements@, r@, replace_id(from.0, to.0), 0),
    decreases statements@, 1int,
{
    let ghost s1 = statements@;
    let mut statements = statements;
    let n = statements.len();
    for i in 0..n
        invariant
            n == s1.len(),
            statements@.len() == n,
            forall|k: int| i <= k < n ==> #[trigger] statements@[k] == s1[k],
            forall|k: int| 0 <= k < i ==> renamed_statement(s1[k], #[trigger] statements@[k], replace_id(from.0, to.0)),
    {
        let mut statement = Statement::Stop;
        std::mem::swap(&mut statement, &mut statements[i]);
        proof {
            assert(statement == s1[i as int]);
        }
        let renamed = rename_statement(statement, from, to);
        statements.set(i, renamed);
    }
    proof {
        lemma_renamed_list(s1, statements@, replace_id(from.0, to.0), 0);
    }
    statements
}

/// Renames the uses of `from` in switch cases to `to`.
#[verifier::loop_isolation(false)]
fn rename_cases(cases: Vec<SwitchCase>, from: ValueId, to: ValueId) -> (r: Vec<SwitchCase>)
    ensures
        renamed_cases(cases@, r@, replace_id(from.0, to.0), 0),
    decreases cases@, 1int,
{
    let ghost c1 = cases@;
    let mut cases = cases;
    let n = cases.len();
    for j in 0..n
        invariant
            n == c1.len(),
            cases@.len() == n,
            forall|k: int| j <= k < n ==> #[trigger] cases@[k] == c1[k],
            forall|k: int|
                0 <= k < j ==> (#[trigger] cases@[k]).value == c1[k].value && renamed_region(
                    c1[k].body,
                    cases@[k].body,
                    replace_id(from.0, to.0),
                ),
    {
        let mut case = SwitchCase {
            value: crate::uint::Uint::zero(),
            body: Region { statements: Vec::new(), yields: Vec::new() },
        };
        std::mem::swap(&mut case, &mut cases[j]);
        proof {
            assert(case == c1[j as int]);
        }
        let SwitchCase { value, body } = case;
        let body = rename_region(body, from, to);
        cases.set(j, SwitchCase { value, body });
    }
    proof {
        lemma_renamed_cases(c1, cases@, replace_id(from.0, to.0), 0);
    }
    cases
}

/// Renames the uses of `from` in a statement to `to`, nested regions included.
pub fn rename_statement(s: Statement, from: ValueId, to: ValueId) -> (r: Statement)
    ensures
        renamed_statement(s, r, replace_id(from.0, to.0)),
    decreases s, 2int,
{
    match s {
        Statement::Let { bindings, value } => Statement::Let { bindings, value: rename_expression(value, from, to) },
        Statement::MStore { offset, value, region } => Statement::MStore {
            offset: rv(offset, from, to),
            value: rv(value, from, to),
            region,
        },
        Statement::MStore8 { offset, value, region } => Statement::MStore8 {
            offset: rv(offset, from, to),
            value: rv(value, from, to),
            region,
        },
        Statement::MCopy { dest, src, length } => Statement::MCopy {
            dest: rv(dest, from, to),
            src: rv(src, from, to),
            length: rv(length, from, to),
        },
        Statement::SStore { key, value, static_slot } => Statement::SStore {
            key: rv(key, from, to),
            value: rv(value, from, to),
            static_slot,
        },
        Statement::TStore { key, value } => Statement::TStore { key: rv(key, from, to), value: rv(value, from, to) },
        Statement::MappingSStore { key, slot, value } => Statement::MappingSStore {
            key: rv(key, from, to),
            slot: rv(slot, from, to),
            value: rv(value, from, to),
        },
        Statement::If { condition, inputs, then_region, else_region, outputs } => {
            let then_region = rename_region(then_region, from, to);
            let else_region = match else_region {
                Some(r) => Some(rename_region(r, from, to)),
                None => None,
            };
            Statement::If {
                condition: rv(condition, from, to),
                inputs: rvs(inputs, from, to),
                then_region,
                else_region,
                outputs,
            }
        },
        Statement::Switch { scrutinee, inputs, cases, default, outputs } => {
            let cases = rename_cases(cases, from, to);
            let default = match default {
                Some(r) => Some(rename_region(r, from, to)),
                None => None,
            };
            Statement::Switch {
                scrutinee: rv(scrutinee, from, to),
                inputs: rvs(inputs, from, to),
                cases,
                default,
                outputs,
            }
        },
        Statement::For {
            initial_values,
            loop_variables,
            condition_statements,
            condition,
            body,
            post_input_variables,
            post,
            outputs,
        } => {
            let condition_statements = rename_statements(condition_statements, from, to);
            let body = rename_region(body, from, to);
            let post = rename_region(post, from, to);
            Statement::For {
                initial_values: rvs(initial_values, from, to),
                loop_variables,
                condition_statements,
                condition: rename_expression(condition, from, to),
                body,
                post_input_variables,
                post,
                outputs,
            }
        },
        Statement::Break { values } => Statement::Break { values: rvs(values, from, to) },
        Statement::Continue { values } => Statement::Continue { values: rvs(values, from, to) },
        Statement::Leave { return_values } => Statement::Leave { return_values: rvs(return_values, from, to) },
        Statement::Revert { offset, length } => Statement::Revert {
            offset: rv(offset, from, to),
            length: rv(length, from, to),
        },
        Statement::Return { offset, length } => Statement::Return {
            offset: rv(offset, from, to),
            length: rv(length, from, to),
        },
        Statement::CustomErrorRevert { selector, arguments } => Statement::CustomErrorRevert {
            selector,
            arguments: rvs(arguments, from, to),
        },
        Statement::SelfDestruct { address } => Statement::SelfDestruct { address: rv(address, from, to) },
        Statement::ExternalCall {
            kind,
            gas,
            address,
            value,
            args_offset,
            args_length,
            ret_offset,
            ret_length,
            result,
        } => Statement::ExternalCall {
            kind,
            gas: rv(gas, from, to),
            address: rv(address, from, to),
            value: ropt(value, from, to),
            args_offset: rv(args_offset, from, to),
            args_length: rv(args_length, from, to),
            ret_offset: rv(ret_offset, from, to),
            ret_length: rv(ret_length, from, to),
            result,
        },
        Statement::Create { kind, value, offset, length, salt, result } => Statement::Create {
            kind,
            value: rv(value, from, to),
            offset: rv(offset, from, to),
            length: rv(length, from, to),
            salt: ropt(salt, from, to),
            result,
        },
        Statement::Log { offset, length, topics } => Statement::Log {
            offset: rv(offset, from, to),
            length: rv(length, from, to),
            topics: rvs(topics, from, to),
        },
        Statement::CodeCopy { dest, offset, length } => Statement::CodeCopy {
            dest: rv(dest, from, to),
            offset: rv(offset, from, to),
            length: rv(length, from, to),
        },
        Statement::ExtCodeCopy { address, dest, offset, length } => Statement::ExtCodeCopy {
            address: rv(address, from, to),
            dest: rv(dest, from, to),
            offset: rv(offset, from, to),
            length: rv(length, from, to),
        },
        Statement::ReturnDataCopy { dest, offset, length } => Statement::ReturnDataCopy {
            dest: rv(dest, from, to),
            offset: rv(offset, from, to),
            length: rv(length, from, to),
        },
        Statement::DataCopy { dest, offset, length } => Statement::DataCopy {
            dest: rv(dest, from, to),
            offset: rv(offset, from, to),
            length: rv(length, from, to),
        },
        Statement::CallDataCopy { dest, offset, length } => Statement::CallDataCopy {
            dest: rv(dest, from, to),
            offset: rv(offset, from, to),
            length: rv(length, from, to),
        },
        Statement::Block(region) => Statement::Block(rename_region(region, from, to)),
        Statement::Expression(e) => Statement::Expression(rename_expression(e, from, to)),
        Statement::SetImmutable { key, value } => Statement::SetImmutable { key, value: rv(value, from, to) },
        other => other,
    }
}

} // verus!
