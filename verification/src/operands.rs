//! The value ids that statements use and define.
//!
//! A statement uses the ids of its operands, of the inputs it hands to nested
//! regions, of what those regions yield and, for a loop, of its condition. It
//! defines the ids it binds. Walks over nested regions collect the ids of a whole
//! statement tree.

use crate::ir::{Expression, Function, Object, Statement, SwitchCase, Value, ValueId};
use crate::walk::{visit_statement, visit_statements, walk_cases, walk_statement, walk_statements, StatementVisitor};
use std::collections::BTreeSet;
use vstd::prelude::*;

verus! {

/// The ids of a list of values.
pub open spec fn ids_of(vals: Seq<Value>) -> Set<u32> {
    Set::new(|id: u32| exists|i: int| 0 <= i < vals.len() && vals[i].id.0 == id)
}

/// The ids in a list of value ids.
pub open spec fn ids_in(ids: Seq<ValueId>) -> Set<u32> {
    Set::new(|id: u32| exists|i: int| 0 <= i < ids.len() && ids[i].0 == id)
}

/// The id of an optional value.
pub open spec fn opt_ids(v: Option<Value>) -> Set<u32> {
    match v {
        Some(x) => set![x.id.0],
        None => Set::empty(),
    }
}

/// The ids an expression uses.
pub open spec fn expression_uses(e: Expression) -> Set<u32> {
    match e {
        Expression::Var(id) => set![id.0],
        Expression::Binary { lhs, rhs, .. } => set![lhs.id.0, rhs.id.0],
        Expression::Ternary { a, b, n, .. } => set![a.id.0, b.id.0, n.id.0],
        Expression::Unary { operand, .. } => set![operand.id.0],
        Expression::CallDataLoad { offset } => set![offset.id.0],
        Expression::ExtCodeSize { address } => set![address.id.0],
        Expression::ExtCodeHash { address } => set![address.id.0],
        Expression::BlockHash { number } => set![number.id.0],
        Expression::BlobHash { index } => set![index.id.0],
        Expression::Balance { address } => set![address.id.0],
        Expression::MLoad { offset, .. } => set![offset.id.0],
        Expression::SLoad { key, .. } => set![key.id.0],
        Expression::TLoad { key } => set![key.id.0],
        Expression::Call { arguments, .. } => ids_of(arguments@),
        Expression::Truncate { value, .. } => set![value.id.0],
        Expression::ZeroExtend { value, .. } => set![value.id.0],
        Expression::SignExtendTo { value, .. } => set![value.id.0],
        Expression::Keccak256 { offset, length } => set![offset.id.0, length.id.0],
        Expression::Keccak256Pair { word0, word1 } => set![word0.id.0, word1.id.0],
        Expression::Keccak256Single { word0 } => set![word0.id.0],
        Expression::MappingSLoad { key, slot } => set![key.id.0, slot.id.0],
        _ => Set::empty(),
    }
}

/// The ids a statement itself uses: its operands, the inputs of its regions,
/// what its regions yield and a loop's condition; the statements inside its
/// regions are not included.
pub open spec fn statement_uses(s: Statement) -> Set<u32> {
    match s {
        Statement::Let { value, .. } => expression_uses(value),
        Statement::MStore { offset, value, .. } => set![offset.id.0, value.id.0],
        Statement::MStore8 { offset, value, .. } => set![offset.id.0, value.id.0],
        Statement::MCopy { dest, src, length } => set![dest.id.0, src.id.0, length.id.0],
        Statement::SStore { key, value, .. } => set![key.id.0, value.id.0],
        Statement::TStore { key, value } => set![key.id.0, value.id.0],
        Statement::MappingSStore { key, slot, value } => set![key.id.0, slot.id.0, value.id.0],
        Statement::If { condition, inputs, then_region, else_region, .. } => set![condition.id.0]
            + ids_of(inputs@) + ids_of(then_region.yields@) + match else_region {
            Some(r) => ids_of(r.yields@),
            None => Set::empty(),
        },
        Statement::Switch { scrutinee, inputs, cases, default, .. } => set![scrutinee.id.0] + ids_of(
            inputs@,
        ) + Set::new(
            |id: u32|
                exists|j: int, i: int|
                    0 <= j < cases@.len() && 0 <= i < cases@[j].body.yields@.len()
                        && cases@[j].body.yields@[i].id.0 == id,
        ) + match default {
            Some(r) => ids_of(r.yields@),
            None => Set::empty(),
        },
        Statement::For { initial_values, condition, body, post, .. } => ids_of(initial_values@)
            + expression_uses(condition) + ids_of(body.yields@) + ids_of(post.yields@),
        Statement::Break { values } => ids_of(values@),
        Statement::Continue { values } => ids_of(values@),
        Statement::Leave { return_values } => ids_of(return_values@),
        Statement::Revert { offset, length } => set![offset.id.0, length.id.0],
        Statement::Return { offset, length } => set![offset.id.0, length.id.0],
        Statement::CustomErrorRevert { arguments, .. } => ids_of(arguments@),
        Statement::SelfDestruct { address } => set![address.id.0],
        Statement::ExternalCall {
            gas,
            address,
            value,
            args_offset,
            args_length,
            ret_offset,
            ret_length,
            ..
        } => set![gas.id.0, address.id.0, args_offset.id.0, args_length.id.0, ret_offset.id.0, ret_length.id.0]
            + opt_ids(value),
        Statement::Create { value, offset, length, salt, .. } => set![value.id.0, offset.id.0, length.id.0]
            + opt_ids(salt),
        Statement::Log { offset, length, topics } => set![offset.id.0, length.id.0] + ids_of(topics@),
        Statement::CodeCopy { dest, offset, length } => set![dest.id.0, offset.id.0, length.id.0],
        Statement::ExtCodeCopy { address, dest, offset, length } => set![
            address.id.0,
            dest.id.0,
            offset.id.0,
            length.id.0,
        ],
        Statement::ReturnDataCopy { dest, offset, length } => set![dest.id.0, offset.id.0, length.id.0],
        Statement::DataCopy { dest, offset, length } => set![dest.id.0, offset.id.0, length.id.0],
        Statement::CallDataCopy { dest, offset, length } => set![dest.id.0, offset.id.0, length.id.0],
        Statement::Block(r) => ids_of(r.yields@),
        Statement::Expression(e) => expression_uses(e),
        Statement::SetImmutable { value, .. } => set![value.id.0],
        _ => Set::empty(),
    }
}

/// The ids a statement itself binds.
pub open spec fn statement_defs(s: Statement) -> Set<u32> {
    match s {
        Statement::Let { bindings, .. } => ids_in(bindings@),
        Statement::If { outputs, .. } => ids_in(outputs@),
        Statement::Switch { outputs, .. } => ids_in(outputs@),
        Statement::For { loop_variables, post_input_variables, outputs, .. } => ids_in(loop_variables@)
            + ids_in(post_input_variables@) + ids_in(outputs@),
        Statement::ExternalCall { result, .. } => set![result.0],
        Statement::Create { result, .. } => set![result.0],
        _ => Set::empty(),
    }
}

/// Adds the ids of a list of values.
pub fn add_ids(vals: &Vec<Value>, set: &mut BTreeSet<u32>)
    ensures
        final(set)@ == old(set)@ + ids_of(vals@),
{
    let ghost s0 = set@;
    for i in 0..vals.len()
        invariant
            set@ == s0 + Set::new(|id: u32| exists|k: int| 0 <= k < i && vals@[k].id.0 == id),
    {
        set.insert(vals[i].id.0);
        proof {
            assert(set@ =~= s0 + Set::new(|id: u32| exists|k: int| 0 <= k < i + 1 && vals@[k].id.0 == id)) by {
                assert forall|id: u32|
                    (exists|k: int| 0 <= k < i + 1 && vals@[k].id.0 == id) implies set@.contains(id) by {
                    let k = choose|k: int| 0 <= k < i + 1 && vals@[k].id.0 == id;
                    if k < i {
                        assert(exists|k2: int| 0 <= k2 < i && vals@[k2].id.0 == id);
                    }
                }
            }
        }
    }
    proof {
        assert(set@ =~= s0 + ids_of(vals@));
    }
}

/// Adds the ids in a list of value ids.
pub fn add_id_list(ids: &Vec<ValueId>, set: &mut BTreeSet<u32>)
    ensures
        final(set)@ == old(set)@ + ids_in(ids@),
{
    let ghost s0 = set@;
    for i in 0..ids.len()
        invariant
            set@ == s0 + Set::new(|id: u32| exists|k: int| 0 <= k < i && ids@[k].0 == id),
    {
        set.insert(ids[i].0);
        proof {
            assert(set@ =~= s0 + Set::new(|id: u32| exists|k: int| 0 <= k < i + 1 && ids@[k].0 == id)) by {
                assert forall|id: u32|
                    (exists|k: int| 0 <= k < i + 1 && ids@[k].0 == id) implies set@.contains(id) by {
                    let k = choose|k: int| 0 <= k < i + 1 && ids@[k].0 == id;
                    if k < i {
                        assert(exists|k2: int| 0 <= k2 < i && ids@[k2].0 == id);
                    }
                }
            }
        }
    }
    proof {
        assert(set@ =~= s0 + ids_in(ids@));
    }
}

fn add_one(v: &Value, set: &mut BTreeSet<u32>)
    ensures
        final(set)@ == old(set)@.insert(v.id.0),
{
    set.insert(v.id.0);
}

/// Adds the ids an expression uses.
pub fn add_expression_uses(e: &Expression, set: &mut BTreeSet<u32>)
    ensures
        final(set)@ == old(set)@ + expression_uses(*e),
{
    let ghost s0 = set@;
    match e {
        Expression::Var(id) => {
            set.insert(id.0);
        },
        Expression::Binary { lhs, rhs, .. } => {
            add_one(lhs, set);
            add_one(rhs, set);
        },
        Expression::Ternary { a, b, n, .. } => {
            add_one(a, set);
            add_one(b, set);
            add_one(n, set);
        },
        Expression::Unary { operand, .. } => add_one(operand, set),
        Expression::CallDataLoad { offset } => add_one(offset, set),
        Expression::ExtCodeSize { address } => add_one(address, set),
        Expression::ExtCodeHash { address } => add_one(address, set),
        Expression::BlockHash { number } => add_one(number, set),
        Expression::BlobHash { index } => add_one(index, set),
        Expression::Balance { address } => add_one(address, set),
        Expression::MLoad { offset, .. } => add_one(offset, set),
        Expression::SLoad { key, .. } => add_one(key, set),
        Expression::TLoad { key } => add_one(key, set),
        Expression::Call { arguments, .. } => add_ids(arguments, set),
        Expression::Truncate { value, .. } => add_one(value, set),
        Expression::ZeroExtend { value, .. } => add_one(value, set),
        Expression::SignExtendTo { value, .. } => add_one(value, set),
        Expression::Keccak256 { offset, length } => {
            add_one(offset, set);
            add_one(length, set);
        },
        Expression::Keccak256Pair { word0, word1 } => {
            add_one(word0, set);
            add_one(word1, set);
        },
        Expression::Keccak256Single { word0 } => add_one(word0, set),
        Expression::MappingSLoad { key, slot } => {
            add_one(key, set);
            add_one(slot, set);
        },
        _ => {},
    }
    proof {
        assert(set@ =~= s0 + expression_uses(*e));
    }
}

fn add_opt(v: &Option<Value>, set: &mut BTreeSet<u32>)
    ensures
        final(set)@ == old(set)@ + opt_ids(*v),
{
    let ghost s0 = set@;
    if let Some(x) = v {
        set.insert(x.id.0);
    }
    proof {
        assert(set@ =~= s0 + opt_ids(*v));
    }
}

/// Adds the ids a statement itself uses.
pub fn add_statement_uses(s: &Statement, set: &mut BTreeSet<u32>)
    ensures
        final(set)@ == old(set)@ + statement_uses(*s),
{
    let ghost s0 = set@;
    match s {
        Statement::Let { value, .. } => add_expression_uses(value, set),
        Statement::MStore { offset, value, .. } | Statement::MStore8 { offset, value, .. } => {
            add_one(offset, set);
            add_one(value, set);
        },
        Statement::MCopy { dest, src, length } => {
            add_one(dest, set);
            add_one(src, set);
            add_one(length, set);
        },
        Statement::SStore { key, value, .. } | Statement::TStore { key, value } => {
            add_one(key, set);
            add_one(value, set);
        },
        Statement::MappingSStore { key, slot, value } => {
            add_one(key, set);
            add_one(slot, set);
            add_one(value, set);
        },
        Statement::If { condition, inputs, then_region, else_region, .. } => {
            add_one(condition, set);
            add_ids(inputs, set);
            add_ids(&then_region.yields, set);
            if let Some(r) = else_region {
                add_ids(&r.yields, set);
            }
        },
        Statement::Switch { scrutinee, inputs, cases, default, .. } => {
            add_one(scrutinee, set);
            add_ids(inputs, set);
            let ghost s1 = set@;
            let ghost ys = Set::new(
                |id: u32|
                    exists|j: int, i: int|
                        0 <= j < cases@.len() && 0 <= i < cases@[j].body.yields@.len()
                            && cases@[j].body.yields@[i].id.0 == id,
            );
            for j in 0..cases.len()
                invariant
                    ys == Set::new(
                        |id: u32|
                            exists|jj: int, i: int|
                                0 <= jj < cases@.len() && 0 <= i < cases@[jj].body.yields@.len()
                                    && cases@[jj].body.yields@[i].id.0 == id,
                    ),
                    s1 <= set@,
                    set@ <= s1 + ys,
                    forall|jj: int, i: int|
                        0 <= jj < j && 0 <= i < cases@[jj].body.yields@.len() ==> set@.contains(
                            #[trigger] cases@[jj].body.yields@[i].id.0,
                        ),
            {
                let ghost before = set@;
                add_ids(&cases[j].body.yields, set);
                proof {
                    assert forall|id: u32| ids_of(cases@[j as int].body.yields@).contains(id) implies ys.contains(id) by {
                        let i = choose|i: int|
                            0 <= i < cases@[j as int].body.yields@.len() && cases@[j as int].body.yields@[i].id.0
                                == id;
                        let jj = j as int;
                        assert(0 <= jj < cases@.len() && 0 <= i < cases@[jj].body.yields@.len()
                            && cases@[jj].body.yields@[i].id.0 == id);
                    }
                    assert forall|jj: int, i: int|
                        0 <= jj < j + 1 && 0 <= i < cases@[jj].body.yields@.len() implies set@.contains(
                        #[trigger] cases@[jj].body.yields@[i].id.0,
                    ) by {
                        if jj == j {
                            assert(ids_of(cases@[j as int].body.yields@).contains(cases@[jj].body.yields@[i].id.0));
                        }
                    }
                }
            }
            proof {
                assert(set@ =~= s1 + ys);
            }
            if let Some(r) = default {
                add_ids(&r.yields, set);
            }
        },
        Statement::For { initial_values, condition, body, post, .. } => {
            add_ids(initial_values, set);
            add_expression_uses(condition, set);
            add_ids(&body.yields, set);
            add_ids(&post.yields, set);
        },
        Statement::Break { values } | Statement::Continue { values } => add_ids(values, set),
        Statement::Leave { return_values } => add_ids(return_values, set),
        Statement::Revert { offset, length } | Statement::Return { offset, length } => {
            add_one(offset, set);
            add_one(length, set);
        },
        Statement::CustomErrorRevert { arguments, .. } => add_ids(arguments, set),
        Statement::SelfDestruct { address } => add_one(address, set),
        Statement::ExternalCall {
            gas,
            address,
            value,
            args_offset,
            args_length,
            ret_offset,
            ret_length,
            ..
        } => {
            add_one(gas, set);
            add_one(address, set);
            add_one(args_offset, set);
            add_one(args_length, set);
            add_one(ret_offset, set);
            add_one(ret_length, set);
            add_opt(value, set);
        },
        Statement::Create { value, offset, length, salt, .. } => {
            add_one(value, set);
            add_one(offset, set);
            add_one(length, set);
            add_opt(salt, set);
        },
        Statement::Log { offset, length, topics } => {
            add_one(offset, set);
            add_one(length, set);
            add_ids(topics, set);
        },
        Statement::CodeCopy { dest, offset, length }
        | Statement::ReturnDataCopy { dest, offset, length }
        | Statement::DataCopy { dest, offset, length }
        | Statement::CallDataCopy { dest, offset, length } => {
            add_one(dest, set);
            add_one(offset, set);
            add_one(length, set);
        },
        Statement::ExtCodeCopy { address, dest, offset, length } => {
            add_one(address, set);
            add_one(dest, set);
            add_one(offset, set);
            add_one(length, set);
        },
        Statement::Block(r) => add_ids(&r.yields, set),
        Statement::Expression(e) => add_expression_uses(e, set),
        Statement::SetImmutable { value, .. } => add_one(value, set),
        _ => {},
    }
    proof {
        assert(set@ =~= s0 + statement_uses(*s));
    }
}

/// Adds the ids a statement itself binds.
pub fn add_statement_defs(s: &Statement, set: &mut BTreeSet<u32>)
    ensures
        final(set)@ == old(set)@ + statement_defs(*s),
{
    let ghost s0 = set@;
    match s {
        Statement::Let { bindings, .. } => add_id_list(bindings, set),
        Statement::If { outputs, .. } | Statement::Switch { outputs, .. } => add_id_list(outputs, set),
        Statement::For { loop_variables, post_input_variables, outputs, .. } => {
            add_id_list(loop_variables, set);
            add_id_list(post_input_variables, set);
            add_id_list(outputs, set);
        },
        Statement::ExternalCall { result, .. } | Statement::Create { result, .. } => {
            set.insert(result.0);
        },
        _ => {},
    }
    proof {
        assert(set@ =~= s0 + statement_defs(*s));
    }
}

/// Collects the ids that statements use, nested regions included.
pub struct UsesCollector {
    pub ids: BTreeSet<u32>,
}

impl StatementVisitor for UsesCollector {
    type State = Set<u32>;

    open spec fn state(&self) -> Set<u32> {
        self.ids@
    }

    open spec fn step(st: Set<u32>, s: Statement) -> Set<u32> {
        st + statement_uses(s)
    }

    open spec fn progress(a: Set<u32>, b: Set<u32>) -> bool {
        a <= b
    }

    proof fn lemma_progress_reflexive(a: Set<u32>) {
    }

    proof fn lemma_progress_transitive(a: Set<u32>, b: Set<u32>, c: Set<u32>) {
    }

    fn visit(&mut self, s: &Statement) {
        add_statement_uses(s, &mut self.ids);
    }
}

/// Collects the ids that statements bind, nested regions included.
pub struct DefsCollector {
    pub ids: BTreeSet<u32>,
}

impl StatementVisitor for DefsCollector {
    type State = Set<u32>;

    open spec fn state(&self) -> Set<u32> {
        self.ids@
    }

    open spec fn step(st: Set<u32>, s: Statement) -> Set<u32> {
        st + statement_defs(s)
    }

    open spec fn progress(a: Set<u32>, b: Set<u32>) -> bool {
        a <= b
    }

    proof fn lemma_progress_reflexive(a: Set<u32>) {
    }

    proof fn lemma_progress_transitive(a: Set<u32>, b: Set<u32>, c: Set<u32>) {
    }

    fn visit(&mut self, s: &Statement) {
        add_statement_defs(s, &mut self.ids);
    }
}

/// The ids that `statements` use, nested regions included, together with `extra`.
pub open spec fn used_in(statements: Seq<Statement>, extra: Set<u32>) -> Set<u32> {
    walk_statements::<UsesCollector>(extra, statements, 0)
}

/// The ids that a statement binds, nested regions included.
pub open spec fn defined_in(s: Statement) -> Set<u32> {
    walk_statement::<DefsCollector>(Set::empty(), s)
}

/// Collects the ids that `statements` use, nested regions included, together with `extra`.
pub fn used_ids(statements: &Vec<Statement>, extra: &BTreeSet<u32>) -> (r: BTreeSet<u32>)
    ensures
        r@ == used_in(statements@, extra@),
{
    let mut c = UsesCollector { ids: extra.clone() };
    visit_statements(&mut c, statements);
    c.ids
}

/// Collects the ids that a statement binds, nested regions included.
pub fn defined_ids(s: &Statement) -> (r: BTreeSet<u32>)
    ensures
        r@ == defined_in(*s),
{
    let mut c = DefsCollector { ids: BTreeSet::new() };
    visit_statement(&mut c, s);
    c.ids
}

} // verus!

verus! {

/// The largest id of a set of ids, or zero for an empty set.
pub fn max_of_ids(ids: &BTreeSet<u32>) -> (r: u32)
    ensures
        forall|x: u32| ids@.contains(x) ==> x <= r,
        (ids@.is_empty() && r == 0) || ids@.contains(r),
{
    broadcast use vstd::std_specs::btree::group_btree_axioms;
    let mut max: u32 = 0;
    for x in it: ids.iter()
        invariant
            forall|x: u32|
                #[trigger] ids@.contains(x) ==> (x <= max || exists|k: int|
                    it.index() <= k < it.seq().len() && *it.seq()[k] == x),
            max == 0 || ids@.contains(max),
    {
        let ghost i = it.index();
        if *x > max {
            proof {
                assert(ids@.contains(*x));
            }
            max = *x;
        }
        proof {
            assert forall|y: u32| #[trigger] ids@.contains(y) && !(y <= max) implies exists|k: int|
                i + 1 <= k < it.seq().len() && *it.seq()[k] == y by {
                let k = choose|k: int| i <= k < it.seq().len() && *it.seq()[k] == y;
                assert(k != i);
            }
        }
    }
    proof {
        if !ids@.is_empty() && !ids@.contains(max) {
            let y = ids@.choose();
            assert(ids@.contains(y));
        }
    }
    max
}

/// The ids that `statements` bind, nested regions included, together with `extra`.
pub open spec fn defined_in_list(statements: Seq<Statement>, extra: Set<u32>) -> Set<u32> {
    walk_statements::<DefsCollector>(extra, statements, 0)
}

/// Collects the ids that `statements` bind, nested regions included, together with `extra`.
pub fn defined_ids_list(statements: &Vec<Statement>, extra: &BTreeSet<u32>) -> (r: BTreeSet<u32>)
    ensures
        r@ == defined_in_list(statements@, extra@),
{
    let mut c = DefsCollector { ids: extra.clone() };
    visit_statements(&mut c, statements);
    c.ids
}

/// The ids a function names: its parameters, its return variables and what its
/// body uses and binds.
pub open spec fn function_value_ids(f: Function) -> Set<u32> {
    Set::new(|id: u32| exists|i: int| 0 <= i < f.parameters@.len() && f.parameters@[i].0.0 == id) + ids_in(
        f.return_values_initial@,
    ) + ids_in(f.return_values@) + used_in(f.body.statements@, Set::empty()) + defined_in_list(
        f.body.statements@,
        Set::empty(),
    )
}

/// The ids an object's code and functions name.
pub open spec fn object_value_ids(o: Object) -> Set<u32> {
    used_in(o.code.statements@, Set::empty()) + defined_in_list(o.code.statements@, Set::empty()) + Set::new(
        |id: u32| exists|j: int| 0 <= j < o.functions@.len() && function_value_ids(o.functions@[j]).contains(id),
    )
}

fn function_ids_set(f: &Function) -> (r: BTreeSet<u32>)
    ensures
        r@ == function_value_ids(*f),
{
    let mut ids: BTreeSet<u32> = BTreeSet::new();
    let ghost ps = Set::new(|id: u32| exists|i: int| 0 <= i < f.parameters@.len() && f.parameters@[i].0.0 == id);
    for i in 0..f.parameters.len()
        invariant
            ids@ == Set::new(|id: u32| exists|k: int| 0 <= k < i && f.parameters@[k].0.0 == id),
    {
        ids.insert(f.parameters[i].0.0);
        proof {
            assert(ids@ =~= Set::new(|id: u32| exists|k: int| 0 <= k < i + 1 && f.parameters@[k].0.0 == id)) by {
                assert forall|id: u32|
                    (exists|k: int| 0 <= k < i + 1 && f.parameters@[k].0.0 == id) implies ids@.contains(id) by {
                    let k = choose|k: int| 0 <= k < i + 1 && f.parameters@[k].0.0 == id;
                    if k < i {
                        assert(exists|k2: int| 0 <= k2 < i && f.parameters@[k2].0.0 == id);
                    }
                }
            }
        }
    }
    add_id_list(&f.return_values_initial, &mut ids);
    add_id_list(&f.return_values, &mut ids);
    let empty: BTreeSet<u32> = BTreeSet::new();
    let used = used_ids(&f.body.statements, &empty);
    let defs = defined_ids_list(&f.body.statements, &empty);
    let a = max_set_union(ids, used);
    let b = max_set_union(a, defs);
    proof {
        assert(empty@ =~= Set::empty());
        assert(b@ =~= function_value_ids(*f));
    }
    b
}

/// The union of two sets of ids.
fn max_set_union(a: BTreeSet<u32>, b: BTreeSet<u32>) -> (r: BTreeSet<u32>)
    ensures
        r@ == a@ + b@,
{
    broadcast use vstd::std_specs::btree::group_btree_axioms;
    let mut r = a;
    let ghost a0 = r@;
    for x in it: b.iter()
        invariant
            a0 <= r@,
            r@ <= a0 + b@,
            forall|y: u32|
                #[trigger] b@.contains(y) ==> (r@.contains(y) || exists|k: int|
                    it.index() <= k < it.seq().len() && *it.seq()[k] == y),
    {
        let ghost i = it.index();
        r.insert(*x);
        proof {
            assert forall|y: u32| #[trigger] b@.contains(y) && !r@.contains(y) implies exists|k: int|
                i + 1 <= k < it.seq().len() && *it.seq()[k] == y by {
                let k = choose|k: int| i <= k < it.seq().len() && *it.seq()[k] == y;
                assert(k != i);
            }
        }
    }
    proof {
        assert(r@ =~= a0 + b@);
    }
    r
}

/// The largest value id that the object's code and functions name (zero if none).
pub fn find_max_value_id(object: &Object) -> (r: u32)
    ensures
        forall|x: u32| object_value_ids(*object).contains(x) ==> x <= r,
        (object_value_ids(*object).is_empty() && r == 0) || object_value_ids(*object).contains(r),
{
    let empty: BTreeSet<u32> = BTreeSet::new();
    let used = used_ids(&object.code.statements, &empty);
    let defs = defined_ids_list(&object.code.statements, &empty);
    let mut all = max_set_union(used, defs);
    let ghost base = all@;
    proof {
        assert(empty@ =~= Set::empty());
    }
    for j in 0..object.functions.len()
        invariant
            all@ == base + Set::new(
                |id: u32| exists|k: int| 0 <= k < j && function_value_ids(object.functions@[k]).contains(id),
            ),
    {
        let f_ids = function_ids_set(&object.functions[j]);
        all = max_set_union(all, f_ids);
        proof {
            assert(all@ =~= base + Set::new(
                |id: u32| exists|k: int| 0 <= k < j + 1 && function_value_ids(object.functions@[k]).contains(id),
            )) by {
                assert forall|id: u32|
                    (exists|k: int| 0 <= k < j + 1 && function_value_ids(object.functions@[k]).contains(id))
                        implies all@.contains(id) by {
                    let k = choose|k: int| 0 <= k < j + 1 && function_value_ids(object.functions@[k]).contains(id);
                    if k < j {
                        assert(exists|k2: int| 0 <= k2 < j && function_value_ids(object.functions@[k2]).contains(id));
                    }
                }
            }
        }
    }
    proof {
        assert(all@ =~= object_value_ids(*object));
    }
    max_of_ids(&all)
}

/// The ids a statement uses, nested regions included.
pub open spec fn uses_of(s: Statement) -> Set<u32> {
    walk_statement::<UsesCollector>(Set::empty(), s)
}

/// Collecting uses from a set adds to it what collecting from nothing gives.
pub proof fn lemma_walk_statement_uses(acc: Set<u32>, s: Statement)
    ensures
        walk_statement::<UsesCollector>(acc, s) == acc + walk_statement::<UsesCollector>(Set::empty(), s),
    decreases s, 1int,
{
    let e = Set::<u32>::empty();
    let a1 = acc + statement_uses(s);
    let e1 = e + statement_uses(s);
    match s {
        Statement::If { then_region, else_region, .. } => {
            lemma_walk_statements_uses(a1, then_region.statements@, 0);
            lemma_walk_statements_uses(e1, then_region.statements@, 0);
            let t = walk_statements::<UsesCollector>(e, then_region.statements@, 0);
            match else_region {
                Some(r) => {
                    lemma_walk_statements_uses(a1 + t, r.statements@, 0);
                    lemma_walk_statements_uses(e1 + t, r.statements@, 0);
                    assert(walk_statement::<UsesCollector>(acc, s) =~= acc + walk_statement::<UsesCollector>(e, s));
                },
                None => {
                    assert(walk_statement::<UsesCollector>(acc, s) =~= acc + walk_statement::<UsesCollector>(e, s));
                },
            }
        },
        Statement::Switch { cases, default, .. } => {
            lemma_walk_cases_uses(a1, cases@, 0);
            lemma_walk_cases_uses(e1, cases@, 0);
            let c = walk_cases::<UsesCollector>(e, cases@, 0);
            match default {
                Some(d) => {
                    lemma_walk_statements_uses(a1 + c, d.statements@, 0);
                    lemma_walk_statements_uses(e1 + c, d.statements@, 0);
                    assert(walk_statement::<UsesCollector>(acc, s) =~= acc + walk_statement::<UsesCollector>(e, s));
                },
                None => {
                    assert(walk_statement::<UsesCollector>(acc, s) =~= acc + walk_statement::<UsesCollector>(e, s));
                },
            }
        },
        Statement::For { condition_statements, body, post, .. } => {
            lemma_walk_statements_uses(a1, condition_statements@, 0);
            lemma_walk_statements_uses(e1, condition_statements@, 0);
            let c = walk_statements::<UsesCollector>(e, condition_statements@, 0);
            lemma_walk_statements_uses(a1 + c, body.statements@, 0);
            lemma_walk_statements_uses(e1 + c, body.statements@, 0);
            let b = walk_statements::<UsesCollector>(e, body.statements@, 0);
            lemma_walk_statements_uses(a1 + c + b, post.statements@, 0);
            lemma_walk_statements_uses(e1 + c + b, post.statements@, 0);
            assert(walk_statement::<UsesCollector>(acc, s) =~= acc + walk_statement::<UsesCollector>(e, s));
        },
        Statement::Block(r) => {
            lemma_walk_statements_uses(a1, r.statements@, 0);
            lemma_walk_statements_uses(e1, r.statements@, 0);
            assert(walk_statement::<UsesCollector>(acc, s) =~= acc + walk_statement::<UsesCollector>(e, s));
        },
        _ => {
            assert(walk_statement::<UsesCollector>(acc, s) =~= acc + walk_statement::<UsesCollector>(e, s));
        },
    }
}

pub proof fn lemma_walk_statements_uses(acc: Set<u32>, ss: Seq<Statement>, i: int)
    ensures
        walk_statements::<UsesCollector>(acc, ss, i) == acc + walk_statements::<UsesCollector>(Set::empty(), ss, i),
    decreases ss, ss.len() - i,
{
    let e = Set::<u32>::empty();
    if 0 <= i < ss.len() {
        lemma_walk_statement_uses(acc, ss[i]);
        let w = walk_statement::<UsesCollector>(e, ss[i]);
        lemma_walk_statements_uses(acc + w, ss, i + 1);
        lemma_walk_statements_uses(w, ss, i + 1);
        assert(walk_statement::<UsesCollector>(e, ss[i]) == e + w) by {
            assert(e + w =~= w);
        }
        assert(walk_statements::<UsesCollector>(acc, ss, i) =~= acc + walk_statements::<UsesCollector>(e, ss, i));
    } else {
        assert(acc + e =~= acc);
    }
}

pub proof fn lemma_walk_cases_uses(acc: Set<u32>, cs: Seq<SwitchCase>, j: int)
    ensures
        walk_cases::<UsesCollector>(acc, cs, j) == acc + walk_cases::<UsesCollector>(Set::empty(), cs, j),
    decreases cs, cs.len() - j,
{
    let e = Set::<u32>::empty();
    if 0 <= j < cs.len() {
        lemma_walk_statements_uses(acc, cs[j].body.statements@, 0);
        let w = walk_statements::<UsesCollector>(e, cs[j].body.statements@, 0);
        lemma_walk_cases_uses(acc + w, cs, j + 1);
        lemma_walk_cases_uses(w, cs, j + 1);
        lemma_walk_statements_uses(e, cs[j].body.statements@, 0);
        assert(walk_cases::<UsesCollector>(acc, cs, j) =~= acc + walk_cases::<UsesCollector>(e, cs, j));
    } else {
        assert(acc + e =~= acc);
    }
}

/// The ids that `ss[i..]` use are `extra` and what each statement uses.
pub proof fn lemma_used_from(ss: Seq<Statement>, extra: Set<u32>, i: int)
    requires
        0 <= i,
    ensures
        forall|x: u32|
            #[trigger] walk_statements::<UsesCollector>(extra, ss, i).contains(x) <==> extra.contains(x) || exists|k: int|
                i <= k < ss.len() && uses_of(#[trigger] ss[k]).contains(x),
    decreases ss.len() - i,
{
    if i < ss.len() {
        let w = walk_statement::<UsesCollector>(extra, ss[i]);
        lemma_walk_statement_uses(extra, ss[i]);
        lemma_used_from(ss, w, i + 1);
        assert(walk_statements::<UsesCollector>(extra, ss, i) == walk_statements::<UsesCollector>(w, ss, i + 1));
        assert(w == extra + uses_of(ss[i]));
        assert forall|x: u32| #[trigger] walk_statements::<UsesCollector>(extra, ss, i).contains(x) <==> extra.contains(x)
            || exists|k: int| i <= k < ss.len() && uses_of(#[trigger] ss[k]).contains(x) by {
            if walk_statements::<UsesCollector>(w, ss, i + 1).contains(x) {
                if !extra.contains(x) {
                    if w.contains(x) {
                        assert(uses_of(ss[i]).contains(x));
                    } else {
                        let k = choose|k: int| i + 1 <= k < ss.len() && uses_of(#[trigger] ss[k]).contains(x);
                        assert(i <= k < ss.len() && uses_of(ss[k]).contains(x));
                    }
                }
            }
            if exists|k: int| i <= k < ss.len() && uses_of(#[trigger] ss[k]).contains(x) {
                let k = choose|k: int| i <= k < ss.len() && uses_of(#[trigger] ss[k]).contains(x);
                if k > i {
                    assert(i + 1 <= k < ss.len() && uses_of(ss[k]).contains(x));
                } else {
                    assert(w.contains(x));
                }
            }
        }
    }
}

/// Where every statement of `a` is one of `b`, `a` uses no id that `b` does not.
pub proof fn lemma_used_in_subset(a: Seq<Statement>, b: Seq<Statement>, extra: Set<u32>)
    requires
        forall|k: int| 0 <= k < a.len() ==> b.contains(#[trigger] a[k]),
    ensures
        used_in(a, extra) <= used_in(b, extra),
{
    lemma_used_from(a, extra, 0);
    lemma_used_from(b, extra, 0);
    assert forall|x: u32| used_in(a, extra).contains(x) implies used_in(b, extra).contains(x) by {
        assert(walk_statements::<UsesCollector>(extra, a, 0).contains(x));
        if !extra.contains(x) {
            let k = choose|k: int| 0 <= k < a.len() && uses_of(#[trigger] a[k]).contains(x);
            assert(b.contains(a[k]));
            let j = choose|j: int| 0 <= j < b.len() && b[j] == a[k];
            assert(uses_of(b[j]).contains(x));
        }
        assert(walk_statements::<UsesCollector>(extra, b, 0).contains(x));
    }
}

} // verus!
