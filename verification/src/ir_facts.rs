//! Facts that code generation reads off the IR before it emits code: reverts
//! with empty data, argument validators, `callvalue` reads that only guard
//! branches, and how often mapping accesses and constant stores occur.

use crate::codegen::aborts_from;
use crate::ir::{BinaryOperation, Expression, Function, Object, Region, Statement, UnaryOperation, Value};
use crate::uint::{nat_and, nat_bits, two_pow, uint_add, uint_and, uint_bits, uint_from_u64, uint_is_zero, uint_rem, uint_shl, uint_to_u64, Uint};
use crate::operands::{add_ids, ids_of, opt_ids};
use crate::walk::{visit_bodies, visit_statements, walk_bodies, walk_statements, StatementVisitor};
use std::collections::{BTreeMap, BTreeSet};
use vstd::prelude::*;

verus! {

// ---------------------------------------------------------------------------
// Reverts with empty data.

/// Whether `stmts[i..]`, after zero literals bound to the ids in `zeros`, is a
/// run of zero literal bindings and reverts whose offset and length are among
/// them, with at least one revert (`found` says whether one came before).
pub open spec fn zero_revert_from(stmts: Seq<Statement>, zeros: Set<u32>, found: bool, i: int) -> bool
    decreases stmts.len() - i,
{
    if i < 0 || i >= stmts.len() {
        found
    } else {
        match stmts[i] {
            Statement::Let { bindings, value } => match value {
                Expression::Literal { value: v, .. } => v@ == 0 && zero_revert_from(
                    stmts,
                    zeros + Set::new(|id: u32| exists|k: int| 0 <= k < bindings@.len() && bindings@[k].0 == id),
                    found,
                    i + 1,
                ),
                _ => false,
            },
            Statement::Revert { offset, length } => zeros.contains(offset.id.0) && zeros.contains(length.id.0)
                && zero_revert_from(stmts, zeros, true, i + 1),
            _ => false,
        }
    }
}

/// Returns whether a region only binds zero literals and reverts with them:
/// a revert with empty data. The operands must be bound within the region; a
/// revert whose operands come from an enclosing scope cannot be shown empty.
pub fn is_revert_zero_region(region: &Region) -> (r: bool)
    ensures
        r == zero_revert_from(region.statements@, Set::empty(), false, 0),
{
    let mut zeros: BTreeSet<u32> = BTreeSet::new();
    let mut found = false;
    let n = region.statements.len();
    for i in 0..n
        invariant
            n == region.statements@.len(),
            zero_revert_from(region.statements@, zeros@, found, i as int) == zero_revert_from(
                region.statements@,
                Set::empty(),
                false,
                0,
            ),
    {
        match &region.statements[i] {
            Statement::Let { bindings, value: Expression::Literal { value, .. } } => {
                if !uint_is_zero(value) {
                    return false;
                }
                let ghost z0 = zeros@;
                for k in 0..bindings.len()
                    invariant
                        zeros@ == z0 + Set::new(|id: u32| exists|q: int| 0 <= q < k && bindings@[q].0 == id),
                {
                    zeros.insert(bindings[k].0);
                    proof {
                        assert(zeros@ =~= z0 + Set::new(|id: u32| exists|q: int| 0 <= q < k + 1 && bindings@[q].0 == id))
                            by {
                            assert forall|id: u32|
                                (exists|q: int| 0 <= q < k + 1 && bindings@[q].0 == id) implies zeros@.contains(id) by {
                                let q = choose|q: int| 0 <= q < k + 1 && bindings@[q].0 == id;
                                if q < k {
                                    assert(exists|q2: int| 0 <= q2 < k && bindings@[q2].0 == id);
                                }
                            }
                        }
                    }
                }
                proof {
                    assert(zeros@ =~= z0 + Set::new(
                        |id: u32| exists|q: int| 0 <= q < bindings@.len() && bindings@[q].0 == id,
                    ));
                }
            },
            Statement::Let { .. } => {
                return false;
            },
            Statement::Revert { offset, length } => {
                if !zeros.contains(&offset.id.0) || !zeros.contains(&length.id.0) {
                    return false;
                }
                found = true;
            },
            _ => {
                return false;
            },
        }
    }
    found
}

// ---------------------------------------------------------------------------
// Argument validators.

/// What a scan of a validator body has seen: constants, `and`, `eq` and
/// `iszero` bindings, by bound id.
#[verifier::ext_equal]
pub struct ValidatorFacts {
    pub constants: Map<u32, nat>,
    pub ands: Map<u32, (u32, u32)>,
    pub eqs: Map<u32, (u32, u32)>,
    pub iszeros: Map<u32, u32>,
}

/// The facts after a single binding of `b` to `e`.
pub open spec fn note_binding(f: ValidatorFacts, b: u32, e: Expression) -> ValidatorFacts {
    match e {
        Expression::Literal { value, .. } => ValidatorFacts { constants: f.constants.insert(b, value@), ..f },
        Expression::Binary { operation, lhs, rhs } => if operation == BinaryOperation::And {
            ValidatorFacts { ands: f.ands.insert(b, (lhs.id.0, rhs.id.0)), ..f }
        } else if operation == BinaryOperation::Eq {
            ValidatorFacts { eqs: f.eqs.insert(b, (lhs.id.0, rhs.id.0)), ..f }
        } else {
            f
        },
        Expression::Unary { operation, operand } => if operation == UnaryOperation::IsZero {
            ValidatorFacts { iszeros: f.iszeros.insert(b, operand.id.0), ..f }
        } else {
            f
        },
        _ => f,
    }
}

/// The facts that maps of the scan hold.
pub open spec fn facts_of(
    c: Map<u32, Uint>,
    a: Map<u32, (u32, u32)>,
    e: Map<u32, (u32, u32)>,
    z: Map<u32, u32>,
) -> ValidatorFacts {
    ValidatorFacts { constants: c.map_values(|u: Uint| u@), ands: a, eqs: e, iszeros: z }
}

/// The other operand of a pair, where one of them is `p`.
pub open spec fn other_operand(pair: (u32, u32), p: u32) -> Option<u32> {
    if pair.0 == p {
        Some(pair.1)
    } else if pair.1 == p {
        Some(pair.0)
    } else {
        None
    }
}

/// Whether `m` is `2^N - 1` for some `N >= 1`.
pub open spec fn low_bits_mask(m: nat) -> bool {
    m != 0 && nat_and(m + 1, m) == 0
}

/// The mask of `if iszero(eq(p, and(p, M)))` with condition `cond`, where `M`
/// is a constant of the form `2^N - 1`.
pub open spec fn guard_mask(f: ValidatorFacts, cond: u32, p: u32) -> Option<nat> {
    if !f.iszeros.contains_key(cond) || !f.eqs.contains_key(f.iszeros[cond]) {
        None
    } else {
        match other_operand(f.eqs[f.iszeros[cond]], p) {
            None => None,
            Some(a) => if !f.ands.contains_key(a) {
                None
            } else {
                match other_operand(f.ands[a], p) {
                    None => None,
                    Some(c) => if f.constants.contains_key(c) && low_bits_mask(f.constants[c]) {
                        Some(f.constants[c])
                    } else {
                        None
                    },
                }
            },
        }
    }
}

/// The mask that a validator body `stmts[i..]` checks its parameter `p`
/// against: bindings, then an `if` without else whose branch aborts and whose
/// condition is the guard.
pub open spec fn validator_scan(stmts: Seq<Statement>, i: int, p: u32, f: ValidatorFacts, noreturn: Set<u32>) -> Option<nat>
    decreases stmts.len() - i,
{
    if i < 0 || i >= stmts.len() {
        None
    } else {
        match stmts[i] {
            Statement::Let { bindings, value } => if bindings@.len() != 1 {
                validator_scan(stmts, i + 1, p, f, noreturn)
            } else {
                validator_scan(stmts, i + 1, p, note_binding(f, bindings@[0].0, value), noreturn)
            },
            Statement::If { condition, then_region, else_region, .. } => if else_region is Some || !aborts_from(
                then_region.statements@,
                noreturn,
                0,
            ) {
                None
            } else {
                guard_mask(f, condition.id.0, p)
            },
            _ => None,
        }
    }
}

/// The mask a function validates its single parameter against, if its body is
/// `if iszero(eq(v, and(v, M))) { revert }` with `M = 2^N - 1`.
pub open spec fn validator_mask(function: Function, noreturn: Set<u32>) -> Option<nat> {
    if function.parameters@.len() != 1 || function.returns@.len() != 0 || function.body.statements@.len() < 5 {
        None
    } else {
        validator_scan(
            function.body.statements@,
            0,
            function.parameters@[0].0.0,
            ValidatorFacts { constants: Map::empty(), ands: Map::empty(), eqs: Map::empty(), iszeros: Map::empty() },
            noreturn,
        )
    }
}

fn lookup_pair(m: &BTreeMap<u32, (u32, u32)>, k: u32) -> (r: Option<(u32, u32)>)
    ensures
        r == (if m@.contains_key(k) {
            Some(m@[k])
        } else {
            None
        }),
{
    match m.get(&k) {
        Some(p) => Some(*p),
        None => None,
    }
}

fn other_of(pair: (u32, u32), p: u32) -> (r: Option<u32>)
    ensures
        r == other_operand(pair, p),
{
    if pair.0 == p {
        Some(pair.1)
    } else if pair.1 == p {
        Some(pair.0)
    } else {
        None
    }
}

/// Detects a validator: a function of one parameter and no results whose body
/// is `if iszero(eq(v, and(v, M))) { revert/panic }` with `M = 2^N - 1`, the
/// branch aborting on every path. Returns the mask.
pub fn extract_validator_mask(function: &Function, noreturn: &BTreeSet<u32>) -> (r: Option<Uint>)
    ensures
        match validator_mask(*function, noreturn@) {
            Some(m) => r matches Some(u) && u@ == m,
            None => r is None,
        },
{
    if function.parameters.len() != 1 || function.returns.len() != 0 {
        return None;
    }
    let p = function.parameters[0].0.0;
    let statements = &function.body.statements;
    if statements.len() < 5 {
        return None;
    }
    let mut constants: BTreeMap<u32, Uint> = BTreeMap::new();
    let mut ands: BTreeMap<u32, (u32, u32)> = BTreeMap::new();
    let mut eqs: BTreeMap<u32, (u32, u32)> = BTreeMap::new();
    let mut iszeros: BTreeMap<u32, u32> = BTreeMap::new();
    proof {
        assert(facts_of(constants@, ands@, eqs@, iszeros@) =~= ValidatorFacts {
            constants: Map::empty(),
            ands: Map::empty(),
            eqs: Map::empty(),
            iszeros: Map::empty(),
        });
    }
    let n = statements.len();
    for i in 0..n
        invariant
            n == statements@.len(),
            statements == &function.body.statements,
            function.parameters@.len() == 1,
            function.returns@.len() == 0,
            n >= 5,
            p == function.parameters@[0].0.0,
            validator_scan(statements@, i as int, p, facts_of(constants@, ands@, eqs@, iszeros@), noreturn@)
                == validator_mask(*function, noreturn@),
    {
        match &statements[i] {
            Statement::Let { bindings, value } => {
                if bindings.len() == 1 {
                    let b = bindings[0].0;
                    let ghost f0 = facts_of(constants@, ands@, eqs@, iszeros@);
                    match value {
                        Expression::Literal { value: v, .. } => {
                            constants.insert(b, v.clone());
                        },
                        Expression::Binary { operation, lhs, rhs } => {
                            if *operation == BinaryOperation::And {
                                ands.insert(b, (lhs.id.0, rhs.id.0));
                            } else if *operation == BinaryOperation::Eq {
                                eqs.insert(b, (lhs.id.0, rhs.id.0));
                            }
                        },
                        Expression::Unary { operation, operand } => {
                            if *operation == UnaryOperation::IsZero {
                                iszeros.insert(b, operand.id.0);
                            }
                        },
                        _ => {},
                    }
                    proof {
                        assert(facts_of(constants@, ands@, eqs@, iszeros@) =~= note_binding(f0, b, *value));
                    }
                }
            },
            Statement::If { condition, then_region, else_region, .. } => {
                if else_region.is_some() || !crate::codegen::then_region_aborts(then_region, noreturn) {
                    return None;
                }
                let ghost f = facts_of(constants@, ands@, eqs@, iszeros@);
                let neg = match iszeros.get(&condition.id.0) {
                    Some(x) => *x,
                    None => return None,
                };
                let eq_pair = match lookup_pair(&eqs, neg) {
                    Some(pair) => pair,
                    None => return None,
                };
                let and_id = match other_of(eq_pair, p) {
                    Some(a) => a,
                    None => return None,
                };
                let and_pair = match lookup_pair(&ands, and_id) {
                    Some(pair) => pair,
                    None => return None,
                };
                let mask_id = match other_of(and_pair, p) {
                    Some(c) => c,
                    None => return None,
                };
                let mask = match constants.get(&mask_id) {
                    Some(m) => m.clone(),
                    None => return None,
                };
                proof {
                    assert(f.constants.contains_key(mask_id) && f.constants[mask_id] == mask@);
                }
                if uint_is_zero(&mask) {
                    return None;
                }
                let one = uint_from_u64(1);
                let next = uint_add(&mask, &one);
                let overlap = uint_and(&next, &mask);
                if !uint_is_zero(&overlap) {
                    return None;
                }
                return Some(mask);
            },
            _ => {
                return None;
            },
        }
    }
    None
}

// ---------------------------------------------------------------------------
// `callvalue` reads that only guard branches.

/// The ids an expression reads, as far as a `callvalue` read's uses go.
pub open spec fn expression_refs(e: Expression) -> Set<u32> {
    match e {
        Expression::Var(id) => set![id.0],
        Expression::Binary { lhs, rhs, .. } => set![lhs.id.0, rhs.id.0],
        Expression::Unary { operand, .. } => set![operand.id.0],
        Expression::Truncate { value, .. } => set![value.id.0],
        Expression::ZeroExtend { value, .. } => set![value.id.0],
        Expression::SignExtendTo { value, .. } => set![value.id.0],
        Expression::Call { arguments, .. } => ids_of(arguments@),
        Expression::Keccak256 { offset, length } => set![offset.id.0, length.id.0],
        Expression::Keccak256Pair { word0, word1 } => set![word0.id.0, word1.id.0],
        Expression::MappingSLoad { key, slot } => set![key.id.0, slot.id.0],
        Expression::Keccak256Single { word0 } => set![word0.id.0],
        Expression::CallDataLoad { offset } => set![offset.id.0],
        Expression::MLoad { offset, .. } => set![offset.id.0],
        _ => Set::empty(),
    }
}

/// The ids a statement reads other than as the condition of an `if`.
pub open spec fn non_condition_refs(s: Statement) -> Set<u32> {
    match s {
        Statement::Let { value, .. } => expression_refs(value),
        Statement::Expression(value) => expression_refs(value),
        Statement::MStore { offset, value, .. } => set![offset.id.0, value.id.0],
        Statement::MStore8 { offset, value, .. } => set![offset.id.0, value.id.0],
        Statement::SStore { key, value, .. } => set![key.id.0, value.id.0],
        Statement::TStore { key, value } => set![key.id.0, value.id.0],
        Statement::If { inputs, .. } => ids_of(inputs@),
        Statement::Switch { scrutinee, inputs, .. } => set![scrutinee.id.0] + ids_of(inputs@),
        Statement::Revert { offset, length } => set![offset.id.0, length.id.0],
        Statement::Return { offset, length } => set![offset.id.0, length.id.0],
        Statement::Log { offset, length, topics } => set![offset.id.0, length.id.0] + ids_of(topics@),
        Statement::ExternalCall {
            gas,
            address,
            value,
            args_offset,
            args_length,
            ret_offset,
            ret_length,
            ..
        } => set![gas.id.0, address.id.0, args_offset.id.0, args_length.id.0, ret_offset.id.0, ret_length.id.0]
            + opt_ids(value),
        Statement::Create { value, offset, length, salt, .. } => set![value.id.0, offset.id.0, length.id.0]
            + opt_ids(salt),
        Statement::CustomErrorRevert { arguments, .. } => ids_of(arguments@),
        Statement::Leave { return_values } => ids_of(return_values@),
        Statement::Break { values } => ids_of(values@),
        Statement::Continue { values } => ids_of(values@),
        Statement::For { initial_values, condition, .. } => ids_of(initial_values@) + expression_refs(condition),
        Statement::MCopy { dest, src, length } => set![dest.id.0, src.id.0, length.id.0],
        Statement::SelfDestruct { address } => set![address.id.0],
        Statement::CodeCopy { dest, offset, length } => set![dest.id.0, offset.id.0, length.id.0],
        Statement::ExtCodeCopy { address, dest, offset, length } => set![
            address.id.0,
            dest.id.0,
            offset.id.0,
            length.id.0,
        ],
        Statement::MappingSStore { key, slot, value } => set![key.id.0, slot.id.0, value.id.0],
        _ => Set::empty(),
    }
}

fn add_value(v: &Value, set: &mut BTreeSet<u32>)
    ensures
        final(set)@ == old(set)@.insert(v.id.0),
{
    set.insert(v.id.0);
}

fn add_expression_refs(e: &Expression, set: &mut BTreeSet<u32>)
    ensures
        final(set)@ == old(set)@ + expression_refs(*e),
{
    let ghost s0 = set@;
    match e {
        Expression::Var(id) => {
            set.insert(id.0);
        },
        Expression::Binary { lhs, rhs, .. } => {
            add_value(lhs, set);
            add_value(rhs, set);
        },
        Expression::Unary { operand, .. } => add_value(operand, set),
        Expression::Truncate { value, .. } => add_value(value, set),
        Expression::ZeroExtend { value, .. } => add_value(value, set),
        Expression::SignExtendTo { value, .. } => add_value(value, set),
        Expression::Call { arguments, .. } => add_ids(arguments, set),
        Expression::Keccak256 { offset, length } => {
            add_value(offset, set);
            add_value(length, set);
        },
        Expression::Keccak256Pair { word0, word1 } => {
            add_value(word0, set);
            add_value(word1, set);
        },
        Expression::MappingSLoad { key, slot } => {
            add_value(key, set);
            add_value(slot, set);
        },
        Expression::Keccak256Single { word0 } => add_value(word0, set),
        Expression::CallDataLoad { offset } => add_value(offset, set),
        Expression::MLoad { offset, .. } => add_value(offset, set),
        _ => {},
    }
    proof {
        assert(set@ =~= s0 + expression_refs(*e));
    }
}

fn add_opt_value(v: &Option<Value>, set: &mut BTreeSet<u32>)
    ensures
        final(set)@ == old(set)@ + opt_ids(*v),
{
    let ghost s0 = set@;
    if let Some(x) = v {
        set.insert(x.id.0);
    }
    proof {
        assert(set@ =~= s0 + opt_ids(*v));
    }
}

fn add_non_condition_refs(s: &Statement, set: &mut BTreeSet<u32>)
    ensures
        final(set)@ == old(set)@ + non_condition_refs(*s),
{
    let ghost s0 = set@;
    match s {
        Statement::Let { value, .. } => add_expression_refs(value, set),
        Statement::Expression(value) => add_expression_refs(value, set),
        Statement::MStore { offset, value, .. } | Statement::MStore8 { offset, value, .. } => {
            add_value(offset, set);
            add_value(value, set);
        },
        Statement::SStore { key, value, .. } | Statement::TStore { key, value } => {
            add_value(key, set);
            add_value(value, set);
        },
        Statement::If { inputs, .. } => add_ids(inputs, set),
        Statement::Switch { scrutinee, inputs, .. } => {
            add_value(scrutinee, set);
            add_ids(inputs, set);
        },
        Statement::Revert { offset, length } | Statement::Return { offset, length } => {
            add_value(offset, set);
            add_value(length, set);
        },
        Statement::Log { offset, length, topics } => {
            add_value(offset, set);
            add_value(length, set);
            add_ids(topics, set);
        },
        Statement::ExternalCall {
            gas,
            address,
            value,
            args_offset,
            args_length,
            ret_offset,
            ret_length,
            ..
        } => {
            add_value(gas, set);
            add_value(address, set);
            add_value(args_offset, set);
            add_value(args_length, set);
            add_value(ret_offset, set);
            add_value(ret_length, set);
            add_opt_value(value, set);
        },
        Statement::Create { value, offset, length, salt, .. } => {
            add_value(value, set);
            add_value(offset, set);
            add_value(length, set);
            add_opt_value(salt, set);
        },
        Statement::CustomErrorRevert { arguments, .. } => add_ids(arguments, set),
        Statement::Leave { return_values } => add_ids(return_values, set),
        Statement::Break { values } | Statement::Continue { values } => add_ids(values, set),
        Statement::For { initial_values, condition, .. } => {
            add_ids(initial_values, set);
            add_expression_refs(condition, set);
        },
        Statement::MCopy { dest, src, length } => {
            add_value(dest, set);
            add_value(src, set);
            add_value(length, set);
        },
        Statement::SelfDestruct { address } => add_value(address, set),
        Statement::CodeCopy { dest, offset, length } => {
            add_value(dest, set);
            add_value(offset, set);
            add_value(length, set);
        },
        Statement::ExtCodeCopy { address, dest, offset, length } => {
            add_value(address, set);
            add_value(dest, set);
            add_value(offset, set);
            add_value(length, set);
        },
        Statement::MappingSStore { key, slot, value } => {
            add_value(key, set);
            add_value(slot, set);
            add_value(value, set);
        },
        _ => {},
    }
    proof {
        assert(set@ =~= s0 + non_condition_refs(*s));
    }
}

/// Collects the ids bound to `callvalue()` by single bindings.
pub struct CallvalueBindings {
    pub ids: BTreeSet<u32>,
}

impl StatementVisitor for CallvalueBindings {
    type State = Set<u32>;

    open spec fn state(&self) -> Set<u32> {
        self.ids@
    }

    open spec fn step(st: Set<u32>, s: Statement) -> Set<u32> {
        match s {
            Statement::Let { bindings, value } => if bindings@.len() == 1 && value is CallValue {
                st.insert(bindings@[0].0)
            } else {
                st
            },
            _ => st,
        }
    }

    open spec fn progress(a: Set<u32>, b: Set<u32>) -> bool {
        a <= b
    }

    proof fn lemma_progress_reflexive(a: Set<u32>) {
    }

    proof fn lemma_progress_transitive(a: Set<u32>, b: Set<u32>, c: Set<u32>) {
    }

    fn visit(&mut self, s: &Statement) {
        if let Statement::Let { bindings, value: Expression::CallValue } = s {
            if bindings.len() == 1 {
                self.ids.insert(bindings[0].0);
            }
        }
    }
}

/// Collects the ids that statements read other than as `if` conditions.
pub struct NonConditionRefs {
    pub ids: BTreeSet<u32>,
}

impl StatementVisitor for NonConditionRefs {
    type State = Set<u32>;

    open spec fn state(&self) -> Set<u32> {
        self.ids@
    }

    open spec fn step(st: Set<u32>, s: Statement) -> Set<u32> {
        st + non_condition_refs(s)
    }

    open spec fn progress(a: Set<u32>, b: Set<u32>) -> bool {
        a <= b
    }

    proof fn lemma_progress_reflexive(a: Set<u32>) {
    }

    proof fn lemma_progress_transitive(a: Set<u32>, b: Set<u32>, c: Set<u32>) {
    }

    fn visit(&mut self, s: &Statement) {
        add_non_condition_refs(s, &mut self.ids);
    }
}

/// The state after walking the object's code, then each function body.
pub open spec fn walk_object<V: StatementVisitor>(st: V::State, o: Object) -> V::State {
    walk_bodies::<V>(walk_statements::<V>(st, o.code.statements@, 0), o.functions@, 0)
}

/// The ids bound to `callvalue()` that nothing reads except as the condition
/// of an `if`: the outlined callvalue check reads the value itself.
pub open spec fn dead_callvalue_ids(o: Object) -> Set<u32> {
    walk_object::<CallvalueBindings>(Set::empty(), o).difference(walk_object::<NonConditionRefs>(Set::empty(), o))
}

/// Finds the `callvalue()` bindings that are only used as `if` conditions.
pub fn find_dead_callvalue_ids(object: &Object) -> (r: BTreeSet<u32>)
    ensures
        r@ == dead_callvalue_ids(*object),
{
    broadcast use vstd::std_specs::btree::group_btree_axioms;
    let mut bindings = CallvalueBindings { ids: BTreeSet::new() };
    visit_statements(&mut bindings, &object.code.statements);
    visit_bodies(&mut bindings, &object.functions);
    let mut refs = NonConditionRefs { ids: BTreeSet::new() };
    visit_statements(&mut refs, &object.code.statements);
    visit_bodies(&mut refs, &object.functions);
    let cv = bindings.ids;
    let used = refs.ids;
    let mut dead: BTreeSet<u32> = BTreeSet::new();
    for x in it: cv.iter()
        invariant
            dead@ <= cv@.difference(used@),
            forall|y: u32|
                #[trigger] cv@.contains(y) && !used@.contains(y) ==> (dead@.contains(y) || exists|k: int|
                    it.index() <= k < it.seq().len() && *it.seq()[k] == y),
    {
        let ghost i = it.index();
        if !used.contains(x) {
            dead.insert(*x);
        }
        proof {
            assert forall|y: u32| #[trigger] cv@.contains(y) && !used@.contains(y) && !dead@.contains(y) implies exists|k: int|
                i + 1 <= k < it.seq().len() && *it.seq()[k] == y by {
                let k = choose|k: int| i <= k < it.seq().len() && *it.seq()[k] == y;
                assert(k != i);
            }
        }
    }
    proof {
        assert(dead@ =~= cv@.difference(used@));
    }
    dead
}

// ---------------------------------------------------------------------------
// Counting.

/// One more, saturating.
pub open spec fn bump(n: usize) -> usize {
    if n < usize::MAX {
        (n + 1) as usize
    } else {
        n
    }
}

fn bump_exec(n: usize) -> (r: usize)
    ensures
        r == bump(n),
{
    if n < usize::MAX {
        n + 1
    } else {
        n
    }
}

/// Counts mapping loads and stores.
pub struct MappingCounter {
    pub loads: usize,
    pub stores: usize,
}

impl StatementVisitor for MappingCounter {
    type State = (usize, usize);

    open spec fn state(&self) -> (usize, usize) {
        (self.loads, self.stores)
    }

    open spec fn step(st: (usize, usize), s: Statement) -> (usize, usize) {
        match s {
            Statement::Let { value, .. } => if value is MappingSLoad {
                (bump(st.0), st.1)
            } else {
                st
            },
            Statement::MappingSStore { .. } => (st.0, bump(st.1)),
            _ => st,
        }
    }

    open spec fn progress(a: (usize, usize), b: (usize, usize)) -> bool {
        true
    }

    proof fn lemma_progress_reflexive(a: (usize, usize)) {
    }

    proof fn lemma_progress_transitive(a: (usize, usize), b: (usize, usize), c: (usize, usize)) {
    }

    fn visit(&mut self, s: &Statement) {
        match s {
            Statement::Let { value: Expression::MappingSLoad { .. }, .. } => {
                self.loads = bump_exec(self.loads);
            },
            Statement::MappingSStore { .. } => {
                self.stores = bump_exec(self.stores);
            },
            _ => {},
        }
    }
}

/// Counts the mapping loads and mapping stores of an object, nested regions
/// included (each count saturates at `usize::MAX`).
pub fn count_mapping_operations(object: &Object) -> (r: (usize, usize))
    ensures
        r == walk_object::<MappingCounter>((0, 0), *object),
{
    let mut counter = MappingCounter { loads: 0, stores: 0 };
    visit_statements(&mut counter, &object.code.statements);
    visit_bodies(&mut counter, &object.functions);
    (counter.loads, counter.stores)
}

/// Collects the literals that single bindings hold.
pub struct LiteralBindings {
    pub literals: BTreeMap<u32, Uint>,
}

impl StatementVisitor for LiteralBindings {
    type State = Map<u32, nat>;

    open spec fn state(&self) -> Map<u32, nat> {
        self.literals@.map_values(|u: Uint| u@)
    }

    open spec fn step(st: Map<u32, nat>, s: Statement) -> Map<u32, nat> {
        match s {
            Statement::Let { bindings, value } => match value {
                Expression::Literal { value: v, .. } => if bindings@.len() == 1 {
                    st.insert(bindings@[0].0, v@)
                } else {
                    st
                },
                _ => st,
            },
            _ => st,
        }
    }

    open spec fn progress(a: Map<u32, nat>, b: Map<u32, nat>) -> bool {
        true
    }

    proof fn lemma_progress_reflexive(a: Map<u32, nat>) {
    }

    proof fn lemma_progress_transitive(a: Map<u32, nat>, b: Map<u32, nat>, c: Map<u32, nat>) {
    }

    fn visit(&mut self, s: &Statement) {
        if let Statement::Let { bindings, value: Expression::Literal { value, .. } } = s {
            if bindings.len() == 1 {
                let ghost before = self.literals@;
                self.literals.insert(bindings[0].0, value.clone());
                proof {
                    assert(self.literals@.map_values(|u: Uint| u@) =~= before.map_values(|u: Uint| u@).insert(
                        bindings@[0].0,
                        value@,
                    ));
                }
            }
        }
    }
}

/// How a constant stored by `mstore` is classed: a nonzero value of at most 64
/// bits is a low word; a value whose low 224 bits are zero and whose top 32 bits
/// are not is a high word (a selector).
pub open spec fn store_class(v: nat) -> Option<bool> {
    if v == 0 {
        None
    } else if nat_bits(v) <= 64 {
        Some(true)
    } else if v % two_pow(224) == 0 && v / two_pow(224) <= u32::MAX {
        Some(false)
    } else {
        None
    }
}

fn classify_store(v: &Uint) -> (r: Option<bool>)
    ensures
        r == store_class(v@),
{
    if uint_is_zero(v) {
        return None;
    }
    if uint_bits(v) <= 64 {
        return Some(true);
    }
    let one = uint_from_u64(1);
    let base = uint_shl(&one, 224);
    proof {
        crate::evm::lemma_two_pow_pos(224);
    }
    let low = uint_rem(v, &base);
    if uint_is_zero(&low) {
        let top = crate::uint::uint_div(v, &base);
        match uint_to_u64(&top) {
            Some(t) => {
                if t <= 0xffff_ffff {
                    return Some(false);
                }
            },
            None => {},
        }
    }
    None
}

/// Counts constant stores by class, given the literals of the object.
pub struct StoreCounter {
    pub literals: BTreeMap<u32, Uint>,
    pub low: usize,
    pub high: usize,
}

impl StatementVisitor for StoreCounter {
    type State = (Map<u32, nat>, usize, usize);

    open spec fn state(&self) -> (Map<u32, nat>, usize, usize) {
        (self.literals@.map_values(|u: Uint| u@), self.low, self.high)
    }

    open spec fn step(st: (Map<u32, nat>, usize, usize), s: Statement) -> (Map<u32, nat>, usize, usize) {
        match s {
            Statement::MStore { value, .. } => if st.0.contains_key(value.id.0) {
                match store_class(st.0[value.id.0]) {
                    Some(true) => (st.0, bump(st.1), st.2),
                    Some(false) => (st.0, st.1, bump(st.2)),
                    None => st,
                }
            } else {
                st
            },
            _ => st,
        }
    }

    open spec fn progress(a: (Map<u32, nat>, usize, usize), b: (Map<u32, nat>, usize, usize)) -> bool {
        a.0 == b.0
    }

    proof fn lemma_progress_reflexive(a: (Map<u32, nat>, usize, usize)) {
    }

    proof fn lemma_progress_transitive(
        a: (Map<u32, nat>, usize, usize),
        b: (Map<u32, nat>, usize, usize),
        c: (Map<u32, nat>, usize, usize),
    ) {
    }

    fn visit(&mut self, s: &Statement) {
        if let Statement::MStore { value, .. } = s {
            match self.literals.get(&value.id.0) {
                Some(v) => {
                    proof {
                        assert(self.literals@.map_values(|u: Uint| u@).contains_key(value.id.0));
                    }
                    match classify_store(v) {
                        Some(true) => {
                            self.low = bump_exec(self.low);
                        },
                        Some(false) => {
                            self.high = bump_exec(self.high);
                        },
                        None => {},
                    }
                },
                None => {},
            }
        }
    }
}

/// Counts the `mstore`s of a constant low word and of a constant high word
/// (a selector) in an object, nested regions included; the literals are those
/// that single bindings anywhere in the object hold.
pub fn count_constant_mstore_patterns(object: &Object) -> (r: (usize, usize))
    ensures
        ({
            let lits = walk_object::<LiteralBindings>(Map::empty(), *object);
            let counted = walk_object::<StoreCounter>((lits, 0usize, 0usize), *object);
            r == (counted.1, counted.2)
        }),
{
    let mut literals = LiteralBindings { literals: BTreeMap::new() };
    proof {
        assert(literals.state() =~= Map::empty());
    }
    visit_statements(&mut literals, &object.code.statements);
    visit_bodies(&mut literals, &object.functions);
    let mut counter = StoreCounter { literals: literals.literals, low: 0, high: 0 };
    visit_statements(&mut counter, &object.code.statements);
    visit_bodies(&mut counter, &object.functions);
    (counter.low, counter.high)
}

} // verus!
