//! IR simplification: constant folding, algebraic identities, copy propagation,
//! reuse of environment reads, strength reduction and dead code elimination.
//!
//! All arithmetic follows EVM semantics (unsigned 256-bit, wrapping). What the
//! simplifier learns from bindings (constants, copies, unary and binary
//! definitions, environment reads) is kept as [`Knowledge`]; every rewrite of an
//! expression keeps its value under every valuation of the ids that agrees with
//! that knowledge.

use crate::evm::{
    evm_binary, evm_ternary, evm_unary, is_two_operand, is_word, lemma_two_pow_mono, lemma_two_pow_pos,
    lemma_two_pow_strict,
    lemma_word_modulus_facts,
};
use crate::fold::{
    binary_identity, const_view, fold_binary, fold_keccak256_pair, fold_keccak256_single,
    fold_ternary, fold_unary, identity_expression, is_power_of_two, keccak_pair_value,
    keccak_single_value, log2_exact,
    law_add_sub_cancel, law_identities_are_sound, modulus_u256, simplify_binary, Identity,
};
use crate::callvalue::{
    callvalue_binding_id, callvalue_check_fully_hoistable, callvalue_check_prefix, callvalue_id,
    drain_callvalue_prefix, fully_hoistable, has_callvalue_revert_prefix, replace_leading_callvalue_with_var,
    starts_with_callvalue, starts_with_callvalue_let,
};
use crate::dce::{dead_code_cleaned, dead_code_free, eliminate_dead_code_in_stmts, yields_as_used};
use crate::ir::{
    region_of_address, BinaryOperation, BitWidth, Block, Expression, Function, MemoryRegion, Object,
    Region, Statement, SwitchCase, Type, UnaryOperation, Value, ValueId,
};
use crate::operands::{defined_ids_list, defined_in_list, find_max_value_id, ids_in, ids_of, object_value_ids};
use crate::keccak_fold::constants_view;
use crate::outline::{outline_custom_error_patterns, outline_panic_patterns};
use crate::rename::{renamed_statement, renamed_values};
use crate::simplified::{
    callvalue_leads, case_changed, cases_simplified, check_drained, constant_if_simplified, constant_switch_simplified,
    first_match, hoisted_switch, inlined_region, leave_region, leave_statements, list_simplified, outputs_bound,
    read_replaced, region_simplified, statement_simplified, statements_simplified, switch_simplified,
};
use crate::uint::{two_pow, uint_lt, uint_sub, word_modulus, Uint};
use std::collections::{BTreeMap, BTreeSet};
use vstd::prelude::*;

verus! {

broadcast use vstd::laws_cmp::group_laws_cmp;

/// Results of the simplification pass.
#[derive(Clone, Copy, Debug)]
pub struct SimplifyResults {
    /// Number of expressions constant-folded.
    pub constants_folded: usize,
    /// Number of algebraic identity simplifications.
    pub identities_simplified: usize,
    /// Number of copy propagations.
    pub copies_propagated: usize,
    /// Number of dead bindings removed.
    pub dead_bindings_removed: usize,
    /// Number of constant branches eliminated.
    pub branches_eliminated: usize,
    /// Number of environment reads eliminated by reuse.
    pub env_reads_eliminated: usize,
}

impl Default for SimplifyResults {
    fn default() -> (r: Self)
        ensures
            r.constants_folded == 0 && r.identities_simplified == 0 && r.copies_propagated == 0
                && r.dead_bindings_removed == 0 && r.branches_eliminated == 0
                && r.env_reads_eliminated == 0,
    {
        SimplifyResults {
            constants_folded: 0,
            identities_simplified: 0,
            copies_propagated: 0,
            dead_bindings_removed: 0,
            branches_eliminated: 0,
            env_reads_eliminated: 0,
        }
    }
}

/// Reads of the environment that stay fixed during one contract invocation, so
/// reads of one kind in one scope can share a binding. Gas, memory size, return
/// data size and self balance change as the code runs and are not among them.
#[derive(Clone, Copy, PartialEq, Eq, Structural, Debug)]
pub enum EnvRead {
    Address,
    BaseFee,
    BlobBaseFee,
    CallDataSize,
    CallValue,
    Caller,
    ChainId,
    CodeSize,
    Coinbase,
    Difficulty,
    GasLimit,
    GasPrice,
    Number,
    Origin,
    Timestamp,
}

/// The number of an environment read kind, in declaration order.
pub open spec fn env_read_number(k: EnvRead) -> u8 {
    match k {
        EnvRead::Address => 0,
        EnvRead::BaseFee => 1,
        EnvRead::BlobBaseFee => 2,
        EnvRead::CallDataSize => 3,
        EnvRead::CallValue => 4,
        EnvRead::Caller => 5,
        EnvRead::ChainId => 6,
        EnvRead::CodeSize => 7,
        EnvRead::Coinbase => 8,
        EnvRead::Difficulty => 9,
        EnvRead::GasLimit => 10,
        EnvRead::GasPrice => 11,
        EnvRead::Number => 12,
        EnvRead::Origin => 13,
        EnvRead::Timestamp => 14,
    }
}

impl EnvRead {
    /// The number of the kind, in declaration order.
    pub fn number(self) -> (r: u8)
        ensures
            r == env_read_number(self),
    {
        match self {
            EnvRead::Address => 0,
            EnvRead::BaseFee => 1,
            EnvRead::BlobBaseFee => 2,
            EnvRead::CallDataSize => 3,
            EnvRead::CallValue => 4,
            EnvRead::Caller => 5,
            EnvRead::ChainId => 6,
            EnvRead::CodeSize => 7,
            EnvRead::Coinbase => 8,
            EnvRead::Difficulty => 9,
            EnvRead::GasLimit => 10,
            EnvRead::GasPrice => 11,
            EnvRead::Number => 12,
            EnvRead::Origin => 13,
            EnvRead::Timestamp => 14,
        }
    }
}

/// The environment read kind of an expression, if it is one.
pub open spec fn env_read_of(e: Expression) -> Option<EnvRead> {
    match e {
        Expression::Address => Some(EnvRead::Address),
        Expression::BaseFee => Some(EnvRead::BaseFee),
        Expression::BlobBaseFee => Some(EnvRead::BlobBaseFee),
        Expression::CallDataSize => Some(EnvRead::CallDataSize),
        Expression::CallValue => Some(EnvRead::CallValue),
        Expression::Caller => Some(EnvRead::Caller),
        Expression::ChainId => Some(EnvRead::ChainId),
        Expression::CodeSize => Some(EnvRead::CodeSize),
        Expression::Coinbase => Some(EnvRead::Coinbase),
        Expression::Difficulty => Some(EnvRead::Difficulty),
        Expression::GasLimit => Some(EnvRead::GasLimit),
        Expression::GasPrice => Some(EnvRead::GasPrice),
        Expression::Number => Some(EnvRead::Number),
        Expression::Origin => Some(EnvRead::Origin),
        Expression::Timestamp => Some(EnvRead::Timestamp),
        _ => None,
    }
}

/// Returns the environment read kind of an expression, if it is a fixed read.
pub fn env_read_kind(expression: &Expression) -> (r: Option<EnvRead>)
    ensures
        r == env_read_of(*expression),
{
    match expression {
        Expression::Address => Some(EnvRead::Address),
        Expression::BaseFee => Some(EnvRead::BaseFee),
        Expression::BlobBaseFee => Some(EnvRead::BlobBaseFee),
        Expression::CallDataSize => Some(EnvRead::CallDataSize),
        Expression::CallValue => Some(EnvRead::CallValue),
        Expression::Caller => Some(EnvRead::Caller),
        Expression::ChainId => Some(EnvRead::ChainId),
        Expression::CodeSize => Some(EnvRead::CodeSize),
        Expression::Coinbase => Some(EnvRead::Coinbase),
        Expression::Difficulty => Some(EnvRead::Difficulty),
        Expression::GasLimit => Some(EnvRead::GasLimit),
        Expression::GasPrice => Some(EnvRead::GasPrice),
        Expression::Number => Some(EnvRead::Number),
        Expression::Origin => Some(EnvRead::Origin),
        Expression::Timestamp => Some(EnvRead::Timestamp),
        _ => None,
    }
}

/// What the simplifier knows about values from the bindings it has seen.
pub struct Knowledge {
    /// Known constant values.
    pub constants: Map<u32, nat>,
    /// Copies: a value equal to another.
    pub copies: Map<u32, u32>,
    /// Values defined by a unary operation on another value.
    pub unary: Map<u32, (UnaryOperation, u32)>,
    /// Values defined by a binary operation on two values.
    pub binary: Map<u32, (BinaryOperation, u32, u32)>,
    /// Values that hold an environment read, per kind number.
    pub env: Map<u8, u32>,
}

/// The value a copy chain from `id` leads to, following at most `fuel` links and
/// stopping at a value copied from itself.
pub open spec fn resolve(copies: Map<u32, u32>, id: u32, fuel: nat) -> u32
    decreases fuel,
{
    if fuel == 0 {
        id
    } else if copies.contains_key(id) && copies[id] != id {
        resolve(copies, copies[id], (fuel - 1) as nat)
    } else {
        id
    }
}

/// The value a copy chain from `id` leads to: at most 32 links are followed.
pub open spec fn resolved(k: Knowledge, id: u32) -> u32 {
    resolve(k.copies, id, 32)
}

/// A valuation of the ids and of the environment reads agrees with the
/// knowledge: every value is a word, and every fact recorded holds of it.
pub open spec fn consistent(k: Knowledge, rho: spec_fn(u32) -> nat, env: spec_fn(u8) -> nat) -> bool {
    &&& forall|id: u32| #[trigger] is_word(rho(id))
    &&& forall|id: u32| k.constants.contains_key(id) ==> rho(id) == #[trigger] k.constants[id]
    &&& forall|id: u32| k.copies.contains_key(id) ==> rho(id) == rho(#[trigger] k.copies[id])
    &&& forall|id: u32|
        k.unary.contains_key(id) ==> rho(id) == evm_unary(
            (#[trigger] k.unary[id]).0,
            rho(k.unary[id].1),
        )
    &&& forall|id: u32|
        k.binary.contains_key(id) && is_two_operand((#[trigger] k.binary[id]).0) ==> rho(id)
            == evm_binary(k.binary[id].0, rho(k.binary[id].1), rho(k.binary[id].2))
    &&& forall|c: u8| k.env.contains_key(c) ==> rho(#[trigger] k.env[c]) == env(c)
}

/// The value of an expression under a valuation, for the expressions whose value
/// is a function of their operands and the environment reads: literals, copies,
/// EVM arithmetic, Keccak-256 of words, and fixed environment reads.
pub open spec fn eval(e: Expression, rho: spec_fn(u32) -> nat, env: spec_fn(u8) -> nat) -> Option<nat> {
    match e {
        Expression::Literal { value, .. } => Some(value@),
        Expression::Var(id) => Some(rho(id.0)),
        Expression::Binary { operation, lhs, rhs } => if is_two_operand(operation) {
            Some(evm_binary(operation, rho(lhs.id.0), rho(rhs.id.0)))
        } else {
            None
        },
        Expression::Unary { operation, operand } => Some(evm_unary(operation, rho(operand.id.0))),
        Expression::Ternary { operation, a, b, n } => if operation == BinaryOperation::AddMod
            || operation == BinaryOperation::MulMod {
            Some(evm_ternary(operation, rho(a.id.0), rho(b.id.0), rho(n.id.0)))
        } else {
            None
        },
        Expression::Keccak256Single { word0 } => Some(keccak_single_value(rho(word0.id.0))),
        Expression::Keccak256Pair { word0, word1 } => Some(
            keccak_pair_value(rho(word0.id.0), rho(word1.id.0)),
        ),
        _ => match env_read_of(e) {
            Some(kind) => Some(env(env_read_number(kind))),
            None => None,
        },
    }
}

/// A value with its id replaced by the end of its copy chain.
pub open spec fn resolved_value(k: Knowledge, v: Value) -> Value {
    Value { id: ValueId(resolved(k, v.id.0)), ..v }
}

/// The region of a memory access after resolution: a known constant address
/// names its region; otherwise the region is kept.
pub open spec fn resolved_region(k: Knowledge, offset: Value, region: MemoryRegion) -> MemoryRegion {
    if region == MemoryRegion::Unknown {
        if k.constants.contains_key(offset.id.0) {
            region_of_address(k.constants[offset.id.0])
        } else {
            MemoryRegion::Unknown
        }
    } else {
        region
    }
}

/// Whether the value of `e` is modelled by [`eval`].
pub open spec fn valued(e: Expression) -> bool {
    match e {
        Expression::Literal { .. }
        | Expression::Var(_)
        | Expression::Unary { .. }
        | Expression::Keccak256Single { .. }
        | Expression::Keccak256Pair { .. } => true,
        Expression::Binary { operation, .. } => is_two_operand(operation),
        Expression::Ternary { operation, .. } => operation == BinaryOperation::AddMod || operation
            == BinaryOperation::MulMod,
        _ => env_read_of(e) is Some,
    }
}

/// The constant a value id is known to hold, after resolving its copy chain.
pub open spec fn known(k: Knowledge, id: u32) -> Option<nat> {
    if k.constants.contains_key(resolved(k, id)) {
        Some(k.constants[resolved(k, id)])
    } else {
        None
    }
}

/// `r` is a literal word `v` of type `i256`.
pub open spec fn word_literal_of(r: Expression, v: nat) -> bool {
    r matches Expression::Literal { value, value_type } && value@ == v && value_type == Type::Int(
        BitWidth::I256,
    )
}

/// The value that an addition or subtraction of `l` and `r` cancels to, through a
/// recorded definition: `sub(add(a, b), a) -> b`, `sub(add(a, b), b) -> a`,
/// `add(sub(a, b), b) -> a` and `add(b, sub(a, b)) -> a`.
pub open spec fn add_sub_cancelled(k: Knowledge, operation: BinaryOperation, l: u32, r: u32) -> Option<u32> {
    if operation == BinaryOperation::Sub {
        if k.binary.contains_key(l) && k.binary[l].0 == BinaryOperation::Add {
            if resolved(k, k.binary[l].1) == r {
                Some(resolved(k, k.binary[l].2))
            } else if resolved(k, k.binary[l].2) == r {
                Some(resolved(k, k.binary[l].1))
            } else {
                None
            }
        } else {
            None
        }
    } else if operation == BinaryOperation::Add {
        if k.binary.contains_key(l) && k.binary[l].0 == BinaryOperation::Sub && resolved(
            k,
            k.binary[l].2,
        ) == r {
            Some(resolved(k, k.binary[l].1))
        } else if k.binary.contains_key(r) && k.binary[r].0 == BinaryOperation::Sub && resolved(
            k,
            k.binary[r].2,
        ) == l {
            Some(resolved(k, k.binary[r].1))
        } else {
            None
        }
    } else {
        None
    }
}

/// `r` is what the simplifier makes of `e` with knowledge `k`.
///
/// Operands are replaced by the ends of their copy chains. A binary operation on
/// two known words folds to a literal; otherwise an algebraic identity applies,
/// or an addition and a subtraction through a recorded definition cancel. A unary
/// operation on a known word folds, and `not(not(x))` becomes `x`. `addmod` and
/// `mulmod` on known words fold, as does any ternary operation with a known zero
/// modulus. Keccak-256 of known words folds to its digest. A fixed environment
/// read already bound in scope becomes that binding. A memory load with an
/// unknown region whose offset is a known constant gets that address's region.
pub open spec fn simplified_expression(k: Knowledge, e: Expression, r: Expression) -> bool {
    match e {
        Expression::Binary { operation, lhs, rhs } => {
            let l = resolved_value(k, lhs);
            let rr = resolved_value(k, rhs);
            let lc = known(k, l.id.0);
            let rc = known(k, rr.id.0);
            if is_two_operand(operation) && lc is Some && rc is Some && is_word(lc->0) && is_word(
                rc->0,
            ) {
                word_literal_of(r, evm_binary(operation, lc->0, rc->0))
            } else if binary_identity(operation, l.id == rr.id, lc, rc) is Some {
                identity_expression(binary_identity(operation, l.id == rr.id, lc, rc)->0, l, rr, r)
            } else if add_sub_cancelled(k, operation, l.id.0, rr.id.0) is Some {
                r == Expression::Var(ValueId(add_sub_cancelled(k, operation, l.id.0, rr.id.0)->0))
            } else {
                r == Expression::Binary { operation, lhs: l, rhs: rr }
            }
        },
        Expression::Unary { operation, operand } => {
            let o = resolved_value(k, operand);
            let oc = known(k, o.id.0);
            if oc is Some && is_word(oc->0) {
                word_literal_of(r, evm_unary(operation, oc->0))
            } else if operation == UnaryOperation::Not && k.unary.contains_key(o.id.0)
                && k.unary[o.id.0].0 == UnaryOperation::Not {
                r == Expression::Var(ValueId(k.unary[o.id.0].1))
            } else {
                r == Expression::Unary { operation, operand: o }
            }
        },
        Expression::Ternary { operation, a, b, n } => {
            let a2 = resolved_value(k, a);
            let b2 = resolved_value(k, b);
            let n2 = resolved_value(k, n);
            let ac = known(k, a2.id.0);
            let bc = known(k, b2.id.0);
            let nc = known(k, n2.id.0);
            if ac is Some && bc is Some && nc is Some && nc->0 == 0 {
                word_literal_of(r, 0)
            } else if ac is Some && bc is Some && nc is Some && (operation == BinaryOperation::AddMod
                || operation == BinaryOperation::MulMod) {
                word_literal_of(r, evm_ternary(operation, ac->0, bc->0, nc->0))
            } else {
                r == Expression::Ternary { operation, a: a2, b: b2, n: n2 }
            }
        },
        Expression::Var(id) => r == Expression::Var(ValueId(resolved(k, id.0))),
        Expression::MLoad { offset, region } => r == Expression::MLoad {
            offset: resolved_value(k, offset),
            region: resolved_region(k, resolved_value(k, offset), region),
        },
        Expression::Keccak256Single { word0 } => {
            let w = resolved_value(k, word0);
            if known(k, w.id.0) is Some {
                word_literal_of(r, keccak_single_value(known(k, w.id.0)->0))
            } else {
                r == Expression::Keccak256Single { word0: w }
            }
        },
        Expression::Keccak256Pair { word0, word1 } => {
            let w0 = resolved_value(k, word0);
            let w1 = resolved_value(k, word1);
            if known(k, w0.id.0) is Some && known(k, w1.id.0) is Some {
                word_literal_of(r, keccak_pair_value(known(k, w0.id.0)->0, known(k, w1.id.0)->0))
            } else {
                r == Expression::Keccak256Pair { word0: w0, word1: w1 }
            }
        },
        Expression::MappingSLoad { key, slot } => r == Expression::MappingSLoad {
            key: resolved_value(k, key),
            slot: resolved_value(k, slot),
        },
        _ => match env_read_of(e) {
            Some(kind) => if k.env.contains_key(env_read_number(kind)) {
                r == Expression::Var(ValueId(k.env[env_read_number(kind)]))
            } else {
                r == e
            },
            None => r == e,
        },
    }
}

/// Every count of `b` is at least that of `a`.
pub open spec fn stats_grow(a: SimplifyResults, b: SimplifyResults) -> bool {
    &&& b.constants_folded >= a.constants_folded
    &&& b.identities_simplified >= a.identities_simplified
    &&& b.copies_propagated >= a.copies_propagated
    &&& b.dead_bindings_removed >= a.dead_bindings_removed
    &&& b.branches_eliminated >= a.branches_eliminated
    &&& b.env_reads_eliminated >= a.env_reads_eliminated
}

/// `b` grew from `a` and counted at least one more eliminated branch (the
/// count stops at its limit).
pub open spec fn branch_counted(a: SimplifyResults, b: SimplifyResults) -> bool {
    &&& stats_grow(a, b)
    &&& (b.branches_eliminated >= a.branches_eliminated + 1 || b.branches_eliminated == usize::MAX)
}

/// `n` counted up by one when `by` is 1, stopping at the limit.
pub open spec fn counted(n: usize, by: nat) -> usize {
    if by == 0 || n == usize::MAX {
        n
    } else {
        (n + 1) as usize
    }
}

/// `s` with the folded constants, simplified identities and reused environment
/// reads of `t` counted.
pub open spec fn tallied(s: SimplifyResults, t: (nat, nat, nat)) -> SimplifyResults {
    SimplifyResults {
        constants_folded: counted(s.constants_folded, t.0),
        identities_simplified: counted(s.identities_simplified, t.1),
        env_reads_eliminated: counted(s.env_reads_eliminated, t.2),
        ..s
    }
}

/// What simplifying `e` counts: a folded constant, a simplified identity or a
/// reused environment read, each 1 where it happens (see `simplified_expression`).
pub open spec fn expression_tally(k: Knowledge, e: Expression) -> (nat, nat, nat) {
    match e {
        Expression::Binary { operation, lhs, rhs } => {
            let l = resolved_value(k, lhs);
            let rr = resolved_value(k, rhs);
            let lc = known(k, l.id.0);
            let rc = known(k, rr.id.0);
            if is_two_operand(operation) && lc is Some && rc is Some && is_word(lc->0) && is_word(rc->0) {
                (1, 0, 0)
            } else if binary_identity(operation, l.id == rr.id, lc, rc) is Some {
                (0, 1, 0)
            } else if add_sub_cancelled(k, operation, l.id.0, rr.id.0) is Some {
                (0, 1, 0)
            } else {
                (0, 0, 0)
            }
        },
        Expression::Unary { operation, operand } => {
            let o = resolved_value(k, operand);
            let oc = known(k, o.id.0);
            if oc is Some && is_word(oc->0) {
                (1, 0, 0)
            } else if operation == UnaryOperation::Not && k.unary.contains_key(o.id.0) && k.unary[o.id.0].0
                == UnaryOperation::Not {
                (0, 1, 0)
            } else {
                (0, 0, 0)
            }
        },
        Expression::Ternary { operation, a, b, n } => {
            let ac = known(k, resolved_value(k, a).id.0);
            let bc = known(k, resolved_value(k, b).id.0);
            let nc = known(k, resolved_value(k, n).id.0);
            if ac is Some && bc is Some && nc is Some && (nc->0 == 0 || operation == BinaryOperation::AddMod
                || operation == BinaryOperation::MulMod) {
                (1, 0, 0)
            } else {
                (0, 0, 0)
            }
        },
        Expression::Var(_) | Expression::MLoad { .. } | Expression::MappingSLoad { .. } => (0, 0, 0),
        Expression::Keccak256Single { word0 } => if known(k, resolved_value(k, word0).id.0) is Some {
            (1, 0, 0)
        } else {
            (0, 0, 0)
        },
        Expression::Keccak256Pair { word0, word1 } => if known(k, resolved_value(k, word0).id.0) is Some && known(
            k,
            resolved_value(k, word1).id.0,
        ) is Some {
            (1, 0, 0)
        } else {
            (0, 0, 0)
        },
        _ => match env_read_of(e) {
            Some(kind) => if k.env.contains_key(env_read_number(kind)) {
                (0, 0, 1)
            } else {
                (0, 0, 0)
            },
            None => (0, 0, 0),
        },
    }
}

/// Whether a branching statement's condition or scrutinee is a known constant.
pub open spec fn branch_known(k: Knowledge, s: Statement) -> bool {
    match s {
        Statement::If { condition, .. } => known(k, resolved_value(k, condition).id.0) is Some,
        Statement::Switch { scrutinee, .. } => known(k, resolved_value(k, scrutinee).id.0) is Some,
        _ => false,
    }
}

/// A copy chain leads to an equal value.
pub proof fn lemma_resolve_keeps_value(
    k: Knowledge,
    rho: spec_fn(u32) -> nat,
    env: spec_fn(u8) -> nat,
    id: u32,
    fuel: nat,
)
    requires
        consistent(k, rho, env),
    ensures
        rho(resolve(k.copies, id, fuel)) == rho(id),
    decreases fuel,
{
    if fuel > 0 && k.copies.contains_key(id) && k.copies[id] != id {
        lemma_resolve_keeps_value(k, rho, env, k.copies[id], (fuel - 1) as nat);
    }
}

/// A known constant of a value id is the value it holds.
proof fn lemma_known_is_value(k: Knowledge, rho: spec_fn(u32) -> nat, env: spec_fn(u8) -> nat, id: u32)
    requires
        consistent(k, rho, env),
    ensures
        rho(resolved(k, id)) == rho(id),
        known(k, id) matches Some(c) ==> c == rho(id),
{
    lemma_resolve_keeps_value(k, rho, env, id, 32);
}

/// Double negation: `not(not(x)) == x` for a word `x`.
proof fn lemma_not_not(x: nat)
    requires
        is_word(x),
    ensures
        evm_unary(UnaryOperation::Not, evm_unary(UnaryOperation::Not, x)) == x,
{
}

/// Every rewrite of an expression keeps its value: under any valuation of the
/// ids and the environment that agrees with what the simplifier knows, the
/// simplified expression evaluates to what the original one does.
pub proof fn law_simplified_expression_keeps_value(
    k: Knowledge,
    e: Expression,
    r: Expression,
    rho: spec_fn(u32) -> nat,
    env: spec_fn(u8) -> nat,
)
    requires
        consistent(k, rho, env),
        simplified_expression(k, e, r),
        valued(e),
    ensures
        valued(r),
        eval(r, rho, env) == eval(e, rho, env),
{
    lemma_word_modulus_facts();
    match e {
        Expression::Binary { operation, lhs, rhs } => {
            let l = resolved_value(k, lhs);
            let rr = resolved_value(k, rhs);
            lemma_known_is_value(k, rho, env, lhs.id.0);
            lemma_known_is_value(k, rho, env, rhs.id.0);
            lemma_known_is_value(k, rho, env, l.id.0);
            lemma_known_is_value(k, rho, env, rr.id.0);
            let x = rho(l.id.0);
            let y = rho(rr.id.0);
            assert(is_word(x) && is_word(y));
            let lc = known(k, l.id.0);
            let rc = known(k, rr.id.0);
            if is_two_operand(operation) && lc is Some && rc is Some && is_word(lc->0) && is_word(
                rc->0,
            ) {
            } else if binary_identity(operation, l.id == rr.id, lc, rc) is Some {
                law_identities_are_sound(operation, x, y, l.id == rr.id, lc, rc);
            } else if add_sub_cancelled(k, operation, l.id.0, rr.id.0) is Some {
                let d = if operation == BinaryOperation::Sub || (k.binary.contains_key(l.id.0)
                    && k.binary[l.id.0].0 == BinaryOperation::Sub && resolved(k, k.binary[l.id.0].2)
                    == rr.id.0) {
                    l.id.0
                } else {
                    rr.id.0
                };
                let a = k.binary[d].1;
                let b = k.binary[d].2;
                assert(is_two_operand(k.binary[d].0));
                assert(rho(d) == evm_binary(k.binary[d].0, rho(a), rho(b)));
                lemma_known_is_value(k, rho, env, a);
                lemma_known_is_value(k, rho, env, b);
                assert(is_word(rho(a)) && is_word(rho(b)));
                law_add_sub_cancel(rho(a), rho(b));
            } else {
            }
        },
        Expression::Unary { operation, operand } => {
            let o = resolved_value(k, operand);
            lemma_known_is_value(k, rho, env, operand.id.0);
            lemma_known_is_value(k, rho, env, o.id.0);
            if known(k, o.id.0) is Some && is_word(known(k, o.id.0)->0) {
            } else if operation == UnaryOperation::Not && k.unary.contains_key(o.id.0)
                && k.unary[o.id.0].0 == UnaryOperation::Not {
                let inner = k.unary[o.id.0].1;
                assert(rho(o.id.0) == evm_unary(k.unary[o.id.0].0, rho(inner)));
                assert(is_word(rho(inner)));
                lemma_not_not(rho(inner));
            } else {
            }
        },
        Expression::Ternary { operation, a, b, n } => {
            lemma_known_is_value(k, rho, env, a.id.0);
            lemma_known_is_value(k, rho, env, b.id.0);
            lemma_known_is_value(k, rho, env, n.id.0);
            lemma_known_is_value(k, rho, env, resolved(k, a.id.0));
            lemma_known_is_value(k, rho, env, resolved(k, b.id.0));
            lemma_known_is_value(k, rho, env, resolved(k, n.id.0));
        },
        Expression::Var(id) => {
            lemma_known_is_value(k, rho, env, id.0);
        },
        Expression::Keccak256Single { word0 } => {
            lemma_known_is_value(k, rho, env, word0.id.0);
            lemma_known_is_value(k, rho, env, resolved(k, word0.id.0));
        },
        Expression::Keccak256Pair { word0, word1 } => {
            lemma_known_is_value(k, rho, env, word0.id.0);
            lemma_known_is_value(k, rho, env, resolved(k, word0.id.0));
            lemma_known_is_value(k, rho, env, word1.id.0);
            lemma_known_is_value(k, rho, env, resolved(k, word1.id.0));
        },
        _ => {
            match env_read_of(e) {
                Some(kind) => {
                    if k.env.contains_key(env_read_number(kind)) {
                        assert(rho(k.env[env_read_number(kind)]) == env(env_read_number(kind)));
                    }
                },
                None => {},
            }
        },
    }
}

/// What the simplifier learns from binding the single id `b` to the simplified
/// expression `e`: a literal is a known constant; a copy records where it comes
/// from (and its constant, if known); unary and binary operations record their
/// definitions; the first binding of a fixed environment read in scope is kept.
pub open spec fn learn(k: Knowledge, b: u32, e: Expression) -> Knowledge {
    match e {
        Expression::Literal { value, .. } => Knowledge { constants: k.constants.insert(b, value@), ..k },
        Expression::Var(src) => {
            let r = resolved(k, src.0);
            Knowledge {
                copies: k.copies.insert(b, r),
                constants: if k.constants.contains_key(r) {
                    k.constants.insert(b, k.constants[r])
                } else {
                    k.constants
                },
                ..k
            }
        },
        Expression::Unary { operation, operand } => Knowledge {
            unary: k.unary.insert(b, (operation, operand.id.0)),
            ..k
        },
        Expression::Binary { operation, lhs, rhs } => Knowledge {
            binary: k.binary.insert(b, (operation, lhs.id.0, rhs.id.0)),
            ..k
        },
        _ => match env_read_of(e) {
            Some(kind) => if k.env.contains_key(env_read_number(kind)) {
                k
            } else {
                Knowledge { env: k.env.insert(env_read_number(kind), b), ..k }
            },
            None => k,
        },
    }
}

/// What is learned from a binding holds: if a valuation agrees with the
/// knowledge and gives the bound id the value of its expression (where that
/// value is modelled), it agrees with the knowledge after learning.
pub proof fn law_learning_keeps_consistency(
    k: Knowledge,
    b: u32,
    e: Expression,
    rho: spec_fn(u32) -> nat,
    env: spec_fn(u8) -> nat,
)
    requires
        consistent(k, rho, env),
        valued(e) ==> eval(e, rho, env) == Some(rho(b)),
    ensures
        consistent(learn(k, b, e), rho, env),
{
    let k2 = learn(k, b, e);
    match e {
        Expression::Var(src) => {
            lemma_resolve_keeps_value(k, rho, env, src.0, 32);
        },
        _ => {},
    }
    assert forall|id: u32| k2.constants.contains_key(id) implies rho(id) == #[trigger] k2.constants[id] by {
        if id != b {
            assert(k.constants.contains_key(id));
        }
    }
    assert forall|id: u32| k2.copies.contains_key(id) implies rho(id) == rho(#[trigger] k2.copies[id]) by {
        if id != b {
            assert(k.copies.contains_key(id));
        }
    }
    assert forall|id: u32|
        k2.unary.contains_key(id) implies rho(id) == evm_unary(
        (#[trigger] k2.unary[id]).0,
        rho(k2.unary[id].1),
    ) by {
        if id != b {
            assert(k.unary.contains_key(id));
        }
    }
    assert forall|id: u32|
        k2.binary.contains_key(id) && is_two_operand((#[trigger] k2.binary[id]).0) implies rho(id)
        == evm_binary(k2.binary[id].0, rho(k2.binary[id].1), rho(k2.binary[id].2)) by {
        if id != b {
            assert(k.binary.contains_key(id));
        }
    }
    assert forall|c: u8| k2.env.contains_key(c) implies rho(#[trigger] k2.env[c]) == env(c) by {
        match env_read_of(e) {
            Some(kind) => {
                if c != env_read_number(kind) {
                    assert(k.env.contains_key(c));
                }
            },
            None => {
                assert(k.env.contains_key(c));
            },
        }
    }
}

/// The exponent of a known constant that is a power-of-two word.
pub open spec fn power_exponent(c: Option<nat>) -> Option<nat> {
    match c {
        Some(v) => if is_word(v) && is_power_of_two(v) {
            Some(choose|j: nat| v == two_pow(j))
        } else {
            None
        },
        None => None,
    }
}

/// The strength reduction that applies to a simplified binding expression:
/// `mul(x, 2^j)` and `mul(2^j, x)` become `shl(j, x)`, `div(x, 2^j)` becomes
/// `shr(j, x)` and `mod(x, 2^j)` becomes `and(x, 2^j - 1)`, for `1 <= j < 256`.
/// The result is the new operation, the constant bound to a fresh helper,
/// whether the helper is the left operand, and the other operand.
pub open spec fn strength_reduction(k: Knowledge, e: Expression) -> Option<(BinaryOperation, nat, bool, Value)> {
    match e {
        Expression::Binary { operation, lhs, rhs } => {
            let lp = power_exponent(known(k, lhs.id.0));
            let rp = power_exponent(known(k, rhs.id.0));
            if operation == BinaryOperation::Mul {
                if rp is Some {
                    if 1 <= rp->0 < 256 {
                        Some((BinaryOperation::Shl, rp->0, true, lhs))
                    } else {
                        None
                    }
                } else if lp is Some {
                    if 1 <= lp->0 < 256 {
                        Some((BinaryOperation::Shl, lp->0, true, rhs))
                    } else {
                        None
                    }
                } else {
                    None
                }
            } else if operation == BinaryOperation::Div {
                if rp is Some && 1 <= rp->0 < 256 {
                    Some((BinaryOperation::Shr, rp->0, true, lhs))
                } else {
                    None
                }
            } else if operation == BinaryOperation::Mod {
                if rp is Some && 1 <= rp->0 < 256 {
                    Some((BinaryOperation::And, (two_pow(rp->0) - 1) as nat, false, lhs))
                } else {
                    None
                }
            } else {
                None
            }
        },
        _ => None,
    }
}

/// `out` is the pair of bindings that strength reduction emits: the helper `h`
/// bound to the constant `c`, then `bindings` bound to the new operation on the
/// helper and the other operand.
pub open spec fn reduced_bindings(
    out: Seq<Statement>,
    bindings: Seq<ValueId>,
    h: ValueId,
    reduction: (BinaryOperation, nat, bool, Value),
) -> bool {
    let (operation, c, helper_on_lhs, other) = reduction;
    let helper = Value { id: h, value_type: Type::Int(BitWidth::I256) };
    &&& out.len() == 2
    &&& out[0] matches Statement::Let { bindings: b0, value: v0 } && b0@ == seq![h] && word_literal_of(v0, c)
    &&& out[1] matches Statement::Let { bindings: b1, value: v1 } && b1@ == bindings && v1
        == (if helper_on_lhs {
        Expression::Binary { operation, lhs: helper, rhs: other }
    } else {
        Expression::Binary { operation, lhs: other, rhs: helper }
    })
}

/// Resolution of ids through the copy chains that `k` knows.
pub open spec fn resolver(k: Knowledge) -> spec_fn(u32) -> u32 {
    |id: u32| resolved(k, id)
}

/// The statements without nested regions whose operands the simplifier only
/// resolves.
pub open spec fn operand_only(s: Statement) -> bool {
    match s {
        Statement::MCopy { .. }
        | Statement::SStore { .. }
        | Statement::TStore { .. }
        | Statement::MappingSStore { .. }
        | Statement::Revert { .. }
        | Statement::Return { .. }
        | Statement::ExternalCall { .. }
        | Statement::Create { .. }
        | Statement::Log { .. }
        | Statement::CodeCopy { .. }
        | Statement::ExtCodeCopy { .. }
        | Statement::ReturnDataCopy { .. }
        | Statement::DataCopy { .. }
        | Statement::CallDataCopy { .. }
        | Statement::SetImmutable { .. }
        | Statement::Leave { .. }
        | Statement::Break { .. }
        | Statement::Continue { .. }
        | Statement::SelfDestruct { .. } => true,
        _ => false,
    }
}

/// `r` is what a `let` of `bindings` to `value` becomes under knowledge `k`,
/// `next` being the next fresh id; `k2` and `next2` are the knowledge and the
/// next fresh id afterwards. The value is simplified; a single binding whose
/// value strength reduction rewrites takes a fresh id for the helper constant,
/// while one is left; otherwise the binding stays and is learned from.
pub open spec fn let_simplified(
    k: Knowledge,
    next: u32,
    bindings: Seq<ValueId>,
    value: Expression,
    r: Seq<Statement>,
    k2: Knowledge,
    next2: u32,
) -> bool {
    exists|e: Expression|
        #![trigger simplified_expression(k, value, e)]
        simplified_expression(k, value, e) && if bindings.len() == 1 && strength_reduction(k, e) is Some && next
            < u32::MAX {
            &&& reduced_bindings(r, bindings, ValueId(next), strength_reduction(k, e)->0)
            &&& next2 == next + 1
            &&& k2 == (Knowledge { constants: k.constants.insert(next, (strength_reduction(k, e)->0).1), ..k })
        } else {
            &&& r.len() == 1
            &&& r[0] matches Statement::Let { bindings: b0, value: v0 } && b0@ == bindings && v0 == e
            &&& next2 == next
            &&& k2 == if bindings.len() == 1 {
                learn(k, bindings[0].0, e)
            } else {
                k
            }
        }
}

/// `r` is what the simplifier makes of a statement without nested regions
/// other than a binding: stores and other effects get their operands
/// resolved (a store at a known constant offset gets its region), an
/// expression statement is simplified, and terminators stay. Other
/// statements are not constrained here.
pub open spec fn simplified_plain_statement(k: Knowledge, s: Statement, r: Seq<Statement>) -> bool {
    match s {
        Statement::MStore { offset, value, region } => r.len() == 1 && r[0] == (Statement::MStore {
            offset: resolved_value(k, offset),
            value: resolved_value(k, value),
            region: resolved_region(k, resolved_value(k, offset), region),
        }),
        Statement::MStore8 { offset, value, region } => r.len() == 1 && r[0] == (Statement::MStore8 {
            offset: resolved_value(k, offset),
            value: resolved_value(k, value),
            region: resolved_region(k, resolved_value(k, offset), region),
        }),
        Statement::Expression(e) => r.len() == 1 && (r[0] matches Statement::Expression(e2)
            && simplified_expression(k, e, e2)),
        Statement::Stop | Statement::Invalid | Statement::PanicRevert { .. } | Statement::ErrorStringRevert {
            ..
        } | Statement::CustomErrorRevert { .. } => r == seq![s],
        _ => operand_only(s) ==> r.len() == 1 && renamed_statement(s, r[0], resolver(k)),
    }
}

/// The knowledge a nested scope hands back: the constants, copies and
/// environment reads of the enclosing scope, with what was learned of unary
/// and binary definitions kept.
pub open spec fn scope_restored(before: Knowledge, after: Knowledge) -> bool {
    after.constants == before.constants && after.copies == before.copies && after.env == before.env
}

/// Known constants as numbers.
pub open spec fn constants_of(m: Map<u32, Uint>) -> Map<u32, nat> {
    m.map_values(|u: Uint| u@)
}

/// Copies as ids.
pub open spec fn copies_of(m: Map<u32, ValueId>) -> Map<u32, u32> {
    m.map_values(|v: ValueId| v.0)
}

/// Unary definitions with ids.
pub open spec fn unary_of(m: Map<u32, (UnaryOperation, ValueId)>) -> Map<u32, (UnaryOperation, u32)> {
    m.map_values(|p: (UnaryOperation, ValueId)| (p.0, p.1.0))
}

/// Binary definitions with ids.
pub open spec fn binary_of(m: Map<u32, (BinaryOperation, ValueId, ValueId)>) -> Map<
    u32,
    (BinaryOperation, u32, u32),
> {
    m.map_values(|p: (BinaryOperation, ValueId, ValueId)| (p.0, p.1.0, p.2.0))
}

/// Environment reads with ids.
pub open spec fn env_of(m: Map<u8, ValueId>) -> Map<u8, u32> {
    m.map_values(|v: ValueId| v.0)
}

/// The ids a function's parameters, entry return variables and body bind.
pub open spec fn function_defined(f: Function) -> Set<u32> {
    defined_in_list(
        f.body.statements@,
        Set::new(|id: u32| exists|k: int| 0 <= k < f.parameters@.len() && f.parameters@[k].0.0 == id) + ids_in(
            f.return_values_initial@,
        ),
    )
}

/// The return values that reconciling leaves `f` with: each one that nothing
/// in `f` defines is pointed at the entry value at its position, where there
/// is one.
pub open spec fn reconciled_return_values(f: Function) -> Seq<ValueId> {
    Seq::new(
        f.return_values@.len(),
        |i: int|
            if !function_defined(f).contains(f.return_values@[i].0) && i < f.return_values_initial@.len() {
                f.return_values_initial@[i]
            } else {
                f.return_values@[i]
            },
    )
}

/// `f2` is what simplifying the object makes of its function `f`: its body
/// simplified from knowledge without constants, copies, unary definitions or
/// environment reads, its dangling return values reconciled, and its dead
/// code eliminated with the return values kept.
pub open spec fn function_simplified(f: Function, f2: Function) -> bool {
    exists|kf: Knowledge, nf: u32, fm: Function, k2: Knowledge, n2: u32|
        #![trigger crate::simplified::witness((kf, nf, fm, k2, n2))]
        {
            &&& kf.constants == Map::<u32, nat>::empty()
            &&& kf.copies == Map::<u32, u32>::empty()
            &&& kf.unary == Map::<u32, (UnaryOperation, u32)>::empty()
            &&& kf.env == Map::<u8, u32>::empty()
            &&& fm.id == f.id
            &&& fm.parameters == f.parameters
            &&& fm.return_values_initial == f.return_values_initial
            &&& fm.return_values == f.return_values
            &&& statements_simplified(kf, nf, f.body.statements@, fm.body.statements@, k2, n2)
            &&& f2.return_values@ == reconciled_return_values(fm)
            &&& dead_code_cleaned(fm.body.statements@, f2.body.statements@, ids_in(f2.return_values@))
        }
}

/// The sum, saturating.
fn saturating_add(a: usize, b: usize) -> (r: usize)
    ensures
        r == if a + b <= usize::MAX {
            (a + b) as usize
        } else {
            usize::MAX
        },
{
    if a <= usize::MAX - b {
        a + b
    } else {
        usize::MAX
    }
}

/// One more, saturating.
fn count_one(n: usize) -> (r: usize)
    ensures
        r == if n < usize::MAX {
            (n + 1) as usize
        } else {
            n
        },
{
    if n < usize::MAX {
        n + 1
    } else {
        n
    }
}

/// How many cases start with a binding of `callvalue()`.
fn count_callvalue_leads(cases: &Vec<SwitchCase>) -> (r: usize)
    ensures
        r == callvalue_leads(cases@, cases@.len() as int),
{
    let mut count: usize = 0;
    let n = cases.len();
    for j in 0..n
        invariant
            n == cases@.len(),
            count == callvalue_leads(cases@, j as int),
            count <= j,
    {
        if starts_with_callvalue_let(&cases[j].body.statements) {
            count = count + 1;
        }
    }
    count
}

/// Drops the callvalue check at the start of a region's statements, pointing
/// its binding's remaining uses at `h`.
fn drain_region(region: Region, h: ValueId) -> (r: Region)
    ensures
        r.yields == region.yields,
        check_drained(region.statements@, r.statements@, h),
{
    let Region { statements, yields } = region;
    let mut statements = statements;
    if has_callvalue_revert_prefix(&statements) {
        drain_callvalue_prefix(&mut statements, h);
    }
    Region { statements, yields }
}

/// Turns a leading `let v = callvalue()` of a region into `let v = h`.
fn replace_read_in_region(region: Region, h: ValueId) -> (r: Region)
    ensures
        r.yields == region.yields,
        read_replaced(region.statements@, r.statements@, h),
{
    let Region { statements, yields } = region;
    let mut statements = statements;
    replace_leading_callvalue_with_var(&mut statements, h);
    Region { statements, yields }
}

/// Hoists the callvalue check that every case and the default start with:
/// returns the check's two statements, taken from the first case; the other
/// cases and the default lose theirs.
fn hoist_checks(cases: &mut Vec<SwitchCase>, default: &mut Option<Region>) -> (r: Vec<Statement>)
    requires
        fully_hoistable(old(cases)@, *old(default)),
    ensures
        final(cases)@.len() == old(cases)@.len(),
        forall|j: int| 0 <= j < old(cases)@.len() ==> case_changed(old(cases)@[j], #[trigger] final(cases)@[j]),
        ({
            let first = old(cases)@[0].body.statements@;
            let h = callvalue_id(first);
            &&& r@ == seq![first[0], first[1]]
            &&& final(cases)@[0].body.statements@ == first.subrange(2, first.len() as int)
            &&& forall|j: int|
                1 <= j < old(cases)@.len() ==> check_drained(
                    old(cases)@[j].body.statements@,
                    #[trigger] final(cases)@[j].body.statements@,
                    h,
                )
            &&& *final(default) matches Some(fd) && fd.yields == (*old(default))->0.yields && check_drained(
                (*old(default))->0.statements@,
                fd.statements@,
                h,
            )
        }),
{
    let ghost cs0 = cases@;
    let ghost first = cs0[0].body.statements@;
    proof {
        assert(callvalue_check_prefix(cs0[0].body.statements@));
    }
    let h = callvalue_binding_id(&cases[0].body.statements);
    let mut case0 = SwitchCase { value: Uint::zero(), body: Region { statements: Vec::new(), yields: Vec::new() } };
    std::mem::swap(&mut case0, &mut cases[0]);
    let SwitchCase { value, body } = case0;
    let Region { statements, yields } = body;
    let mut statements = statements;
    let check = statements.remove(0);
    let read = statements.remove(0);
    proof {
        assert(statements@ =~= first.subrange(2, first.len() as int));
    }
    let mut hoisted: Vec<Statement> = Vec::new();
    hoisted.push(check);
    hoisted.push(read);
    cases.set(0, SwitchCase { value, body: Region { statements, yields } });
    let n = cases.len();
    for j in 1..n
        invariant
            n == cs0.len(),
            cases@.len() == n,
            h == callvalue_id(first),
            first == cs0[0].body.statements@,
            case_changed(cs0[0], cases@[0]),
            cases@[0].body.statements@ == first.subrange(2, first.len() as int),
            forall|q: int|
                1 <= q < j ==> case_changed(cs0[q], #[trigger] cases@[q]) && check_drained(
                    cs0[q].body.statements@,
                    cases@[q].body.statements@,
                    h,
                ),
            forall|q: int| j <= q < n ==> #[trigger] cases@[q] == cs0[q],
    {
        let mut case = SwitchCase { value: Uint::zero(), body: Region { statements: Vec::new(), yields: Vec::new() } };
        std::mem::swap(&mut case, &mut cases[j]);
        proof {
            assert(case == cs0[j as int]);
        }
        let SwitchCase { value, body } = case;
        let body = drain_region(body, h);
        cases.set(j, SwitchCase { value, body });
    }
    let mut taken: Option<Region> = None;
    std::mem::swap(&mut taken, default);
    *default = match taken {
        Some(d) => Some(drain_region(d, h)),
        None => None,
    };
    proof {
        assert forall|j: int| 0 <= j < cs0.len() implies case_changed(cs0[j], #[trigger] cases@[j]) by {
            if j > 0 {
                assert(case_changed(cs0[j], cases@[j]));
            }
        }
    }
    hoisted
}

/// Turns the leading `let v = callvalue()` of every case and of the default
/// into `let v = h`.
fn hoist_reads(cases: &mut Vec<SwitchCase>, default: &mut Option<Region>, h: ValueId)
    ensures
        final(cases)@.len() == old(cases)@.len(),
        forall|j: int|
            0 <= j < old(cases)@.len() ==> case_changed(old(cases)@[j], #[trigger] final(cases)@[j]) && read_replaced(
                old(cases)@[j].body.statements@,
                final(cases)@[j].body.statements@,
                h,
            ),
        ((*final(default)) is Some <==> (*old(default)) is Some),
        *old(default) matches Some(d) ==> (*final(default))->0.yields == d.yields && read_replaced(
            d.statements@,
            (*final(default))->0.statements@,
            h,
        ),
{
    let ghost cs0 = cases@;
    let n = cases.len();
    for j in 0..n
        invariant
            n == cs0.len(),
            cases@.len() == n,
            forall|q: int|
                0 <= q < j ==> case_changed(cs0[q], #[trigger] cases@[q]) && read_replaced(
                    cs0[q].body.statements@,
                    cases@[q].body.statements@,
                    h,
                ),
            forall|q: int| j <= q < n ==> #[trigger] cases@[q] == cs0[q],
    {
        let mut case = SwitchCase { value: Uint::zero(), body: Region { statements: Vec::new(), yields: Vec::new() } };
        std::mem::swap(&mut case, &mut cases[j]);
        proof {
            assert(case == cs0[j as int]);
        }
        let SwitchCase { value, body } = case;
        let body = replace_read_in_region(body, h);
        cases.set(j, SwitchCase { value, body });
    }
    let mut taken: Option<Region> = None;
    std::mem::swap(&mut taken, default);
    *default = match taken {
        Some(d) => Some(replace_read_in_region(d, h)),
        None => None,
    };
}

/// IR simplification pass.
pub struct Simplifier {
    /// Known constants, per value id.
    constants: BTreeMap<u32, Uint>,
    /// Copies: `let x = y` maps `x` to `y`.
    copies: BTreeMap<u32, ValueId>,
    /// Unary definitions, for `not(not(x)) -> x`.
    unary_defs: BTreeMap<u32, (UnaryOperation, ValueId)>,
    /// Binary definitions, for `sub(add(x, y), x) -> y` and the like.
    binary_defs: BTreeMap<u32, (BinaryOperation, ValueId, ValueId)>,
    /// The next fresh value id, for bindings the pass creates.
    next_value_id: ValueId,
    /// The first binding of each fixed environment read in scope, per kind number.
    env_reads: BTreeMap<u8, ValueId>,
    /// Statistics.
    statistics: SimplifyResults,
}

impl Simplifier {
    /// What the simplifier knows.
    pub closed spec fn knowledge(&self) -> Knowledge {
        Knowledge {
            constants: constants_of(self.constants@),
            copies: copies_of(self.copies@),
            unary: unary_of(self.unary_defs@),
            binary: binary_of(self.binary_defs@),
            env: env_of(self.env_reads@),
        }
    }

    /// The next fresh value id.
    pub closed spec fn next_id(&self) -> u32 {
        self.next_value_id.0
    }

    /// Creates a new simplifier that knows nothing.
    pub fn new() -> (r: Simplifier)
        ensures
            r.knowledge() == (Knowledge {
                constants: Map::empty(),
                copies: Map::empty(),
                unary: Map::empty(),
                binary: Map::empty(),
                env: Map::empty(),
            }),
            r.next_id() == 0,
    {
        let r = Simplifier {
            constants: BTreeMap::new(),
            copies: BTreeMap::new(),
            unary_defs: BTreeMap::new(),
            binary_defs: BTreeMap::new(),
            next_value_id: ValueId(0),
            env_reads: BTreeMap::new(),
            statistics: SimplifyResults::default(),
        };
        proof {
            assert(constants_of(r.constants@) =~= Map::empty());
            assert(copies_of(r.copies@) =~= Map::empty());
            assert(unary_of(r.unary_defs@) =~= Map::empty());
            assert(binary_of(r.binary_defs@) =~= Map::empty());
            assert(env_of(r.env_reads@) =~= Map::empty());
        }
        r
    }

    /// Resolves a value id through the copy chain, following at most 32 links.
    fn resolve_copy(&self, id: ValueId) -> (r: ValueId)
        ensures
            r.0 == resolved(self.knowledge(), id.0),
    {
        let ghost copies = self.knowledge().copies;
        let mut current = id;
        let mut i: usize = 0;
        while i < 32
            invariant
                i <= 32,
                copies == copies_of(self.copies@),
                resolve(copies, current.0, (32 - i) as nat) == resolve(copies, id.0, 32),
            ensures
                current.0 == resolve(copies, id.0, 32),
            decreases 32 - i,
        {
            match self.copies.get(&current.0) {
                Some(target) => {
                    proof {
                        assert(copies.contains_key(current.0) && copies[current.0] == target.0);
                    }
                    if target.0 == current.0 {
                        break;
                    }
                    current = *target;
                },
                None => {
                    proof {
                        assert(!copies.contains_key(current.0));
                    }
                    break;
                },
            }
            i = i + 1;
        }
        current
    }

    /// Resolves a value through copy propagation.
    fn resolve_value(&self, value: Value) -> (r: Value)
        ensures
            r == resolved_value(self.knowledge(), value),
    {
        let resolved = self.resolve_copy(value.id);
        Value { id: resolved, ..value }
    }

    /// The constant a value is known to hold, after resolving it.
    fn try_get_const(&self, value: &Value) -> (r: Option<Uint>)
        ensures
            const_view(&r) == (if self.knowledge().constants.contains_key(
                resolved(self.knowledge(), value.id.0),
            ) {
                Some(self.knowledge().constants[resolved(self.knowledge(), value.id.0)])
            } else {
                None
            }),
    {
        let resolved = self.resolve_copy(value.id);
        match self.constants.get(&resolved.0) {
            Some(c) => Some(c.clone()),
            None => None,
        }
    }

    /// Folds `operation` on two known constants when both are words.
    fn fold_known(operation: BinaryOperation, a: &Option<Uint>, b: &Option<Uint>) -> (r: Option<Uint>)
        ensures
            (is_two_operand(operation) && const_view(a) is Some && const_view(b) is Some && is_word(
                const_view(a)->0,
            ) && is_word(const_view(b)->0)) ==> (r matches Some(x) && x@ == evm_binary(
                operation,
                const_view(a)->0,
                const_view(b)->0,
            )),
            !(is_two_operand(operation) && const_view(a) is Some && const_view(b) is Some
                && is_word(const_view(a)->0) && is_word(const_view(b)->0)) ==> r is None,
    {
        match (a, b) {
            (Some(x), Some(y)) => {
                let modulus = modulus_u256();
                if uint_lt(x, &modulus) && uint_lt(y, &modulus) {
                    fold_binary(operation, x, y)
                } else {
                    None
                }
            },
            _ => None,
        }
    }

    /// Cancels an addition against a subtraction through a recorded definition.
    fn cancel_add_sub(&self, operation: BinaryOperation, lhs: ValueId, rhs: ValueId) -> (r: Option<ValueId>)
        ensures
            match add_sub_cancelled(self.knowledge(), operation, lhs.0, rhs.0) {
                Some(id) => r == Some(ValueId(id)),
                None => r is None,
            },
    {
        let ghost k = self.knowledge();
        if operation == BinaryOperation::Sub {
            match self.binary_defs.get(&lhs.0) {
                Some(def) => {
                    proof {
                        assert(k.binary.contains_key(lhs.0) && k.binary[lhs.0] == (def.0, def.1.0, def.2.0));
                    }
                    if def.0 == BinaryOperation::Add {
                        let a = self.resolve_copy(def.1);
                        let b = self.resolve_copy(def.2);
                        if a.0 == rhs.0 {
                            return Some(b);
                        }
                        if b.0 == rhs.0 {
                            return Some(a);
                        }
                    }
                },
                None => {
                    proof {
                        assert(!k.binary.contains_key(lhs.0));
                    }
                },
            }
            return None;
        }
        if operation == BinaryOperation::Add {
            match self.binary_defs.get(&lhs.0) {
                Some(def) => {
                    proof {
                        assert(k.binary.contains_key(lhs.0) && k.binary[lhs.0] == (def.0, def.1.0, def.2.0));
                    }
                    if def.0 == BinaryOperation::Sub {
                        let a = self.resolve_copy(def.1);
                        let b = self.resolve_copy(def.2);
                        if b.0 == rhs.0 {
                            return Some(a);
                        }
                    }
                },
                None => {
                    proof {
                        assert(!k.binary.contains_key(lhs.0));
                    }
                },
            }
            match self.binary_defs.get(&rhs.0) {
                Some(def) => {
                    proof {
                        assert(k.binary.contains_key(rhs.0) && k.binary[rhs.0] == (def.0, def.1.0, def.2.0));
                    }
                    if def.0 == BinaryOperation::Sub {
                        let a = self.resolve_copy(def.1);
                        let b = self.resolve_copy(def.2);
                        if b.0 == lhs.0 {
                            return Some(a);
                        }
                    }
                },
                None => {
                    proof {
                        assert(!k.binary.contains_key(rhs.0));
                    }
                },
            }
        }
        None
    }

    /// Replaces a fixed environment read by the binding of the same read in
    /// scope, if there is one.
    fn cse_env_read(&mut self, kind: EnvRead, original: Expression) -> (r: Expression)
        ensures
            final(self).knowledge() == old(self).knowledge(),
            final(self).next_id() == old(self).next_id(),
            old(self).knowledge().env.contains_key(env_read_number(kind)) ==> r == Expression::Var(
                ValueId(old(self).knowledge().env[env_read_number(kind)]),
            ),
            !old(self).knowledge().env.contains_key(env_read_number(kind)) ==> r == original,
            final(self).stats() == tallied(
                old(self).stats(),
                if old(self).knowledge().env.contains_key(env_read_number(kind)) {
                    (0nat, 0nat, 1nat)
                } else {
                    (0nat, 0nat, 0nat)
                },
            ),
    {
        match self.env_reads.get(&kind.number()) {
            Some(cached) => {
                let id = *cached;
                self.statistics.env_reads_eliminated = count_one(self.statistics.env_reads_eliminated);
                Expression::Var(id)
            },
            None => original,
        }
    }

    /// Simplifies an expression: constant folding, algebraic identities and copy
    /// propagation on its operands.
    ///
    /// Among the identities are ones that go through a recorded binary definition:
    /// `sub(add(a, b), a) -> b`, `sub(add(a, b), b) -> a`, `add(sub(a, b), b) -> a`
    /// and `add(b, sub(a, b)) -> a`. They come up wherever a helper computes
    /// `tail = base + 32` and the caller takes `length = tail - base`.
    fn simplify_expression(&mut self, expression: Expression) -> (r: Expression)
        ensures
            final(self).knowledge() == old(self).knowledge(),
            final(self).next_id() == old(self).next_id(),
            simplified_expression(old(self).knowledge(), expression, r),
            final(self).stats() == tallied(old(self).stats(), expression_tally(old(self).knowledge(), expression)),
    {
        let ghost k = self.knowledge();
        match expression {
            Expression::Binary { operation, lhs, rhs } => {
                let lhs = self.resolve_value(lhs);
                let rhs = self.resolve_value(rhs);
                let lhs_val = self.try_get_const(&lhs);
                let rhs_val = self.try_get_const(&rhs);
                if let Some(result) = Self::fold_known(operation, &lhs_val, &rhs_val) {
                    self.statistics.constants_folded = count_one(self.statistics.constants_folded);
                    return Expression::Literal { value: result, value_type: Type::word() };
                }
                if let Some(simplified) = simplify_binary(operation, &lhs, &rhs, &lhs_val, &rhs_val) {
                    self.statistics.identities_simplified = count_one(self.statistics.identities_simplified);
                    return simplified;
                }
                if let Some(id) = self.cancel_add_sub(operation, lhs.id, rhs.id) {
                    self.statistics.identities_simplified = count_one(self.statistics.identities_simplified);
                    return Expression::Var(id);
                }
                Expression::Binary { operation, lhs, rhs }
            },
            Expression::Unary { operation, operand } => {
                let operand = self.resolve_value(operand);
                let operand_val = self.try_get_const(&operand);
                if let Some(c) = &operand_val {
                    let modulus = modulus_u256();
                    if uint_lt(c, &modulus) {
                        let result = fold_unary(operation, c);
                        if let Some(result) = result {
                            self.statistics.constants_folded = count_one(self.statistics.constants_folded);
                            return Expression::Literal { value: result, value_type: Type::word() };
                        }
                    }
                }
                if operation == UnaryOperation::Not {
                    match self.unary_defs.get(&operand.id.0) {
                        Some(def) => {
                            proof {
                                assert(k.unary.contains_key(operand.id.0) && k.unary[operand.id.0] == (
                                    def.0,
                                    def.1.0,
                                ));
                            }
                            if def.0 == UnaryOperation::Not {
                                let inner = def.1;
                                self.statistics.identities_simplified = count_one(self.statistics.identities_simplified);
                                return Expression::Var(inner);
                            }
                        },
                        None => {
                            proof {
                                assert(!k.unary.contains_key(operand.id.0));
                            }
                        },
                    }
                }
                Expression::Unary { operation, operand }
            },
            Expression::Ternary { operation, a, b, n } => {
                let a = self.resolve_value(a);
                let b = self.resolve_value(b);
                let n = self.resolve_value(n);
                let a_val = self.try_get_const(&a);
                let b_val = self.try_get_const(&b);
                let n_val = self.try_get_const(&n);
                if let (Some(av), Some(bv), Some(nv)) = (&a_val, &b_val, &n_val) {
                    if let Some(result) = fold_ternary(operation, av, bv, nv) {
                        self.statistics.constants_folded = count_one(self.statistics.constants_folded);
                        return Expression::Literal { value: result, value_type: Type::word() };
                    }
                }
                Expression::Ternary { operation, a, b, n }
            },
            Expression::Var(id) => Expression::Var(self.resolve_copy(id)),
            Expression::MLoad { offset, region } => {
                let offset = self.resolve_value(offset);
                let region = if region == MemoryRegion::Unknown {
                    self.resolve_region(&offset)
                } else {
                    region
                };
                Expression::MLoad { offset, region }
            },
            Expression::Keccak256Single { word0 } => {
                let word0 = self.resolve_value(word0);
                match self.try_get_const(&word0) {
                    Some(c) => {
                        let result = fold_keccak256_single(&c);
                        self.statistics.constants_folded = count_one(self.statistics.constants_folded);
                        Expression::Literal { value: result, value_type: Type::word() }
                    },
                    None => Expression::Keccak256Single { word0 },
                }
            },
            Expression::Keccak256Pair { word0, word1 } => {
                let word0 = self.resolve_value(word0);
                let word1 = self.resolve_value(word1);
                match (self.try_get_const(&word0), self.try_get_const(&word1)) {
                    (Some(c0), Some(c1)) => {
                        let result = fold_keccak256_pair(&c0, &c1);
                        self.statistics.constants_folded = count_one(self.statistics.constants_folded);
                        Expression::Literal { value: result, value_type: Type::word() }
                    },
                    _ => Expression::Keccak256Pair { word0, word1 },
                }
            },
            Expression::MappingSLoad { key, slot } => Expression::MappingSLoad {
                key: self.resolve_value(key),
                slot: self.resolve_value(slot),
            },
            other => match env_read_kind(&other) {
                Some(kind) => self.cse_env_read(kind, other),
                None => other,
            },
        }
    }

    /// The exponent of a known constant that is a power-of-two word.
    fn known_power(&self, value: &Value) -> (r: Option<u32>)
        ensures
            match power_exponent(known(self.knowledge(), value.id.0)) {
                Some(j) => j < 256 && r == Some(j as u32),
                None => r is None,
            },
    {
        let c = self.try_get_const(value);
        match c {
            Some(c) => {
                let modulus = modulus_u256();
                if uint_lt(&c, &modulus) {
                    let j = log2_exact(&c);
                    proof {
                        if let Some(j) = j {
                            let w = choose|i: nat| c@ == two_pow(i);
                            assert(c@ == two_pow(j as nat));
                            if w < j as nat {
                                lemma_two_pow_strict(w, j as nat);
                            } else if j < w {
                                lemma_two_pow_strict(j as nat, w);
                            }
                            if j >= 256 {
                                lemma_two_pow_mono(256, j as nat);
                            }
                        }
                    }
                    j
                } else {
                    None
                }
            },
            None => None,
        }
    }

    /// Chooses the strength reduction for a simplified binding expression.
    fn strength_reduce_plan(&self, expression: &Expression) -> (r: Option<(BinaryOperation, Uint, bool, Value)>)
        ensures
            match strength_reduction(self.knowledge(), *expression) {
                Some(p) => r matches Some(q) && q.0 == p.0 && q.1@ == p.1 && q.2 == p.2 && q.3 == p.3,
                None => r is None,
            },
    {
        let (operation, lhs, rhs) = match expression {
            Expression::Binary { operation, lhs, rhs } => (*operation, *lhs, *rhs),
            _ => return None,
        };
        let lp = self.known_power(&lhs);
        let rp = self.known_power(&rhs);
        match operation {
            BinaryOperation::Mul => {
                let (j, value) = match rp {
                    Some(j) => (j, lhs),
                    None => match lp {
                        Some(j) => (j, rhs),
                        None => return None,
                    },
                };
                if 1 <= j && j < 256 {
                    Some((BinaryOperation::Shl, Uint::from_u64(j as u64), true, value))
                } else {
                    None
                }
            },
            BinaryOperation::Div => match rp {
                Some(j) => if 1 <= j && j < 256 {
                    Some((BinaryOperation::Shr, Uint::from_u64(j as u64), true, lhs))
                } else {
                    None
                },
                None => None,
            },
            BinaryOperation::Mod => match rp {
                Some(j) => if 1 <= j && j < 256 {
                    let one = Uint::from_u64(1);
                    let power = one.shl(j as usize);
                    proof {
                        lemma_two_pow_pos(j as nat);
                    }
                    let mask = uint_sub(&power, &one);
                    Some((BinaryOperation::And, mask, false, lhs))
                } else {
                    None
                },
                None => None,
            },
            _ => None,
        }
    }

    /// Simplifies a `let` statement: simplifies its value, applies strength
    /// reduction to a single binding where it can, and learns from the binding.
    /// Strength reduction needs a fresh id and is skipped once ids run out.
    fn simplify_let(&mut self, bindings: Vec<ValueId>, value: Expression) -> (r: Vec<Statement>)
        ensures
            stats_grow(old(self).stats(), final(self).stats()),
            stats_grow(tallied(old(self).stats(), expression_tally(old(self).knowledge(), value)), final(self).stats()),
            let_simplified(
                old(self).knowledge(),
                old(self).next_id(),
                bindings@,
                value,
                r@,
                final(self).knowledge(),
                final(self).next_id(),
            ),
    {
        let ghost k = self.knowledge();
        let simplified = self.simplify_expression(value);
        if bindings.len() == 1 && self.next_value_id.0 < u32::MAX {
            if let Some((operation, constant, helper_on_lhs, other)) = self.strength_reduce_plan(&simplified) {
                let helper_id = self.next_value_id.fresh();
                let ghost before = self.constants@;
                self.constants.insert(helper_id.0, constant.clone());
                self.statistics.identities_simplified = count_one(self.statistics.identities_simplified);
                proof {
                    assert(constants_of(self.constants@) =~= constants_of(before).insert(helper_id.0, constant@));
                }
                let helper = Value::word(helper_id);
                let (lhs, rhs) = if helper_on_lhs {
                    (helper, other)
                } else {
                    (other, helper)
                };
                let mut out: Vec<Statement> = Vec::new();
                let mut helper_bindings: Vec<ValueId> = Vec::new();
                helper_bindings.push(helper_id);
                out.push(Statement::Let {
                    bindings: helper_bindings,
                    value: Expression::Literal { value: constant, value_type: Type::word() },
                });
                out.push(Statement::Let { bindings, value: Expression::Binary { operation, lhs, rhs } });
                proof {
                    assert(out@[0] matches Statement::Let { bindings: b0, .. } && b0@ =~= seq![helper_id]);
                }
                return out;
            }
        }
        if bindings.len() == 1 {
            let b = bindings[0];
            self.learn_binding(b, &simplified);
        }
        let mut out: Vec<Statement> = Vec::new();
        out.push(Statement::Let { bindings, value: simplified });
        out
    }

    /// Learns from binding the single id `b` to the simplified expression.
    fn learn_binding(&mut self, b: ValueId, expression: &Expression)
        ensures
            stats_grow(old(self).stats(), final(self).stats()),
            final(self).knowledge() == learn(old(self).knowledge(), b.0, *expression),
            final(self).next_id() == old(self).next_id(),
    {
        let ghost k = self.knowledge();
        match expression {
            Expression::Literal { value, .. } => {
                let ghost before = self.constants@;
                self.constants.insert(b.0, value.clone());
                proof {
                    assert(constants_of(self.constants@) =~= constants_of(before).insert(b.0, value@));
                }
            },
            Expression::Var(src) => {
                let resolved = self.resolve_copy(*src);
                let ghost before_copies = self.copies@;
                self.copies.insert(b.0, resolved);
                proof {
                    assert(copies_of(self.copies@) =~= copies_of(before_copies).insert(b.0, resolved.0));
                }
                let c = match self.constants.get(&resolved.0) {
                    Some(c) => Some(c.clone()),
                    None => None,
                };
                match c {
                    Some(c) => {
                        let ghost before = self.constants@;
                        proof {
                            assert(k.constants.contains_key(resolved.0) && k.constants[resolved.0] == c@);
                        }
                        self.constants.insert(b.0, c);
                        proof {
                            assert(constants_of(self.constants@) =~= constants_of(before).insert(b.0, c@));
                        }
                    },
                    None => {
                        proof {
                            assert(!k.constants.contains_key(resolved.0));
                        }
                    },
                }
                proof {
                    assert(self.knowledge() =~= learn(k, b.0, *expression));
                }
            },
            Expression::Unary { operation, operand } => {
                let ghost before = self.unary_defs@;
                self.unary_defs.insert(b.0, (*operation, operand.id));
                proof {
                    assert(unary_of(self.unary_defs@) =~= unary_of(before).insert(b.0, (*operation, operand.id.0)));
                }
            },
            Expression::Binary { operation, lhs, rhs } => {
                let ghost before = self.binary_defs@;
                self.binary_defs.insert(b.0, (*operation, lhs.id, rhs.id));
                proof {
                    assert(binary_of(self.binary_defs@) =~= binary_of(before).insert(
                        b.0,
                        (*operation, lhs.id.0, rhs.id.0),
                    ));
                }
            },
            _ => {
                if let Some(kind) = env_read_kind(expression) {
                    let n = kind.number();
                    if !self.env_reads.contains_key(&n) {
                        let ghost before = self.env_reads@;
                        self.env_reads.insert(n, b);
                        proof {
                            assert(env_of(self.env_reads@) =~= env_of(before).insert(n, b.0));
                        }
                    }
                }
            },
        }
    }

    /// Resolves the ids of a list of values through copy propagation.
    fn resolve_values(&self, values: Vec<Value>) -> (r: Vec<Value>)
        ensures
            r@ == renamed_values(values@, resolver(self.knowledge())),
    {
        let mut out: Vec<Value> = Vec::new();
        for i in 0..values.len()
            invariant
                out@ == renamed_values(values@.subrange(0, i as int), resolver(self.knowledge())),
        {
            let v = self.resolve_value(values[i]);
            out.push(v);
            proof {
                assert(values@.subrange(0, i + 1) =~= values@.subrange(0, i as int).push(values@[i as int]));
                assert(out@ =~= renamed_values(values@.subrange(0, i + 1), resolver(self.knowledge())));
            }
        }
        proof {
            assert(values@.subrange(0, values@.len() as int) =~= values@);
        }
        out
    }

    fn resolve_option(&self, value: Option<Value>) -> (r: Option<Value>)
        ensures
            r == crate::rename::renamed_opt(value, resolver(self.knowledge())),
    {
        match value {
            Some(v) => Some(self.resolve_value(v)),
            None => None,
        }
    }

    /// Resolves the operands of a statement that has no nested region.
    fn resolve_operands(&self, statement: Statement) -> (r: Statement)
        requires
            operand_only(statement),
        ensures
            renamed_statement(statement, r, resolver(self.knowledge())),
    {
        match statement {
            Statement::MCopy { dest, src, length } => Statement::MCopy {
                dest: self.resolve_value(dest),
                src: self.resolve_value(src),
                length: self.resolve_value(length),
            },
            Statement::SStore { key, value, static_slot } => Statement::SStore {
                key: self.resolve_value(key),
                value: self.resolve_value(value),
                static_slot,
            },
            Statement::TStore { key, value } => Statement::TStore {
                key: self.resolve_value(key),
                value: self.resolve_value(value),
            },
            Statement::MappingSStore { key, slot, value } => Statement::MappingSStore {
                key: self.resolve_value(key),
                slot: self.resolve_value(slot),
                value: self.resolve_value(value),
            },
            Statement::Revert { offset, length } => Statement::Revert {
                offset: self.resolve_value(offset),
                length: self.resolve_value(length),
            },
            Statement::Return { offset, length } => Statement::Return {
                offset: self.resolve_value(offset),
                length: self.resolve_value(length),
            },
            Statement::ExternalCall {
                kind,
                gas,
                address,
                value,
                args_offset,
                args_length,
                ret_offset,
                ret_length,
                result,
            } => Statement::ExternalCall {
                kind,
                gas: self.resolve_value(gas),
                address: self.resolve_value(address),
                value: self.resolve_option(value),
                args_offset: self.resolve_value(args_offset),
                args_length: self.resolve_value(args_length),
                ret_offset: self.resolve_value(ret_offset),
                ret_length: self.resolve_value(ret_length),
                result,
            },
            Statement::Create { kind, value, offset, length, salt, result } => Statement::Create {
                kind,
                value: self.resolve_value(value),
                offset: self.resolve_value(offset),
                length: self.resolve_value(length),
                salt: self.resolve_option(salt),
                result,
            },
            Statement::Log { offset, length, topics } => Statement::Log {
                offset: self.resolve_value(offset),
                length: self.resolve_value(length),
                topics: self.resolve_values(topics),
            },
            Statement::CodeCopy { dest, offset, length } => Statement::CodeCopy {
                dest: self.resolve_value(dest),
                offset: self.resolve_value(offset),
                length: self.resolve_value(length),
            },
            Statement::ExtCodeCopy { address, dest, offset, length } => Statement::ExtCodeCopy {
                address: self.resolve_value(address),
                dest: self.resolve_value(dest),
                offset: self.resolve_value(offset),
                length: self.resolve_value(length),
            },
            Statement::ReturnDataCopy { dest, offset, length } => Statement::ReturnDataCopy {
                dest: self.resolve_value(dest),
                offset: self.resolve_value(offset),
                length: self.resolve_value(length),
            },
            Statement::DataCopy { dest, offset, length } => Statement::DataCopy {
                dest: self.resolve_value(dest),
                offset: self.resolve_value(offset),
                length: self.resolve_value(length),
            },
            Statement::CallDataCopy { dest, offset, length } => Statement::CallDataCopy {
                dest: self.resolve_value(dest),
                offset: self.resolve_value(offset),
                length: self.resolve_value(length),
            },
            Statement::SetImmutable { key, value } => Statement::SetImmutable { key, value: self.resolve_value(value) },
            Statement::Leave { return_values } => Statement::Leave { return_values: self.resolve_values(return_values) },
            Statement::Break { values } => Statement::Break { values: self.resolve_values(values) },
            Statement::Continue { values } => Statement::Continue { values: self.resolve_values(values) },
            Statement::SelfDestruct { address } => Statement::SelfDestruct { address: self.resolve_value(address) },
            other => other,
        }
    }

    /// Appends `let outputs[i] = values[i]` for each position both lists have.
    fn bind_outputs(outputs: &Vec<ValueId>, values: &Vec<Value>, result: &mut Vec<Statement>)
        ensures
            final(result)@.len() == old(result)@.len() + if outputs@.len() < values@.len() {
                outputs@.len()
            } else {
                values@.len()
            },
            forall|i: int| 0 <= i < old(result)@.len() ==> #[trigger] final(result)@[i] == old(result)@[i],
            forall|i: int|
                0 <= i < final(result)@.len() - old(result)@.len() ==> (#[trigger] final(result)@[old(
                    result,
                )@.len() + i] matches Statement::Let { bindings, value } && bindings@ == seq![outputs@[i]]
                    && value == Expression::Var(values@[i].id)),
    {
        let n = if outputs.len() < values.len() {
            outputs.len()
        } else {
            values.len()
        };
        let ghost r0 = result@;
        for i in 0..n
            invariant
                n <= outputs@.len(),
                n <= values@.len(),
                result@.len() == r0.len() + i,
                forall|k: int| 0 <= k < r0.len() ==> #[trigger] result@[k] == r0[k],
                forall|k: int|
                    0 <= k < i ==> (#[trigger] result@[r0.len() + k] matches Statement::Let { bindings, value }
                        && bindings@ == seq![outputs@[k]] && value == Expression::Var(values@[k].id)),
        {
            let mut bindings: Vec<ValueId> = Vec::new();
            bindings.push(outputs[i]);
            proof {
                assert(bindings@ =~= seq![outputs@[i as int]]);
            }
            result.push(Statement::Let { bindings, value: Expression::Var(values[i].id) });
        }
    }

    /// Simplifies a list of statements in a scope of its own: the constants
    /// and copies learned inside are forgotten afterwards. Revert patterns are
    /// outlined.
    fn simplify_statements(&mut self, statements: Vec<Statement>) -> (r: Vec<Statement>)
        ensures
            stats_grow(old(self).stats(), final(self).stats()),
            final(self).knowledge().constants == old(self).knowledge().constants,
            final(self).knowledge().copies == old(self).knowledge().copies,
            final(self).next_id() >= old(self).next_id(),
            statements_simplified(
                old(self).knowledge(),
                old(self).next_id(),
                statements@,
                r@,
                final(self).knowledge(),
                final(self).next_id(),
            ),
        decreases statements@, 1int,
    {
        let ghost s0 = statements@;
        let outer_constants = self.constants.clone();
        let outer_copies = self.copies.clone();
        let result = self.simplify_list(statements);
        let ghost mid = result@;
        let ghost ki = self.knowledge();
        let empty: BTreeSet<u32> = BTreeSet::new();
        proof {
            assert(constants_view(self.constants@) =~= ki.constants);
            assert(empty@ =~= Set::<u32>::empty());
        }
        let result = outline_panic_patterns(result, &self.constants, &empty);
        let ghost mid2 = result@;
        let result = outline_custom_error_patterns(result, &self.constants);
        self.constants = outer_constants;
        self.copies = outer_copies;
        proof {
            assert(self.knowledge() == leave_statements(old(self).knowledge(), ki));
            assert(list_simplified(old(self).knowledge(), old(self).next_id(), s0, mid, ki, self.next_id()));
            assert(crate::simplified::panic_outlined(ki.constants, Set::empty(), mid, mid2));
            assert(crate::simplified::custom_outlined(ki.constants, mid2, result@));
            assert(crate::simplified::witness((mid, mid2, ki)));
        }
        result
    }

    /// Simplifies statements in order, within the current scope.
    #[verifier::loop_isolation(false)]
    fn simplify_list(&mut self, statements: Vec<Statement>) -> (r: Vec<Statement>)
        ensures
            stats_grow(old(self).stats(), final(self).stats()),
            final(self).next_id() >= old(self).next_id(),
            list_simplified(
                old(self).knowledge(),
                old(self).next_id(),
                statements@,
                r@,
                final(self).knowledge(),
                final(self).next_id(),
            ),
        decreases statements@, 0int,
    {
        let ghost s1 = statements@;
        let ghost k0 = self.knowledge();
        let ghost n0 = self.next_id();
        let mut statements = statements;
        let mut result: Vec<Statement> = Vec::new();
        let n = statements.len();
        proof {
            assert(s1.subrange(0, 0) =~= Seq::<Statement>::empty());
        }
        for i in 0..n
            invariant
                n == s1.len(),
                statements@.len() == n,
                forall|k: int| i <= k < n ==> #[trigger] statements@[k] == s1[k],
                self.next_id() >= old(self).next_id(),
                stats_grow(old(self).stats(), self.stats()),
                list_simplified(k0, n0, s1.subrange(0, i as int), result@, self.knowledge(), self.next_id()),
        {
            let mut statement = Statement::Stop;
            std::mem::swap(&mut statement, &mut statements[i]);
            proof {
                assert(statement == s1[i as int]);
            }
            let ghost kb = self.knowledge();
            let ghost nb = self.next_id();
            let ghost before = result@;
            let mut simplified = self.simplify_statement(statement);
            let ghost chunk = simplified@;
            result.append(&mut simplified);
            proof {
                let t = s1.subrange(0, i + 1);
                assert(t.subrange(0, t.len() - 1) =~= s1.subrange(0, i as int));
                assert(t[t.len() - 1] == s1[i as int]);
                assert(result@.subrange(0, before.len() as int) =~= before);
                assert(result@.subrange(before.len() as int, result@.len() as int) =~= chunk);
                assert(list_simplified(
                    k0,
                    n0,
                    t.subrange(0, t.len() - 1),
                    result@.subrange(0, before.len() as int),
                    kb,
                    nb,
                ));
                assert(crate::simplified::witness((before.len() as int, kb, nb)));
            }
        }
        proof {
            assert(s1.subrange(0, n as int) =~= s1);
        }
        result
    }

    /// Simplifies a region in a scope of its own: the constants, copies and
    /// environment reads learned inside are forgotten afterwards. Its yields
    /// are resolved, and a collapsed panic window keeps the values they name.
    fn simplify_region(&mut self, region: Region) -> (r: Region)
        ensures
            stats_grow(old(self).stats(), final(self).stats()),
            scope_restored(old(self).knowledge(), final(self).knowledge()),
            final(self).next_id() >= old(self).next_id(),
            region_simplified(
                old(self).knowledge(),
                old(self).next_id(),
                region,
                r,
                final(self).knowledge(),
                final(self).next_id(),
            ),
        decreases region, 2int,
    {
        let ghost a = region;
        let outer_constants = self.constants.clone();
        let outer_copies = self.copies.clone();
        let outer_env_reads = self.env_reads.clone();
        let Region { statements, yields } = region;
        let statements = self.simplify_list(statements);
        let ghost mid = statements@;
        let ghost ki = self.knowledge();
        let yields = self.resolve_values(yields);
        let yielded = yields_as_used(&yields);
        proof {
            assert(constants_view(self.constants@) =~= ki.constants);
        }
        let statements = outline_panic_patterns(statements, &self.constants, &yielded);
        let ghost mid2 = statements@;
        let statements = outline_custom_error_patterns(statements, &self.constants);
        self.constants = outer_constants;
        self.copies = outer_copies;
        self.env_reads = outer_env_reads;
        let r = Region { statements, yields };
        proof {
            assert(self.knowledge() == leave_region(old(self).knowledge(), ki));
            assert(list_simplified(old(self).knowledge(), old(self).next_id(), a.statements@, mid, ki, self.next_id()));
            assert(crate::simplified::panic_outlined(ki.constants, ids_of(yields@), mid, mid2));
            assert(crate::simplified::custom_outlined(ki.constants, mid2, r.statements@));
            assert(r.yields@ == renamed_values(a.yields@, resolver(ki)));
            assert(crate::simplified::witness((mid, mid2, ki)));
        }
        r
    }

    /// Simplifies the bodies of switch cases.
    #[verifier::loop_isolation(false)]
    fn simplify_cases(&mut self, cases: Vec<SwitchCase>) -> (r: Vec<SwitchCase>)
        ensures
            stats_grow(old(self).stats(), final(self).stats()),
            r@.len() == cases@.len(),
            forall|j: int| 0 <= j < cases@.len() ==> (#[trigger] r@[j]).value == cases@[j].value,
            scope_restored(old(self).knowledge(), final(self).knowledge()),
            final(self).next_id() >= old(self).next_id(),
            cases_simplified(
                old(self).knowledge(),
                old(self).next_id(),
                cases@,
                r@,
                final(self).knowledge(),
                final(self).next_id(),
            ),
        decreases cases@, 1int,
    {
        let ghost c1 = cases@;
        let ghost k0 = self.knowledge();
        let ghost n0 = self.next_id();
        let mut cases = cases;
        let n = cases.len();
        proof {
            assert(c1.subrange(0, 0) =~= Seq::<SwitchCase>::empty());
            assert(cases@.subrange(0, 0) =~= Seq::<SwitchCase>::empty());
        }
        for j in 0..n
            invariant
                n == c1.len(),
                cases@.len() == n,
                forall|k: int| j <= k < n ==> #[trigger] cases@[k] == c1[k],
                forall|k: int| 0 <= k < j ==> (#[trigger] cases@[k]).value == c1[k].value,
                scope_restored(old(self).knowledge(), self.knowledge()),
                self.next_id() >= old(self).next_id(),
                stats_grow(old(self).stats(), self.stats()),
                cases_simplified(
                    k0,
                    n0,
                    c1.subrange(0, j as int),
                    cases@.subrange(0, j as int),
                    self.knowledge(),
                    self.next_id(),
                ),
        {
            let mut case = SwitchCase {
                value: Uint::zero(),
                body: Region { statements: Vec::new(), yields: Vec::new() },
            };
            let ghost before = cases@;
            std::mem::swap(&mut case, &mut cases[j]);
            proof {
                assert(case == c1[j as int]);
            }
            let SwitchCase { value, body } = case;
            let ghost kb = self.knowledge();
            let ghost nb = self.next_id();
            let body = self.simplify_region(body);
            cases.set(j, SwitchCase { value, body });
            proof {
                let t = c1.subrange(0, j + 1);
                let u = cases@.subrange(0, j + 1);
                assert(t.subrange(0, t.len() - 1) =~= c1.subrange(0, j as int));
                assert(u.subrange(0, u.len() - 1) =~= before.subrange(0, j as int));
                assert(t[t.len() - 1] == c1[j as int]);
                assert(u[u.len() - 1] == cases@[j as int]);
                assert(crate::simplified::witness((kb, nb)));
            }
        }
        proof {
            assert(c1.subrange(0, n as int) =~= c1);
            assert(cases@.subrange(0, n as int) =~= cases@);
        }
        cases
    }

    /// Simplifies an `if` whose condition is a known constant: the branch
    /// taken stands in its place, its yields bound to the outputs; with no
    /// else branch and a false condition, the outputs take the inputs.
    fn simplify_constant_if(&mut self, is_true: bool, statement: Statement) -> (r: Vec<Statement>)
        requires
            statement is If,
        ensures
            stats_grow(old(self).stats(), final(self).stats()),
            scope_restored(old(self).knowledge(), final(self).knowledge()),
            final(self).next_id() >= old(self).next_id(),
            constant_if_simplified(
                old(self).knowledge(),
                old(self).next_id(),
                is_true,
                statement,
                r@,
                final(self).knowledge(),
                final(self).next_id(),
            ),
        decreases statement, 3int,
    {
        let (inputs, then_region, else_region, outputs) = match statement {
            Statement::If { inputs, then_region, else_region, outputs, .. } => (inputs, then_region, else_region, outputs),
            _ => return Vec::new(),
        };
        if is_true {
            let taken = self.simplify_region(then_region);
            let ghost t2 = taken;
            let Region { statements, yields } = taken;
            let mut result = statements;
            Self::bind_outputs(&outputs, &yields, &mut result);
            proof {
                Self::lemma_inlined(t2, outputs@, result@);
                assert(crate::simplified::witness(t2));
            }
            result
        } else {
            match else_region {
                Some(else_region) => {
                    let taken = self.simplify_region(else_region);
                    let ghost t2 = taken;
                    let Region { statements, yields } = taken;
                    let mut result = statements;
                    Self::bind_outputs(&outputs, &yields, &mut result);
                    proof {
                        Self::lemma_inlined(t2, outputs@, result@);
                        assert(crate::simplified::witness(t2));
                    }
                    result
                },
                None => {
                    let inputs = self.resolve_values(inputs);
                    let mut result: Vec<Statement> = Vec::new();
                    let ghost e = result@;
                    Self::bind_outputs(&outputs, &inputs, &mut result);
                    proof {
                        assert forall|i: int| 0 <= i < result@.len() implies (#[trigger] result@[i] matches Statement::Let {
                            bindings,
                            value,
                        } && bindings@ == seq![outputs@[i]] && value == Expression::Var(inputs@[i].id)) by {
                            assert(result@[e.len() + i] == result@[i]);
                        }
                    }
                    result
                },
            }
        }
    }

    /// A region's statements followed by the bindings of the outputs to its
    /// yields, as [`Self::bind_outputs`] appends them, are the region inlined.
    proof fn lemma_inlined(t: Region, outputs: Seq<ValueId>, r: Seq<Statement>)
        requires
            r.len() == t.statements@.len() + if outputs.len() < t.yields@.len() {
                outputs.len()
            } else {
                t.yields@.len()
            },
            forall|i: int| 0 <= i < t.statements@.len() ==> #[trigger] r[i] == t.statements@[i],
            forall|i: int|
                0 <= i < r.len() - t.statements@.len() ==> (#[trigger] r[t.statements@.len() + i] matches Statement::Let {
                    bindings,
                    value,
                } && bindings@ == seq![outputs[i]] && value == Expression::Var(t.yields@[i].id)),
        ensures
            inlined_region(t, outputs, r),
    {
        let n = t.statements@.len() as int;
        assert(r.subrange(0, n) =~= t.statements@);
        let b = r.subrange(n, r.len() as int);
        assert forall|i: int| 0 <= i < b.len() implies (#[trigger] b[i] matches Statement::Let { bindings, value }
            && bindings@ == seq![outputs[i]] && value == Expression::Var(t.yields@[i].id)) by {
            assert(b[i] == r[n + i]);
        }
    }

    /// Simplifies a statement; returns the statements that replace it.
    ///
    /// A `let` is simplified as [`Self::simplify_let`] says. Memory stores
    /// resolve their operands and, at a known constant offset, their region. A
    /// branch on a known constant is replaced by the branch taken. A switch
    /// whose cases all start with the same callvalue check gets one check
    /// above it; where at least three branches start by reading `callvalue()`,
    /// one read above the switch serves them. Nested regions are simplified in
    /// scopes of their own.
    fn simplify_statement(&mut self, statement: Statement) -> (r: Vec<Statement>)
        ensures
            stats_grow(old(self).stats(), final(self).stats()),
            branch_known(old(self).knowledge(), statement) ==> branch_counted(old(self).stats(), final(self).stats()),
            (statement is Let) ==> stats_grow(
                tallied(old(self).stats(), expression_tally(old(self).knowledge(), statement->Let_value)),
                final(self).stats(),
            ),
            final(self).next_id() >= old(self).next_id(),
            statement_simplified(
                old(self).knowledge(),
                old(self).next_id(),
                statement,
                r@,
                final(self).knowledge(),
                final(self).next_id(),
            ),
            ((statement is If) || (statement is Switch) || (statement is Block)) ==> scope_restored(
                old(self).knowledge(),
                final(self).knowledge(),
            ),
            (statement is For) ==> final(self).knowledge().constants == old(self).knowledge().constants
                && final(self).knowledge().copies == old(self).knowledge().copies,
            !((statement is Let) || (statement is If) || (statement is Switch) || (statement is For) || (
            statement is Block)) ==> final(self).knowledge() == old(self).knowledge(),
        decreases statement, 4int,
    {
        match statement {
            Statement::Let { bindings, value } => self.simplify_let(bindings, value),
            Statement::MStore { offset, value, region } => {
                let offset = self.resolve_value(offset);
                let region = if region == MemoryRegion::Unknown {
                    self.resolve_region(&offset)
                } else {
                    region
                };
                let mut out: Vec<Statement> = Vec::new();
                out.push(Statement::MStore { offset, value: self.resolve_value(value), region });
                out
            },
            Statement::MStore8 { offset, value, region } => {
                let offset = self.resolve_value(offset);
                let region = if region == MemoryRegion::Unknown {
                    self.resolve_region(&offset)
                } else {
                    region
                };
                let mut out: Vec<Statement> = Vec::new();
                out.push(Statement::MStore8 { offset, value: self.resolve_value(value), region });
                out
            },
            Statement::If { condition, .. } => {
                let condition = self.resolve_value(condition);
                match self.try_get_const(&condition) {
                    Some(c) => {
                        let is_true = !crate::uint::uint_is_zero(&c);
                        self.statistics.branches_eliminated = count_one(self.statistics.branches_eliminated);
                        return self.simplify_constant_if(is_true, statement);
                    },
                    None => {},
                }
                let (inputs, then_region, else_region, outputs) = match statement {
                    Statement::If { inputs, then_region, else_region, outputs, .. } => (
                        inputs,
                        then_region,
                        else_region,
                        outputs,
                    ),
                    _ => return Vec::new(),
                };
                let inputs = self.resolve_values(inputs);
                let then_region = self.simplify_region(then_region);
                let ghost k1 = self.knowledge();
                let ghost n1 = self.next_id();
                let else_region = match else_region {
                    Some(r) => Some(self.simplify_region(r)),
                    None => None,
                };
                let mut out: Vec<Statement> = Vec::new();
                out.push(Statement::If { condition, inputs, then_region, else_region, outputs });
                proof {
                    assert(crate::simplified::witness((k1, n1)));
                }
                out
            },
            Statement::Switch { scrutinee, .. } => {
                let scrutinee = self.resolve_value(scrutinee);
                match self.try_get_const(&scrutinee) {
                    Some(c) => self.simplify_constant_switch(&c, statement),
                    None => self.simplify_switch(scrutinee, statement),
                }
            },
            Statement::For {
                initial_values,
                loop_variables,
                condition_statements,
                condition,
                body,
                post_input_variables,
                post,
                outputs,
            } => {
                let initial_values = self.resolve_values(initial_values);
                let saved_constants = self.constants.clone();
                let saved_copies = self.copies.clone();
                let condition_statements = self.simplify_statements(condition_statements);
                let ghost k1 = self.knowledge();
                let ghost n1 = self.next_id();
                let condition = self.simplify_expression(condition);
                let body = self.simplify_region(body);
                let ghost kb = self.knowledge();
                let ghost nb = self.next_id();
                let post = self.simplify_region(post);
                let ghost kp = self.knowledge();
                self.constants = saved_constants;
                self.copies = saved_copies;
                proof {
                    assert(self.knowledge() == leave_statements(old(self).knowledge(), kp));
                    assert(crate::simplified::witness((k1, n1, kb, nb, kp)));
                }
                let mut out: Vec<Statement> = Vec::new();
                out.push(Statement::For {
                    initial_values,
                    loop_variables,
                    condition_statements,
                    condition,
                    body,
                    post_input_variables,
                    post,
                    outputs,
                });
                out
            },
            Statement::Block(region) => {
                let region = self.simplify_region(region);
                let mut out: Vec<Statement> = Vec::new();
                out.push(Statement::Block(region));
                out
            },
            Statement::Expression(expression) => {
                let e = self.simplify_expression(expression);
                let mut out: Vec<Statement> = Vec::new();
                out.push(Statement::Expression(e));
                out
            },
            Statement::Stop => {
                let mut out: Vec<Statement> = Vec::new();
                out.push(Statement::Stop);
                out
            },
            Statement::Invalid => {
                let mut out: Vec<Statement> = Vec::new();
                out.push(Statement::Invalid);
                out
            },
            Statement::PanicRevert { code } => {
                let mut out: Vec<Statement> = Vec::new();
                out.push(Statement::PanicRevert { code });
                proof {
                    assert(out@ =~= seq![statement]);
                }
                out
            },
            terminator @ Statement::ErrorStringRevert { .. } => {
                let mut out: Vec<Statement> = Vec::new();
                out.push(terminator);
                proof {
                    assert(out@ =~= seq![statement]);
                }
                out
            },
            terminator @ Statement::CustomErrorRevert { .. } => {
                let mut out: Vec<Statement> = Vec::new();
                out.push(terminator);
                proof {
                    assert(out@ =~= seq![statement]);
                }
                out
            },
            other => {
                let resolved = self.resolve_operands(other);
                let mut out: Vec<Statement> = Vec::new();
                out.push(resolved);
                out
            },
        }
    }

    /// Simplifies a switch whose scrutinee is a known constant: the matching
    /// case, or else the default, stands in its place with its yields bound to
    /// the outputs; with neither, the outputs take the inputs.
    fn simplify_constant_switch(&mut self, scrutinee: &Uint, statement: Statement) -> (r: Vec<Statement>)
        requires
            statement is Switch,
        ensures
            branch_counted(old(self).stats(), final(self).stats()),
            scope_restored(old(self).knowledge(), final(self).knowledge()),
            final(self).next_id() >= old(self).next_id(),
            constant_switch_simplified(
                old(self).knowledge(),
                old(self).next_id(),
                scrutinee@,
                statement,
                r@,
                final(self).knowledge(),
                final(self).next_id(),
            ),
        decreases statement, 3int,
    {
        let (inputs, cases, default, outputs) = match statement {
            Statement::Switch { inputs, cases, default, outputs, .. } => (inputs, cases, default, outputs),
            _ => return Vec::new(),
        };
        let ghost c1 = cases@;
        let ghost c = scrutinee@;
        let mut cases = cases;
        let mut found: Option<usize> = None;
        let mut j: usize = 0;
        while found.is_none() && j < cases.len()
            invariant
                cases@ == c1,
                c == scrutinee@,
                j <= cases@.len(),
                found matches Some(f) ==> f < cases@.len() && first_match(c1, c, 0) == Some(f as int),
                found is None ==> first_match(c1, c, 0) == first_match(c1, c, j as int),
            decreases cases@.len() - j + if found is None {
                1int
            } else {
                0int
            },
        {
            if crate::uint::uint_eq(&cases[j].value, scrutinee) {
                proof {
                    assert(first_match(c1, c, j as int) == Some(j as int));
                }
                found = Some(j);
            } else {
                j = j + 1;
            }
        }
        let taken = match found {
            Some(f) => {
                let mut case = SwitchCase {
                    value: Uint::zero(),
                    body: Region { statements: Vec::new(), yields: Vec::new() },
                };
                std::mem::swap(&mut case, &mut cases[f]);
                proof {
                    assert(case == c1[f as int]);
                }
                self.simplify_region(case.body)
            },
            None => match default {
                Some(d) => self.simplify_region(d),
                None => {
                    let inputs = self.resolve_values(inputs);
                    let mut result: Vec<Statement> = Vec::new();
                    let ghost e = result@;
                    Self::bind_outputs(&outputs, &inputs, &mut result);
                    self.statistics.branches_eliminated = count_one(self.statistics.branches_eliminated);
                    proof {
                        assert forall|i: int| 0 <= i < result@.len() implies (#[trigger] result@[i] matches Statement::Let {
                            bindings,
                            value,
                        } && bindings@ == seq![outputs@[i]] && value == Expression::Var(inputs@[i].id)) by {
                            assert(result@[e.len() + i] == result@[i]);
                        }
                    }
                    return result;
                },
            },
        };
        let ghost t2 = taken;
        let Region { statements, yields } = taken;
        let mut result = statements;
        Self::bind_outputs(&outputs, &yields, &mut result);
        self.statistics.branches_eliminated = count_one(self.statistics.branches_eliminated);
        proof {
            Self::lemma_inlined(t2, outputs@, result@);
            assert(crate::simplified::witness(t2));
        }
        result
    }

    /// Simplifies a switch on an unknown scrutinee, hoisting callvalue checks
    /// and reads that its branches share.
    fn simplify_switch(&mut self, scrutinee: Value, statement: Statement) -> (r: Vec<Statement>)
        requires
            statement is Switch,
        ensures
            stats_grow(old(self).stats(), final(self).stats()),
            scope_restored(old(self).knowledge(), final(self).knowledge()),
            final(self).next_id() >= old(self).next_id(),
            r@.len() >= 1,
            r@.last() is Switch,
            switch_simplified(
                old(self).knowledge(),
                old(self).next_id(),
                scrutinee,
                statement,
                r@,
                final(self).knowledge(),
                final(self).next_id(),
            ),
        decreases statement, 3int,
    {
        let (inputs, cases, default, outputs) = match statement {
            Statement::Switch { inputs, cases, default, outputs, .. } => (inputs, cases, default, outputs),
            _ => {
                let mut out: Vec<Statement> = Vec::new();
                out.push(Statement::Switch {
                    scrutinee,
                    inputs: Vec::new(),
                    cases: Vec::new(),
                    default: None,
                    outputs: Vec::new(),
                });
                return out;
            },
        };
        let ghost k0 = self.knowledge();
        let ghost n0 = self.next_id();
        let ghost original_default = default;
        let inputs = self.resolve_values(inputs);
        let mut cases = self.simplify_cases(cases);
        let ghost kc = self.knowledge();
        let ghost nc = self.next_id();
        let mut default = match default {
            Some(r) => Some(self.simplify_region(r)),
            None => None,
        };
        let ghost cs0 = cases@;
        let ghost d0 = default;
        let ghost nd = self.next_id();
        let mut hoisted: Vec<Statement> = Vec::new();
        if cases.len() > 0 {
            if callvalue_check_fully_hoistable(&cases, &default) {
                hoisted = hoist_checks(&mut cases, &mut default);
            } else {
                let count = count_callvalue_leads(&cases);
                let default_has = match &default {
                    Some(d) => starts_with_callvalue_let(&d.statements),
                    None => false,
                };
                let total = if default_has {
                    count_one(count)
                } else {
                    count
                };
                if total >= 3 && self.next_value_id.0 < u32::MAX {
                    let hoisted_cv_id = self.next_value_id.fresh();
                    let mut bindings: Vec<ValueId> = Vec::new();
                    bindings.push(hoisted_cv_id);
                    proof {
                        assert(bindings@ =~= seq![hoisted_cv_id]);
                    }
                    hoisted.push(Statement::Let { bindings, value: Expression::CallValue });
                    hoist_reads(&mut cases, &mut default, hoisted_cv_id);
                }
            }
        }
        let ghost hs = hoisted@;
        hoisted.push(Statement::Switch { scrutinee, inputs, cases, default, outputs });
        proof {
            assert(hoisted@ == hs.push(hoisted@[hoisted@.len() - 1]));
            assert(crate::simplified::witness((cs0, kc, nc, d0, nd)));
            assert(hoisted_switch(
                scrutinee,
                renamed_values(statement->Switch_inputs@, resolver(k0)),
                statement->Switch_outputs@,
                cs0,
                d0,
                nd,
                hoisted@,
                self.next_id(),
            ));
        }
        hoisted
    }

    /// Points each return value that the body no longer defines at its entry
    /// slot.
    ///
    /// Folding an always-true guard can collapse a body to an unconditional
    /// `leave`, after which the dead fall-through code that defined some return
    /// values is removed. Each such return value is pointed at the entry
    /// return variable of its position, which is defined at function entry;
    /// the fall-through that would observe it is unreachable.
    fn reconcile_dangling_return_values(function: &mut Function)
        ensures
            final(function).id == old(function).id,
            final(function).name == old(function).name,
            final(function).parameters == old(function).parameters,
            final(function).returns == old(function).returns,
            final(function).return_values_initial == old(function).return_values_initial,
            final(function).body == old(function).body,
            final(function).call_count == old(function).call_count,
            final(function).size_estimate == old(function).size_estimate,
            final(function).return_values@.len() == old(function).return_values@.len(),
            final(function).return_values@ == reconciled_return_values(*old(function)),
    {
        let mut defined: BTreeSet<u32> = BTreeSet::new();
        let ghost params = Set::new(
            |id: u32| exists|k: int| 0 <= k < function.parameters@.len() && function.parameters@[k].0.0 == id,
        );
        for i in 0..function.parameters.len()
            invariant
                defined@ == Set::new(
                    |id: u32| exists|k: int| 0 <= k < i && function.parameters@[k].0.0 == id,
                ),
        {
            defined.insert(function.parameters[i].0.0);
            proof {
                assert(defined@ =~= Set::new(
                    |id: u32| exists|k: int| 0 <= k < i + 1 && function.parameters@[k].0.0 == id,
                )) by {
                    assert forall|id: u32|
                        (exists|k: int| 0 <= k < i + 1 && function.parameters@[k].0.0 == id) implies defined@.contains(
                        id,
                    ) by {
                        let k = choose|k: int| 0 <= k < i + 1 && function.parameters@[k].0.0 == id;
                        if k < i {
                            assert(exists|k2: int| 0 <= k2 < i && function.parameters@[k2].0.0 == id);
                        }
                    }
                }
            }
        }
        crate::operands::add_id_list(&function.return_values_initial, &mut defined);
        let defined = defined_ids_list(&function.body.statements, &defined);
        proof {
            assert(defined@ == function_defined(*function));
        }
        let ghost f0 = *function;
        let n = function.return_values.len();
        for i in 0..n
            invariant
                n == f0.return_values@.len(),
                function.id == f0.id,
                function.name == f0.name,
                function.parameters == f0.parameters,
                function.returns == f0.returns,
                function.return_values_initial == f0.return_values_initial,
                function.body == f0.body,
                function.call_count == f0.call_count,
                function.size_estimate == f0.size_estimate,
                defined@ == function_defined(f0),
                function.return_values@.len() == n,
                forall|k: int| i <= k < n ==> #[trigger] function.return_values@[k] == f0.return_values@[k],
                forall|k: int|
                    0 <= k < i ==> #[trigger] function.return_values@[k] == if !function_defined(f0).contains(
                        f0.return_values@[k].0,
                    ) && k < f0.return_values_initial@.len() {
                        f0.return_values_initial@[k]
                    } else {
                        f0.return_values@[k]
                    },
        {
            let rv = function.return_values[i];
            if !defined.contains(&rv.0) && i < function.return_values_initial.len() {
                let initial = function.return_values_initial[i];
                function.return_values.set(i, initial);
            }
        }
        proof {
            assert(function.return_values@ =~= reconciled_return_values(f0));
        }
    }

    /// Simplifies the object's code and every function, then eliminates dead
    /// code; returns the statistics of the pass.
    ///
    /// Fresh ids for the bindings the pass creates start above the largest id
    /// the object names. Each function starts with no known constants, copies,
    /// unary definitions or environment reads.
    pub fn simplify_object(&mut self, object: &mut Object) -> (r: SimplifyResults)
        ensures
            stats_grow(old(self).stats(), r),
            final(self).stats() == (SimplifyResults {
                constants_folded: 0,
                identities_simplified: 0,
                copies_propagated: 0,
                dead_bindings_removed: 0,
                branches_eliminated: 0,
                env_reads_eliminated: 0,
            }),
            final(object).name == old(object).name,
            final(object).subobjects == old(object).subobjects,
            final(object).data == old(object).data,
            final(object).functions@.len() == old(object).functions@.len(),
            forall|i: int|
                0 <= i < old(object).functions@.len() ==> (#[trigger] final(object).functions@[i]).id == old(
                    object,
                ).functions@[i].id && final(object).functions@[i].name == old(object).functions@[i].name
                    && final(object).functions@[i].parameters == old(object).functions@[i].parameters
                    && final(object).functions@[i].returns == old(object).functions@[i].returns,
            dead_code_free(final(object).code.statements@, Set::empty()),
            forall|i: int|
                0 <= i < final(object).functions@.len() ==> dead_code_free(
                    (#[trigger] final(object).functions@[i]).body.statements@,
                    ids_in(final(object).functions@[i].return_values@),
                ),
            forall|x: u32| object_value_ids(*old(object)).contains(x) ==> x < final(self).next_id() || x == u32::MAX,
            exists|n0: u32, mid: Seq<Statement>, k2: Knowledge, n2: u32|
                #![trigger crate::simplified::witness((n0, mid, k2, n2))]
                (forall|x: u32| object_value_ids(*old(object)).contains(x) ==> x < n0 || x == u32::MAX)
                    && statements_simplified(old(self).knowledge(), n0, old(object).code.statements@, mid, k2, n2)
                    && dead_code_cleaned(mid, final(object).code.statements@, Set::empty()),
            forall|i: int|
                0 <= i < old(object).functions@.len() ==> function_simplified(
                    old(object).functions@[i],
                    #[trigger] final(object).functions@[i],
                ),
    {
        let max = find_max_value_id(object);
        self.next_value_id = ValueId(if max < u32::MAX {
            max + 1
        } else {
            u32::MAX
        });
        let ghost first_fresh = self.next_value_id.0;
        let mut code = Block { statements: Vec::new() };
        std::mem::swap(&mut code, &mut object.code);
        let mut statements = self.simplify_statements(code.statements);
        let ghost mid = statements@;
        let ghost kc = self.knowledge();
        let ghost nc = self.next_id();
        let empty: BTreeSet<u32> = BTreeSet::new();
        let removed = eliminate_dead_code_in_stmts(&mut statements, &empty);
        proof {
            assert(empty@ =~= Set::empty());
            assert(crate::simplified::witness((first_fresh, mid, kc, nc)));
        }
        self.statistics.dead_bindings_removed = saturating_add(self.statistics.dead_bindings_removed, removed);
        object.code = Block { statements };
        let ghost fs0 = object.functions@;
        let ghost code1 = object.code;
        let n = object.functions.len();
        for i in 0..n
            invariant
                n == fs0.len(),
                object.name == old(object).name,
                object.subobjects == old(object).subobjects,
                object.data == old(object).data,
                object.code == code1,
                dead_code_free(code1.statements@, Set::empty()),
                object.functions@.len() == n,
                fs0 == old(object).functions@,
                forall|k: int| i <= k < n ==> #[trigger] object.functions@[k] == fs0[k],
                forall|k: int|
                    0 <= k < i ==> (#[trigger] object.functions@[k]).id == fs0[k].id && object.functions@[k].name
                        == fs0[k].name && object.functions@[k].parameters == fs0[k].parameters
                        && object.functions@[k].returns == fs0[k].returns,
                forall|k: int|
                    0 <= k < i ==> dead_code_free(
                        (#[trigger] object.functions@[k]).body.statements@,
                        ids_in(object.functions@[k].return_values@),
                    ),
                self.next_id() >= first_fresh,
                stats_grow(old(self).stats(), self.stats()),
                forall|x: u32| object_value_ids(*old(object)).contains(x) ==> x < first_fresh || x == u32::MAX,
                statements_simplified(old(self).knowledge(), first_fresh, old(object).code.statements@, mid, kc, nc),
                dead_code_cleaned(mid, code1.statements@, Set::empty()),
                forall|k: int| 0 <= k < i ==> function_simplified(fs0[k], #[trigger] object.functions@[k]),
        {
            let mut function = Function {
                id: crate::ir::FunctionId(0),
                name: String::new(),
                parameters: Vec::new(),
                returns: Vec::new(),
                return_values_initial: Vec::new(),
                return_values: Vec::new(),
                body: Block { statements: Vec::new() },
                call_count: 0,
                size_estimate: 0,
            };
            std::mem::swap(&mut function, &mut object.functions[i]);
            proof {
                assert(function == fs0[i as int]);
            }
            self.simplify_function(&mut function);
            object.functions.set(i, function);
        }
        proof {
            assert(crate::simplified::witness((first_fresh, mid, kc, nc)));
        }
        let statistics = self.statistics;
        self.statistics = SimplifyResults::default();
        statistics
    }

    /// Simplifies one function, starting with no known constants, copies,
    /// unary definitions or environment reads, then eliminates its dead code.
    fn simplify_function(&mut self, function: &mut Function)
        ensures
            stats_grow(old(self).stats(), final(self).stats()),
            final(function).id == old(function).id,
            final(function).name == old(function).name,
            final(function).parameters == old(function).parameters,
            final(function).returns == old(function).returns,
            dead_code_free(final(function).body.statements@, ids_in(final(function).return_values@)),
            function_simplified(*old(function), *final(function)),
            final(self).next_id() >= old(self).next_id(),
    {
        self.constants.clear();
        self.copies.clear();
        self.unary_defs.clear();
        self.env_reads.clear();
        let ghost kf = self.knowledge();
        let ghost nf = self.next_id();
        let ghost f0 = *function;
        proof {
            assert(kf.constants =~= Map::<u32, nat>::empty());
            assert(kf.copies =~= Map::<u32, u32>::empty());
            assert(kf.unary =~= Map::<u32, (UnaryOperation, u32)>::empty());
            assert(kf.env =~= Map::<u8, u32>::empty());
        }
        let mut body = Block { statements: Vec::new() };
        std::mem::swap(&mut body, &mut function.body);
        let statements = self.simplify_statements(body.statements);
        let ghost k2f = self.knowledge();
        let ghost n2f = self.next_id();
        function.body = Block { statements };
        let ghost fm = *function;
        Self::reconcile_dangling_return_values(function);
        let mut extra_used: BTreeSet<u32> = BTreeSet::new();
        crate::operands::add_id_list(&function.return_values, &mut extra_used);
        proof {
            assert(extra_used@ =~= ids_in(function.return_values@));
        }
        let mut statements = Vec::new();
        std::mem::swap(&mut statements, &mut function.body.statements);
        let removed = eliminate_dead_code_in_stmts(&mut statements, &extra_used);
        function.body.statements = statements;
        self.statistics.dead_bindings_removed = saturating_add(self.statistics.dead_bindings_removed, removed);
        proof {
            assert(crate::simplified::witness((kf, nf, fm, k2f, n2f)));
            assert(function_simplified(f0, *function));
        }
    }

    /// Simplifies a block in place, in a scope of its own.
    pub fn simplify_block(&mut self, block: &mut Block)
        ensures
            stats_grow(old(self).stats(), final(self).stats()),
            final(self).knowledge().constants == old(self).knowledge().constants,
            final(self).knowledge().copies == old(self).knowledge().copies,
            final(self).next_id() >= old(self).next_id(),
            statements_simplified(
                old(self).knowledge(),
                old(self).next_id(),
                old(block).statements@,
                final(block).statements@,
                final(self).knowledge(),
                final(self).next_id(),
            ),
    {
        let mut statements: Vec<Statement> = Vec::new();
        std::mem::swap(&mut statements, &mut block.statements);
        block.statements = self.simplify_statements(statements);
    }

    /// The statistics gathered since the pass started.
    pub fn statistics(&self) -> (r: SimplifyResults)
        ensures
            r == self.stats(),
    {
        self.statistics
    }

    /// The statistics gathered since the pass started.
    pub closed spec fn stats(&self) -> SimplifyResults {
        self.statistics
    }

    /// The region of a memory access whose offset may be a known constant.
    fn resolve_region(&self, value: &Value) -> (r: MemoryRegion)
        ensures
            r == (if self.knowledge().constants.contains_key(value.id.0) {
                region_of_address(self.knowledge().constants[value.id.0])
            } else {
                MemoryRegion::Unknown
            }),
    {
        match self.constants.get(&value.id.0) {
            Some(addr) => MemoryRegion::from_address(addr),
            None => MemoryRegion::Unknown,
        }
    }
}

/// The expression that reads the environment value of a kind.
pub open spec fn read_expression(k: EnvRead) -> Expression {
    match k {
        EnvRead::Address => Expression::Address,
        EnvRead::BaseFee => Expression::BaseFee,
        EnvRead::BlobBaseFee => Expression::BlobBaseFee,
        EnvRead::CallDataSize => Expression::CallDataSize,
        EnvRead::CallValue => Expression::CallValue,
        EnvRead::Caller => Expression::Caller,
        EnvRead::ChainId => Expression::ChainId,
        EnvRead::CodeSize => Expression::CodeSize,
        EnvRead::Coinbase => Expression::Coinbase,
        EnvRead::Difficulty => Expression::Difficulty,
        EnvRead::GasLimit => Expression::GasLimit,
        EnvRead::GasPrice => Expression::GasPrice,
        EnvRead::Number => Expression::Number,
        EnvRead::Origin => Expression::Origin,
        EnvRead::Timestamp => Expression::Timestamp,
    }
}

/// A read's kind names that read itself: two expressions of the same kind are
/// the same read, so reusing the binding of a read of one kind for another
/// read of that kind never swaps one environment value for another.
pub proof fn law_env_read_kinds_name_their_reads(e1: Expression, e2: Expression)
    requires
        env_read_of(e1) is Some,
        env_read_of(e1) == env_read_of(e2),
    ensures
        e1 == e2,
{
}

/// Each read expression of the environment has a kind, and that kind is the
/// read itself.
pub proof fn law_env_read_kind_is_the_read(k: EnvRead)
    ensures
        env_read_of(read_expression(k)) == Some(k),
{
}

/// Distinct kinds have distinct numbers, so the reads in scope are kept apart.
pub proof fn law_env_read_numbers_distinct(a: EnvRead, b: EnvRead)
    requires
        a != b,
    ensures
        env_read_number(a) != env_read_number(b),
{
}

} // verus!
