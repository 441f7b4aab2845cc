//! The model of width inference: the state it keeps, what each step does to it,
//! and the measures that bound its fixed-point loops.

use crate::ir::{
    width_bits, width_for_bits, width_max, width_min, BinaryOperation, BitWidth, Expression,
    Function, MemoryRegion, Object, Region, Statement, SwitchCase, Type, UnaryOperation, Value,
    ValueId,
};
use crate::type_inference::{
    default_constraint, no_uses, spec_double_width, spec_widen_by_one, use_context_at,
    TypeConstraint, TypeInference, UseContext, UseSet,
};
use crate::type_inference::DemandPropagation;
use crate::uint::nat_bits;
use crate::walk::{walk_bodies, walk_statements};
use vstd::prelude::*;

verus! {

/// What width inference knows about an object.
pub struct InferenceState {
    /// Width bounds per value id.
    pub constraints: Map<u32, TypeConstraint>,
    /// Recorded use kinds per value id.
    pub uses: Map<u32, UseSet>,
    /// Whether a bound changed since the flag was last cleared.
    pub changed: bool,
    /// Fall-through return value ids per function id.
    pub function_returns: Map<u32, Seq<ValueId>>,
    /// Widest narrowed parameter width a value is passed to, per value id.
    pub fn_arg_demand: Map<u32, BitWidth>,
    /// Literal values that fit in 64 bits, per value id.
    pub known_constants: Map<u32, u64>,
    /// Values whose maximum width is kept at 256 bits.
    pub full_width: Set<u32>,
}

/// The bound of `id` in a constraint map, the default when it has none.
pub open spec fn cget(m: Map<u32, TypeConstraint>, id: u32) -> TypeConstraint {
    if m.contains_key(id) {
        m[id]
    } else {
        default_constraint()
    }
}

/// The bound of `id`.
pub open spec fn constraint_of(s: InferenceState, id: u32) -> TypeConstraint {
    cget(s.constraints, id)
}

/// The recorded uses of `id`.
pub open spec fn uses_of(s: InferenceState, id: u32) -> UseSet {
    if s.uses.contains_key(id) {
        s.uses[id]
    } else {
        no_uses()
    }
}

/// Raises the minimum width of `id` to `w`, flagging a change when it grows.
pub open spec fn widen_state(s: InferenceState, id: u32, w: BitWidth) -> InferenceState {
    let c = constraint_of(s, id);
    if width_bits(w) > width_bits(c.min_width) {
        InferenceState {
            constraints: s.constraints.insert(id, TypeConstraint { min_width: w, ..c }),
            changed: true,
            ..s
        }
    } else {
        s
    }
}

/// Marks `id` signed, flagging a change when it was not.
pub open spec fn mark_signed_state(s: InferenceState, id: u32) -> InferenceState {
    let c = constraint_of(s, id);
    if !c.is_signed {
        InferenceState {
            constraints: s.constraints.insert(id, TypeConstraint { is_signed: true, ..c }),
            changed: true,
            ..s
        }
    } else {
        s
    }
}

/// Lowers the maximum width of `id` to `w`, flagging a change when it shrinks.
pub open spec fn narrow_state(s: InferenceState, id: u32, w: BitWidth) -> InferenceState {
    let c = constraint_of(s, id);
    if width_bits(w) < width_bits(c.max_width) {
        InferenceState {
            constraints: s.constraints.insert(id, TypeConstraint { max_width: w, ..c }),
            changed: true,
            ..s
        }
    } else {
        s
    }
}

/// Records a use of `id` of kind `c`.
pub open spec fn record_state(s: InferenceState, id: u32, c: UseContext) -> InferenceState {
    InferenceState { uses: s.uses.insert(id, uses_of(s, id).with(c)), ..s }
}

/// Records a use of `id` of every kind in `u`.
pub open spec fn add_uses_state(s: InferenceState, id: u32, u: UseSet) -> InferenceState {
    InferenceState { uses: s.uses.insert(id, uses_of(s, id).union(u)), ..s }
}

// ---------------------------------------------------------------------------
// Demands of uses.
// ---------------------------------------------------------------------------

/// The width a use of kind `c` needs; `arg` is the refined demand of a value
/// passed as a function argument, when there is one.
pub open spec fn context_demand(c: UseContext, arg: Option<BitWidth>) -> BitWidth {
    match c {
        UseContext::FunctionArg => match arg {
            Some(w) => w,
            None => BitWidth::I256,
        },
        _ => BitWidth::I256,
    }
}

/// The widest demand among the first `n` use kinds present in `u`, starting from
/// one bit; comparisons are left out when `skip_comparison` holds.
pub open spec fn widest_demand_prefix(
    u: UseSet,
    arg: Option<BitWidth>,
    skip_comparison: bool,
    n: nat,
) -> BitWidth
    decreases n,
{
    if n == 0 {
        BitWidth::I1
    } else {
        let w = widest_demand_prefix(u, arg, skip_comparison, (n - 1) as nat);
        let c = use_context_at(n - 1);
        let present = u.has(c) && !(skip_comparison && c == UseContext::Comparison);
        let d = context_demand(c, arg);
        if present && width_bits(d) > width_bits(w) {
            d
        } else {
            w
        }
    }
}

/// The widest demand of the use kinds in `u`.
pub open spec fn widest_demand(u: UseSet, arg: Option<BitWidth>, skip_comparison: bool) -> BitWidth {
    widest_demand_prefix(u, arg, skip_comparison, 9)
}

/// The refined argument demand of `id`, when there is one.
pub open spec fn arg_demand_of(s: InferenceState, id: u32) -> Option<BitWidth> {
    if s.fn_arg_demand.contains_key(id) {
        Some(s.fn_arg_demand[id])
    } else {
        None
    }
}

/// The widest width that any recorded use of `id` needs; 256 bits when none is recorded.
pub open spec fn use_demand(s: InferenceState, id: u32) -> BitWidth {
    if !s.uses.contains_key(id) || s.uses[id] == no_uses() {
        BitWidth::I256
    } else {
        widest_demand(s.uses[id], arg_demand_of(s, id), false)
    }
}

/// As [`use_demand`], leaving comparisons out.
pub open spec fn non_comparison_use_demand(s: InferenceState, id: u32) -> BitWidth {
    if !s.uses.contains_key(id) || s.uses[id] == no_uses() {
        BitWidth::I256
    } else {
        widest_demand(s.uses[id], arg_demand_of(s, id), true)
    }
}

/// A value whose recorded uses all need fewer than 256 bits.
pub open spec fn backward_target(s: InferenceState, id: u32) -> bool {
    s.uses.contains_key(id) && width_bits(widest_demand(s.uses[id], arg_demand_of(s, id), false))
        < 256
}

/// `c` with its maximum lowered to `w` when `w` is narrower.
pub open spec fn narrowed(c: TypeConstraint, w: BitWidth) -> TypeConstraint {
    if width_bits(w) < width_bits(c.max_width) {
        TypeConstraint { max_width: w, ..c }
    } else {
        c
    }
}

/// Applies the use demands: every value whose uses all need fewer than 256 bits
/// gets its maximum lowered to the widest of them.
pub open spec fn apply_backward(s: InferenceState) -> InferenceState {
    InferenceState { constraints: backward_over(s, s.uses.dom()), ..s }
}

/// Sets the maximum of every full-width operand back to 256 bits.
pub open spec fn force_full_width(s: InferenceState) -> InferenceState {
    InferenceState { constraints: full_width_over(s, s.full_width), ..s }
}

// ---------------------------------------------------------------------------
// Measures.
// ---------------------------------------------------------------------------

/// The rank of a width among the seven.
pub open spec fn width_rank(w: BitWidth) -> nat {
    match w {
        BitWidth::I1 => 0,
        BitWidth::I8 => 1,
        BitWidth::I32 => 2,
        BitWidth::I64 => 3,
        BitWidth::I128 => 4,
        BitWidth::I160 => 5,
        BitWidth::I256 => 6,
    }
}

/// How far forward inference has raised a bound.
pub open spec fn constraint_weight(c: TypeConstraint) -> nat {
    width_rank(c.min_width) + if c.is_signed {
        1nat
    } else {
        0nat
    }
}

/// `f(0) + ... + f(n - 1)`.
pub open spec fn weight_sum(f: spec_fn(nat) -> nat, n: nat) -> nat
    decreases n,
{
    if n == 0 {
        0
    } else {
        weight_sum(f, (n - 1) as nat) + f((n - 1) as nat)
    }
}

/// The number of value ids.
pub open spec fn id_space() -> nat {
    0x1_0000_0000
}

/// The total weight of the bounds of a constraint map.
pub open spec fn constraint_potential(m: Map<u32, TypeConstraint>) -> nat {
    weight_sum(|k: nat| constraint_weight(cget(m, k as u32)), id_space())
}

/// The use set of `id` in a use map.
pub open spec fn uget(m: Map<u32, UseSet>, id: u32) -> UseSet {
    if m.contains_key(id) {
        m[id]
    } else {
        no_uses()
    }
}

/// The total number of recorded use kinds.
pub open spec fn use_potential(m: Map<u32, UseSet>) -> nat {
    weight_sum(|k: nat| uget(m, k as u32).count(), id_space())
}

/// Forward inference did not lower any weight, and a raised change flag means
/// that some weight grew.
pub open spec fn forward_progress(a: InferenceState, b: InferenceState) -> bool {
    &&& constraint_potential(a.constraints) <= constraint_potential(b.constraints)
    &&& b.changed ==> a.changed || constraint_potential(a.constraints) < constraint_potential(
        b.constraints,
    )
}

/// Use recording did not remove a use, and `grew` means that some use is new.
pub open spec fn use_progress(a: InferenceState, b: InferenceState, grew: bool) -> bool {
    &&& use_potential(a.uses) <= use_potential(b.uses)
    &&& grew ==> use_potential(a.uses) < use_potential(b.uses)
}

/// Changing one term of a sum changes the sum by the same amount.
pub proof fn lemma_weight_sum_update(f: spec_fn(nat) -> nat, g: spec_fn(nat) -> nat, j: nat, n: nat)
    requires
        forall|k: nat| k < n && k != j ==> #[trigger] f(k) == g(k),
    ensures
        j < n ==> weight_sum(g, n) == weight_sum(f, n) + g(j) - f(j),
        j >= n ==> weight_sum(g, n) == weight_sum(f, n),
    decreases n,
{
    if n > 0 {
        lemma_weight_sum_update(f, g, j, (n - 1) as nat);
    }
}

/// A sum of `n` terms each at most `b` is at most `b * n`.
pub proof fn lemma_weight_sum_bound(f: spec_fn(nat) -> nat, b: nat, n: nat)
    requires
        forall|k: nat| k < n ==> #[trigger] f(k) <= b,
    ensures
        weight_sum(f, n) <= b * n,
    decreases n,
{
    if n > 0 {
        lemma_weight_sum_bound(f, b, (n - 1) as nat);
        assert(b * n == b * (n - 1) + b) by (nonlinear_arith)
            requires
                n > 0,
        ;
    }
}

/// Bounds have weight at most seven, so the potential is at most `7 * 2^32`.
pub proof fn lemma_constraint_potential_bound(m: Map<u32, TypeConstraint>)
    ensures
        constraint_potential(m) <= 7 * id_space(),
{
    lemma_weight_sum_bound(|k: nat| constraint_weight(cget(m, k as u32)), 7, id_space());
}

/// Use sets hold at most nine kinds, so the use potential is at most `9 * 2^32`.
pub proof fn lemma_use_potential_bound(m: Map<u32, UseSet>)
    ensures
        use_potential(m) <= 9 * id_space(),
{
    lemma_weight_sum_bound(|k: nat| uget(m, k as u32).count(), 9, id_space());
}

/// Replacing the bound of one id changes the potential by the change in its weight.
pub proof fn lemma_constraint_potential_insert(
    m: Map<u32, TypeConstraint>,
    id: u32,
    c: TypeConstraint,
)
    ensures
        constraint_potential(m.insert(id, c)) == constraint_potential(m) + constraint_weight(c)
            - constraint_weight(cget(m, id)),
{
    let f = |k: nat| constraint_weight(cget(m, k as u32));
    let g = |k: nat| constraint_weight(cget(m.insert(id, c), k as u32));
    assert forall|k: nat| k < id_space() && k != id as nat implies #[trigger] f(k) == g(k) by {
        assert((k as u32) as nat == k);
    }
    lemma_weight_sum_update(f, g, id as nat, id_space());
    assert(g(id as nat) == constraint_weight(c));
    assert(f(id as nat) == constraint_weight(cget(m, id)));
}

/// Replacing the use set of one id changes the use potential by the change in its count.
pub proof fn lemma_use_potential_insert(m: Map<u32, UseSet>, id: u32, u: UseSet)
    ensures
        use_potential(m.insert(id, u)) == use_potential(m) + u.count() - uget(m, id).count(),
{
    let f = |k: nat| uget(m, k as u32).count();
    let g = |k: nat| uget(m.insert(id, u), k as u32).count();
    assert forall|k: nat| k < id_space() && k != id as nat implies #[trigger] f(k) == g(k) by {
        assert((k as u32) as nat == k);
    }
    lemma_weight_sum_update(f, g, id as nat, id_space());
    assert(g(id as nat) == u.count());
    assert(f(id as nat) == uget(m, id).count());
}

/// Widening makes forward progress.
pub proof fn lemma_widen_progress(s: InferenceState, id: u32, w: BitWidth)
    ensures
        forward_progress(s, widen_state(s, id, w)),
{
    let c = constraint_of(s, id);
    if width_bits(w) > width_bits(c.min_width) {
        lemma_constraint_potential_insert(s.constraints, id, TypeConstraint { min_width: w, ..c });
    }
}

/// Marking a value signed makes forward progress.
pub proof fn lemma_mark_signed_progress(s: InferenceState, id: u32)
    ensures
        forward_progress(s, mark_signed_state(s, id)),
{
    let c = constraint_of(s, id);
    if !c.is_signed {
        lemma_constraint_potential_insert(s.constraints, id, TypeConstraint { is_signed: true, ..c });
    }
}

/// Adding use kinds makes use progress; it grows exactly when a kind is new.
pub proof fn lemma_add_uses_progress(s: InferenceState, id: u32, u: UseSet)
    ensures
        use_progress(s, add_uses_state(s, id, u), !u.subset_of(uses_of(s, id))),
{
    let old_u = uses_of(s, id);
    lemma_use_potential_insert(s.uses, id, old_u.union(u));
    assert(uget(s.uses, id) == old_u);
}

// ---------------------------------------------------------------------------
// Forward inference.
// ---------------------------------------------------------------------------

/// Widens each id of `ids[i..]` to `w`, in order.
pub open spec fn widen_ids(s: InferenceState, ids: Seq<ValueId>, i: int, w: BitWidth) -> InferenceState
    decreases ids.len() - i,
{
    if i < 0 || i >= ids.len() {
        s
    } else {
        widen_ids(widen_state(s, ids[i].0, w), ids, i + 1, w)
    }
}

/// Widens each value of `vals[i..]` to `w`, in order.
pub open spec fn widen_values(s: InferenceState, vals: Seq<Value>, i: int, w: BitWidth) -> InferenceState
    decreases vals.len() - i,
{
    if i < 0 || i >= vals.len() {
        s
    } else {
        widen_values(widen_state(s, vals[i].id.0, w), vals, i + 1, w)
    }
}

/// Widens each output `outputs[i]` to the minimum width of the yield `yields[i]`,
/// for the positions both lists have, in order.
pub open spec fn widen_outputs(
    s: InferenceState,
    yields: Seq<Value>,
    outputs: Seq<ValueId>,
    i: int,
) -> InferenceState
    decreases yields.len() - i,
{
    if i < 0 || i >= yields.len() || i >= outputs.len() {
        s
    } else {
        widen_outputs(
            widen_state(s, outputs[i].0, constraint_of(s, yields[i].id.0).min_width),
            yields,
            outputs,
            i + 1,
        )
    }
}

/// The widest minimum width of `ids[i..]`, starting from `acc`.
pub open spec fn widest_min_width(s: InferenceState, ids: Seq<ValueId>, i: int, acc: BitWidth) -> BitWidth
    decreases ids.len() - i,
{
    if i < 0 || i >= ids.len() {
        acc
    } else {
        widest_min_width(s, ids, i + 1, width_max(acc, constraint_of(s, ids[i].0).min_width))
    }
}

/// The width of a call's result: the widest minimum width of the callee's return
/// values when that is wider than one bit, else 256 bits.
pub open spec fn call_width(s: InferenceState, f: u32) -> BitWidth {
    if s.function_returns.contains_key(f) {
        let w = widest_min_width(s, s.function_returns[f], 0, BitWidth::I1);
        if width_bits(w) > 1 {
            w
        } else {
            BitWidth::I256
        }
    } else {
        BitWidth::I256
    }
}

/// The width of a logical right shift: a known amount `k` leaves `256 - k` bits
/// (one bit when `k >= 256`); otherwise the shifted operand's width.
pub open spec fn shr_width(s: InferenceState, amount: u32, operand_width: BitWidth) -> BitWidth {
    if s.known_constants.contains_key(amount) {
        let k = s.known_constants[amount];
        if k >= 256 {
            BitWidth::I1
        } else {
            width_for_bits((256 - k) as nat)
        }
    } else {
        operand_width
    }
}

/// Forward inference of a binary operation: the state after it widens its operands,
/// and the minimum width of its result.
pub open spec fn forward_binary(s: InferenceState, op: BinaryOperation, l: u32, r: u32) -> (
    InferenceState,
    BitWidth,
) {
    let lw = constraint_of(s, l).min_width;
    let rw = constraint_of(s, r).min_width;
    let wide = width_max(lw, rw);
    let capped = width_min(wide, BitWidth::I64);
    let both = widen_state(widen_state(s, l, capped), r, capped);
    match op {
        BinaryOperation::Add => (both, spec_widen_by_one(wide)),
        BinaryOperation::Sub => (s, BitWidth::I256),
        BinaryOperation::Mul => (both, spec_double_width(wide)),
        BinaryOperation::Div | BinaryOperation::Mod | BinaryOperation::SMod => (s, lw),
        BinaryOperation::SDiv => (s, wide),
        BinaryOperation::Exp => (s, BitWidth::I256),
        BinaryOperation::And => (s, width_min(lw, rw)),
        BinaryOperation::Or | BinaryOperation::Xor => (both, wide),
        BinaryOperation::Shl => (s, BitWidth::I256),
        BinaryOperation::Shr => (s, shr_width(s, l, rw)),
        BinaryOperation::Sar => (s, rw),
        BinaryOperation::Lt | BinaryOperation::Gt | BinaryOperation::Eq => (s, BitWidth::I1),
        BinaryOperation::Slt | BinaryOperation::Sgt => (
            mark_signed_state(mark_signed_state(s, l), r),
            BitWidth::I1,
        ),
        BinaryOperation::Byte => (s, BitWidth::I8),
        BinaryOperation::SignExtend => (s, BitWidth::I256),
        BinaryOperation::AddMod | BinaryOperation::MulMod => (s, BitWidth::I256),
    }
}

/// Forward inference of an expression: the state after it widens its operands, and
/// the minimum width of its result.
pub open spec fn forward_expression(s: InferenceState, e: Expression) -> (InferenceState, BitWidth) {
    match e {
        Expression::Literal { value, .. } => (s, width_for_bits(nat_bits(value@))),
        Expression::Var(id) => (s, constraint_of(s, id.0).min_width),
        Expression::Binary { operation, lhs, rhs } => forward_binary(s, operation, lhs.id.0, rhs.id.0),
        Expression::Ternary { .. } => (s, BitWidth::I256),
        Expression::Unary { operation, .. } => (
            s,
            match operation {
                UnaryOperation::IsZero => BitWidth::I1,
                _ => BitWidth::I256,
            },
        ),
        Expression::CallDataLoad { offset } => (
            widen_state(s, offset.id.0, BitWidth::I256),
            BitWidth::I256,
        ),
        Expression::CallValue => (s, BitWidth::I256),
        Expression::Caller | Expression::Origin | Expression::Address => (s, BitWidth::I160),
        Expression::CallDataSize
        | Expression::CodeSize
        | Expression::ReturnDataSize
        | Expression::MSize => (s, BitWidth::I64),
        Expression::GasPrice => (s, BitWidth::I256),
        Expression::ExtCodeSize { address } => (
            widen_state(s, address.id.0, BitWidth::I160),
            BitWidth::I64,
        ),
        Expression::ExtCodeHash { address } => (
            widen_state(s, address.id.0, BitWidth::I160),
            BitWidth::I256,
        ),
        Expression::BlockHash { number } => (
            widen_state(s, number.id.0, BitWidth::I256),
            BitWidth::I256,
        ),
        Expression::Coinbase => (s, BitWidth::I160),
        Expression::Timestamp
        | Expression::Number
        | Expression::GasLimit
        | Expression::Gas => (s, BitWidth::I64),
        Expression::Difficulty
        | Expression::ChainId
        | Expression::BaseFee
        | Expression::SelfBalance
        | Expression::BlobBaseFee => (s, BitWidth::I256),
        Expression::BlobHash { index } => (widen_state(s, index.id.0, BitWidth::I64), BitWidth::I256),
        Expression::Balance { address } => (
            widen_state(s, address.id.0, BitWidth::I160),
            BitWidth::I256,
        ),
        Expression::MLoad { offset, region } => (
            widen_state(s, offset.id.0, BitWidth::I64),
            if region == MemoryRegion::FreePointerSlot {
                BitWidth::I32
            } else {
                BitWidth::I256
            },
        ),
        Expression::SLoad { key, .. } => (widen_state(s, key.id.0, BitWidth::I256), BitWidth::I256),
        Expression::TLoad { key } => (widen_state(s, key.id.0, BitWidth::I256), BitWidth::I256),
        Expression::Call { function, .. } => (s, call_width(s, function.0)),
        Expression::Truncate { to, .. } => (s, to),
        Expression::ZeroExtend { to, .. } => (s, to),
        Expression::SignExtendTo { to, .. } => (s, to),
        Expression::Keccak256 { offset, length } => (
            widen_state(widen_state(s, offset.id.0, BitWidth::I64), length.id.0, BitWidth::I64),
            BitWidth::I256,
        ),
        Expression::Keccak256Pair { .. }
        | Expression::Keccak256Single { .. }
        | Expression::MappingSLoad { .. } => (s, BitWidth::I256),
        Expression::DataOffset { .. } => (s, BitWidth::I256),
        Expression::DataSize { .. } => (s, BitWidth::I64),
        Expression::LoadImmutable { .. } => (s, BitWidth::I256),
        Expression::LinkerSymbol { .. } => (s, BitWidth::I160),
    }
}

/// Widens `a` then `b`.
pub open spec fn widen2(s: InferenceState, a: Value, wa: BitWidth, b: Value, wb: BitWidth) -> InferenceState {
    widen_state(widen_state(s, a.id.0, wa), b.id.0, wb)
}

/// Widens `a`, `b` and `c`, in order.
pub open spec fn widen3(
    s: InferenceState,
    a: Value,
    wa: BitWidth,
    b: Value,
    wb: BitWidth,
    c: Value,
    wc: BitWidth,
) -> InferenceState {
    widen_state(widen2(s, a, wa, b, wb), c.id.0, wc)
}

/// Records a literal binding that fits in 64 bits as a known constant.
pub open spec fn note_constant(s: InferenceState, bindings: Seq<ValueId>, e: Expression) -> InferenceState {
    match e {
        Expression::Literal { value, .. } => if value@ <= u64::MAX && bindings.len() == 1 {
            InferenceState {
                known_constants: s.known_constants.insert(bindings[0].0, value@ as u64),
                ..s
            }
        } else {
            s
        },
        _ => s,
    }
}

/// Forward inference of a statement.
pub open spec fn forward_statement(s: InferenceState, st: Statement) -> InferenceState
    decreases st, 0int,
{
    match st {
        Statement::Let { bindings, value } => {
            let (s1, w) = forward_expression(note_constant(s, bindings@, value), value);
            widen_ids(s1, bindings@, 0, w)
        },
        Statement::MStore { offset, value, .. } => widen2(s, offset, BitWidth::I64, value, BitWidth::I256),
        Statement::MStore8 { offset, value, .. } => widen2(s, offset, BitWidth::I64, value, BitWidth::I8),
        Statement::SStore { key, value, .. } => widen2(s, key, BitWidth::I256, value, BitWidth::I256),
        Statement::TStore { key, value } => widen2(s, key, BitWidth::I256, value, BitWidth::I256),
        Statement::MappingSStore { key, slot, value } => widen3(
            s,
            key,
            BitWidth::I256,
            slot,
            BitWidth::I256,
            value,
            BitWidth::I256,
        ),
        Statement::If { condition, then_region, else_region, outputs, .. } => {
            let s1 = widen_state(s, condition.id.0, BitWidth::I1);
            let s2 = forward_statements(s1, then_region.statements@, 0);
            let s3 = match else_region {
                Some(r) => forward_statements(s2, r.statements@, 0),
                None => s2,
            };
            let s4 = widen_outputs(s3, then_region.yields@, outputs@, 0);
            match else_region {
                Some(r) => widen_outputs(s4, r.yields@, outputs@, 0),
                None => s4,
            }
        },
        Statement::Switch { scrutinee, cases, default, outputs, .. } => {
            let s1 = widen_state(s, scrutinee.id.0, BitWidth::I64);
            let s2 = forward_cases(s1, cases@, 0, outputs@);
            match default {
                Some(d) => widen_outputs(forward_statements(s2, d.statements@, 0), d.yields@, outputs@, 0),
                None => s2,
            }
        },
        Statement::For {
            loop_variables,
            condition_statements,
            condition,
            body,
            post_input_variables,
            post,
            outputs,
            ..
        } => {
            let s1 = widen_ids(
                widen_ids(widen_ids(s, loop_variables@, 0, BitWidth::I256), post_input_variables@, 0, BitWidth::I256),
                outputs@,
                0,
                BitWidth::I256,
            );
            let s2 = forward_statements(s1, condition_statements@, 0);
            let s3 = forward_expression(s2, condition).0;
            forward_statements(forward_statements(s3, body.statements@, 0), post.statements@, 0)
        },
        Statement::Revert { offset, length } => widen2(s, offset, BitWidth::I64, length, BitWidth::I64),
        Statement::Return { offset, length } => widen2(s, offset, BitWidth::I64, length, BitWidth::I64),
        Statement::SelfDestruct { address } => widen_state(s, address.id.0, BitWidth::I160),
        Statement::ExternalCall {
            gas,
            address,
            value,
            args_offset,
            args_length,
            ret_offset,
            ret_length,
            result,
            ..
        } => {
            let s1 = widen2(s, gas, BitWidth::I64, address, BitWidth::I160);
            let s2 = match value {
                Some(v) => widen_state(s1, v.id.0, BitWidth::I256),
                None => s1,
            };
            let s3 = widen2(s2, args_offset, BitWidth::I64, args_length, BitWidth::I64);
            let s4 = widen2(s3, ret_offset, BitWidth::I64, ret_length, BitWidth::I64);
            widen_state(s4, result.0, BitWidth::I1)
        },
        Statement::Create { value, offset, length, result, .. } => widen_state(
            widen3(s, value, BitWidth::I256, offset, BitWidth::I64, length, BitWidth::I64),
            result.0,
            BitWidth::I160,
        ),
        Statement::Log { offset, length, topics } => widen_values(
            widen2(s, offset, BitWidth::I64, length, BitWidth::I64),
            topics@,
            0,
            BitWidth::I256,
        ),
        Statement::CodeCopy { dest, offset, length }
        | Statement::ExtCodeCopy { dest, offset, length, .. }
        | Statement::ReturnDataCopy { dest, offset, length }
        | Statement::DataCopy { dest, offset, length }
        | Statement::CallDataCopy { dest, offset, length } => widen3(
            s,
            dest,
            BitWidth::I64,
            offset,
            BitWidth::I64,
            length,
            BitWidth::I64,
        ),
        Statement::MCopy { dest, src, length } => widen3(
            s,
            dest,
            BitWidth::I64,
            src,
            BitWidth::I64,
            length,
            BitWidth::I64,
        ),
        Statement::Block(region) => forward_statements(s, region.statements@, 0),
        Statement::Expression(e) => forward_expression(s, e).0,
        Statement::SetImmutable { value, .. } => widen_state(s, value.id.0, BitWidth::I256),
        _ => s,
    }
}

/// Forward inference of `stmts[i..]`, in order.
pub open spec fn forward_statements(s: InferenceState, stmts: Seq<Statement>, i: int) -> InferenceState
    decreases stmts, stmts.len() - i,
{
    if i < 0 || i >= stmts.len() {
        s
    } else {
        forward_statements(forward_statement(s, stmts[i]), stmts, i + 1)
    }
}

/// Forward inference of switch cases `cases[j..]`: each body, then its yields into
/// the outputs.
pub open spec fn forward_cases(s: InferenceState, cases: Seq<SwitchCase>, j: int, outputs: Seq<ValueId>) -> InferenceState
    decreases cases, cases.len() - j,
{
    if j < 0 || j >= cases.len() {
        s
    } else {
        let s1 = forward_statements(s, cases[j].body.statements@, 0);
        forward_cases(widen_outputs(s1, cases[j].body.yields@, outputs, 0), cases, j + 1, outputs)
    }
}

/// Widens each integer parameter `params[i..]` to its declared width.
pub open spec fn widen_parameters(s: InferenceState, params: Seq<(ValueId, Type)>, i: int) -> InferenceState
    decreases params.len() - i,
{
    if i < 0 || i >= params.len() {
        s
    } else {
        let s1 = match params[i].1 {
            Type::Int(w) => widen_state(s, params[i].0.0, w),
            _ => s,
        };
        widen_parameters(s1, params, i + 1)
    }
}

/// Forward inference of a function: its parameters, then its body.
pub open spec fn forward_function(s: InferenceState, f: Function) -> InferenceState {
    forward_statements(widen_parameters(s, f.parameters@, 0), f.body.statements@, 0)
}

/// Forward inference of functions `fs[i..]`, in order.
pub open spec fn forward_functions(s: InferenceState, fs: Seq<Function>, i: int) -> InferenceState
    decreases fs.len() - i,
{
    if i < 0 || i >= fs.len() {
        s
    } else {
        forward_functions(forward_function(s, fs[i]), fs, i + 1)
    }
}

/// One forward pass over an object: the change flag cleared, then its code, then
/// its functions.
pub open spec fn forward_pass(s: InferenceState, o: Object) -> InferenceState {
    forward_functions(
        forward_statements(InferenceState { changed: false, ..s }, o.code.statements@, 0),
        o.functions@,
        0,
    )
}

/// `n` forward passes.
pub open spec fn forward_iterate(s: InferenceState, o: Object, n: nat) -> InferenceState
    decreases n,
{
    if n == 0 {
        s
    } else {
        forward_pass(forward_iterate(s, o, (n - 1) as nat), o)
    }
}

/// `r` is where repeated forward passes from `s` first change nothing: passes
/// `1..=n` each changed a bound and pass `n + 1`, which gives `r`, changed none.
pub open spec fn forward_fixpoint(s: InferenceState, o: Object, r: InferenceState) -> bool {
    exists|n: nat|
        {
            &&& r == #[trigger] forward_iterate(s, o, n + 1)
            &&& !r.changed
            &&& forall|k: nat| 1 <= k <= n ==> (#[trigger] forward_iterate(s, o, k)).changed
        }
}

/// The fall-through return ids of functions `fs[i..]` with return values, added in
/// order.
pub open spec fn note_returns(m: Map<u32, Seq<ValueId>>, fs: Seq<Function>, i: int) -> Map<u32, Seq<ValueId>>
    decreases fs.len() - i,
{
    if i < 0 || i >= fs.len() {
        m
    } else if fs[i].return_values.len() > 0 {
        note_returns(m.insert(fs[i].id.0, fs[i].return_values@), fs, i + 1)
    } else {
        note_returns(m, fs, i + 1)
    }
}

// ---------------------------------------------------------------------------
// Use collection.
// ---------------------------------------------------------------------------

/// A use of `v` as a memory offset: recorded, and its maximum lowered to 64 bits.
pub open spec fn offset_use(s: InferenceState, v: Value) -> InferenceState {
    narrow_state(record_state(s, v.id.0, UseContext::MemoryOffset), v.id.0, BitWidth::I64)
}

/// Marks `id` as an operand that keeps full width.
pub open spec fn mark_full_width(s: InferenceState, id: u32) -> InferenceState {
    InferenceState { full_width: s.full_width.insert(id), ..s }
}

/// Records a use of kind `c` of each value of `vals[i..]`, in order.
pub open spec fn record_values(s: InferenceState, vals: Seq<Value>, i: int, c: UseContext) -> InferenceState
    decreases vals.len() - i,
{
    if i < 0 || i >= vals.len() {
        s
    } else {
        record_values(record_state(s, vals[i].id.0, c), vals, i + 1, c)
    }
}

/// Records a use of kind `c` of each id of `ids[i..]`, in order.
pub open spec fn record_ids(s: InferenceState, ids: Seq<ValueId>, i: int, c: UseContext) -> InferenceState
    decreases ids.len() - i,
{
    if i < 0 || i >= ids.len() {
        s
    } else {
        record_ids(record_state(s, ids[i].0, c), ids, i + 1, c)
    }
}

/// Records a use of kind `c` of an optional value.
pub open spec fn record_option(s: InferenceState, v: Option<Value>, c: UseContext) -> InferenceState {
    match v {
        Some(v) => record_state(s, v.id.0, c),
        None => s,
    }
}

/// The uses that an expression makes of its operands.
pub open spec fn collect_expression(s: InferenceState, e: Expression) -> InferenceState {
    match e {
        Expression::Binary { operation, lhs, rhs } => match operation {
            BinaryOperation::Lt
            | BinaryOperation::Gt
            | BinaryOperation::Slt
            | BinaryOperation::Sgt
            | BinaryOperation::Eq => record_state(
                record_state(s, lhs.id.0, UseContext::Comparison),
                rhs.id.0,
                UseContext::Comparison,
            ),
            BinaryOperation::Add
            | BinaryOperation::Sub
            | BinaryOperation::Mul
            | BinaryOperation::Or
            | BinaryOperation::Xor
            | BinaryOperation::And => s,
            BinaryOperation::Shl => mark_full_width(
                record_state(s, lhs.id.0, UseContext::Arithmetic),
                lhs.id.0,
            ),
            BinaryOperation::Shr
            | BinaryOperation::Sar
            | BinaryOperation::Byte
            | BinaryOperation::SignExtend => mark_full_width(
                record_state(
                    record_state(s, lhs.id.0, UseContext::Arithmetic),
                    rhs.id.0,
                    UseContext::Arithmetic,
                ),
                lhs.id.0,
            ),
            _ => record_state(
                record_state(s, lhs.id.0, UseContext::Arithmetic),
                rhs.id.0,
                UseContext::Arithmetic,
            ),
        },
        Expression::Ternary { a, b, n, .. } => record_state(
            record_state(record_state(s, a.id.0, UseContext::Arithmetic), b.id.0, UseContext::Arithmetic),
            n.id.0,
            UseContext::Arithmetic,
        ),
        Expression::Unary { operand, operation } => match operation {
            UnaryOperation::Not => s,
            _ => record_state(s, operand.id.0, UseContext::Arithmetic),
        },
        Expression::MLoad { offset, .. } => offset_use(s, offset),
        Expression::SLoad { key, .. } => record_state(s, key.id.0, UseContext::StorageAccess),
        Expression::TLoad { key } => record_state(s, key.id.0, UseContext::StorageAccess),
        Expression::CallDataLoad { offset } => record_state(s, offset.id.0, UseContext::Arithmetic),
        Expression::Keccak256 { offset, length } => offset_use(offset_use(s, offset), length),
        Expression::Keccak256Pair { word0, word1 } => record_state(
            record_state(s, word0.id.0, UseContext::FunctionArg),
            word1.id.0,
            UseContext::FunctionArg,
        ),
        Expression::Keccak256Single { word0 } => record_state(s, word0.id.0, UseContext::FunctionArg),
        Expression::MappingSLoad { key, slot } => record_state(
            record_state(s, key.id.0, UseContext::FunctionArg),
            slot.id.0,
            UseContext::FunctionArg,
        ),
        Expression::Call { arguments, .. } => record_values(s, arguments@, 0, UseContext::FunctionArg),
        Expression::Balance { address } => record_state(s, address.id.0, UseContext::ExternalCall),
        Expression::ExtCodeSize { address } => record_state(s, address.id.0, UseContext::ExternalCall),
        Expression::ExtCodeHash { address } => record_state(s, address.id.0, UseContext::ExternalCall),
        Expression::BlockHash { number } => record_state(s, number.id.0, UseContext::ExternalCall),
        Expression::BlobHash { index } => offset_use(s, index),
        _ => s,
    }
}

/// The uses that a statement itself makes of its operands (not those of its
/// nested regions).
pub open spec fn collect_statement(s: InferenceState, st: Statement) -> InferenceState {
    match st {
        Statement::MStore { offset, value, region } => {
            let s1 = offset_use(s, offset);
            if region == MemoryRegion::FreePointerSlot {
                offset_use(s1, value)
            } else {
                record_state(s1, value.id.0, UseContext::MemoryValue)
            }
        },
        Statement::MStore8 { offset, value, .. } => record_state(
            offset_use(s, offset),
            value.id.0,
            UseContext::MemoryValue,
        ),
        Statement::SStore { key, value, .. } => record_state(
            record_state(s, key.id.0, UseContext::StorageAccess),
            value.id.0,
            UseContext::StorageAccess,
        ),
        Statement::TStore { key, value } => record_state(
            record_state(s, key.id.0, UseContext::StorageAccess),
            value.id.0,
            UseContext::StorageAccess,
        ),
        Statement::MappingSStore { key, slot, value } => record_state(
            record_state(record_state(s, key.id.0, UseContext::StorageAccess), slot.id.0, UseContext::StorageAccess),
            value.id.0,
            UseContext::StorageAccess,
        ),
        Statement::If { condition, .. } => record_state(s, condition.id.0, UseContext::Comparison),
        Statement::Switch { scrutinee, .. } => record_state(s, scrutinee.id.0, UseContext::Comparison),
        Statement::For { initial_values, .. } => record_values(s, initial_values@, 0, UseContext::Arithmetic),
        Statement::Revert { offset, length } => offset_use(offset_use(s, offset), length),
        Statement::Return { offset, length } => offset_use(offset_use(s, offset), length),
        Statement::ExternalCall {
            gas,
            address,
            value,
            args_offset,
            args_length,
            ret_offset,
            ret_length,
            ..
        } => {
            let s1 = record_option(
                record_state(record_state(s, gas.id.0, UseContext::ExternalCall), address.id.0, UseContext::ExternalCall),
                value,
                UseContext::ExternalCall,
            );
            offset_use(offset_use(offset_use(offset_use(s1, args_offset), args_length), ret_offset), ret_length)
        },
        Statement::Log { offset, length, topics } => record_values(
            offset_use(offset_use(s, offset), length),
            topics@,
            0,
            UseContext::MemoryValue,
        ),
        Statement::CallDataCopy { dest, offset, length }
        | Statement::CodeCopy { dest, offset, length } => mark_full_width(
            record_state(offset_use(offset_use(s, dest), length), offset.id.0, UseContext::MemoryOffset),
            offset.id.0,
        ),
        Statement::ExtCodeCopy { dest, offset, length, .. }
        | Statement::ReturnDataCopy { dest, offset, length } => offset_use(
            offset_use(offset_use(s, dest), offset),
            length,
        ),
        Statement::DataCopy { dest, offset, length } => offset_use(
            record_state(offset_use(s, dest), offset.id.0, UseContext::MemoryValue),
            length,
        ),
        Statement::MCopy { dest, src, length } => offset_use(offset_use(offset_use(s, dest), src), length),
        Statement::Let { value, .. } => collect_expression(s, value),
        Statement::Expression(e) => collect_expression(s, e),
        Statement::Create { value, offset, length, salt, .. } => record_option(
            offset_use(offset_use(record_state(s, value.id.0, UseContext::ExternalCall), offset), length),
            salt,
            UseContext::ExternalCall,
        ),
        Statement::SetImmutable { value, .. } => record_state(s, value.id.0, UseContext::General),
        Statement::SelfDestruct { address } => record_state(s, address.id.0, UseContext::ExternalCall),
        Statement::Leave { return_values } => record_values(s, return_values@, 0, UseContext::FunctionReturn),
        Statement::Break { values } => record_values(s, values@, 0, UseContext::General),
        Statement::Continue { values } => record_values(s, values@, 0, UseContext::General),
        _ => s,
    }
}

// ---------------------------------------------------------------------------
// Demand propagation.
// ---------------------------------------------------------------------------

/// Passes the uses `u` of an expression's result to the operands whose low bits
/// alone determine the result's low bits; the flag tells whether a use was new.
pub open spec fn propagate_expression(s: InferenceState, e: Expression, u: UseSet) -> (InferenceState, bool) {
    match e {
        Expression::Binary { operation, lhs, rhs } => match operation {
            BinaryOperation::Add
            | BinaryOperation::Sub
            | BinaryOperation::Mul
            | BinaryOperation::Or
            | BinaryOperation::Xor
            | BinaryOperation::And => {
                let s1 = add_uses_state(s, lhs.id.0, u);
                (
                    add_uses_state(s1, rhs.id.0, u),
                    !u.subset_of(uses_of(s, lhs.id.0)) || !u.subset_of(uses_of(s1, rhs.id.0)),
                )
            },
            BinaryOperation::Shl => (
                add_uses_state(s, rhs.id.0, u),
                !u.subset_of(uses_of(s, rhs.id.0)),
            ),
            _ => (s, false),
        },
        Expression::Unary { operation: UnaryOperation::Not, operand } => (
            add_uses_state(s, operand.id.0, u),
            !u.subset_of(uses_of(s, operand.id.0)),
        ),
        Expression::Var(id) => (add_uses_state(s, id.0, u), !u.subset_of(uses_of(s, id.0))),
        _ => (s, false),
    }
}

/// Demand propagation at one statement: a single binding passes its recorded
/// uses on to the operands of its value.
pub open spec fn propagate_statement(s: InferenceState, st: Statement) -> (InferenceState, bool) {
    match st {
        Statement::Let { bindings, value } => if bindings.len() == 1 && s.uses.contains_key(
            bindings[0].0,
        ) && s.uses[bindings[0].0] != no_uses() {
            propagate_expression(s, value, s.uses[bindings[0].0])
        } else {
            (s, false)
        },
        _ => (s, false),
    }
}

/// The uses that a function makes: those in its body, then its return values as
/// returned.
pub open spec fn collect_function(s: InferenceState, f: Function) -> InferenceState {
    record_ids(
        walk_statements::<TypeInference>(s, f.body.statements@, 0),
        f.return_values@,
        0,
        UseContext::FunctionReturn,
    )
}

/// The uses that functions `fs[i..]` make, in order.
pub open spec fn collect_functions(s: InferenceState, fs: Seq<Function>, i: int) -> InferenceState
    decreases fs.len() - i,
{
    if i < 0 || i >= fs.len() {
        s
    } else {
        collect_functions(collect_function(s, fs[i]), fs, i + 1)
    }
}

/// The uses that an object makes: its code, then its functions.
pub open spec fn collect_object(s: InferenceState, o: Object) -> InferenceState {
    collect_functions(walk_statements::<TypeInference>(s, o.code.statements@, 0), o.functions@, 0)
}

/// One demand propagation pass over an object's code and function bodies; the
/// flag tells whether any use was new.
pub open spec fn propagate_pass(s: InferenceState, o: Object) -> (InferenceState, bool) {
    walk_bodies::<DemandPropagation>(
        walk_statements::<DemandPropagation>((s, false), o.code.statements@, 0),
        o.functions@,
        0,
    )
}

/// `n` demand propagation passes.
pub open spec fn propagate_iterate(s: InferenceState, o: Object, n: nat) -> InferenceState
    decreases n,
{
    if n == 0 {
        s
    } else {
        propagate_pass(propagate_iterate(s, o, (n - 1) as nat), o).0
    }
}

/// `r` is where repeated demand propagation from `s` first adds no use: passes
/// `1..=n` each added one and pass `n + 1`, which gives `r`, added none.
pub open spec fn demand_fixpoint(s: InferenceState, o: Object, r: InferenceState) -> bool {
    exists|n: nat|
        {
            &&& r == #[trigger] propagate_iterate(s, o, n + 1)
            &&& !propagate_pass(propagate_iterate(s, o, n), o).1
            &&& forall|k: nat| k < n ==> (#[trigger] propagate_pass(propagate_iterate(s, o, k), o)).1
        }
}

/// The bounds after applying the use demands of the ids in `seen`.
pub open spec fn backward_over(s: InferenceState, seen: Set<u32>) -> Map<u32, TypeConstraint> {
    Map::new(
        |k: u32| s.constraints.contains_key(k) || (seen.contains(k) && backward_target(s, k)),
        |k: u32|
            if seen.contains(k) && backward_target(s, k) {
                narrowed(cget(s.constraints, k), widest_demand(s.uses[k], arg_demand_of(s, k), false))
            } else {
                s.constraints[k]
            },
    )
}

/// The bounds after forcing the ids in `seen` back to full maximum width.
pub open spec fn full_width_over(s: InferenceState, seen: Set<u32>) -> Map<u32, TypeConstraint> {
    Map::new(
        |k: u32| s.constraints.contains_key(k) || seen.contains(k),
        |k: u32|
            if seen.contains(k) {
                TypeConstraint { max_width: BitWidth::I256, ..cget(s.constraints, k) }
            } else {
                s.constraints[k]
            },
    )
}

/// The state with the return values of the object's functions noted.
pub open spec fn with_returns(s: InferenceState, o: Object) -> InferenceState {
    InferenceState { function_returns: note_returns(s.function_returns, o.functions@, 0), ..s }
}

/// What inference of an object from `s` gives: forward passes to a fixed point,
/// the uses collected, demands propagated to a fixed point, the demands applied,
/// and the full-width operands restored.
pub open spec fn inferred_object(s: InferenceState, o: Object, r: InferenceState) -> bool {
    exists|f: InferenceState, p: InferenceState|
        {
            &&& forward_fixpoint(with_returns(s, o), o, f)
            &&& demand_fixpoint(collect_object(f, o), o, p)
            &&& r == force_full_width(apply_backward(p))
        }
}

} // verus!
