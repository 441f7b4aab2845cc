//! Width inference: the narrowest integer width each SSA value needs.
//!
//! 1. A forward pass computes the minimum width from literals and operation results,
//!    repeated until a fixed point.
//! 2. A backward pass records how each value is used and bounds its maximum width.
//!
//! The effective width of a value lies between the two.

use crate::inference_model::{
    add_uses_state, apply_backward, backward_over, backward_target, collect_function,
    collect_functions, collect_object, demand_fixpoint, forward_fixpoint, forward_iterate,
    force_full_width, full_width_over, id_space, inferred_object, lemma_add_uses_progress,
    lemma_constraint_potential_bound, lemma_use_potential_bound, note_returns,
    propagate_expression, propagate_iterate, propagate_pass, propagate_statement, use_progress,
    uses_of, with_returns, arg_demand_of, widest_demand, narrowed, use_demand,
    non_comparison_use_demand, widest_demand_prefix, context_demand, constraint_potential,
    use_potential, call_width, collect_expression, collect_statement, constraint_of, mark_full_width,
    offset_use, record_ids, record_option, record_values, forward_binary, forward_cases, forward_expression,
    forward_function, forward_functions, forward_progress, forward_statement,
    forward_statements, lemma_mark_signed_progress, cget, lemma_widen_progress, mark_signed_state,
    narrow_state, note_constant, record_state, shr_width, widen_ids, widen_outputs,
    widen_parameters, widen_state, widen_values, widest_min_width, InferenceState,
};
use crate::ir::{
    width_bits, width_max, width_min, BinaryOperation, BitWidth, Block, Expression, Function, FunctionId,
    MemoryRegion, Object, Region, Statement, SwitchCase, Type, UnaryOperation, Value, ValueId,
};
use crate::uint::uint_to_u64;
use crate::walk::{visit_bodies, visit_statements, walk_bodies, walk_statements, StatementVisitor};
use std::collections::{BTreeMap, BTreeSet};
use vstd::prelude::*;

verus! {

/// Width bounds for a value.
#[derive(Clone, Copy, PartialEq, Eq, Structural, Debug)]
pub struct TypeConstraint {
    /// Minimum width required (from forward propagation).
    pub min_width: BitWidth,
    /// Maximum width needed (from use sites). Below `min_width`, the value is
    /// truncated at its uses.
    pub max_width: BitWidth,
    /// Whether the value is known to be signed.
    pub is_signed: bool,
}

/// The constraint of a value that nothing is known of.
pub open spec fn default_constraint() -> TypeConstraint {
    TypeConstraint { min_width: BitWidth::I1, max_width: BitWidth::I256, is_signed: false }
}

/// The join of two constraints: the wider minimum, the narrower maximum, signed if either is.
pub open spec fn constraint_join(a: TypeConstraint, b: TypeConstraint) -> TypeConstraint {
    TypeConstraint {
        min_width: width_max(a.min_width, b.min_width),
        max_width: width_min(a.max_width, b.max_width),
        is_signed: a.is_signed || b.is_signed,
    }
}

impl Default for TypeConstraint {
    fn default() -> (r: Self)
        ensures
            r == default_constraint(),
    {
        TypeConstraint { min_width: BitWidth::I1, max_width: BitWidth::I256, is_signed: false }
    }
}

impl TypeConstraint {
    /// A constraint with the given minimum width.
    pub fn with_width(width: BitWidth) -> (r: TypeConstraint)
        ensures
            r == (TypeConstraint { min_width: width, max_width: BitWidth::I256, is_signed: false }),
    {
        TypeConstraint { min_width: width, max_width: BitWidth::I256, is_signed: false }
    }

    /// A signed constraint with the given minimum width.
    pub fn signed(width: BitWidth) -> (r: TypeConstraint)
        ensures
            r == (TypeConstraint { min_width: width, max_width: BitWidth::I256, is_signed: true }),
    {
        TypeConstraint { min_width: width, max_width: BitWidth::I256, is_signed: true }
    }

    /// Joins two constraints, taking the wider minimum.
    pub fn join(&self, other: &TypeConstraint) -> (r: TypeConstraint)
        ensures
            r == constraint_join(*self, *other),
    {
        TypeConstraint {
            min_width: self.min_width.max(other.min_width),
            max_width: self.max_width.min(other.max_width),
            is_signed: self.is_signed || other.is_signed,
        }
    }

    /// Raises the minimum to at least `width`; returns whether it changed.
    pub fn widen_to(&mut self, width: BitWidth) -> (r: bool)
        ensures
            r == (width_bits(width) > width_bits(old(self).min_width)),
            *final(self) == (if r {
                TypeConstraint { min_width: width, ..*old(self) }
            } else {
                *old(self)
            }),
    {
        if self.min_width.lt(width) {
            self.min_width = width;
            true
        } else {
            false
        }
    }

    /// Lowers the maximum to at most `width`; returns whether it changed.
    pub fn narrow_max_to(&mut self, width: BitWidth) -> (r: bool)
        ensures
            r == (width_bits(width) < width_bits(old(self).max_width)),
            *final(self) == (if r {
                TypeConstraint { max_width: width, ..*old(self) }
            } else {
                *old(self)
            }),
    {
        if width.lt(self.max_width) {
            self.max_width = width;
            true
        } else {
            false
        }
    }

    /// The width to use: the narrower of the two bounds.
    pub fn effective_width(&self) -> (r: BitWidth)
        ensures
            r == width_min(self.min_width, self.max_width),
    {
        self.min_width.min(self.max_width)
    }
}

proof fn lemma_width_bits_injective(a: BitWidth, b: BitWidth)
    ensures
        (width_bits(a) == width_bits(b)) == (a == b),
{
}

/// Joining is commutative.
pub proof fn law_join_commutative(a: TypeConstraint, b: TypeConstraint)
    ensures
        constraint_join(a, b) == constraint_join(b, a),
{
    lemma_width_bits_injective(a.min_width, b.min_width);
    lemma_width_bits_injective(a.max_width, b.max_width);
}

/// Joining is associative.
pub proof fn law_join_associative(a: TypeConstraint, b: TypeConstraint, c: TypeConstraint)
    ensures
        constraint_join(constraint_join(a, b), c) == constraint_join(a, constraint_join(b, c)),
{
}

/// Joining a constraint with itself gives it back.
pub proof fn law_join_idempotent(a: TypeConstraint)
    ensures
        constraint_join(a, a) == a,
{
}

/// The join bounds both sides: its minimum is at least each minimum, its maximum
/// at most each maximum.
pub proof fn law_join_bounds(a: TypeConstraint, b: TypeConstraint)
    ensures
        width_bits(constraint_join(a, b).min_width) >= width_bits(a.min_width),
        width_bits(constraint_join(a, b).min_width) >= width_bits(b.min_width),
        width_bits(constraint_join(a, b).max_width) <= width_bits(a.max_width),
        width_bits(constraint_join(a, b).max_width) <= width_bits(b.max_width),
{
}

/// The next wider width.
pub open spec fn spec_widen_by_one(width: BitWidth) -> BitWidth {
    match width {
        BitWidth::I1 => BitWidth::I8,
        BitWidth::I8 => BitWidth::I32,
        BitWidth::I32 => BitWidth::I64,
        BitWidth::I64 => BitWidth::I128,
        BitWidth::I128 => BitWidth::I160,
        BitWidth::I160 => BitWidth::I256,
        BitWidth::I256 => BitWidth::I256,
    }
}

/// The width of a product of two values of the given width.
pub open spec fn spec_double_width(width: BitWidth) -> BitWidth {
    match width {
        BitWidth::I1 => BitWidth::I8,
        BitWidth::I8 => BitWidth::I32,
        BitWidth::I32 => BitWidth::I64,
        BitWidth::I64 => BitWidth::I128,
        BitWidth::I128 => BitWidth::I256,
        BitWidth::I160 => BitWidth::I256,
        BitWidth::I256 => BitWidth::I256,
    }
}

/// Widens a bit width by one level (e.g., I8 -> I32).
pub fn widen_by_one(width: BitWidth) -> (r: BitWidth)
    ensures
        r == spec_widen_by_one(width),
        width_bits(r) >= width_bits(width) + 1 || width == BitWidth::I256,
{
    match width {
        BitWidth::I1 => BitWidth::I8,
        BitWidth::I8 => BitWidth::I32,
        BitWidth::I32 => BitWidth::I64,
        BitWidth::I64 => BitWidth::I128,
        BitWidth::I128 => BitWidth::I160,
        BitWidth::I160 => BitWidth::I256,
        BitWidth::I256 => BitWidth::I256,
    }
}

/// Doubles a bit width (e.g., I32 -> I64).
pub fn double_width(width: BitWidth) -> (r: BitWidth)
    ensures
        r == spec_double_width(width),
        width_bits(r) >= 2 * width_bits(width) || width == BitWidth::I160 || width == BitWidth::I256,
{
    match width {
        BitWidth::I1 => BitWidth::I8,
        BitWidth::I8 => BitWidth::I32,
        BitWidth::I32 => BitWidth::I64,
        BitWidth::I64 => BitWidth::I128,
        BitWidth::I128 => BitWidth::I256,
        BitWidth::I160 => BitWidth::I256,
        BitWidth::I256 => BitWidth::I256,
    }
}

/// A sum of two values of width `w` fits in the next wider width, and a product in
/// the doubled width: `w` bits plus one, and twice `w` bits. Widths of 160 bits and
/// more saturate at 256 bits, where words wrap.
pub proof fn law_width_growth_covers_results(width: BitWidth)
    requires
        width != BitWidth::I256,
    ensures
        width_bits(spec_widen_by_one(width)) >= width_bits(width) + 1,
        width != BitWidth::I160 ==> width_bits(spec_double_width(width)) >= 2 * width_bits(width),
{
}

/// How a value is used; this bounds the width it needs.
#[derive(Clone, Copy, Debug, PartialEq, Eq, Structural, PartialOrd, Ord, Hash)]
pub enum UseContext {
    /// Used as a memory offset.
    MemoryOffset,
    /// Used as a memory value (256-bit for EVM compatibility).
    MemoryValue,
    /// Used as a storage key or value.
    StorageAccess,
    /// Used in a comparison.
    Comparison,
    /// Used in arithmetic.
    Arithmetic,
    /// Used as a function argument (depends on the callee).
    FunctionArg,
    /// Returned from a function.
    FunctionReturn,
    /// Used in an external call.
    ExternalCall,
    /// Any other use.
    General,
}

impl UseContext {
    /// The widest width a use of this kind needs: every kind keeps full width.
    pub fn max_width_needed(&self) -> (r: BitWidth)
        ensures
            r == BitWidth::I256,
    {
        match self {
            UseContext::MemoryOffset => BitWidth::I256,
            UseContext::MemoryValue => BitWidth::I256,
            UseContext::StorageAccess => BitWidth::I256,
            UseContext::Comparison => BitWidth::I256,
            UseContext::Arithmetic => BitWidth::I256,
            UseContext::FunctionArg => BitWidth::I256,
            UseContext::FunctionReturn => BitWidth::I256,
            UseContext::ExternalCall => BitWidth::I256,
            UseContext::General => BitWidth::I256,
        }
    }
}

} // verus!

verus! {

/// The kinds of use recorded for one value: a set of [`UseContext`]s.
#[derive(Clone, Copy, Debug, PartialEq, Eq, Structural)]
pub struct UseSet {
    pub memory_offset: bool,
    pub memory_value: bool,
    pub storage_access: bool,
    pub comparison: bool,
    pub arithmetic: bool,
    pub function_arg: bool,
    pub function_return: bool,
    pub external_call: bool,
    pub general: bool,
}

/// The use kinds in their declaration order.
pub open spec fn use_context_at(i: int) -> UseContext {
    if i <= 0 {
        UseContext::MemoryOffset
    } else if i == 1 {
        UseContext::MemoryValue
    } else if i == 2 {
        UseContext::StorageAccess
    } else if i == 3 {
        UseContext::Comparison
    } else if i == 4 {
        UseContext::Arithmetic
    } else if i == 5 {
        UseContext::FunctionArg
    } else if i == 6 {
        UseContext::FunctionReturn
    } else if i == 7 {
        UseContext::ExternalCall
    } else {
        UseContext::General
    }
}

/// The empty use set.
pub open spec fn no_uses() -> UseSet {
    UseSet {
        memory_offset: false,
        memory_value: false,
        storage_access: false,
        comparison: false,
        arithmetic: false,
        function_arg: false,
        function_return: false,
        external_call: false,
        general: false,
    }
}

impl UseSet {
    /// Whether `c` is in the set.
    pub open spec fn has(self, c: UseContext) -> bool {
        match c {
            UseContext::MemoryOffset => self.memory_offset,
            UseContext::MemoryValue => self.memory_value,
            UseContext::StorageAccess => self.storage_access,
            UseContext::Comparison => self.comparison,
            UseContext::Arithmetic => self.arithmetic,
            UseContext::FunctionArg => self.function_arg,
            UseContext::FunctionReturn => self.function_return,
            UseContext::ExternalCall => self.external_call,
            UseContext::General => self.general,
        }
    }

    /// The set with `c` added.
    pub open spec fn with(self, c: UseContext) -> UseSet {
        match c {
            UseContext::MemoryOffset => UseSet { memory_offset: true, ..self },
            UseContext::MemoryValue => UseSet { memory_value: true, ..self },
            UseContext::StorageAccess => UseSet { storage_access: true, ..self },
            UseContext::Comparison => UseSet { comparison: true, ..self },
            UseContext::Arithmetic => UseSet { arithmetic: true, ..self },
            UseContext::FunctionArg => UseSet { function_arg: true, ..self },
            UseContext::FunctionReturn => UseSet { function_return: true, ..self },
            UseContext::ExternalCall => UseSet { external_call: true, ..self },
            UseContext::General => UseSet { general: true, ..self },
        }
    }

    /// The union of two sets.
    pub open spec fn union(self, o: UseSet) -> UseSet {
        UseSet {
            memory_offset: self.memory_offset || o.memory_offset,
            memory_value: self.memory_value || o.memory_value,
            storage_access: self.storage_access || o.storage_access,
            comparison: self.comparison || o.comparison,
            arithmetic: self.arithmetic || o.arithmetic,
            function_arg: self.function_arg || o.function_arg,
            function_return: self.function_return || o.function_return,
            external_call: self.external_call || o.external_call,
            general: self.general || o.general,
        }
    }

    /// Whether every kind of `self` is in `o`.
    pub open spec fn subset_of(self, o: UseSet) -> bool {
        self.union(o) == o
    }

    /// The number of kinds in the set.
    pub open spec fn count(self) -> nat {
        (if self.memory_offset { 1nat } else { 0nat }) + (if self.memory_value { 1nat } else { 0nat })
            + (if self.storage_access { 1nat } else { 0nat }) + (if self.comparison { 1nat } else { 0nat })
            + (if self.arithmetic { 1nat } else { 0nat }) + (if self.function_arg { 1nat } else { 0nat })
            + (if self.function_return { 1nat } else { 0nat }) + (if self.external_call { 1nat } else { 0nat })
            + (if self.general { 1nat } else { 0nat })
    }

    /// The empty set.
    pub fn new() -> (r: UseSet)
        ensures
            r == no_uses(),
    {
        UseSet {
            memory_offset: false,
            memory_value: false,
            storage_access: false,
            comparison: false,
            arithmetic: false,
            function_arg: false,
            function_return: false,
            external_call: false,
            general: false,
        }
    }

    /// Whether `c` is in the set.
    pub fn contains(&self, c: UseContext) -> (r: bool)
        ensures
            r == self.has(c),
    {
        match c {
            UseContext::MemoryOffset => self.memory_offset,
            UseContext::MemoryValue => self.memory_value,
            UseContext::StorageAccess => self.storage_access,
            UseContext::Comparison => self.comparison,
            UseContext::Arithmetic => self.arithmetic,
            UseContext::FunctionArg => self.function_arg,
            UseContext::FunctionReturn => self.function_return,
            UseContext::ExternalCall => self.external_call,
            UseContext::General => self.general,
        }
    }

    /// Adds `c`; returns whether it was new.
    pub fn insert(&mut self, c: UseContext) -> (r: bool)
        ensures
            *final(self) == old(self).with(c),
            r == !old(self).has(c),
    {
        let r = !self.contains(c);
        match c {
            UseContext::MemoryOffset => self.memory_offset = true,
            UseContext::MemoryValue => self.memory_value = true,
            UseContext::StorageAccess => self.storage_access = true,
            UseContext::Comparison => self.comparison = true,
            UseContext::Arithmetic => self.arithmetic = true,
            UseContext::FunctionArg => self.function_arg = true,
            UseContext::FunctionReturn => self.function_return = true,
            UseContext::ExternalCall => self.external_call = true,
            UseContext::General => self.general = true,
        }
        r
    }

    /// Whether the set is empty.
    pub fn is_empty(&self) -> (r: bool)
        ensures
            r == (*self == no_uses()),
    {
        !(self.memory_offset || self.memory_value || self.storage_access || self.comparison
            || self.arithmetic || self.function_arg || self.function_return || self.external_call
            || self.general)
    }
}

impl View for UseSet {
    type V = Set<UseContext>;

    open spec fn view(&self) -> Set<UseContext> {
        Set::new(|c: UseContext| self.has(c))
    }
}

/// The use kind at position `i` of the declaration order.
pub fn use_context_at_index(i: usize) -> (r: UseContext)
    requires
        i < 9,
    ensures
        r == use_context_at(i as int),
{
    if i == 0 {
        UseContext::MemoryOffset
    } else if i == 1 {
        UseContext::MemoryValue
    } else if i == 2 {
        UseContext::StorageAccess
    } else if i == 3 {
        UseContext::Comparison
    } else if i == 4 {
        UseContext::Arithmetic
    } else if i == 5 {
        UseContext::FunctionArg
    } else if i == 6 {
        UseContext::FunctionReturn
    } else if i == 7 {
        UseContext::ExternalCall
    } else {
        UseContext::General
    }
}

} // verus!

verus! {

broadcast use vstd::laws_cmp::group_laws_cmp;

/// Type inference context holding all constraints.
pub struct TypeInference {
    /// Constraints for each value.
    constraints: BTreeMap<u32, TypeConstraint>,
    /// Use kinds for each value (for backward propagation).
    uses: BTreeMap<u32, UseSet>,
    /// Whether any constraint changed in the last iteration.
    changed: bool,
    /// Fall-through return value ids, keyed by function id.
    function_returns: BTreeMap<u32, Vec<ValueId>>,
    /// Per value, the widest narrowed parameter width across the call sites where it
    /// is passed; when present it replaces the full width of a function-argument use.
    fn_arg_demand: BTreeMap<u32, BitWidth>,
    /// Literal values that fit in 64 bits, for shift-amount analysis.
    known_constants: BTreeMap<u32, u64>,
    /// Values that keep full width: the source offset of `calldatacopy`/`codecopy`
    /// and the amount of `shl`/`shr`/`sar`/`byte`/`signextend`, whose out-of-range
    /// magnitudes EVM handles specially.
    full_width_operands: BTreeSet<u32>,
    /// Type inference results for subobjects (each subobject has its own namespace).
    pub sub_inferences: Vec<TypeInference>,
}

impl View for TypeInference {
    type V = InferenceState;

    closed spec fn view(&self) -> InferenceState {
        InferenceState {
            constraints: self.constraints@,
            uses: self.uses@,
            changed: self.changed,
            function_returns: self.function_returns@.map_values(|v: Vec<ValueId>| v@),
            fn_arg_demand: self.fn_arg_demand@,
            known_constants: self.known_constants@,
            full_width: self.full_width_operands@,
        }
    }
}

impl TypeInference {
    /// The results for the subobjects.
    pub closed spec fn sub_results(&self) -> Seq<TypeInference> {
        self.sub_inferences@
    }
}

/// The state of a fresh inference context.
pub open spec fn empty_inference() -> InferenceState {
    InferenceState {
        constraints: Map::empty(),
        uses: Map::empty(),
        changed: false,
        function_returns: Map::empty(),
        fn_arg_demand: Map::empty(),
        known_constants: Map::empty(),
        full_width: Set::empty(),
    }
}

impl TypeInference {
    /// Creates a new type inference context.
    pub fn new() -> (r: TypeInference)
        ensures
            r@ == empty_inference(),
            r.sub_results() == Seq::<TypeInference>::empty(),
    {
        let r = TypeInference {
            constraints: BTreeMap::new(),
            uses: BTreeMap::new(),
            changed: false,
            function_returns: BTreeMap::new(),
            fn_arg_demand: BTreeMap::new(),
            known_constants: BTreeMap::new(),
            full_width_operands: BTreeSet::new(),
            sub_inferences: Vec::new(),
        };
        proof {
            assert(r.function_returns@.map_values(|v: Vec<ValueId>| v@) =~= Map::empty());
        }
        r
    }

    /// Gets the constraint for a value, the default if none exists.
    pub fn get(&self, id: ValueId) -> (r: TypeConstraint)
        ensures
            r == constraint_of(self@, id.0),
    {
        match self.constraints.get(&id.0) {
            Some(c) => *c,
            None => TypeConstraint::default(),
        }
    }

    /// Gets the effective width for a value: its minimum, which a narrower maximum
    /// never lowers.
    pub fn effective_width(&self, id: ValueId) -> (r: BitWidth)
        ensures
            r == width_max(
                constraint_of(self@, id.0).min_width,
                width_min(constraint_of(self@, id.0).max_width, constraint_of(self@, id.0).min_width),
            ),
            r == constraint_of(self@, id.0).min_width,
    {
        let constraint = self.get(id);
        constraint.min_width.max(constraint.max_width.min(constraint.min_width))
    }

    /// Returns the inferred type for a value: an integer of its minimum width.
    pub fn inferred_type(&self, id: ValueId) -> (r: Type)
        ensures
            r == Type::Int(constraint_of(self@, id.0).min_width),
    {
        let constraint = self.get(id);
        Type::Int(constraint.min_width)
    }

    /// Returns all constraints.
    pub fn constraints(&self) -> (r: &BTreeMap<u32, TypeConstraint>)
        ensures
            r@ == self@.constraints,
    {
        &self.constraints
    }

    /// Widens a value's constraint to at least the given width.
    pub fn widen(&mut self, id: ValueId, width: BitWidth) -> (r: bool)
        ensures
            final(self)@ == widen_state(old(self)@, id.0, width),
            r == (width_bits(width) > width_bits(constraint_of(old(self)@, id.0).min_width)),
            forward_progress(old(self)@, final(self)@),
    {
        proof {
            lemma_widen_progress(self@, id.0, width);
        }
        let mut constraint = self.get(id);
        if constraint.widen_to(width) {
            self.constraints.insert(id.0, constraint);
            self.changed = true;
            true
        } else {
            false
        }
    }

    /// Marks a value as signed.
    fn mark_signed(&mut self, id: ValueId)
        ensures
            final(self)@ == mark_signed_state(old(self)@, id.0),
            forward_progress(old(self)@, final(self)@),
    {
        proof {
            lemma_mark_signed_progress(self@, id.0);
        }
        let mut constraint = self.get(id);
        if !constraint.is_signed {
            constraint.is_signed = true;
            self.constraints.insert(id.0, constraint);
            self.changed = true;
        }
    }

    /// Narrows a value's maximum width because of a use.
    fn narrow_from_use(&mut self, id: ValueId, max_width: BitWidth) -> (r: bool)
        ensures
            final(self)@ == narrow_state(old(self)@, id.0, max_width),
            r == (width_bits(max_width) < width_bits(constraint_of(old(self)@, id.0).max_width)),
    {
        let mut constraint = self.get(id);
        if constraint.narrow_max_to(max_width) {
            self.constraints.insert(id.0, constraint);
            self.changed = true;
            true
        } else {
            false
        }
    }

    /// Records a use of a value of the given kind.
    fn record_use(&mut self, id: ValueId, context: UseContext)
        ensures
            final(self)@ == record_state(old(self)@, id.0, context),
    {
        let mut set = match self.uses.get(&id.0) {
            Some(u) => *u,
            None => UseSet::new(),
        };
        set.insert(context);
        self.uses.insert(id.0, set);
    }
}

impl Default for TypeInference {
    fn default() -> (r: Self)
        ensures
            r@ == empty_inference(),
    {
        TypeInference::new()
    }
}

} // verus!

verus! {

impl TypeInference {
    /// Widens each id to `width`, in order.
    fn widen_ids(&mut self, ids: &Vec<ValueId>, width: BitWidth)
        ensures
            final(self)@ == widen_ids(old(self)@, ids@, 0, width),
            forward_progress(old(self)@, final(self)@),
    {
        let n = ids.len();
        for i in 0..n
            invariant
                n == ids@.len(),
                widen_ids(self@, ids@, i as int, width) == widen_ids(old(self)@, ids@, 0, width),
                forward_progress(old(self)@, self@),
        {
            self.widen(ids[i], width);
        }
    }

    /// Widens each value to `width`, in order.
    fn widen_values(&mut self, values: &Vec<Value>, width: BitWidth)
        ensures
            final(self)@ == widen_values(old(self)@, values@, 0, width),
            forward_progress(old(self)@, final(self)@),
    {
        let n = values.len();
        for i in 0..n
            invariant
                n == values@.len(),
                widen_values(self@, values@, i as int, width) == widen_values(
                    old(self)@,
                    values@,
                    0,
                    width,
                ),
                forward_progress(old(self)@, self@),
        {
            self.widen(values[i].id, width);
        }
    }

    /// Widens each output to the minimum width of the matching yield.
    fn widen_outputs(&mut self, yields: &Vec<Value>, outputs: &Vec<ValueId>)
        ensures
            final(self)@ == widen_outputs(old(self)@, yields@, outputs@, 0),
            forward_progress(old(self)@, final(self)@),
    {
        let n = if yields.len() < outputs.len() {
            yields.len()
        } else {
            outputs.len()
        };
        for i in 0..n
            invariant
                n <= yields@.len(),
                n <= outputs@.len(),
                n == yields@.len() || n == outputs@.len(),
                widen_outputs(self@, yields@, outputs@, i as int) == widen_outputs(
                    old(self)@,
                    yields@,
                    outputs@,
                    0,
                ),
                forward_progress(old(self)@, self@),
        {
            let yield_constraint = self.get(yields[i].id);
            self.widen(outputs[i], yield_constraint.min_width);
        }
    }

    /// The width of a call's result, from the callee's return values.
    fn call_width(&self, function: u32) -> (r: BitWidth)
        ensures
            r == call_width(self@, function),
    {
        match self.function_returns.get(&function) {
            Some(ret_ids) => {
                let mut max_ret_width = BitWidth::I1;
                let n = ret_ids.len();
                for i in 0..n
                    invariant
                        n == ret_ids@.len(),
                        widest_min_width(self@, ret_ids@, i as int, max_ret_width)
                            == widest_min_width(self@, ret_ids@, 0, BitWidth::I1),
                {
                    let ret_width = self.get(ret_ids[i]).min_width;
                    max_ret_width = max_ret_width.max(ret_width);
                }
                if BitWidth::I1.lt(max_ret_width) {
                    max_ret_width
                } else {
                    BitWidth::I256
                }
            },
            None => BitWidth::I256,
        }
    }

    /// The width of a logical right shift by the value `amount`.
    fn shr_width(&self, amount: ValueId, operand_width: BitWidth) -> (r: BitWidth)
        ensures
            r == shr_width(self@, amount.0, operand_width),
    {
        match self.known_constants.get(&amount.0) {
            Some(shift) => {
                let shift = *shift;
                if shift >= 256 {
                    BitWidth::I1
                } else {
                    let remaining: u64 = 256 - shift;
                    BitWidth::from_bits(remaining as u32)
                }
            },
            None => operand_width,
        }
    }

    /// Forward inference of a binary operation.
    fn infer_binary_width(&mut self, operation: BinaryOperation, lhs: &Value, rhs: &Value) -> (r: BitWidth)
        ensures
            (final(self)@, r) == forward_binary(old(self)@, operation, lhs.id.0, rhs.id.0),
            forward_progress(old(self)@, final(self)@),
    {
        let lhs_width = self.get(lhs.id).min_width;
        let rhs_width = self.get(rhs.id).min_width;
        let capped_operand_width = lhs_width.max(rhs_width).min(BitWidth::I64);
        match operation {
            BinaryOperation::Add => {
                self.widen(lhs.id, capped_operand_width);
                self.widen(rhs.id, capped_operand_width);
                widen_by_one(lhs_width.max(rhs_width))
            },
            BinaryOperation::Sub => BitWidth::I256,
            BinaryOperation::Mul => {
                self.widen(lhs.id, capped_operand_width);
                self.widen(rhs.id, capped_operand_width);
                double_width(lhs_width.max(rhs_width))
            },
            // Unsigned div/mod and signed mod are bounded by the dividend.
            BinaryOperation::Div | BinaryOperation::Mod | BinaryOperation::SMod => lhs_width,
            // A negative divisor has full width, so the wider operand bounds `sdiv`.
            BinaryOperation::SDiv => lhs_width.max(rhs_width),
            BinaryOperation::Exp => BitWidth::I256,
            BinaryOperation::And => lhs_width.min(rhs_width),
            BinaryOperation::Or | BinaryOperation::Xor => {
                self.widen(lhs.id, capped_operand_width);
                self.widen(rhs.id, capped_operand_width);
                lhs_width.max(rhs_width)
            },
            BinaryOperation::Shl => BitWidth::I256,
            // Shifting in zeros: a known amount bounds the result to `256 - amount` bits.
            BinaryOperation::Shr => self.shr_width(lhs.id, rhs_width),
            // Sign extension keeps the high bits of a negative value: bounded by the operand.
            BinaryOperation::Sar => rhs_width,
            BinaryOperation::Lt | BinaryOperation::Gt | BinaryOperation::Eq => BitWidth::I1,
            BinaryOperation::Slt | BinaryOperation::Sgt => {
                self.mark_signed(lhs.id);
                self.mark_signed(rhs.id);
                BitWidth::I1
            },
            BinaryOperation::Byte => BitWidth::I8,
            BinaryOperation::SignExtend => BitWidth::I256,
            BinaryOperation::AddMod | BinaryOperation::MulMod => BitWidth::I256,
        }
    }

    /// Infers the minimum bit width of an expression's result.
    pub fn infer_expression_width(&mut self, expression: &Expression) -> (r: BitWidth)
        ensures
            (final(self)@, r) == forward_expression(old(self)@, *expression),
            forward_progress(old(self)@, final(self)@),
    {
        match expression {
            Expression::Literal { value, .. } => BitWidth::from_max_value(value),
            Expression::Var(id) => self.get(*id).min_width,
            Expression::Binary { operation, lhs, rhs } => self.infer_binary_width(*operation, lhs, rhs),
            Expression::Ternary { .. } => BitWidth::I256,
            Expression::Unary { operation, .. } => match operation {
                UnaryOperation::IsZero => BitWidth::I1,
                UnaryOperation::Not => BitWidth::I256,
                UnaryOperation::Clz => BitWidth::I256,
            },
            Expression::CallDataLoad { offset } => {
                self.widen(offset.id, BitWidth::I256);
                BitWidth::I256
            },
            Expression::CallValue => BitWidth::I256,
            Expression::Caller | Expression::Origin | Expression::Address => BitWidth::I160,
            Expression::CallDataSize
            | Expression::CodeSize
            | Expression::ReturnDataSize
            | Expression::MSize => BitWidth::I64,
            Expression::GasPrice => BitWidth::I256,
            Expression::ExtCodeSize { address } => {
                self.widen(address.id, BitWidth::I160);
                BitWidth::I64
            },
            Expression::ExtCodeHash { address } => {
                self.widen(address.id, BitWidth::I160);
                BitWidth::I256
            },
            Expression::BlockHash { number } => {
                self.widen(number.id, BitWidth::I256);
                BitWidth::I256
            },
            Expression::Coinbase => BitWidth::I160,
            Expression::Timestamp | Expression::Number | Expression::GasLimit | Expression::Gas => {
                BitWidth::I64
            },
            Expression::Difficulty | Expression::ChainId | Expression::BaseFee => BitWidth::I256,
            Expression::SelfBalance | Expression::BlobBaseFee => BitWidth::I256,
            Expression::BlobHash { index } => {
                self.widen(index.id, BitWidth::I64);
                BitWidth::I256
            },
            Expression::Balance { address } => {
                self.widen(address.id, BitWidth::I160);
                BitWidth::I256
            },
            Expression::MLoad { offset, region } => {
                self.widen(offset.id, BitWidth::I64);
                if *region == MemoryRegion::FreePointerSlot {
                    BitWidth::I32
                } else {
                    BitWidth::I256
                }
            },
            Expression::SLoad { key, .. } => {
                self.widen(key.id, BitWidth::I256);
                BitWidth::I256
            },
            Expression::TLoad { key } => {
                self.widen(key.id, BitWidth::I256);
                BitWidth::I256
            },
            Expression::Call { function, .. } => self.call_width(function.0),
            Expression::Truncate { to, .. } => *to,
            Expression::ZeroExtend { to, .. } => *to,
            Expression::SignExtendTo { to, .. } => *to,
            Expression::Keccak256 { offset, length } => {
                self.widen(offset.id, BitWidth::I64);
                self.widen(length.id, BitWidth::I64);
                BitWidth::I256
            },
            Expression::Keccak256Pair { .. }
            | Expression::Keccak256Single { .. }
            | Expression::MappingSLoad { .. } => BitWidth::I256,
            Expression::DataOffset { .. } => BitWidth::I256,
            Expression::DataSize { .. } => BitWidth::I64,
            Expression::LoadImmutable { .. } => BitWidth::I256,
            Expression::LinkerSymbol { .. } => BitWidth::I160,
        }
    }
}

} // verus!

verus! {

impl TypeInference {
    /// Records a literal binding that fits in 64 bits as a known constant.
    fn note_constant(&mut self, bindings: &Vec<ValueId>, value: &Expression)
        ensures
            final(self)@ == note_constant(old(self)@, bindings@, *value),
            forward_progress(old(self)@, final(self)@),
    {
        if let Expression::Literal { value: literal, .. } = value {
            if let Some(v) = uint_to_u64(literal) {
                if bindings.len() == 1 {
                    self.known_constants.insert(bindings[0].0, v);
                }
            }
        }
    }

    /// Forward pass over a list of statements.
    fn infer_statements_forward(&mut self, statements: &Vec<Statement>)
        ensures
            final(self)@ == forward_statements(old(self)@, statements@, 0),
            forward_progress(old(self)@, final(self)@),
        decreases statements@, 0int,
    {
        let n = statements.len();
        for i in 0..n
            invariant
                n == statements@.len(),
                forward_statements(self@, statements@, i as int) == forward_statements(
                    old(self)@,
                    statements@,
                    0,
                ),
                forward_progress(old(self)@, self@),
        {
            self.infer_statement_forward(&statements[i]);
        }
    }

    /// Forward pass over a block.
    fn infer_block_forward(&mut self, block: &Block)
        ensures
            final(self)@ == forward_statements(old(self)@, block.statements@, 0),
            forward_progress(old(self)@, final(self)@),
    {
        self.infer_statements_forward(&block.statements);
    }

    /// Forward pass over switch cases, each body then its yields into the outputs.
    fn infer_cases_forward(&mut self, cases: &Vec<SwitchCase>, outputs: &Vec<ValueId>)
        ensures
            final(self)@ == forward_cases(old(self)@, cases@, 0, outputs@),
            forward_progress(old(self)@, final(self)@),
        decreases cases@, 0int,
    {
        let n = cases.len();
        for i in 0..n
            invariant
                n == cases@.len(),
                forward_cases(self@, cases@, i as int, outputs@) == forward_cases(
                    old(self)@,
                    cases@,
                    0,
                    outputs@,
                ),
                forward_progress(old(self)@, self@),
        {
            self.infer_statements_forward(&cases[i].body.statements);
            self.widen_outputs(&cases[i].body.yields, outputs);
        }
    }

    /// Forward pass: infers types for a statement.
    fn infer_statement_forward(&mut self, statement: &Statement)
        ensures
            final(self)@ == forward_statement(old(self)@, *statement),
            forward_progress(old(self)@, final(self)@),
        decreases *statement, 0int,
    {
        match statement {
            Statement::Let { bindings, value } => {
                self.note_constant(bindings, value);
                let expr_width = self.infer_expression_width(value);
                self.widen_ids(bindings, expr_width);
            },
            Statement::MStore { offset, value, .. } => {
                self.widen(offset.id, BitWidth::I64);
                self.widen(value.id, BitWidth::I256);
            },
            Statement::MStore8 { offset, value, .. } => {
                self.widen(offset.id, BitWidth::I64);
                self.widen(value.id, BitWidth::I8);
            },
            Statement::SStore { key, value, .. } | Statement::TStore { key, value } => {
                self.widen(key.id, BitWidth::I256);
                self.widen(value.id, BitWidth::I256);
            },
            Statement::MappingSStore { key, slot, value } => {
                self.widen(key.id, BitWidth::I256);
                self.widen(slot.id, BitWidth::I256);
                self.widen(value.id, BitWidth::I256);
            },
            Statement::If { condition, then_region, else_region, outputs, .. } => {
                self.widen(condition.id, BitWidth::I1);
                self.infer_statements_forward(&then_region.statements);
                if let Some(else_region) = else_region {
                    self.infer_statements_forward(&else_region.statements);
                }
                self.widen_outputs(&then_region.yields, outputs);
                if let Some(else_region) = else_region {
                    self.widen_outputs(&else_region.yields, outputs);
                }
            },
            Statement::Switch { scrutinee, cases, default, outputs, .. } => {
                self.widen(scrutinee.id, BitWidth::I64);
                self.infer_cases_forward(cases, outputs);
                if let Some(default) = default {
                    self.infer_statements_forward(&default.statements);
                    self.widen_outputs(&default.yields, outputs);
                }
            },
            Statement::For {
                loop_variables,
                condition,
                condition_statements,
                body,
                post,
                post_input_variables,
                outputs,
                ..
            } => {
                self.widen_ids(loop_variables, BitWidth::I256);
                self.widen_ids(post_input_variables, BitWidth::I256);
                self.widen_ids(outputs, BitWidth::I256);
                self.infer_statements_forward(condition_statements);
                let _ = self.infer_expression_width(condition);
                self.infer_statements_forward(&body.statements);
                self.infer_statements_forward(&post.statements);
            },
            Statement::Revert { offset, length } | Statement::Return { offset, length } => {
                self.widen(offset.id, BitWidth::I64);
                self.widen(length.id, BitWidth::I64);
            },
            Statement::SelfDestruct { address } => {
                self.widen(address.id, BitWidth::I160);
            },
            Statement::ExternalCall {
                gas,
                address,
                value,
                args_offset,
                args_length,
                ret_offset,
                ret_length,
                result,
                ..
            } => {
                self.widen(gas.id, BitWidth::I64);
                self.widen(address.id, BitWidth::I160);
                if let Some(value) = value {
                    self.widen(value.id, BitWidth::I256);
                }
                self.widen(args_offset.id, BitWidth::I64);
                self.widen(args_length.id, BitWidth::I64);
                self.widen(ret_offset.id, BitWidth::I64);
                self.widen(ret_length.id, BitWidth::I64);
                self.widen(*result, BitWidth::I1);
            },
            Statement::Create { value, offset, length, result, .. } => {
                self.widen(value.id, BitWidth::I256);
                self.widen(offset.id, BitWidth::I64);
                self.widen(length.id, BitWidth::I64);
                self.widen(*result, BitWidth::I160);
            },
            Statement::Log { offset, length, topics } => {
                self.widen(offset.id, BitWidth::I64);
                self.widen(length.id, BitWidth::I64);
                self.widen_values(topics, BitWidth::I256);
            },
            Statement::CodeCopy { dest, offset, length }
            | Statement::ExtCodeCopy { dest, offset, length, .. }
            | Statement::ReturnDataCopy { dest, offset, length }
            | Statement::DataCopy { dest, offset, length }
            | Statement::CallDataCopy { dest, offset, length } => {
                self.widen(dest.id, BitWidth::I64);
                self.widen(offset.id, BitWidth::I64);
                self.widen(length.id, BitWidth::I64);
            },
            Statement::MCopy { dest, src, length } => {
                self.widen(dest.id, BitWidth::I64);
                self.widen(src.id, BitWidth::I64);
                self.widen(length.id, BitWidth::I64);
            },
            Statement::Block(region) => {
                self.infer_statements_forward(&region.statements);
            },
            Statement::Expression(expression) => {
                let _ = self.infer_expression_width(expression);
            },
            Statement::SetImmutable { value, .. } => {
                self.widen(value.id, BitWidth::I256);
            },
            Statement::Break { .. }
            | Statement::Continue { .. }
            | Statement::Leave { .. }
            | Statement::Stop
            | Statement::Invalid
            | Statement::PanicRevert { .. }
            | Statement::ErrorStringRevert { .. }
            | Statement::CustomErrorRevert { .. } => {},
        }
    }

    /// Forward pass for a function: its integer parameters, then its body.
    fn infer_function_forward(&mut self, function: &Function)
        ensures
            final(self)@ == forward_function(old(self)@, *function),
            forward_progress(old(self)@, final(self)@),
    {
        let n = function.parameters.len();
        for i in 0..n
            invariant
                n == function.parameters@.len(),
                widen_parameters(self@, function.parameters@, i as int) == widen_parameters(
                    old(self)@,
                    function.parameters@,
                    0,
                ),
                forward_progress(old(self)@, self@),
        {
            let (parameter_id, parameter_type) = function.parameters[i];
            if let Type::Int(width) = parameter_type {
                self.widen(parameter_id, width);
            }
        }
        self.infer_block_forward(&function.body);
    }

    /// Forward pass over functions, in order.
    fn infer_functions_forward(&mut self, functions: &Vec<Function>)
        ensures
            final(self)@ == forward_functions(old(self)@, functions@, 0),
            forward_progress(old(self)@, final(self)@),
    {
        let n = functions.len();
        for i in 0..n
            invariant
                n == functions@.len(),
                forward_functions(self@, functions@, i as int) == forward_functions(
                    old(self)@,
                    functions@,
                    0,
                ),
                forward_progress(old(self)@, self@),
        {
            self.infer_function_forward(&functions[i]);
        }
    }
}

} // verus!

verus! {

impl TypeInference {
    /// A use of `value` as a memory offset, which needs at most 64 bits.
    fn offset_use(&mut self, value: &Value)
        ensures
            final(self)@ == offset_use(old(self)@, *value),
    {
        self.record_use(value.id, UseContext::MemoryOffset);
        self.narrow_from_use(value.id, BitWidth::I64);
    }

    /// Marks a value as an operand that keeps full width.
    fn mark_full_width(&mut self, id: ValueId)
        ensures
            final(self)@ == mark_full_width(old(self)@, id.0),
    {
        self.full_width_operands.insert(id.0);
    }

    /// Records a use of each value, in order.
    fn record_values(&mut self, values: &Vec<Value>, context: UseContext)
        ensures
            final(self)@ == record_values(old(self)@, values@, 0, context),
    {
        let n = values.len();
        for i in 0..n
            invariant
                n == values@.len(),
                record_values(self@, values@, i as int, context) == record_values(
                    old(self)@,
                    values@,
                    0,
                    context,
                ),
        {
            self.record_use(values[i].id, context);
        }
    }

    /// Records a use of each id, in order.
    fn record_ids(&mut self, ids: &Vec<ValueId>, context: UseContext)
        ensures
            final(self)@ == record_ids(old(self)@, ids@, 0, context),
    {
        let n = ids.len();
        for i in 0..n
            invariant
                n == ids@.len(),
                record_ids(self@, ids@, i as int, context) == record_ids(old(self)@, ids@, 0, context),
        {
            self.record_use(ids[i], context);
        }
    }

    /// Records a use of an optional value.
    fn record_option(&mut self, value: &Option<Value>, context: UseContext)
        ensures
            final(self)@ == record_option(old(self)@, *value, context),
    {
        if let Some(v) = value {
            self.record_use(v.id, context);
        }
    }

    /// Collects the uses an expression makes of its operands.
    fn collect_uses_expression(&mut self, expression: &Expression)
        ensures
            final(self)@ == collect_expression(old(self)@, *expression),
    {
        match expression {
            Expression::Binary { lhs, rhs, operation } => match operation {
                BinaryOperation::Lt
                | BinaryOperation::Gt
                | BinaryOperation::Slt
                | BinaryOperation::Sgt
                | BinaryOperation::Eq => {
                    self.record_use(lhs.id, UseContext::Comparison);
                    self.record_use(rhs.id, UseContext::Comparison);
                },
                BinaryOperation::Add
                | BinaryOperation::Sub
                | BinaryOperation::Mul
                | BinaryOperation::Or
                | BinaryOperation::Xor
                | BinaryOperation::And => {},
                BinaryOperation::Shl => {
                    self.record_use(lhs.id, UseContext::Arithmetic);
                    // A shift amount of 256 or more gives 0; narrowing it would change that.
                    self.mark_full_width(lhs.id);
                },
                BinaryOperation::Shr
                | BinaryOperation::Sar
                | BinaryOperation::Byte
                | BinaryOperation::SignExtend => {
                    self.record_use(lhs.id, UseContext::Arithmetic);
                    self.record_use(rhs.id, UseContext::Arithmetic);
                    // Out-of-range amounts, byte indices and byte positions have their
                    // own EVM meaning; narrowing them would change it.
                    self.mark_full_width(lhs.id);
                },
                _ => {
                    self.record_use(lhs.id, UseContext::Arithmetic);
                    self.record_use(rhs.id, UseContext::Arithmetic);
                },
            },
            Expression::Ternary { a, b, n, .. } => {
                self.record_use(a.id, UseContext::Arithmetic);
                self.record_use(b.id, UseContext::Arithmetic);
                self.record_use(n.id, UseContext::Arithmetic);
            },
            Expression::Unary { operand, operation } => match operation {
                UnaryOperation::Not => {},
                _ => {
                    self.record_use(operand.id, UseContext::Arithmetic);
                },
            },
            Expression::MLoad { offset, .. } => self.offset_use(offset),
            Expression::SLoad { key, .. } | Expression::TLoad { key } => {
                self.record_use(key.id, UseContext::StorageAccess);
            },
            Expression::CallDataLoad { offset } => {
                self.record_use(offset.id, UseContext::Arithmetic);
            },
            Expression::Keccak256 { offset, length } => {
                self.offset_use(offset);
                self.offset_use(length);
            },
            Expression::Keccak256Pair { word0, word1 } => {
                self.record_use(word0.id, UseContext::FunctionArg);
                self.record_use(word1.id, UseContext::FunctionArg);
            },
            Expression::Keccak256Single { word0 } => {
                self.record_use(word0.id, UseContext::FunctionArg);
            },
            Expression::MappingSLoad { key, slot } => {
                self.record_use(key.id, UseContext::FunctionArg);
                self.record_use(slot.id, UseContext::FunctionArg);
            },
            Expression::Call { arguments, .. } => {
                self.record_values(arguments, UseContext::FunctionArg);
            },
            Expression::Balance { address }
            | Expression::ExtCodeSize { address }
            | Expression::ExtCodeHash { address } => {
                self.record_use(address.id, UseContext::ExternalCall);
            },
            Expression::BlockHash { number } => {
                self.record_use(number.id, UseContext::ExternalCall);
            },
            Expression::BlobHash { index } => self.offset_use(index),
            _ => {},
        }
    }

    /// Collects the uses a statement itself makes of its operands; nested regions
    /// are left to the walk.
    fn collect_uses_statement(&mut self, statement: &Statement)
        ensures
            final(self)@ == collect_statement(old(self)@, *statement),
    {
        match statement {
            Statement::MStore { offset, value, region } => {
                self.offset_use(offset);
                if *region == MemoryRegion::FreePointerSlot {
                    self.offset_use(value);
                } else {
                    self.record_use(value.id, UseContext::MemoryValue);
                }
            },
            Statement::MStore8 { offset, value, .. } => {
                self.offset_use(offset);
                self.record_use(value.id, UseContext::MemoryValue);
            },
            Statement::SStore { key, value, .. } | Statement::TStore { key, value } => {
                self.record_use(key.id, UseContext::StorageAccess);
                self.record_use(value.id, UseContext::StorageAccess);
            },
            Statement::MappingSStore { key, slot, value } => {
                self.record_use(key.id, UseContext::StorageAccess);
                self.record_use(slot.id, UseContext::StorageAccess);
                self.record_use(value.id, UseContext::StorageAccess);
            },
            Statement::If { condition, .. } => {
                self.record_use(condition.id, UseContext::Comparison);
            },
            Statement::Switch { scrutinee, .. } => {
                self.record_use(scrutinee.id, UseContext::Comparison);
            },
            Statement::For { initial_values, .. } => {
                self.record_values(initial_values, UseContext::Arithmetic);
            },
            Statement::Revert { offset, length } | Statement::Return { offset, length } => {
                self.offset_use(offset);
                self.offset_use(length);
            },
            Statement::ExternalCall {
                gas,
                address,
                value,
                args_offset,
                args_length,
                ret_offset,
                ret_length,
                ..
            } => {
                self.record_use(gas.id, UseContext::ExternalCall);
                self.record_use(address.id, UseContext::ExternalCall);
                self.record_option(value, UseContext::ExternalCall);
                self.offset_use(args_offset);
                self.offset_use(args_length);
                self.offset_use(ret_offset);
                self.offset_use(ret_length);
            },
            Statement::Log { offset, length, topics } => {
                self.offset_use(offset);
                self.offset_use(length);
                self.record_values(topics, UseContext::MemoryValue);
            },
            Statement::CallDataCopy { dest, offset, length }
            | Statement::CodeCopy { dest, offset, length } => {
                self.offset_use(dest);
                self.offset_use(length);
                // Bytes past the end of the source read as zero, so the source
                // offset reaches the copy intact.
                self.record_use(offset.id, UseContext::MemoryOffset);
                self.mark_full_width(offset.id);
            },
            Statement::ExtCodeCopy { dest, offset, length, .. }
            | Statement::ReturnDataCopy { dest, offset, length } => {
                self.offset_use(dest);
                self.offset_use(offset);
                self.offset_use(length);
            },
            Statement::DataCopy { dest, offset, length } => {
                self.offset_use(dest);
                self.record_use(offset.id, UseContext::MemoryValue);
                self.offset_use(length);
            },
            Statement::MCopy { dest, src, length } => {
                self.offset_use(dest);
                self.offset_use(src);
                self.offset_use(length);
            },
            Statement::Block(_) => {},
            Statement::Let { value, .. } => {
                self.collect_uses_expression(value);
            },
            Statement::Expression(expression) => {
                self.collect_uses_expression(expression);
            },
            Statement::Create { value, offset, length, salt, .. } => {
                self.record_use(value.id, UseContext::ExternalCall);
                self.offset_use(offset);
                self.offset_use(length);
                self.record_option(salt, UseContext::ExternalCall);
            },
            Statement::SetImmutable { value, .. } => {
                self.record_use(value.id, UseContext::General);
            },
            Statement::SelfDestruct { address } => {
                self.record_use(address.id, UseContext::ExternalCall);
            },
            Statement::Leave { return_values } => {
                self.record_values(return_values, UseContext::FunctionReturn);
            },
            Statement::Break { values } | Statement::Continue { values } => {
                self.record_values(values, UseContext::General);
            },
            Statement::PanicRevert { .. }
            | Statement::ErrorStringRevert { .. }
            | Statement::CustomErrorRevert { .. }
            | Statement::Stop
            | Statement::Invalid => {},
        }
    }
}

impl StatementVisitor for TypeInference {
    type State = InferenceState;

    closed spec fn state(&self) -> InferenceState {
        self@
    }

    open spec fn step(st: InferenceState, s: Statement) -> InferenceState {
        collect_statement(st, s)
    }

    open spec fn progress(a: InferenceState, b: InferenceState) -> bool {
        true
    }

    proof fn lemma_progress_reflexive(a: InferenceState) {
    }

    proof fn lemma_progress_transitive(a: InferenceState, b: InferenceState, c: InferenceState) {
    }

    fn visit(&mut self, s: &Statement) {
        self.collect_uses_statement(s);
    }
}

} // verus!

verus! {

impl UseSet {
    /// The union with another set.
    pub fn union_with(&self, o: &UseSet) -> (r: UseSet)
        ensures
            r == self.union(*o),
    {
        UseSet {
            memory_offset: self.memory_offset || o.memory_offset,
            memory_value: self.memory_value || o.memory_value,
            storage_access: self.storage_access || o.storage_access,
            comparison: self.comparison || o.comparison,
            arithmetic: self.arithmetic || o.arithmetic,
            function_arg: self.function_arg || o.function_arg,
            function_return: self.function_return || o.function_return,
            external_call: self.external_call || o.external_call,
            general: self.general || o.general,
        }
    }
}

/// A demand propagation pass: the inference it updates, and whether it has
/// recorded a new use.
pub struct DemandPropagation {
    inference: TypeInference,
    grew: bool,
}

impl StatementVisitor for DemandPropagation {
    type State = (InferenceState, bool);

    closed spec fn state(&self) -> (InferenceState, bool) {
        (self.inference@, self.grew)
    }

    open spec fn step(st: (InferenceState, bool), s: Statement) -> (InferenceState, bool) {
        let r = propagate_statement(st.0, s);
        (r.0, st.1 || r.1)
    }

    open spec fn progress(a: (InferenceState, bool), b: (InferenceState, bool)) -> bool {
        use_progress(a.0, b.0, b.1 && !a.1)
    }

    proof fn lemma_progress_reflexive(a: (InferenceState, bool)) {
    }

    proof fn lemma_progress_transitive(
        a: (InferenceState, bool),
        b: (InferenceState, bool),
        c: (InferenceState, bool),
    ) {
    }

    fn visit(&mut self, s: &Statement) {
        if let Statement::Let { bindings, value } = s {
            if bindings.len() == 1 {
                let snapshot = match self.inference.uses.get(&bindings[0].0) {
                    Some(u) => *u,
                    None => UseSet::new(),
                };
                if !snapshot.is_empty() {
                    let grew = self.inference.propagate_demand_to_expression(value, snapshot);
                    self.grew = self.grew || grew;
                }
            }
        }
    }
}

/// A copy of a list of ids.
fn copy_ids(ids: &Vec<ValueId>) -> (r: Vec<ValueId>)
    ensures
        r@ == ids@,
{
    let mut r: Vec<ValueId> = Vec::new();
    let n = ids.len();
    for i in 0..n
        invariant
            n == ids@.len(),
            r@ == ids@.take(i as int),
    {
        r.push(ids[i]);
        proof {
            assert(ids@.take(i + 1) =~= ids@.take(i as int).push(ids@[i as int]));
        }
    }
    proof {
        assert(ids@.take(n as int) =~= ids@);
    }
    r
}

impl TypeInference {
    /// Records every use kind of `u` for `id`; returns whether one was new.
    fn add_uses(&mut self, id: ValueId, u: UseSet) -> (r: bool)
        ensures
            final(self)@ == add_uses_state(old(self)@, id.0, u),
            r == !u.subset_of(uses_of(old(self)@, id.0)),
            use_progress(old(self)@, final(self)@, r),
    {
        proof {
            lemma_add_uses_progress(self@, id.0, u);
        }
        let old_set = match self.uses.get(&id.0) {
            Some(s) => *s,
            None => UseSet::new(),
        };
        let new_set = old_set.union_with(&u);
        self.uses.insert(id.0, new_set);
        new_set != old_set
    }

    /// Passes the uses of a result to the operands of transparent operations: for
    /// add, sub, mul, or, xor and and, the low bits of the result depend only on the
    /// low bits of the operands; likewise for the shifted value of `shl`, for `not`
    /// and for a copy.
    fn propagate_demand_to_expression(&mut self, expression: &Expression, result_uses: UseSet) -> (r: bool)
        ensures
            (final(self)@, r) == propagate_expression(old(self)@, *expression, result_uses),
            use_progress(old(self)@, final(self)@, r),
    {
        match expression {
            Expression::Binary { lhs, rhs, operation } => match operation {
                BinaryOperation::Add
                | BinaryOperation::Sub
                | BinaryOperation::Mul
                | BinaryOperation::Or
                | BinaryOperation::Xor
                | BinaryOperation::And => {
                    let a = self.add_uses(lhs.id, result_uses);
                    let b = self.add_uses(rhs.id, result_uses);
                    a || b
                },
                BinaryOperation::Shl => self.add_uses(rhs.id, result_uses),
                _ => false,
            },
            Expression::Unary { operand, operation: UnaryOperation::Not } => {
                self.add_uses(operand.id, result_uses)
            },
            Expression::Var(id) => self.add_uses(*id, result_uses),
            _ => false,
        }
    }

    /// Propagates use demands backward through transparent operations until no use
    /// is new.
    fn propagate_use_demands(&mut self, object: &Object)
        ensures
            demand_fixpoint(old(self)@, *object, final(self)@),
    {
        let mut inference = TypeInference::new();
        std::mem::swap(self, &mut inference);
        let ghost s0 = inference@;
        let mut pass = DemandPropagation { inference, grew: false };
        let ghost mut n: nat = 0;
        loop
            invariant_except_break
                pass.inference@ == propagate_iterate(s0, *object, n),
            invariant
                forall|k: nat| k < n ==> (#[trigger] propagate_pass(propagate_iterate(s0, *object, k), *object)).1,
            ensures
                pass.inference@ == propagate_iterate(s0, *object, n + 1),
                !propagate_pass(propagate_iterate(s0, *object, n), *object).1,
                forall|k: nat| k < n ==> (#[trigger] propagate_pass(propagate_iterate(s0, *object, k), *object)).1,
            decreases 9 * id_space() - use_potential(pass.inference@.uses),
        {
            proof {
                lemma_use_potential_bound(pass.inference@.uses);
            }
            pass.grew = false;
            visit_statements(&mut pass, &object.code.statements);
            visit_bodies(&mut pass, &object.functions);
            if !pass.grew {
                break;
            }
            proof {
                lemma_use_potential_bound(pass.inference@.uses);
                n = n + 1;
            }
        }
        std::mem::swap(self, &mut pass.inference);
        proof {
            assert(propagate_iterate(s0, *object, n + 1) == self@);
        }
    }
}

} // verus!

verus! {

impl TypeInference {
    /// The widest demand of the use kinds `u` of `id`; comparisons are left out
    /// when `skip_comparison` holds.
    fn widest_demand(&self, id: ValueId, u: UseSet, skip_comparison: bool) -> (r: BitWidth)
        ensures
            r == widest_demand(u, arg_demand_of(self@, id.0), skip_comparison),
    {
        let arg = match self.fn_arg_demand.get(&id.0) {
            Some(w) => Some(*w),
            None => None,
        };
        let mut widest_needed = BitWidth::I1;
        for i in 0..9
            invariant
                arg == arg_demand_of(self@, id.0),
                widest_needed == widest_demand_prefix(u, arg, skip_comparison, i as nat),
        {
            let use_ctx = use_context_at_index(i);
            if u.contains(use_ctx) && !(skip_comparison && use_ctx == UseContext::Comparison) {
                let needed = match use_ctx {
                    UseContext::FunctionArg => match arg {
                        Some(w) => w,
                        None => BitWidth::I256,
                    },
                    _ => use_ctx.max_width_needed(),
                };
                if widest_needed.lt(needed) {
                    widest_needed = needed;
                }
            }
        }
        widest_needed
    }

    /// The widest width that any recorded use of this value needs; full width when
    /// no use is recorded.
    ///
    /// Every use kind needs full width except a function argument whose callee
    /// parameters were narrowed, so only that path yields less.
    pub fn use_demand_width(&self, id: ValueId) -> (r: BitWidth)
        ensures
            r == use_demand(self@, id.0),
    {
        match self.uses.get(&id.0) {
            Some(uses) => {
                if uses.is_empty() {
                    BitWidth::I256
                } else {
                    self.widest_demand(id, *uses, false)
                }
            },
            None => BitWidth::I256,
        }
    }

    /// As [`Self::use_demand_width`], leaving comparison uses out: narrowing a
    /// parameter zero-extends it on entry, which keeps comparisons of in-range
    /// values correct.
    pub fn non_comparison_demand(&self, id: ValueId) -> (r: BitWidth)
        ensures
            r == non_comparison_use_demand(self@, id.0),
    {
        match self.uses.get(&id.0) {
            Some(uses) => {
                if uses.is_empty() {
                    BitWidth::I256
                } else {
                    self.widest_demand(id, *uses, true)
                }
            },
            None => BitWidth::I256,
        }
    }

    /// Collects the uses in a block, through its nested regions.
    fn collect_uses_block(&mut self, block: &Block)
        ensures
            final(self)@ == walk_statements::<TypeInference>(old(self)@, block.statements@, 0),
    {
        visit_statements(self, &block.statements);
    }

    /// Collects the uses in a function: its body, and its return values as returned.
    fn collect_uses_function(&mut self, function: &Function)
        ensures
            final(self)@ == collect_function(old(self)@, *function),
    {
        self.collect_uses_block(&function.body);
        self.record_ids(&function.return_values, UseContext::FunctionReturn);
    }

    /// Collects the uses in an object's code and functions.
    fn collect_uses_object(&mut self, object: &Object)
        ensures
            final(self)@ == collect_object(old(self)@, *object),
    {
        self.collect_uses_block(&object.code);
        let n = object.functions.len();
        for i in 0..n
            invariant
                n == object.functions@.len(),
                collect_functions(self@, object.functions@, i as int) == collect_object(old(self)@, *object),
        {
            self.collect_uses_function(&object.functions[i]);
        }
    }

    /// Applies the collected use demands: a value all of whose uses need fewer
    /// than 256 bits gets its maximum lowered to the widest of them.
    fn apply_backward_constraints(&mut self)
        ensures
            final(self)@ == apply_backward(old(self)@),
    {
        let ghost s0 = self@;
        let uses = self.uses.clone();
        let ghost mut visited: Seq<u32> = Seq::empty();
        proof {
            assert(self@.constraints =~= backward_over(s0, visited.to_set()));
        }
        for id in it: uses.keys()
            invariant
                uses@ == s0.uses,
                it.seq().unref().to_set() == s0.uses.dom(),
                it.seq().no_duplicates(),
                it.seq().len() == s0.uses.dom().len(),
                visited.len() == it.index(),
                forall|i: int| 0 <= i < visited.len() ==> visited[i] == *it.seq()[i],
                visited.no_duplicates(),
                visited.to_set().subset_of(s0.uses.dom()),
                self@ == (InferenceState { constraints: backward_over(s0, visited.to_set()), ..s0 }),
        {
            proof {
                let j = visited.len() as int;
                assert(it.seq().unref()[j] == *id);
                assert(it.seq().unref().to_set().contains(*id));
            }
            let u = match uses.get(id) {
                Some(u) => *u,
                None => UseSet::new(),
            };
            let ghost before = self@.constraints;
            let widest_needed = self.widest_demand(ValueId(*id), u, false);
            if widest_needed.lt(BitWidth::I256) {
                let mut constraint = self.get(ValueId(*id));
                constraint.narrow_max_to(widest_needed);
                self.constraints.insert(*id, constraint);
            }
            proof {
                assert(u == s0.uses[*id]);
                assert(!visited.to_set().contains(*id));
                visited.lemma_push_to_set_commute(*id);
                assert(cget(before, *id) == cget(s0.constraints, *id));
                assert(backward_target(s0, *id) == (width_bits(widest_needed) < 256));
                assert(self@.constraints =~= backward_over(s0, visited.to_set().insert(*id)));
                assert forall|i: int| 0 <= i < visited.len() implies visited[i] != *id by {
                    assert(visited[i] == *it.seq()[i]);
                }
                visited = visited.push(*id);
            }
        }
        proof {
            visited.unique_seq_to_set();
            vstd::set_lib::lemma_subset_equality(visited.to_set(), s0.uses.dom());
        }
    }
}

impl TypeInference {
    /// Sets the maximum width of every full-width operand back to 256 bits.
    fn restore_full_width_operands(&mut self)
        ensures
            final(self)@ == force_full_width(old(self)@),
    {
        let ghost s0 = self@;
        let operands = self.full_width_operands.clone();
        let ghost mut visited: Seq<u32> = Seq::empty();
        proof {
            assert(self@.constraints =~= full_width_over(s0, visited.to_set()));
        }
        for id in it: operands.iter()
            invariant
                operands@ == s0.full_width,
                it.seq().unref().to_set() == s0.full_width,
                it.seq().no_duplicates(),
                it.seq().len() == s0.full_width.len(),
                visited.len() == it.index(),
                forall|i: int| 0 <= i < visited.len() ==> visited[i] == *it.seq()[i],
                visited.no_duplicates(),
                visited.to_set().subset_of(s0.full_width),
                self@ == (InferenceState { constraints: full_width_over(s0, visited.to_set()), ..s0 }),
        {
            proof {
                let j = visited.len() as int;
                assert(it.seq().unref()[j] == *id);
                assert(it.seq().unref().to_set().contains(*id));
            }
            let ghost before = self@.constraints;
            let mut constraint = self.get(ValueId(*id));
            constraint.max_width = BitWidth::I256;
            self.constraints.insert(*id, constraint);
            proof {
                assert(!visited.to_set().contains(*id));
                visited.lemma_push_to_set_commute(*id);
                assert(cget(before, *id) == cget(s0.constraints, *id));
                assert(self@.constraints =~= full_width_over(s0, visited.to_set().insert(*id)));
                assert forall|i: int| 0 <= i < visited.len() implies visited[i] != *id by {
                    assert(visited[i] == *it.seq()[i]);
                }
                visited = visited.push(*id);
            }
        }
        proof {
            visited.unique_seq_to_set();
            vstd::set_lib::lemma_subset_equality(visited.to_set(), s0.full_width);
        }
    }

    /// Notes the fall-through return values of the object's functions.
    fn note_function_returns(&mut self, object: &Object)
        ensures
            final(self)@ == with_returns(old(self)@, *object),
    {
        let n = object.functions.len();
        for i in 0..n
            invariant
                n == object.functions@.len(),
                self@ == (InferenceState {
                    function_returns: self@.function_returns,
                    ..old(self)@
                }),
                note_returns(self@.function_returns, object.functions@, i as int) == note_returns(
                    old(self)@.function_returns,
                    object.functions@,
                    0,
                ),
        {
            let function = &object.functions[i];
            if !function.return_values.is_empty() {
                let ids = copy_ids(&function.return_values);
                let ghost prev = self@.function_returns;
                self.function_returns.insert(function.id.0, ids);
                proof {
                    assert(self@.function_returns =~= prev.insert(function.id.0, function.return_values@));
                }
            }
        }
    }
}

/// `r` is what inference of the object tree `o` gives, from a context in state `s`
/// with results `subs` for earlier subobjects: the object itself as
/// [`inferred_object`] says, and after the earlier results one result per
/// subobject, each inferred from a fresh context.
pub open spec fn inferred_tree(s: InferenceState, subs: Seq<TypeInference>, o: Object, r: TypeInference) -> bool
    decreases o,
{
    &&& inferred_object(s, o, r@)
    &&& r.sub_results().len() == subs.len() + o.subobjects.len()
    &&& forall|j: int| 0 <= j < subs.len() ==> r.sub_results()[j] == subs[j]
    &&& forall|j: int|
        0 <= j < o.subobjects.len() ==> inferred_tree(
            empty_inference(),
            Seq::empty(),
            o.subobjects@[j],
            #[trigger] r.sub_results()[subs.len() + j],
        )
}

impl TypeInference {
    /// Runs type inference on an object: forward passes until no bound changes,
    /// then the uses are collected, propagated through transparent operations until
    /// none is new, and applied as maximum widths; finally every full-width operand
    /// gets its maximum back to 256 bits, whatever its other uses demand.
    pub fn infer_object(&mut self, object: &Object)
        ensures
            inferred_object(old(self)@, *object, final(self)@),
            final(self).sub_results() == old(self).sub_results(),
    {
        let mut saved: Vec<TypeInference> = Vec::new();
        std::mem::swap(&mut self.sub_inferences, &mut saved);
        self.note_function_returns(object);
        let ghost s1 = self@;
        let ghost mut n: nat = 0;
        loop
            invariant_except_break
                self@ == forward_iterate(s1, *object, n),
            invariant
                forall|k: nat| 1 <= k <= n ==> (#[trigger] forward_iterate(s1, *object, k)).changed,
            ensures
                self@ == forward_iterate(s1, *object, n + 1),
                !self@.changed,
                forall|k: nat| 1 <= k <= n ==> (#[trigger] forward_iterate(s1, *object, k)).changed,
            decreases 7 * id_space() - constraint_potential(self@.constraints),
        {
            proof {
                lemma_constraint_potential_bound(self@.constraints);
            }
            self.changed = false;
            self.infer_block_forward(&object.code);
            self.infer_functions_forward(&object.functions);
            if !self.changed {
                break;
            }
            proof {
                lemma_constraint_potential_bound(self@.constraints);
                n = n + 1;
            }
        }
        let ghost f = self@;
        proof {
            assert(forward_fixpoint(s1, *object, f));
        }
        self.collect_uses_object(object);
        self.propagate_use_demands(object);
        let ghost p = self@;
        self.apply_backward_constraints();
        self.restore_full_width_operands();
        self.sub_inferences = saved;
        proof {
            assert(forward_fixpoint(with_returns(old(self)@, *object), *object, f)
                && demand_fixpoint(collect_object(f, *object), *object, p)
                && self@ == force_full_width(apply_backward(p)));
        }
    }

    /// Runs type inference on an object tree: the object, then each subobject in a
    /// fresh context, since every object numbers its values and functions from zero.
    pub fn infer_object_tree(&mut self, object: &Object)
        ensures
            inferred_tree(old(self)@, old(self).sub_results(), *object, *final(self)),
        decreases *object,
    {
        self.infer_object(object);
        let ghost m = self@;
        let ns = object.subobjects.len();
        let ghost base = old(self).sub_inferences@.len();
        for i in 0..ns
            invariant
                ns == object.subobjects@.len(),
                base == old(self).sub_inferences@.len(),
                self@ == m,
                inferred_object(old(self)@, *object, m),
                self.sub_inferences@.len() == base + i,
                forall|j: int| 0 <= j < base ==> self.sub_inferences@[j] == old(self).sub_inferences@[j],
                forall|j: int|
                    0 <= j < i ==> inferred_tree(
                        empty_inference(),
                        Seq::empty(),
                        object.subobjects@[j],
                        #[trigger] self.sub_inferences@[base + j],
                    ),
        {
            let mut sub_inference = TypeInference::new();
            sub_inference.infer_object_tree(&object.subobjects[i]);
            let ghost done = sub_inference;
            self.sub_inferences.push(sub_inference);
            proof {
                assert(self.sub_inferences@[base + i] == done);
            }
        }
    }
}

} // verus!

verus! {

/// `f2` is `f` with only its parameter types changed.
pub open spec fn same_but_parameters(f: Function, f2: Function) -> bool {
    &&& f2.id == f.id
    &&& f2.name == f.name
    &&& f2.returns == f.returns
    &&& f2.return_values_initial == f.return_values_initial
    &&& f2.return_values == f.return_values
    &&& f2.body == f.body
    &&& f2.call_count == f.call_count
    &&& f2.size_estimate == f.size_estimate
    &&& f2.parameters@.len() == f.parameters@.len()
    &&& forall|j: int| 0 <= j < f.parameters@.len() ==> (#[trigger] f2.parameters@[j]).0 == f.parameters@[j].0
}

/// `f2` is `f` with only its return types changed.
pub open spec fn same_but_returns(f: Function, f2: Function) -> bool {
    &&& f2.id == f.id
    &&& f2.name == f.name
    &&& f2.parameters == f.parameters
    &&& f2.return_values_initial == f.return_values_initial
    &&& f2.return_values == f.return_values
    &&& f2.body == f.body
    &&& f2.call_count == f.call_count
    &&& f2.size_estimate == f.size_estimate
    &&& f2.returns@.len() == f.returns@.len()
}

/// `o2` is `o` with only the signatures of functions in the tree changed.
pub open spec fn same_but_functions(o: Object, o2: Object) -> bool {
    &&& o2.name == o.name
    &&& o2.code == o.code
    &&& o2.data == o.data
    &&& o2.functions@.len() == o.functions@.len()
    &&& o2.subobjects@.len() == o.subobjects@.len()
}

/// The widest width that every call of `f` passes at position `j`, when `f`
/// is called with an argument there.
pub open spec fn caller_width(m: Map<u32, Seq<BitWidth>>, f: u32, j: int) -> Option<BitWidth> {
    if m.contains_key(f) && 0 <= j < m[f].len() {
        Some(m[f][j])
    } else {
        None
    }
}

/// A parameter type after demand narrowing. A full-width unsigned parameter
/// whose uses need fewer than 256 bits gets the widest of them, at least 32
/// bits. One that only comparisons keep at full width (`non_comparison`, the
/// widest of its other uses, is at most 64 bits) and to which every caller
/// passes at most 64 bits (`callers`) gets the widest of those, at least 32
/// bits: zero-extending it on entry keeps the comparisons of such values right.
pub open spec fn demand_narrowed_type(
    c: TypeConstraint,
    non_comparison: BitWidth,
    callers: Option<BitWidth>,
    t: Type,
) -> Type {
    if t == Type::Int(BitWidth::I256) && !c.is_signed && width_bits(c.max_width) < 256 {
        Type::Int(width_max(c.max_width, BitWidth::I32))
    } else {
        match callers {
            Some(w) => if t == Type::Int(BitWidth::I256) && !c.is_signed && width_bits(non_comparison) <= 64
                && width_bits(w) <= 64 {
                Type::Int(width_max(width_max(non_comparison, w), BitWidth::I32))
            } else {
                t
            },
            None => t,
        }
    }
}

/// The type demand narrowing gives parameter `j` of `f` in the object `o`.
pub open spec fn param_demand_type(t: TypeInference, o: Object, f: Function, j: int) -> Type {
    demand_narrowed_type(
        constraint_of(t@, f.parameters@[j].0.0),
        non_comparison_use_demand(t@, f.parameters@[j].0.0),
        caller_width(argument_widths(t@, o), f.id.0, j),
        f.parameters@[j].1,
    )
}

/// `o2` is `o` with the parameters narrowed by the use demands in `t`, through the
/// subobjects that have results.
pub open spec fn params_narrowed_by_demand(t: TypeInference, o: Object, o2: Object) -> bool
    decreases o,
{
    &&& same_but_functions(o, o2)
    &&& forall|i: int|
        0 <= i < o.functions@.len() ==> {
            let f = o.functions@[i];
            let f2 = #[trigger] o2.functions@[i];
            &&& same_but_parameters(f, f2)
            &&& forall|j: int|
                0 <= j < f.parameters@.len() ==> (#[trigger] f2.parameters@[j]).1 == param_demand_type(t, o, f, j)
        }
    &&& forall|i: int|
        0 <= i < o.subobjects@.len() ==> if i < t.sub_results().len() {
            params_narrowed_by_demand(t.sub_results()[i], o.subobjects@[i], #[trigger] o2.subobjects@[i])
        } else {
            o2.subobjects@[i] == o.subobjects@[i]
        }
}

/// Whether demand narrowing changes some parameter of `o`'s tree.
pub open spec fn demand_narrows_some(t: TypeInference, o: Object) -> bool
    decreases o,
{
    ||| exists|i: int, j: int|
        0 <= i < o.functions@.len() && 0 <= j < o.functions@[i].parameters@.len()
            && #[trigger] param_demand_type(t, o, o.functions@[i], j) != o.functions@[i].parameters@[j].1
    ||| exists|i: int|
        0 <= i < o.subobjects@.len() && i < t.sub_results().len() && demand_narrows_some(
            t.sub_results()[i],
            #[trigger] o.subobjects@[i],
        )
}

impl TypeInference {
    /// Narrows the parameters of one function by their use demands, with
    /// `widths` the widest widths its callers pass.
    fn narrow_params_by_demand(&self, widths: &BTreeMap<u32, Vec<BitWidth>>, function: &mut Function) -> (r: bool)
        ensures
            same_but_parameters(*old(function), *final(function)),
            forall|j: int|
                0 <= j < old(function).parameters@.len() ==> (#[trigger] final(function).parameters@[j]).1
                    == demand_narrowed_type(
                    constraint_of(self@, old(function).parameters@[j].0.0),
                    non_comparison_use_demand(self@, old(function).parameters@[j].0.0),
                    caller_width(widths_view(widths@), old(function).id.0, j),
                    old(function).parameters@[j].1,
                ),
            r == exists|j: int|
                0 <= j < old(function).parameters@.len() && #[trigger] demand_narrowed_type(
                    constraint_of(self@, old(function).parameters@[j].0.0),
                    non_comparison_use_demand(self@, old(function).parameters@[j].0.0),
                    caller_width(widths_view(widths@), old(function).id.0, j),
                    old(function).parameters@[j].1,
                ) != old(function).parameters@[j].1,
    {
        let ghost f0 = *function;
        let ghost m = widths_view(widths@);
        let called = widths.get(&function.id.0);
        let mut changed = false;
        let n = function.parameters.len();
        for j in 0..n
            invariant
                n == f0.parameters@.len(),
                m == widths_view(widths@),
                function.id == f0.id,
                called == (if widths@.contains_key(f0.id.0) {
                    Some(&widths@[f0.id.0])
                } else {
                    None
                }),
                same_but_parameters(f0, *function),
                forall|k: int|
                    0 <= k < j ==> (#[trigger] function.parameters@[k]).1 == demand_narrowed_type(
                        constraint_of(self@, f0.parameters@[k].0.0),
                        non_comparison_use_demand(self@, f0.parameters@[k].0.0),
                        caller_width(m, f0.id.0, k),
                        f0.parameters@[k].1,
                    ),
                forall|k: int| j <= k < n ==> #[trigger] function.parameters@[k] == f0.parameters@[k],
                changed == exists|k: int|
                    0 <= k < j && #[trigger] demand_narrowed_type(
                        constraint_of(self@, f0.parameters@[k].0.0),
                        non_comparison_use_demand(self@, f0.parameters@[k].0.0),
                        caller_width(m, f0.id.0, k),
                        f0.parameters@[k].1,
                    ) != f0.parameters@[k].1,
        {
            let (parameter_id, parameter_type) = function.parameters[j];
            let constraint = self.get(parameter_id);
            let ghost nt = demand_narrowed_type(
                constraint,
                non_comparison_use_demand(self@, parameter_id.0),
                caller_width(m, f0.id.0, j as int),
                parameter_type,
            );
            if parameter_type == Type::Int(BitWidth::I256) && !constraint.is_signed {
                if constraint.max_width.lt(BitWidth::I256) {
                    let clamped = constraint.max_width.max(BitWidth::I32);
                    function.parameters.set(j, (parameter_id, Type::Int(clamped)));
                    changed = true;
                    proof {
                        assert(nt != f0.parameters@[j as int].1);
                    }
                } else {
                    let other = self.non_comparison_demand(parameter_id);
                    if !BitWidth::I64.lt(other) {
                        if let Some(ws) = called {
                            if j < ws.len() && !BitWidth::I64.lt(ws[j]) {
                                let clamped = other.max(ws[j]).max(BitWidth::I32);
                                function.parameters.set(j, (parameter_id, Type::Int(clamped)));
                                changed = true;
                                proof {
                                    assert(m[f0.id.0] == ws@);
                                    assert(nt != f0.parameters@[j as int].1);
                                }
                            }
                        }
                    }
                }
            }
            proof {
                if called is Some {
                    assert(m[f0.id.0] == called->0@);
                }
                assert(function.parameters@[j as int].1 == nt);
            }
        }
        changed
    }

    /// Narrows function parameter types by the use demands: a full-width unsigned
    /// parameter whose uses, through transparent operations, all need fewer than 256
    /// bits gets the widest of them, at least 32 bits. One that only comparison uses
    /// keep at full width is narrowed to at most 64 bits when its other uses need at
    /// most 64 bits and every caller passes at most 64 bits. Any other use needing
    /// full width (storage, external calls) keeps the parameter as it is. Returns
    /// whether any parameter was narrowed.
    pub fn narrow_function_params(&self, object: &mut Object) -> (r: bool)
        ensures
            params_narrowed_by_demand(*self, *old(object), *final(object)),
            r == demand_narrows_some(*self, *old(object)),
        decreases *self,
    {
        let ghost o0 = *object;
        let widths = self.collect_argument_widths(object);
        let mut changed = false;
        let nf = object.functions.len();
        for i in 0..nf
            invariant
                nf == o0.functions@.len(),
                widths_view(widths@) == argument_widths(self@, o0),
                same_but_functions(o0, *object),
                object.subobjects == o0.subobjects,
                forall|k: int|
                    0 <= k < i ==> {
                        let f = o0.functions@[k];
                        let f2 = #[trigger] object.functions@[k];
                        &&& same_but_parameters(f, f2)
                        &&& forall|j: int|
                            0 <= j < f.parameters@.len() ==> (#[trigger] f2.parameters@[j]).1
                                == param_demand_type(*self, o0, f, j)
                    },
                forall|k: int| i <= k < nf ==> #[trigger] object.functions@[k] == o0.functions@[k],
                changed == exists|k: int, j: int|
                    0 <= k < i && 0 <= j < o0.functions@[k].parameters@.len()
                        && #[trigger] param_demand_type(*self, o0, o0.functions@[k], j)
                        != o0.functions@[k].parameters@[j].1,
        {
            let ghost fb = object.functions@[i as int];
            let c = self.narrow_params_by_demand(&widths, &mut object.functions[i]);
            proof {
                assert(fb == o0.functions@[i as int]);
                assert forall|j: int| 0 <= j < fb.parameters@.len() implies (#[trigger] object.functions@[i as int].parameters@[j]).1
                    == param_demand_type(*self, o0, fb, j) by {
                }
                let ghost m = widths_view(widths@);
                if c {
                    let j = choose|j: int|
                        0 <= j < fb.parameters@.len() && #[trigger] demand_narrowed_type(
                            constraint_of(self@, fb.parameters@[j].0.0),
                            non_comparison_use_demand(self@, fb.parameters@[j].0.0),
                            caller_width(m, fb.id.0, j),
                            fb.parameters@[j].1,
                        ) != fb.parameters@[j].1;
                    assert(param_demand_type(*self, o0, fb, j) != fb.parameters@[j].1);
                }
                if exists|j: int|
                    0 <= j < fb.parameters@.len() && #[trigger] param_demand_type(*self, o0, fb, j) != fb.parameters@[j].1 {
                    let j = choose|j: int|
                        0 <= j < fb.parameters@.len() && #[trigger] param_demand_type(*self, o0, fb, j) != fb.parameters@[j].1;
                    assert(demand_narrowed_type(
                        constraint_of(self@, fb.parameters@[j].0.0),
                        non_comparison_use_demand(self@, fb.parameters@[j].0.0),
                        caller_width(m, fb.id.0, j),
                        fb.parameters@[j].1,
                    ) != fb.parameters@[j].1);
                }
                assert(c == exists|j: int|
                    0 <= j < fb.parameters@.len() && #[trigger] param_demand_type(*self, o0, fb, j) != fb.parameters@[j].1);
            }
            changed = changed || c;
        }
        let ns = object.subobjects.len();
        let nsub = self.sub_inferences.len();
        let ghost own = changed;
        for i in 0..ns
            invariant
                ns == o0.subobjects@.len(),
                nsub == self.sub_results().len(),
                same_but_functions(o0, *object),
                forall|k: int|
                    0 <= k < nf ==> {
                        let f = o0.functions@[k];
                        let f2 = #[trigger] object.functions@[k];
                        &&& same_but_parameters(f, f2)
                        &&& forall|j: int|
                            0 <= j < f.parameters@.len() ==> (#[trigger] f2.parameters@[j]).1
                                == param_demand_type(*self, o0, f, j)
                    },
                nf == o0.functions@.len(),
                forall|k: int|
                    0 <= k < i ==> if k < nsub {
                        params_narrowed_by_demand(
                            self.sub_results()[k],
                            o0.subobjects@[k],
                            #[trigger] object.subobjects@[k],
                        )
                    } else {
                        object.subobjects@[k] == o0.subobjects@[k]
                    },
                forall|k: int| i <= k < ns ==> #[trigger] object.subobjects@[k] == o0.subobjects@[k],
                changed == (own || exists|k: int|
                    0 <= k < i && k < nsub && demand_narrows_some(
                        self.sub_results()[k],
                        #[trigger] o0.subobjects@[k],
                    )),
        {
            if i < nsub {
                proof {
                    assert(object.subobjects@[i as int] == o0.subobjects@[i as int]);
                    assert(decreases_to!(*self => self.sub_inferences));
                    assert(decreases_to!(self.sub_inferences => self.sub_inferences@));
                    assert(decreases_to!(self.sub_inferences@ => self.sub_inferences@[i as int]));
                }
                let c = self.sub_inferences[i].narrow_function_params(&mut object.subobjects[i]);
                changed = changed || c;
            }
        }
        changed
    }
}

} // verus!

verus! {

/// The call a statement makes, when it is one: `let .. = f(args)` or `f(args)`.
pub open spec fn statement_call(st: Statement) -> Option<(FunctionId, Seq<Value>)> {
    match st {
        Statement::Let { value: Expression::Call { function, arguments }, .. } => Some(
            (function, arguments@),
        ),
        Statement::Expression(Expression::Call { function, arguments }) => Some(
            (function, arguments@),
        ),
        _ => None,
    }
}

/// Merges the minimum widths of the arguments `args[i..]` of one call into the
/// widest widths seen per argument position.
pub open spec fn merge_argument_widths(
    s: InferenceState,
    ws: Seq<BitWidth>,
    args: Seq<Value>,
    i: int,
) -> Seq<BitWidth>
    decreases args.len() - i,
{
    if i < 0 || i >= args.len() {
        ws
    } else {
        let w = constraint_of(s, args[i].id.0).min_width;
        let ws1 = if i < ws.len() {
            ws.update(i, width_max(ws[i], w))
        } else {
            ws.push(w)
        };
        merge_argument_widths(s, ws1, args, i + 1)
    }
}

/// A map of width lists viewed as sequences.
pub open spec fn widths_view(m: Map<u32, Vec<BitWidth>>) -> Map<u32, Seq<BitWidth>> {
    m.map_values(|v: Vec<BitWidth>| v@)
}

/// The widths recorded for calls of `f`, none when it is not called.
pub open spec fn widths_of(m: Map<u32, Seq<BitWidth>>, f: u32) -> Seq<BitWidth> {
    if m.contains_key(f) {
        m[f]
    } else {
        Seq::empty()
    }
}

/// Records the argument widths of the call a statement makes.
pub open spec fn argument_widths_step(s: InferenceState, m: Map<u32, Seq<BitWidth>>, st: Statement) -> Map<
    u32,
    Seq<BitWidth>,
> {
    match statement_call(st) {
        Some((f, args)) => m.insert(f.0, merge_argument_widths(s, widths_of(m, f.0), args, 0)),
        None => m,
    }
}

/// Gathers, per called function, the widest minimum width passed at each argument
/// position.
pub struct ArgumentWidths<'a> {
    inference: &'a TypeInference,
    widths: BTreeMap<u32, Vec<BitWidth>>,
}

/// A copy of a list of widths.
fn copy_widths(ws: &Vec<BitWidth>) -> (r: Vec<BitWidth>)
    ensures
        r@ == ws@,
{
    let mut r: Vec<BitWidth> = Vec::new();
    let n = ws.len();
    for i in 0..n
        invariant
            n == ws@.len(),
            r@ == ws@.take(i as int),
    {
        r.push(ws[i]);
        proof {
            assert(ws@.take(i + 1) =~= ws@.take(i as int).push(ws@[i as int]));
        }
    }
    proof {
        assert(ws@.take(n as int) =~= ws@);
    }
    r
}

impl<'a> StatementVisitor for ArgumentWidths<'a> {
    type State = (InferenceState, Map<u32, Seq<BitWidth>>);

    closed spec fn state(&self) -> (InferenceState, Map<u32, Seq<BitWidth>>) {
        (self.inference@, widths_view(self.widths@))
    }

    open spec fn step(st: (InferenceState, Map<u32, Seq<BitWidth>>), s: Statement) -> (
        InferenceState,
        Map<u32, Seq<BitWidth>>,
    ) {
        (st.0, argument_widths_step(st.0, st.1, s))
    }

    open spec fn progress(
        a: (InferenceState, Map<u32, Seq<BitWidth>>),
        b: (InferenceState, Map<u32, Seq<BitWidth>>),
    ) -> bool {
        a.0 == b.0
    }

    proof fn lemma_progress_reflexive(a: (InferenceState, Map<u32, Seq<BitWidth>>)) {
    }

    proof fn lemma_progress_transitive(
        a: (InferenceState, Map<u32, Seq<BitWidth>>),
        b: (InferenceState, Map<u32, Seq<BitWidth>>),
        c: (InferenceState, Map<u32, Seq<BitWidth>>),
    ) {
    }

    fn visit(&mut self, s: &Statement) {
        let call = match s {
            Statement::Let { value: Expression::Call { function, arguments }, .. } => Some(
                (function, arguments),
            ),
            Statement::Expression(Expression::Call { function, arguments }) => Some(
                (function, arguments),
            ),
            _ => None,
        };
        if let Some((fid, arguments)) = call {
            let mut ws = match self.widths.get(&fid.0) {
                Some(v) => copy_widths(v),
                None => Vec::new(),
            };
            let ghost m0 = widths_view(self.widths@);
            let ghost ws0 = ws@;
            let n = arguments.len();
            for i in 0..n
                invariant
                    n == arguments@.len(),
                    ws@.len() >= i,
                    merge_argument_widths(self.inference@, ws@, arguments@, i as int)
                        == merge_argument_widths(self.inference@, ws0, arguments@, 0),
            {
                let arg_width = self.inference.get(arguments[i].id).min_width;
                if i < ws.len() {
                    let w = ws[i].max(arg_width);
                    ws.set(i, w);
                } else {
                    ws.push(arg_width);
                }
            }
            self.widths.insert(fid.0, ws);
            proof {
                assert(widths_view(self.widths@) =~= m0.insert(
                    fid.0,
                    merge_argument_widths(self.inference@, ws0, arguments@, 0),
                ));
            }
        }
    }
}

/// The widest argument widths per called function over an object's code and
/// function bodies.
pub open spec fn argument_widths(s: InferenceState, o: Object) -> Map<u32, Seq<BitWidth>> {
    walk_bodies::<ArgumentWidths<'static>>(
        walk_statements::<ArgumentWidths<'static>>((s, Map::empty()), o.code.statements@, 0),
        o.functions@,
        0,
    ).1
}

/// A type after narrowing at position `j` of function `f` by the widths `m`
/// records: a full-width type whose recorded width is narrower than 256 bits gets
/// that width, at least 32 bits. For parameters the widths are what callers pass;
/// for returns, what callers need.
pub open spec fn narrowed_at_position(m: Map<u32, Seq<BitWidth>>, f: u32, j: int, t: Type) -> Type {
    if m.contains_key(f) && t == Type::Int(BitWidth::I256) && j < m[f].len() && width_bits(m[f][j])
        < 256 {
        Type::Int(width_max(m[f][j], BitWidth::I32))
    } else {
        t
    }
}

/// `o2` is `o` with the parameters narrowed by what callers pass, through the
/// subobjects that have results.
pub open spec fn params_narrowed_by_callers(t: TypeInference, o: Object, o2: Object) -> bool
    decreases o,
{
    &&& same_but_functions(o, o2)
    &&& forall|i: int|
        0 <= i < o.functions@.len() ==> {
            let f = o.functions@[i];
            let f2 = #[trigger] o2.functions@[i];
            &&& same_but_parameters(f, f2)
            &&& forall|j: int|
                0 <= j < f.parameters@.len() ==> (#[trigger] f2.parameters@[j]).1 == narrowed_at_position(
                    argument_widths(t@, o),
                    f.id.0,
                    j,
                    f.parameters@[j].1,
                )
        }
    &&& forall|i: int|
        0 <= i < o.subobjects@.len() ==> if i < t.sub_results().len() {
            params_narrowed_by_callers(t.sub_results()[i], o.subobjects@[i], #[trigger] o2.subobjects@[i])
        } else {
            o2.subobjects@[i] == o.subobjects@[i]
        }
}

/// Whether caller narrowing changes some parameter of `o`'s tree.
pub open spec fn callers_narrow_some(t: TypeInference, o: Object) -> bool
    decreases o,
{
    ||| exists|i: int, j: int|
        0 <= i < o.functions@.len() && 0 <= j < o.functions@[i].parameters@.len()
            && #[trigger] narrowed_at_position(
            argument_widths(t@, o),
            o.functions@[i].id.0,
            j,
            o.functions@[i].parameters@[j].1,
        ) != o.functions@[i].parameters@[j].1
    ||| exists|i: int|
        0 <= i < o.subobjects@.len() && i < t.sub_results().len() && callers_narrow_some(
            t.sub_results()[i],
            #[trigger] o.subobjects@[i],
        )
}

} // verus!

verus! {

/// Narrows the parameters of one function by the widest widths its callers pass.
fn narrow_params_by_callers(widths: &BTreeMap<u32, Vec<BitWidth>>, function: &mut Function) -> (r: bool)
    ensures
        same_but_parameters(*old(function), *final(function)),
        forall|j: int|
            0 <= j < old(function).parameters@.len() ==> (#[trigger] final(function).parameters@[j]).1
                == narrowed_at_position(
                widths_view(widths@),
                old(function).id.0,
                j,
                old(function).parameters@[j].1,
            ),
        r == exists|j: int|
            0 <= j < old(function).parameters@.len() && #[trigger] narrowed_at_position(
                widths_view(widths@),
                old(function).id.0,
                j,
                old(function).parameters@[j].1,
            ) != old(function).parameters@[j].1,
{
    let ghost f0 = *function;
    let ghost m = widths_view(widths@);
    let mut changed = false;
    let called = widths.get(&function.id.0);
    let n = function.parameters.len();
    for j in 0..n
        invariant
            n == f0.parameters@.len(),
            m == widths_view(widths@),
            function.id == f0.id,
            called == (if widths@.contains_key(f0.id.0) {
                Some(&widths@[f0.id.0])
            } else {
                None
            }),
            same_but_parameters(f0, *function),
            forall|k: int|
                0 <= k < j ==> (#[trigger] function.parameters@[k]).1 == narrowed_at_position(
                    m,
                    f0.id.0,
                    k,
                    f0.parameters@[k].1,
                ),
            forall|k: int| j <= k < n ==> #[trigger] function.parameters@[k] == f0.parameters@[k],
            changed == exists|k: int|
                0 <= k < j && #[trigger] narrowed_at_position(m, f0.id.0, k, f0.parameters@[k].1)
                    != f0.parameters@[k].1,
    {
        let (parameter_id, parameter_type) = function.parameters[j];
        let ghost nt = narrowed_at_position(m, f0.id.0, j as int, parameter_type);
        if let Some(ws) = called {
            if parameter_type == Type::Int(BitWidth::I256) && j < ws.len() && ws[j].lt(BitWidth::I256) {
                let clamped = ws[j].max(BitWidth::I32);
                function.parameters.set(j, (parameter_id, Type::Int(clamped)));
                changed = true;
                proof {
                    assert(nt != f0.parameters@[j as int].1);
                }
            }
        }
        proof {
            assert(function.parameters@[j as int].1 == nt);
        }
    }
    changed
}

impl TypeInference {
    /// The widest argument widths per called function in an object.
    fn collect_argument_widths(&self, object: &Object) -> (r: BTreeMap<u32, Vec<BitWidth>>)
        ensures
            widths_view(r@) == argument_widths(self@, *object),
    {
        let mut visitor = ArgumentWidths { inference: self, widths: BTreeMap::new() };
        proof {
            assert(widths_view(visitor.widths@) =~= Map::empty());
        }
        visit_statements(&mut visitor, &object.code.statements);
        visit_bodies(&mut visitor, &object.functions);
        visitor.widths
    }

    /// Narrows function parameters by what their callers pass: a full-width
    /// parameter of a called function that every call site passes a value narrower
    /// than 256 bits gets the widest of those minimum widths, at least 32 bits.
    /// Returns whether any parameter was narrowed.
    pub fn narrow_function_params_from_callers(&self, object: &mut Object) -> (r: bool)
        ensures
            params_narrowed_by_callers(*self, *old(object), *final(object)),
            r == callers_narrow_some(*self, *old(object)),
        decreases *self,
    {
        let ghost o0 = *object;
        let widths = self.collect_argument_widths(object);
        let ghost m = argument_widths(self@, o0);
        let mut changed = false;
        let nf = object.functions.len();
        for i in 0..nf
            invariant
                nf == o0.functions@.len(),
                m == widths_view(widths@),
                m == argument_widths(self@, o0),
                same_but_functions(o0, *object),
                object.subobjects == o0.subobjects,
                forall|k: int|
                    0 <= k < i ==> {
                        let f = o0.functions@[k];
                        let f2 = #[trigger] object.functions@[k];
                        &&& same_but_parameters(f, f2)
                        &&& forall|j: int|
                            0 <= j < f.parameters@.len() ==> (#[trigger] f2.parameters@[j]).1
                                == narrowed_at_position(m, f.id.0, j, f.parameters@[j].1)
                    },
                forall|k: int| i <= k < nf ==> #[trigger] object.functions@[k] == o0.functions@[k],
                changed == exists|k: int, j: int|
                    0 <= k < i && 0 <= j < o0.functions@[k].parameters@.len()
                        && #[trigger] narrowed_at_position(
                        m,
                        o0.functions@[k].id.0,
                        j,
                        o0.functions@[k].parameters@[j].1,
                    ) != o0.functions@[k].parameters@[j].1,
        {
            let c = narrow_params_by_callers(&widths, &mut object.functions[i]);
            changed = changed || c;
        }
        let ns = object.subobjects.len();
        let nsub = self.sub_inferences.len();
        let ghost own = changed;
        for i in 0..ns
            invariant
                ns == o0.subobjects@.len(),
                nsub == self.sub_results().len(),
                nf == o0.functions@.len(),
                m == argument_widths(self@, o0),
                same_but_functions(o0, *object),
                forall|k: int|
                    0 <= k < nf ==> {
                        let f = o0.functions@[k];
                        let f2 = #[trigger] object.functions@[k];
                        &&& same_but_parameters(f, f2)
                        &&& forall|j: int|
                            0 <= j < f.parameters@.len() ==> (#[trigger] f2.parameters@[j]).1
                                == narrowed_at_position(m, f.id.0, j, f.parameters@[j].1)
                    },
                forall|k: int|
                    0 <= k < i ==> if k < nsub {
                        params_narrowed_by_callers(
                            self.sub_results()[k],
                            o0.subobjects@[k],
                            #[trigger] object.subobjects@[k],
                        )
                    } else {
                        object.subobjects@[k] == o0.subobjects@[k]
                    },
                forall|k: int| i <= k < ns ==> #[trigger] object.subobjects@[k] == o0.subobjects@[k],
                changed == (own || exists|k: int|
                    0 <= k < i && k < nsub && callers_narrow_some(
                        self.sub_results()[k],
                        #[trigger] o0.subobjects@[k],
                    )),
        {
            if i < nsub {
                proof {
                    assert(decreases_to!(*self => self.sub_inferences));
                    assert(decreases_to!(self.sub_inferences => self.sub_inferences@));
                    assert(decreases_to!(self.sub_inferences@ => self.sub_inferences@[i as int]));
                }
                let c = self.sub_inferences[i].narrow_function_params_from_callers(&mut object.subobjects[i]);
                changed = changed || c;
            }
        }
        changed
    }
}

} // verus!

verus! {

/// Lists of ids viewed as sequences.
pub open spec fn id_lists_view(v: Seq<Vec<ValueId>>) -> Seq<Seq<ValueId>> {
    v.map_values(|l: Vec<ValueId>| l@)
}

/// Appends the values a `leave` returns to the return paths of their positions.
pub open spec fn leave_paths_step(ps: Seq<Seq<ValueId>>, st: Statement) -> Seq<Seq<ValueId>> {
    match st {
        Statement::Leave { return_values } => Seq::new(
            ps.len(),
            |i: int|
                if i < return_values@.len() {
                    ps[i].push(return_values@[i].id)
                } else {
                    ps[i]
                },
        ),
        _ => ps,
    }
}

/// Gathers, per return position, the ids that every early `leave` returns.
pub struct LeavePaths {
    paths: Vec<Vec<ValueId>>,
}

impl StatementVisitor for LeavePaths {
    type State = Seq<Seq<ValueId>>;

    closed spec fn state(&self) -> Seq<Seq<ValueId>> {
        id_lists_view(self.paths@)
    }

    open spec fn step(st: Seq<Seq<ValueId>>, s: Statement) -> Seq<Seq<ValueId>> {
        leave_paths_step(st, s)
    }

    open spec fn progress(a: Seq<Seq<ValueId>>, b: Seq<Seq<ValueId>>) -> bool {
        a.len() == b.len()
    }

    proof fn lemma_progress_reflexive(a: Seq<Seq<ValueId>>) {
    }

    proof fn lemma_progress_transitive(
        a: Seq<Seq<ValueId>>,
        b: Seq<Seq<ValueId>>,
        c: Seq<Seq<ValueId>>,
    ) {
    }

    fn visit(&mut self, s: &Statement) {
        if let Statement::Leave { return_values } = s {
            let ghost ps0 = id_lists_view(self.paths@);
            let n = return_values.len();
            for i in 0..n
                invariant
                    n == return_values@.len(),
                    self.paths@.len() == ps0.len(),
                    forall|k: int|
                        0 <= k < ps0.len() ==> (#[trigger] self.paths@[k])@ == if k < i {
                            ps0[k].push(return_values@[k].id)
                        } else {
                            ps0[k]
                        },
            {
                if i < self.paths.len() {
                    let ghost before = self.paths@;
                    let mut slot: Vec<ValueId> = Vec::new();
                    std::mem::swap(&mut slot, &mut self.paths[i]);
                    slot.push(return_values[i].id);
                    std::mem::swap(&mut slot, &mut self.paths[i]);
                    proof {
                        assert forall|k: int| 0 <= k < ps0.len() && k != i implies #[trigger] self.paths@[k] == before[k] by {
                        }
                    }
                }
            }
            proof {
                assert(id_lists_view(self.paths@) =~= leave_paths_step(ps0, *s));
            }
        }
    }
}

/// The return paths of a function at the start of the walk: each position holds
/// its fall-through return value, when there is one.
pub open spec fn initial_return_paths(f: Function) -> Seq<Seq<ValueId>> {
    Seq::new(
        f.returns@.len(),
        |i: int|
            if i < f.return_values@.len() {
                seq![f.return_values@[i]]
            } else {
                Seq::empty()
            },
    )
}

/// Per return position, the ids that a function can return there: the
/// fall-through value, then the value of each `leave`, in walk order.
pub open spec fn return_paths(f: Function) -> Seq<Seq<ValueId>> {
    walk_statements::<LeavePaths>(initial_return_paths(f), f.body.statements@, 0)
}

/// Whether one of `ids` is known to be signed.
pub open spec fn any_signed(s: InferenceState, ids: Seq<ValueId>) -> bool {
    exists|k: int| 0 <= k < ids.len() && (#[trigger] constraint_of(s, ids[k].0)).is_signed
}

/// A return type after forward narrowing: a full-width return whose values on every
/// path are unsigned and narrower than 256 bits gets the widest of their minimum
/// widths, at least 32 bits.
pub open spec fn forward_narrowed_return(s: InferenceState, ids: Seq<ValueId>, t: Type) -> Type {
    let w = widest_min_width(s, ids, 0, BitWidth::I1);
    if t == Type::Int(BitWidth::I256) && ids.len() > 0 && !any_signed(s, ids) && width_bits(w) < 256 {
        Type::Int(width_max(w, BitWidth::I32))
    } else {
        t
    }
}

/// `o2` is `o` with the return types narrowed by the forward widths of every
/// return path, through the subobjects that have results.
pub open spec fn returns_narrowed_forward(t: TypeInference, o: Object, o2: Object) -> bool
    decreases o,
{
    &&& same_but_functions(o, o2)
    &&& forall|i: int|
        0 <= i < o.functions@.len() ==> {
            let f = o.functions@[i];
            let f2 = #[trigger] o2.functions@[i];
            &&& same_but_returns(f, f2)
            &&& forall|j: int|
                0 <= j < f.returns@.len() ==> #[trigger] f2.returns@[j] == forward_narrowed_return(
                    t@,
                    return_paths(f)[j],
                    f.returns@[j],
                )
        }
    &&& forall|i: int|
        0 <= i < o.subobjects@.len() ==> if i < t.sub_results().len() {
            returns_narrowed_forward(t.sub_results()[i], o.subobjects@[i], #[trigger] o2.subobjects@[i])
        } else {
            o2.subobjects@[i] == o.subobjects@[i]
        }
}

/// Whether forward narrowing changes some return type of `o`'s tree.
pub open spec fn forward_narrows_some_return(t: TypeInference, o: Object) -> bool
    decreases o,
{
    ||| exists|i: int, j: int|
        0 <= i < o.functions@.len() && 0 <= j < o.functions@[i].returns@.len()
            && #[trigger] forward_narrowed_return(
            t@,
            return_paths(o.functions@[i])[j],
            o.functions@[i].returns@[j],
        ) != o.functions@[i].returns@[j]
    ||| exists|i: int|
        0 <= i < o.subobjects@.len() && i < t.sub_results().len() && forward_narrows_some_return(
            t.sub_results()[i],
            #[trigger] o.subobjects@[i],
        )
}

impl TypeInference {
    /// The widest minimum width of the ids, and whether one is signed.
    fn path_width(&self, ids: &Vec<ValueId>) -> (r: (BitWidth, bool))
        ensures
            r.0 == widest_min_width(self@, ids@, 0, BitWidth::I1),
            r.1 == any_signed(self@, ids@),
    {
        let mut width = BitWidth::I1;
        let mut signed = false;
        let n = ids.len();
        for k in 0..n
            invariant
                n == ids@.len(),
                widest_min_width(self@, ids@, k as int, width) == widest_min_width(
                    self@,
                    ids@,
                    0,
                    BitWidth::I1,
                ),
                signed == exists|m: int| 0 <= m < k && (#[trigger] constraint_of(self@, ids@[m].0)).is_signed,
        {
            let c = self.get(ids[k]);
            width = width.max(c.min_width);
            signed = signed || c.is_signed;
        }
        (width, signed)
    }

    /// Narrows the return types of one function by the forward widths of its
    /// return paths.
    fn narrow_returns_forward(&self, function: &mut Function) -> (r: bool)
        ensures
            same_but_returns(*old(function), *final(function)),
            forall|j: int|
                0 <= j < old(function).returns@.len() ==> #[trigger] final(function).returns@[j]
                    == forward_narrowed_return(self@, return_paths(*old(function))[j], old(function).returns@[j]),
            r == exists|j: int|
                0 <= j < old(function).returns@.len() && #[trigger] forward_narrowed_return(
                    self@,
                    return_paths(*old(function))[j],
                    old(function).returns@[j],
                ) != old(function).returns@[j],
    {
        let ghost f0 = *function;
        let num_returns = function.returns.len();
        let mut paths: Vec<Vec<ValueId>> = Vec::new();
        for i in 0..num_returns
            invariant
                num_returns == f0.returns@.len(),
                *function == f0,
                id_lists_view(paths@) == initial_return_paths(f0).take(i as int),
        {
            let mut slot: Vec<ValueId> = Vec::new();
            if i < function.return_values.len() {
                slot.push(function.return_values[i]);
            }
            proof {
                assert(slot@ =~= initial_return_paths(f0)[i as int]);
            }
            let ghost before = paths@;
            let ghost slot_view = slot@;
            paths.push(slot);
            proof {
                assert(id_lists_view(paths@) =~= id_lists_view(before).push(slot_view));
                assert(initial_return_paths(f0).take(i + 1) =~= initial_return_paths(f0).take(
                    i as int,
                ).push(initial_return_paths(f0)[i as int]));
            }
        }
        proof {
            assert(id_lists_view(paths@) =~= initial_return_paths(f0));
        }
        let mut visitor = LeavePaths { paths };
        visit_statements(&mut visitor, &function.body.statements);
        let paths = visitor.paths;
        let ghost ps = return_paths(f0);
        let mut changed = false;
        for j in 0..num_returns
            invariant
                num_returns == f0.returns@.len(),
                id_lists_view(paths@) == ps,
                ps == return_paths(f0),
                ps.len() == num_returns,
                same_but_returns(f0, *function),
                forall|k: int|
                    0 <= k < j ==> #[trigger] function.returns@[k] == forward_narrowed_return(
                        self@,
                        ps[k],
                        f0.returns@[k],
                    ),
                forall|k: int| j <= k < num_returns ==> #[trigger] function.returns@[k] == f0.returns@[k],
                changed == exists|k: int|
                    0 <= k < j && #[trigger] forward_narrowed_return(self@, ps[k], f0.returns@[k])
                        != f0.returns@[k],
        {
            let ret_ty = function.returns[j];
            let ghost nt = forward_narrowed_return(self@, ps[j as int], ret_ty);
            if ret_ty == Type::Int(BitWidth::I256) && paths[j].len() > 0 {
                let (width, signed) = self.path_width(&paths[j]);
                if !signed && width.lt(BitWidth::I256) {
                    let clamped = width.max(BitWidth::I32);
                    function.returns.set(j, Type::Int(clamped));
                    changed = true;
                }
            }
            proof {
                assert(function.returns@[j as int] == nt);
            }
        }
        changed
    }

    /// Narrows function return types by forward widths. A function returns through
    /// its fall-through return values and through every early `leave`, each with its
    /// own values; a full-width return position whose values on all paths are
    /// unsigned and narrower than 256 bits gets the widest of them, at least 32
    /// bits. Returns whether any return type was narrowed.
    pub fn narrow_function_returns(&self, object: &mut Object) -> (r: bool)
        ensures
            returns_narrowed_forward(*self, *old(object), *final(object)),
            r == forward_narrows_some_return(*self, *old(object)),
        decreases *self,
    {
        let ghost o0 = *object;
        let mut changed = false;
        let nf = object.functions.len();
        for i in 0..nf
            invariant
                nf == o0.functions@.len(),
                same_but_functions(o0, *object),
                object.subobjects == o0.subobjects,
                forall|k: int|
                    0 <= k < i ==> {
                        let f = o0.functions@[k];
                        let f2 = #[trigger] object.functions@[k];
                        &&& same_but_returns(f, f2)
                        &&& forall|j: int|
                            0 <= j < f.returns@.len() ==> #[trigger] f2.returns@[j]
                                == forward_narrowed_return(self@, return_paths(f)[j], f.returns@[j])
                    },
                forall|k: int| i <= k < nf ==> #[trigger] object.functions@[k] == o0.functions@[k],
                changed == exists|k: int, j: int|
                    0 <= k < i && 0 <= j < o0.functions@[k].returns@.len()
                        && #[trigger] forward_narrowed_return(
                        self@,
                        return_paths(o0.functions@[k])[j],
                        o0.functions@[k].returns@[j],
                    ) != o0.functions@[k].returns@[j],
        {
            let c = self.narrow_returns_forward(&mut object.functions[i]);
            changed = changed || c;
        }
        let ns = object.subobjects.len();
        let nsub = self.sub_inferences.len();
        let ghost own = changed;
        for i in 0..ns
            invariant
                ns == o0.subobjects@.len(),
                nsub == self.sub_results().len(),
                nf == o0.functions@.len(),
                same_but_functions(o0, *object),
                forall|k: int|
                    0 <= k < nf ==> {
                        let f = o0.functions@[k];
                        let f2 = #[trigger] object.functions@[k];
                        &&& same_but_returns(f, f2)
                        &&& forall|j: int|
                            0 <= j < f.returns@.len() ==> #[trigger] f2.returns@[j]
                                == forward_narrowed_return(self@, return_paths(f)[j], f.returns@[j])
                    },
                forall|k: int|
                    0 <= k < i ==> if k < nsub {
                        returns_narrowed_forward(
                            self.sub_results()[k],
                            o0.subobjects@[k],
                            #[trigger] object.subobjects@[k],
                        )
                    } else {
                        object.subobjects@[k] == o0.subobjects@[k]
                    },
                forall|k: int| i <= k < ns ==> #[trigger] object.subobjects@[k] == o0.subobjects@[k],
                changed == (own || exists|k: int|
                    0 <= k < i && k < nsub && forward_narrows_some_return(
                        self.sub_results()[k],
                        #[trigger] o0.subobjects@[k],
                    )),
        {
            if i < nsub {
                proof {
                    assert(decreases_to!(*self => self.sub_inferences));
                    assert(decreases_to!(self.sub_inferences => self.sub_inferences@));
                    assert(decreases_to!(self.sub_inferences@ => self.sub_inferences@[i as int]));
                }
                let c = self.sub_inferences[i].narrow_function_returns(&mut object.subobjects[i]);
                changed = changed || c;
            }
        }
        changed
    }
}

} // verus!

verus! {

/// Merges the use demands of the bindings `bs[i..]` of one call into the widest
/// demands seen per return position, padding new positions with one bit.
pub open spec fn merge_return_demands(
    s: InferenceState,
    ws: Seq<BitWidth>,
    bs: Seq<ValueId>,
    i: int,
) -> Seq<BitWidth>
    decreases bs.len() - i,
{
    if i < 0 || i >= bs.len() {
        ws
    } else {
        let d = use_demand(s, bs[i].0);
        let ws1 = if i < ws.len() {
            ws
        } else {
            ws.push(BitWidth::I1)
        };
        merge_return_demands(s, ws1.update(i, width_max(ws1[i], d)), bs, i + 1)
    }
}

/// Records the use demands of the values that a call statement binds.
pub open spec fn return_demands_step(s: InferenceState, m: Map<u32, Seq<BitWidth>>, st: Statement) -> Map<
    u32,
    Seq<BitWidth>,
> {
    match st {
        Statement::Let { bindings, value: Expression::Call { function, .. } } => if bindings.len()
            > 0 {
            m.insert(function.0, merge_return_demands(s, widths_of(m, function.0), bindings@, 0))
        } else {
            m
        },
        _ => m,
    }
}

/// Gathers, per called function, the widest use demand of each returned value.
pub struct ReturnDemands<'a> {
    inference: &'a TypeInference,
    demands: BTreeMap<u32, Vec<BitWidth>>,
}

impl<'a> StatementVisitor for ReturnDemands<'a> {
    type State = (InferenceState, Map<u32, Seq<BitWidth>>);

    closed spec fn state(&self) -> (InferenceState, Map<u32, Seq<BitWidth>>) {
        (self.inference@, widths_view(self.demands@))
    }

    open spec fn step(st: (InferenceState, Map<u32, Seq<BitWidth>>), s: Statement) -> (
        InferenceState,
        Map<u32, Seq<BitWidth>>,
    ) {
        (st.0, return_demands_step(st.0, st.1, s))
    }

    open spec fn progress(
        a: (InferenceState, Map<u32, Seq<BitWidth>>),
        b: (InferenceState, Map<u32, Seq<BitWidth>>),
    ) -> bool {
        a.0 == b.0
    }

    proof fn lemma_progress_reflexive(a: (InferenceState, Map<u32, Seq<BitWidth>>)) {
    }

    proof fn lemma_progress_transitive(
        a: (InferenceState, Map<u32, Seq<BitWidth>>),
        b: (InferenceState, Map<u32, Seq<BitWidth>>),
        c: (InferenceState, Map<u32, Seq<BitWidth>>),
    ) {
    }

    fn visit(&mut self, s: &Statement) {
        if let Statement::Let { bindings, value: Expression::Call { function, .. } } = s {
            if bindings.len() > 0 {
                let mut entry = match self.demands.get(&function.0) {
                    Some(v) => copy_widths(v),
                    None => Vec::new(),
                };
                let ghost m0 = widths_view(self.demands@);
                let ghost e0 = entry@;
                let n = bindings.len();
                for i in 0..n
                    invariant
                        n == bindings@.len(),
                        entry@.len() >= i,
                        merge_return_demands(self.inference@, entry@, bindings@, i as int)
                            == merge_return_demands(self.inference@, e0, bindings@, 0),
                {
                    let demand = self.inference.use_demand_width(bindings[i]);
                    if entry.len() <= i {
                        entry.push(BitWidth::I1);
                    }
                    let w = entry[i].max(demand);
                    entry.set(i, w);
                }
                self.demands.insert(function.0, entry);
                proof {
                    assert(widths_view(self.demands@) =~= m0.insert(
                        function.0,
                        merge_return_demands(self.inference@, e0, bindings@, 0),
                    ));
                }
            }
        }
    }
}

/// The widest use demand per called function and returned position, over an
/// object's code and function bodies.
pub open spec fn return_demands(s: InferenceState, o: Object) -> Map<u32, Seq<BitWidth>> {
    walk_bodies::<ReturnDemands<'static>>(
        walk_statements::<ReturnDemands<'static>>((s, Map::empty()), o.code.statements@, 0),
        o.functions@,
        0,
    ).1
}

/// `o2` is `o` with the return types narrowed by what the callers need, through
/// the subobjects that have results.
pub open spec fn returns_narrowed_by_demand(t: TypeInference, o: Object, o2: Object) -> bool
    decreases o,
{
    &&& same_but_functions(o, o2)
    &&& forall|i: int|
        0 <= i < o.functions@.len() ==> {
            let f = o.functions@[i];
            let f2 = #[trigger] o2.functions@[i];
            &&& same_but_returns(f, f2)
            &&& forall|j: int|
                0 <= j < f.returns@.len() ==> #[trigger] f2.returns@[j] == narrowed_at_position(
                    return_demands(t@, o),
                    f.id.0,
                    j,
                    f.returns@[j],
                )
        }
    &&& forall|i: int|
        0 <= i < o.subobjects@.len() ==> if i < t.sub_results().len() {
            returns_narrowed_by_demand(t.sub_results()[i], o.subobjects@[i], #[trigger] o2.subobjects@[i])
        } else {
            o2.subobjects@[i] == o.subobjects@[i]
        }
}

/// Whether demand narrowing changes some return type of `o`'s tree.
pub open spec fn demand_narrows_some_return(t: TypeInference, o: Object) -> bool
    decreases o,
{
    ||| exists|i: int, j: int|
        0 <= i < o.functions@.len() && 0 <= j < o.functions@[i].returns@.len()
            && #[trigger] narrowed_at_position(
            return_demands(t@, o),
            o.functions@[i].id.0,
            j,
            o.functions@[i].returns@[j],
        ) != o.functions@[i].returns@[j]
    ||| exists|i: int|
        0 <= i < o.subobjects@.len() && i < t.sub_results().len() && demand_narrows_some_return(
            t.sub_results()[i],
            #[trigger] o.subobjects@[i],
        )
}

/// Narrows the return types of one function by the widths recorded for it.
fn narrow_returns_at_positions(m: &BTreeMap<u32, Vec<BitWidth>>, function: &mut Function) -> (r: bool)
    ensures
        same_but_returns(*old(function), *final(function)),
        forall|j: int|
            0 <= j < old(function).returns@.len() ==> #[trigger] final(function).returns@[j]
                == narrowed_at_position(widths_view(m@), old(function).id.0, j, old(function).returns@[j]),
        r == exists|j: int|
            0 <= j < old(function).returns@.len() && #[trigger] narrowed_at_position(
                widths_view(m@),
                old(function).id.0,
                j,
                old(function).returns@[j],
            ) != old(function).returns@[j],
{
    let ghost f0 = *function;
    let ghost wm = widths_view(m@);
    let mut changed = false;
    let demands = m.get(&function.id.0);
    let n = function.returns.len();
    for j in 0..n
        invariant
            n == f0.returns@.len(),
            wm == widths_view(m@),
            function.id == f0.id,
            demands == (if m@.contains_key(f0.id.0) {
                Some(&m@[f0.id.0])
            } else {
                None
            }),
            same_but_returns(f0, *function),
            forall|k: int|
                0 <= k < j ==> #[trigger] function.returns@[k] == narrowed_at_position(
                    wm,
                    f0.id.0,
                    k,
                    f0.returns@[k],
                ),
            forall|k: int| j <= k < n ==> #[trigger] function.returns@[k] == f0.returns@[k],
            changed == exists|k: int|
                0 <= k < j && #[trigger] narrowed_at_position(wm, f0.id.0, k, f0.returns@[k])
                    != f0.returns@[k],
    {
        let ret_ty = function.returns[j];
        let ghost nt = narrowed_at_position(wm, f0.id.0, j as int, ret_ty);
        if let Some(ds) = demands {
            if ret_ty == Type::Int(BitWidth::I256) && j < ds.len() && ds[j].lt(BitWidth::I256) {
                let clamped = ds[j].max(BitWidth::I32);
                function.returns.set(j, Type::Int(clamped));
                changed = true;
            }
        }
        proof {
            assert(function.returns@[j as int] == nt);
        }
    }
    changed
}

impl TypeInference {
    /// The widest use demand per called function and returned position.
    fn collect_return_demands(&self, object: &Object) -> (r: BTreeMap<u32, Vec<BitWidth>>)
        ensures
            widths_view(r@) == return_demands(self@, *object),
    {
        let mut visitor = ReturnDemands { inference: self, demands: BTreeMap::new() };
        proof {
            assert(widths_view(visitor.demands@) =~= Map::empty());
        }
        visit_statements(&mut visitor, &object.code.statements);
        visit_bodies(&mut visitor, &object.functions);
        visitor.demands
    }

    /// Narrows function return types by what the callers need: a full-width return
    /// position whose bound values at every call site are only used in ways needing
    /// fewer than 256 bits gets the widest of those demands, at least 32 bits.
    /// Comparisons, storage and external calls need full width, so they keep it.
    /// Returns whether any return type was narrowed.
    pub fn narrow_function_returns_from_demand(&self, object: &mut Object) -> (r: bool)
        ensures
            returns_narrowed_by_demand(*self, *old(object), *final(object)),
            r == demand_narrows_some_return(*self, *old(object)),
        decreases *self,
    {
        let ghost o0 = *object;
        let demands = self.collect_return_demands(object);
        let ghost m = return_demands(self@, o0);
        let mut changed = false;
        let nf = object.functions.len();
        for i in 0..nf
            invariant
                nf == o0.functions@.len(),
                m == widths_view(demands@),
                m == return_demands(self@, o0),
                same_but_functions(o0, *object),
                object.subobjects == o0.subobjects,
                forall|k: int|
                    0 <= k < i ==> {
                        let f = o0.functions@[k];
                        let f2 = #[trigger] object.functions@[k];
                        &&& same_but_returns(f, f2)
                        &&& forall|j: int|
                            0 <= j < f.returns@.len() ==> #[trigger] f2.returns@[j]
                                == narrowed_at_position(m, f.id.0, j, f.returns@[j])
                    },
                forall|k: int| i <= k < nf ==> #[trigger] object.functions@[k] == o0.functions@[k],
                changed == exists|k: int, j: int|
                    0 <= k < i && 0 <= j < o0.functions@[k].returns@.len()
                        && #[trigger] narrowed_at_position(
                        m,
                        o0.functions@[k].id.0,
                        j,
                        o0.functions@[k].returns@[j],
                    ) != o0.functions@[k].returns@[j],
        {
            let c = narrow_returns_at_positions(&demands, &mut object.functions[i]);
            changed = changed || c;
        }
        let ns = object.subobjects.len();
        let nsub = self.sub_inferences.len();
        let ghost own = changed;
        for i in 0..ns
            invariant
                ns == o0.subobjects@.len(),
                nsub == self.sub_results().len(),
                nf == o0.functions@.len(),
                m == return_demands(self@, o0),
                same_but_functions(o0, *object),
                forall|k: int|
                    0 <= k < nf ==> {
                        let f = o0.functions@[k];
                        let f2 = #[trigger] object.functions@[k];
                        &&& same_but_returns(f, f2)
                        &&& forall|j: int|
                            0 <= j < f.returns@.len() ==> #[trigger] f2.returns@[j]
                                == narrowed_at_position(m, f.id.0, j, f.returns@[j])
                    },
                forall|k: int|
                    0 <= k < i ==> if k < nsub {
                        returns_narrowed_by_demand(
                            self.sub_results()[k],
                            o0.subobjects@[k],
                            #[trigger] object.subobjects@[k],
                        )
                    } else {
                        object.subobjects@[k] == o0.subobjects@[k]
                    },
                forall|k: int| i <= k < ns ==> #[trigger] object.subobjects@[k] == o0.subobjects@[k],
                changed == (own || exists|k: int|
                    0 <= k < i && k < nsub && demand_narrows_some_return(
                        self.sub_results()[k],
                        #[trigger] o0.subobjects@[k],
                    )),
        {
            if i < nsub {
                proof {
                    assert(decreases_to!(*self => self.sub_inferences));
                    assert(decreases_to!(self.sub_inferences => self.sub_inferences@));
                    assert(decreases_to!(self.sub_inferences@ => self.sub_inferences@[i as int]));
                }
                let c = self.sub_inferences[i].narrow_function_returns_from_demand(&mut object.subobjects[i]);
                changed = changed || c;
            }
        }
        changed
    }
}

} // verus!

verus! {

/// The width of a parameter type: its integer width, full width otherwise.
pub open spec fn parameter_width(t: Type) -> BitWidth {
    match t {
        Type::Int(w) => w,
        _ => BitWidth::I256,
    }
}

/// The parameter widths of functions `fs[i..]`, added by function id in order.
pub open spec fn parameter_widths(m: Map<u32, Seq<BitWidth>>, fs: Seq<Function>, i: int) -> Map<
    u32,
    Seq<BitWidth>,
>
    decreases fs.len() - i,
{
    if i < 0 || i >= fs.len() {
        m
    } else {
        parameter_widths(
            m.insert(
                fs[i].id.0,
                Seq::new(fs[i].parameters@.len(), |j: int| parameter_width(fs[i].parameters@[j].1)),
            ),
            fs,
            i + 1,
        )
    }
}

/// Raises the argument demand of each argument `args[i..]` to the width of the
/// parameter it is passed to, for the positions both lists have.
pub open spec fn refine_arguments(d: Map<u32, BitWidth>, args: Seq<Value>, ws: Seq<BitWidth>, i: int) -> Map<
    u32,
    BitWidth,
>
    decreases args.len() - i,
{
    if i < 0 || i >= args.len() || i >= ws.len() {
        d
    } else {
        let id = args[i].id.0;
        let cur = if d.contains_key(id) {
            d[id]
        } else {
            BitWidth::I1
        };
        refine_arguments(d.insert(id, width_max(cur, ws[i])), args, ws, i + 1)
    }
}

/// Sets the argument demand of each argument `args[i..]` to full width.
pub open spec fn full_arguments(d: Map<u32, BitWidth>, args: Seq<Value>, i: int) -> Map<u32, BitWidth>
    decreases args.len() - i,
{
    if i < 0 || i >= args.len() {
        d
    } else {
        full_arguments(d.insert(args[i].id.0, BitWidth::I256), args, i + 1)
    }
}

/// The argument demands after an expression: a call to a function with known
/// parameter widths raises each argument to its parameter's width; a call to any
/// other function gives its arguments full width.
pub open spec fn refine_expression(p: Map<u32, Seq<BitWidth>>, d: Map<u32, BitWidth>, e: Expression) -> Map<
    u32,
    BitWidth,
> {
    match e {
        Expression::Call { function, arguments } => if p.contains_key(function.0) {
            refine_arguments(d, arguments@, p[function.0], 0)
        } else {
            full_arguments(d, arguments@, 0)
        },
        _ => d,
    }
}

/// The argument demands after the expressions of a statement itself: a binding's
/// value, an expression statement, and a loop condition.
pub open spec fn refine_statement(p: Map<u32, Seq<BitWidth>>, d: Map<u32, BitWidth>, st: Statement) -> Map<
    u32,
    BitWidth,
> {
    match st {
        Statement::Let { value, .. } => refine_expression(p, d, value),
        Statement::Expression(e) => refine_expression(p, d, e),
        Statement::For { condition, .. } => refine_expression(p, d, condition),
        _ => d,
    }
}

/// Refines argument demands by the parameter widths of the functions called.
pub struct Refinement<'a> {
    widths: &'a BTreeMap<u32, Vec<BitWidth>>,
    demand: BTreeMap<u32, BitWidth>,
}

impl<'a> Refinement<'a> {
    fn refine_expression(&mut self, e: &Expression)
        ensures
            final(self).widths == old(self).widths,
            final(self).demand@ == refine_expression(widths_view(old(self).widths@), old(self).demand@, *e),
    {
        if let Expression::Call { function, arguments } = e {
            let ghost d0 = self.demand@;
            let ghost w0 = self.widths;
            match self.widths.get(&function.0) {
                Some(ws) => {
                    let n = if arguments.len() < ws.len() {
                        arguments.len()
                    } else {
                        ws.len()
                    };
                    for i in 0..n
                        invariant
                            n <= arguments@.len(),
                            n <= ws@.len(),
                            n == arguments@.len() || n == ws@.len(),
                            self.widths == w0,
                            refine_arguments(self.demand@, arguments@, ws@, i as int) == refine_arguments(
                                d0,
                                arguments@,
                                ws@,
                                0,
                            ),
                    {
                        let id = arguments[i].id.0;
                        let cur = match self.demand.get(&id) {
                            Some(w) => *w,
                            None => BitWidth::I1,
                        };
                        self.demand.insert(id, cur.max(ws[i]));
                    }
                },
                None => {
                    let n = arguments.len();
                    for i in 0..n
                        invariant
                            n == arguments@.len(),
                            self.widths == w0,
                            full_arguments(self.demand@, arguments@, i as int) == full_arguments(
                                d0,
                                arguments@,
                                0,
                            ),
                    {
                        self.demand.insert(arguments[i].id.0, BitWidth::I256);
                    }
                },
            }
        }
    }
}

impl<'a> StatementVisitor for Refinement<'a> {
    type State = (Map<u32, Seq<BitWidth>>, Map<u32, BitWidth>);

    closed spec fn state(&self) -> (Map<u32, Seq<BitWidth>>, Map<u32, BitWidth>) {
        (widths_view(self.widths@), self.demand@)
    }

    open spec fn step(st: (Map<u32, Seq<BitWidth>>, Map<u32, BitWidth>), s: Statement) -> (
        Map<u32, Seq<BitWidth>>,
        Map<u32, BitWidth>,
    ) {
        (st.0, refine_statement(st.0, st.1, s))
    }

    open spec fn progress(
        a: (Map<u32, Seq<BitWidth>>, Map<u32, BitWidth>),
        b: (Map<u32, Seq<BitWidth>>, Map<u32, BitWidth>),
    ) -> bool {
        a.0 == b.0
    }

    proof fn lemma_progress_reflexive(a: (Map<u32, Seq<BitWidth>>, Map<u32, BitWidth>)) {
    }

    proof fn lemma_progress_transitive(
        a: (Map<u32, Seq<BitWidth>>, Map<u32, BitWidth>),
        b: (Map<u32, Seq<BitWidth>>, Map<u32, BitWidth>),
        c: (Map<u32, Seq<BitWidth>>, Map<u32, BitWidth>),
    ) {
    }

    fn visit(&mut self, s: &Statement) {
        match s {
            Statement::Let { value, .. } => self.refine_expression(value),
            Statement::Expression(e) => self.refine_expression(e),
            Statement::For { condition, .. } => self.refine_expression(condition),
            _ => {},
        }
    }
}

/// The state with the argument demands refined by the parameter widths of an
/// object's functions, over its code and function bodies.
pub open spec fn refined_arguments(s: InferenceState, o: Object) -> InferenceState {
    let p = parameter_widths(Map::empty(), o.functions@, 0);
    let d = walk_bodies::<Refinement<'static>>(
        walk_statements::<Refinement<'static>>((p, s.fn_arg_demand), o.code.statements@, 0),
        o.functions@,
        0,
    ).1;
    InferenceState { fn_arg_demand: d, ..s }
}

/// `t2` is `t` after refining demands from the parameters of `o`'s tree: the
/// argument demands refined, demands propagated to a fixed point and applied, and
/// likewise for each subobject that has a result.
pub open spec fn refined_tree(t: TypeInference, o: Object, t2: TypeInference) -> bool
    decreases o,
{
    &&& exists|p: InferenceState|
        demand_fixpoint(refined_arguments(t@, o), o, p) && t2@ == apply_backward(p)
    &&& t2.sub_results().len() == t.sub_results().len()
    &&& forall|i: int|
        0 <= i < t.sub_results().len() ==> if i < o.subobjects@.len() {
            refined_tree(t.sub_results()[i], o.subobjects@[i], #[trigger] t2.sub_results()[i])
        } else {
            t2.sub_results()[i] == t.sub_results()[i]
        }
}

impl TypeInference {
    /// Refines use demands after parameters were narrowed: a value passed to a
    /// narrowed parameter needs only that parameter's width, not full width. The
    /// demands are then propagated and applied again, so a value passed only to
    /// narrowed parameters and used as a memory offset narrows fully.
    pub fn refine_demands_from_params(&mut self, object: &Object)
        ensures
            refined_tree(*old(self), *object, *final(self)),
        decreases *object,
    {
        let mut saved: Vec<TypeInference> = Vec::new();
        std::mem::swap(&mut self.sub_inferences, &mut saved);
        let mut widths: BTreeMap<u32, Vec<BitWidth>> = BTreeMap::new();
        let nf = object.functions.len();
        proof {
            assert(widths_view(widths@) =~= Map::empty());
        }
        for i in 0..nf
            invariant
                nf == object.functions@.len(),
                parameter_widths(widths_view(widths@), object.functions@, i as int) == parameter_widths(
                    Map::empty(),
                    object.functions@,
                    0,
                ),
        {
            let function = &object.functions[i];
            let mut ws: Vec<BitWidth> = Vec::new();
            let np = function.parameters.len();
            for j in 0..np
                invariant
                    np == function.parameters@.len(),
                    ws@ =~= Seq::new(j as nat, |k: int| parameter_width(function.parameters@[k].1)),
            {
                let w = match function.parameters[j].1 {
                    Type::Int(bit_width) => bit_width,
                    _ => BitWidth::I256,
                };
                ws.push(w);
            }
            let ghost before = widths_view(widths@);
            let ghost ws_view = ws@;
            widths.insert(function.id.0, ws);
            proof {
                assert(widths_view(widths@) =~= before.insert(function.id.0, ws_view));
            }
        }
        let mut demand: BTreeMap<u32, BitWidth> = BTreeMap::new();
        std::mem::swap(&mut demand, &mut self.fn_arg_demand);
        let mut visitor = Refinement { widths: &widths, demand };
        visit_statements(&mut visitor, &object.code.statements);
        visit_bodies(&mut visitor, &object.functions);
        self.fn_arg_demand = visitor.demand;
        let ghost refined = self@;
        self.propagate_use_demands(object);
        let ghost p = self@;
        self.apply_backward_constraints();
        self.sub_inferences = saved;
        let ghost own = self@;
        proof {
            assert(demand_fixpoint(refined_arguments(old(self)@, *object), *object, p));
        }
        let nsub = self.sub_inferences.len();
        let ns = object.subobjects.len();
        for i in 0..nsub
            invariant
                nsub == old(self).sub_results().len(),
                ns == object.subobjects@.len(),
                self@ == own,
                self.sub_results().len() == nsub,
                forall|k: int|
                    0 <= k < i ==> if k < ns {
                        refined_tree(
                            old(self).sub_results()[k],
                            object.subobjects@[k],
                            #[trigger] self.sub_results()[k],
                        )
                    } else {
                        self.sub_results()[k] == old(self).sub_results()[k]
                    },
                forall|k: int| i <= k < nsub ==> #[trigger] self.sub_results()[k] == old(self).sub_results()[k],
        {
            if i < ns {
                self.sub_inferences[i].refine_demands_from_params(&object.subobjects[i]);
            }
        }
    }
}

} // verus!
