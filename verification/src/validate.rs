//! IR validation: SSA well-formedness and region shape.
//!
//! - every use of a value comes after its definition, in a scope that sees it;
//! - no value is defined twice in one scope;
//! - every region yields as many values as its statement has outputs;
//! - function return lists agree with the declared return count;
//! - every called function exists.
//!
//! All errors are collected, in traversal order.

use crate::ir::{Block, Expression, Function, Object, Region, Statement, SwitchCase, Value, ValueId};
use crate::text::{concat, decimal, decimal_string, index_context, indexed};
use std::collections::BTreeSet;
use vstd::prelude::*;
use vstd::string::StringExecFns;

verus! {

broadcast use vstd::laws_cmp::group_laws_cmp;

/// Validation error types.
#[derive(Debug, Clone)]
pub enum ValidationError {
    /// A value is used before it is defined.
    UseBeforeDef(u32, String),
    /// A value is defined multiple times.
    MultipleDef(u32),
    /// Type mismatch in an operation.
    TypeMismatch(String),
    /// Region yields wrong number of values.
    YieldCountMismatch { expected: usize, actual: usize, location: String },
    /// Function has inconsistent return value count.
    FunctionError(String),
    /// Unknown function called.
    UnknownFunction(u32),
}

/// A validation error with its texts as character sequences.
pub enum ErrorView {
    UseBeforeDef(u32, Seq<char>),
    MultipleDef(u32),
    TypeMismatch(Seq<char>),
    YieldCountMismatch { expected: nat, actual: nat, location: Seq<char> },
    FunctionError(Seq<char>),
    UnknownFunction(u32),
}

impl View for ValidationError {
    type V = ErrorView;

    open spec fn view(&self) -> ErrorView {
        match self {
            ValidationError::UseBeforeDef(id, s) => ErrorView::UseBeforeDef(*id, s@),
            ValidationError::MultipleDef(id) => ErrorView::MultipleDef(*id),
            ValidationError::TypeMismatch(s) => ErrorView::TypeMismatch(s@),
            ValidationError::YieldCountMismatch { expected, actual, location } => {
                ErrorView::YieldCountMismatch {
                    expected: *expected as nat,
                    actual: *actual as nat,
                    location: location@,
                }
            },
            ValidationError::FunctionError(s) => ErrorView::FunctionError(s@),
            ValidationError::UnknownFunction(id) => ErrorView::UnknownFunction(*id),
        }
    }
}

/// Result of validation.
pub type ValidationResult = Result<(), Vec<ValidationError>>;

/// What the validator knows while it walks the IR.
pub struct VState {
    /// Value ids defined in the current scope.
    pub defined: Set<u32>,
    /// Function ids that calls may name.
    pub known: Set<u32>,
    /// Errors found so far.
    pub errors: Seq<ErrorView>,
}

pub open spec fn push_error(st: VState, e: ErrorView) -> VState {
    VState { errors: st.errors.push(e), ..st }
}

/// A use of `id`: an error unless it is defined.
pub open spec fn use_id(st: VState, id: u32, ctx: Seq<char>) -> VState {
    if st.defined.contains(id) {
        st
    } else {
        push_error(st, ErrorView::UseBeforeDef(id, ctx))
    }
}

/// A definition of `id`: an error if it is defined already.
pub open spec fn define_id(st: VState, id: u32) -> VState {
    if st.defined.contains(id) {
        push_error(st, ErrorView::MultipleDef(id))
    } else {
        VState { defined: st.defined.insert(id), ..st }
    }
}

/// Uses of each value, in order.
pub open spec fn use_values(vals: Seq<Value>, st: VState, ctx: Seq<char>) -> VState
    decreases vals.len(),
{
    if vals.len() == 0 {
        st
    } else {
        use_values(vals.drop_first(), use_id(st, vals[0].id.0, ctx), ctx)
    }
}

/// Uses of each id, in order.
pub open spec fn use_ids(ids: Seq<ValueId>, st: VState, ctx: Seq<char>) -> VState
    decreases ids.len(),
{
    if ids.len() == 0 {
        st
    } else {
        use_ids(ids.drop_first(), use_id(st, ids[0].0, ctx), ctx)
    }
}

/// Definitions of each id, in order.
pub open spec fn define_ids(ids: Seq<ValueId>, st: VState) -> VState
    decreases ids.len(),
{
    if ids.len() == 0 {
        st
    } else {
        define_ids(ids.drop_first(), define_id(st, ids[0].0))
    }
}

/// Leaving a scope: definitions made inside are dropped, errors stay.
pub open spec fn restore(inner: VState, outer: VState) -> VState {
    VState { defined: outer.defined, ..inner }
}

/// A yield count check.
pub open spec fn check_count(expected: nat, actual: nat, location: Seq<char>, st: VState) -> VState {
    if expected != actual {
        push_error(st, ErrorView::YieldCountMismatch { expected, actual, location })
    } else {
        st
    }
}

/// Checks the operands of an expression.
pub open spec fn v_expr(e: Expression, st: VState, ctx: Seq<char>) -> VState {
    match e {
        Expression::Var(id) => use_id(st, id.0, ctx),
        Expression::Binary { lhs, rhs, .. } => use_id(use_id(st, lhs.id.0, ctx), rhs.id.0, ctx),
        Expression::Ternary { a, b, n, .. } => use_id(
            use_id(use_id(st, a.id.0, ctx), b.id.0, ctx),
            n.id.0,
            ctx,
        ),
        Expression::Unary { operand, .. } => use_id(st, operand.id.0, ctx),
        Expression::CallDataLoad { offset } => use_id(st, offset.id.0, ctx),
        Expression::ExtCodeSize { address } => use_id(st, address.id.0, ctx),
        Expression::ExtCodeHash { address } => use_id(st, address.id.0, ctx),
        Expression::BlockHash { number } => use_id(st, number.id.0, ctx),
        Expression::BlobHash { index } => use_id(st, index.id.0, ctx),
        Expression::Balance { address } => use_id(st, address.id.0, ctx),
        Expression::MLoad { offset, .. } => use_id(st, offset.id.0, ctx),
        Expression::SLoad { key, .. } => use_id(st, key.id.0, ctx),
        Expression::TLoad { key } => use_id(st, key.id.0, ctx),
        Expression::Call { function, arguments } => {
            let st1 = if st.known.contains(function.0) {
                st
            } else {
                push_error(st, ErrorView::UnknownFunction(function.0))
            };
            use_values(arguments@, st1, ctx)
        },
        Expression::Truncate { value, .. } => use_id(st, value.id.0, ctx),
        Expression::ZeroExtend { value, .. } => use_id(st, value.id.0, ctx),
        Expression::SignExtendTo { value, .. } => use_id(st, value.id.0, ctx),
        Expression::Keccak256 { offset, length } => use_id(
            use_id(st, offset.id.0, ctx),
            length.id.0,
            ctx,
        ),
        Expression::Keccak256Pair { word0, word1 } => use_id(
            use_id(st, word0.id.0, ctx),
            word1.id.0,
            ctx,
        ),
        Expression::Keccak256Single { word0 } => use_id(st, word0.id.0, ctx),
        Expression::MappingSLoad { key, slot } => use_id(use_id(st, key.id.0, ctx), slot.id.0, ctx),
        _ => st,
    }
}

/// Uses of two values, in order.
pub open spec fn use2(st: VState, a: Value, b: Value, ctx: Seq<char>) -> VState {
    use_id(use_id(st, a.id.0, ctx), b.id.0, ctx)
}

/// Uses of three values, in order.
pub open spec fn use3(st: VState, a: Value, b: Value, c: Value, ctx: Seq<char>) -> VState {
    use_id(use2(st, a, b, ctx), c.id.0, ctx)
}

/// A use of an optional value.
pub open spec fn use_opt(st: VState, v: Option<Value>, ctx: Seq<char>) -> VState {
    match v {
        Some(v) => use_id(st, v.id.0, ctx),
        None => st,
    }
}

/// The message for a count disagreement.
pub open spec fn count_message(
    prefix: Seq<char>,
    first: Seq<char>,
    a: nat,
    second: Seq<char>,
    b: nat,
) -> Seq<char> {
    prefix + first + decimal(a) + second + decimal(b) + ")"@
}

/// Checks one statement.
pub open spec fn v_stmt(s: Statement, st: VState, ctx: Seq<char>) -> VState
    decreases s, 0int,
{
    match s {
        Statement::Let { bindings, value } => define_ids(bindings@, v_expr(value, st, ctx)),
        Statement::MStore { offset, value, .. } => use2(st, offset, value, ctx),
        Statement::MStore8 { offset, value, .. } => use2(st, offset, value, ctx),
        Statement::MCopy { dest, src, length } => use3(st, dest, src, length, ctx),
        Statement::SStore { key, value, .. } => use2(st, key, value, ctx),
        Statement::TStore { key, value } => use2(st, key, value, ctx),
        Statement::MappingSStore { key, slot, value } => use3(st, key, slot, value, ctx),
        Statement::If { condition, inputs, then_region, else_region, outputs } => {
            let st1 = use_values(inputs@, use_id(st, condition.id.0, ctx), ctx);
            let st2 = restore(v_region(then_region, st1, ctx + " then"@), st1);
            let st3 = match else_region {
                Some(r) => restore(v_region(r, st2, ctx + " else"@), st2),
                None => st2,
            };
            let else_count = match else_region {
                Some(r) => r.yields.len(),
                None => inputs.len(),
            };
            let st4 = check_count(
                outputs.len() as nat,
                then_region.yields.len() as nat,
                ctx + " then"@,
                st3,
            );
            let st5 = check_count(outputs.len() as nat, else_count as nat, ctx + " else"@, st4);
            define_ids(outputs@, st5)
        },
        Statement::Switch { scrutinee, inputs, cases, default, outputs } => {
            let st1 = use_values(inputs@, use_id(st, scrutinee.id.0, ctx), ctx);
            let st2 = v_cases_from(cases@, 0, outputs.len() as nat, st1, ctx);
            let st3 = match default {
                Some(d) => check_count(
                    outputs.len() as nat,
                    d.yields.len() as nat,
                    ctx + " default"@,
                    restore(v_region(d, st2, ctx + " default"@), st2),
                ),
                None => st2,
            };
            define_ids(outputs@, st3)
        },
        Statement::For {
            initial_values,
            loop_variables,
            condition_statements,
            condition,
            body,
            post_input_variables,
            post,
            outputs,
        } => {
            let st1 = use_values(initial_values@, st, ctx);
            let st2 = if loop_variables.len() != initial_values.len() {
                push_error(
                    st1,
                    ErrorView::FunctionError(
                        count_message(
                            ctx,
                            ": loop_vars count ("@,
                            loop_variables.len() as nat,
                            ") != init_values count ("@,
                            initial_values.len() as nat,
                        ),
                    ),
                )
            } else {
                st1
            };
            let st3 = define_ids(loop_variables@, st2);
            let st4 = v_stmts_from(condition_statements@, 0, st3, ctx + " cond_stmt"@);
            let st5 = v_expr(condition, st4, ctx + " condition"@);
            let st6 = v_region(body, st5, ctx + " body"@);
            let st7 = v_region(post, define_ids(post_input_variables@, st6), ctx + " post"@);
            let st8 = check_count(
                loop_variables.len() as nat,
                post.yields.len() as nat,
                ctx + " post"@,
                st7,
            );
            let st9 = restore(st8, st2);
            let st10 = if outputs.len() != loop_variables.len() {
                push_error(
                    st9,
                    ErrorView::FunctionError(
                        count_message(
                            ctx,
                            ": outputs count ("@,
                            outputs.len() as nat,
                            ") != loop_vars count ("@,
                            loop_variables.len() as nat,
                        ),
                    ),
                )
            } else {
                st9
            };
            define_ids(outputs@, st10)
        },
        Statement::Break { values } => use_values(values@, st, ctx),
        Statement::Continue { values } => use_values(values@, st, ctx),
        Statement::Leave { return_values } => use_values(return_values@, st, ctx),
        Statement::Revert { offset, length } => use2(st, offset, length, ctx),
        Statement::Return { offset, length } => use2(st, offset, length, ctx),
        Statement::CustomErrorRevert { arguments, .. } => use_values(arguments@, st, ctx),
        Statement::SelfDestruct { address } => use_id(st, address.id.0, ctx),
        Statement::ExternalCall {
            gas,
            address,
            value,
            args_offset,
            args_length,
            ret_offset,
            ret_length,
            result,
            ..
        } => {
            let st1 = use_opt(use2(st, gas, address, ctx), value, ctx);
            let st2 = use2(use2(st1, args_offset, args_length, ctx), ret_offset, ret_length, ctx);
            define_id(st2, result.0)
        },
        Statement::Create { value, offset, length, salt, result, .. } => {
            let st1 = use_opt(use3(st, value, offset, length, ctx), salt, ctx);
            define_id(st1, result.0)
        },
        Statement::Log { offset, length, topics } => use_values(
            topics@,
            use2(st, offset, length, ctx),
            ctx,
        ),
        Statement::CodeCopy { dest, offset, length } => use3(st, dest, offset, length, ctx),
        Statement::ExtCodeCopy { address, dest, offset, length } => use_id(
            use3(st, address, dest, offset, ctx),
            length.id.0,
            ctx,
        ),
        Statement::ReturnDataCopy { dest, offset, length } => use3(st, dest, offset, length, ctx),
        Statement::DataCopy { dest, offset, length } => use3(st, dest, offset, length, ctx),
        Statement::CallDataCopy { dest, offset, length } => use3(st, dest, offset, length, ctx),
        Statement::Block(region) => restore(v_region(region, st, ctx), st),
        Statement::Expression(e) => v_expr(e, st, ctx),
        Statement::SetImmutable { value, .. } => use_id(st, value.id.0, ctx),
        _ => st,
    }
}

/// Checks the statements of a region, then its yields.
pub open spec fn v_region(r: Region, st: VState, ctx: Seq<char>) -> VState
    decreases r, 0int,
{
    use_values(r.yields@, v_stmts_from(r.statements@, 0, st, ctx), ctx + " yield"@)
}

/// Checks statements `i..` of a list; statement `k` has context `ctx[k]`.
pub open spec fn v_stmts_from(stmts: Seq<Statement>, i: int, st: VState, ctx: Seq<char>) -> VState
    decreases stmts, stmts.len() - i,
{
    if i < 0 || i >= stmts.len() {
        st
    } else {
        v_stmts_from(stmts, i + 1, v_stmt(stmts[i], st, indexed(ctx, i as nat)), ctx)
    }
}

/// Checks switch cases `j..`, each in its own scope, against the output count.
pub open spec fn v_cases_from(
    cases: Seq<SwitchCase>,
    j: int,
    outputs: nat,
    st: VState,
    ctx: Seq<char>,
) -> VState
    decreases cases, cases.len() - j,
{
    if j < 0 || j >= cases.len() {
        st
    } else {
        let loc = indexed(ctx + " case"@, j as nat);
        let after = restore(v_region(cases[j].body, st, loc), st);
        v_cases_from(
            cases,
            j + 1,
            outputs,
            check_count(outputs, cases[j].body.yields.len() as nat, loc, after),
            ctx,
        )
    }
}

/// The name of a function in messages: `function '<name>'`.
pub open spec fn function_context(name: Seq<char>) -> Seq<char> {
    "function '"@ + name + "'"@
}

/// Checks a function in a scope of its own.
pub open spec fn v_function(f: Function, st: VState) -> VState {
    let ctx = function_context(f.name@);
    let st1 = define_ids(f.parameters@.map_values(|p: (ValueId, crate::ir::Type)| p.0), st);
    let st2 = define_ids(f.return_values_initial@, st1);
    let st3 = if f.returns.len() != f.return_values_initial.len() {
        push_error(
            st2,
            ErrorView::FunctionError(
                count_message(
                    ctx,
                    ": returns count ("@,
                    f.returns.len() as nat,
                    ") != return_values_initial count ("@,
                    f.return_values_initial.len() as nat,
                ),
            ),
        )
    } else {
        st2
    };
    let st4 = if f.returns.len() != f.return_values.len() {
        push_error(
            st3,
            ErrorView::FunctionError(
                count_message(
                    ctx,
                    ": returns count ("@,
                    f.returns.len() as nat,
                    ") != return_values count ("@,
                    f.return_values.len() as nat,
                ),
            ),
        )
    } else {
        st3
    };
    let st5 = v_stmts_from(f.body.statements@, 0, st4, ctx);
    let st6 = use_ids(f.return_values@, st5, ctx + " return"@);
    restore(st6, st)
}

/// Checks functions `i..` of a list.
pub open spec fn v_functions_from(fs: Seq<Function>, i: int, st: VState) -> VState
    decreases fs.len() - i,
{
    if i < 0 || i >= fs.len() {
        st
    } else {
        v_functions_from(fs, i + 1, v_function(fs[i], st))
    }
}

/// The ids of a list of functions.
pub open spec fn function_ids(fs: Seq<Function>) -> Set<u32> {
    Set::new(|id: u32| exists|i: int| 0 <= i < fs.len() && fs[i].id.0 == id)
}

/// Checks an object: its code, its functions, then its subobjects.
pub open spec fn v_object(o: Object, st: VState) -> VState
    decreases o, 0int,
{
    let st1 = VState { known: st.known.union(function_ids(o.functions@)), ..st };
    let st2 = v_stmts_from(o.code.statements@, 0, st1, "object '"@ + o.name@ + "' code"@);
    let st3 = v_functions_from(o.functions@, 0, st2);
    v_objects_from(o.subobjects@, 0, st3)
}

/// Checks subobjects `i..` of a list. Each subobject has value and function
/// namespaces of its own: it is checked from no defined values and no known
/// functions, and only its errors carry over.
pub open spec fn v_objects_from(os: Seq<Object>, i: int, st: VState) -> VState
    decreases os, os.len() - i,
{
    if i < 0 || i >= os.len() {
        st
    } else {
        v_objects_from(
            os,
            i + 1,
            VState {
                errors: v_object(os[i], VState { defined: Set::empty(), known: Set::empty(), errors: st.errors }).errors,
                ..st
            },
        )
    }
}

/// The state that validation starts from.
pub open spec fn initial_state() -> VState {
    VState { defined: Set::empty(), known: Set::empty(), errors: Seq::empty() }
}

/// The errors that validating an object finds, in order.
pub open spec fn object_errors(o: Object) -> Seq<ErrorView> {
    v_object(o, initial_state()).errors
}

/// The errors that validating a function on its own finds, in order.
pub open spec fn function_errors(f: Function) -> Seq<ErrorView> {
    v_function(f, initial_state()).errors
}

} // verus!

verus! {

/// Validates an IR object, returning all errors found.
pub fn validate_object(object: &Object) -> (r: ValidationResult)
    ensures
        r is Ok <==> object_errors(*object).len() == 0,
        r matches Err(es) ==> es@.map_values(|e: ValidationError| e@) == object_errors(*object),
{
    let mut validator = Validator::new();
    validator.validate_object(object);
    validator.into_result()
}

/// Validates a single function.
pub fn validate_function(function: &Function) -> (r: ValidationResult)
    ensures
        r is Ok <==> function_errors(*function).len() == 0,
        r matches Err(es) ==> es@.map_values(|e: ValidationError| e@) == function_errors(*function),
{
    let mut validator = Validator::new();
    validator.validate_function(function);
    validator.into_result()
}

/// Validator state: defined values, saved scopes, known functions and errors.
struct Validator {
    defined: BTreeSet<u32>,
    scope_stack: Vec<BTreeSet<u32>>,
    known_functions: BTreeSet<u32>,
    errors: Vec<ValidationError>,
}

impl Validator {
    spec fn state(&self) -> VState {
        VState {
            defined: self.defined@,
            known: self.known_functions@,
            errors: self.errors@.map_values(|e: ValidationError| e@),
        }
    }

    spec fn stack(&self) -> Seq<Set<u32>> {
        self.scope_stack@.map_values(|s: BTreeSet<u32>| s@)
    }

    fn new() -> (r: Self)
        ensures
            r.state() == initial_state(),
            r.stack().len() == 0,
    {
        let r = Validator {
            defined: BTreeSet::new(),
            scope_stack: Vec::new(),
            known_functions: BTreeSet::new(),
            errors: Vec::new(),
        };
        assert(r.state().errors =~= Seq::<ErrorView>::empty());
        r
    }

    fn into_result(self) -> (r: ValidationResult)
        ensures
            r is Ok <==> self.state().errors.len() == 0,
            r matches Err(es) ==> es@.map_values(|e: ValidationError| e@) == self.state().errors,
    {
        if self.errors.is_empty() {
            Ok(())
        } else {
            Err(self.errors)
        }
    }

    fn error(&mut self, err: ValidationError)
        ensures
            final(self).state() == push_error(old(self).state(), err@),
            final(self).stack() == old(self).stack(),
    {
        let ghost e = err@;
        self.errors.push(err);
        proof {
            assert(self.state().errors =~= old(self).state().errors.push(e));
        }
    }

    fn enter_scope(&mut self)
        ensures
            final(self).state() == old(self).state(),
            final(self).stack() == old(self).stack().push(old(self).state().defined),
    {
        let saved = self.defined.clone();
        self.scope_stack.push(saved);
        proof {
            assert(self.stack() =~= old(self).stack().push(old(self).state().defined));
        }
    }

    fn exit_scope(&mut self)
        requires
            old(self).stack().len() > 0,
        ensures
            final(self).state() == (VState { defined: old(self).stack().last(), ..old(self).state() }),
            final(self).stack() == old(self).stack().drop_last(),
    {
        if let Some(saved) = self.scope_stack.pop() {
            self.defined = saved;
        }
        proof {
            assert(self.stack() =~= old(self).stack().drop_last());
        }
    }

    fn define(&mut self, id: ValueId)
        ensures
            final(self).state() == define_id(old(self).state(), id.0),
            final(self).stack() == old(self).stack(),
    {
        let fresh = self.defined.insert(id.0);
        proof {
            if !fresh {
                assert(self.defined@ =~= old(self).defined@);
            }
        }
        if !fresh {
            self.error(ValidationError::MultipleDef(id.0));
        }
    }

    fn use_value(&mut self, value: &Value, context: &str)
        ensures
            final(self).state() == use_id(old(self).state(), value.id.0, context@),
            final(self).stack() == old(self).stack(),
    {
        self.use_value_id(value.id, context);
    }

    fn use_value_id(&mut self, id: ValueId, context: &str)
        ensures
            final(self).state() == use_id(old(self).state(), id.0, context@),
            final(self).stack() == old(self).stack(),
    {
        if !self.defined.contains(&id.0) {
            self.error(ValidationError::UseBeforeDef(id.0, String::from_str(context)));
        }
    }

    fn use_values(&mut self, values: &Vec<Value>, context: &str)
        ensures
            final(self).state() == use_values(values@, old(self).state(), context@),
            final(self).stack() == old(self).stack(),
    {
        let n = values.len();
        proof {
            assert(values@.skip(0) =~= values@);
        }
        for i in 0..n
            invariant
                n == values@.len(),
                use_values(values@.skip(i as int), self.state(), context@) == use_values(
                    values@,
                    old(self).state(),
                    context@,
                ),
                self.stack() == old(self).stack(),
        {
            proof {
                assert(values@.skip(i as int).drop_first() =~= values@.skip(i + 1));
                assert(values@.skip(i as int)[0] == values@[i as int]);
            }
            self.use_value(&values[i], context);
        }
        proof {
            assert(values@.skip(n as int) =~= Seq::<Value>::empty());
            assert(values@.skip(0) =~= values@);
        }
    }

    fn use_ids(&mut self, ids: &Vec<ValueId>, context: &str)
        ensures
            final(self).state() == use_ids(ids@, old(self).state(), context@),
            final(self).stack() == old(self).stack(),
    {
        let n = ids.len();
        proof {
            assert(ids@.skip(0) =~= ids@);
        }
        for i in 0..n
            invariant
                n == ids@.len(),
                use_ids(ids@.skip(i as int), self.state(), context@) == use_ids(
                    ids@,
                    old(self).state(),
                    context@,
                ),
                self.stack() == old(self).stack(),
        {
            proof {
                assert(ids@.skip(i as int).drop_first() =~= ids@.skip(i + 1));
                assert(ids@.skip(i as int)[0] == ids@[i as int]);
            }
            self.use_value_id(ids[i], context);
        }
        proof {
            assert(ids@.skip(n as int) =~= Seq::<ValueId>::empty());
            assert(ids@.skip(0) =~= ids@);
        }
    }

    fn define_ids(&mut self, ids: &Vec<ValueId>)
        ensures
            final(self).state() == define_ids(ids@, old(self).state()),
            final(self).stack() == old(self).stack(),
    {
        let n = ids.len();
        proof {
            assert(ids@.skip(0) =~= ids@);
        }
        for i in 0..n
            invariant
                n == ids@.len(),
                define_ids(ids@.skip(i as int), self.state()) == define_ids(ids@, old(self).state()),
                self.stack() == old(self).stack(),
        {
            proof {
                assert(ids@.skip(i as int).drop_first() =~= ids@.skip(i + 1));
                assert(ids@.skip(i as int)[0] == ids@[i as int]);
            }
            self.define(ids[i]);
        }
        proof {
            assert(ids@.skip(n as int) =~= Seq::<ValueId>::empty());
            assert(ids@.skip(0) =~= ids@);
        }
    }
}

} // verus!

verus! {

impl Validator {
    fn validate_expr(&mut self, expr: &Expression, context: &str)
        ensures
            final(self).state() == v_expr(*expr, old(self).state(), context@),
            final(self).stack() == old(self).stack(),
    {
        match expr {
            Expression::Var(id) => self.use_value_id(*id, context),
            Expression::Binary { lhs, rhs, .. } => {
                self.use_value(lhs, context);
                self.use_value(rhs, context);
            },
            Expression::Ternary { a, b, n, .. } => {
                self.use_value(a, context);
                self.use_value(b, context);
                self.use_value(n, context);
            },
            Expression::Unary { operand, .. } => self.use_value(operand, context),
            Expression::CallDataLoad { offset } => self.use_value(offset, context),
            Expression::ExtCodeSize { address } => self.use_value(address, context),
            Expression::ExtCodeHash { address } => self.use_value(address, context),
            Expression::BlockHash { number } => self.use_value(number, context),
            Expression::BlobHash { index } => self.use_value(index, context),
            Expression::Balance { address } => self.use_value(address, context),
            Expression::MLoad { offset, .. } => self.use_value(offset, context),
            Expression::SLoad { key, .. } => self.use_value(key, context),
            Expression::TLoad { key } => self.use_value(key, context),
            Expression::Call { function, arguments } => {
                if !self.known_functions.contains(&function.0) {
                    self.error(ValidationError::UnknownFunction(function.0));
                }
                self.use_values(arguments, context);
            },
            Expression::Truncate { value, .. } => self.use_value(value, context),
            Expression::ZeroExtend { value, .. } => self.use_value(value, context),
            Expression::SignExtendTo { value, .. } => self.use_value(value, context),
            Expression::Keccak256 { offset, length } => {
                self.use_value(offset, context);
                self.use_value(length, context);
            },
            Expression::Keccak256Pair { word0, word1 } => {
                self.use_value(word0, context);
                self.use_value(word1, context);
            },
            Expression::Keccak256Single { word0 } => self.use_value(word0, context),
            Expression::MappingSLoad { key, slot } => {
                self.use_value(key, context);
                self.use_value(slot, context);
            },
            _ => {},
        }
    }

    fn validate_block(&mut self, block: &Block, context: &str)
        ensures
            final(self).state() == v_stmts_from(block.statements@, 0, old(self).state(), context@),
            final(self).stack() == old(self).stack(),
    {
        self.validate_statements(&block.statements, context);
    }

    fn validate_statements(&mut self, statements: &Vec<Statement>, context: &str)
        ensures
            final(self).state() == v_stmts_from(statements@, 0, old(self).state(), context@),
            final(self).stack() == old(self).stack(),
        decreases statements@, 1int,
    {
        let n = statements.len();
        for i in 0..n
            invariant
                n == statements@.len(),
                v_stmts_from(statements@, i as int, self.state(), context@) == v_stmts_from(
                    statements@,
                    0,
                    old(self).state(),
                    context@,
                ),
                self.stack() == old(self).stack(),
        {
            let ctx = index_context(context, i);
            self.validate_statement(&statements[i], ctx.as_str());
        }
    }

    fn validate_region(&mut self, region: &Region, context: &str)
        ensures
            final(self).state() == v_region(*region, old(self).state(), context@),
            final(self).stack() == old(self).stack(),
        decreases *region, 1int,
    {
        self.validate_statements(&region.statements, context);
        let ctx = concat(context, " yield");
        self.use_values(&region.yields, ctx.as_str());
    }

    fn validate_scoped_region(&mut self, region: &Region, context: &str)
        ensures
            final(self).state() == restore(
                v_region(*region, old(self).state(), context@),
                old(self).state(),
            ),
            final(self).stack() == old(self).stack(),
        decreases *region, 2int,
    {
        self.enter_scope();
        self.validate_region(region, context);
        self.exit_scope();
    }

    fn count_error(&mut self, expected: usize, actual: usize, location: String)
        ensures
            final(self).state() == check_count(
                expected as nat,
                actual as nat,
                location@,
                old(self).state(),
            ),
            final(self).stack() == old(self).stack(),
    {
        if expected != actual {
            self.error(ValidationError::YieldCountMismatch { expected, actual, location });
        }
    }

    fn validate_statement(&mut self, stmt: &Statement, context: &str)
        ensures
            final(self).state() == v_stmt(*stmt, old(self).state(), context@),
            final(self).stack() == old(self).stack(),
        decreases *stmt, 1int,
    {
        match stmt {
            Statement::Let { bindings, value } => {
                self.validate_expr(value, context);
                self.define_ids(bindings);
            },
            Statement::MStore { offset, value, .. } | Statement::MStore8 { offset, value, .. } => {
                self.use_value(offset, context);
                self.use_value(value, context);
            },
            Statement::MCopy { dest, src, length } => {
                self.use_value(dest, context);
                self.use_value(src, context);
                self.use_value(length, context);
            },
            Statement::SStore { key, value, .. } | Statement::TStore { key, value } => {
                self.use_value(key, context);
                self.use_value(value, context);
            },
            Statement::MappingSStore { key, slot, value } => {
                self.use_value(key, context);
                self.use_value(slot, context);
                self.use_value(value, context);
            },
            Statement::If { condition, inputs, then_region, else_region, outputs } => {
                self.use_value(condition, context);
                self.use_values(inputs, context);
                let then_ctx = concat(context, " then");
                self.validate_scoped_region(then_region, then_ctx.as_str());
                let then_yield_count = then_region.yields.len();
                let else_ctx = concat(context, " else");
                let else_yield_count = match else_region {
                    Some(else_region) => {
                        self.validate_scoped_region(else_region, else_ctx.as_str());
                        else_region.yields.len()
                    },
                    None => inputs.len(),
                };
                self.count_error(outputs.len(), then_yield_count, then_ctx);
                self.count_error(outputs.len(), else_yield_count, else_ctx);
                self.define_ids(outputs);
            },
            Statement::Switch { scrutinee, inputs, cases, default, outputs } => {
                self.use_value(scrutinee, context);
                self.use_values(inputs, context);
                self.validate_cases(cases, outputs.len(), context);
                if let Some(default_region) = default {
                    let default_ctx = concat(context, " default");
                    self.validate_scoped_region(default_region, default_ctx.as_str());
                    self.count_error(outputs.len(), default_region.yields.len(), default_ctx);
                }
                self.define_ids(outputs);
            },
            Statement::For {
                initial_values,
                loop_variables,
                condition_statements,
                condition,
                body,
                post_input_variables,
                post,
                outputs,
            } => {
                self.use_values(initial_values, context);
                if loop_variables.len() != initial_values.len() {
                    let message = count_text(
                        context,
                        ": loop_vars count (",
                        loop_variables.len(),
                        ") != init_values count (",
                        initial_values.len(),
                    );
                    self.error(ValidationError::FunctionError(message));
                }
                self.enter_scope();
                self.define_ids(loop_variables);
                let cond_ctx = concat(context, " cond_stmt");
                self.validate_statements(condition_statements, cond_ctx.as_str());
                let condition_ctx = concat(context, " condition");
                self.validate_expr(condition, condition_ctx.as_str());
                let body_ctx = concat(context, " body");
                self.validate_region(body, body_ctx.as_str());
                self.define_ids(post_input_variables);
                let post_ctx = concat(context, " post");
                self.validate_region(post, post_ctx.as_str());
                self.count_error(loop_variables.len(), post.yields.len(), post_ctx);
                self.exit_scope();
                if outputs.len() != loop_variables.len() {
                    let message = count_text(
                        context,
                        ": outputs count (",
                        outputs.len(),
                        ") != loop_vars count (",
                        loop_variables.len(),
                    );
                    self.error(ValidationError::FunctionError(message));
                }
                self.define_ids(outputs);
            },
            Statement::Break { values } | Statement::Continue { values } => {
                self.use_values(values, context);
            },
            Statement::Leave { return_values } => self.use_values(return_values, context),
            Statement::Revert { offset, length } | Statement::Return { offset, length } => {
                self.use_value(offset, context);
                self.use_value(length, context);
            },
            Statement::CustomErrorRevert { arguments, .. } => self.use_values(arguments, context),
            Statement::SelfDestruct { address } => self.use_value(address, context),
            Statement::ExternalCall {
                gas,
                address,
                value,
                args_offset,
                args_length,
                ret_offset,
                ret_length,
                result,
                ..
            } => {
                self.use_value(gas, context);
                self.use_value(address, context);
                if let Some(v) = value {
                    self.use_value(v, context);
                }
                self.use_value(args_offset, context);
                self.use_value(args_length, context);
                self.use_value(ret_offset, context);
                self.use_value(ret_length, context);
                self.define(*result);
            },
            Statement::Create { value, offset, length, salt, result, .. } => {
                self.use_value(value, context);
                self.use_value(offset, context);
                self.use_value(length, context);
                if let Some(s) = salt {
                    self.use_value(s, context);
                }
                self.define(*result);
            },
            Statement::Log { offset, length, topics } => {
                self.use_value(offset, context);
                self.use_value(length, context);
                self.use_values(topics, context);
            },
            Statement::CodeCopy { dest, offset, length }
            | Statement::ReturnDataCopy { dest, offset, length }
            | Statement::DataCopy { dest, offset, length }
            | Statement::CallDataCopy { dest, offset, length } => {
                self.use_value(dest, context);
                self.use_value(offset, context);
                self.use_value(length, context);
            },
            Statement::ExtCodeCopy { address, dest, offset, length } => {
                self.use_value(address, context);
                self.use_value(dest, context);
                self.use_value(offset, context);
                self.use_value(length, context);
            },
            Statement::Block(region) => self.validate_scoped_region(region, context),
            Statement::Expression(expr) => self.validate_expr(expr, context),
            Statement::SetImmutable { value, .. } => self.use_value(value, context),
            _ => {},
        }
    }

    fn validate_cases(&mut self, cases: &Vec<SwitchCase>, outputs: usize, context: &str)
        ensures
            final(self).state() == v_cases_from(cases@, 0, outputs as nat, old(self).state(), context@),
            final(self).stack() == old(self).stack(),
        decreases cases@, 0int,
    {
        let case_ctx = concat(context, " case");
        let n = cases.len();
        for i in 0..n
            invariant
                n == cases@.len(),
                case_ctx@ == context@ + " case"@,
                v_cases_from(cases@, i as int, outputs as nat, self.state(), context@)
                    == v_cases_from(cases@, 0, outputs as nat, old(self).state(), context@),
                self.stack() == old(self).stack(),
        {
            let loc = index_context(case_ctx.as_str(), i);
            self.validate_scoped_region(&cases[i].body, loc.as_str());
            self.count_error(outputs, cases[i].body.yields.len(), loc);
        }
    }

    fn validate_function(&mut self, function: &Function)
        ensures
            final(self).state() == v_function(*function, old(self).state()),
            final(self).stack() == old(self).stack(),
    {
        self.enter_scope();
        let ghost st0 = self.state();
        let n = function.parameters.len();
        proof {
            let ids = function.parameters@.map_values(|p: (ValueId, crate::ir::Type)| p.0);
            assert(ids.skip(0) =~= ids);
        }
        for i in 0..n
            invariant
                n == function.parameters@.len(),
                define_ids(
                    function.parameters@.map_values(|p: (ValueId, crate::ir::Type)| p.0).skip(i as int),
                    self.state(),
                ) == define_ids(
                    function.parameters@.map_values(|p: (ValueId, crate::ir::Type)| p.0),
                    st0,
                ),
                self.stack() == old(self).stack().push(old(self).state().defined),
        {
            let ghost ids = function.parameters@.map_values(|p: (ValueId, crate::ir::Type)| p.0);
            proof {
                assert(ids.skip(i as int).drop_first() =~= ids.skip(i + 1));
                assert(ids.skip(i as int)[0] == ids[i as int]);
            }
            self.define(function.parameters[i].0);
        }
        proof {
            let ids = function.parameters@.map_values(|p: (ValueId, crate::ir::Type)| p.0);
            assert(ids.skip(n as int) =~= Seq::<ValueId>::empty());
            assert(ids.skip(0) =~= ids);
        }
        self.define_ids(&function.return_values_initial);
        let name_ctx = function_context_text(&function.name);
        if function.returns.len() != function.return_values_initial.len() {
            let message = count_text(
                name_ctx.as_str(),
                ": returns count (",
                function.returns.len(),
                ") != return_values_initial count (",
                function.return_values_initial.len(),
            );
            self.error(ValidationError::FunctionError(message));
        }
        if function.returns.len() != function.return_values.len() {
            let message = count_text(
                name_ctx.as_str(),
                ": returns count (",
                function.returns.len(),
                ") != return_values count (",
                function.return_values.len(),
            );
            self.error(ValidationError::FunctionError(message));
        }
        self.validate_block(&function.body, name_ctx.as_str());
        let return_ctx = concat(name_ctx.as_str(), " return");
        self.use_ids(&function.return_values, return_ctx.as_str());
        self.exit_scope();
    }

    fn validate_object(&mut self, object: &Object)
        ensures
            final(self).state() == v_object(*object, old(self).state()),
            final(self).stack() == old(self).stack(),
        decreases *object, 1int,
    {
        let nf = object.functions.len();
        proof {
            assert(old(self).state().known.union(
                Set::new(|id: u32| exists|j: int| 0 <= j < 0 && object.functions@[j].id.0 == id),
            ) =~= old(self).state().known);
        }
        for i in 0..nf
            invariant
                nf == object.functions@.len(),
                self.state() == (VState {
                    known: old(self).state().known.union(
                        Set::new(
                            |id: u32|
                                exists|j: int| 0 <= j < i && object.functions@[j].id.0 == id,
                        ),
                    ),
                    ..old(self).state()
                }),
                self.stack() == old(self).stack(),
        {
            self.known_functions.insert(object.functions[i].id.0);
            proof {
                assert(self.known_functions@ =~= old(self).state().known.union(
                    Set::new(
                        |id: u32| exists|j: int| 0 <= j < i + 1 && object.functions@[j].id.0 == id,
                    ),
                ));
            }
        }
        proof {
            assert(self.known_functions@ =~= old(self).state().known.union(
                function_ids(object.functions@),
            ));
        }
        let mut code_ctx = String::from_str("object '");
        code_ctx.append(object.name.as_str());
        code_ctx.append("' code");
        self.validate_block(&object.code, code_ctx.as_str());
        let ghost st2 = self.state();
        for i in 0..nf
            invariant
                nf == object.functions@.len(),
                v_functions_from(object.functions@, i as int, self.state()) == v_functions_from(
                    object.functions@,
                    0,
                    st2,
                ),
                self.stack() == old(self).stack(),
        {
            self.validate_function(&object.functions[i]);
        }
        let ns = object.subobjects.len();
        let ghost st3 = self.state();
        for i in 0..ns
            invariant
                ns == object.subobjects@.len(),
                v_objects_from(object.subobjects@, i as int, self.state()) == v_objects_from(
                    object.subobjects@,
                    0,
                    st3,
                ),
                self.stack() == old(self).stack(),
        {
            let mut saved_defined: BTreeSet<u32> = BTreeSet::new();
            let mut saved_known: BTreeSet<u32> = BTreeSet::new();
            std::mem::swap(&mut saved_defined, &mut self.defined);
            std::mem::swap(&mut saved_known, &mut self.known_functions);
            proof {
                assert(self.state() == (VState {
                    defined: Set::empty(),
                    known: Set::empty(),
                    errors: self.state().errors,
                }));
            }
            self.validate_object(&object.subobjects[i]);
            self.defined = saved_defined;
            self.known_functions = saved_known;
        }
    }
}

/// `function '<name>'`.
fn function_context_text(name: &String) -> (r: String)
    ensures
        r@ == function_context(name@),
{
    let mut s = String::from_str("function '");
    s.append(name.as_str());
    s.append("'");
    s
}

/// `<prefix><first><a><second><b>)`.
fn count_text(prefix: &str, first: &str, a: usize, second: &str, b: usize) -> (r: String)
    ensures
        r@ == count_message(prefix@, first@, a as nat, second@, b as nat),
{
    let mut s = String::from_str(prefix);
    s.append(first);
    let da = decimal_string(a);
    s.append(da.as_str());
    s.append(second);
    let db = decimal_string(b);
    s.append(db.as_str());
    s.append(")");
    s
}

} // verus!
