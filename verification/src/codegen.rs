//! What code generation decides on the IR alone: its errors, and whether a region
//! aborts on every path.

use crate::ir::{Expression, FunctionId, Region, Statement, ValueId};
use crate::text::{decimal, decimal_string};
use std::collections::BTreeSet;
use vstd::prelude::*;
use vstd::string::StringExecFns;

verus! {

broadcast use vstd::laws_cmp::group_laws_cmp;

/// Error type for code generation.
#[derive(Debug, Clone)]
pub enum CodegenError {
    /// An error reported by the backend.
    Llvm(String),
    /// A value that was never defined.
    UndefinedValue(ValueId),
    /// A function that was never declared.
    UndefinedFunction(FunctionId),
    /// A value of the wrong type.
    TypeMismatch { expected: String, actual: String },
    /// Something code generation does not handle.
    Unsupported(String),
}

/// The message of a code generation error.
pub open spec fn codegen_message(e: CodegenError) -> Seq<char> {
    match e {
        CodegenError::Llvm(s) => "LLVM error: "@ + s@,
        CodegenError::UndefinedValue(id) => "Undefined value: ValueId("@ + decimal(id.0 as nat)
            + ")"@,
        CodegenError::UndefinedFunction(id) => "Undefined function: FunctionId("@ + decimal(
            id.0 as nat,
        ) + ")"@,
        CodegenError::TypeMismatch { expected, actual } => "Type mismatch: expected "@ + expected@
            + ", got "@ + actual@,
        CodegenError::Unsupported(s) => s@,
    }
}

impl CodegenError {
    /// The error's message.
    pub fn message(&self) -> (r: String)
        ensures
            r@ == codegen_message(*self),
    {
        match self {
            CodegenError::Llvm(s) => {
                let mut m = String::from_str("LLVM error: ");
                m.append(s.as_str());
                m
            },
            CodegenError::UndefinedValue(id) => {
                let mut m = String::from_str("Undefined value: ValueId(");
                let d = decimal_string(id.0 as usize);
                m.append(d.as_str());
                m.append(")");
                m
            },
            CodegenError::UndefinedFunction(id) => {
                let mut m = String::from_str("Undefined function: FunctionId(");
                let d = decimal_string(id.0 as usize);
                m.append(d.as_str());
                m.append(")");
                m
            },
            CodegenError::TypeMismatch { expected, actual } => {
                let mut m = String::from_str("Type mismatch: expected ");
                m.append(expected.as_str());
                m.append(", got ");
                m.append(actual.as_str());
                m
            },
            CodegenError::Unsupported(s) => s.clone(),
        }
    }
}

/// Whether the statements `stmts[i..]` reach a terminator before anything that
/// could fall through: a revert, return, stop or invalid, or a call of a function in
/// `noreturn` as a statement; calls as statements and bindings are passed over.
pub open spec fn aborts_from(stmts: Seq<Statement>, noreturn: Set<u32>, i: int) -> bool
    decreases stmts.len() - i,
{
    if i < 0 || i >= stmts.len() {
        false
    } else {
        match stmts[i] {
            Statement::Revert { .. }
            | Statement::Return { .. }
            | Statement::Stop
            | Statement::Invalid => true,
            Statement::Expression(Expression::Call { function, .. }) => if noreturn.contains(
                function.0,
            ) {
                true
            } else {
                aborts_from(stmts, noreturn, i + 1)
            },
            Statement::Let { .. } => aborts_from(stmts, noreturn, i + 1),
            _ => false,
        }
    }
}

/// Whether `region` aborts on every path (control never falls off its end). Used to
/// confirm that a validator's failure branch diverges, so that an assumption about
/// the validated argument after it is sound.
///
/// A call only aborts when its callee is in `noreturn`: a call to a function that
/// returns leaves the argument unconstrained. Earlier calls to returning functions
/// are passed over: control continues to the region's terminator.
pub fn then_region_aborts(region: &Region, noreturn: &BTreeSet<u32>) -> (r: bool)
    ensures
        r == aborts_from(region.statements@, noreturn@, 0),
{
    let n = region.statements.len();
    for i in 0..n
        invariant
            n == region.statements@.len(),
            aborts_from(region.statements@, noreturn@, i as int) == aborts_from(
                region.statements@,
                noreturn@,
                0,
            ),
    {
        match &region.statements[i] {
            Statement::Revert { .. } | Statement::Return { .. } | Statement::Stop | Statement::Invalid => {
                return true;
            },
            Statement::Expression(Expression::Call { function, .. }) => {
                if noreturn.contains(&function.0) {
                    return true;
                }
            },
            Statement::Let { .. } => {},
            _ => {
                return false;
            },
        }
    }
    false
}

} // verus!
