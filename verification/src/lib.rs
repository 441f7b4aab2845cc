//! Verified passes of the newyork IR: SSA construction helpers, validation,
//! width inference and simplification.

pub mod ir;
pub mod uint;
pub mod ssa;
pub mod evm;
pub mod fold;
pub mod text;
pub mod validate;
pub mod type_inference;
pub mod inference_model;
pub mod walk;
pub mod operands;
pub mod rename;
pub mod outline;
pub mod dce;
pub mod callvalue;
pub mod fuzzy;
pub mod literals;
pub mod fuzzy_plan;
pub mod fuzzy_dedup;
pub mod codegen;
pub mod ir_facts;
pub mod keccak_fold;
pub mod canon;
pub mod dedup;
pub mod simplify;
pub mod simplified;
pub mod width_laws;
pub mod validate_laws;
