//! View plans: pure expressions over storage keys, calldata, and chain height
//! that reproduce a view method's response data without executing the contract
//! wasm.
//!
//! Plans are synthesized by differential analysis (module `analysis`): the view
//! runs inside an instrumented interpreter against controlled storage oracles,
//! an expression is fitted to the observed traces, and it is only emitted after
//! matching the wasm byte for byte across randomized verification trials. A
//! consumer that holds the contract's storage can then evaluate the plan instead
//! of simulating.
use vstd::prelude::*;

pub mod copy;
pub mod eval;
pub mod format_laws;
pub mod json;
pub mod laws;
pub mod names;
pub mod parse;
pub mod roundtrip;
pub mod term;
pub mod unambiguous;

pub use parse::{parse_bool, parse_bytes, parse_num, parse_plan, ParseError};
pub use eval::{eval_bool, eval_bytes, eval_num, eval_plan, PlanEnv, PlanError, World, LOOP_LIMIT};
pub use term::{BoolExpr, BoolTerm, BytesExpr, BytesTerm, Comparison, NumExpr, NumOp, NumTerm};

verus! {

pub const PLAN_VERSION: u32 = 1;

/// A verified plan attached to a view method.
#[derive(Debug, PartialEq, Eq)]
pub struct Plan {
    pub expr: BytesExpr,
    /// Number of randomized differential trials the plan survived against the
    /// wasm. Plans are probabilistically verified, not proven.
    pub trials: u32,
}

} // verus!
