//! The machine: one value stack, call frames over windows of it, and the
//! bytecode interpreter.
//!
//! - `model`: data and its mathematical model
//! - `semantics`: the meaning of every operation, over the model
//! - `common`: error constructors and the number check
//! - `stack`: register and stack access, effective top
//! - `frame`: the running frame, checkpoints and rollback
//! - `call`: calls, tail calls and protected calls
//! - `execute`: the interpreter loop
//! - `laws`: properties that span operations
pub mod call;
pub mod common;
pub mod execute;
pub mod frame;
pub mod laws;
pub mod model;
pub mod semantics;
pub mod stack;

pub use model::Vm;
