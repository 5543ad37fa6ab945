//! Function prototypes: bytecode, constants and the calling shape.
use crate::Value;
use vstd::prelude::*;

verus! {

/// A compiled function.
#[derive(Debug)]
pub struct Proto<N> {
    pub code: Vec<u32>,
    pub consts: Vec<Value<N>>,
    /// The number of fixed parameters (not counting `...`).
    ///
    /// Fixed parameters occupy registers `R0 .. R(num_params - 1)`.
    pub num_params: usize,
    /// Whether the function takes `...`: extra arguments are then kept as varargs
    /// and read with `VARARG`; otherwise they are dropped.
    pub is_vararg: bool,
    /// The size of the register window the function needs.
    pub max_stack: usize,
}

} // verus!
