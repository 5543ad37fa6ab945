//! A small Lua-style register virtual machine.
//!
//! The machine keeps one value stack shared by all calls; each call frame
//! views a window of it as registers.  Bytecode follows the Lua 5.x
//! `iABC` / `iABx` / `iAsBx` layouts (see [`opcode`]).
//!
//! The numeric domain is a type parameter: the machine moves numbers around
//! and asks the [`LuaNumber`] implementation to compute and compare them.
pub mod frontend;
pub mod opcode;
pub mod proto;
pub mod text;
pub mod vm;

pub use crate::frontend::{compile_str, CompileError};

use vstd::prelude::*;

verus! {

/// The arithmetic a number type offers to the machine.
///
/// The machine treats numbers as opaque values: it copies them between
/// registers, hands them to the arithmetic and comparisons below, and asks
/// for their text when it reports one in a message.  Each operation has a
/// spec counterpart, and the machine's contracts are stated over those: an
/// implementation promises that its operations compute them.
pub trait LuaNumber: Copy {
    /// The sum `self + other`, as the number type defines it.
    spec fn add_spec(self, other: Self) -> Self;

    /// The product `self * other`.
    spec fn mul_spec(self, other: Self) -> Self;

    /// The quotient `self / other`.
    spec fn div_spec(self, other: Self) -> Self;

    /// The number of the decimal digit `d` (0 to 9).
    spec fn digit_spec(d: u8) -> Self;

    /// The negation `-self`.
    spec fn neg_spec(self) -> Self;

    /// The text of the number in messages.
    spec fn text_spec(&self) -> String;

    /// Whether `self == other`.
    spec fn eq_spec(self, other: Self) -> bool;

    /// Whether `self < other`.
    spec fn lt_spec(self, other: Self) -> bool;

    /// The sum `self + other`.
    fn num_add(&self, other: &Self) -> (r: Self)
        ensures
            r == self.add_spec(*other),
    ;

    /// The product `self * other`.
    fn num_mul(&self, other: &Self) -> (r: Self)
        ensures
            r == self.mul_spec(*other),
    ;

    /// The quotient `self / other`.
    fn num_div(&self, other: &Self) -> (r: Self)
        ensures
            r == self.div_spec(*other),
    ;

    /// The number of the decimal digit `d` (0 to 9).
    fn from_digit(d: u8) -> (r: Self)
        requires
            d < 10,
        ensures
            r == Self::digit_spec(d),
    ;

    /// The negation `-self`.
    fn num_neg(&self) -> (r: Self)
        ensures
            r == self.neg_spec(),
    ;

    /// Whether `self == other`.
    fn num_eq(&self, other: &Self) -> (r: bool)
        ensures
            r == self.eq_spec(*other),
    ;

    /// Whether `self < other`.
    fn num_lt(&self, other: &Self) -> (r: bool)
        ensures
            r == self.lt_spec(*other),
    ;

    /// How the number reads in messages.
    fn to_text(&self) -> (s: String)
        ensures
            s@ == self.text_spec()@,
    ;
}

/// A value held in a register, a constant slot, or the stack.
#[derive(Clone, Copy, Debug)]
pub enum Value<N> {
    Number(N),
    /// A Lua function, by the index of its prototype.
    LFn(usize),
    /// A closure, by its index among the machine's closures: a prototype
    /// with the values it captured when it was created.
    Closure(usize),
    Bool(bool),
    Nil,
}

/// Runtime errors of the machine.
#[derive(Clone, Debug)]
pub enum VmError<N> {
    /// `run` was asked to execute while no Lua frame is active.
    NoLuaFrame,
    /// The program counter lies outside the code of the running prototype.
    PcOutOfBounds { pc: usize, code_len: usize },
    /// The opcode field names no known instruction.
    UnknownOpcode(u32),
    /// Kept for callers that match on it; calls with `B = 0` or `C = 0` are supported.
    UnsupportedCall { b: u32, c: u32 },
    /// The called value is not a Lua function.
    NotCallable(Value<N>),
    /// A prototype index lies outside the prototype table.
    ProtoOutOfBounds { index: usize, len: usize },
    /// An operand had the wrong type.
    TypeError { expected: &'static str, got: Value<N> },
    /// A stack, register or constant index lies outside its bound.
    StackOutOfBounds { index: usize, len: usize },
    /// Kept for callers that match on it; the verified machine never panics.
    Panic(String),
    /// The value stack would have to grow beyond [`vm::model::MAX_STACK`] slots.
    StackOverflow,
    /// The step budget of one run was used up.
    StepLimit,
    /// `GETUPVAL` named an upvalue the running function does not have.
    UpvalueOutOfBounds { index: usize, len: usize },
}

/// A decoded `RK` operand: a register or a constant.
#[derive(Clone, Debug)]
pub enum Operand {
    R(usize),
    K(usize),
}

/// Bit 8 of an `RK` operand is set: it names a constant.
pub open spec fn names_constant(rk: u32) -> bool {
    (rk as int / 256) % 2 == 1
}

impl Operand {
    /// Decodes an `RK` operand: with the `BITRK` bit set, the constant whose
    /// index is the rest of the bits; otherwise the register `rk`.
    pub fn decode(rk: u32) -> (o: Operand)
        ensures
            names_constant(rk) ==> o == Operand::K((rk - opcode::BITRK) as usize),
            !names_constant(rk) ==> o == Operand::R(rk as usize),
    {
        assert(((rk & 256u32) != 0) == ((rk / 256) % 2 == 1)) by (bit_vector);
        assert((rk & 256u32) != 0 ==> (rk & !256u32) == rk - 256) by (bit_vector);
        if (rk & opcode::BITRK) != 0 {
            Operand::K((rk & !opcode::BITRK) as usize)
        } else {
            Operand::R(rk as usize)
        }
    }
}

/// Encoding a register or a constant index (below 256) as an `RK` operand
/// and decoding it gives the register or constant back.
pub proof fn lemma_rk_roundtrip(r: u32, k: u32)
    requires
        r < opcode::BITRK,
        k < opcode::BITRK,
    ensures
        !names_constant(r),
        names_constant((k + opcode::BITRK) as u32),
        ((k + opcode::BITRK) as u32 - opcode::BITRK) as usize == k as usize,
{
}

/// Encodes register `r` as an `RK` operand.
pub fn rk_r(r: u32) -> (res: u32)
    ensures
        res == r,
{
    r
}

/// Encodes constant index `k` as an `RK` operand: the `BITRK` bit is set.
pub fn rk_k(k: u32) -> (res: u32)
    ensures
        res == k | opcode::BITRK,
        k < opcode::BITRK ==> res == k + opcode::BITRK,
{
    let res = k | opcode::BITRK;
    assert(k < 256u32 ==> (k | 256u32) == k + 256u32) by (bit_vector);
    res
}

} // verus!
