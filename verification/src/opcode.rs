//! Instruction layout and encoders/decoders.
//!
//! A 32-bit instruction holds, from the low bits up: the opcode (6 bits),
//! `A` (8 bits), `C` (9 bits) and `B` (9 bits).  `Bx` covers `C` and `B`
//! together (18 bits) and `sBx` is `Bx` shifted down by `MARG_SBX`.
use crate::VmError;
use vstd::prelude::*;

verus! {

pub const SIZE_OP: u32 = 6;
pub const SIZE_A: u32 = 8;
pub const SIZE_B: u32 = 9;
pub const SIZE_C: u32 = 9;
pub const SIZE_BX: u32 = 18;

pub const POS_OP: u32 = 0;
pub const POS_A: u32 = 6;
pub const POS_C: u32 = 14;
pub const POS_B: u32 = 23;
pub const POS_BX: u32 = 14;

/// The bit that marks an `RK` operand as a constant index.
pub const BITRK: u32 = 256;

/// The largest unsigned `Bx`.
pub const MARG_BX: u32 = 262143;

/// The largest signed `sBx`; `sBx = Bx - MARG_SBX`.
pub const MARG_SBX: i32 = 131071;

/// The opcode field of `i`.
pub open spec fn op_of(i: u32) -> int {
    i as int % 64
}

/// The `A` field of `i`.
pub open spec fn a_of(i: u32) -> int {
    (i as int / 64) % 256
}

/// The `C` field of `i`.
pub open spec fn c_of(i: u32) -> int {
    (i as int / 16384) % 512
}

/// The `B` field of `i`.
pub open spec fn b_of(i: u32) -> int {
    (i as int / 8388608) % 512
}

/// The `Bx` field of `i`.
pub open spec fn bx_of(i: u32) -> int {
    i as int / 16384
}

/// The instruction with the given `op`, `A`, `B`, `C` fields, each cut to its width.
pub open spec fn abc_of(op: u32, a: u32, b: u32, c: u32) -> int {
    op as int % 64 + (a as int % 256) * 64 + (c as int % 512) * 16384 + (b as int % 512)
        * 8388608
}

/// The instruction with the given `op`, `A`, `Bx` fields, each cut to its width.
pub open spec fn abx_of(op: u32, a: u32, bx: int) -> int {
    op as int % 64 + (a as int % 256) * 64 + (bx % 262144) * 16384
}

spec fn mask_of(size: u32) -> u32 {
    ((1u32 << size) - 1u32) as u32
}

#[inline]
fn mask(size: u32) -> (r: u32)
    requires
        size < 32,
    ensures
        r == mask_of(size),
{
    assert(size < 32 ==> (1u32 << size) >= 1u32) by (bit_vector);
    (1u32 << size) - 1
}

#[inline]
fn get(i: &u32, pos: u32, size: u32) -> (r: u32)
    requires
        pos < 32,
        size < 32,
    ensures
        r == (*i >> pos) & mask_of(size),
{
    (*i >> pos) & mask(size)
}

#[inline]
fn set(i: u32, pos: u32, size: u32, v: u32) -> (r: u32)
    requires
        pos < 32,
        size < 32,
    ensures
        r == (i & !(mask_of(size) << pos)) | ((v & mask_of(size)) << pos),
{
    let m = mask(size) << pos;
    (i & !m) | ((v & mask(size)) << pos)
}

/// The opcode field.
#[inline]
pub fn op(i: &u32) -> (r: u32)
    ensures
        r == op_of(*i),
{
    let r = get(i, POS_OP, SIZE_OP);
    let x = *i;
    assert(((x >> 0u32) & (((1u32 << 6u32) - 1u32) as u32)) == x % 64) by (bit_vector);
    r
}

/// The `A` field.
#[inline]
pub fn a(i: &u32) -> (r: u32)
    ensures
        r == a_of(*i),
{
    let r = get(i, POS_A, SIZE_A);
    let x = *i;
    assert(((x >> 6u32) & (((1u32 << 8u32) - 1u32) as u32)) == (x / 64) % 256) by (bit_vector);
    r
}

/// The `B` field.
#[inline]
pub fn b(i: &u32) -> (r: u32)
    ensures
        r == b_of(*i),
{
    let r = get(i, POS_B, SIZE_B);
    let x = *i;
    assert(((x >> 23u32) & (((1u32 << 9u32) - 1u32) as u32)) == (x / 8388608) % 512)
        by (bit_vector);
    r
}

/// The `C` field.
#[inline]
pub fn c(i: &u32) -> (r: u32)
    ensures
        r == c_of(*i),
{
    let r = get(i, POS_C, SIZE_C);
    let x = *i;
    assert(((x >> 14u32) & (((1u32 << 9u32) - 1u32) as u32)) == (x / 16384) % 512)
        by (bit_vector);
    r
}

/// The `Bx` field.
#[inline]
pub fn bx(i: &u32) -> (r: u32)
    ensures
        r == bx_of(*i),
        r <= MARG_BX,
{
    let r = get(i, POS_BX, SIZE_BX);
    let x = *i;
    assert(((x >> 14u32) & (((1u32 << 18u32) - 1u32) as u32)) == x / 16384) by (bit_vector);
    assert(x / 16384 <= 262143) by (bit_vector);
    r
}

/// The signed `sBx` field: `Bx - MARG_SBX`.
#[inline]
pub fn sbx(i: &u32) -> (r: i32)
    ensures
        r == bx_of(*i) - MARG_SBX,
        -MARG_SBX <= r <= MARG_SBX + 1,
{
    bx(i) as i32 - MARG_SBX
}

/// Builds an `iABx` instruction.
#[inline]
pub fn abx(op: u32, a: u32, bx: u32) -> (r: u32)
    ensures
        r == abx_of(op, a, bx as int),
{
    let mut i: u32 = 0;
    i = set(i, POS_OP, SIZE_OP, op);
    let i1: u32 = i;
    i = set(i, POS_A, SIZE_A, a);
    let i2: u32 = i;
    i = set(i, POS_BX, SIZE_BX, bx);
    assert(i == ((op % 64) + (a % 256) * 64 + (bx % 262144) * 16384) as u32) by (bit_vector)
        requires
            i1 == (0u32 & !((((1u32 << 6u32) - 1u32) as u32) << 0u32)) | ((op & (((1u32
                << 6u32) - 1u32) as u32)) << 0u32),
            i2 == (i1 & !((((1u32 << 8u32) - 1u32) as u32) << 6u32)) | ((a & (((1u32 << 8u32)
                - 1u32) as u32)) << 6u32),
            i == (i2 & !((((1u32 << 18u32) - 1u32) as u32) << 14u32)) | ((bx & (((1u32
                << 18u32) - 1u32) as u32)) << 14u32),
    ;
    i
}

/// Builds an `iABC` instruction.
#[inline]
pub fn abc(op: u32, a: u32, b: u32, c: u32) -> (r: u32)
    ensures
        r == abc_of(op, a, b, c),
{
    let mut i: u32 = 0;
    i = set(i, POS_OP, SIZE_OP, op);
    let i1: u32 = i;
    i = set(i, POS_A, SIZE_A, a);
    let i2: u32 = i;
    i = set(i, POS_B, SIZE_B, b);
    let i3: u32 = i;
    i = set(i, POS_C, SIZE_C, c);
    assert(i == ((op % 64) + (a % 256) * 64 + (c % 512) * 16384 + (b % 512) * 8388608) as u32)
        by (bit_vector)
        requires
            i1 == (0u32 & !((((1u32 << 6u32) - 1u32) as u32) << 0u32)) | ((op & (((1u32
                << 6u32) - 1u32) as u32)) << 0u32),
            i2 == (i1 & !((((1u32 << 8u32) - 1u32) as u32) << 6u32)) | ((a & (((1u32 << 8u32)
                - 1u32) as u32)) << 6u32),
            i3 == (i2 & !((((1u32 << 9u32) - 1u32) as u32) << 23u32)) | ((b & (((1u32
                << 9u32) - 1u32) as u32)) << 23u32),
            i == (i3 & !((((1u32 << 9u32) - 1u32) as u32) << 14u32)) | ((c & (((1u32 << 9u32)
                - 1u32) as u32)) << 14u32),
    ;
    i
}

/// Builds an `iAsBx` instruction; `sBx` is stored as `sBx + MARG_SBX`.
#[inline]
pub fn asbx(op: u32, a: u32, sbx: i32) -> (r: u32)
    requires
        sbx + MARG_SBX <= i32::MAX,
    ensures
        r == abx_of(op, a, sbx + MARG_SBX),
{
    let biased = sbx + MARG_SBX;
    let r = abx(op, a, biased as u32);
    assert((biased as u32) as int % 262144 == biased as int % 262144) by (bit_vector);
    r
}

/// The instructions the machine executes.
#[derive(Clone, Copy, Debug, PartialEq, Eq, Structural)]
pub enum Opcode {
    /// `R[A] = K[Bx]`
    LoadK,
    /// `R[A] = R[B]`
    Move,
    /// `R[A] = RK[B] + RK[C]`
    Add,
    /// `if (RK[B] == RK[C]) != A then pc++`
    Eq,
    /// `if (RK[B] < RK[C]) != A then pc++`
    Lt,
    /// `pc += sBx`
    Jmp,
    /// `R[A](R[A+1] .. R[A+B-1])`, keeping `C-1` results (all of them when `C = 0`);
    /// with `B = 0` the arguments run up to the effective top.
    Call,
    /// Copies `B-1` varargs (all of them when `B = 0`) into `R[A] ..`.
    Vararg,
    /// `return R[A](...)`, replacing the running frame by the callee's.
    TailCall,
    /// Returns `B-1` values from `R[A]` (up to the effective top when `B = 0`).
    Return,
    /// `R[A] = RK[B] * RK[C]`
    Mul,
    /// `R[A] = RK[B] / RK[C]`
    Div,
    /// `if truthy(R[A]) != (C == 1) then pc++`; only `nil` and `false` are not truthy.
    Test,
    /// `R[A] = closure(proto B)` capturing the values of `R[A+1] .. R[A+C]`.
    Closure,
    /// `R[A] = upvalue[B]` of the running closure.
    GetUpval,
    /// Generic `for`, first half: `R[A+3] .. R[A+2+C] = R[A](R[A+1], R[A+2])`.
    TForCall,
    /// Generic `for`, second half: `if R[A+3] != nil { R[A+2] = R[A+3]; pc += sBx }`.
    TForLoop,
}

/// The number that encodes `o` in the opcode field.
pub open spec fn opcode_number(o: Opcode) -> u32 {
    match o {
        Opcode::LoadK => 0,
        Opcode::Move => 1,
        Opcode::Add => 2,
        Opcode::Eq => 3,
        Opcode::Lt => 4,
        Opcode::Jmp => 5,
        Opcode::Return => 6,
        Opcode::Call => 7,
        Opcode::Vararg => 8,
        Opcode::TailCall => 9,
        Opcode::Mul => 11,
        Opcode::Div => 12,
        Opcode::Test => 13,
        Opcode::Closure => 14,
        Opcode::GetUpval => 15,
        Opcode::TForCall => 16,
        Opcode::TForLoop => 17,
    }
}

/// The opcode numbered `n`, if there is one.
pub open spec fn opcode_from_number(n: int) -> Option<Opcode> {
    if n == 0 {
        Some(Opcode::LoadK)
    } else if n == 1 {
        Some(Opcode::Move)
    } else if n == 2 {
        Some(Opcode::Add)
    } else if n == 3 {
        Some(Opcode::Eq)
    } else if n == 4 {
        Some(Opcode::Lt)
    } else if n == 5 {
        Some(Opcode::Jmp)
    } else if n == 6 {
        Some(Opcode::Return)
    } else if n == 7 {
        Some(Opcode::Call)
    } else if n == 8 {
        Some(Opcode::Vararg)
    } else if n == 9 {
        Some(Opcode::TailCall)
    } else if n == 11 {
        Some(Opcode::Mul)
    } else if n == 12 {
        Some(Opcode::Div)
    } else if n == 13 {
        Some(Opcode::Test)
    } else if n == 14 {
        Some(Opcode::Closure)
    } else if n == 15 {
        Some(Opcode::GetUpval)
    } else if n == 16 {
        Some(Opcode::TForCall)
    } else if n == 17 {
        Some(Opcode::TForLoop)
    } else {
        None
    }
}

impl Opcode {
    /// Decodes the opcode field of `i`.
    pub fn decode<N>(i: &u32) -> (r: Result<Opcode, VmError<N>>)
        ensures
            match opcode_from_number(op_of(*i)) {
                Some(o) => r == Ok::<Opcode, VmError<N>>(o),
                None => r == Err::<Opcode, VmError<N>>(VmError::UnknownOpcode(op_of(*i) as u32)),
            },
    {
        match op(i) {
            0 => Ok(Opcode::LoadK),
            1 => Ok(Opcode::Move),
            2 => Ok(Opcode::Add),
            3 => Ok(Opcode::Eq),
            4 => Ok(Opcode::Lt),
            5 => Ok(Opcode::Jmp),
            6 => Ok(Opcode::Return),
            7 => Ok(Opcode::Call),
            8 => Ok(Opcode::Vararg),
            9 => Ok(Opcode::TailCall),
            11 => Ok(Opcode::Mul),
            12 => Ok(Opcode::Div),
            13 => Ok(Opcode::Test),
            14 => Ok(Opcode::Closure),
            15 => Ok(Opcode::GetUpval),
            16 => Ok(Opcode::TForCall),
            17 => Ok(Opcode::TForLoop),
            other => Err(VmError::UnknownOpcode(other)),
        }
    }

    /// The number that encodes this opcode.
    pub fn encode(&self) -> (r: u32)
        ensures
            r == opcode_number(*self),
    {
        match self {
            Opcode::LoadK => 0,
            Opcode::Move => 1,
            Opcode::Add => 2,
            Opcode::Eq => 3,
            Opcode::Lt => 4,
            Opcode::Jmp => 5,
            Opcode::Call => 7,
            Opcode::Vararg => 8,
            Opcode::TailCall => 9,
            Opcode::Return => 6,
            Opcode::Mul => 11,
            Opcode::Div => 12,
            Opcode::Test => 13,
            Opcode::Closure => 14,
            Opcode::GetUpval => 15,
            Opcode::TForCall => 16,
            Opcode::TForLoop => 17,
        }
    }
}

/// `LOADK A Bx`
#[inline]
pub fn load_k(a: u32, bx: u32) -> (r: u32)
    ensures
        r == abx_of(0, a, bx as int),
{
    abx(0, a, bx)
}

/// `MOVE A B`
#[inline]
pub fn move_(a: u32, b: u32, c: u32) -> (r: u32)
    ensures
        r == abc_of(1, a, b, c),
{
    abc(1, a, b, c)
}

/// `ADD A B C`
#[inline]
pub fn add(a: u32, b: u32, c: u32) -> (r: u32)
    ensures
        r == abc_of(2, a, b, c),
{
    abc(2, a, b, c)
}

/// `EQ A B C`
#[inline]
pub fn eq(a: u32, b: u32, c: u32) -> (r: u32)
    ensures
        r == abc_of(3, a, b, c),
{
    abc(3, a, b, c)
}

/// `LT A B C`
#[inline]
pub fn lt(a: u32, b: u32, c: u32) -> (r: u32)
    ensures
        r == abc_of(4, a, b, c),
{
    abc(4, a, b, c)
}

/// `JMP` with `A` and the raw `Bx` field (`sBx + MARG_SBX`).
#[inline]
pub fn jmp(a: u32, bx: u32) -> (r: u32)
    ensures
        r == abx_of(5, a, bx as int),
{
    abx(5, a, bx)
}

/// `CALL A B C`
#[inline]
pub fn call(a: u32, b: u32, c: u32) -> (r: u32)
    ensures
        r == abc_of(7, a, b, c),
{
    abc(7, a, b, c)
}

/// `VARARG A B`
#[inline]
pub fn vararg(a: u32, b: u32, c: u32) -> (r: u32)
    ensures
        r == abc_of(8, a, b, c),
{
    abc(8, a, b, c)
}

/// `TAILCALL A B C`
#[inline]
pub fn tail_call(a: u32, b: u32, c: u32) -> (r: u32)
    ensures
        r == abc_of(9, a, b, c),
{
    abc(9, a, b, c)
}

/// `RETURN A B`
#[inline]
pub fn return_(a: u32, b: u32, c: u32) -> (r: u32)
    ensures
        r == abc_of(6, a, b, c),
{
    abc(6, a, b, c)
}

/// `MUL A B C`
#[inline]
pub fn mul(a: u32, b: u32, c: u32) -> (r: u32)
    ensures
        r == abc_of(11, a, b, c),
{
    abc(11, a, b, c)
}

/// `DIV A B C`
#[inline]
pub fn div(a: u32, b: u32, c: u32) -> (r: u32)
    ensures
        r == abc_of(12, a, b, c),
{
    abc(12, a, b, c)
}

/// `TEST A B C`
#[inline]
pub fn test_(a: u32, b: u32, c: u32) -> (r: u32)
    ensures
        r == abc_of(13, a, b, c),
{
    abc(13, a, b, c)
}

/// `CLOSURE A B C`
#[inline]
pub fn closure(a: u32, b: u32, c: u32) -> (r: u32)
    ensures
        r == abc_of(14, a, b, c),
{
    abc(14, a, b, c)
}

/// `GETUPVAL A B`
#[inline]
pub fn get_upval(a: u32, b: u32, c: u32) -> (r: u32)
    ensures
        r == abc_of(15, a, b, c),
{
    abc(15, a, b, c)
}

/// `TFORCALL A C`
#[inline]
pub fn tfor_call(a: u32, b: u32, c: u32) -> (r: u32)
    ensures
        r == abc_of(16, a, b, c),
{
    abc(16, a, b, c)
}

/// `TFORLOOP` with `A` and the raw `Bx` field (`sBx + MARG_SBX`).
#[inline]
pub fn tfor_loop(a: u32, bx: u32) -> (r: u32)
    ensures
        r == abx_of(17, a, bx as int),
{
    abx(17, a, bx)
}

/// Decoding the opcode number of an opcode gives it back, and every opcode
/// number names exactly one opcode.
pub proof fn lemma_opcode_roundtrip(o: Opcode, n: int)
    ensures
        opcode_from_number(opcode_number(o) as int) == Some(o),
        opcode_number(o) < 18,
        opcode_number(o) != 10,
        opcode_from_number(n) matches Some(p) ==> opcode_number(p) == n,
        opcode_from_number(n) is Some <==> (0 <= n < 10 || 11 <= n < 18),
{
}

/// The fields of an `iABC` instruction read back what was written, for
/// values that fit their widths.
pub proof fn lemma_abc_fields(op: u32, a: u32, b: u32, c: u32)
    requires
        op < 64,
        a < 256,
        b < 512,
        c < 512,
    ensures
        abc_of(op, a, b, c) <= u32::MAX,
        op_of(abc_of(op, a, b, c) as u32) == op,
        a_of(abc_of(op, a, b, c) as u32) == a,
        b_of(abc_of(op, a, b, c) as u32) == b,
        c_of(abc_of(op, a, b, c) as u32) == c,
{
    let i: int = abc_of(op, a, b, c);
    assert(i == op + a * 64 + c * 16384 + b * 8388608);
    assert(i % 64 == op as int) by (nonlinear_arith)
        requires
            i == op + a * 64 + c * 16384 + b * 8388608,
            0 <= op < 64,
            0 <= a,
            0 <= b,
            0 <= c,
    ;
    assert((i / 64) % 256 == a as int) by (nonlinear_arith)
        requires
            i == op + a * 64 + c * 16384 + b * 8388608,
            0 <= op < 64,
            0 <= a < 256,
            0 <= b,
            0 <= c,
    ;
    assert((i / 16384) % 512 == c as int) by (nonlinear_arith)
        requires
            i == op + a * 64 + c * 16384 + b * 8388608,
            0 <= op < 64,
            0 <= a < 256,
            0 <= b,
            0 <= c < 512,
    ;
    assert(i / 8388608 == b as int) by (nonlinear_arith)
        requires
            i == op + a * 64 + c * 16384 + b * 8388608,
            0 <= op < 64,
            0 <= a < 256,
            0 <= b < 512,
            0 <= c < 512,
    ;
}

/// The fields of an `iABx` / `iAsBx` instruction read back what was written.
pub proof fn lemma_abx_fields(op: u32, a: u32, bx: int)
    requires
        op < 64,
        a < 256,
        0 <= bx <= MARG_BX,
    ensures
        abx_of(op, a, bx) <= u32::MAX,
        op_of(abx_of(op, a, bx) as u32) == op,
        a_of(abx_of(op, a, bx) as u32) == a,
        bx_of(abx_of(op, a, bx) as u32) == bx,
        bx_of(abx_of(op, a, bx) as u32) - MARG_SBX == bx - MARG_SBX,
{
    let i: int = abx_of(op, a, bx);
    assert(i == op + a * 64 + bx * 16384);
    assert(i % 64 == op as int && (i / 64) % 256 == a as int && i / 16384 == bx)
        by (nonlinear_arith)
        requires
            i == op + a * 64 + bx * 16384,
            0 <= op < 64,
            0 <= a < 256,
            0 <= bx,
    ;
}

} // verus!
