//! The meaning of the machine's operations over [`VmModel`].
//!
//! Every executable operation of the machine is specified by one of these
//! functions.  Arithmetic and comparisons are those of the number type,
//! through the spec counterparts of [`LuaNumber`].
use crate::opcode::{a_of, b_of, bx_of, c_of, op_of, opcode_from_number, Opcode, MARG_SBX};
use crate::proto::Proto;
use crate::vm::model::{ClosureModel, FrameModel, ResultsSpec, VmModel, MAX_STACK};
use crate::{LuaNumber, Value, VmError};
use vstd::prelude::*;

verus! {

/// What one interpreter step leads to.
pub enum Step<N> {
    /// The machine goes on in this state.
    Continue(VmModel<N>),
    /// The outermost call returned these values; the machine is in this state.
    Done(VmModel<N>, Seq<Value<N>>),
}

/// An executable outcome agrees with a specified one: the same error, or
/// success with the machine in the specified state `m`.
pub open spec fn agrees<N>(
    spec: Result<VmModel<N>, VmError<N>>,
    exec: Result<(), VmError<N>>,
    m: VmModel<N>,
) -> bool {
    match spec {
        Ok(m2) => exec is Ok && m == m2,
        Err(e) => exec == Err::<(), VmError<N>>(e),
    }
}

pub open spec fn oob<N>(index: int, len: int) -> VmError<N> {
    VmError::StackOutOfBounds { index: index as usize, len: len as usize }
}

pub open spec fn proto_oob<N>(index: int, len: int) -> VmError<N> {
    VmError::ProtoOutOfBounds { index: index as usize, len: len as usize }
}

/// `s` extended with `Nil` slots up to length `n`.
pub open spec fn grown<N>(s: Seq<Value<N>>, n: int) -> Seq<Value<N>> {
    if n > s.len() {
        s + Seq::new((n - s.len()) as nat, |_i: int| Value::Nil)
    } else {
        s
    }
}

/// `s` with the slots in `[lo, hi)` set to `Nil`.
pub open spec fn cleared<N>(s: Seq<Value<N>>, lo: int, hi: int) -> Seq<Value<N>> {
    Seq::new(s.len(), |i: int| if lo <= i < hi { Value::Nil } else { s[i] })
}

/// `s` with `vals` written from slot `at` on.
pub open spec fn written<N>(s: Seq<Value<N>>, at: int, vals: Seq<Value<N>>) -> Seq<Value<N>> {
    Seq::new(s.len(), |i: int| if at <= i < at + vals.len() { vals[i - at] } else { s[i] })
}

/// The first `n` of `vals`, with `Nil` for the missing ones.
pub open spec fn padded<N>(vals: Seq<Value<N>>, n: int) -> Seq<Value<N>> {
    Seq::new(n as nat, |i: int| if i < vals.len() { vals[i] } else { Value::Nil })
}

pub open spec fn with_stack<N>(m: VmModel<N>, s: Seq<Value<N>>) -> VmModel<N> {
    VmModel { stack: s, frames: m.frames, top: m.top, closures: m.closures }
}

/// The running frame.
pub open spec fn current<N>(m: VmModel<N>) -> FrameModel<N> {
    m.frames.last()
}

/// The running frame is a Lua frame.
pub open spec fn has_lua_frame<N>(m: VmModel<N>) -> bool {
    m.frames.len() > 0 && current(m).proto_id is Some
}

pub open spec fn with_current<N>(m: VmModel<N>, f: FrameModel<N>) -> VmModel<N> {
    VmModel {
        stack: m.stack,
        frames: m.frames.update(m.frames.len() - 1, f),
        top: m.top,
        closures: m.closures,
    }
}

/// The running frame's program counter moved by `d`.
pub open spec fn bump_pc<N>(m: VmModel<N>, d: int) -> VmModel<N> {
    let f = current(m);
    with_current(
        m,
        FrameModel {
            proto_id: f.proto_id,
            pc: f.pc + d,
            func: f.func,
            base: f.base,
            top: f.top,
            varargs: f.varargs,
            results: f.results,
            upvalues: f.upvalues,
        },
    )
}

/// Setting the effective top to `t`: the stack grows with `Nil` up to `t`,
/// and when the top goes down, the slots it leaves become `Nil`.
pub open spec fn set_top_spec<N>(m: VmModel<N>, t: int) -> Result<VmModel<N>, VmError<N>> {
    if t > MAX_STACK {
        Err(VmError::StackOverflow)
    } else {
        let s1 = grown(m.stack, t);
        Ok(
            VmModel {
                stack: if t < m.top {
                    cleared(s1, t, m.top)
                } else {
                    s1
                },
                frames: m.frames,
                top: t,
                closures: m.closures,
            },
        )
    }
}

/// Reading register `r` of the running frame.
pub open spec fn rget_spec<N>(m: VmModel<N>, r: int) -> Result<Value<N>, VmError<N>> {
    if !has_lua_frame(m) {
        Err(VmError::NoLuaFrame)
    } else {
        let idx = current(m).base + r;
        if idx >= current(m).top {
            Err(oob(idx, current(m).top))
        } else if idx >= m.stack.len() {
            Err(oob(idx, m.stack.len() as int))
        } else {
            Ok(m.stack[idx])
        }
    }
}

/// Writing register `r` of the running frame; the effective top then
/// covers the register.
pub open spec fn rset_spec<N>(m: VmModel<N>, r: int, v: Value<N>) -> Result<
    VmModel<N>,
    VmError<N>,
> {
    if !has_lua_frame(m) {
        Err(VmError::NoLuaFrame)
    } else {
        let idx = current(m).base + r;
        if idx >= current(m).top {
            Err(oob(idx, current(m).top))
        } else if idx >= m.stack.len() {
            Err(oob(idx, m.stack.len() as int))
        } else {
            Ok(
                VmModel {
                    stack: m.stack.update(idx, v),
                    frames: m.frames,
                    top: if m.top > idx {
                        m.top
                    } else {
                        idx + 1
                    },
                    closures: m.closures,
                },
            )
        }
    }
}

/// Reading `n` registers from `R[a]` on.
pub open spec fn rget_seq<N>(m: VmModel<N>, a: int, n: nat) -> Result<
    Seq<Value<N>>,
    VmError<N>,
>
    decreases n,
{
    if n == 0 {
        Ok(Seq::empty())
    } else {
        match rget_seq(m, a, (n - 1) as nat) {
            Err(e) => Err(e),
            Ok(s) => match rget_spec(m, a + n - 1) {
                Err(e) => Err(e),
                Ok(v) => Ok(s.push(v)),
            },
        }
    }
}

/// Writing `vals` to the registers from `R[a]` on, one after the other.
pub open spec fn rset_seq<N>(m: VmModel<N>, a: int, vals: Seq<Value<N>>) -> Result<
    VmModel<N>,
    VmError<N>,
>
    decreases vals.len(),
{
    if vals.len() == 0 {
        Ok(m)
    } else {
        match rset_seq(m, a, vals.drop_last()) {
            Err(e) => Err(e),
            Ok(m1) => rset_spec(m1, a + vals.len() - 1, vals.last()),
        }
    }
}

/// Reading an `RK` operand (`x < 512`): a constant of prototype `pid` when
/// `x >= 256`, else a register.
pub open spec fn rk_spec<N>(m: VmModel<N>, protos: Seq<Proto<N>>, pid: int, x: int) -> Result<
    Value<N>,
    VmError<N>,
> {
    if x >= 256 {
        let k = x - 256;
        if pid >= protos.len() {
            Err(proto_oob(pid, protos.len() as int))
        } else if k >= protos[pid].consts@.len() {
            Err(oob(k, protos[pid].consts@.len() as int))
        } else {
            Ok(protos[pid].consts@[k])
        }
    } else {
        rget_spec(m, x)
    }
}

/// The number a value holds, or the type error for it.
pub open spec fn number_of<N>(v: Value<N>) -> Result<N, VmError<N>> {
    match v {
        Value::Number(n) => Ok(n),
        _ => Err(VmError::TypeError { expected: "number", got: v }),
    }
}

/// The running prototype and the instruction at the program counter.
pub open spec fn fetch_spec<N>(m: VmModel<N>, protos: Seq<Proto<N>>) -> Result<
    (int, u32),
    VmError<N>,
> {
    if !has_lua_frame(m) {
        Err(VmError::NoLuaFrame)
    } else {
        let pid = current(m).proto_id->0 as int;
        let pc: int = if current(m).pc < 0 {
            usize::MAX as int
        } else {
            current(m).pc
        };
        if pid >= protos.len() {
            Err(proto_oob(pid, protos.len() as int))
        } else if pc >= protos[pid].code@.len() {
            Err(VmError::PcOutOfBounds { pc: pc as usize, code_len: protos[pid].code@.len() as usize })
        } else {
            Ok((pid, protos[pid].code@[pc]))
        }
    }
}

/// The result count a `CALL` with field `C` asks for.
pub open spec fn results_of(c: int) -> ResultsSpec {
    if c == 0 {
        ResultsSpec::Multi
    } else {
        ResultsSpec::Fixed((c - 1) as usize)
    }
}

/// The argument count of a call of the function in slot `fi` with field `B`:
/// `B - 1`, or up to the effective top when `B = 0`.
pub open spec fn nargs_of<N>(m: VmModel<N>, fi: int, b: int) -> int {
    if b == 0 {
        if m.top >= fi + 1 {
            m.top - (fi + 1)
        } else {
            0
        }
    } else {
        b - 1
    }
}

/// Arranging the arguments of a call of prototype `pid` with `nargs`
/// arguments after slot `fi`, as Lua 5.x does:
/// - the effective top first closes the argument area (`fi + 1 + nargs`);
/// - a vararg function keeps the arguments beyond its fixed parameters as varargs;
/// - missing fixed parameters become `Nil`;
/// - the effective top then ends at the fixed parameters, so extra
///   arguments are dropped from the registers;
/// - the register window `base .. base + max(max_stack, num_params)` exists
///   and is `Nil` above the parameters.
///
/// Gives the new state, `base`, the window end and the varargs.
pub open spec fn prepare_spec<N>(
    m: VmModel<N>,
    protos: Seq<Proto<N>>,
    pid: int,
    fi: int,
    nargs: int,
) -> Result<(VmModel<N>, int, int, Seq<Value<N>>), VmError<N>> {
    if pid >= protos.len() {
        Err(proto_oob(pid, protos.len() as int))
    } else {
        let p = protos[pid];
        let np = p.num_params as int;
        let base = fi + 1;
        let arg_end = base + nargs;
        match set_top_spec(m, arg_end) {
            Err(e) => Err(e),
            Ok(m1) => {
                let va = if p.is_vararg && nargs > np {
                    m1.stack.subrange(base + np, arg_end)
                } else {
                    Seq::empty()
                };
                let need = base + np;
                if need > MAX_STACK {
                    Err(VmError::StackOverflow)
                } else {
                    let m2 = if nargs < np {
                        with_stack(m1, cleared(grown(m1.stack, need), arg_end, need))
                    } else {
                        m1
                    };
                    match set_top_spec(m2, need) {
                        Err(e) => Err(e),
                        Ok(m3) => {
                            let cap = base + if p.max_stack >= p.num_params {
                                p.max_stack as int
                            } else {
                                np
                            };
                            if cap > MAX_STACK {
                                Err(VmError::StackOverflow)
                            } else {
                                Ok(
                                    (
                                        with_stack(m3, cleared(grown(m3.stack, cap), need, cap)),
                                        base,
                                        cap,
                                        va,
                                    ),
                                )
                            }
                        },
                    }
                }
            },
        }
    }
}

/// What calling `v` runs: a plain function runs its prototype with no
/// upvalues, a closure its prototype with the values it captured; other
/// values are not callable.
pub open spec fn callee_of<N>(m: VmModel<N>, v: Value<N>) -> Option<(usize, Seq<Value<N>>)> {
    match v {
        Value::LFn(pid) => Some((pid, Seq::empty())),
        Value::Closure(c) => if c < m.closures.len() {
            Some((m.closures[c as int].proto_id, m.closures[c as int].upvalues))
        } else {
            None
        },
        _ => None,
    }
}

/// Calling the function in slot `fi` with `nargs` arguments: a new frame
/// runs it and will write its results from slot `target` on.
pub open spec fn call_spec<N>(
    m: VmModel<N>,
    protos: Seq<Proto<N>>,
    fi: int,
    nargs: int,
    results: ResultsSpec,
    target: int,
) -> Result<VmModel<N>, VmError<N>> {
    if fi >= m.stack.len() {
        Err(oob(fi, m.stack.len() as int))
    } else {
        match callee_of(m, m.stack[fi]) {
            Some((pid, ups)) => match prepare_spec(m, protos, pid as int, fi, nargs) {
                Err(e) => Err(e),
                Ok((m2, base, cap, va)) => Ok(
                    VmModel {
                        stack: m2.stack,
                        frames: m2.frames.push(
                            FrameModel {
                                proto_id: Some(pid),
                                pc: 0,
                                func: target,
                                base,
                                top: cap,
                                varargs: va,
                                results,
                                upvalues: ups,
                            },
                        ),
                        top: m2.top,
                        closures: m2.closures,
                    },
                ),
            },
            None => Err(VmError::NotCallable(m.stack[fi])),
        }
    }
}

/// A tail call of the function in slot `fi`: its frame replaces the running
/// one and inherits where and how many results go back.
pub open spec fn tail_call_spec<N>(
    m: VmModel<N>,
    protos: Seq<Proto<N>>,
    fi: int,
    nargs: int,
) -> Result<VmModel<N>, VmError<N>> {
    if !has_lua_frame(m) {
        Err(VmError::NoLuaFrame)
    } else if fi >= m.stack.len() {
        Err(oob(fi, m.stack.len() as int))
    } else {
        match callee_of(m, m.stack[fi]) {
            Some((pid, ups)) => match prepare_spec(m, protos, pid as int, fi, nargs) {
                Err(e) => Err(e),
                Ok((m2, base, cap, va)) => Ok(
                    with_current(
                        m2,
                        FrameModel {
                            proto_id: Some(pid),
                            pc: 0,
                            func: current(m).func,
                            base,
                            top: cap,
                            varargs: va,
                            results: current(m).results,
                            upvalues: ups,
                        },
                    ),
                ),
            },
            None => Err(VmError::NotCallable(m.stack[fi])),
        }
    }
}

/// The values `RETURN A B` hands back: `B - 1` registers from `R[A]`, or
/// `R[A]` up to the effective top when `B = 0`.
pub open spec fn return_values<N>(m: VmModel<N>, a: int, b: int) -> Result<
    Seq<Value<N>>,
    VmError<N>,
> {
    if b == 0 {
        let start = current(m).base + a;
        if m.top < start {
            Ok(Seq::empty())
        } else {
            Ok(m.stack.subrange(start, m.top))
        }
    } else {
        rget_seq(m, a, (b - 1) as nat)
    }
}

/// The state after writing `rets` back at slot `fi` for a call that asked
/// for `results`, the callee's frame being gone already.
pub open spec fn write_back_spec<N>(m: VmModel<N>, fi: int, results: ResultsSpec, rets: Seq<Value<N>>) -> Result<
    VmModel<N>,
    VmError<N>,
> {
    let n: int = match results {
        ResultsSpec::Fixed(n) => n as int,
        ResultsSpec::Multi => rets.len() as int,
    };
    if n == 0 {
        set_top_spec(with_stack(m, m.stack.update(fi, Value::Nil)), fi)
    } else if fi + n > MAX_STACK {
        Err(VmError::StackOverflow)
    } else {
        set_top_spec(with_stack(m, written(grown(m.stack, fi + n), fi, padded(rets, n))), fi + n)
    }
}

/// The values an outermost call returns to the host.
pub open spec fn host_values<N>(results: ResultsSpec, rets: Seq<Value<N>>) -> Seq<Value<N>> {
    match results {
        ResultsSpec::Fixed(n) => padded(rets, n as int),
        ResultsSpec::Multi => rets,
    }
}

/// `RETURN A B`: the running frame goes away and its values are written
/// back for its caller; when only the base frame is left, the run is done.
pub open spec fn return_spec<N>(m: VmModel<N>, a: int, b: int) -> Result<Step<N>, VmError<N>> {
    let fr = current(m);
    match return_values(m, a, b) {
        Err(e) => Err(e),
        Ok(rets) => {
            let m1 = VmModel { stack: m.stack, frames: m.frames.drop_last(), top: m.top, closures: m.closures };
            if fr.func >= m1.stack.len() {
                Err(oob(fr.func, m1.stack.len() as int))
            } else {
                match write_back_spec(m1, fr.func, fr.results, rets) {
                    Err(e) => Err(e),
                    Ok(m2) => if m2.frames.len() == 1 {
                        Ok(Step::Done(m2, host_values(fr.results, rets)))
                    } else {
                        Ok(Step::Continue(m2))
                    },
                }
            }
        },
    }
}

/// Continue after a step that moves the program counter by one.
pub open spec fn next<N>(r: Result<VmModel<N>, VmError<N>>) -> Result<Step<N>, VmError<N>> {
    match r {
        Err(e) => Err(e),
        Ok(m1) => Ok(Step::Continue(bump_pc(m1, 1))),
    }
}

/// The two number operands of an arithmetic or comparison instruction.
pub open spec fn operands<N>(m: VmModel<N>, protos: Seq<Proto<N>>, pid: int, i: u32) -> Result<
    (N, N),
    VmError<N>,
> {
    match rk_spec(m, protos, pid, b_of(i)) {
        Err(e) => Err(e),
        Ok(vx) => match number_of(vx) {
            Err(e) => Err(e),
            Ok(x) => match rk_spec(m, protos, pid, c_of(i)) {
                Err(e) => Err(e),
                Ok(vy) => match number_of(vy) {
                    Err(e) => Err(e),
                    Ok(y) => Ok((x, y)),
                },
            },
        },
    }
}

/// `m` with closure `c` added after the existing ones.
pub open spec fn with_closure<N>(m: VmModel<N>, c: ClosureModel<N>) -> VmModel<N> {
    VmModel { stack: m.stack, frames: m.frames, top: m.top, closures: m.closures.push(c) }
}

/// A conditional skip: the next instruction is skipped when the test's
/// outcome differs from `A`.
pub open spec fn test_step<N>(m: VmModel<N>, outcome: bool, a: int) -> VmModel<N> {
    let m1 = if outcome != (a == 1) {
        bump_pc(m, 1)
    } else {
        m
    };
    bump_pc(m1, 1)
}

/// Whether a value counts as true in a condition: all but `nil` and `false`.
pub open spec fn truthy<N>(v: Value<N>) -> bool {
    !(v is Nil || v == Value::<N>::Bool(false))
}

/// One interpreter step: fetch, decode and execute the instruction at the
/// running frame's program counter.
#[verifier::opaque]
pub open spec fn step_spec<N: LuaNumber>(m: VmModel<N>, protos: Seq<Proto<N>>) -> Result<
    Step<N>,
    VmError<N>,
> {
    match fetch_spec(m, protos) {
        Err(e) => Err(e),
        Ok((pid, i)) => match opcode_from_number(op_of(i)) {
            None => Err(VmError::UnknownOpcode(op_of(i) as u32)),
            Some(opc) => {
                let a = a_of(i);
                let b = b_of(i);
                let c = c_of(i);
                let fr = current(m);
                match opc {
                    Opcode::LoadK => {
                        let k = bx_of(i);
                        if k >= protos[pid].consts@.len() {
                            Err(oob(k, protos[pid].consts@.len() as int))
                        } else {
                            next(rset_spec(m, a, protos[pid].consts@[k]))
                        }
                    },
                    Opcode::Move => match rget_spec(m, b) {
                        Err(e) => Err(e),
                        Ok(v) => next(rset_spec(m, a, v)),
                    },
                    Opcode::Eq => match operands(m, protos, pid, i) {
                        Err(e) => Err(e),
                        Ok((x, y)) => Ok(Step::Continue(test_step(m, x.eq_spec(y), a))),
                    },
                    Opcode::Lt => match operands(m, protos, pid, i) {
                        Err(e) => Err(e),
                        Ok((x, y)) => Ok(Step::Continue(test_step(m, x.lt_spec(y), a))),
                    },
                    Opcode::Add => match operands(m, protos, pid, i) {
                        Err(e) => Err(e),
                        Ok((x, y)) => next(rset_spec(m, a, Value::Number(x.add_spec(y)))),
                    },
                    Opcode::Mul => match operands(m, protos, pid, i) {
                        Err(e) => Err(e),
                        Ok((x, y)) => next(rset_spec(m, a, Value::Number(x.mul_spec(y)))),
                    },
                    Opcode::Div => match operands(m, protos, pid, i) {
                        Err(e) => Err(e),
                        Ok((x, y)) => next(rset_spec(m, a, Value::Number(x.div_spec(y)))),
                    },
                    Opcode::Test => match rget_spec(m, a) {
                        Err(e) => Err(e),
                        Ok(v) => Ok(Step::Continue(test_step(m, truthy(v), c))),
                    },
                    Opcode::Closure => match rget_seq(m, a + 1, c as nat) {
                        Err(e) => Err(e),
                        Ok(vals) => next(
                            rset_spec(
                                with_closure(m, ClosureModel { proto_id: b as usize, upvalues: vals }),
                                a,
                                Value::Closure(m.closures.len() as usize),
                            ),
                        ),
                    },
                    Opcode::GetUpval => if b >= fr.upvalues.len() {
                        Err(
                            VmError::UpvalueOutOfBounds {
                                index: b as usize,
                                len: fr.upvalues.len() as usize,
                            },
                        )
                    } else {
                        next(rset_spec(m, a, fr.upvalues[b]))
                    },
                    Opcode::Jmp => Ok(Step::Continue(bump_pc(bump_pc(m, bx_of(i) - MARG_SBX), 1))),
                    Opcode::Vararg => {
                        let n: int = if b == 0 {
                            fr.varargs.len() as int
                        } else {
                            b - 1
                        };
                        next(rset_seq(m, a, padded(fr.varargs, n)))
                    },
                    Opcode::Call => {
                        let fi = fr.base + a;
                        match call_spec(bump_pc(m, 1), protos, fi, nargs_of(m, fi, b), results_of(c), fi) {
                            Err(e) => Err(e),
                            Ok(m1) => Ok(Step::Continue(m1)),
                        }
                    },
                    Opcode::TForCall => {
                        let fi = fr.base + a;
                        match call_spec(bump_pc(m, 1), protos, fi, 2, ResultsSpec::Fixed(c as usize), fi + 3) {
                            Err(e) => Err(e),
                            Ok(m1) => Ok(Step::Continue(m1)),
                        }
                    },
                    Opcode::TForLoop => {
                        let idx = fr.base + a + 3;
                        if idx >= m.stack.len() {
                            Err(oob(idx, m.stack.len() as int))
                        } else if m.stack[idx] is Nil {
                            Ok(Step::Continue(bump_pc(m, 1)))
                        } else {
                            Ok(
                                Step::Continue(
                                    bump_pc(
                                        bump_pc(
                                            with_stack(m, m.stack.update(idx - 1, m.stack[idx])),
                                            bx_of(i) - MARG_SBX,
                                        ),
                                        1,
                                    ),
                                ),
                            )
                        }
                    },
                    Opcode::TailCall => {
                        let fi = fr.base + a;
                        match tail_call_spec(m, protos, fi, nargs_of(m, fi, b)) {
                            Err(e) => Err(e),
                            Ok(m1) => Ok(Step::Continue(m1)),
                        }
                    },
                    Opcode::Return => return_spec(m, a, b),
                }
            },
        },
    }
}

/// The step budget of one run of the interpreter.
pub const MAX_STEPS: usize = usize::MAX;

/// A failed protected call restored the effective top and dropped the
/// frames it pushed (frames it returned from stay gone); the base frame is
/// as it was.
pub open spec fn rolled_back<N>(before: VmModel<N>, after: VmModel<N>) -> bool {
    &&& after.top == before.top
    &&& after.stack.len() >= before.stack.len()
    &&& 1 <= after.frames.len() <= before.frames.len()
    &&& after.frames[0] == before.frames[0]
}

/// Rolling `m` back to a checkpoint of `top` and `nframes` frames: the
/// effective top is set back (the slots it leaves become `Nil`) and the
/// frames above the first `nframes` are dropped (the base frame stays).
pub open spec fn rollback_spec<N>(m: VmModel<N>, top: int, nframes: int) -> VmModel<N> {
    let keep: int = if m.frames.len() < nframes {
        m.frames.len() as int
    } else if nframes < 1 {
        1
    } else {
        nframes
    };
    VmModel {
        stack: set_top_spec(m, top)->Ok_0.stack,
        frames: m.frames.subrange(0, keep),
        top,
        closures: m.closures,
    }
}

/// The outcome of a protected call of the function in slot `func` (below
/// the effective top): the call is set up as `call_spec` says and run for
/// at most `MAX_STEPS` steps; on error the machine is rolled back from the
/// state the error left to the effective top and frame count it had
/// before the call.
pub open spec fn protected_call<N: LuaNumber>(
    m: VmModel<N>,
    protos: Seq<Proto<N>>,
    func: int,
    nargs: int,
    results: ResultsSpec,
    r: Result<Seq<Value<N>>, VmError<N>>,
    after: VmModel<N>,
) -> bool {
    match call_spec(m, protos, func, nargs, results, func) {
        Err(e) => r == Err::<Seq<Value<N>>, VmError<N>>(e) && after == rollback_spec(
            m,
            m.top,
            m.frames.len() as int,
        ) && rolled_back(m, after),
        Ok(m1) => match r {
            Ok(vs) => runs(m1, protos, MAX_STEPS as nat, Ok((after, vs))),
            Err(e) => runs(m1, protos, MAX_STEPS as nat, Err(e)) && after == rollback_spec(
                run_state(m1, protos, MAX_STEPS as nat),
                m.top,
                m.frames.len() as int,
            ) && rolled_back(m, after),
        },
    }
}

/// The first value, or `Nil` when there is none.
pub open spec fn first_or_nil<N>(vs: Seq<Value<N>>) -> Value<N> {
    if vs.len() > 0 {
        vs[0]
    } else {
        Value::Nil
    }
}

/// An executable step outcome agrees with a specified one.
pub open spec fn step_agrees<N>(
    spec: Result<Step<N>, VmError<N>>,
    exec: Result<Option<Vec<Value<N>>>, VmError<N>>,
    m: VmModel<N>,
) -> bool {
    match spec {
        Err(e) => exec == Err::<Option<Vec<Value<N>>>, VmError<N>>(e),
        Ok(Step::Continue(m2)) => exec == Ok::<Option<Vec<Value<N>>>, VmError<N>>(None) && m == m2,
        Ok(Step::Done(m2, vs)) => exec matches Ok(Some(v)) && v@ == vs && m == m2,
    }
}

/// Once reading registers fails, reading more fails the same way.
pub proof fn lemma_rget_seq_err<N>(m: VmModel<N>, a: int, k: nat, n: nat)
    requires
        k <= n,
        rget_seq(m, a, k) is Err,
    ensures
        rget_seq(m, a, n) == rget_seq(m, a, k),
    decreases n,
{
    if n > k {
        lemma_rget_seq_err(m, a, k, (n - 1) as nat);
    }
}

/// Once writing registers fails, writing more fails the same way.
pub proof fn lemma_rset_seq_err<N>(m: VmModel<N>, a: int, vals: Seq<Value<N>>, k: int)
    requires
        0 <= k <= vals.len(),
        rset_seq(m, a, vals.take(k)) is Err,
    ensures
        rset_seq(m, a, vals) == rset_seq(m, a, vals.take(k)),
    decreases vals.len() - k,
{
    if k < vals.len() {
        assert(vals.take(k + 1).drop_last() =~= vals.take(k));
        lemma_rset_seq_err(m, a, vals, k + 1);
    } else {
        assert(vals.take(k) =~= vals);
    }
}

/// A step that goes on to `next` extends every run from `next` to a run
/// from `m` with one more step.
pub proof fn lemma_runs_continue<N: LuaNumber>(
    m: VmModel<N>,
    protos: Seq<Proto<N>>,
    fuel: nat,
    next: VmModel<N>,
)
    requires
        fuel > 0,
        step_spec(m, protos) == Ok::<Step<N>, VmError<N>>(Step::Continue(next)),
    ensures
        run_spec(m, protos, fuel) == run_spec(next, protos, (fuel - 1) as nat),
        run_state(m, protos, fuel) == run_state(next, protos, (fuel - 1) as nat),
{
}

/// Writing `vals` into registers `a ..` as far as the writes succeed: the
/// state after the longest prefix that can be written.
pub open spec fn rset_seq_partial<N>(m: VmModel<N>, a: int, vals: Seq<Value<N>>) -> VmModel<N>
    decreases vals.len(),
{
    if vals.len() == 0 {
        m
    } else {
        match rset_seq(m, a, vals.drop_last()) {
            Err(_) => rset_seq_partial(m, a, vals.drop_last()),
            Ok(m1) => match rset_spec(m1, a + vals.len() - 1, vals.last()) {
                Ok(m2) => m2,
                Err(_) => m1,
            },
        }
    }
}

/// When writing `vals` fails first at index `k`, the partial writes leave
/// the state after the first `k` values.
pub proof fn lemma_rset_seq_partial<N>(m: VmModel<N>, a: int, vals: Seq<Value<N>>, k: int)
    requires
        0 <= k < vals.len(),
        rset_seq(m, a, vals.take(k)) is Ok,
        rset_seq(m, a, vals.take(k + 1)) is Err,
    ensures
        rset_seq_partial(m, a, vals) == rset_seq(m, a, vals.take(k))->Ok_0,
    decreases vals.len(),
{
    if vals.len() == k + 1 {
        assert(vals.take(k + 1) =~= vals);
        assert(vals.drop_last() =~= vals.take(k));
    } else {
        let v2 = vals.drop_last();
        assert(v2.take(k) =~= vals.take(k));
        assert(v2.take(k + 1) =~= vals.take(k + 1));
        lemma_rset_seq_partial(m, a, v2, k);
        lemma_rset_seq_err(m, a, vals, k + 1);
        lemma_rset_seq_err(m, a, v2, k + 1);
        assert(v2.take(v2.len() as int) =~= v2);
        assert(vals.take(vals.len() as int) =~= vals);
    }
}

/// The state a failing step leaves: the state before it, except that a
/// `CALL` or `TFORCALL` has already moved the caller past the instruction,
/// a `CLOSURE` has already created its closure, and a `VARARG` has written
/// the values before the first register it could not write.
pub open spec fn step_err_state<N>(m: VmModel<N>, protos: Seq<Proto<N>>) -> VmModel<N> {
    match fetch_spec(m, protos) {
        Err(_) => m,
        Ok((_pid, i)) => match opcode_from_number(op_of(i)) {
            None => m,
            Some(opc) => {
                let a = a_of(i);
                let b = b_of(i);
                let c = c_of(i);
                let fr = current(m);
                match opc {
                    Opcode::Call => bump_pc(m, 1),
                    Opcode::TForCall => bump_pc(m, 1),
                    Opcode::Closure => match rget_seq(m, a + 1, c as nat) {
                        Ok(vals) => with_closure(m, ClosureModel { proto_id: b as usize, upvalues: vals }),
                        Err(_) => m,
                    },
                    Opcode::Vararg => {
                        let n: int = if b == 0 {
                            fr.varargs.len() as int
                        } else {
                            b - 1
                        };
                        rset_seq_partial(m, a, padded(fr.varargs, n))
                    },
                    _ => m,
                }
            },
        },
    }
}

/// The state a run from `m` of at most `fuel` steps ends in, whatever its
/// outcome: the state after the outermost return, the state the failing
/// step left, or the state when the budget ran out.
pub open spec fn run_state<N: LuaNumber>(m: VmModel<N>, protos: Seq<Proto<N>>, fuel: nat) -> VmModel<N>
    decreases fuel,
{
    if fuel == 0 {
        m
    } else {
        match step_spec(m, protos) {
            Err(_) => step_err_state(m, protos),
            Ok(Step::Done(m2, _vs)) => m2,
            Ok(Step::Continue(m2)) => run_state(m2, protos, (fuel - 1) as nat),
        }
    }
}

/// Running from `m` for at most `fuel` steps: the outermost call's final
/// state and values, or the error of the step that failed (`StepLimit` when
/// the budget runs out).
pub open spec fn run_spec<N: LuaNumber>(m: VmModel<N>, protos: Seq<Proto<N>>, fuel: nat) -> Result<
    (VmModel<N>, Seq<Value<N>>),
    VmError<N>,
>
    decreases fuel,
{
    if fuel == 0 {
        Err(VmError::StepLimit)
    } else {
        match step_spec(m, protos) {
            Err(e) => Err(e),
            Ok(Step::Done(m2, vs)) => Ok((m2, vs)),
            Ok(Step::Continue(m2)) => run_spec(m2, protos, (fuel - 1) as nat),
        }
    }
}

/// Running from `m` for at most `fuel` steps ends in `r`.
pub open spec fn runs<N: LuaNumber>(
    m: VmModel<N>,
    protos: Seq<Proto<N>>,
    fuel: nat,
    r: Result<(VmModel<N>, Seq<Value<N>>), VmError<N>>,
) -> bool {
    r == run_spec(m, protos, fuel)
}

} // verus!
