//! The interpreter loop.
use crate::opcode::{a, b, bx, c, sbx, Opcode};
use crate::proto::Proto;
use crate::vm::frame::lemma_frames_prefix;
use crate::vm::model::{ClosureModel, ClosureObj, lemma_wf_pop, lemma_wf_with, ResultsSpec, Vm, VmModel, MAX_STACK};
use crate::vm::semantics::{
    lemma_runs_continue, lemma_rset_seq_partial, run_spec, run_state, rset_seq_partial,
    step_err_state, with_closure,
    agrees, current, fetch_spec, grown, has_lua_frame, host_values, lemma_rget_seq_err,
    lemma_rset_seq_err, operands, padded, return_spec, return_values, rget_seq, rset_seq,
    step_agrees, step_spec, written, with_stack, MAX_STEPS, first_or_nil,
};
use crate::{LuaNumber, Value, VmError};
use vstd::prelude::*;

verus! {

impl<N: LuaNumber> Vm<N> {
    /// `RETURN A B`: collects the returned values, drops the running frame and
    /// writes the values back where its caller expects them.
    ///
    /// - `B != 0`: `B - 1` values from `R[A]`; `B = 0`: `R[A]` up to the effective top.
    /// - `Fixed(n)` results: exactly `n` are written (missing ones `Nil`, extra
    ///   ones dropped) and the effective top ends after them.
    /// - `Multi` results: all are written and the effective top ends after them.
    /// - With no result, the function slot becomes `Nil` and the top ends there.
    ///
    /// When only the base frame is left, the outermost call is done and its
    /// values are returned.
    ///
    /// Every check (the values readable, the function slot inside the
    /// stack, room for the results) comes before the machine changes, so a
    /// failed `RETURN` changes nothing: the running frame stays on the call
    /// stack, and the error state of a run is the state before it.
    fn exec_return(&mut self, a: u32, b: u32) -> (r: Result<Option<Vec<Value<N>>>, VmError<N>>)
        requires
            old(self).wf(),
            has_lua_frame(old(self)@),
            a < 256,
            b < 512,
        ensures
            r is Err ==> final(self)@ == old(self)@,
            final(self).closures == old(self).closures,
            final(self).stack@.len() >= old(self).stack@.len(),
            final(self)@.frames[0] == old(self)@.frames[0],
            final(self).wf(),
            final(self).protos == old(self).protos,
            step_agrees(return_spec(old(self)@, a as int, b as int), r, final(self)@),
    {
        let last = self.frames.len() - 1;
        let func_index = self.frames[last].func;
        let results = self.frames[last].results;
        let base = self.frames[last].base;
        let ghost m0 = self@;
        assert(m0.frames[last as int] == self.frames@[last as int].model());
        let mut rets: Vec<Value<N>> = Vec::new();
        if b == 0 {
            let start = base + a as usize;
            let end = self.top;
            if end >= start {
                let mut idx = start;
                while idx < end
                    invariant
                        start <= idx <= end,
                        end <= self.stack@.len(),
                        rets@ == self.stack@.subrange(start as int, idx as int),
                    decreases end - idx,
                {
                    rets.push(self.stack[idx]);
                    idx = idx + 1;
                    assert(rets@ =~= self.stack@.subrange(start as int, idx as int));
                }
            }
        } else {
            let nret = b - 1;
            let mut k: u32 = 0;
            while k < nret
                invariant
                    k <= nret,
                    nret < 512,
                    b != 0,
                    nret == b - 1,
                    a < 256,
                    self.wf(),
                    self@ == m0,
                    rget_seq(m0, a as int, k as nat) == Ok::<Seq<Value<N>>, VmError<N>>(rets@),
                decreases nret - k,
            {
                match self.rget((a + k) as usize) {
                    Ok(v) => {
                        rets.push(v);
                    },
                    Err(e) => {
                        proof {
                            assert(rget_seq(m0, a as int, (k + 1) as nat) == Err::<
                                Seq<Value<N>>,
                                VmError<N>,
                            >(e));
                            lemma_rget_seq_err(m0, a as int, (k + 1) as nat, nret as nat);
                            assert(((b as int) - 1) as nat == nret as nat);
                            assert(rget_seq(m0, a as int, nret as nat) == Err::<
                                Seq<Value<N>>,
                                VmError<N>,
                            >(e));
                            assert(return_values(m0, a as int, b as int) == Err::<
                                Seq<Value<N>>,
                                VmError<N>,
                            >(e));
                        }
                        return Err(e);
                    },
                }
                k = k + 1;
            }
        }
        assert(return_values(m0, a as int, b as int) == Ok::<Seq<Value<N>>, VmError<N>>(rets@));
        // Every check comes before the machine changes.
        if func_index >= self.stack.len() {
            return Err(Self::oob(func_index, self.stack.len()));
        }
        let n: usize = match results {
            ResultsSpec::Fixed(n) => n,
            ResultsSpec::Multi => rets.len(),
        };
        if n > 0 && n > MAX_STACK - func_index {
            return Err(VmError::StackOverflow);
        }
        let ghost fs0 = self.frames@;
        let _ = self.frames.pop();
        proof {
            assert(self.frames@ =~= fs0.subrange(0, last as int));
            lemma_frames_prefix(fs0, last as int);
            assert(self@.frames =~= m0.frames.drop_last());
            lemma_wf_pop(m0);
        }
        let ghost m1 = self@;
        if n == 0 {
            self.stack.set(func_index, Value::Nil);
            proof {
                lemma_wf_with(m1, self.stack@, self.top as int);
                assert(self@ =~= with_stack(m1, m1.stack.update(func_index as int, Value::Nil)));
            }
            let rt = self.set_top(func_index);
            assert(rt is Ok);
        } else {
            let needed = func_index + n;
            self.ensure_stack_space(needed);
            let ghost s1 = self.stack@;
            let ghost f1 = self.frames;
            let ghost t1 = self.top;
            let ghost m1b = self@;
            let ghost pv = padded(rets@, n as int);
            let mut k: usize = 0;
            while k < n
                invariant
                    k <= n,
                    needed == func_index + n,
                    needed <= self.stack@.len(),
                    self.stack@.len() == s1.len(),
                    self.frames == f1,
                    self.top == t1,
                    self.protos == old(self).protos,
                    self.closures == old(self).closures,
                    pv == padded(rets@, n as int),
                    forall|j: int|
                        0 <= j < s1.len() ==> #[trigger] self.stack@[j] == if func_index <= j
                            < func_index + k {
                            pv[j - func_index]
                        } else {
                            s1[j]
                        },
                decreases n - k,
            {
                let v = if k < rets.len() {
                    rets[k]
                } else {
                    Value::Nil
                };
                self.stack.set(func_index + k, v);
                k = k + 1;
            }
            assert(self.stack@ =~= written(s1, func_index as int, pv));
            proof {
                lemma_wf_with(m1b, self.stack@, self.top as int);
                assert(self@ =~= with_stack(m1, written(grown(m1.stack, needed as int), func_index as int, pv)));
            }
            let rt = self.set_top(needed);
            assert(rt is Ok);
        }
        if self.frames.len() == 1 {
            let out = match results {
                ResultsSpec::Fixed(n) => {
                    let mut out: Vec<Value<N>> = Vec::new();
                    let mut k: usize = 0;
                    while k < n
                        invariant
                            k <= n,
                            out@ == padded(rets@, n as int).take(k as int),
                        decreases n - k,
                    {
                        let v = if k < rets.len() {
                            rets[k]
                        } else {
                            Value::Nil
                        };
                        out.push(v);
                        k = k + 1;
                        assert(out@ =~= padded(rets@, n as int).take(k as int));
                    }
                    assert(out@ =~= padded(rets@, n as int));
                    out
                },
                ResultsSpec::Multi => rets,
            };
            assert(out@ == host_values(results, rets@));
            return Ok(Some(out));
        }
        Ok(None)
    }

    /// `VARARG A B`: copies `B - 1` varargs (all of them when `B = 0`) into
    /// `R[A] ..`; missing ones read as `Nil`.
    fn exec_vararg(&mut self, a: u32, b: u32) -> (r: Result<(), VmError<N>>)
        requires
            old(self).wf(),
            has_lua_frame(old(self)@),
            a < 256,
            b < 512,
        ensures
            r is Err ==> final(self)@ == rset_seq_partial(
                old(self)@,
                a as int,
                padded(
                    current(old(self)@).varargs,
                    if b == 0 {
                        current(old(self)@).varargs.len() as int
                    } else {
                        b - 1
                    },
                ),
            ),
            final(self).closures == old(self).closures,
            final(self).stack@.len() >= old(self).stack@.len(),
            final(self).wf(),
            final(self).protos == old(self).protos,
            final(self).frames == old(self).frames,
            agrees(
                rset_seq(
                    old(self)@,
                    a as int,
                    padded(
                        current(old(self)@).varargs,
                        if b == 0 {
                            current(old(self)@).varargs.len() as int
                        } else {
                            b - 1
                        },
                    ),
                ),
                r,
                final(self)@,
            ),
    {
        let last = self.frames.len() - 1;
        let nva = self.frames[last].varargs.len();
        let n: usize = if b == 0 {
            nva
        } else {
            (b - 1) as usize
        };
        let ghost m0 = self@;
        let ghost vals = padded(current(m0).varargs, n as int);
        assert(m0.frames[last as int] == self.frames@[last as int].model());
        assert(self.frames@[last as int].varargs@.len() <= MAX_STACK);
        let mut k: usize = 0;
        assert(vals.take(0) =~= Seq::<Value<N>>::empty());
        while k < n
            invariant
                k <= n,
                n <= MAX_STACK,
                a < 256,
                last == self.frames.len() - 1,
                nva == self.frames@[last as int].varargs@.len(),
                vals == padded(self.frames@[last as int].varargs@, n as int),
                m0 == old(self)@,
                vals == padded(
                    current(old(self)@).varargs,
                    if b == 0 {
                        current(old(self)@).varargs.len() as int
                    } else {
                        b - 1
                    },
                ),
                self.wf(),
                self.frames == old(self).frames,
                self.protos == old(self).protos,
                self.closures == old(self).closures,
                self.stack@.len() >= old(self).stack@.len(),
                rset_seq(m0, a as int, vals.take(k as int)) == Ok::<_, VmError<N>>(self@),
            decreases n - k,
        {
            let v = if k < nva {
                self.frames[last].varargs[k]
            } else {
                Value::Nil
            };
            let ghost mk = self@;
            assert(vals.take(k + 1).drop_last() =~= vals.take(k as int));
            assert(vals.take(k + 1).last() == v);
            match self.rset(a as usize + k, v) {
                Ok(()) => {},
                Err(e) => {
                    proof {
                        assert(rset_seq(m0, a as int, vals.take(k + 1)) == Err::<VmModel<N>, VmError<N>>(e));
                        lemma_rset_seq_err(m0, a as int, vals, k + 1);
                        lemma_rset_seq_partial(m0, a as int, vals, k as int);
                    }
                    return Err(e);
                },
            }
            k = k + 1;
        }
        assert(vals.take(n as int) =~= vals);
        Ok(())
    }

    /// The values of registers `a .. a + n` of the running frame.
    fn read_regs(&self, a: usize, n: usize) -> (r: Result<Vec<Value<N>>, VmError<N>>)
        requires
            self.wf(),
            a <= 512,
            n <= 512,
        ensures
            match rget_seq(self@, a as int, n as nat) {
                Ok(vs) => r matches Ok(out) && out@ == vs,
                Err(e) => r == Err::<Vec<Value<N>>, VmError<N>>(e),
            },
    {
        let mut out: Vec<Value<N>> = Vec::new();
        let mut k: usize = 0;
        while k < n
            invariant
                k <= n,
                n <= 512,
                a <= 512,
                self.wf(),
                rget_seq(self@, a as int, k as nat) == Ok::<Seq<Value<N>>, VmError<N>>(out@),
            decreases n - k,
        {
            match self.rget(a + k) {
                Ok(v) => {
                    out.push(v);
                },
                Err(e) => {
                    proof {
                        lemma_rget_seq_err(self@, a as int, (k + 1) as nat, n as nat);
                    }
                    return Err(e);
                },
            }
            k = k + 1;
        }
        Ok(out)
    }

    /// The two number operands `RK[B]` and `RK[C]` of an arithmetic or
    /// comparison instruction.
    fn number_operands(&self, pid: usize, i: u32) -> (r: Result<(N, N), VmError<N>>)
        requires
            self.wf(),
        ensures
            r == operands(self@, self.protos@, pid as int, i),
    {
        let vx = self.rk_get(pid, b(&i))?;
        let x = Self::as_number(&vx)?;
        let vy = self.rk_get(pid, c(&i))?;
        let y = Self::as_number(&vy)?;
        Ok((x, y))
    }

    /// The running prototype and the instruction at the program counter.
    fn fetch(&self) -> (r: Result<(usize, u32), VmError<N>>)
        requires
            self.wf(),
        ensures
            match fetch_spec(self@, self.protos@) {
                Ok((pid, i)) => r == Ok::<(usize, u32), VmError<N>>((pid as usize, i)),
                Err(e) => r == Err::<(usize, u32), VmError<N>>(e),
            },
    {
        let fr = self.lua_frame()?;
        let proto_id = fr.proto_id.unwrap();
        let pc: usize = if fr.pc < 0 {
            usize::MAX
        } else {
            fr.pc as usize
        };
        if proto_id >= self.protos.len() {
            return Err(Self::proto_oob(proto_id, self.protos.len()));
        }
        let proto: &Proto<N> = &self.protos[proto_id];
        let code_len = proto.code.len();
        if pc >= code_len {
            return Err(VmError::PcOutOfBounds { pc, code_len });
        }
        Ok((proto_id, proto.code[pc]))
    }

    /// Executes one instruction of the running frame.
    ///
    /// Returns `Some(values)` when the outermost call returned, `None` when
    /// the machine goes on.
    fn step(&mut self) -> (r: Result<Option<Vec<Value<N>>>, VmError<N>>)
        requires
            old(self).wf(),
        ensures
            final(self).stack@.len() >= old(self).stack@.len(),
            final(self)@.frames[0] == old(self)@.frames[0],
            final(self).wf(),
            final(self).protos == old(self).protos,
            step_agrees(step_spec(old(self)@, old(self).protos@), r, final(self)@),
            r is Err ==> final(self)@ == step_err_state(old(self)@, old(self).protos@),
    {
        let ghost m0 = self@;
        let ghost p = self.protos@;
        reveal(step_spec);
        let (pid, i) = self.fetch()?;
        let opc = Opcode::decode::<N>(&i)?;
        let last = self.frames.len() - 1;
        assert(m0.frames[last as int] == self.frames@[last as int].model());
        assert(p[pid as int].code@.len() <= crate::vm::model::max_code_len());
        match opc {
            Opcode::LoadK => {
                let k = bx(&i) as usize;
                if k >= self.protos[pid].consts.len() {
                    return Err(Self::oob(k, self.protos[pid].consts.len()));
                }
                let v = self.protos[pid].consts[k];
                self.rset(a(&i) as usize, v)?;
                self.bump_pc(1);
                assert(step_agrees(step_spec(m0, p), Ok(None), self@));
                Ok(None)
            },
            Opcode::Move => {
                let v = self.rget(b(&i) as usize)?;
                self.rset(a(&i) as usize, v)?;
                self.bump_pc(1);
                assert(step_agrees(step_spec(m0, p), Ok(None), self@));
                Ok(None)
            },
            Opcode::Eq => {
                let (x, y) = self.number_operands(pid, i)?;
                let flag = x.num_eq(&y);
                if flag != (a(&i) == 1) {
                    self.bump_pc(1);
                }
                self.bump_pc(1);
                assert(step_agrees(step_spec(m0, p), Ok(None), self@));
                Ok(None)
            },
            Opcode::Lt => {
                let (x, y) = self.number_operands(pid, i)?;
                let flag = x.num_lt(&y);
                if flag != (a(&i) == 1) {
                    self.bump_pc(1);
                }
                self.bump_pc(1);
                assert(step_agrees(step_spec(m0, p), Ok(None), self@));
                Ok(None)
            },
            Opcode::Add => {
                let (x, y) = self.number_operands(pid, i)?;
                let sum = x.num_add(&y);
                self.rset(a(&i) as usize, Value::Number(sum))?;
                self.bump_pc(1);
                assert(step_agrees(step_spec(m0, p), Ok(None), self@));
                Ok(None)
            },
            Opcode::Mul => {
                let (x, y) = self.number_operands(pid, i)?;
                let prod = x.num_mul(&y);
                self.rset(a(&i) as usize, Value::Number(prod))?;
                self.bump_pc(1);
                assert(step_agrees(step_spec(m0, p), Ok(None), self@));
                Ok(None)
            },
            Opcode::Div => {
                let (x, y) = self.number_operands(pid, i)?;
                let quot = x.num_div(&y);
                self.rset(a(&i) as usize, Value::Number(quot))?;
                self.bump_pc(1);
                assert(step_agrees(step_spec(m0, p), Ok(None), self@));
                Ok(None)
            },
            Opcode::Test => {
                let v = self.rget(a(&i) as usize)?;
                let t = match v {
                    Value::Nil => false,
                    Value::Bool(bv) => bv,
                    _ => true,
                };
                if t != (c(&i) == 1) {
                    self.bump_pc(1);
                }
                self.bump_pc(1);
                assert(step_agrees(step_spec(m0, p), Ok(None), self@));
                Ok(None)
            },
            Opcode::Closure => {
                let vals = self.read_regs(a(&i) as usize + 1, c(&i) as usize)?;
                let id = self.closures.len();
                let pb = b(&i) as usize;
                let ghost cm = ClosureModel { proto_id: pb, upvalues: vals@ };
                self.closures.push(ClosureObj { proto_id: pb, upvalues: vals });
                assert(self@ =~= with_closure(m0, cm));
                self.rset(a(&i) as usize, Value::Closure(id))?;
                self.bump_pc(1);
                assert(step_agrees(step_spec(m0, p), Ok(None), self@));
                Ok(None)
            },
            Opcode::GetUpval => {
                let bb = b(&i) as usize;
                let nup = self.frames[last].upvalues.len();
                if bb >= nup {
                    return Err(VmError::UpvalueOutOfBounds { index: bb, len: nup });
                }
                let v = self.frames[last].upvalues[bb];
                self.rset(a(&i) as usize, v)?;
                self.bump_pc(1);
                assert(step_agrees(step_spec(m0, p), Ok(None), self@));
                Ok(None)
            },
            Opcode::Jmp => {
                self.bump_pc(sbx(&i) as isize);
                self.bump_pc(1);
                assert(step_agrees(step_spec(m0, p), Ok(None), self@));
                Ok(None)
            },
            Opcode::Vararg => {
                self.exec_vararg(a(&i), b(&i))?;
                self.bump_pc(1);
                assert(step_agrees(step_spec(m0, p), Ok(None), self@));
                Ok(None)
            },
            Opcode::Call => {
                let b_field = b(&i);
                let c_field = c(&i);
                let results = if c_field == 0 {
                    ResultsSpec::Multi
                } else {
                    ResultsSpec::Fixed((c_field - 1) as usize)
                };
                let func_index = self.frames[last].base + a(&i) as usize;
                let nargs = if b_field == 0 {
                    let args_start = func_index + 1;
                    if self.top >= args_start {
                        self.top - args_start
                    } else {
                        0
                    }
                } else {
                    (b_field - 1) as usize
                };
                // The caller resumes after the call.
                self.bump_pc(1);
                self.call_with_results(func_index, nargs, results)?;
                assert(step_agrees(step_spec(m0, p), Ok(None), self@));
                Ok(None)
            },
            Opcode::TForCall => {
                let func_index = self.frames[last].base + a(&i) as usize;
                let results = ResultsSpec::Fixed(c(&i) as usize);
                self.bump_pc(1);
                self.call_with_results_target(func_index, 2, results, func_index + 3)?;
                assert(step_agrees(step_spec(m0, p), Ok(None), self@));
                Ok(None)
            },
            Opcode::TForLoop => {
                let idx = self.frames[last].base + a(&i) as usize + 3;
                if idx >= self.stack.len() {
                    return Err(Self::oob(idx, self.stack.len()));
                }
                let v = self.stack[idx];
                match v {
                    Value::Nil => {},
                    _ => {
                        self.stack.set(idx - 1, v);
                        proof {
                            lemma_wf_with(m0, self.stack@, self.top as int);
                        }
                        assert(self@ =~= with_stack(m0, m0.stack.update(idx - 1, v)));
                        self.bump_pc(sbx(&i) as isize);
                    },
                }
                self.bump_pc(1);
                assert(step_agrees(step_spec(m0, p), Ok(None), self@));
                Ok(None)
            },
            Opcode::TailCall => {
                let b_field = b(&i);
                let func_index = self.frames[last].base + a(&i) as usize;
                let nargs = if b_field == 0 {
                    let args_start = func_index + 1;
                    if self.top >= args_start {
                        self.top - args_start
                    } else {
                        0
                    }
                } else {
                    (b_field - 1) as usize
                };
                self.tail_call(func_index, nargs)?;
                assert(step_agrees(step_spec(m0, p), Ok(None), self@));
                Ok(None)
            },
            Opcode::Return => {
                let r = self.exec_return(a(&i), b(&i));
                assert(r is Ok ==> step_agrees(step_spec(m0, p), r, self@));
                r
            },
        }
    }

    /// Runs the running Lua frame (and what it calls) until the outermost
    /// call returns, and gives back its values: `n` of them (missing ones
    /// `Nil`) when it asked for `Fixed(n)`, all of them for `Multi`.
    ///
    /// The run takes at most `MAX_STEPS` instructions.
    pub fn run_results(&mut self) -> (r: Result<Vec<Value<N>>, VmError<N>>)
        requires
            old(self).wf(),
        ensures
            final(self).stack@.len() >= old(self).stack@.len(),
            final(self)@.frames[0] == old(self)@.frames[0],
            final(self).wf(),
            final(self).protos == old(self).protos,
            match run_spec(old(self)@, old(self).protos@, MAX_STEPS as nat) {
                Ok((m2, vs)) => r matches Ok(out) && out@ == vs && final(self)@ == m2,
                Err(e) => r == Err::<Vec<Value<N>>, VmError<N>>(e),
            },
            final(self)@ == run_state(old(self)@, old(self).protos@, MAX_STEPS as nat),
            !has_lua_frame(old(self)@) ==> r == Err::<Vec<Value<N>>, VmError<N>>(VmError::NoLuaFrame)
                && final(self)@ == old(self)@,
    {
        let ghost m0 = self@;
        let ghost p0 = self.protos@;
        match self.lua_frame() {
            Ok(_) => {},
            Err(e) => {
                proof {
                    reveal(step_spec);
                    reveal_with_fuel(run_spec, 2);
                }
                return Err(e);
            },
        }
        let mut fuel: usize = MAX_STEPS;
        loop
            invariant
                self.wf(),
                self.protos == old(self).protos,
                self@.frames[0] == old(self)@.frames[0],
                fuel <= MAX_STEPS,
                m0 == old(self)@,
                p0 == old(self).protos@,
                has_lua_frame(old(self)@),
                self.stack@.len() >= old(self).stack@.len(),
                run_spec(self@, self.protos@, fuel as nat) == run_spec(m0, p0, MAX_STEPS as nat),
                run_state(self@, self.protos@, fuel as nat) == run_state(m0, p0, MAX_STEPS as nat),
            decreases fuel,
        {
            if fuel == 0 {
                return Err(VmError::StepLimit);
            }
            let ghost cur = self@;
            let ghost p = self.protos@;
            let r = self.step();
            proof {
                assert(step_agrees(step_spec(cur, p), r, self@));
            }
            match r {
                Err(e) => {
                    return Err(e);
                },
                Ok(Some(vs)) => {
                    proof {
                    }
                    return Ok(vs);
                },
                Ok(None) => {
                    proof {
                        lemma_runs_continue(cur, p, fuel as nat, self@);
                    }
                },
            }
            fuel = fuel - 1;
        }
    }

    /// Runs until the outermost call returns and gives its first value
    /// (`Nil` when there is none): the first of what `run_results` gives.
    pub fn run(&mut self) -> (r: Result<Value<N>, VmError<N>>)
        requires
            old(self).wf(),
        ensures
            final(self).stack@.len() >= old(self).stack@.len(),
            final(self)@.frames[0] == old(self)@.frames[0],
            final(self).wf(),
            final(self).protos == old(self).protos,
            match run_spec(old(self)@, old(self).protos@, MAX_STEPS as nat) {
                Ok((m2, vs)) => r == Ok::<Value<N>, VmError<N>>(first_or_nil(vs)) && final(self)@ == m2,
                Err(e) => r == Err::<Value<N>, VmError<N>>(e),
            },
            final(self)@ == run_state(old(self)@, old(self).protos@, MAX_STEPS as nat),
            !has_lua_frame(old(self)@) ==> r == Err::<Value<N>, VmError<N>>(VmError::NoLuaFrame)
                && final(self)@ == old(self)@,
    {
        let results = self.run_results()?;
        let v = if results.len() > 0 {
            results[0]
        } else {
            Value::Nil
        };
        assert(v == first_or_nil(results@));
        Ok(v)
    }
}

} // verus!
