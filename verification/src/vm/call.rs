//! Calls, tail calls and protected calls.
use crate::vm::common::copy_values;
use crate::vm::frame::{lemma_frames_push, lemma_frames_update};
use crate::vm::model::{frame_wf, CallFrame, ResultsSpec, Vm, MAX_STACK};
use crate::vm::semantics::{
    agrees, call_spec, callee_of, cleared, first_or_nil, grown, oob, prepare_spec, protected_call, proto_oob,
    runs, tail_call_spec, with_stack, };
use crate::{LuaNumber, Value, VmError};
use vstd::prelude::*;

verus! {

impl<N: LuaNumber> Vm<N> {
    /// Arranges arguments and varargs for a call of prototype `proto_id` whose
    /// function sits in slot `func_index` with `nargs` arguments after it,
    /// following Lua 5.x:
    /// - the effective top first closes the argument area;
    /// - a vararg function keeps arguments beyond its fixed parameters as
    ///   varargs, which `VARARG` copies into registers on demand;
    /// - missing fixed parameters become `Nil`;
    /// - extra arguments leave the registers (the effective top ends at the
    ///   fixed parameters);
    /// - the register window `base .. base + max(max_stack, num_params)` exists
    ///   and holds `Nil` above the parameters.
    ///
    /// Returns `(base, window end, varargs)`.
    fn prepare_callee_frame(&mut self, proto_id: usize, func_index: usize, nargs: usize) -> (r: Result<
        (usize, usize, Vec<Value<N>>),
        VmError<N>,
    >)
        requires
            old(self).wf(),
            func_index < old(self).stack@.len(),
        ensures
            final(self).closures == old(self).closures,
            final(self).stack@.len() >= old(self).stack@.len(),
            final(self).wf(),
            final(self).protos == old(self).protos,
            final(self).frames == old(self).frames,
            match prepare_spec(old(self)@, old(self).protos@, proto_id as int, func_index as int, nargs as int) {
                Ok((m, base, cap, va)) => r matches Ok((b2, c2, v2)) && final(self)@ == m && b2 == base
                    && c2 == cap && v2@ == va,
                Err(e) => r == Err::<(usize, usize, Vec<Value<N>>), VmError<N>>(e),
            },
            r is Err ==> final(self)@ == old(self)@,
    {
        if proto_id >= self.protos.len() {
            return Err(Self::proto_oob(proto_id, self.protos.len()));
        }
        let max_stack = self.protos[proto_id].max_stack;
        let num_params = self.protos[proto_id].num_params;
        let is_vararg = self.protos[proto_id].is_vararg;
        let ghost m0 = self@;
        let base = func_index + 1;
        let window = if max_stack >= num_params {
            max_stack
        } else {
            num_params
        };
        // Every size check comes before the stack changes.
        if nargs > MAX_STACK - base || num_params > MAX_STACK - base || window > MAX_STACK - base {
            return Err(VmError::StackOverflow);
        }
        let arg_end = base + nargs;
        // Close the argument area: a `B = 0` call sees exactly these arguments.
        let r1 = self.set_top(arg_end);
        assert(r1 is Ok);
        let ghost m1 = self@;
        let mut varargs: Vec<Value<N>> = Vec::new();
        if is_vararg && nargs > num_params {
            let start = base + num_params;
            let mut idx = start;
            while idx < arg_end
                invariant
                    start <= idx <= arg_end,
                    arg_end <= self.stack@.len(),
                    varargs@ == self.stack@.subrange(start as int, idx as int),
                decreases arg_end - idx,
            {
                varargs.push(self.stack[idx]);
                idx = idx + 1;
                assert(varargs@ =~= self.stack@.subrange(start as int, idx as int));
            }
        }
        assert(varargs@ =~= (if is_vararg && nargs > num_params {
            m1.stack.subrange(base + num_params, arg_end as int)
        } else {
            Seq::empty()
        }));
        let need = base + num_params;
        // Missing fixed parameters read as `Nil`.
        if nargs < num_params {
            self.ensure_stack_space(need);
            self.clear_range(arg_end, need);
        }
        assert(self@ == (if nargs < num_params {
            with_stack(m1, cleared(grown(m1.stack, need as int), arg_end as int, need as int))
        } else {
            m1
        }));
        // Extra arguments leave the live area.
        let r2 = self.set_top(need);
        assert(r2 is Ok);
        let top_cap = base + window;
        self.ensure_stack_space(top_cap);
        self.clear_range(need, top_cap);
        Ok((base, top_cap, varargs))
    }

    /// The prototype a callable value runs, and the upvalues it runs with.
    fn resolve_callable(&self, value: Value<N>) -> (r: Result<(usize, Vec<Value<N>>), VmError<N>>)
        ensures
            match callee_of(self@, value) {
                Some((pid, ups)) => r matches Ok((p, u)) && p == pid && u@ == ups,
                None => r == Err::<(usize, Vec<Value<N>>), VmError<N>>(VmError::NotCallable(value)),
            },
    {
        match value {
            Value::LFn(pid) => Ok((pid, Vec::new())),
            Value::Closure(c) => {
                if c < self.closures.len() {
                    assert(self@.closures[c as int] == self.closures@[c as int].model());
                    Ok((self.closures[c].proto_id, copy_values(&self.closures[c].upvalues)))
                } else {
                    Err(VmError::NotCallable(value))
                }
            },
            _ => Err(VmError::NotCallable(value)),
        }
    }

    /// Pushes a frame that calls the function in slot `func_index` with
    /// `nargs` arguments; its results will be written from `return_target` on.
    /// Nothing runs yet.
    pub(crate) fn call_with_results_target(
        &mut self,
        func_index: usize,
        nargs: usize,
        results: ResultsSpec,
        return_target: usize,
    ) -> (r: Result<(), VmError<N>>)
        requires
            old(self).wf(),
        ensures
            r is Err ==> final(self)@ == old(self)@,
            final(self).closures == old(self).closures,
            final(self).stack@.len() >= old(self).stack@.len(),
            final(self)@.frames[0] == old(self)@.frames[0],
            final(self).wf(),
            final(self).protos == old(self).protos,
            agrees(
                call_spec(old(self)@, old(self).protos@, func_index as int, nargs as int, results, return_target as int),
                r,
                final(self)@,
            ),
    {
        if func_index >= self.stack.len() {
            return Err(Self::oob(func_index, self.stack.len()));
        }
        let func_val = self.stack[func_index];
        let (proto_id, upvalues) = self.resolve_callable(func_val)?;
        let (base, top_cap, varargs) = self.prepare_callee_frame(proto_id, func_index, nargs)?;
        let fr = CallFrame {
            proto_id: Some(proto_id),
            pc: 0,
            func: return_target,
            base,
            top: top_cap,
            varargs,
            results,
            upvalues,
        };
        let ghost fs0 = self.frames@;
        let ghost m2 = self@;
        self.frames.push(fr);
        proof {
            lemma_frames_push(fs0, fr);
            let m = self@;
            assert forall|i: int| 0 <= i < m.frames.len() implies frame_wf(
                #[trigger] m.frames[i],
                m.stack.len() as int,
            ) by {
                if i < m.frames.len() - 1 {
                    assert(m.frames[i] == m2.frames[i]);
                }
            }
        }
        assert(self@ =~= call_spec(old(self)@, old(self).protos@, func_index as int, nargs as int, results, return_target as int)->Ok_0);
        Ok(())
    }

    /// Pushes a frame that calls the function in slot `func_index`; its
    /// results go back to that same slot.
    pub(crate) fn call_with_results(&mut self, func_index: usize, nargs: usize, results: ResultsSpec) -> (r:
        Result<(), VmError<N>>)
        requires
            old(self).wf(),
        ensures
            r is Err ==> final(self)@ == old(self)@,
            final(self).closures == old(self).closures,
            final(self).stack@.len() >= old(self).stack@.len(),
            final(self)@.frames[0] == old(self)@.frames[0],
            final(self).wf(),
            final(self).protos == old(self).protos,
            agrees(
                call_spec(old(self)@, old(self).protos@, func_index as int, nargs as int, results, func_index as int),
                r,
                final(self)@,
            ),
    {
        self.call_with_results_target(func_index, nargs, results, func_index)
    }

    /// Sets up a call of the function in stack slot `func_index` (not a
    /// prototype index) with `nargs` arguments after it, asking for
    /// `nresults` results; `run` then executes it.
    pub fn call(&mut self, func_index: usize, nargs: usize, nresults: usize) -> (r: Result<(), VmError<N>>)
        requires
            old(self).wf(),
        ensures
            r is Err ==> final(self)@ == old(self)@,
            final(self).stack@.len() >= old(self).stack@.len(),
            final(self)@.frames[0] == old(self)@.frames[0],
            final(self).wf(),
            final(self).protos == old(self).protos,
            agrees(
                call_spec(
                    old(self)@,
                    old(self).protos@,
                    func_index as int,
                    nargs as int,
                    ResultsSpec::Fixed(nresults),
                    func_index as int,
                ),
                r,
                final(self)@,
            ),
    {
        self.call_with_results(func_index, nargs, ResultsSpec::Fixed(nresults))
    }

    /// A tail call: the callee's frame replaces the running one and inherits
    /// its result target and count, so frames do not grow.
    pub(crate) fn tail_call(&mut self, func_index: usize, nargs: usize) -> (r: Result<(), VmError<N>>)
        requires
            old(self).wf(),
        ensures
            r is Err ==> final(self)@ == old(self)@,
            final(self).closures == old(self).closures,
            final(self).stack@.len() >= old(self).stack@.len(),
            final(self)@.frames[0] == old(self)@.frames[0],
            final(self).wf(),
            final(self).protos == old(self).protos,
            agrees(tail_call_spec(old(self)@, old(self).protos@, func_index as int, nargs as int), r, final(self)@),
    {
        let last = self.frames.len() - 1;
        if self.frames[last].proto_id.is_none() {
            return Err(VmError::NoLuaFrame);
        }
        let return_target = self.frames[last].func;
        let results = self.frames[last].results;
        if func_index >= self.stack.len() {
            return Err(Self::oob(func_index, self.stack.len()));
        }
        let func_val = self.stack[func_index];
        let (proto_id, upvalues) = self.resolve_callable(func_val)?;
        let (base, top_cap, varargs) = self.prepare_callee_frame(proto_id, func_index, nargs)?;
        let fr = CallFrame {
            proto_id: Some(proto_id),
            pc: 0,
            func: return_target,
            base,
            top: top_cap,
            varargs,
            results,
            upvalues,
        };
        let ghost fs0 = self.frames@;
        let ghost m2 = self@;
        let _ = self.frames.pop();
        self.frames.push(fr);
        proof {
            assert(self.frames@ =~= fs0.update(last as int, fr));
            lemma_frames_update(fs0, last as int, fr);
            let m = self@;
            assert(frame_wf(old(self)@.frames[last as int], old(self)@.stack.len() as int));
            assert forall|i: int| 0 <= i < m.frames.len() implies frame_wf(
                #[trigger] m.frames[i],
                m.stack.len() as int,
            ) by {
                if i < m.frames.len() - 1 {
                    assert(m.frames[i] == m2.frames[i]);
                }
            }
        }
        assert(self@ =~= tail_call_spec(old(self)@, old(self).protos@, func_index as int, nargs as int)->Ok_0);
        Ok(())
    }

    /// Pushes prototype `proto_id` as a function value at the effective top
    /// and returns its slot, ready for `pcall(slot, nargs, nresults)`.
    pub fn load(&mut self, proto_id: usize) -> (r: Result<usize, VmError<N>>)
        requires
            old(self).wf(),
        ensures
            final(self).stack@.len() >= old(self).stack@.len(),
            final(self).wf(),
            final(self).protos == old(self).protos,
            proto_id >= old(self).protos@.len() ==> r == Err::<usize, VmError<N>>(
                proto_oob(proto_id as int, old(self).protos@.len() as int),
            ) && final(self)@ == old(self)@,
            proto_id < old(self).protos@.len() && old(self).top >= MAX_STACK ==> r
                == Err::<usize, VmError<N>>(VmError::StackOverflow) && final(self)@ == old(self)@,
            proto_id < old(self).protos@.len() && old(self).top < MAX_STACK ==> {
                &&& r == Ok::<usize, VmError<N>>(old(self).top)
                &&& final(self)@.top == old(self)@.top + 1
                &&& final(self)@.frames == old(self)@.frames
                &&& final(self)@.stack == if old(self).top == old(self).stack@.len() {
                    old(self)@.stack.push(Value::LFn(proto_id))
                } else {
                    old(self)@.stack.update(old(self).top as int, Value::LFn(proto_id))
                }
            },
    {
        if proto_id >= self.protos.len() {
            return Err(Self::proto_oob(proto_id, self.protos.len()));
        }
        let func = self.top;
        if func >= MAX_STACK {
            return Err(VmError::StackOverflow);
        }
        if self.stack.len() == self.top {
            self.stack.push(Value::LFn(proto_id));
        } else {
            self.stack.set(self.top, Value::LFn(proto_id));
        }
        self.top = self.top + 1;
        proof {
            crate::vm::model::lemma_wf_with(old(self)@, self.stack@, self.top as int);
        }
        Ok(func)
    }

    /// Calls the function in slot `func` with `nargs` arguments and runs it,
    /// asking for `results`; on error the effective top and the frame count
    /// are restored.
    fn protected_run(&mut self, func: usize, nargs: usize, results: ResultsSpec) -> (r: Result<
        Vec<Value<N>>,
        VmError<N>,
    >)
        requires
            old(self).wf(),
        ensures
            final(self).stack@.len() >= old(self).stack@.len(),
            final(self).wf(),
            final(self).protos == old(self).protos,
            func >= old(self).top ==> r == Err::<Vec<Value<N>>, VmError<N>>(
                oob(func as int, old(self).top as int),
            ) && final(self)@ == old(self)@,
            func < old(self).top ==> protected_call(
                old(self)@,
                old(self).protos@,
                func as int,
                nargs as int,
                results,
                match r {
                    Ok(vs) => Ok(vs@),
                    Err(e) => Err(e),
                },
                final(self)@,
            ),
    {
        if func >= self.top {
            return Err(Self::oob(func, self.top));
        }
        let cp = self.checkpoint();
        let r = match self.call_with_results(func, nargs, results) {
            Ok(()) => self.run_results(),
            Err(e) => Err(e),
        };
        match r {
            Ok(vs) => Ok(vs),
            Err(e) => {
                self.rollback(cp);
                Err(e)
            },
        }
    }

    /// Like Lua's `pcall`: runs the function in slot `func` with `nargs`
    /// arguments and gives its first result (`Nil` when there is none).
    pub fn pcall(&mut self, func: usize, nargs: usize, nresults: usize) -> (r: Result<
        Value<N>,
        VmError<N>,
    >)
        requires
            old(self).wf(),
        ensures
            final(self).stack@.len() >= old(self).stack@.len(),
            final(self).wf(),
            final(self).protos == old(self).protos,
            func >= old(self).top ==> r == Err::<Value<N>, VmError<N>>(
                oob(func as int, old(self).top as int),
            ) && final(self)@ == old(self)@,
            func < old(self).top ==> match r {
                Ok(v) => exists|vs: Seq<Value<N>>|
                    protected_call(
                        old(self)@,
                        old(self).protos@,
                        func as int,
                        nargs as int,
                        ResultsSpec::Fixed(nresults),
                        Ok(vs),
                        final(self)@,
                    ) && v == first_or_nil(vs),
                Err(e) => protected_call(
                    old(self)@,
                    old(self).protos@,
                    func as int,
                    nargs as int,
                    ResultsSpec::Fixed(nresults),
                    Err(e),
                    final(self)@,
                ),
            },
    {
        let results = self.pcall_results(func, nargs, nresults)?;
        let v = if results.len() > 0 {
            results[0]
        } else {
            Value::Nil
        };
        assert(v == first_or_nil(results@));
        Ok(v)
    }

    /// Runs the function in slot `func` with `nargs` arguments and gives
    /// exactly `nresults` results: missing ones are `Nil`, extra ones dropped
    /// (none for `nresults == 0`).  On error the effective top and the frame
    /// count are restored.
    pub fn pcall_results(&mut self, func: usize, nargs: usize, nresults: usize) -> (r: Result<
        Vec<Value<N>>,
        VmError<N>,
    >)
        requires
            old(self).wf(),
        ensures
            final(self).stack@.len() >= old(self).stack@.len(),
            final(self).wf(),
            final(self).protos == old(self).protos,
            func >= old(self).top ==> r == Err::<Vec<Value<N>>, VmError<N>>(
                oob(func as int, old(self).top as int),
            ) && final(self)@ == old(self)@,
            func < old(self).top ==> protected_call(
                old(self)@,
                old(self).protos@,
                func as int,
                nargs as int,
                ResultsSpec::Fixed(nresults),
                match r {
                    Ok(vs) => Ok(vs@),
                    Err(e) => Err(e),
                },
                final(self)@,
            ),
    {
        self.protected_run(func, nargs, ResultsSpec::Fixed(nresults))
    }

    /// Like `CALL` with `C = 0`: runs the function in slot `func` with
    /// `nargs` arguments and gives all its results (possibly none).
    pub fn pcall_multi(&mut self, func: usize, nargs: usize) -> (r: Result<
        Vec<Value<N>>,
        VmError<N>,
    >)
        requires
            old(self).wf(),
        ensures
            final(self).stack@.len() >= old(self).stack@.len(),
            final(self).wf(),
            final(self).protos == old(self).protos,
            func >= old(self).top ==> r == Err::<Vec<Value<N>>, VmError<N>>(
                oob(func as int, old(self).top as int),
            ) && final(self)@ == old(self)@,
            func < old(self).top ==> protected_call(
                old(self)@,
                old(self).protos@,
                func as int,
                nargs as int,
                ResultsSpec::Multi,
                match r {
                    Ok(vs) => Ok(vs@),
                    Err(e) => Err(e),
                },
                final(self)@,
            ),
    {
        self.protected_run(func, nargs, ResultsSpec::Multi)
    }
}

} // verus!
