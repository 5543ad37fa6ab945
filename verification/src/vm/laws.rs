//! Properties of the machine that span operations.
use crate::opcode::{a_of, b_of, bx_of, c_of, op_of, opcode_from_number, Opcode};
use crate::proto::Proto;
use crate::vm::model::{model_wf, ClosureModel, ResultsSpec, VmModel};
use crate::vm::semantics::{
    has_lua_frame, bump_pc, call_spec, callee_of, cleared, current, fetch_spec, grown, host_values, nargs_of, padded,
    prepare_spec, protected_call, return_values, rget_spec, rk_spec, rset_seq, rset_spec, runs,
    set_top_spec, step_spec, with_closure, rget_seq, with_stack, write_back_spec, written, operands, run_spec, Step, MAX_STEPS,
};
use crate::{LuaNumber, Value, VmError};
use vstd::prelude::*;

verus! {

/// The prototype a call of `v` runs (0 when `v` is not callable).
pub open spec fn callee_pid<N>(m: VmModel<N>, v: Value<N>) -> int {
    match callee_of(m, v) {
        Some((pid, _ups)) => pid as int,
        None => 0,
    }
}

/// How many values a call that asked for `results` hands back.
pub open spec fn count_fits<N>(results: ResultsSpec, vs: Seq<Value<N>>) -> bool {
    match results {
        ResultsSpec::Fixed(n) => vs.len() == n,
        ResultsSpec::Multi => true,
    }
}

proof fn lemma_rset_seq_frames<N>(m: VmModel<N>, a: int, vals: Seq<Value<N>>)
    ensures
        rset_seq(m, a, vals) matches Ok(m2) ==> m2.frames == m.frames,
    decreases vals.len(),
{
    if vals.len() > 0 {
        lemma_rset_seq_frames(m, a, vals.drop_last());
    }
}

proof fn lemma_prepare_frames<N>(m: VmModel<N>, protos: Seq<Proto<N>>, pid: int, fi: int, nargs: int)
    ensures
        prepare_spec(m, protos, pid, fi, nargs) matches Ok((m2, _b, _c, _v)) ==> m2.frames == m.frames,
{
}

proof fn lemma_write_back_frames<N>(m: VmModel<N>, fi: int, results: ResultsSpec, rets: Seq<Value<N>>)
    ensures
        write_back_spec(m, fi, results, rets) matches Ok(m2) ==> m2.frames == m.frames,
{
}

/// While the frame at index 1 (the outermost Lua call) is live, a step keeps
/// its result count; a step that finishes the run hands back as many values
/// as that frame asked for.
proof fn lemma_step_outermost<N: LuaNumber>(m: VmModel<N>, protos: Seq<Proto<N>>)
    requires
        m.frames.len() >= 2,
    ensures
        match step_spec(m, protos) {
            Ok(Step::Continue(m2)) => m2.frames.len() >= 2 && m2.frames[1].results
                == m.frames[1].results,
            Ok(Step::Done(_m2, vs)) => count_fits(m.frames[1].results, vs),
            Err(_) => true,
        },
{
    reveal(step_spec);
    match fetch_spec(m, protos) {
        Err(_) => {},
        Ok((pid, i)) => {
            match opcode_from_number(op_of(i)) {
                None => {},
                Some(opc) => {
                    let a = a_of(i);
                    let b = b_of(i);
                    let fr = current(m);
                    lemma_rset_seq_frames(m, a, padded(fr.varargs, if b == 0 { fr.varargs.len() as int } else { b - 1 }));
                    match opc {
                        Opcode::Call => {
                            let fi = fr.base + a;
                            lemma_prepare_frames(
                                bump_pc(m, 1),
                                protos,
                                callee_pid(bump_pc(m, 1), bump_pc(m, 1).stack[fi]),
                                fi,
                                nargs_of(m, fi, b),
                            );
                        },
                        Opcode::TailCall => {
                            let fi = fr.base + a;
                            lemma_prepare_frames(
                                m,
                                protos,
                                callee_pid(m, m.stack[fi]),
                                fi,
                                nargs_of(m, fi, b),
                            );
                        },
                        Opcode::Return => {
                            match return_values(m, a, b) {
                                Err(_) => {},
                                Ok(rets) => {
                                    let m1 = VmModel {
                                        stack: m.stack,
                                        frames: m.frames.drop_last(),
                                        top: m.top,
                                        closures: m.closures,
                                    };
                                    lemma_write_back_frames(m1, fr.func, fr.results, rets);
                                },
                            }
                        },
                        _ => {},
                    }
                },
            }
        },
    }
}

/// A run from a state whose outermost Lua call is live hands back as many
/// values as that call asked for.
proof fn lemma_runs_outermost<N: LuaNumber>(
    m: VmModel<N>,
    protos: Seq<Proto<N>>,
    fuel: nat,
    after: VmModel<N>,
    vs: Seq<Value<N>>,
)
    requires
        m.frames.len() >= 2,
        run_spec(m, protos, fuel) == Ok::<(VmModel<N>, Seq<Value<N>>), VmError<N>>((after, vs)),
    ensures
        count_fits(m.frames[1].results, vs),
    decreases fuel,
{
    if fuel > 0 {
        lemma_step_outermost(m, protos);
        match step_spec(m, protos) {
            Ok(Step::Continue(m2)) => {
                lemma_runs_outermost(m2, protos, (fuel - 1) as nat, after, vs);
            },
            _ => {},
        }
    }
}

/// A protected call from the base frame that succeeds hands back exactly
/// `nresults` values when it asked for `Fixed(nresults)`: missing ones are
/// `Nil`, extra ones dropped.
pub proof fn lemma_pcall_results_count<N: LuaNumber>(
    m: VmModel<N>,
    protos: Seq<Proto<N>>,
    func: int,
    nargs: int,
    nresults: usize,
    vs: Seq<Value<N>>,
    after: VmModel<N>,
)
    requires
        m.frames.len() == 1,
        protected_call(m, protos, func, nargs, ResultsSpec::Fixed(nresults), Ok(vs), after),
    ensures
        vs.len() == nresults,
{
    let c = call_spec(m, protos, func, nargs, ResultsSpec::Fixed(nresults), func);
    let pid = callee_pid(m, m.stack[func]);
    lemma_prepare_frames(m, protos, pid, func, nargs);
    let m1 = c->Ok_0;
    assert(m1.frames.len() == 2);
    assert(m1.frames[1].results == ResultsSpec::Fixed(nresults));
    lemma_runs_outermost(m1, protos, MAX_STEPS as nat, after, vs);
}

/// `TAILCALL` replaces the running frame instead of pushing one: a tail
/// call never grows the frame stack.
pub proof fn lemma_tail_call_keeps_depth<N: LuaNumber>(m: VmModel<N>, protos: Seq<Proto<N>>)
    requires
        fetch_spec(m, protos) matches Ok((_pid, i)) && opcode_from_number(op_of(i)) == Some(
            Opcode::TailCall,
        ),
    ensures
        step_spec(m, protos) matches Ok(Step::Continue(m2)) ==> m2.frames.len()
            == m.frames.len(),
{
    reveal(step_spec);
    let i = fetch_spec(m, protos)->Ok_0.1;
    let fr = current(m);
    let fi = fr.base + a_of(i);
    lemma_prepare_frames(
        m,
        protos,
        callee_pid(m, m.stack[fi]),
        fi,
        nargs_of(m, fi, b_of(i)),
    );
}

/// `CALL` pushes exactly one frame.
pub proof fn lemma_call_pushes_one<N: LuaNumber>(m: VmModel<N>, protos: Seq<Proto<N>>)
    requires
        fetch_spec(m, protos) matches Ok((_pid, i)) && opcode_from_number(op_of(i)) == Some(
            Opcode::Call,
        ),
    ensures
        step_spec(m, protos) matches Ok(Step::Continue(m2)) ==> m2.frames.len()
            == m.frames.len() + 1,
{
    reveal(step_spec);
    let i = fetch_spec(m, protos)->Ok_0.1;
    let fr = current(m);
    let fi = fr.base + a_of(i);
    lemma_prepare_frames(
        bump_pc(m, 1),
        protos,
        callee_pid(bump_pc(m, 1), bump_pc(m, 1).stack[fi]),
        fi,
        nargs_of(m, fi, b_of(i)),
    );
}

/// The value argument `j` of a call from slot `fi` holds before the call:
/// what the stack holds there, or `Nil` beyond its end.
pub open spec fn arg_value<N>(m: VmModel<N>, fi: int, j: int) -> Value<N> {
    if fi + 1 + j < m.stack.len() {
        m.stack[fi + 1 + j]
    } else {
        Value::Nil
    }
}

/// The shape of a callee's registers after its arguments are arranged:
/// - the first `min(nargs, num_params)` parameters hold the arguments;
/// - missing parameters are `Nil`;
/// - the effective top ends at the fixed parameters, and the rest of the
///   register window is `Nil`, so extra arguments are not visible as registers;
/// - a vararg function keeps exactly the extra arguments as varargs, and
///   any other function keeps none;
/// - slots up to the function's own slot are untouched.
pub proof fn lemma_prepare_shape<N>(
    m: VmModel<N>,
    protos: Seq<Proto<N>>,
    pid: int,
    fi: int,
    nargs: int,
)
    requires
        model_wf(m),
        0 <= fi < m.stack.len(),
        nargs >= 0,
        prepare_spec(m, protos, pid, fi, nargs) is Ok,
    ensures
        ({
            let (m2, base, cap, va) = prepare_spec(m, protos, pid, fi, nargs)->Ok_0;
            let p = protos[pid];
            let np = p.num_params as int;
            &&& base == fi + 1
            &&& m2.top == base + np
            &&& cap == base + if p.max_stack >= p.num_params {
                p.max_stack as int
            } else {
                np
            }
            &&& m2.stack.len() >= cap
            &&& m2.frames == m.frames
            &&& forall|j: int| 0 <= j < np && j < nargs ==> #[trigger] m2.stack[base + j] == arg_value(m, fi, j)
            &&& forall|j: int| nargs <= j < np ==> #[trigger] m2.stack[base + j] == Value::<N>::Nil
            &&& forall|j: int| np <= j < cap - base ==> #[trigger] m2.stack[base + j] == Value::<N>::Nil
            &&& va == if p.is_vararg && nargs > np {
                Seq::new((nargs - np) as nat, |j: int| arg_value(m, fi, np + j))
            } else {
                Seq::empty()
            }
            &&& forall|k: int| 0 <= k <= fi ==> #[trigger] m2.stack[k] == m.stack[k]
        }),
{
    let (m2, base, cap, va) = prepare_spec(m, protos, pid, fi, nargs)->Ok_0;
    let p = protos[pid];
    let np = p.num_params as int;
    let arg_end = base + nargs;
    let m1 = set_top_spec(m, arg_end)->Ok_0;
    assert forall|j: int| 0 <= j < nargs implies #[trigger] m1.stack[base + j] == arg_value(m, fi, j) by {
    }
    if p.is_vararg && nargs > np {
        assert(va =~= Seq::new((nargs - np) as nat, |j: int| arg_value(m, fi, np + j)));
    }
}

/// Writing back the values of a return: the caller's effective top ends
/// right after the written values; a call that asked for `Fixed(n)` gets
/// exactly `n` values (missing ones `Nil`, extra ones dropped), a `Multi` call
/// gets all of them; with none, the function slot becomes `Nil`.  Slots
/// below the function slot are untouched.
pub proof fn lemma_write_back_shape<N>(
    m: VmModel<N>,
    fi: int,
    results: ResultsSpec,
    rets: Seq<Value<N>>,
)
    requires
        model_wf(m),
        0 <= fi < m.stack.len(),
        write_back_spec(m, fi, results, rets) is Ok,
    ensures
        ({
            let m2 = write_back_spec(m, fi, results, rets)->Ok_0;
            let n: int = match results {
                ResultsSpec::Fixed(n) => n as int,
                ResultsSpec::Multi => rets.len() as int,
            };
            &&& m2.top == fi + n
            &&& m2.frames == m.frames
            &&& n == 0 ==> m2.stack[fi] == Value::<N>::Nil
            &&& forall|j: int| 0 <= j < n ==> #[trigger] m2.stack[fi + j] == host_values(results, rets)[j]
            &&& forall|k: int| 0 <= k < fi ==> #[trigger] m2.stack[k] == m.stack[k]
        }),
{
}

/// Every slot at or above the effective top holds `Nil`: no stale value
/// lies beyond the live area.
pub open spec fn dead_slots_nil<N>(m: VmModel<N>) -> bool {
    forall|i: int| m.top <= i < m.stack.len() ==> #[trigger] m.stack[i] is Nil
}

proof fn lemma_set_top_dead<N>(m: VmModel<N>, t: int)
    requires
        0 <= m.top <= m.stack.len(),
        0 <= t,
        forall|i: int|
            (t <= i && m.top <= i && i < m.stack.len()) ==> #[trigger] m.stack[i] is Nil,
    ensures
        set_top_spec(m, t) matches Ok(m2) ==> dead_slots_nil(m2) && m2.stack.len() >= t && m2.top == t,
{
}

proof fn lemma_rset_dead<N>(m: VmModel<N>, r: int, v: Value<N>)
    requires
        dead_slots_nil(m),
        0 <= m.top,
        0 <= r,
        m.frames.len() > 0 ==> current(m).base >= 0,
    ensures
        rset_spec(m, r, v) matches Ok(m2) ==> dead_slots_nil(m2) && m2.stack.len() == m.stack.len()
            && m2.frames == m.frames && m2.top >= m.top,
{
    match rset_spec(m, r, v) {
        Ok(m2) => {
            let idx = current(m).base + r;
            assert forall|i: int| m2.top <= i < m2.stack.len() implies #[trigger] m2.stack[i] is Nil by {
                assert(i != idx);
                assert(m2.stack[i] == m.stack[i]);
            }
        },
        Err(_) => {},
    }
}

proof fn lemma_rset_seq_dead<N>(m: VmModel<N>, a: int, vals: Seq<Value<N>>)
    requires
        dead_slots_nil(m),
        0 <= m.top,
        0 <= a,
        m.frames.len() > 0 ==> current(m).base >= 0,
    ensures
        rset_seq(m, a, vals) matches Ok(m2) ==> dead_slots_nil(m2) && m2.frames == m.frames && m2.top
            >= m.top,
    decreases vals.len(),
{
    if vals.len() > 0 {
        lemma_rset_seq_dead(m, a, vals.drop_last());
        match rset_seq(m, a, vals.drop_last()) {
            Ok(m1) => lemma_rset_dead(m1, a + vals.len() - 1, vals.last()),
            Err(_) => {},
        }
    }
}

proof fn lemma_prepare_dead<N>(m: VmModel<N>, protos: Seq<Proto<N>>, pid: int, fi: int, nargs: int)
    requires
        dead_slots_nil(m),
        0 <= m.top <= m.stack.len(),
        0 <= fi,
        0 <= nargs,
    ensures
        prepare_spec(m, protos, pid, fi, nargs) matches Ok((m2, _b, _c, _v)) ==> dead_slots_nil(m2),
{
    if pid < protos.len() {
        let p = protos[pid];
        let np = p.num_params as int;
        let base = fi + 1;
        let arg_end = base + nargs;
        lemma_set_top_dead(m, arg_end);
        match set_top_spec(m, arg_end) {
            Ok(m1) => {
                let need = base + np;
                let m2 = if nargs < np {
                    with_stack(m1, cleared(grown(m1.stack, need), arg_end, need))
                } else {
                    m1
                };
                lemma_set_top_dead(m2, need);
            },
            Err(_) => {},
        }
    }
}

proof fn lemma_write_back_dead<N>(m: VmModel<N>, fi: int, results: ResultsSpec, rets: Seq<Value<N>>)
    requires
        dead_slots_nil(m),
        0 <= m.top <= m.stack.len(),
        0 <= fi < m.stack.len(),
    ensures
        write_back_spec(m, fi, results, rets) matches Ok(m2) ==> dead_slots_nil(m2),
{
    let n: int = match results {
        ResultsSpec::Fixed(n) => n as int,
        ResultsSpec::Multi => rets.len() as int,
    };
    if n == 0 {
        lemma_set_top_dead(with_stack(m, m.stack.update(fi, Value::Nil)), fi);
    } else {
        let x = with_stack(
            m,
            written(
                grown(m.stack, fi + n),
                fi,
                padded(rets, n),
            ),
        );
        lemma_set_top_dead(x, fi + n);
    }
}

/// Setting up a call keeps every slot at or above the effective top `Nil`.
pub proof fn lemma_call_keeps_dead_slots_nil<N>(
    m: VmModel<N>,
    protos: Seq<Proto<N>>,
    fi: int,
    nargs: int,
    results: ResultsSpec,
    target: int,
)
    requires
        model_wf(m),
        dead_slots_nil(m),
        0 <= fi,
        0 <= nargs,
    ensures
        call_spec(m, protos, fi, nargs, results, target) matches Ok(m2) ==> dead_slots_nil(m2),
{
    if fi < m.stack.len() {
        lemma_prepare_dead(
            m,
            protos,
            callee_pid(m, m.stack[fi]),
            fi,
            nargs,
        );
    }
}

/// The control slot `R[A+2]` that a `TFORLOOP` at the program counter
/// writes lies below the effective top (true of any state that is not
/// about to run a `TFORLOOP`).
pub open spec fn tfor_slot_live<N>(m: VmModel<N>, protos: Seq<Proto<N>>) -> bool {
    match fetch_spec(m, protos) {
        Ok((_pid, i)) => opcode_from_number(op_of(i)) == Some(Opcode::TForLoop) ==> current(m).base
            + a_of(i) + 2 < m.top,
        Err(_) => true,
    }
}

/// The machine keeps every slot at or above the effective top `Nil`: one
/// interpreter step from a well-formed state with no stale value beyond
/// the top leads to a state with none either.  A `TFORLOOP` writes its
/// control slot directly, so a `TFORLOOP` whose control slot lies at or
/// above the top is left out.
pub proof fn lemma_step_keeps_dead_slots_nil<N: LuaNumber>(m: VmModel<N>, protos: Seq<Proto<N>>)
    requires
        model_wf(m),
        dead_slots_nil(m),
        tfor_slot_live(m, protos),
    ensures
        match step_spec(m, protos) {
            Ok(Step::Continue(m2)) => dead_slots_nil(m2),
            Ok(Step::Done(m2, _vs)) => dead_slots_nil(m2),
            Err(_) => true,
        },
{
    reveal(step_spec);
    match fetch_spec(m, protos) {
        Err(_) => {},
        Ok((pid, i)) => {
            match opcode_from_number(op_of(i)) {
                None => {},
                Some(opc) => {
                    let a = a_of(i);
                    let b = b_of(i);
                    let fr = current(m);
                    match opc {
                        Opcode::LoadK => {
                            let k = bx_of(i);
                            if k < protos[pid].consts@.len() {
                                lemma_rset_dead(m, a, protos[pid].consts@[k]);
                            }
                        },
                        Opcode::Move => {
                            match rget_spec(m, b) {
                                Ok(v) => lemma_rset_dead(m, a, v),
                                Err(_) => {},
                            }
                        },
                        Opcode::Add => {
                            match operands(m, protos, pid, i) {
                                Ok((x, y)) => lemma_rset_dead(m, a, Value::Number(x.add_spec(y))),
                                Err(_) => {},
                            }
                        },
                        Opcode::Vararg => {
                            lemma_rset_seq_dead(
                                m,
                                a,
                                padded(
                                    fr.varargs,
                                    if b == 0 {
                                        fr.varargs.len() as int
                                    } else {
                                        b - 1
                                    },
                                ),
                            );
                        },
                        Opcode::Call => {
                            let fi = fr.base + a;
                            let m1 = bump_pc(m, 1);
                            if fi < m1.stack.len() {
                                lemma_prepare_dead(
                                    m1,
                                    protos,
                                    callee_pid(m1, m1.stack[fi]),
                                    fi,
                                    nargs_of(m, fi, b),
                                );
                            }
                        },
                        Opcode::Mul => {
                            match operands(m, protos, pid, i) {
                                Ok((x, y)) => lemma_rset_dead(m, a, Value::Number(x.mul_spec(y))),
                                Err(_) => {},
                            }
                        },
                        Opcode::Div => {
                            match operands(m, protos, pid, i) {
                                Ok((x, y)) => lemma_rset_dead(m, a, Value::Number(x.div_spec(y))),
                                Err(_) => {},
                            }
                        },
                        Opcode::GetUpval => {
                            if b < fr.upvalues.len() {
                                lemma_rset_dead(m, a, fr.upvalues[b]);
                            }
                        },
                        Opcode::Closure => {
                            match rget_seq(m, a + 1, c_of(i) as nat) {
                                Ok(vals) => {
                                    let m1 = with_closure(
                                        m,
                                        ClosureModel { proto_id: b as usize, upvalues: vals },
                                    );
                                    lemma_rset_dead(m1, a, Value::Closure(m.closures.len() as usize));
                                },
                                Err(_) => {},
                            }
                        },
                        Opcode::TForCall => {
                            let fi = fr.base + a;
                            let m1 = bump_pc(m, 1);
                            if fi < m1.stack.len() {
                                lemma_prepare_dead(m1, protos, callee_pid(m1, m1.stack[fi]), fi, 2);
                            }
                        },
                        Opcode::TForLoop => {
                            let idx = fr.base + a + 3;
                            if idx < m.stack.len() && !(m.stack[idx] is Nil) {
                                let m1 = with_stack(m, m.stack.update(idx - 1, m.stack[idx]));
                                assert(dead_slots_nil(m1));
                            }
                        },
                        Opcode::TailCall => {
                            let fi = fr.base + a;
                            if fi < m.stack.len() {
                                lemma_prepare_dead(
                                    m,
                                    protos,
                                    callee_pid(m, m.stack[fi]),
                                    fi,
                                    nargs_of(m, fi, b),
                                );
                            }
                        },
                        Opcode::Return => {
                            match return_values(m, a, b) {
                                Err(_) => {},
                                Ok(rets) => {
                                    let m1 = VmModel {
                                        stack: m.stack,
                                        frames: m.frames.drop_last(),
                                        top: m.top,
                                        closures: m.closures,
                                    };
                                    if fr.func < m1.stack.len() {
                                        lemma_write_back_dead(m1, fr.func, fr.results, rets);
                                    }
                                },
                            }
                        },
                        _ => {},
                    }
                },
            }
        },
    }
}

/// An `RK` operand that names constant `k` (as `rk_k(k)` builds it) reads
/// the running prototype's constant `k`; one below 256 reads the register.
pub proof fn lemma_rk_reads<N>(m: VmModel<N>, protos: Seq<Proto<N>>, pid: int, x: int)
    requires
        0 <= x < 512,
    ensures
        x >= 256 && 0 <= pid < protos.len() && x - 256 < protos[pid].consts@.len() ==> rk_spec(
            m,
            protos,
            pid,
            x,
        ) == Ok::<Value<N>, VmError<N>>(protos[pid].consts@[x - 256]),
        x < 256 ==> rk_spec(m, protos, pid, x) == rget_spec(m, x),
{
}

/// A protected call made from the base frame that fails leaves the frames
/// and the effective top exactly as they were.
pub proof fn lemma_failed_pcall_restores<N: LuaNumber>(
    m: VmModel<N>,
    protos: Seq<Proto<N>>,
    func: int,
    nargs: int,
    results: ResultsSpec,
    e: VmError<N>,
    after: VmModel<N>,
)
    requires
        m.frames.len() == 1,
        protected_call(m, protos, func, nargs, results, Err(e), after),
    ensures
        after.frames == m.frames,
        after.top == m.top,
{
    assert(after.frames =~= m.frames);
}

/// A protected call's outcome is a function of the machine state: two
/// protected calls of the same function from the same state give the same
/// result and leave the same state, whether they succeed or fail.  So
/// `pcall` gives the first value of what `pcall_results` gives from that
/// state, and both leave the machine alike.
pub proof fn lemma_protected_call_deterministic<N: LuaNumber>(
    m: VmModel<N>,
    protos: Seq<Proto<N>>,
    func: int,
    nargs: int,
    results: ResultsSpec,
    r1: Result<Seq<Value<N>>, VmError<N>>,
    after1: VmModel<N>,
    r2: Result<Seq<Value<N>>, VmError<N>>,
    after2: VmModel<N>,
)
    requires
        protected_call(m, protos, func, nargs, results, r1, after1),
        protected_call(m, protos, func, nargs, results, r2, after2),
    ensures
        r1 == r2,
        after1 == after2,
{
}

/// Reading `n` registers from `a` inside the running frame's window gives
/// exactly the stack slots `base + a .. base + a + n`, in order.
pub proof fn lemma_rget_seq_window<N>(m: VmModel<N>, a: int, n: nat)
    requires
        has_lua_frame(m),
        0 <= current(m).base + a,
        current(m).base + a + n <= current(m).top,
        current(m).top <= m.stack.len(),
    ensures
        rget_seq(m, a, n) matches Ok(s) && s.len() == n && forall|k: int|
            0 <= k < n ==> #[trigger] s[k] == m.stack[current(m).base + a + k],
    decreases n,
{
    if n > 0 {
        lemma_rget_seq_window(m, a, (n - 1) as nat);
        let s = rget_seq(m, a, (n - 1) as nat)->Ok_0;
        assert(rget_spec(m, a + n - 1) == Ok::<Value<N>, VmError<N>>(m.stack[current(m).base + a + n - 1]));
        assert forall|k: int| 0 <= k < n implies #[trigger] s.push(m.stack[current(m).base + a + n - 1])[k]
            == m.stack[current(m).base + a + k] by {
            if k < n - 1 {
                assert(s.push(m.stack[current(m).base + a + n - 1])[k] == s[k]);
            }
        }
    }
}

/// `TEST A C` skips the next instruction exactly when the truth of `R[A]`
/// differs from `C == 1`, that is, when `R[A]` being `nil` or `false`
/// coincides with `C == 1`: with `C = 1` a `nil` or `false` register skips
/// and any other value does not; with `C = 0` it is the other way round.
/// Nothing else changes.
pub proof fn lemma_test_skip<N: LuaNumber>(m: VmModel<N>, protos: Seq<Proto<N>>, pid: int, i: u32, v: Value<N>)
    requires
        fetch_spec(m, protos) == Ok::<(int, u32), VmError<N>>((pid, i)),
        op_of(i) == 13,
        rget_spec(m, a_of(i)) == Ok::<Value<N>, VmError<N>>(v),
    ensures
        step_spec(m, protos) matches Ok(Step::Continue(m2)) && m2.stack == m.stack && m2.closures
            == m.closures && m2.top == m.top && m2.frames == bump_pc(
            m,
            if (v is Nil || v == Value::<N>::Bool(false)) == (c_of(i) == 1) {
                2int
            } else {
                1int
            },
        ).frames,
{
    reveal(step_spec);
    assert(opcode_from_number(13) == Some(Opcode::Test));
    assert(bump_pc(bump_pc(m, 1), 1).frames =~= bump_pc(m, 2).frames);
}

/// `GETUPVAL A B` sets `R[A]` to the `B`-th value the running closure
/// captured, for every `B` below the number of captured values, and moves
/// on to the next instruction.
pub proof fn lemma_getupval_reads<N: LuaNumber>(m: VmModel<N>, protos: Seq<Proto<N>>, pid: int, i: u32)
    requires
        fetch_spec(m, protos) == Ok::<(int, u32), VmError<N>>((pid, i)),
        op_of(i) == 15,
        b_of(i) < current(m).upvalues.len(),
        0 <= current(m).base + a_of(i) < current(m).top,
        current(m).top <= m.stack.len(),
    ensures
        step_spec(m, protos) matches Ok(Step::Continue(m2)) && m2.stack == m.stack.update(
            current(m).base + a_of(i),
            current(m).upvalues[b_of(i)],
        ) && m2.closures == m.closures && m2.frames == bump_pc(m, 1).frames,
{
    reveal(step_spec);
    assert(opcode_from_number(15) == Some(Opcode::GetUpval));
}

/// `CLOSURE A B C` makes a new closure of prototype `B` whose `k`-th
/// captured value is `R[A + 1 + k]`, for `k < C`, puts it in `R[A]` and
/// moves on to the next instruction.
pub proof fn lemma_closure_captures<N: LuaNumber>(m: VmModel<N>, protos: Seq<Proto<N>>, pid: int, i: u32)
    requires
        fetch_spec(m, protos) == Ok::<(int, u32), VmError<N>>((pid, i)),
        op_of(i) == 14,
        0 <= current(m).base,
        current(m).base + a_of(i) + c_of(i) < current(m).top,
        current(m).top <= m.stack.len(),
    ensures
        step_spec(m, protos) matches Ok(Step::Continue(m2)) && m2.closures.len() == m.closures.len() + 1
            && m2.closures.last().proto_id == b_of(i) as usize && m2.closures.last().upvalues.len() == c_of(i)
            && (forall|k: int|
            0 <= k < c_of(i) ==> #[trigger] m2.closures.last().upvalues[k] == m.stack[current(m).base + a_of(i)
                + 1 + k]) && m2.stack == m.stack.update(
            current(m).base + a_of(i),
            Value::Closure(m.closures.len() as usize),
        ) && m2.frames == bump_pc(m, 1).frames,
{
    reveal(step_spec);
    assert(opcode_from_number(14) == Some(Opcode::Closure));
    lemma_rget_seq_window(m, a_of(i) + 1, c_of(i) as nat);
    let vals = rget_seq(m, a_of(i) + 1, c_of(i) as nat)->Ok_0;
    let m1 = with_closure(m, ClosureModel { proto_id: b_of(i) as usize, upvalues: vals });
    assert(current(m1) == current(m));
    assert forall|k: int| 0 <= k < c_of(i) implies #[trigger] vals[k] == m.stack[current(m).base + a_of(i) + 1
        + k] by {
        assert(vals[k] == m.stack[current(m).base + (a_of(i) + 1) + k]);
    }
}

/// `MOVE A B` copies register `B` into register `A` and moves on.
pub proof fn lemma_move_copies<N: LuaNumber>(m: VmModel<N>, protos: Seq<Proto<N>>, pid: int, i: u32)
    requires
        fetch_spec(m, protos) == Ok::<(int, u32), VmError<N>>((pid, i)),
        op_of(i) == 1,
        0 <= current(m).base,
        current(m).base + a_of(i) < current(m).top,
        current(m).base + b_of(i) < current(m).top,
        current(m).top <= m.stack.len(),
    ensures
        step_spec(m, protos) matches Ok(Step::Continue(m2)) && m2.stack == m.stack.update(
            current(m).base + a_of(i),
            m.stack[current(m).base + b_of(i)],
        ) && m2.closures == m.closures && m2.frames == bump_pc(m, 1).frames,
{
    reveal(step_spec);
    assert(opcode_from_number(1) == Some(Opcode::Move));
}

/// `LOADK A Bx` puts constant `Bx` of the running prototype into register
/// `A` and moves on.
pub proof fn lemma_loadk_loads<N: LuaNumber>(m: VmModel<N>, protos: Seq<Proto<N>>, pid: int, i: u32)
    requires
        fetch_spec(m, protos) == Ok::<(int, u32), VmError<N>>((pid, i)),
        op_of(i) == 0,
        bx_of(i) < protos[pid].consts@.len(),
        0 <= current(m).base,
        current(m).base + a_of(i) < current(m).top,
        current(m).top <= m.stack.len(),
    ensures
        step_spec(m, protos) matches Ok(Step::Continue(m2)) && m2.stack == m.stack.update(
            current(m).base + a_of(i),
            protos[pid].consts@[bx_of(i)],
        ) && m2.closures == m.closures && m2.frames == bump_pc(m, 1).frames,
{
    reveal(step_spec);
    assert(opcode_from_number(0) == Some(Opcode::LoadK));
}

/// `JMP sBx` moves the program counter by `sBx + 1` and changes nothing
/// else.
pub proof fn lemma_jmp_moves<N: LuaNumber>(m: VmModel<N>, protos: Seq<Proto<N>>, pid: int, i: u32)
    requires
        fetch_spec(m, protos) == Ok::<(int, u32), VmError<N>>((pid, i)),
        op_of(i) == 5,
    ensures
        step_spec(m, protos) matches Ok(Step::Continue(m2)) && m2.stack == m.stack && m2.closures
            == m.closures && m2.top == m.top && m2.frames == bump_pc(
            m,
            bx_of(i) - crate::opcode::MARG_SBX + 1,
        ).frames,
{
    reveal(step_spec);
    assert(opcode_from_number(5) == Some(Opcode::Jmp));
    assert(bump_pc(bump_pc(m, bx_of(i) - crate::opcode::MARG_SBX), 1).frames =~= bump_pc(
        m,
        bx_of(i) - crate::opcode::MARG_SBX + 1,
    ).frames);
}

/// `EQ A B C` and `LT A B C` over two number registers compare `R[B]` with
/// `R[C]` (`==` or `<` of the number type) and skip the next instruction
/// exactly when the outcome differs from `A == 1`.  Nothing else changes.
pub proof fn lemma_compare_skip<N: LuaNumber>(
    m: VmModel<N>,
    protos: Seq<Proto<N>>,
    pid: int,
    i: u32,
    x: N,
    y: N,
)
    requires
        fetch_spec(m, protos) == Ok::<(int, u32), VmError<N>>((pid, i)),
        op_of(i) == 3 || op_of(i) == 4,
        b_of(i) < 256,
        c_of(i) < 256,
        rget_spec(m, b_of(i)) == Ok::<Value<N>, VmError<N>>(Value::Number(x)),
        rget_spec(m, c_of(i)) == Ok::<Value<N>, VmError<N>>(Value::Number(y)),
    ensures
        step_spec(m, protos) matches Ok(Step::Continue(m2)) && m2.stack == m.stack && m2.closures
            == m.closures && m2.frames == bump_pc(
            m,
            if (if op_of(i) == 3 { x.eq_spec(y) } else { x.lt_spec(y) }) != (a_of(i) == 1) {
                2int
            } else {
                1int
            },
        ).frames,
{
    reveal(step_spec);
    assert(opcode_from_number(3) == Some(Opcode::Eq));
    assert(opcode_from_number(4) == Some(Opcode::Lt));
    assert(rk_spec(m, protos, pid, b_of(i)) == rget_spec(m, b_of(i)));
    assert(rk_spec(m, protos, pid, c_of(i)) == rget_spec(m, c_of(i)));
    assert(bump_pc(bump_pc(m, 1), 1).frames =~= bump_pc(m, 2).frames);
}

/// `ADD`, `MUL` and `DIV A B C` over two number registers put `R[B] + R[C]`,
/// `R[B] * R[C]` or `R[B] / R[C]` (the number type's operations, in that
/// order of operands) into register `A` and move on.
pub proof fn lemma_arith_computes<N: LuaNumber>(
    m: VmModel<N>,
    protos: Seq<Proto<N>>,
    pid: int,
    i: u32,
    x: N,
    y: N,
)
    requires
        fetch_spec(m, protos) == Ok::<(int, u32), VmError<N>>((pid, i)),
        op_of(i) == 2 || op_of(i) == 11 || op_of(i) == 12,
        b_of(i) < 256,
        c_of(i) < 256,
        rget_spec(m, b_of(i)) == Ok::<Value<N>, VmError<N>>(Value::Number(x)),
        rget_spec(m, c_of(i)) == Ok::<Value<N>, VmError<N>>(Value::Number(y)),
        0 <= current(m).base + a_of(i) < current(m).top,
        current(m).top <= m.stack.len(),
    ensures
        step_spec(m, protos) matches Ok(Step::Continue(m2)) && m2.stack == m.stack.update(
            current(m).base + a_of(i),
            Value::Number(
                if op_of(i) == 2 {
                    x.add_spec(y)
                } else if op_of(i) == 11 {
                    x.mul_spec(y)
                } else {
                    x.div_spec(y)
                },
            ),
        ) && m2.closures == m.closures && m2.frames == bump_pc(m, 1).frames,
{
    reveal(step_spec);
    assert(opcode_from_number(2) == Some(Opcode::Add));
    assert(opcode_from_number(11) == Some(Opcode::Mul));
    assert(opcode_from_number(12) == Some(Opcode::Div));
    assert(rk_spec(m, protos, pid, b_of(i)) == rget_spec(m, b_of(i)));
    assert(rk_spec(m, protos, pid, c_of(i)) == rget_spec(m, c_of(i)));
}

} // verus!
