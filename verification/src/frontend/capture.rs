//! What the code that creates a closure does: the instructions that load
//! the captured variables, then `CLOSURE`.
use crate::frontend::meaning::{ctx, lemma_bump_chain, lemma_step_move, lemma_steps_add, steps};
use crate::frontend::parser::{capture_code, capture_ins};
use crate::opcode::{abc_of, lemma_abc_fields};
use crate::proto::Proto;
use crate::vm::laws::{lemma_closure_captures, lemma_getupval_reads};
use crate::vm::model::VmModel;
use crate::vm::semantics::{bump_pc, current, fetch_spec, rset_spec, step_spec};
use crate::{LuaNumber, Value, VmError};
use vstd::prelude::*;

verus! {

/// One `MOVE` of a local's register into `r`, as one step.
proof fn lemma_capture_move<N: LuaNumber>(
    m: VmModel<N>,
    mp: VmModel<N>,
    protos: Seq<Proto<N>>,
    code: Seq<u32>,
    consts: Seq<Value<N>>,
    pc: int,
    nregs: int,
    reg: int,
    r: u32,
    d: (bool, usize),
) -> (mj: VmModel<N>)
    requires
        ctx(mp, protos, code, consts, pc, nregs),
        0 <= pc < code.len(),
        code[pc] == abc_of(1, r, d.1 as u32, 0) as u32,
        d.0,
        d.1 <= reg < r < nregs <= 250,
        current(mp).base == current(m).base,
        mp.stack[current(m).base + d.1] == m.stack[current(m).base + d.1],
    ensures
        steps(mp, protos, 1) == Some(mj),
        mj.frames == bump_pc(mp, 1).frames,
        mj.closures == mp.closures,
        mj.stack == mp.stack.update(current(m).base + r, capture_src(m, d)),
{
    lemma_step_move(mp, protos, code, consts, pc, nregs, r, d.1 as u32);
    let v = mp.stack[current(m).base + d.1];
    let m1 = rset_spec(mp, r as int, v)->Ok_0;
    assert(bump_pc(mp, 0).frames =~= mp.frames);
    lemma_bump_chain(mp, m1, 0, 1);
    bump_pc(m1, 1)
}

/// One `GETUPVAL` into `r`, as one step.
proof fn lemma_capture_getupval<N: LuaNumber>(
    m: VmModel<N>,
    mp: VmModel<N>,
    protos: Seq<Proto<N>>,
    code: Seq<u32>,
    consts: Seq<Value<N>>,
    pc: int,
    nregs: int,
    r: u32,
    d: (bool, usize),
) -> (mj: VmModel<N>)
    requires
        ctx(mp, protos, code, consts, pc, nregs),
        0 <= pc < code.len(),
        code[pc] == abc_of(15, r, d.1 as u32, 0) as u32,
        !d.0,
        d.1 < 512,
        r < nregs <= 250,
        d.1 < current(mp).upvalues.len(),
        current(mp).upvalues == current(m).upvalues,
        current(mp).base == current(m).base,
    ensures
        steps(mp, protos, 1) == Some(mj),
        mj.frames == bump_pc(mp, 1).frames,
        mj.closures == mp.closures,
        mj.stack == mp.stack.update(current(m).base + r, capture_src(m, d)),
{
    let i = code[pc];
    lemma_abc_fields(15, r, d.1 as u32, 0);
    let pid = current(mp).proto_id->0 as int;
    assert(protos[pid].code@[pc] == code[pc]);
    assert(fetch_spec(mp, protos) == Ok::<(int, u32), VmError<N>>((pid, i)));
    lemma_getupval_reads(mp, protos, pid, i);
    reveal(step_spec);
    let m2 = step_spec(mp, protos)->Ok_0->Continue_0;
    reveal_with_fuel(steps, 2);
    assert(steps(mp, protos, 1) == Some(m2));
    m2
}

/// The value of the variable a capture descriptor describes in machine
/// `m`: register `d.1` of the running frame for a local, else the running
/// closure's captured value `d.1`.
pub open spec fn capture_src<N>(m: VmModel<N>, d: (bool, usize)) -> Value<N> {
    if d.0 {
        m.stack[current(m).base + d.1]
    } else {
        current(m).upvalues[d.1 as int]
    }
}

/// The conditions under which capture code for `descs` at `lo`, then
/// `CLOSURE reg id n`, runs from `m`.
pub open spec fn captures_ready<N: LuaNumber>(
    m: VmModel<N>,
    protos: Seq<Proto<N>>,
    code: Seq<u32>,
    consts: Seq<Value<N>>,
    lo: int,
    nregs: int,
    reg: int,
    id: int,
    descs: Seq<(bool, usize)>,
) -> bool {
    &&& ctx(m, protos, code, consts, lo, nregs)
    &&& lo + descs.len() < code.len()
    &&& code.subrange(lo, lo + descs.len()) == capture_code(reg, descs)
    &&& code[lo + descs.len()] == abc_of(14, reg as u32, id as u32, descs.len() as u32) as u32
    &&& 0 <= reg
    &&& reg + 1 + descs.len() <= nregs <= 250
    &&& 0 <= id < 512
    &&& forall|k: int| 0 <= k < descs.len() ==> (#[trigger] descs[k]).1 < 512
    &&& forall|k: int| 0 <= k < descs.len() && (#[trigger] descs[k]).0 ==> descs[k].1 <= reg
    &&& forall|k: int| 0 <= k < descs.len() && !(#[trigger] descs[k]).0 ==> descs[k].1 < current(
        m,
    ).upvalues.len()
}

/// The first `j` capture instructions, as `j` steps.
proof fn lemma_captures_prefix<N: LuaNumber>(
    m: VmModel<N>,
    protos: Seq<Proto<N>>,
    code: Seq<u32>,
    consts: Seq<Value<N>>,
    lo: int,
    nregs: int,
    reg: int,
    id: int,
    descs: Seq<(bool, usize)>,
    j: int,
) -> (mj: VmModel<N>)
    requires
        captures_ready(m, protos, code, consts, lo, nregs, reg, id, descs),
        0 <= j <= descs.len(),
    ensures
        steps(m, protos, j as nat) == Some(mj),
        ctx(mj, protos, code, consts, lo + j, nregs),
        mj.frames == bump_pc(m, j).frames,
        mj.closures == m.closures,
        mj.stack.len() == m.stack.len(),
        forall|t: int| 0 <= t <= reg ==> #[trigger] mj.stack[current(m).base + t] == m.stack[current(m).base + t],
        forall|k: int| 0 <= k < j ==> #[trigger] mj.stack[current(m).base + reg + 1 + k] == capture_src(m, descs[k]),
    decreases j,
{
    if j == 0 {
        assert(bump_pc(m, 0).frames =~= m.frames);
        m
    } else {
        let mp = lemma_captures_prefix(m, protos, code, consts, lo, nregs, reg, id, descs, j - 1);
        lemma_bump_chain(m, mp, j - 1, 0);
        let pc = lo + j - 1;
        let d = descs[j - 1];
        let r = (reg + j) as u32;
        reveal(capture_code);
        assert(code[pc] == code.subrange(lo, lo + descs.len())[j - 1]);
        assert(code[pc] == capture_ins(reg + j, d));
        let mj = if d.0 {
            lemma_capture_move(m, mp, protos, code, consts, pc, nregs, reg, r, d)
        } else {
            lemma_capture_getupval(m, mp, protos, code, consts, pc, nregs, r, d)
        };
        lemma_steps_add(m, protos, (j - 1) as nat, 1);
        assert((j - 1) as nat + 1 == j as nat);
        lemma_bump_chain(m, mp, j - 1, 1);
        lemma_bump_chain(m, mj, j, 0);
        assert forall|k: int| 0 <= k < j implies #[trigger] mj.stack[current(m).base + reg + 1 + k]
            == capture_src(m, descs[k]) by {
            if k < j - 1 {
                assert(mj.stack[current(m).base + reg + 1 + k] == mp.stack[current(m).base + reg + 1 + k]);
            }
        }
        assert forall|t: int| 0 <= t <= reg implies #[trigger] mj.stack[current(m).base + t]
            == m.stack[current(m).base + t] by {
            assert(mj.stack[current(m).base + t] == mp.stack[current(m).base + t]);
        }
        mj
    }
}

/// Capture code for `descs`, then `CLOSURE reg id n`, makes a closure whose
/// `k`-th captured value is the variable `descs[k]` describes (a register
/// of the running frame for a local of the enclosing function, else one of
/// the running closure's captured values), for every `k < n`.
pub proof fn lemma_captures_run<N: LuaNumber>(
    m: VmModel<N>,
    protos: Seq<Proto<N>>,
    code: Seq<u32>,
    consts: Seq<Value<N>>,
    lo: int,
    nregs: int,
    reg: int,
    id: int,
    descs: Seq<(bool, usize)>,
)
    requires
        captures_ready(m, protos, code, consts, lo, nregs, reg, id, descs),
    ensures
        steps(m, protos, (descs.len() + 1) as nat) matches Some(m2) && m2.closures.len() == m.closures.len() + 1
            && m2.closures.last().upvalues.len() == descs.len() && forall|k: int|
            0 <= k < descs.len() ==> #[trigger] m2.closures.last().upvalues[k] == capture_src(m, descs[k]),
{
    let n = descs.len() as int;
    let mn = lemma_captures_prefix(m, protos, code, consts, lo, nregs, reg, id, descs, n);
    lemma_bump_chain(m, mn, n, 0);
    let pc = lo + n;
    let i = code[pc];
    lemma_abc_fields(14, reg as u32, id as u32, n as u32);
    let pid = current(mn).proto_id->0 as int;
    assert(protos[pid].code@[pc] == code[pc]);
    assert(fetch_spec(mn, protos) == Ok::<(int, u32), VmError<N>>((pid, i)));
    lemma_closure_captures(mn, protos, pid, i);
    reveal(step_spec);
    let m2 = step_spec(mn, protos)->Ok_0->Continue_0;
    reveal_with_fuel(steps, 2);
    assert(steps(mn, protos, 1) == Some(m2));
    lemma_steps_add(m, protos, n as nat, 1);
    assert(n as nat + 1 == (descs.len() + 1) as nat);
    assert forall|k: int| 0 <= k < descs.len() implies #[trigger] m2.closures.last().upvalues[k]
        == capture_src(m, descs[k]) by {
        assert(m2.closures.last().upvalues[k] == mn.stack[current(mn).base + reg + 1 + k]);
    }
}

} // verus!
