//! Register and stack access, and the effective top.
use crate::opcode::BITRK;
use crate::proto::Proto;
use crate::vm::model::{lemma_wf_with, Vm, MAX_STACK};
use crate::vm::semantics::{
    agrees, cleared, grown, oob, proto_oob, rget_spec, rk_spec, rset_spec, set_top_spec, with_stack,
};
use crate::{LuaNumber, Value, VmError};
use vstd::prelude::*;

verus! {

impl<N: LuaNumber> Vm<N> {
    /// Grows the stack with `Nil` slots to at least `n` slots.
    pub(crate) fn ensure_stack_space(&mut self, n: usize)
        requires
            old(self).wf(),
            n <= MAX_STACK,
        ensures
            final(self).closures == old(self).closures,
            final(self).stack@.len() >= old(self).stack@.len(),
            final(self).wf(),
            final(self).protos == old(self).protos,
            final(self).frames == old(self).frames,
            final(self)@ == with_stack(old(self)@, grown(old(self)@.stack, n as int)),
    {
        let ghost s0 = self.stack@;
        while self.stack.len() < n
            invariant
                n <= MAX_STACK,
                s0 == old(self).stack@,
                self.protos == old(self).protos,
                self.closures == old(self).closures,
                self.frames == old(self).frames,
                self.top == old(self).top,
                s0.len() <= self.stack@.len() <= if n > s0.len() {
                    n as int
                } else {
                    s0.len() as int
                },
                self.stack@.subrange(0, s0.len() as int) == s0,
                forall|i: int| s0.len() <= i < self.stack@.len() ==> self.stack@[i] == Value::<N>::Nil,
            decreases n - self.stack.len(),
        {
            self.stack.push(Value::Nil);
        }
        assert(self.stack@ =~= grown(s0, n as int));
        proof {
            lemma_wf_with(old(self)@, self.stack@, self.top as int);
        }
        assert(self@ =~= with_stack(old(self)@, grown(old(self)@.stack, n as int)));
    }

    /// Sets the slots in `[lo, hi)` to `Nil`.
    pub(crate) fn clear_range(&mut self, lo: usize, hi: usize)
        requires
            old(self).wf(),
            hi <= old(self).stack@.len(),
        ensures
            final(self).closures == old(self).closures,
            final(self).stack@.len() >= old(self).stack@.len(),
            final(self).wf(),
            final(self).protos == old(self).protos,
            final(self).frames == old(self).frames,
            final(self)@ == with_stack(old(self)@, cleared(old(self)@.stack, lo as int, hi as int)),
    {
        let ghost s0 = self.stack@;
        let mut idx = lo;
        while idx < hi
            invariant
                hi <= s0.len(),
                lo <= idx,
                idx <= hi || idx == lo,
                s0 == old(self).stack@,
                self.protos == old(self).protos,
                self.closures == old(self).closures,
                self.frames == old(self).frames,
                self.top == old(self).top,
                self.stack@ == cleared(s0, lo as int, idx as int),
            decreases hi - idx,
        {
            self.stack.set(idx, Value::Nil);
            idx = idx + 1;
            assert(self.stack@ =~= cleared(s0, lo as int, idx as int));
        }
        assert(self.stack@ =~= cleared(s0, lo as int, hi as int)) by {
            assert(cleared(s0, lo as int, idx as int) =~= cleared(s0, lo as int, hi as int));
        }
        proof {
            lemma_wf_with(old(self)@, self.stack@, self.top as int);
        }
        assert(self@ =~= with_stack(old(self)@, cleared(old(self)@.stack, lo as int, hi as int)));
    }

    /// Sets the effective top (the first slot holding no live value).
    ///
    /// The stack never shrinks: when the top goes up, the stack grows with
    /// `Nil`; when it goes down, the slots it leaves become `Nil`, so no stale
    /// value is taken for a live one later.
    pub(crate) fn set_top(&mut self, new_top: usize) -> (r: Result<(), VmError<N>>)
        requires
            old(self).wf(),
        ensures
            final(self).closures == old(self).closures,
            final(self).stack@.len() >= old(self).stack@.len(),
            final(self).wf(),
            final(self).protos == old(self).protos,
            final(self).frames == old(self).frames,
            agrees(set_top_spec(old(self)@, new_top as int), r, final(self)@),
    {
        if new_top > MAX_STACK {
            return Err(VmError::StackOverflow);
        }
        self.ensure_stack_space(new_top);
        if new_top < self.top {
            let old_top = self.top;
            self.clear_range(new_top, old_top);
        }
        self.top = new_top;
        proof {
            lemma_wf_with(old(self)@, self.stack@, self.top as int);
        }
        assert(self@ =~= set_top_spec(old(self)@, new_top as int)->Ok_0);
        Ok(())
    }

    /// Reads register `r` of the running Lua frame; the index must lie below
    /// the frame's window end and within the stack.
    pub(crate) fn rget(&self, r: usize) -> (v: Result<Value<N>, VmError<N>>)
        requires
            self.wf(),
            r <= 2 * MAX_STACK,
        ensures
            v == rget_spec(self@, r as int),
    {
        let fr = self.lua_frame()?;
        let idx = fr.base + r;
        if idx >= fr.top {
            return Err(Self::oob(idx, fr.top));
        }
        if idx >= self.stack.len() {
            return Err(Self::oob(idx, self.stack.len()));
        }
        Ok(self.stack[idx])
    }

    /// Writes register `r` of the running Lua frame.  The effective top then
    /// covers the register, so a later `B = 0` call or return sees it.
    pub(crate) fn rset(&mut self, r: usize, v: Value<N>) -> (res: Result<(), VmError<N>>)
        requires
            old(self).wf(),
            r <= 2 * MAX_STACK,
        ensures
            res is Err ==> final(self)@ == old(self)@,
            final(self).closures == old(self).closures,
            final(self).stack@.len() >= old(self).stack@.len(),
            final(self).wf(),
            final(self).protos == old(self).protos,
            final(self).frames == old(self).frames,
            agrees(rset_spec(old(self)@, r as int, v), res, final(self)@),
    {
        let n = self.frames.len();
        let base = self.frames[n - 1].base;
        let top_cap = self.frames[n - 1].top;
        if self.frames[n - 1].proto_id.is_none() {
            return Err(VmError::NoLuaFrame);
        }
        assert(self@.frames[n - 1] == self.frames@[n - 1].model());
        let idx = base + r;
        if idx >= top_cap {
            return Err(Self::oob(idx, top_cap));
        }
        if idx >= self.stack.len() {
            return Err(Self::oob(idx, self.stack.len()));
        }
        self.stack.set(idx, v);
        if self.top < idx + 1 {
            self.top = idx + 1;
        }
        proof {
            lemma_wf_with(old(self)@, self.stack@, self.top as int);
        }
        assert(self@ =~= rset_spec(old(self)@, r as int, v)->Ok_0);
        Ok(())
    }

    /// Reads an `RK` operand of prototype `proto_id`: a constant when the
    /// `BITRK` bit is set, else a register.
    pub(crate) fn rk_get(&self, proto_id: usize, x: u32) -> (v: Result<Value<N>, VmError<N>>)
        requires
            self.wf(),
            x < 512,
        ensures
            v == rk_spec(self@, self.protos@, proto_id as int, x as int),
    {
        assert(x < 512 ==> (((x & BITRK) != 0) == (x >= 256))) by (bit_vector);
        assert(x < 512 && x >= 256 ==> (x & !BITRK) == x - 256) by (bit_vector);
        if (x & BITRK) != 0 {
            let k = (x & !BITRK) as usize;
            if proto_id >= self.protos.len() {
                return Err(Self::proto_oob(proto_id, self.protos.len()));
            }
            let proto: &Proto<N> = &self.protos[proto_id];
            if k >= proto.consts.len() {
                return Err(Self::oob(k, proto.consts.len()));
            }
            Ok(proto.consts[k])
        } else {
            self.rget(x as usize)
        }
    }
}

} // verus!
