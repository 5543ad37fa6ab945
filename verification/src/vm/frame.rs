//! The running frame, checkpoints and rollback.
use crate::vm::model::{frame_wf, CallFrame, Vm, MAX_STACK};
use crate::vm::semantics::{bump_pc, current, has_lua_frame, rollback_spec, set_top_spec};
use crate::{LuaNumber, VmError};
use vstd::prelude::*;

verus! {

/// What a protected call restores on error: the effective top and the
/// number of frames.
#[derive(Copy, Clone)]
pub(crate) struct VmCheckpoint {
    pub(crate) top: usize,
    pub(crate) frames_len: usize,
}

/// The frames' models after replacing frame `i`.
pub proof fn lemma_frames_update<N>(fs: Seq<CallFrame<N>>, i: int, f: CallFrame<N>)
    requires
        0 <= i < fs.len(),
    ensures
        fs.update(i, f).map_values(|g: CallFrame<N>| g.model())
            =~= fs.map_values(|g: CallFrame<N>| g.model()).update(i, f.model()),
{
}

/// The frames' models after pushing a frame.
pub proof fn lemma_frames_push<N>(fs: Seq<CallFrame<N>>, f: CallFrame<N>)
    ensures
        fs.push(f).map_values(|g: CallFrame<N>| g.model())
            =~= fs.map_values(|g: CallFrame<N>| g.model()).push(f.model()),
{
}

/// The frames' models after dropping the last frames.
pub proof fn lemma_frames_prefix<N>(fs: Seq<CallFrame<N>>, n: int)
    requires
        0 <= n <= fs.len(),
    ensures
        fs.subrange(0, n).map_values(|g: CallFrame<N>| g.model())
            =~= fs.map_values(|g: CallFrame<N>| g.model()).subrange(0, n),
{
}

impl<N: LuaNumber> Vm<N> {
    /// The running frame, which must be a Lua frame.
    pub(crate) fn lua_frame(&self) -> (r: Result<&CallFrame<N>, VmError<N>>)
        requires
            self.wf(),
        ensures
            match r {
                Ok(f) => has_lua_frame(self@) && f.model() == current(self@),
                Err(e) => !has_lua_frame(self@) && e == VmError::<N>::NoLuaFrame,
            },
    {
        let fr = &self.frames[self.frames.len() - 1];
        assert(self@.frames.last() == fr.model());
        if fr.proto_id.is_some() {
            Ok(fr)
        } else {
            Err(VmError::NoLuaFrame)
        }
    }

    /// Moves the running frame's program counter by `d`.
    pub(crate) fn bump_pc(&mut self, d: isize)
        requires
            old(self).wf(),
            old(self).frames@.last().proto_id is Some,
            isize::MIN <= old(self).frames@.last().pc + d <= isize::MAX,
        ensures
            final(self).closures == old(self).closures,
            final(self).stack@.len() >= old(self).stack@.len(),
            final(self)@.frames[0] == old(self)@.frames[0],
            final(self).wf(),
            final(self).protos == old(self).protos,
            final(self)@ == bump_pc(old(self)@, d as int),
    {
        let last = self.frames.len() - 1;
        let ghost fs0 = self.frames@;
        let mut fr = self.frames.pop().unwrap();
        fr.pc = fr.pc + d;
        self.frames.push(fr);
        proof {
            assert(self.frames@ =~= fs0.update(last as int, fr));
            lemma_frames_update(fs0, last as int, fr);
            let m = self@;
            assert forall|i: int| 0 <= i < m.frames.len() implies frame_wf(
                #[trigger] m.frames[i],
                m.stack.len() as int,
            ) by {
                assert(frame_wf(old(self)@.frames[i], m.stack.len() as int));
            }
        }
        assert(self@ =~= bump_pc(old(self)@, d as int));
    }

    pub(crate) fn checkpoint(&self) -> (cp: VmCheckpoint)
        requires
            self.wf(),
        ensures
            cp.top == self.top,
            cp.frames_len == self.frames.len(),
            cp.top <= MAX_STACK,
    {
        VmCheckpoint { top: self.top, frames_len: self.frames.len() }
    }

    /// Restores the effective top and the frame count of a checkpoint (the
    /// base frame always stays).  The stack keeps its length: slots above the
    /// restored top become `Nil`.
    pub(crate) fn rollback(&mut self, cp: VmCheckpoint)
        requires
            old(self).wf(),
            cp.top <= MAX_STACK,
        ensures
            final(self).closures == old(self).closures,
            final(self).stack@.len() >= old(self).stack@.len(),
            final(self)@.frames[0] == old(self)@.frames[0],
            final(self).wf(),
            final(self).protos == old(self).protos,
            final(self).top == cp.top,
            final(self).frames.len() == if old(self).frames.len() < cp.frames_len {
                old(self).frames.len() as int
            } else if cp.frames_len < 1 {
                1
            } else {
                cp.frames_len as int
            },
            final(self)@.frames == old(self)@.frames.subrange(0, final(self).frames.len() as int),
            final(self)@.stack == set_top_spec(old(self)@, cp.top as int)->Ok_0.stack,
            final(self)@ == rollback_spec(old(self)@, cp.top as int, cp.frames_len as int),
    {
        let r = self.set_top(cp.top);
        assert(r is Ok);
        let keep = if cp.frames_len < 1 {
            1
        } else {
            cp.frames_len
        };
        let ghost fs1 = self.frames@;
        self.frames.truncate(keep);
        proof {
            let n = self.frames.len() as int;
            assert(self.frames@ =~= fs1.subrange(0, n));
            lemma_frames_prefix(fs1, n);
            let m = self@;
            assert forall|i: int| 0 <= i < m.frames.len() implies frame_wf(
                #[trigger] m.frames[i],
                m.stack.len() as int,
            ) by {
                assert(m.frames[i] == fs1.map_values(|g: CallFrame<N>| g.model())[i]);
            }
            assert(self@ =~= rollback_spec(old(self)@, cp.top as int, cp.frames_len as int));
        }
    }
}

} // verus!
