//! The machine's data: value stack, call frames, prototypes and the
//! effective top, with their mathematical models.
use crate::proto::Proto;
use crate::Value;
use vstd::prelude::*;

verus! {

/// The most slots the value stack can hold.  A `Vec` never spans more than
/// `isize::MAX` (that is `usize::MAX / 2`) bytes, and a `Value` holds a
/// `usize` beside its tag, so it takes at least two `usize`s, eight bytes or
/// more: no value stack reaches `usize::MAX / 16` slots.  A request to grow
/// past it is answered with `StackOverflow` instead of an allocation failure.
pub const MAX_STACK: usize = usize::MAX / 16;

/// The bound on a prototype's code length: a `Vec<u32>` never holds more
/// than `isize::MAX / 4` words.
pub open spec fn max_code_len() -> int {
    isize::MAX as int / 4
}

/// How many results a call hands back to its caller.
#[derive(Copy, Clone, Debug, PartialEq, Eq, Structural)]
pub enum ResultsSpec {
    /// Exactly this many (0 discards them); missing ones are `Nil`, extra ones dropped.
    Fixed(usize),
    /// All of them; the caller's effective top then marks their end.
    Multi,
}

/// One activation.
#[derive(Debug)]
pub struct CallFrame<N> {
    /// The running prototype; `None` for the base frame that only receives results.
    pub proto_id: Option<usize>,
    pub pc: isize,
    /// Where results are written back: for a call, the function's own slot.
    pub func: usize,
    /// Stack index of `R0`.
    pub base: usize,
    /// End of the register window: `base + max(max_stack, num_params)`.
    pub top: usize,
    /// Arguments beyond the fixed parameters of a vararg function.
    pub varargs: Vec<Value<N>>,
    pub results: ResultsSpec,
    /// The values the running closure captured (none for a plain function).
    pub upvalues: Vec<Value<N>>,
}

/// A closure: a prototype and the values it captured when it was created.
#[derive(Debug)]
pub struct ClosureObj<N> {
    pub proto_id: usize,
    pub upvalues: Vec<Value<N>>,
}

/// The model of a closure.
pub struct ClosureModel<N> {
    pub proto_id: usize,
    pub upvalues: Seq<Value<N>>,
}

impl<N> ClosureObj<N> {
    pub open spec fn model(&self) -> ClosureModel<N> {
        ClosureModel { proto_id: self.proto_id, upvalues: self.upvalues@ }
    }
}

/// The model of a frame.
#[verifier::ext_equal]
pub struct FrameModel<N> {
    pub proto_id: Option<usize>,
    pub pc: int,
    pub func: int,
    pub base: int,
    pub top: int,
    pub varargs: Seq<Value<N>>,
    pub results: ResultsSpec,
    pub upvalues: Seq<Value<N>>,
}

/// The model of the machine's mutable state.
#[verifier::ext_equal]
pub struct VmModel<N> {
    pub stack: Seq<Value<N>>,
    pub frames: Seq<FrameModel<N>>,
    /// The effective top: the first slot that holds no live value.
    pub top: int,
    /// The closures created so far, by index.
    pub closures: Seq<ClosureModel<N>>,
}

impl<N> CallFrame<N> {
    pub open spec fn model(&self) -> FrameModel<N> {
        FrameModel {
            proto_id: self.proto_id,
            pc: self.pc as int,
            func: self.func as int,
            base: self.base as int,
            top: self.top as int,
            varargs: self.varargs@,
            results: self.results,
            upvalues: self.upvalues@,
        }
    }
}

/// A register machine whose registers are windows of one value stack.
///
/// A call starting at `func_index` keeps the function in
/// `stack[func_index]`, its arguments right after it, and its register
/// `R0` at `func_index + 1`.  `top` is the effective top: calls with
/// `B = 0` take their arguments up to it and returns with `B = 0` return
/// the registers up to it.
pub struct Vm<N> {
    pub stack: Vec<Value<N>>,
    pub protos: Vec<Proto<N>>,
    /// `frames[0]` is the base frame; Lua frames are pushed above it.
    pub frames: Vec<CallFrame<N>>,
    pub top: usize,
    /// The closures created so far; `Value::Closure(i)` names the `i`-th.
    pub closures: Vec<ClosureObj<N>>,
}

impl<N> View for Vm<N> {
    type V = VmModel<N>;

    open spec fn view(&self) -> VmModel<N> {
        VmModel {
            stack: self.stack@,
            frames: self.frames@.map_values(|f: CallFrame<N>| f.model()),
            top: self.top as int,
            closures: self.closures@.map_values(|c: ClosureObj<N>| c.model()),
        }
    }
}

/// A frame's indices stay within a stack of `len` slots.
pub open spec fn frame_wf<N>(f: FrameModel<N>, len: int) -> bool {
    &&& 0 <= f.func
    &&& 0 <= f.base <= len
    &&& 0 <= f.top <= len
    &&& f.varargs.len() <= MAX_STACK
}

/// The prototypes' code fits the machine's program counter.
pub open spec fn protos_wf<N>(protos: Seq<Proto<N>>) -> bool {
    forall|p: int| 0 <= p < protos.len() ==> #[trigger] protos[p].code@.len() <= max_code_len()
}

/// The machine state is well formed: the base frame (no prototype) is at the bottom, the effective top
/// lies within the stack, the stack within `MAX_STACK`, and every frame
/// within the stack.
pub open spec fn model_wf<N>(m: VmModel<N>) -> bool {
    &&& m.frames.len() >= 1
    &&& m.frames[0].proto_id is None
    &&& 0 <= m.top <= m.stack.len() <= MAX_STACK
    &&& forall|i: int| 0 <= i < m.frames.len() ==> frame_wf(#[trigger] m.frames[i], m.stack.len() as int)
}

/// Growing the stack (within `MAX_STACK`) and moving the effective top
/// within it keeps the state well formed.
pub proof fn lemma_wf_with<N>(m: VmModel<N>, s: Seq<Value<N>>, top: int)
    requires
        model_wf(m),
        m.stack.len() <= s.len() <= MAX_STACK,
        0 <= top <= s.len(),
    ensures
        model_wf(VmModel { stack: s, frames: m.frames, top, closures: m.closures }),
{
    assert forall|i: int| 0 <= i < m.frames.len() implies frame_wf(
        #[trigger] m.frames[i],
        s.len() as int,
    ) by {
        assert(frame_wf(m.frames[i], m.stack.len() as int));
    }
}

/// Dropping the running frame (never the base frame) keeps the state well formed.
pub proof fn lemma_wf_pop<N>(m: VmModel<N>)
    requires
        model_wf(m),
        m.frames.len() >= 2,
    ensures
        model_wf(VmModel { stack: m.stack, frames: m.frames.drop_last(), top: m.top, closures: m.closures }),
{
    let m1 = VmModel { stack: m.stack, frames: m.frames.drop_last(), top: m.top, closures: m.closures };
    assert forall|i: int| 0 <= i < m1.frames.len() implies frame_wf(
        #[trigger] m1.frames[i],
        m1.stack.len() as int,
    ) by {
        assert(m1.frames[i] == m.frames[i]);
    }
}

impl<N> Vm<N> {
    /// The machine is well formed.
    pub open spec fn wf(&self) -> bool {
        &&& model_wf(self@)
        &&& protos_wf(self.protos@)
    }

    /// The base frame that receives the results of an outermost call.
    pub open spec fn sentinel_frame() -> FrameModel<N> {
        FrameModel {
            proto_id: None,
            pc: 0,
            func: 0,
            base: 0,
            top: 0,
            varargs: Seq::empty(),
            results: ResultsSpec::Fixed(0),
            upvalues: Seq::empty(),
        }
    }

    /// Creates a machine over `protos` with an empty stack and only the base frame.
    pub fn new(protos: Vec<Proto<N>>) -> (vm: Vm<N>)
        requires
            protos_wf(protos@),
        ensures
            vm.wf(),
            vm.protos@ == protos@,
            vm@.stack == Seq::<Value<N>>::empty(),
            vm@.frames == seq![Self::sentinel_frame()],
            vm@.top == 0,
            vm@.closures == Seq::<ClosureModel<N>>::empty(),
    {
        let sentinel = CallFrame {
            proto_id: None,
            pc: 0,
            func: 0,
            base: 0,
            top: 0,
            varargs: Vec::new(),
            results: ResultsSpec::Fixed(0),
            upvalues: Vec::new(),
        };
        let mut frames = Vec::new();
        frames.push(sentinel);
        let vm = Vm { stack: Vec::new(), frames, protos, top: 0, closures: Vec::new() };
        assert(vm@.frames =~= seq![Self::sentinel_frame()]);
        assert(vm@.closures =~= Seq::<ClosureModel<N>>::empty());
        vm
    }
}

} // verus!
