//! Small helpers: error constructors and the number check.
use crate::vm::model::Vm;
use crate::vm::semantics::{number_of, oob, proto_oob};
use crate::{LuaNumber, Value, VmError};
use vstd::prelude::*;

verus! {

/// A copy of `vs`.
pub(crate) fn copy_values<N: Copy>(vs: &Vec<Value<N>>) -> (r: Vec<Value<N>>)
    ensures
        r@ == vs@,
{
    let mut out: Vec<Value<N>> = Vec::new();
    let mut i: usize = 0;
    while i < vs.len()
        invariant
            i <= vs@.len(),
            out@ == vs@.take(i as int),
        decreases vs@.len() - i,
    {
        out.push(vs[i]);
        i = i + 1;
        assert(out@ =~= vs@.take(i as int));
    }
    assert(vs@.take(i as int) =~= vs@);
    out
}

impl<N: LuaNumber> Vm<N> {
    pub(crate) fn oob(index: usize, len: usize) -> (e: VmError<N>)
        ensures
            e == oob::<N>(index as int, len as int),
    {
        VmError::StackOutOfBounds { index, len }
    }

    pub(crate) fn proto_oob(index: usize, len: usize) -> (e: VmError<N>)
        ensures
            e == proto_oob::<N>(index as int, len as int),
    {
        VmError::ProtoOutOfBounds { index, len }
    }

    /// The number `v` holds, or a type error naming it.
    pub(crate) fn as_number(v: &Value<N>) -> (r: Result<N, VmError<N>>)
        ensures
            r == number_of(*v),
    {
        match v {
            Value::Number(n) => Ok(*n),
            _ => Err(VmError::TypeError { expected: "number", got: *v }),
        }
    }
}

} // verus!
