//! Error messages.
use crate::frontend::error::CompileError;
use crate::{LuaNumber, Value, VmError};
use vstd::prelude::*;
use vstd::string::StringExecFns;

verus! {

/// The character of decimal digit `d`.
pub open spec fn digit_char(d: int) -> char {
    (48 + d) as char
}

/// The decimal digits of `n`, without leading zeros.
pub open spec fn decimal(n: nat) -> Seq<char>
    decreases n,
{
    if n < 10 {
        seq![digit_char(n as int)]
    } else {
        decimal(n / 10) + seq![digit_char((n % 10) as int)]
    }
}

fn digit_str(d: usize) -> (s: &'static str)
    requires
        d < 10,
    ensures
        s@ == seq![digit_char(d as int)],
{
    proof {
        reveal_strlit("0");
        reveal_strlit("1");
        reveal_strlit("2");
        reveal_strlit("3");
        reveal_strlit("4");
        reveal_strlit("5");
        reveal_strlit("6");
        reveal_strlit("7");
        reveal_strlit("8");
        reveal_strlit("9");
    }
    let s = match d {
        0 => "0",
        1 => "1",
        2 => "2",
        3 => "3",
        4 => "4",
        5 => "5",
        6 => "6",
        7 => "7",
        8 => "8",
        _ => "9",
    };
    assert(s@ =~= seq![digit_char(d as int)]);
    s
}

/// Appends the decimal digits of `n` to `out`.
pub fn push_decimal(out: &mut String, n: usize)
    ensures
        final(out)@ == old(out)@ + decimal(n as nat),
    decreases n,
{
    if n >= 10 {
        push_decimal(out, n / 10);
    }
    out.append(digit_str(n % 10));
    assert(final(out)@ =~= old(out)@ + decimal(n as nat)) by {
        if n >= 10 {
            assert(decimal(n as nat) == decimal((n / 10) as nat) + seq![digit_char((n % 10) as int)]);
        }
    }
}

/// `"<stage> at <line>:<col>: "`.
pub open spec fn at_prefix(stage: Seq<char>, line: usize, col: usize) -> Seq<char> {
    stage + " at "@ + decimal(line as nat) + ":"@ + decimal(col as nat) + ": "@
}

/// The message of a front-end error.
pub open spec fn compile_message(e: CompileError) -> Seq<char> {
    match e {
        CompileError::Lex { line, col, msg } => at_prefix("lex error"@, line, col) + msg@,
        CompileError::Parse { line, col, expected, found } => at_prefix("parse error"@, line, col)
            + "expected "@ + expected@ + ", found "@ + found@,
        CompileError::Unsupported { line, col, feature } => at_prefix(
            "unsupported feature"@,
            line,
            col,
        ) + feature@,
        CompileError::Codegen { line, col, msg } => at_prefix("codegen error"@, line, col) + msg@,
        CompileError::Io(msg) => "io error: "@ + msg@,
    }
}

fn push_at_prefix(out: &mut String, stage: &str, line: usize, col: usize)
    ensures
        final(out)@ == old(out)@ + at_prefix(stage@, line, col),
{
    out.append(stage);
    out.append(" at ");
    push_decimal(out, line);
    out.append(":");
    push_decimal(out, col);
    out.append(": ");
    assert(final(out)@ =~= old(out)@ + at_prefix(stage@, line, col));
}

impl CompileError {
    /// The human-readable message, e.g. `lex error at 2:7: unexpected character`.
    pub fn message(&self) -> (s: String)
        ensures
            s@ == compile_message(*self),
    {
        let mut out = String::new();
        match self {
            CompileError::Lex { line, col, msg } => {
                push_at_prefix(&mut out, "lex error", *line, *col);
                out.append(msg.as_str());
            },
            CompileError::Parse { line, col, expected, found } => {
                push_at_prefix(&mut out, "parse error", *line, *col);
                out.append("expected ");
                out.append(expected.as_str());
                out.append(", found ");
                out.append(found.as_str());
            },
            CompileError::Unsupported { line, col, feature } => {
                push_at_prefix(&mut out, "unsupported feature", *line, *col);
                out.append(feature.as_str());
            },
            CompileError::Codegen { line, col, msg } => {
                push_at_prefix(&mut out, "codegen error", *line, *col);
                out.append(msg.as_str());
            },
            CompileError::Io(msg) => {
                out.append("io error: ");
                out.append(msg.as_str());
            },
        }
        assert(out@ =~= compile_message(*self));
        out
    }
}

/// How a value reads in messages; a number reads as its `text_spec`.
pub open spec fn value_text<N: LuaNumber>(v: Value<N>) -> Seq<char> {
    match v {
        Value::Number(n) => "Number("@ + n.text_spec()@ + ")"@,
        Value::LFn(p) => "LFn("@ + decimal(p as nat) + ")"@,
        Value::Closure(c) => "Closure("@ + decimal(c as nat) + ")"@,
        Value::Bool(b) => if b {
            "Bool(true)"@
        } else {
            "Bool(false)"@
        },
        Value::Nil => "Nil"@,
    }
}

/// `"<name>=<n>"`.
pub open spec fn field_text(name: Seq<char>, n: nat) -> Seq<char> {
    name + "="@ + decimal(n)
}

/// The message of a machine error.
pub open spec fn vm_message<N: LuaNumber>(e: VmError<N>) -> Seq<char> {
    match e {
        VmError::NoLuaFrame => "no lua vm: call pcall/call first"@,
        VmError::PcOutOfBounds { pc, code_len } => "pc out of bounds: "@ + field_text("pc"@, pc as nat)
            + ", "@ + field_text("code_len"@, code_len as nat),
        VmError::UnknownOpcode(op) => "unknown opcode: "@ + decimal(op as nat),
        VmError::UnsupportedCall { b, c } => "unsupported call mode: "@ + field_text("B"@, b as nat)
            + " (nargs+1), "@ + field_text("C"@, c as nat) + " (nresults+1)"@,
        VmError::NotCallable(v) => "value is not callable: "@ + value_text(v),
        VmError::ProtoOutOfBounds { index, len } => "proto out of bounds: "@ + field_text(
            "index"@,
            index as nat,
        ) + ", "@ + field_text("len"@, len as nat),
        VmError::TypeError { expected, got } => "type error: expected "@ + expected@ + ", got "@
            + value_text(got),
        VmError::StackOutOfBounds { index, len } => "index out of bounds: "@ + field_text(
            "index"@,
            index as nat,
        ) + ", "@ + field_text("len"@, len as nat),
        VmError::Panic(msg) => "panic: "@ + msg@,
        VmError::StackOverflow => "stack overflow"@,
        VmError::StepLimit => "step limit exceeded"@,
        VmError::UpvalueOutOfBounds { index, len } => "upvalue out of bounds: "@ + field_text(
            "index"@,
            index as nat,
        ) + ", "@ + field_text("len"@, len as nat),
    }
}

fn push_field(out: &mut String, name: &str, n: usize)
    ensures
        final(out)@ == old(out)@ + field_text(name@, n as nat),
{
    out.append(name);
    out.append("=");
    push_decimal(out, n);
    assert(final(out)@ =~= old(out)@ + field_text(name@, n as nat));
}

/// Appends how `v` reads.
fn push_value<N: LuaNumber>(out: &mut String, v: &Value<N>)
    ensures
        final(out)@ == old(out)@ + value_text(*v),
{
    match v {
        Value::Number(n) => {
            let t = n.to_text();
            out.append("Number(");
            out.append(t.as_str());
            out.append(")");
            assert(final(out)@ =~= old(out)@ + value_text(*v));
        },
        Value::LFn(p) => {
            out.append("LFn(");
            push_decimal(out, *p);
            out.append(")");
            assert(final(out)@ =~= old(out)@ + value_text(*v));
        },
        Value::Closure(c) => {
            out.append("Closure(");
            push_decimal(out, *c);
            out.append(")");
            assert(final(out)@ =~= old(out)@ + value_text(*v));
        },
        Value::Bool(b) => {
            if *b {
                out.append("Bool(true)");
            } else {
                out.append("Bool(false)");
            }
        },
        Value::Nil => {
            out.append("Nil");
        },
    }
}

impl<N: LuaNumber> VmError<N> {
    /// The human-readable message, e.g. `type error: expected number, got Nil`.
    /// A number in the message reads as the number type's `to_text` gives it.
    pub fn message(&self) -> (s: String)
        ensures
            s@ == vm_message(*self),
    {
        let mut out = String::new();
        match self {
            VmError::NoLuaFrame => {
                out.append("no lua vm: call pcall/call first");
            },
            VmError::PcOutOfBounds { pc, code_len } => {
                out.append("pc out of bounds: ");
                push_field(&mut out, "pc", *pc);
                out.append(", ");
                push_field(&mut out, "code_len", *code_len);
            },
            VmError::UnknownOpcode(op) => {
                out.append("unknown opcode: ");
                push_decimal(&mut out, *op as usize);
            },
            VmError::UnsupportedCall { b, c } => {
                out.append("unsupported call mode: ");
                push_field(&mut out, "B", *b as usize);
                out.append(" (nargs+1), ");
                push_field(&mut out, "C", *c as usize);
                out.append(" (nresults+1)");
            },
            VmError::NotCallable(v) => {
                out.append("value is not callable: ");
                push_value(&mut out, v);
            },
            VmError::ProtoOutOfBounds { index, len } => {
                out.append("proto out of bounds: ");
                push_field(&mut out, "index", *index);
                out.append(", ");
                push_field(&mut out, "len", *len);
            },
            VmError::TypeError { expected, got } => {
                out.append("type error: expected ");
                out.append(*expected);
                out.append(", got ");
                push_value(&mut out, got);
            },
            VmError::StackOutOfBounds { index, len } => {
                out.append("index out of bounds: ");
                push_field(&mut out, "index", *index);
                out.append(", ");
                push_field(&mut out, "len", *len);
            },
            VmError::Panic(msg) => {
                out.append("panic: ");
                out.append(msg.as_str());
            },
            VmError::StackOverflow => {
                out.append("stack overflow");
            },
            VmError::StepLimit => {
                out.append("step limit exceeded");
            },
            VmError::UpvalueOutOfBounds { index, len } => {
                out.append("upvalue out of bounds: ");
                push_field(&mut out, "index", *index);
                out.append(", ");
                push_field(&mut out, "len", *len);
            },
        }
        assert(out@ =~= vm_message(*self));
        out
    }
}

} // verus!
