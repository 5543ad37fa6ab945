use study_lua::opcode::{
    add, call, closure, div, eq, get_upval, jmp, load_k, lt, move_, mul, return_, tail_call, test_, tfor_call,
    tfor_loop, MARG_SBX,
};
use study_lua::proto::Proto;
use study_lua::vm::Vm;
use study_lua::{rk_k, rk_r, CompileError, LuaNumber, Value, VmError};

#[derive(Clone, Copy, Debug, PartialEq)]
struct Num(f64);

impl LuaNumber for Num {
    fn text_spec(&self) -> String {
        format!("{:?}", self.0)
    }

    fn mul_spec(self, other: Self) -> Self {
        Num(self.0 * other.0)
    }

    fn div_spec(self, other: Self) -> Self {
        Num(self.0 / other.0)
    }

    fn digit_spec(d: u8) -> Self {
        Num(d as f64)
    }

    fn neg_spec(self) -> Self {
        Num(-self.0)
    }

    fn num_mul(&self, other: &Self) -> Self {
        Num(self.0 * other.0)
    }

    fn num_div(&self, other: &Self) -> Self {
        Num(self.0 / other.0)
    }

    fn from_digit(d: u8) -> Self {
        Num(d as f64)
    }

    fn num_neg(&self) -> Self {
        Num(-self.0)
    }

    fn add_spec(self, other: Self) -> Self {
        Num(self.0 + other.0)
    }

    fn eq_spec(self, other: Self) -> bool {
        self.0 == other.0
    }

    fn lt_spec(self, other: Self) -> bool {
        self.0 < other.0
    }

    fn num_add(&self, other: &Self) -> Self {
        Num(self.0 + other.0)
    }

    fn num_eq(&self, other: &Self) -> bool {
        self.0 == other.0
    }

    fn num_lt(&self, other: &Self) -> bool {
        self.0 < other.0
    }

    fn to_text(&self) -> String {
        format!("{:?}", self.0)
    }
}

fn proto(code: Vec<u32>, consts: Vec<Value<Num>>, num_params: usize, max_stack: usize) -> Proto<Num> {
    Proto { code, consts, num_params, is_vararg: false, max_stack }
}

fn number(v: &Value<Num>) -> f64 {
    match v {
        Value::Number(Num(n)) => *n,
        other => panic!("expected a number, got {other:?}"),
    }
}

fn jump(offset: i32) -> u32 {
    jmp(0, (offset + MARG_SBX) as u32)
}

#[test]
fn load_pushes_function_at_effective_top() {
    let mut vm = Vm::new(vec![proto(vec![return_(0, 1, 0)], vec![], 0, 0)]);
    assert_eq!(vm.load(0).unwrap(), 0);
    assert_eq!(vm.load(0).unwrap(), 1);
    assert_eq!(vm.top, 2);
    assert!(matches!(vm.stack[1], Value::LFn(0)));
    match vm.load(3) {
        Err(VmError::ProtoOutOfBounds { index: 3, len: 1 }) => {}
        other => panic!("expected ProtoOutOfBounds, got {other:?}"),
    }
    assert_eq!(vm.top, 2);
}

#[test]
fn pcall_results_pads_and_truncates() {
    // f(): return 1
    let mut vm = Vm::new(vec![proto(vec![load_k(0, 0), return_(0, 2, 0)], vec![Value::Number(Num(1.0))], 0, 1)]);
    let func = vm.load(0).unwrap();
    let rs = vm.pcall_results(func, 0, 3).unwrap();
    assert_eq!(rs.len(), 3);
    assert_eq!(number(&rs[0]), 1.0);
    assert!(matches!(rs[1], Value::Nil));
    assert!(matches!(rs[2], Value::Nil));
    let func = vm.load(0).unwrap();
    assert!(vm.pcall_results(func, 0, 0).unwrap().is_empty());
    assert_eq!(vm.frames.len(), 1);
}

#[test]
fn pcall_returns_nil_without_results() {
    let mut vm = Vm::new(vec![proto(vec![return_(0, 1, 0)], vec![], 0, 0)]);
    let func = vm.load(0).unwrap();
    assert!(matches!(vm.pcall(func, 0, 1).unwrap(), Value::Nil));
}

#[test]
fn error_rolls_back_top_and_frames() {
    // main(): R0 = f; f(); where f adds a bool
    let f = proto(vec![add(0, rk_k(0), rk_k(1)), return_(0, 2, 0)], vec![Value::Bool(false), Value::Number(Num(1.0))], 0, 1);
    let main = proto(vec![load_k(0, 0), call(0, 1, 2), return_(0, 2, 0)], vec![Value::LFn(1)], 0, 2);
    let mut vm = Vm::new(vec![main, f]);
    let func = vm.load(0).unwrap();
    let top = vm.top;
    let err = vm.pcall(func, 0, 1).unwrap_err();
    assert!(matches!(err, VmError::TypeError { expected: "number", got: Value::Bool(false) }));
    assert_eq!(vm.top, top);
    assert_eq!(vm.frames.len(), 1);
    // Nothing live is left above the restored top.
    assert!(vm.stack[top..].iter().all(|v| matches!(v, Value::Nil)));
}

#[test]
fn slots_above_top_are_nil_after_a_run() {
    // f(a, b, c): return a + b   (called with 5 arguments, 3 of them dropped or unused)
    let f = proto(vec![add(0, rk_r(0), rk_r(1)), return_(0, 2, 0)], vec![], 3, 6);
    let main = proto(
        vec![
            load_k(0, 0),
            load_k(1, 1),
            load_k(2, 1),
            load_k(3, 1),
            load_k(4, 1),
            load_k(5, 1),
            call(0, 6, 2),
            return_(0, 2, 0),
        ],
        vec![Value::LFn(1), Value::Number(Num(2.0))],
        0,
        6,
    );
    let mut vm = Vm::new(vec![main, f]);
    let func = vm.load(0).unwrap();
    let r = vm.pcall(func, 0, 1).unwrap();
    assert_eq!(number(&r), 4.0);
    assert!(vm.stack[vm.top..].iter().all(|v| matches!(v, Value::Nil)));
}

#[test]
fn comparison_and_jump_select_the_larger_argument() {
    // max(a, b): if a < b then return b else return a
    let max = proto(
        vec![
            lt(1, rk_r(0), rk_r(1)), // if (a < b) != true then skip the jump
            jump(2),                  // a < b: go to "return b"
            return_(0, 2, 0),         // return a
            move_(0, 1, 0),           // (skipped)
            move_(0, 1, 0),           // R0 = b
            return_(0, 2, 0),
        ],
        vec![],
        2,
        2,
    );
    for (x, y, want) in [(3.0, 5.0, 5.0), (7.0, 2.0, 7.0), (4.0, 4.0, 4.0)] {
        let mut vm = Vm::new(vec![max_clone(&max)]);
        let func = vm.load(0).unwrap();
        vm.stack.push(Value::Number(Num(x)));
        vm.stack.push(Value::Number(Num(y)));
        vm.top += 2;
        let r = vm.pcall(func, 2, 1).unwrap();
        assert_eq!(number(&r), want);
    }
}

fn max_clone(p: &Proto<Num>) -> Proto<Num> {
    Proto { code: p.code.clone(), consts: p.consts.clone(), num_params: p.num_params, is_vararg: p.is_vararg, max_stack: p.max_stack }
}

#[test]
fn eq_skips_when_outcome_differs_from_a() {
    // f(x): if x == 1 then return true else return false
    let f = proto(
        vec![
            eq(1, rk_r(0), rk_k(0)), // (x == 1) != 1 => skip next
            jump(1),
            load_k(0, 2), // x != 1: false
            return_(0, 2, 0),
        ],
        vec![Value::Number(Num(1.0)), Value::Bool(true), Value::Bool(false)],
        1,
        1,
    );
    // With x == 1 the jump skips loading `false`: R0 stays x.
    let mut vm = Vm::new(vec![max_clone(&f)]);
    let func = vm.load(0).unwrap();
    vm.stack.push(Value::Number(Num(1.0)));
    vm.top += 1;
    assert_eq!(number(&vm.pcall(func, 1, 1).unwrap()), 1.0);
    let mut vm = Vm::new(vec![f]);
    let func = vm.load(0).unwrap();
    vm.stack.push(Value::Number(Num(2.0)));
    vm.top += 1;
    assert!(matches!(vm.pcall(func, 1, 1).unwrap(), Value::Bool(false)));
}

#[test]
fn tail_call_loop_returns_through_one_frame() {
    // count(n): if n < 10000 then return count(n + 1) else return n
    let count = proto(
        vec![
            lt(1, rk_r(0), rk_k(0)), // n < limit ?
            jump(1),
            return_(0, 2, 0), // n >= limit: return n
            load_k(1, 1),     // R1 = count
            add(2, rk_r(0), rk_k(2)),
            tail_call(1, 2, 0),
            return_(0, 1, 0),
        ],
        vec![Value::Number(Num(10000.0)), Value::LFn(0), Value::Number(Num(1.0))],
        1,
        3,
    );
    let mut vm = Vm::new(vec![count]);
    let func = vm.load(0).unwrap();
    vm.stack.push(Value::Number(Num(0.0)));
    vm.top += 1;
    let r = vm.pcall(func, 1, 1).unwrap();
    assert_eq!(number(&r), 10000.0);
    assert_eq!(vm.frames.len(), 1);
    assert_eq!(vm.top, func + 1);
}

#[test]
fn calls_report_each_error_variant() {
    // pc beyond the code
    let mut vm = Vm::new(vec![proto(vec![], vec![], 0, 0)]);
    let func = vm.load(0).unwrap();
    assert!(matches!(vm.pcall(func, 0, 1), Err(VmError::PcOutOfBounds { pc: 0, code_len: 0 })));

    // no Lua frame
    let mut vm: Vm<Num> = Vm::new(vec![]);
    assert!(matches!(vm.run(), Err(VmError::NoLuaFrame)));

    // function slot at or above the top
    let mut vm = Vm::new(vec![proto(vec![return_(0, 1, 0)], vec![], 0, 0)]);
    assert!(matches!(vm.pcall(0, 0, 1), Err(VmError::StackOutOfBounds { index: 0, len: 0 })));

    // register beyond the window
    let mut vm = Vm::new(vec![proto(vec![load_k(3, 0), return_(0, 1, 0)], vec![Value::Nil], 0, 2)]);
    let func = vm.load(0).unwrap();
    assert!(matches!(vm.pcall(func, 0, 1), Err(VmError::StackOutOfBounds { index: 4, len: 3 })));

    // constant index beyond the constants
    let mut vm = Vm::new(vec![proto(vec![load_k(0, 7), return_(0, 1, 0)], vec![Value::Nil], 0, 1)]);
    let func = vm.load(0).unwrap();
    assert!(matches!(vm.pcall(func, 0, 1), Err(VmError::StackOutOfBounds { index: 7, len: 1 })));

    // calling an unknown prototype
    let mut vm = Vm::new(vec![proto(vec![load_k(0, 0), call(0, 1, 1), return_(0, 1, 0)], vec![Value::LFn(9)], 0, 1)]);
    let func = vm.load(0).unwrap();
    assert!(matches!(vm.pcall(func, 0, 1), Err(VmError::ProtoOutOfBounds { index: 9, len: 1 })));

    // a window larger than any stack can be
    let mut vm = Vm::new(vec![proto(vec![return_(0, 1, 0)], vec![], 0, usize::MAX)]);
    let func = vm.load(0).unwrap();
    assert!(matches!(vm.pcall(func, 0, 1), Err(VmError::StackOverflow)));

    // an argument count the stack cannot hold
    let mut vm = Vm::new(vec![proto(vec![return_(0, 1, 0)], vec![], 0, 0)]);
    let func = vm.load(0).unwrap();
    assert!(matches!(vm.pcall(func, usize::MAX, 1), Err(VmError::StackOverflow)));
    assert_eq!(vm.top, 1);
}

#[test]
fn large_register_windows_are_granted() {
    let mut vm = Vm::new(vec![proto(vec![load_k(0, 0), return_(0, 2, 0)], vec![Value::Number(Num(5.0))], 0, 2_000_000)]);
    let func = vm.load(0).unwrap();
    assert!(matches!(vm.pcall(func, 0, 1), Ok(Value::Number(Num(n))) if n == 5.0));
    assert!(vm.stack.len() >= 2_000_001);
}

#[test]
fn call_sets_up_a_frame_without_running() {
    let mut vm = Vm::new(vec![proto(vec![load_k(0, 0), return_(0, 2, 0)], vec![Value::Number(Num(5.0))], 0, 1)]);
    let func = vm.load(0).unwrap();
    vm.call(func, 0, 1).unwrap();
    assert_eq!(vm.frames.len(), 2);
    assert_eq!(vm.frames[1].base, func + 1);
    assert_eq!(number(&vm.run().unwrap()), 5.0);
    assert_eq!(vm.frames.len(), 1);
}

#[test]
fn error_messages() {
    let e: VmError<Num> = VmError::TypeError { expected: "number", got: Value::Nil };
    assert_eq!(e.message(), "type error: expected number, got Nil");
    let e: VmError<Num> = VmError::NotCallable(Value::Number(Num(1.5)));
    assert_eq!(e.message(), "value is not callable: Number(1.5)");
    let e: VmError<Num> = VmError::PcOutOfBounds { pc: 12, code_len: 3 };
    assert_eq!(e.message(), "pc out of bounds: pc=12, code_len=3");
    let e: VmError<Num> = VmError::StackOutOfBounds { index: 1000, len: 7 };
    assert_eq!(e.message(), "index out of bounds: index=1000, len=7");
    let e: VmError<Num> = VmError::UnknownOpcode(10);
    assert_eq!(e.message(), "unknown opcode: 10");
    let e: VmError<Num> = VmError::NoLuaFrame;
    assert_eq!(e.message(), "no lua vm: call pcall/call first");
    let e: VmError<Num> = VmError::ProtoOutOfBounds { index: 2, len: 1 };
    assert_eq!(e.message(), "proto out of bounds: index=2, len=1");
    let e: VmError<Num> = VmError::NotCallable(Value::LFn(40));
    assert_eq!(e.message(), "value is not callable: LFn(40)");
    let e = CompileError::Lex { line: 3, col: 14, msg: "unexpected character".to_string() };
    assert_eq!(e.message(), "lex error at 3:14: unexpected character");
    let e = CompileError::Parse { line: 1, col: 2, expected: ")".to_string(), found: "eof".to_string() };
    assert_eq!(e.message(), "parse error at 1:2: expected ), found eof");
    let e = CompileError::Unsupported { line: 10, col: 1, feature: "global function definition".to_string() };
    assert_eq!(e.message(), "unsupported feature at 10:1: global function definition");
    let e = CompileError::Io("missing".to_string());
    assert_eq!(e.message(), "io error: missing");
}

#[test]
fn mul_div_and_test_opcodes() {
    // R0 = 6 * 7 / 2 = 21; TEST skips the false branch on a number
    let k = vec![Value::Number(Num(6.0)), Value::Number(Num(7.0)), Value::Number(Num(2.0)), Value::Number(Num(0.0))];
    let code = vec![
        mul(0, rk_k(0), rk_k(1)),
        div(0, rk_r(0), rk_k(2)),
        test_(0, 0, 0),
        load_k(0, 3),
        return_(0, 2, 0),
    ];
    let mut vm = Vm::new(vec![proto(code, k, 0, 1)]);
    let f = vm.load(0).unwrap();
    assert_eq!(number(&vm.pcall(f, 0, 1).unwrap()), 21.0);

    // TEST on nil does not skip: the next instruction runs
    let code = vec![load_k(0, 0), test_(0, 0, 0), load_k(0, 1), return_(0, 2, 0)];
    let mut vm = Vm::new(vec![proto(code, vec![Value::Nil, Value::Number(Num(5.0))], 0, 1)]);
    let f = vm.load(0).unwrap();
    assert_eq!(number(&vm.pcall(f, 0, 1).unwrap()), 5.0);
}

#[test]
fn closure_captures_register_values() {
    // main: R1 = 8; R0 = closure(proto 1) capturing R1; R1 = 100; call R0
    let main = proto(
        vec![
            load_k(1, 0),
            closure(0, 1, 1),
            load_k(1, 1),
            call(0, 1, 2),
            return_(0, 2, 0),
        ],
        vec![Value::Number(Num(8.0)), Value::Number(Num(100.0))],
        0,
        2,
    );
    // inner: return upvalue 0
    let inner = proto(vec![get_upval(0, 0, 0), return_(0, 2, 0)], vec![], 0, 1);
    let mut vm = Vm::new(vec![main, inner]);
    let f = vm.load(0).unwrap();
    assert_eq!(number(&vm.pcall(f, 0, 1).unwrap()), 8.0);
    assert_eq!(vm.closures.len(), 1);
}

#[test]
fn getupval_beyond_the_upvalues_is_an_error() {
    let mut vm = Vm::new(vec![proto(vec![get_upval(0, 3, 0), return_(0, 2, 0)], vec![], 0, 1)]);
    let f = vm.load(0).unwrap();
    assert!(matches!(vm.pcall(f, 0, 1), Err(VmError::UpvalueOutOfBounds { index: 3, len: 0 })));
}

#[test]
fn add_and_eq_give_the_number_types_answers() {
    let k = vec![Value::Number(Num(1.5)), Value::Number(Num(2.25)), Value::Number(Num(1.0)), Value::Number(Num(2.0))];
    let code = vec![add(0, rk_k(0), rk_k(1)), return_(0, 2, 0)];
    let mut vm = Vm::new(vec![proto(code, k.clone(), 0, 1)]);
    let f = vm.load(0).unwrap();
    assert_eq!(number(&vm.pcall(f, 0, 1).unwrap()), 3.75);
    // EQ A=1 with unequal operands skips the next instruction
    let code = vec![load_k(0, 2), eq(1, rk_k(2), rk_k(3)), load_k(0, 3), return_(0, 2, 0)];
    let mut vm = Vm::new(vec![proto(code, k, 0, 1)]);
    let f = vm.load(0).unwrap();
    assert_eq!(number(&vm.pcall(f, 0, 1).unwrap()), 1.0);
}

#[test]
fn generic_for_sums_what_the_generator_yields() {
    // R0 = sum; for v in gen, nil, 0 do sum = sum + v end (loop state in R1..R3,
    // v in R4); gen yields 1, 2, 3, then nil
    let main = proto(
        vec![
            load_k(1, 0),
            load_k(2, 1),
            load_k(3, 2),
            load_k(0, 2),
            jump(1),
            add(0, rk_r(0), rk_r(4)),
            tfor_call(1, 0, 1),
            tfor_loop(1, (MARG_SBX - 3) as u32),
            return_(0, 2, 0),
        ],
        vec![Value::LFn(1), Value::Nil, Value::Number(Num(0.0))],
        0,
        5,
    );
    let gen = Proto {
        code: vec![
            lt(1, rk_r(1), rk_k(0)),
            jump(2),
            load_k(0, 1),
            return_(0, 2, 0),
            add(0, rk_r(1), rk_k(2)),
            return_(0, 2, 0),
        ],
        consts: vec![Value::Number(Num(3.0)), Value::Nil, Value::Number(Num(1.0))],
        num_params: 2,
        is_vararg: false,
        max_stack: 2,
    };
    let mut vm = Vm::new(vec![main, gen]);
    let f = vm.load(0).unwrap();
    assert_eq!(number(&vm.pcall(f, 0, 1).unwrap()), 6.0);
}

#[test]
fn messages_show_numbers_as_the_number_type_writes_them() {
    let e: VmError<Num> = VmError::TypeError { expected: "number", got: Value::Number(Num(1.5)) };
    assert_eq!(e.message(), "type error: expected number, got Number(1.5)");
    let e: VmError<Num> = VmError::NotCallable(Value::Closure(3));
    assert_eq!(e.message(), "value is not callable: Closure(3)");
    let e: VmError<Num> = VmError::UpvalueOutOfBounds { index: 2, len: 1 };
    assert_eq!(e.message(), "upvalue out of bounds: index=2, len=1");
}

#[test]
fn pcall_and_pcall_results_leave_the_same_state_on_error() {
    // the callee writes a register, then fails on a type error
    let callee = proto(
        vec![load_k(0, 0), load_k(1, 1), add(2, rk_r(0), rk_r(1)), return_(2, 2, 0)],
        vec![Value::Number(Num(1.0)), Value::Nil],
        0,
        3,
    );
    let make = || {
        let mut vm = Vm::new(vec![proto(vec![return_(0, 1, 0)], vec![], 0, 0), max_clone(&callee)]);
        vm.load(0).unwrap();
        let f = vm.load(1).unwrap();
        (vm, f)
    };
    let (mut v1, f1) = make();
    let (mut v2, f2) = make();
    let r1 = v1.pcall(f1, 0, 1);
    let r2 = v2.pcall_results(f2, 0, 1);
    assert!(matches!(r1, Err(VmError::TypeError { .. })));
    assert!(matches!(r2, Err(VmError::TypeError { .. })));
    assert_eq!(v1.top, v2.top);
    assert_eq!(v1.frames.len(), v2.frames.len());
    assert_eq!(format!("{:?}", v1.stack), format!("{:?}", v2.stack));

    let (mut v3, _) = make();
    let (mut v4, _) = make();
    v3.call(1, 0, 1).unwrap();
    v4.call(1, 0, 1).unwrap();
    assert!(v3.run().is_err());
    assert!(v4.run_results().is_err());
    assert_eq!(v3.top, v4.top);
    assert_eq!(v3.frames.len(), v4.frames.len());
    assert_eq!(format!("{:?}", v3.stack), format!("{:?}", v4.stack));
}
