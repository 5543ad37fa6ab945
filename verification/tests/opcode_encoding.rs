use study_lua::opcode::{
    a, abc, abx, asbx, b, bx, c, call, eq, jmp, load_k, lt, move_, op, return_, sbx, tail_call, vararg,
    Opcode, BITRK, MARG_SBX,
};
use study_lua::{rk_k, rk_r, LuaNumber, Operand, VmError};

#[derive(Clone, Copy, Debug, PartialEq)]
struct Num(f64);

impl LuaNumber for Num {
    fn text_spec(&self) -> String {
        format!("{:?}", self.0)
    }

    fn mul_spec(self, other: Self) -> Self {
        Num(self.0 * other.0)
    }

    fn div_spec(self, other: Self) -> Self {
        Num(self.0 / other.0)
    }

    fn digit_spec(d: u8) -> Self {
        Num(d as f64)
    }

    fn neg_spec(self) -> Self {
        Num(-self.0)
    }

    fn num_mul(&self, other: &Self) -> Self {
        Num(self.0 * other.0)
    }

    fn num_div(&self, other: &Self) -> Self {
        Num(self.0 / other.0)
    }

    fn from_digit(d: u8) -> Self {
        Num(d as f64)
    }

    fn num_neg(&self) -> Self {
        Num(-self.0)
    }

    fn add_spec(self, other: Self) -> Self {
        Num(self.0 + other.0)
    }

    fn eq_spec(self, other: Self) -> bool {
        self.0 == other.0
    }

    fn lt_spec(self, other: Self) -> bool {
        self.0 < other.0
    }

    fn num_add(&self, other: &Self) -> Self {
        Num(self.0 + other.0)
    }

    fn num_eq(&self, other: &Self) -> bool {
        self.0 == other.0
    }

    fn num_lt(&self, other: &Self) -> bool {
        self.0 < other.0
    }

    fn to_text(&self) -> String {
        format!("{:?}", self.0)
    }
}

#[test]
fn abc_packs_fields_at_their_positions() {
    let i = abc(7, 1, 2, 3);
    assert_eq!(i, 7 + 1 * 64 + 3 * 16384 + 2 * 8388608);
    assert_eq!((op(&i), a(&i), b(&i), c(&i)), (7, 1, 2, 3));
}

#[test]
fn abc_cuts_fields_to_their_widths() {
    let i = abc(64 + 5, 256 + 9, 512 + 7, 512 + 1);
    assert_eq!((op(&i), a(&i), b(&i), c(&i)), (5, 9, 7, 1));
}

#[test]
fn abx_and_sbx_roundtrip() {
    let i = abx(0, 3, 262143);
    assert_eq!((op(&i), a(&i), bx(&i)), (0, 3, 262143));
    for s in [-131071, -10, 0, 1, 131072] {
        let j = asbx(5, 2, s);
        assert_eq!(op(&j), 5);
        assert_eq!(a(&j), 2);
        assert_eq!(sbx(&j), s);
    }
    assert_eq!(MARG_SBX, 131071);
}

#[test]
fn builders_use_the_opcode_numbers() {
    assert_eq!(op(&load_k(1, 2)), 0);
    assert_eq!(op(&move_(1, 2, 0)), 1);
    assert_eq!(op(&study_lua::opcode::add(1, 2, 3)), 2);
    assert_eq!(op(&eq(1, 2, 3)), 3);
    assert_eq!(op(&lt(1, 2, 3)), 4);
    assert_eq!(op(&jmp(0, 131071)), 5);
    assert_eq!(op(&return_(0, 1, 0)), 6);
    assert_eq!(op(&call(0, 1, 1)), 7);
    assert_eq!(op(&vararg(0, 0, 0)), 8);
    assert_eq!(op(&tail_call(0, 1, 0)), 9);
    assert_eq!(bx(&load_k(4, 300)), 300);
}

#[test]
fn decode_inverts_encode() {
    let all = [
        Opcode::LoadK,
        Opcode::Move,
        Opcode::Add,
        Opcode::Eq,
        Opcode::Lt,
        Opcode::Jmp,
        Opcode::Call,
        Opcode::Vararg,
        Opcode::TailCall,
        Opcode::Return,
        Opcode::Mul,
        Opcode::Div,
        Opcode::Test,
        Opcode::Closure,
        Opcode::GetUpval,
        Opcode::TForCall,
        Opcode::TForLoop,
    ];
    let numbers: Vec<u32> = all.iter().map(|o| o.encode()).collect();
    assert_eq!(numbers, vec![0, 1, 2, 3, 4, 5, 7, 8, 9, 6, 11, 12, 13, 14, 15, 16, 17]);
    for o in all {
        let i = abc(o.encode(), 0, 0, 0);
        assert_eq!(Opcode::decode::<Num>(&i).unwrap(), o);
    }
    match Opcode::decode::<Num>(&abc(10, 0, 0, 0)) {
        Err(VmError::UnknownOpcode(10)) => {}
        other => panic!("expected UnknownOpcode(10), got {other:?}"),
    }
    match Opcode::decode::<Num>(&abc(18, 0, 0, 0)) {
        Err(VmError::UnknownOpcode(18)) => {}
        other => panic!("expected UnknownOpcode(18), got {other:?}"),
    }
    match Opcode::decode::<Num>(&63) {
        Err(VmError::UnknownOpcode(63)) => {}
        other => panic!("expected UnknownOpcode(63), got {other:?}"),
    }
}

#[test]
fn rk_operands_roundtrip() {
    assert_eq!(rk_r(5), 5);
    assert_eq!(rk_k(5), 5 + BITRK);
    assert_eq!(rk_k(BITRK + 3), BITRK + 3);
    assert!(matches!(Operand::decode(rk_k(7)), Operand::K(7)));
    assert!(matches!(Operand::decode(rk_r(7)), Operand::R(7)));
    assert!(matches!(Operand::decode(255), Operand::R(255)));
    assert!(matches!(Operand::decode(256), Operand::K(0)));
}
