//! What source text means: numerals, the grammar of expressions and of
//! blocks that return, their values, and what compiled code does to the
//! machine.
//!
//! A numeral denotes the number type's value of its digits read as one
//! integer, divided by ten to the number of fraction digits.  An expression
//! over numerals, locals, `+ - * /`, unary minus and parentheses denotes its
//! value under the number type's arithmetic, with `a - b` read as
//! `a + b * (-1)` and `-a` as `a * (-1)`; `a < b` and `a == b` denote the
//! number type's comparison.  A block of local definitions ending in
//! `return` or in an `if`/`else` whose branches are such blocks denotes the
//! value it returns; in a condition only `nil` and `false` are false.
//!
//! On the machine side, `seg` and `cseg` say that a stretch of code leaves a
//! value in a register, `pseg` that it sets locals, and `rblock` that it
//! returns a value.
use crate::frontend::lexer::TokenModel;
use crate::frontend::token::TokenTag;
use crate::opcode::{a_of, abc_of, abx_of, b_of, bx_of, c_of, lemma_abc_fields, lemma_abx_fields, op_of, opcode_from_number, Opcode};
use crate::proto::Proto;
use crate::vm::model::{ResultsSpec, Vm, VmModel};
use crate::vm::semantics::{
    test_step, bump_pc, call_spec, current, fetch_spec, has_lua_frame, lemma_runs_continue, operands, rget_spec,
    rk_spec, rset_spec, run_spec, step_spec, truthy, Step, MAX_STEPS,
};
use crate::{LuaNumber, Value, VmError};
use vstd::prelude::*;

verus! {

/// The digit a character stands for (`0` for a character that is no digit).
pub open spec fn digit_of(c: char) -> u8 {
    if 48 <= (c as u32) <= 57 {
        ((c as u32) - 48) as u8
    } else {
        0
    }
}

/// Ten, as the number type builds it.
pub open spec fn ten<N: LuaNumber>() -> N {
    N::digit_spec(9).add_spec(N::digit_spec(1))
}

/// Minus one, as the number type builds it.
pub open spec fn minus_one<N: LuaNumber>() -> N {
    N::digit_spec(1).neg_spec()
}

/// The digits of `cs` (skipping `.`) read as one decimal integer.
pub open spec fn digits_value<N: LuaNumber>(cs: Seq<char>) -> N
    decreases cs.len(),
{
    if cs.len() == 0 {
        N::digit_spec(0)
    } else if cs.last() == '.' {
        digits_value::<N>(cs.drop_last())
    } else {
        digits_value::<N>(cs.drop_last()).mul_spec(ten::<N>()).add_spec(N::digit_spec(digit_of(cs.last())))
    }
}

/// Whether `cs` holds a `.`.
pub open spec fn has_dot(cs: Seq<char>) -> bool
    decreases cs.len(),
{
    if cs.len() == 0 {
        false
    } else {
        cs.last() == '.' || has_dot(cs.drop_last())
    }
}

/// How many characters follow the `.` of `cs` (0 when there is none).
pub open spec fn fraction_len(cs: Seq<char>) -> nat
    decreases cs.len(),
{
    if cs.len() == 0 {
        0
    } else if cs.last() == '.' {
        0
    } else if has_dot(cs.drop_last()) {
        fraction_len(cs.drop_last()) + 1
    } else {
        0
    }
}

/// Ten to the power `k`.
pub open spec fn pow10<N: LuaNumber>(k: nat) -> N
    decreases k,
{
    if k == 0 {
        N::digit_spec(1)
    } else {
        pow10::<N>((k - 1) as nat).mul_spec(ten::<N>())
    }
}

/// The number a numeral's text denotes.
pub open spec fn numeral_value<N: LuaNumber>(cs: Seq<char>) -> N {
    if fraction_len(cs) == 0 {
        digits_value::<N>(cs)
    } else {
        digits_value::<N>(cs).div_spec(pow10::<N>(fraction_len(cs)))
    }
}

/// A binary arithmetic operator.
pub enum AOp {
    Add,
    Sub,
    Mul,
    Div,
}

/// An arithmetic expression.
pub enum AExpr {
    Num(Seq<char>),
    /// The local in register `i`.
    Local(int),
    Neg(Box<AExpr>),
    Bin(AOp, Box<AExpr>, Box<AExpr>),
}

/// The value of an expression when local `i` holds `env[i]`.
pub open spec fn eval<N: LuaNumber>(e: AExpr, env: Seq<N>) -> N
    decreases e,
{
    match e {
        AExpr::Num(t) => numeral_value::<N>(t),
        AExpr::Local(i) => env[i],
        AExpr::Neg(x) => eval::<N>(*x, env).mul_spec(minus_one::<N>()),
        AExpr::Bin(op, x, y) => {
            let a = eval::<N>(*x, env);
            let b = eval::<N>(*y, env);
            match op {
                AOp::Add => a.add_spec(b),
                AOp::Sub => a.add_spec(b.mul_spec(minus_one::<N>())),
                AOp::Mul => a.mul_spec(b),
                AOp::Div => a.div_spec(b),
            }
        },
    }
}

/// The class of token `i` (`Eof` past the end).
pub open spec fn tg(ts: Seq<TokenModel>, i: int) -> TokenTag {
    if 0 <= i < ts.len() {
        ts[i].tag
    } else {
        TokenTag::Eof
    }
}

/// `Number | Name | '(' expr ')'`, where a name is one of the locals
/// `names` (the innermost of that name).
pub open spec fn p_primary(ts: Seq<TokenModel>, pos: int, names: Seq<Seq<char>>) -> Option<(AExpr, int)>
    decreases ts.len() - pos, 0int,
{
    if pos < 0 || pos >= ts.len() {
        None
    } else if ts[pos].tag == TokenTag::Number {
        Some((AExpr::Num(ts[pos].text), pos + 1))
    } else if ts[pos].tag == TokenTag::Identifier {
        match lookup(names, ts[pos].text) {
            Some(i) => Some((AExpr::Local(i), pos + 1)),
            None => None,
        }
    } else if ts[pos].tag == TokenTag::LParen {
        match p_expr(ts, pos + 1, names) {
            Some((e, q)) => if tg(ts, q) == TokenTag::RParen && pos < q < ts.len() {
                Some((e, q + 1))
            } else {
                None
            },
            None => None,
        }
    } else {
        None
    }
}

/// A primary expression that no call follows.
pub open spec fn p_suffixed(ts: Seq<TokenModel>, pos: int, names: Seq<Seq<char>>) -> Option<(AExpr, int)>
    decreases ts.len() - pos, 1int,
{
    match p_primary(ts, pos, names) {
        Some((e, q)) => if tg(ts, q) == TokenTag::LParen {
            None
        } else {
            Some((e, q))
        },
        None => None,
    }
}

/// `'-' unary | suffixed`
pub open spec fn p_unary(ts: Seq<TokenModel>, pos: int, names: Seq<Seq<char>>) -> Option<(AExpr, int)>
    decreases ts.len() - pos, 2int,
{
    if 0 <= pos < ts.len() && ts[pos].tag == TokenTag::Minus {
        match p_unary(ts, pos + 1, names) {
            Some((e, q)) => Some((AExpr::Neg(Box::new(e)), q)),
            None => None,
        }
    } else {
        p_suffixed(ts, pos, names)
    }
}

/// The `{ ('*' | '/') unary }` tail of a term whose left part is `lhs`,
/// from position `q`.
pub open spec fn p_term_rest(ts: Seq<TokenModel>, lhs: AExpr, q: int, names: Seq<Seq<char>>) -> Option<(AExpr, int)>
    decreases ts.len() - q, 3int,
{
    if 0 <= q < ts.len() && (ts[q].tag == TokenTag::Star || ts[q].tag == TokenTag::Slash) {
        let op = if ts[q].tag == TokenTag::Star {
            AOp::Mul
        } else {
            AOp::Div
        };
        match p_unary(ts, q + 1, names) {
            Some((r, q2)) => if q < q2 <= ts.len() {
                p_term_rest(ts, AExpr::Bin(op, Box::new(lhs), Box::new(r)), q2, names)
            } else {
                None
            },
            None => None,
        }
    } else {
        Some((lhs, q))
    }
}

/// `unary { ('*' | '/') unary }`, left-associative.
pub open spec fn p_term(ts: Seq<TokenModel>, pos: int, names: Seq<Seq<char>>) -> Option<(AExpr, int)>
    decreases ts.len() - pos, 4int,
{
    match p_unary(ts, pos, names) {
        Some((e, q)) => if pos < q <= ts.len() {
            p_term_rest(ts, e, q, names)
        } else {
            None
        },
        None => None,
    }
}

/// The `{ ('+' | '-') term }` tail of a sum whose left part is `lhs`.
pub open spec fn p_sum_rest(ts: Seq<TokenModel>, lhs: AExpr, q: int, names: Seq<Seq<char>>) -> Option<(AExpr, int)>
    decreases ts.len() - q, 5int,
{
    if 0 <= q < ts.len() && (ts[q].tag == TokenTag::Plus || ts[q].tag == TokenTag::Minus) {
        let op = if ts[q].tag == TokenTag::Plus {
            AOp::Add
        } else {
            AOp::Sub
        };
        match p_term(ts, q + 1, names) {
            Some((r, q2)) => if q < q2 <= ts.len() {
                p_sum_rest(ts, AExpr::Bin(op, Box::new(lhs), Box::new(r)), q2, names)
            } else {
                None
            },
            None => None,
        }
    } else {
        Some((lhs, q))
    }
}

/// `term { ('+' | '-') term }`, left-associative.
pub open spec fn p_sum(ts: Seq<TokenModel>, pos: int, names: Seq<Seq<char>>) -> Option<(AExpr, int)>
    decreases ts.len() - pos, 6int,
{
    match p_term(ts, pos, names) {
        Some((e, q)) => if pos < q <= ts.len() {
            p_sum_rest(ts, e, q, names)
        } else {
            None
        },
        None => None,
    }
}

/// An arithmetic expression: a sum that no comparison follows.
pub open spec fn p_expr(ts: Seq<TokenModel>, pos: int, names: Seq<Seq<char>>) -> Option<(AExpr, int)>
    decreases ts.len() - pos, 7int,
{
    match p_sum(ts, pos, names) {
        Some((e, q)) => if tg(ts, q) == TokenTag::Less || tg(ts, q) == TokenTag::EqEq {
            None
        } else {
            Some((e, q))
        },
        None => None,
    }
}

/// The index of the innermost (last) of `names` equal to `n`.
pub open spec fn lookup(names: Seq<Seq<char>>, n: Seq<char>) -> Option<int>
    decreases names.len(),
{
    if names.len() == 0 {
        None
    } else if names.last() == n {
        Some(names.len() - 1)
    } else {
        lookup(names.drop_last(), n)
    }
}

/// The condition of an `if` or a returned expression: a literal, an
/// arithmetic expression, or a comparison of two.
pub enum CExpr {
    Nil,
    True,
    False,
    Arith(AExpr),
    Lt(AExpr, AExpr),
    Eq(AExpr, AExpr),
}

/// The value of a condition.
pub open spec fn cond_value<N: LuaNumber>(c: CExpr, env: Seq<N>) -> Value<N> {
    match c {
        CExpr::Nil => Value::Nil,
        CExpr::True => Value::Bool(true),
        CExpr::False => Value::Bool(false),
        CExpr::Arith(e) => Value::Number(eval::<N>(e, env)),
        CExpr::Lt(x, y) => Value::Bool(eval::<N>(x, env).lt_spec(eval::<N>(y, env))),
        CExpr::Eq(x, y) => Value::Bool(eval::<N>(x, env).eq_spec(eval::<N>(y, env))),
    }
}

/// `sum [ ('<' | '==') sum ]`: an arithmetic expression or one comparison.
pub open spec fn p_relation(ts: Seq<TokenModel>, pos: int, names: Seq<Seq<char>>) -> Option<(CExpr, int)> {
    match p_sum(ts, pos, names) {
        Some((x, q)) => if tg(ts, q) == TokenTag::Less || tg(ts, q) == TokenTag::EqEq {
            match p_sum(ts, q + 1, names) {
                Some((y, q2)) => if tg(ts, q) == TokenTag::Less {
                    Some((CExpr::Lt(x, y), q2))
                } else {
                    Some((CExpr::Eq(x, y), q2))
                },
                None => None,
            }
        } else {
            Some((CExpr::Arith(x), q))
        },
        None => None,
    }
}

/// `nil`, `true` or `false` right before `then`, or an arithmetic
/// expression or comparison.
pub open spec fn p_cond(ts: Seq<TokenModel>, pos: int, names: Seq<Seq<char>>) -> Option<(CExpr, int)> {
    if tg(ts, pos + 1) == TokenTag::Then && tg(ts, pos) == TokenTag::Nil {
        Some((CExpr::Nil, pos + 1))
    } else if tg(ts, pos + 1) == TokenTag::Then && tg(ts, pos) == TokenTag::True {
        Some((CExpr::True, pos + 1))
    } else if tg(ts, pos + 1) == TokenTag::Then && tg(ts, pos) == TokenTag::False {
        Some((CExpr::False, pos + 1))
    } else {
        p_relation(ts, pos, names)
    }
}

/// A block that ends by returning a value.
pub enum SBlock {
    /// `return e`
    Ret(CExpr),
    /// `local x = e`, then the rest.
    Local(AExpr, Box<SBlock>),
    /// `if c then b1 else b2 end`
    If(CExpr, Box<SBlock>, Box<SBlock>),
}

/// Whether the token at `q` may end a block.
pub open spec fn block_end(ts: Seq<TokenModel>, q: int) -> bool {
    0 <= q < ts.len() && (ts[q].tag == TokenTag::End || ts[q].tag == TokenTag::Else || ts[q].tag
        == TokenTag::Eof)
}

/// A block from `pos` that always returns one arithmetic value, with the
/// locals `names` in scope:
///
/// ```text
/// rblock := 'local' Name '=' expr rblock
///         | 'return' relation
///         | 'if' cond 'then' rblock 'else' rblock 'end'
/// relation   := expr [ ('<' | '==') expr ]
/// cond   := 'nil' | 'true' | 'false' | relation
/// ```
///
/// The block must be followed by `end`, `else` or the end of the tokens;
/// gives the position of that token.
pub open spec fn p_block(ts: Seq<TokenModel>, pos: int, names: Seq<Seq<char>>) -> Option<(SBlock, int)>
    decreases ts.len() - pos,
{
    if 0 <= pos && pos + 2 < ts.len() && ts[pos].tag == TokenTag::Local && ts[pos + 1].tag
        == TokenTag::Identifier && ts[pos + 2].tag == TokenTag::Assign {
        match p_expr(ts, pos + 3, names) {
            Some((e, q)) => if pos + 3 < q <= ts.len() {
                match p_block(ts, q, names.push(ts[pos + 1].text)) {
                    Some((rest, q2)) => Some((SBlock::Local(e, Box::new(rest)), q2)),
                    None => None,
                }
            } else {
                None
            },
            None => None,
        }
    } else if 0 <= pos < ts.len() && ts[pos].tag == TokenTag::Return {
        match p_relation(ts, pos + 1, names) {
            Some((e, q)) => if block_end(ts, q) {
                Some((SBlock::Ret(e), q))
            } else {
                None
            },
            None => None,
        }
    } else if 0 <= pos < ts.len() && ts[pos].tag == TokenTag::If {
        match p_cond(ts, pos + 1, names) {
            Some((c, q1)) => if pos + 1 < q1 < ts.len() && ts[q1].tag == TokenTag::Then {
                match p_block(ts, q1 + 1, names) {
                    Some((b1, q2)) => if q1 + 1 < q2 < ts.len() && ts[q2].tag == TokenTag::Else {
                        match p_block(ts, q2 + 1, names) {
                            Some((b2, q3)) => if q2 + 1 < q3 < ts.len() && ts[q3].tag == TokenTag::End
                                && block_end(ts, q3 + 1) {
                                Some((SBlock::If(c, Box::new(b1), Box::new(b2)), q3 + 1))
                            } else {
                                None
                            },
                            None => None,
                        }
                    } else {
                        None
                    },
                    None => None,
                }
            } else {
                None
            },
            None => None,
        }
    } else {
        None
    }
}

/// Such a block ends at `end`, `else` or the end of the tokens.
pub proof fn lemma_block_end(ts: Seq<TokenModel>, pos: int, names: Seq<Seq<char>>)
    requires
        p_block(ts, pos, names) is Some,
    ensures
        block_end(ts, p_block(ts, pos, names)->Some_0.1),
    decreases ts.len() - pos,
{
    if 0 <= pos && pos + 2 < ts.len() && ts[pos].tag == TokenTag::Local && ts[pos + 1].tag
        == TokenTag::Identifier && ts[pos + 2].tag == TokenTag::Assign {
        let (e, q) = p_expr(ts, pos + 3, names)->Some_0;
        lemma_block_end(ts, q, names.push(ts[pos + 1].text));
    }
}

/// The value a block returns when its locals start as `env`: only `nil`
/// and `false` count as false in a condition.
pub open spec fn block_value<N: LuaNumber>(b: SBlock, env: Seq<N>) -> Value<N>
    decreases b,
{
    match b {
        SBlock::Ret(e) => cond_value::<N>(e, env),
        SBlock::Local(e, rest) => block_value::<N>(*rest, env.push(eval::<N>(e, env))),
        SBlock::If(c, b1, b2) => if truthy(cond_value::<N>(c, env)) {
            block_value::<N>(*b1, env)
        } else {
            block_value::<N>(*b2, env)
        },
    }
}

/// A chunk that is such a block: the value it returns.
pub open spec fn chunk_value<N: LuaNumber>(ts: Seq<TokenModel>) -> Option<Value<N>> {
    match p_block(ts, 0, Seq::empty()) {
        Some((b, q)) => if ts[q].tag == TokenTag::Eof {
            Some(block_value::<N>(b, Seq::empty()))
        } else {
            None
        },
        None => None,
    }
}

/// A sum starts with a numeral, a name, `(` or `-`.
pub proof fn lemma_expr_starts(ts: Seq<TokenModel>, p: int, names: Seq<Seq<char>>)
    requires
        p_sum(ts, p, names) is Some,
    ensures
        0 <= p < ts.len(),
        ts[p].tag == TokenTag::Number || ts[p].tag == TokenTag::LParen || ts[p].tag == TokenTag::Minus
            || ts[p].tag == TokenTag::Identifier,
{
    assert(p_term(ts, p, names) is Some);
    assert(p_unary(ts, p, names) is Some);
    if !(0 <= p < ts.len() && ts[p].tag == TokenTag::Minus) {
        assert(p_suffixed(ts, p, names) is Some);
        assert(p_primary(ts, p, names) is Some);
    }
}

/// Running `n` steps from `m`, each going on in the same run.
pub open spec fn steps<N: LuaNumber>(m: crate::vm::model::VmModel<N>, protos: Seq<Proto<N>>, n: nat) -> Option<
    crate::vm::model::VmModel<N>,
>
    decreases n,
{
    if n == 0 {
        Some(m)
    } else {
        match step_spec(m, protos) {
            Ok(Step::Continue(m2)) => steps(m2, protos, (n - 1) as nat),
            _ => None,
        }
    }
}

/// The machine runs a frame at instruction `pc` of a prototype whose code
/// agrees with `code` from `pc` on and whose constants begin with `consts`, with a
/// register window of at least `nregs` registers inside the stack.
pub open spec fn ctx<N>(
    m: crate::vm::model::VmModel<N>,
    protos: Seq<Proto<N>>,
    code: Seq<u32>,
    consts: Seq<Value<N>>,
    pc: int,
    nregs: int,
) -> bool {
    &&& has_lua_frame(m)
    &&& current(m).pc == pc
    &&& 0 <= pc
    &&& (current(m).proto_id->0 as int) < protos.len()
    &&& code.len() <= protos[current(m).proto_id->0 as int].code@.len()
    &&& forall|j: int| pc <= j < code.len() ==> #[trigger] protos[current(m).proto_id->0 as int].code@[j] == code[j]
    &&& consts.len() <= protos[current(m).proto_id->0 as int].consts@.len()
    &&& forall|j: int| 0 <= j < consts.len() ==> #[trigger] protos[current(m).proto_id->0 as int].consts@[j] == consts[j]
    &&& 0 <= current(m).base
    &&& current(m).base + nregs <= current(m).top <= m.stack.len()
}

/// `m2` is `m` run on to instruction `pc` with register `reg` holding `v`
/// and the registers below `reg` as they were.
pub open spec fn after_seg<N>(
    m: crate::vm::model::VmModel<N>,
    m2: crate::vm::model::VmModel<N>,
    pc: int,
    reg: int,
    v: Value<N>,
) -> bool {
    &&& m2.frames == bump_pc(m, pc - current(m).pc).frames
    &&& m2.stack.len() == m.stack.len()
    &&& m2.closures == m.closures
    &&& m2.stack[current(m).base + reg] == v
    &&& forall|j: int| 0 <= j < reg ==> #[trigger] m2.stack[current(m).base + j] == m.stack[current(m).base + j]
}

/// Registers `0 .. env.len()` of the running frame hold the numbers `env`.
pub open spec fn holds<N>(m: crate::vm::model::VmModel<N>, env: Seq<N>) -> bool {
    forall|j: int| 0 <= j < env.len() ==> #[trigger] m.stack[current(m).base + j] == Value::Number(env[j])
}

/// Instructions `lo .. hi` of `code` leave `v` in register `reg`: from any
/// machine at `lo` of such a prototype whose locals hold `env`, they run as
/// `hi - lo` steps to `hi`, with `v` in `reg` and the registers below it
/// unchanged.
pub open spec fn seg<N: LuaNumber>(
    code: Seq<u32>,
    consts: Seq<Value<N>>,
    lo: int,
    hi: int,
    reg: int,
    nregs: int,
    env: Seq<N>,
    v: Value<N>,
) -> bool {
    &&& 0 <= lo <= hi <= code.len()
    &&& env.len() <= reg < nregs
    &&& forall|m: crate::vm::model::VmModel<N>, protos: Seq<Proto<N>>|
        #[trigger] ctx(m, protos, code, consts, lo, nregs) && holds(m, env) ==> (steps(
            m,
            protos,
            (hi - lo) as nat,
        ) matches Some(m2) && after_seg(m, m2, hi, reg, v))
}

/// Instructions `lo .. hi` of `code` take locals holding `env0` to locals
/// holding `env1`: they run as `hi - lo` steps to `hi` in the same frame.
pub open spec fn pseg<N: LuaNumber>(
    code: Seq<u32>,
    consts: Seq<Value<N>>,
    lo: int,
    hi: int,
    nregs: int,
    env0: Seq<N>,
    env1: Seq<N>,
) -> bool {
    &&& 0 <= lo <= hi <= code.len()
    &&& env0.len() <= nregs
    &&& env1.len() <= nregs
    &&& forall|m: crate::vm::model::VmModel<N>, protos: Seq<Proto<N>>|
        #[trigger] ctx(m, protos, code, consts, lo, nregs) && holds(m, env0) ==> (steps(
            m,
            protos,
            (hi - lo) as nat,
        ) matches Some(m2) && m2.frames == bump_pc(m, hi - lo).frames && m2.stack.len() == m.stack.len()
            && m2.closures == m.closures && holds(m2, env1))
}

/// `c2` begins with `c1`.
pub open spec fn prefix<T>(c1: Seq<T>, c2: Seq<T>) -> bool {
    c1.len() <= c2.len() && forall|j: int| 0 <= j < c1.len() ==> #[trigger] c2[j] == c1[j]
}

/// `c2` is at least as long as `c1` and agrees with it from `lo` on.
pub open spec fn wprefix<T>(c1: Seq<T>, c2: Seq<T>, lo: int) -> bool {
    c1.len() <= c2.len() && forall|j: int| lo <= j < c1.len() ==> #[trigger] c2[j] == c1[j]
}

/// Agreement from `lo` on is transitive.
pub proof fn lemma_wprefix_trans<T>(a: Seq<T>, b: Seq<T>, c: Seq<T>, lo: int)
    requires
        wprefix(a, b, lo),
        wprefix(b, c, lo),
    ensures
        wprefix(a, c, lo),
{
    assert forall|j: int| lo <= j < a.len() implies #[trigger] c[j] == a[j] by {
        assert(c[j] == b[j]);
    }
}

/// Changing an entry outside `lo .. a.len()` keeps agreement from `lo` on.
pub proof fn lemma_wprefix_update<T>(a: Seq<T>, b: Seq<T>, lo: int, i: int, x: T)
    requires
        wprefix(a, b, lo),
        0 <= lo,
        0 <= i < b.len(),
        i < lo || i >= a.len(),
    ensures
        wprefix(a, b.update(i, x), lo),
{
    assert forall|j: int| lo <= j < a.len() implies #[trigger] b.update(i, x)[j] == a[j] by {
        assert(b[j] == a[j]);
    }
}

/// A prefix of a prefix is a prefix.
pub proof fn lemma_prefix_trans<T>(a: Seq<T>, b: Seq<T>, c: Seq<T>)
    requires
        prefix(a, b),
        prefix(b, c),
    ensures
        prefix(a, c),
{
    assert forall|j: int| 0 <= j < a.len() implies #[trigger] c[j] == a[j] by {
        assert(c[j] == b[j]);
    }
}

/// Two runs of steps in a row are one run.
pub proof fn lemma_steps_add<N: LuaNumber>(
    m: crate::vm::model::VmModel<N>,
    protos: Seq<Proto<N>>,
    a: nat,
    b: nat,
)
    requires
        steps(m, protos, a) is Some,
    ensures
        steps(m, protos, a + b) == steps(steps(m, protos, a)->Some_0, protos, b),
    decreases a,
{
    if a > 0 {
        match step_spec(m, protos) {
            Ok(Step::Continue(m2)) => {
                lemma_steps_add(m2, protos, (a - 1) as nat, b);
                assert((a + b - 1) as nat == (a - 1) as nat + b);
            },
            _ => {},
        }
    }
}

/// A context for code agreeing from `lo` on, more constants and a wider
/// window is one for the shorter ones.
pub proof fn lemma_seg_extend<N: LuaNumber>(
    code: Seq<u32>,
    consts: Seq<Value<N>>,
    code2: Seq<u32>,
    consts2: Seq<Value<N>>,
    lo: int,
    hi: int,
    reg: int,
    nregs: int,
    nregs2: int,
    env: Seq<N>,
    v: Value<N>,
)
    requires
        seg(code, consts, lo, hi, reg, nregs, env, v),
        wprefix(code, code2, lo),
        prefix(consts, consts2),
        nregs <= nregs2,
    ensures
        seg(code2, consts2, lo, hi, reg, nregs2, env, v),
{
    assert forall|m: crate::vm::model::VmModel<N>, protos: Seq<Proto<N>>|
        #[trigger] ctx(m, protos, code2, consts2, lo, nregs2) && holds(m, env) implies (steps(
            m,
            protos,
            (hi - lo) as nat,
        ) matches Some(m2) && after_seg(m, m2, hi, reg, v)) by {
        let pid = current(m).proto_id->0 as int;
        assert forall|j: int| lo <= j < code.len() implies #[trigger] protos[pid].code@[j] == code[j] by {
            assert(code2[j] == code[j]);
        }
        assert forall|j: int| 0 <= j < consts.len() implies #[trigger] protos[pid].consts@[j] == consts[j] by {
            assert(consts2[j] == consts[j]);
        }
        assert(ctx(m, protos, code, consts, lo, nregs));
    }
}

/// `LOADK reg k` as one step.
pub proof fn lemma_step_loadk<N: LuaNumber>(
    m: crate::vm::model::VmModel<N>,
    protos: Seq<Proto<N>>,
    code: Seq<u32>,
    consts: Seq<Value<N>>,
    pc: int,
    nregs: int,
    reg: u32,
    k: u32,
)
    requires
        ctx(m, protos, code, consts, pc, nregs),
        0 <= pc < code.len(),
        code[pc] == abx_of(0, reg, k as int) as u32,
        reg < nregs,
        reg < 256,
        k < consts.len(),
        k <= crate::opcode::MARG_BX,
    ensures
        steps(m, protos, 1) == Some(bump_pc(rset_spec(m, reg as int, consts[k as int])->Ok_0, 1)),
        rset_spec(m, reg as int, consts[k as int]) is Ok,
{
    lemma_abx_fields(0, reg, k as int);
    reveal(step_spec);
    let pid = current(m).proto_id->0 as int;
    assert(protos[pid].code@[pc] == code[pc]);
    assert(protos[pid].consts@[k as int] == consts[k as int]);
    assert(fetch_spec(m, protos) == Ok::<(int, u32), VmError<N>>((pid, code[pc])));
    reveal_with_fuel(steps, 2);
}

/// `OP reg x y` for `ADD`, `MUL` or `DIV` over two number registers, as
/// one step.
pub proof fn lemma_step_arith<N: LuaNumber>(
    m: crate::vm::model::VmModel<N>,
    protos: Seq<Proto<N>>,
    code: Seq<u32>,
    consts: Seq<Value<N>>,
    pc: int,
    nregs: int,
    op: u32,
    reg: u32,
    x: u32,
    y: u32,
    a: N,
    b: N,
)
    requires
        ctx(m, protos, code, consts, pc, nregs),
        0 <= pc < code.len(),
        op == 2 || op == 11 || op == 12,
        code[pc] == abc_of(op, reg, x, y) as u32,
        reg < nregs,
        x < nregs,
        y < nregs,
        nregs <= 250,
        m.stack[current(m).base + x] == Value::Number(a),
        m.stack[current(m).base + y] == Value::Number(b),
    ensures
        ({
            let r = if op == 2 {
                a.add_spec(b)
            } else if op == 11 {
                a.mul_spec(b)
            } else {
                a.div_spec(b)
            };
            &&& rset_spec(m, reg as int, Value::Number(r)) is Ok
            &&& steps(m, protos, 1) == Some(bump_pc(rset_spec(m, reg as int, Value::Number(r))->Ok_0, 1))
        }),
{
    lemma_abc_fields(op, reg, x, y);
    reveal(step_spec);
    let pid = current(m).proto_id->0 as int;
    let i = code[pc];
    assert(protos[pid].code@[pc] == code[pc]);
    assert(fetch_spec(m, protos) == Ok::<(int, u32), VmError<N>>((pid, i)));
    assert(rk_spec(m, protos, pid, x as int) == rget_spec(m, x as int));
    assert(rk_spec(m, protos, pid, y as int) == rget_spec(m, y as int));
    assert(operands(m, protos, pid, i) == Ok::<(N, N), VmError<N>>((a, b)));
    reveal_with_fuel(steps, 2);
}

/// Moving the program counter twice is moving it once by the sum; the
/// running frame is otherwise the same.
pub proof fn lemma_bump_chain<N>(
    m: crate::vm::model::VmModel<N>,
    x: crate::vm::model::VmModel<N>,
    d1: int,
    d2: int,
)
    requires
        m.frames.len() > 0,
        x.frames == bump_pc(m, d1).frames,
    ensures
        bump_pc(x, d2).frames == bump_pc(m, d1 + d2).frames,
        x.frames.len() == m.frames.len(),
        current(x).pc == current(m).pc + d1,
        current(x).proto_id == current(m).proto_id,
        current(x).base == current(m).base,
        current(x).top == current(m).top,
{
    assert(bump_pc(x, d2).frames =~= bump_pc(m, d1 + d2).frames);
}

/// `LOADK reg k` leaves constant `k` in `reg`.
pub proof fn lemma_seg_loadk<N: LuaNumber>(
    code: Seq<u32>,
    consts: Seq<Value<N>>,
    lo: int,
    reg: u32,
    k: u32,
    nregs: int,
    env: Seq<N>,
)
    requires
        0 <= lo < code.len(),
        code[lo] == abx_of(0, reg, k as int) as u32,
        env.len() <= reg < nregs <= 250,
        k < consts.len(),
        k <= crate::opcode::MARG_BX,
    ensures
        seg(code, consts, lo, lo + 1, reg as int, nregs, env, consts[k as int]),
{
    assert forall|m: crate::vm::model::VmModel<N>, protos: Seq<Proto<N>>|
        #[trigger] ctx(m, protos, code, consts, lo, nregs) && holds(m, env) implies (steps(m, protos, 1) matches Some(m2)
            && after_seg(m, m2, lo + 1, reg as int, consts[k as int])) by {
        lemma_step_loadk(m, protos, code, consts, lo, nregs, reg, k);
        let m1 = rset_spec(m, reg as int, consts[k as int])->Ok_0;
        assert(bump_pc(m, 0).frames =~= m.frames);
        assert(m1.frames == m.frames);
        lemma_bump_chain(m, m1, 0, 1);
    }
}

/// A segment leaving `a` in `reg`, a segment leaving `b` in `reg + 1`, then
/// `OP reg reg reg+1` (`ADD`, `MUL` or `DIV`), leave the result in `reg`.
pub proof fn lemma_seg_arith<N: LuaNumber>(
    code: Seq<u32>,
    consts: Seq<Value<N>>,
    lo: int,
    mid: int,
    hi: int,
    reg: u32,
    nregs: int,
    op: u32,
    env: Seq<N>,
    a: N,
    b: N,
)
    requires
        seg(code, consts, lo, mid, reg as int, nregs, env, Value::Number(a)),
        seg(code, consts, mid, hi, reg + 1, nregs, env, Value::Number(b)),
        hi < code.len(),
        op == 2 || op == 11 || op == 12,
        code[hi] == abc_of(op, reg, reg, (reg + 1) as u32) as u32,
        reg + 1 < nregs <= 250,
    ensures
        seg(
            code,
            consts,
            lo,
            hi + 1,
            reg as int,
            nregs,
            env,
            Value::Number(
                if op == 2 {
                    a.add_spec(b)
                } else if op == 11 {
                    a.mul_spec(b)
                } else {
                    a.div_spec(b)
                },
            ),
        ),
{
    let r = if op == 2 {
        a.add_spec(b)
    } else if op == 11 {
        a.mul_spec(b)
    } else {
        a.div_spec(b)
    };
    assert forall|m: crate::vm::model::VmModel<N>, protos: Seq<Proto<N>>|
        #[trigger] ctx(m, protos, code, consts, lo, nregs) && holds(m, env) implies (steps(
            m,
            protos,
            (hi + 1 - lo) as nat,
        ) matches Some(m3) && after_seg(m, m3, hi + 1, reg as int, Value::Number(r))) by {
        let m1 = steps(m, protos, (mid - lo) as nat)->Some_0;
        lemma_bump_chain(m, m1, mid - lo, 0);
        assert(ctx(m1, protos, code, consts, mid, nregs));
        assert forall|j: int| 0 <= j < env.len() implies #[trigger] m1.stack[current(m1).base + j]
            == Value::Number(env[j]) by {
            assert(m1.stack[current(m).base + j] == m.stack[current(m).base + j]);
        }
        let m2 = steps(m1, protos, (hi - mid) as nat)->Some_0;
        lemma_bump_chain(m1, m2, hi - mid, 0);
        lemma_bump_chain(m, m1, mid - lo, hi - mid);
        lemma_bump_chain(m, m2, hi - lo, 0);
        assert(ctx(m2, protos, code, consts, hi, nregs));
        assert(m2.stack[current(m).base + reg] == m1.stack[current(m).base + reg]);
        lemma_step_arith(m2, protos, code, consts, hi, nregs, op, reg, reg, (reg + 1) as u32, a, b);
        let m3 = bump_pc(rset_spec(m2, reg as int, Value::Number(r))->Ok_0, 1);
        assert(bump_pc(m2, 0).frames =~= m2.frames);
        lemma_bump_chain(m2, rset_spec(m2, reg as int, Value::Number(r))->Ok_0, 0, 1);
        lemma_bump_chain(m, m2, hi - lo, 1);
        lemma_steps_add(m, protos, (mid - lo) as nat, (hi - mid) as nat);
        assert((mid - lo) as nat + (hi - mid) as nat == (hi - lo) as nat);
        lemma_steps_add(m, protos, (hi - lo) as nat, 1);
        assert((hi - lo) as nat + 1 == (hi + 1 - lo) as nat);
        assert forall|j: int| 0 <= j < reg implies #[trigger] m3.stack[current(m).base + j]
            == m.stack[current(m).base + j] by {
            assert(m2.stack[current(m).base + j] == m1.stack[current(m).base + j]);
        }
    }
}

/// `MOVE reg i` as one step.
pub proof fn lemma_step_move<N: LuaNumber>(
    m: crate::vm::model::VmModel<N>,
    protos: Seq<Proto<N>>,
    code: Seq<u32>,
    consts: Seq<Value<N>>,
    pc: int,
    nregs: int,
    reg: u32,
    i: u32,
)
    requires
        ctx(m, protos, code, consts, pc, nregs),
        0 <= pc < code.len(),
        code[pc] == abc_of(1, reg, i, 0) as u32,
        reg < nregs,
        i < nregs,
        nregs <= 250,
    ensures
        rset_spec(m, reg as int, m.stack[current(m).base + i]) is Ok,
        steps(m, protos, 1) == Some(
            bump_pc(rset_spec(m, reg as int, m.stack[current(m).base + i])->Ok_0, 1),
        ),
{
    lemma_abc_fields(1, reg, i, 0);
    reveal(step_spec);
    let pid = current(m).proto_id->0 as int;
    assert(protos[pid].code@[pc] == code[pc]);
    assert(fetch_spec(m, protos) == Ok::<(int, u32), VmError<N>>((pid, code[pc])));
    assert(rget_spec(m, i as int) == Ok::<Value<N>, VmError<N>>(m.stack[current(m).base + i]));
    reveal_with_fuel(steps, 2);
}

/// `MOVE reg i` copies local `i` into `reg`.
pub proof fn lemma_seg_move<N: LuaNumber>(
    code: Seq<u32>,
    consts: Seq<Value<N>>,
    lo: int,
    reg: u32,
    i: u32,
    nregs: int,
    env: Seq<N>,
)
    requires
        0 <= lo < code.len(),
        code[lo] == abc_of(1, reg, i, 0) as u32,
        i < env.len() <= reg < nregs <= 250,
    ensures
        seg(code, consts, lo, lo + 1, reg as int, nregs, env, Value::Number(env[i as int])),
{
    assert forall|m: crate::vm::model::VmModel<N>, protos: Seq<Proto<N>>|
        #[trigger] ctx(m, protos, code, consts, lo, nregs) && holds(m, env) implies (steps(m, protos, 1)
            matches Some(m2) && after_seg(m, m2, lo + 1, reg as int, Value::Number(env[i as int]))) by {
        assert(m.stack[current(m).base + i] == Value::Number(env[i as int]));
        lemma_step_move(m, protos, code, consts, lo, nregs, reg, i);
        let m1 = rset_spec(m, reg as int, m.stack[current(m).base + i])->Ok_0;
        assert(bump_pc(m, 0).frames =~= m.frames);
        assert(m1.frames == m.frames);
        lemma_bump_chain(m, m1, 0, 1);
    }
}

/// No instructions keep the locals.
pub proof fn lemma_pseg_empty<N: LuaNumber>(
    code: Seq<u32>,
    consts: Seq<Value<N>>,
    lo: int,
    nregs: int,
    env: Seq<N>,
)
    requires
        0 <= lo <= code.len(),
        env.len() <= nregs,
    ensures
        pseg(code, consts, lo, lo, nregs, env, env),
{
    assert forall|m: crate::vm::model::VmModel<N>, protos: Seq<Proto<N>>|
        #[trigger] ctx(m, protos, code, consts, lo, nregs) && holds(m, env) implies (steps(
            m,
            protos,
            0,
        ) matches Some(m2) && m2.frames == bump_pc(m, 0).frames && m2.stack.len() == m.stack.len()
            && m2.closures == m.closures && holds(m2, env)) by {
        assert(bump_pc(m, 0).frames =~= m.frames);
    }
}

/// Locals holding `env1`, then a segment leaving `x` in the first free
/// register: a new local holding `x`.
pub proof fn lemma_pseg_seg<N: LuaNumber>(
    code: Seq<u32>,
    consts: Seq<Value<N>>,
    lo: int,
    mid: int,
    hi: int,
    nregs: int,
    env0: Seq<N>,
    env1: Seq<N>,
    x: N,
)
    requires
        pseg(code, consts, lo, mid, nregs, env0, env1),
        seg(code, consts, mid, hi, env1.len() as int, nregs, env1, Value::Number(x)),
    ensures
        pseg(code, consts, lo, hi, nregs, env0, env1.push(x)),
{
    let env2 = env1.push(x);
    assert forall|m: crate::vm::model::VmModel<N>, protos: Seq<Proto<N>>|
        #[trigger] ctx(m, protos, code, consts, lo, nregs) && holds(m, env0) implies (steps(
            m,
            protos,
            (hi - lo) as nat,
        ) matches Some(m2) && m2.frames == bump_pc(m, hi - lo).frames && m2.stack.len() == m.stack.len()
            && m2.closures == m.closures && holds(m2, env2)) by {
        let m1 = steps(m, protos, (mid - lo) as nat)->Some_0;
        lemma_bump_chain(m, m1, mid - lo, 0);
        assert(ctx(m1, protos, code, consts, mid, nregs));
        let m2 = steps(m1, protos, (hi - mid) as nat)->Some_0;
        lemma_bump_chain(m1, m2, hi - mid, 0);
        lemma_bump_chain(m, m1, mid - lo, hi - mid);
        lemma_steps_add(m, protos, (mid - lo) as nat, (hi - mid) as nat);
        assert((mid - lo) as nat + (hi - mid) as nat == (hi - lo) as nat);
        assert forall|j: int| 0 <= j < env2.len() implies #[trigger] m2.stack[current(m2).base + j]
            == Value::Number(env2[j]) by {
            if j < env1.len() {
                assert(m2.stack[current(m1).base + j] == m1.stack[current(m1).base + j]);
            }
        }
    }
}

/// A context for code agreeing from `lo` on, more constants and a wider
/// window is one for the shorter ones.
pub proof fn lemma_pseg_extend<N: LuaNumber>(
    code: Seq<u32>,
    consts: Seq<Value<N>>,
    code2: Seq<u32>,
    consts2: Seq<Value<N>>,
    lo: int,
    hi: int,
    nregs: int,
    nregs2: int,
    env0: Seq<N>,
    env1: Seq<N>,
)
    requires
        pseg(code, consts, lo, hi, nregs, env0, env1),
        wprefix(code, code2, lo),
        prefix(consts, consts2),
        nregs <= nregs2,
    ensures
        pseg(code2, consts2, lo, hi, nregs2, env0, env1),
{
    assert forall|m: crate::vm::model::VmModel<N>, protos: Seq<Proto<N>>|
        #[trigger] ctx(m, protos, code2, consts2, lo, nregs2) && holds(m, env0) implies (steps(
            m,
            protos,
            (hi - lo) as nat,
        ) matches Some(m2) && m2.frames == bump_pc(m, hi - lo).frames && m2.stack.len() == m.stack.len()
            && m2.closures == m.closures && holds(m2, env1)) by {
        let pid = current(m).proto_id->0 as int;
        assert forall|j: int| lo <= j < code.len() implies #[trigger] protos[pid].code@[j] == code[j] by {
            assert(code2[j] == code[j]);
        }
        assert forall|j: int| 0 <= j < consts.len() implies #[trigger] protos[pid].consts@[j] == consts[j] by {
            assert(consts2[j] == consts[j]);
        }
        assert(ctx(m, protos, code, consts, lo, nregs));
    }
}

/// A run of steps followed by the rest of a run is that run.
pub proof fn lemma_steps_run<N: LuaNumber>(
    m: VmModel<N>,
    protos: Seq<Proto<N>>,
    n: nat,
    fuel: nat,
)
    requires
        steps(m, protos, n) is Some,
        fuel >= n,
    ensures
        run_spec(m, protos, fuel) == run_spec(steps(m, protos, n)->Some_0, protos, (fuel - n) as nat),
    decreases n,
{
    if n > 0 {
        match step_spec(m, protos) {
            Ok(Step::Continue(m2)) => {
                lemma_runs_continue(m, protos, fuel, m2);
                lemma_steps_run(m2, protos, (n - 1) as nat, (fuel - 1) as nat);
            },
            _ => {},
        }
    }
}

/// The machine right after `Vm::new(protos)` and `load(0)`: the main
/// chunk's function value in slot 0, only the base frame.
pub open spec fn loaded<N>() -> VmModel<N> {
    VmModel {
        stack: seq![Value::LFn(0)],
        frames: seq![Vm::<N>::sentinel_frame()],
        top: 1,
        closures: Seq::empty(),
    }
}

/// `m2` is `m` run on, in the same frame, to an instruction `RETURN a 2`
/// of `code` in `lo .. hi`, with `v` in register `a`.
pub open spec fn ret_state<N>(
    m: VmModel<N>,
    m2: VmModel<N>,
    code: Seq<u32>,
    lo: int,
    hi: int,
    nregs: int,
    v: Value<N>,
) -> bool {
    let p = current(m2).pc;
    &&& lo <= p < hi
    &&& m2.frames == bump_pc(m, p - current(m).pc).frames
    &&& m2.stack.len() == m.stack.len()
    &&& op_of(code[p]) == 6
    &&& b_of(code[p]) == 2
    &&& c_of(code[p]) == 0
    &&& a_of(code[p]) < nregs
    &&& m2.stack[current(m2).base + a_of(code[p])] == v
}

/// `n` steps from `m` reach such a `RETURN`.
pub open spec fn ret_after<N: LuaNumber>(
    m: VmModel<N>,
    protos: Seq<Proto<N>>,
    n: nat,
    code: Seq<u32>,
    lo: int,
    hi: int,
    nregs: int,
    v: Value<N>,
) -> bool {
    steps(m, protos, n) matches Some(m2) && ret_state(m, m2, code, lo, hi, nregs, v)
}

/// Instructions `lo .. hi` of `code` return `v`: from any machine at `lo`
/// of such a prototype whose locals hold `env`, at most `hi - lo` steps
/// reach a `RETURN` of `v` among them.
pub open spec fn rblock<N: LuaNumber>(
    code: Seq<u32>,
    consts: Seq<Value<N>>,
    lo: int,
    hi: int,
    nregs: int,
    env: Seq<N>,
    v: Value<N>,
) -> bool {
    &&& 0 <= lo < hi <= code.len()
    &&& env.len() <= nregs <= 250
    &&& forall|m: VmModel<N>, protos: Seq<Proto<N>>|
        #[trigger] ctx(m, protos, code, consts, lo, nregs) && holds(m, env) ==> exists|n: nat|
            n <= hi - lo && #[trigger] ret_after(m, protos, n, code, lo, hi, nregs, v)
}

/// `n` steps from `m` run to `hi` with `v` in `reg` and the registers
/// below it unchanged.
pub open spec fn seg_after<N: LuaNumber>(
    m: VmModel<N>,
    protos: Seq<Proto<N>>,
    n: nat,
    hi: int,
    reg: int,
    v: Value<N>,
) -> bool {
    steps(m, protos, n) matches Some(m2) && after_seg(m, m2, hi, reg, v)
}

/// Like `seg`, but jumps inside may skip instructions: at most `hi - lo`
/// steps run to `hi`.
pub open spec fn cseg<N: LuaNumber>(
    code: Seq<u32>,
    consts: Seq<Value<N>>,
    lo: int,
    hi: int,
    reg: int,
    nregs: int,
    env: Seq<N>,
    v: Value<N>,
) -> bool {
    &&& 0 <= lo <= hi <= code.len()
    &&& env.len() <= reg < nregs
    &&& forall|m: VmModel<N>, protos: Seq<Proto<N>>|
        #[trigger] ctx(m, protos, code, consts, lo, nregs) && holds(m, env) ==> exists|n: nat|
            n <= hi - lo && #[trigger] seg_after(m, protos, n, hi, reg, v)
}

/// A segment is one whose steps skip nothing.
pub proof fn lemma_seg_cseg<N: LuaNumber>(
    code: Seq<u32>,
    consts: Seq<Value<N>>,
    lo: int,
    hi: int,
    reg: int,
    nregs: int,
    env: Seq<N>,
    v: Value<N>,
)
    requires
        seg(code, consts, lo, hi, reg, nregs, env, v),
    ensures
        cseg(code, consts, lo, hi, reg, nregs, env, v),
{
    assert forall|m: VmModel<N>, protos: Seq<Proto<N>>|
        #[trigger] ctx(m, protos, code, consts, lo, nregs) && holds(m, env) implies exists|n: nat|
            n <= hi - lo && #[trigger] seg_after(m, protos, n, hi, reg, v) by {
        assert(seg_after(m, protos, (hi - lo) as nat, hi, reg, v));
    }
}

/// Such a segment stays one for code agreeing from `lo` on, more
/// constants and a wider window.
pub proof fn lemma_cseg_extend<N: LuaNumber>(
    code: Seq<u32>,
    consts: Seq<Value<N>>,
    code2: Seq<u32>,
    consts2: Seq<Value<N>>,
    lo: int,
    hi: int,
    reg: int,
    nregs: int,
    nregs2: int,
    env: Seq<N>,
    v: Value<N>,
)
    requires
        cseg(code, consts, lo, hi, reg, nregs, env, v),
        wprefix(code, code2, lo),
        prefix(consts, consts2),
        nregs <= nregs2,
    ensures
        cseg(code2, consts2, lo, hi, reg, nregs2, env, v),
{
    assert forall|m: VmModel<N>, protos: Seq<Proto<N>>|
        #[trigger] ctx(m, protos, code2, consts2, lo, nregs2) && holds(m, env) implies exists|n: nat|
            n <= hi - lo && #[trigger] seg_after(m, protos, n, hi, reg, v) by {
        let pid = current(m).proto_id->0 as int;
        assert forall|j: int| lo <= j < code.len() implies #[trigger] protos[pid].code@[j] == code[j] by {
            assert(code2[j] == code[j]);
        }
        assert forall|j: int| 0 <= j < consts.len() implies #[trigger] protos[pid].consts@[j] == consts[j] by {
            assert(consts2[j] == consts[j]);
        }
        assert(ctx(m, protos, code, consts, lo, nregs));
    }
}

/// Setting the locals from `env0` to `env1`, computing `v` into the next
/// register, then `RETURN` of it.
pub proof fn lemma_rblock_ret<N: LuaNumber>(
    code: Seq<u32>,
    consts: Seq<Value<N>>,
    lo: int,
    s: int,
    r: int,
    nregs: int,
    env0: Seq<N>,
    env1: Seq<N>,
    v: Value<N>,
)
    requires
        pseg(code, consts, lo, s, nregs, env0, env1),
        cseg(code, consts, s, r, env1.len() as int, nregs, env1, v),
        r < code.len(),
        nregs <= 250,
        code[r] == abc_of(6, env1.len() as u32, 2, 0) as u32,
    ensures
        rblock(code, consts, lo, r + 1, nregs, env0, v),
{
    let a = env1.len() as u32;
    lemma_abc_fields(6, a, 2, 0);
    assert forall|m: VmModel<N>, protos: Seq<Proto<N>>|
        #[trigger] ctx(m, protos, code, consts, lo, nregs) && holds(m, env0) implies exists|n: nat|
            n <= r + 1 - lo && #[trigger] ret_after(m, protos, n, code, lo, r + 1, nregs, v) by {
        let m1 = steps(m, protos, (s - lo) as nat)->Some_0;
        lemma_bump_chain(m, m1, s - lo, 0);
        assert(ctx(m1, protos, code, consts, s, nregs));
        let n1 = choose|n1: nat| n1 <= r - s && #[trigger] seg_after(m1, protos, n1, r, a as int, v);
        let m2 = steps(m1, protos, n1)->Some_0;
        lemma_steps_add(m, protos, (s - lo) as nat, n1);
        lemma_bump_chain(m1, m2, r - s, 0);
        lemma_bump_chain(m, m1, s - lo, r - s);
        assert(ret_state(m, m2, code, lo, r + 1, nregs, v));
        assert(steps(m, protos, (s - lo) as nat + n1) == Some(m2));
        assert(ret_after(m, protos, (s - lo) as nat + n1, code, lo, r + 1, nregs, v));
    }
}

/// Two number segments into `reg` and `reg + 1`, then `EQ`/`LT 1 reg
/// reg+1`, `JMP +2`, `LOADK reg false`, `JMP +1`, `LOADK reg true`: the
/// comparison's boolean in `reg`.
#[verifier::rlimit(100)]
#[verifier::spinoff_prover]
pub proof fn lemma_cseg_compare<N: LuaNumber>(
    code: Seq<u32>,
    consts: Seq<Value<N>>,
    lo: int,
    mid: int,
    hi: int,
    reg: u32,
    nregs: int,
    env: Seq<N>,
    op: u32,
    x: N,
    y: N,
    kf: u32,
    kt: u32,
)
    requires
        seg(code, consts, lo, mid, reg as int, nregs, env, Value::Number(x)),
        seg(code, consts, mid, hi, reg + 1, nregs, env, Value::Number(y)),
        hi + 4 < code.len(),
        op == 3 || op == 4,
        reg + 1 < nregs <= 250,
        code[hi] == abc_of(op, 1, reg, (reg + 1) as u32) as u32,
        code[hi + 1] == abx_of(5, 0, 2 + crate::opcode::MARG_SBX) as u32,
        code[hi + 2] == abx_of(0, reg, kf as int) as u32,
        code[hi + 3] == abx_of(5, 0, 1 + crate::opcode::MARG_SBX) as u32,
        code[hi + 4] == abx_of(0, reg, kt as int) as u32,
        kf < consts.len(),
        kt < consts.len(),
        kf <= crate::opcode::MARG_BX,
        kt <= crate::opcode::MARG_BX,
        consts[kf as int] == Value::<N>::Bool(false),
        consts[kt as int] == Value::<N>::Bool(true),
    ensures
        cseg(
            code,
            consts,
            lo,
            hi + 5,
            reg as int,
            nregs,
            env,
            Value::Bool(if op == 3 { x.eq_spec(y) } else { x.lt_spec(y) }),
        ),
{
    let b = if op == 3 { x.eq_spec(y) } else { x.lt_spec(y) };
    let v = Value::<N>::Bool(b);
    lemma_abc_fields(op, 1, reg, (reg + 1) as u32);
    lemma_abx_fields(5, 0, 2 + crate::opcode::MARG_SBX);
    lemma_abx_fields(5, 0, 1 + crate::opcode::MARG_SBX);
    assert forall|m: VmModel<N>, protos: Seq<Proto<N>>|
        #[trigger] ctx(m, protos, code, consts, lo, nregs) && holds(m, env) implies exists|n: nat|
            n <= hi + 5 - lo && #[trigger] seg_after(m, protos, n, hi + 5, reg as int, v) by {
        let m1 = steps(m, protos, (mid - lo) as nat)->Some_0;
        lemma_bump_chain(m, m1, mid - lo, 0);
        assert(ctx(m1, protos, code, consts, mid, nregs));
        assert forall|j: int| 0 <= j < env.len() implies #[trigger] m1.stack[current(m1).base + j]
            == Value::Number(env[j]) by {
            assert(m1.stack[current(m).base + j] == m.stack[current(m).base + j]);
        }
        let m2 = steps(m1, protos, (hi - mid) as nat)->Some_0;
        lemma_bump_chain(m1, m2, hi - mid, 0);
        lemma_bump_chain(m, m1, mid - lo, hi - mid);
        lemma_steps_add(m, protos, (mid - lo) as nat, (hi - mid) as nat);
        assert((mid - lo) as nat + (hi - mid) as nat == (hi - lo) as nat);
        assert(ctx(m2, protos, code, consts, hi, nregs));
        assert(m2.stack[current(m).base + reg] == m1.stack[current(m).base + reg]);
        let pid = current(m2).proto_id->0 as int;
        let i = code[hi];
        assert(protos[pid].code@[hi] == code[hi]);
        reveal(step_spec);
        assert(fetch_spec(m2, protos) == Ok::<(int, u32), VmError<N>>((pid, i)));
        assert(rk_spec(m2, protos, pid, reg as int) == rget_spec(m2, reg as int));
        assert(rk_spec(m2, protos, pid, reg + 1) == rget_spec(m2, reg + 1));
        assert(operands(m2, protos, pid, i) == Ok::<(N, N), VmError<N>>((x, y)));
        let t = test_step(m2, b, 1);
        assert(step_spec(m2, protos) == Ok::<Step<N>, VmError<N>>(Step::Continue(t)));
        reveal_with_fuel(steps, 4);
        lemma_steps_add(m, protos, (hi - lo) as nat, 3);
        assert((hi - lo) as nat + 3 == (hi - lo + 3) as nat);
        if b {
            let m3 = bump_pc(m2, 1);
            assert(t == m3);
            lemma_bump_chain(m, m2, hi - lo, 1);
            assert(protos[pid].code@[hi + 1] == code[hi + 1]);
            assert(fetch_spec(m3, protos) == Ok::<(int, u32), VmError<N>>((pid, code[hi + 1])));
            let m4 = bump_pc(bump_pc(m3, 2), 1);
            assert(step_spec(m3, protos) == Ok::<Step<N>, VmError<N>>(Step::Continue(m4)));
            assert(bump_pc(bump_pc(m3, 2), 1).frames =~= bump_pc(m3, 3).frames);
            lemma_bump_chain(m, m3, hi + 1 - lo, 3);
            lemma_bump_chain(m3, m4, 3, 0);
            assert(protos[pid].code@[hi + 4] == code[hi + 4]);
            lemma_abx_fields(0, reg, kt as int);
            assert(fetch_spec(m4, protos) == Ok::<(int, u32), VmError<N>>((pid, code[hi + 4])));
            assert(protos[pid].consts@[kt as int] == consts[kt as int]);
            let m5 = bump_pc(rset_spec(m4, reg as int, v)->Ok_0, 1);
            assert(step_spec(m4, protos) == Ok::<Step<N>, VmError<N>>(Step::Continue(m5)));
            lemma_bump_chain(m4, rset_spec(m4, reg as int, v)->Ok_0, 0, 1);
            assert(bump_pc(m4, 0).frames =~= m4.frames);
            lemma_bump_chain(m, m4, hi + 4 - lo, 1);
            assert(steps(m2, protos, 3) == Some(m5));
            assert(after_seg(m, m5, hi + 5, reg as int, v));
            assert(seg_after(m, protos, (hi - lo + 3) as nat, hi + 5, reg as int, v));
        } else {
            let m3 = bump_pc(bump_pc(m2, 1), 1);
            assert(t == m3);
            assert(bump_pc(bump_pc(m2, 1), 1).frames =~= bump_pc(m2, 2).frames);
            lemma_bump_chain(m, m2, hi - lo, 2);
            lemma_bump_chain(m2, m3, 2, 0);
            assert(protos[pid].code@[hi + 2] == code[hi + 2]);
            lemma_abx_fields(0, reg, kf as int);
            assert(fetch_spec(m3, protos) == Ok::<(int, u32), VmError<N>>((pid, code[hi + 2])));
            assert(protos[pid].consts@[kf as int] == consts[kf as int]);
            let m4 = bump_pc(rset_spec(m3, reg as int, v)->Ok_0, 1);
            assert(step_spec(m3, protos) == Ok::<Step<N>, VmError<N>>(Step::Continue(m4)));
            lemma_bump_chain(m3, rset_spec(m3, reg as int, v)->Ok_0, 0, 1);
            assert(bump_pc(m3, 0).frames =~= m3.frames);
            lemma_bump_chain(m, m3, hi + 2 - lo, 1);
            assert(protos[pid].code@[hi + 3] == code[hi + 3]);
            assert(fetch_spec(m4, protos) == Ok::<(int, u32), VmError<N>>((pid, code[hi + 3])));
            let m5 = bump_pc(bump_pc(m4, 1), 1);
            assert(step_spec(m4, protos) == Ok::<Step<N>, VmError<N>>(Step::Continue(m5)));
            assert(bump_pc(bump_pc(m4, 1), 1).frames =~= bump_pc(m4, 2).frames);
            lemma_bump_chain(m, m4, hi + 3 - lo, 2);
            lemma_bump_chain(m4, m5, 2, 0);
            assert(steps(m2, protos, 3) == Some(m5));
            assert(after_seg(m, m5, hi + 5, reg as int, v));
            assert(seg_after(m, protos, (hi - lo + 3) as nat, hi + 5, reg as int, v));
        }
    }
}

/// Setting the locals from `env0` to `env1`, then a block returning `v`
/// with them.
pub proof fn lemma_rblock_pre<N: LuaNumber>(
    code: Seq<u32>,
    consts: Seq<Value<N>>,
    lo: int,
    s: int,
    hi: int,
    nregs: int,
    env0: Seq<N>,
    env1: Seq<N>,
    v: Value<N>,
)
    requires
        pseg(code, consts, lo, s, nregs, env0, env1),
        rblock(code, consts, s, hi, nregs, env1, v),
    ensures
        rblock(code, consts, lo, hi, nregs, env0, v),
{
    assert forall|m: VmModel<N>, protos: Seq<Proto<N>>|
        #[trigger] ctx(m, protos, code, consts, lo, nregs) && holds(m, env0) implies exists|n: nat|
            n <= hi - lo && #[trigger] ret_after(m, protos, n, code, lo, hi, nregs, v) by {
        let m1 = steps(m, protos, (s - lo) as nat)->Some_0;
        lemma_bump_chain(m, m1, s - lo, 0);
        assert(ctx(m1, protos, code, consts, s, nregs));
        let n1 = choose|n1: nat|
            n1 <= hi - s && #[trigger] ret_after(m1, protos, n1, code, s, hi, nregs, v);
        let m2 = steps(m1, protos, n1)->Some_0;
        lemma_steps_add(m, protos, (s - lo) as nat, n1);
        lemma_bump_chain(m, m1, s - lo, current(m2).pc - s);
        assert(ret_state(m, m2, code, lo, hi, nregs, v));
        assert(steps(m, protos, (s - lo) as nat + n1) == Some(m2));
        assert(ret_after(m, protos, (s - lo) as nat + n1, code, lo, hi, nregs, v));
    }
}

/// The condition's segment, then its `TEST`, as `a - s + 1` steps.
pub proof fn lemma_if_test<N: LuaNumber>(
    m: VmModel<N>,
    protos: Seq<Proto<N>>,
    code: Seq<u32>,
    consts: Seq<Value<N>>,
    s: int,
    a: int,
    nregs: int,
    env: Seq<N>,
    cv: Value<N>,
) -> (km: (nat, VmModel<N>))
    requires
        cseg(code, consts, s, a, env.len() as int, nregs, env, cv),
        a < code.len(),
        nregs <= 250,
        code[a] == abc_of(13, env.len() as u32, 0, 0) as u32,
        ctx(m, protos, code, consts, s, nregs),
        holds(m, env),
    ensures
        km.0 <= a - s,
        steps(m, protos, km.0) == Some(km.1),
        steps(m, protos, km.0 + 1) == Some(test_step(km.1, truthy(cv), 0)),
        ctx(km.1, protos, code, consts, a, nregs),
        holds(km.1, env),
        km.1.frames == bump_pc(m, a - s).frames,
        km.1.stack.len() == m.stack.len(),
{
    let reg = env.len() as u32;
    lemma_abc_fields(13, reg, 0, 0);
    let k = choose|k: nat| k <= a - s && #[trigger] seg_after(m, protos, k, a, reg as int, cv);
    let m1 = steps(m, protos, k)->Some_0;
    lemma_bump_chain(m, m1, a - s, 0);
    assert forall|j: int| 0 <= j < env.len() implies #[trigger] m1.stack[current(m1).base + j]
        == Value::Number(env[j]) by {
        assert(m1.stack[current(m).base + j] == m.stack[current(m).base + j]);
    }
    let pid = current(m1).proto_id->0 as int;
    assert(protos[pid].code@[a] == code[a]);
    reveal(step_spec);
    assert(fetch_spec(m1, protos) == Ok::<(int, u32), VmError<N>>((pid, code[a])));
    assert(rget_spec(m1, reg as int) == Ok::<Value<N>, VmError<N>>(cv));
    let t = test_step(m1, truthy(cv), 0);
    assert(step_spec(m1, protos) == Ok::<Step<N>, VmError<N>>(Step::Continue(t)));
    reveal_with_fuel(steps, 2);
    assert(steps(m1, protos, 1) == Some(t));
    lemma_steps_add(m, protos, k, 1);
    (k, m1)
}

/// A jump from `a + 1` to `e1 + 1`, as one step.
pub proof fn lemma_if_jump<N: LuaNumber>(
    m2: VmModel<N>,
    protos: Seq<Proto<N>>,
    code: Seq<u32>,
    consts: Seq<Value<N>>,
    a: int,
    e1: int,
    nregs: int,
)
    requires
        ctx(m2, protos, code, consts, a + 1, nregs),
        a + 1 < code.len(),
        code[a + 1] == abx_of(5, 0, e1 - a - 1 + crate::opcode::MARG_SBX) as u32,
        0 <= e1 - a - 1 + crate::opcode::MARG_SBX <= crate::opcode::MARG_BX,
    ensures
        steps(m2, protos, 1) == Some(bump_pc(bump_pc(m2, e1 - a - 1), 1)),
{
    let bx = e1 - a - 1 + crate::opcode::MARG_SBX;
    lemma_abx_fields(5, 0, bx);
    let pid = current(m2).proto_id->0 as int;
    assert(protos[pid].code@[a + 1] == code[a + 1]);
    reveal(step_spec);
    assert(fetch_spec(m2, protos) == Ok::<(int, u32), VmError<N>>((pid, code[a + 1])));
    reveal_with_fuel(steps, 2);
}

/// `if c then b1 else b2 end`: a segment leaving the condition's value in
/// the first free register, `TEST` of it, a jump to the second block, the
/// first block, a jump (never taken: the first block returns), the second
/// block.
#[verifier::rlimit(100)]
#[verifier::spinoff_prover]
pub proof fn lemma_rblock_if<N: LuaNumber>(
    code: Seq<u32>,
    consts: Seq<Value<N>>,
    s: int,
    a: int,
    e1: int,
    e2: int,
    nregs: int,
    env: Seq<N>,
    cv: Value<N>,
    v1: Value<N>,
    v2: Value<N>,
)
    requires
        cseg(code, consts, s, a, env.len() as int, nregs, env, cv),
        code[a] == abc_of(13, env.len() as u32, 0, 0) as u32,
        code[a + 1] == abx_of(5, 0, e1 - a - 1 + crate::opcode::MARG_SBX) as u32,
        e1 - a - 1 + crate::opcode::MARG_SBX <= crate::opcode::MARG_BX,
        rblock(code, consts, a + 2, e1, nregs, env, v1),
        rblock(code, consts, e1 + 1, e2, nregs, env, v2),
    ensures
        rblock(code, consts, s, e2, nregs, env, if truthy(cv) { v1 } else { v2 }),
{
    let v = if truthy(cv) { v1 } else { v2 };
    assert forall|m: VmModel<N>, protos: Seq<Proto<N>>|
        #[trigger] ctx(m, protos, code, consts, s, nregs) && holds(m, env) implies exists|n: nat|
            n <= e2 - s && #[trigger] ret_after(m, protos, n, code, s, e2, nregs, v) by {
        let (k, m1) = lemma_if_test(m, protos, code, consts, s, a, nregs, env, cv);
        let t = test_step(m1, truthy(cv), 0);
        if truthy(cv) {
            let m2 = t;
            assert(bump_pc(bump_pc(m1, 1), 1).frames =~= bump_pc(m1, 2).frames);
            lemma_bump_chain(m, m1, a - s, 2);
            lemma_bump_chain(m1, m2, 2, 0);
            assert(ctx(m2, protos, code, consts, a + 2, nregs));
            assert(holds(m2, env));
            let n1 = choose|n1: nat|
                n1 <= e1 - (a + 2) && #[trigger] ret_after(m2, protos, n1, code, a + 2, e1, nregs, v1);
            let m3 = steps(m2, protos, n1)->Some_0;
            lemma_steps_add(m, protos, k + 1, n1);
            lemma_bump_chain(m, m2, a + 2 - s, current(m3).pc - (a + 2));
            assert(ret_state(m, m3, code, s, e2, nregs, v));
            assert(steps(m, protos, k + 1 + n1) == Some(m3));
            assert(ret_after(m, protos, k + 1 + n1, code, s, e2, nregs, v));
        } else {
            let m2 = t;
            lemma_bump_chain(m, m1, a - s, 1);
            lemma_bump_chain(m1, m2, 1, 0);
            assert(ctx(m2, protos, code, consts, a + 1, nregs));
            lemma_if_jump(m2, protos, code, consts, a, e1, nregs);
            let m3 = bump_pc(bump_pc(m2, e1 - a - 1), 1);
            lemma_steps_add(m, protos, k + 1, 1);
            assert(steps(m, protos, k + 2) == Some(m3));
            assert(bump_pc(bump_pc(m2, e1 - a - 1), 1).frames =~= bump_pc(m2, e1 - a).frames);
            lemma_bump_chain(m, m2, a + 1 - s, e1 - a);
            lemma_bump_chain(m2, m3, e1 - a, 0);
            assert(ctx(m3, protos, code, consts, e1 + 1, nregs));
            assert(holds(m3, env));
            let n2 = choose|n2: nat|
                n2 <= e2 - (e1 + 1) && #[trigger] ret_after(m3, protos, n2, code, e1 + 1, e2, nregs, v2);
            let m4 = steps(m3, protos, n2)->Some_0;
            lemma_steps_add(m, protos, k + 2, n2);
            lemma_bump_chain(m, m3, e1 + 1 - s, current(m4).pc - (e1 + 1));
            assert(ret_state(m, m4, code, s, e2, nregs, v));
            assert(steps(m, protos, k + 2 + n2) == Some(m4));
            assert(ret_after(m, protos, k + 2 + n2, code, s, e2, nregs, v));
        }
    }
}

/// A returning block stays one for code agreeing from its start on, more
/// constants and a wider window.
pub proof fn lemma_rblock_extend<N: LuaNumber>(
    code: Seq<u32>,
    consts: Seq<Value<N>>,
    code2: Seq<u32>,
    consts2: Seq<Value<N>>,
    lo: int,
    hi: int,
    nregs: int,
    nregs2: int,
    env: Seq<N>,
    v: Value<N>,
)
    requires
        rblock(code, consts, lo, hi, nregs, env, v),
        wprefix(code, code2, lo),
        prefix(consts, consts2),
        nregs <= nregs2 <= 250,
    ensures
        rblock(code2, consts2, lo, hi, nregs2, env, v),
{
    assert forall|m: VmModel<N>, protos: Seq<Proto<N>>|
        #[trigger] ctx(m, protos, code2, consts2, lo, nregs2) && holds(m, env) implies exists|n: nat|
            n <= hi - lo && #[trigger] ret_after(m, protos, n, code2, lo, hi, nregs2, v) by {
        let pid = current(m).proto_id->0 as int;
        assert forall|j: int| lo <= j < code.len() implies #[trigger] protos[pid].code@[j] == code[j] by {
            assert(code2[j] == code[j]);
        }
        assert forall|j: int| 0 <= j < consts.len() implies #[trigger] protos[pid].consts@[j] == consts[j] by {
            assert(consts2[j] == consts[j]);
        }
        assert(ctx(m, protos, code, consts, lo, nregs));
        let n = choose|n: nat|
            n <= hi - lo && #[trigger] ret_after(m, protos, n, code, lo, hi, nregs, v);
        let m2 = steps(m, protos, n)->Some_0;
        assert(code2[current(m2).pc] == code[current(m2).pc]);
        assert(ret_state(m, m2, code2, lo, hi, nregs2, v));
        assert(ret_after(m, protos, n, code2, lo, hi, nregs2, v));
    }
}

/// The prototypes' main chunk takes no parameters and, from instruction 0
/// on, returns `v` before its last instruction.
pub open spec fn main_returns<N: LuaNumber>(ps: Seq<Proto<N>>, v: Value<N>) -> bool {
    &&& ps.len() >= 1
    &&& ps[0].num_params == 0
    &&& ps[0].max_stack <= 250
    &&& rblock(
        ps[0].code@,
        ps[0].consts@,
        0,
        ps[0].code@.len() - 1,
        ps[0].max_stack as int,
        Seq::empty(),
        v,
    )
}

/// Calling the main chunk of such prototypes (as `pcall(0, 0, 1)` does
/// after `load(0)`) runs to a `RETURN` and hands back exactly `v`.
pub proof fn lemma_main_runs<N: LuaNumber>(ps: Seq<Proto<N>>, v: Value<N>)
    requires
        main_returns(ps, v),
        ps[0].code@.len() < MAX_STEPS,
    ensures
        call_spec(loaded::<N>(), ps, 0, 0, ResultsSpec::Fixed(1), 0) matches Ok(m1) && run_spec(
            m1,
            ps,
            MAX_STEPS as nat,
        ) matches Ok((_after, vs)) && vs == seq![v],
{
    let code = ps[0].code@;
    let m0 = loaded::<N>();
    let c = call_spec(m0, ps, 0, 0, ResultsSpec::Fixed(1), 0);
    assert(c is Ok);
    let m1 = c->Ok_0;
    let cap = 1 + ps[0].max_stack;
    assert(m1.stack.len() == cap);
    assert(current(m1).base == 1 && current(m1).top == cap && current(m1).pc == 0);
    assert forall|j: int| 0 <= j < code.len() implies #[trigger] ps[current(m1).proto_id->0 as int].code@[j] == code[j] by {}
    assert(ctx(m1, ps, code, ps[0].consts@, 0, ps[0].max_stack as int));
    assert(holds(m1, Seq::<N>::empty()));
    let n = choose|n: nat|
        n <= code.len() - 1 && #[trigger] ret_after(m1, ps, n, code, 0, code.len() - 1, ps[0].max_stack as int, v);
    let m2 = steps(m1, ps, n)->Some_0;
    let p = current(m2).pc;
    let a = a_of(code[p]);
    lemma_bump_chain(m1, m2, p, 0);
    lemma_steps_run(m1, ps, n, MAX_STEPS as nat);
    reveal(step_spec);
    assert(ps[current(m2).proto_id->0 as int].code@[p] == code[p]);
    assert(fetch_spec(m2, ps) == Ok::<(int, u32), VmError<N>>((0, code[p])));
    assert(rget_spec(m2, a) == Ok::<Value<N>, VmError<N>>(v));
    reveal_with_fuel(crate::vm::semantics::rget_seq, 2);
    assert(crate::vm::semantics::return_values(m2, a, 2) == Ok::<Seq<Value<N>>, VmError<N>>(seq![v]));
    assert(crate::vm::semantics::padded(seq![v], 1) =~= seq![v]);
    assert(step_spec(m2, ps) is Ok);
}

} // verus!
