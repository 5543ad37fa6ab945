//! The parser and code generator: tokens to prototypes in one pass.
//!
//! The grammar:
//!
//! ```text
//! chunk  := block eof
//! block  := { stat } [ 'return' [ expr { ',' expr } ] ]
//! stat   := 'local' 'function' Name '(' [ Name { ',' Name } ] ')' block 'end'
//!         | 'local' Name '=' expr
//!         | 'if' expr 'then' block [ 'else' block ] 'end'
//!         | call
//! expr   := sum [ ('<' | '==') sum ]
//! sum    := term { ('+' | '-') term }
//! term   := unary { ('*' | '/') unary }
//! unary  := '-' unary | suffixed
//! suffixed := primary { '(' [ expr { ',' expr } ] ')' }
//! primary  := Number | 'true' | 'false' | 'nil' | Name | '(' expr ')'
//! ```
//!
//! Every expression is evaluated into the first free register; locals
//! occupy the registers below it, in declaration order.  A call in an
//! expression keeps its first result.  A function may use the locals and
//! upvalues of the function it is defined in: they become its upvalues,
//! captured by value when the closure is created (`CLOSURE`), and read with
//! `GETUPVAL`.  Names of functions further out that the enclosing function
//! does not use itself are reported as unsupported.
use crate::frontend::error::CompileError;
use crate::frontend::lexer::{chars_of, models};
use crate::frontend::meaning::{
    digit_of, digits_value, eval, fraction_len, has_dot, lemma_seg_arith, lemma_seg_extend,
    lemma_seg_loadk, minus_one, numeral_value, p_expr, p_primary, p_sum, p_sum_rest, p_suffixed,
    p_term, p_term_rest, p_unary, pow10, prefix, seg, ten, tg, lemma_prefix_trans, AExpr, AOp,
    lemma_expr_starts, main_returns, lookup, lemma_seg_move, p_block, pseg,
    lemma_pseg_empty, lemma_pseg_seg, lemma_pseg_extend, block_value, chunk_value, SBlock, CExpr,
    p_cond, cond_value, rblock, lemma_rblock_ret, lemma_rblock_pre, lemma_rblock_if, p_relation,
    cseg, lemma_seg_cseg, lemma_cseg_extend, lemma_cseg_compare,
    lemma_rblock_extend, block_end, wprefix, lemma_wprefix_trans, lemma_wprefix_update,
};
use crate::opcode::{abc_of, abx_of};
use crate::frontend::token::{Token, TokenKind, TokenTag};
use crate::opcode::{
    call, closure, div, eq, get_upval, jmp, load_k, lt, move_, return_, test_, MARG_BX, MARG_SBX,
};
use crate::proto::Proto;
use crate::vm::model::max_code_len;
use crate::vm::semantics::truthy;
use crate::{LuaNumber, Value};
use vstd::prelude::*;
use vstd::string::StringExecFns;

verus! {

/// The most registers a function may use (the `A` field holds 8 bits).
pub const MAX_REGS: usize = 250;

/// The most instructions a function may hold: every jump offset then fits
/// the `sBx` field.
pub const MAX_CODE: usize = 131071;

/// The most upvalues a function may capture.
pub const MAX_UPVALS: usize = 200;

/// The deepest nesting of blocks, function bodies and parenthesised
/// expressions (Lua's limit on syntax levels).
pub const MAX_DEPTH: usize = 200;

/// The state of the function being compiled.
pub struct FuncState<N> {
    pub code: Vec<u32>,
    pub consts: Vec<Value<N>>,
    /// The names of the live locals; local `i` lives in register `i`.
    pub locals: Vec<Vec<char>>,
    /// The first free register.
    pub free: usize,
    /// The most registers used so far.
    pub max_stack: usize,
    /// The names this function captures, by upvalue index.
    pub upvals: Vec<Vec<char>>,
    /// Where each upvalue comes from in the enclosing function: a local's
    /// register (`true`) or one of its own upvalues (`false`).
    pub up_descs: Vec<(bool, usize)>,
    /// The names the enclosing function can see: its locals, then its upvalues.
    pub outer: Vec<Vec<char>>,
    /// How many of `outer` are the enclosing function's locals.
    pub outer_locals: usize,
    /// The numbers the locals hold when the code runs, as far as the
    /// initialisers compiled so far determine them.
    pub env: Ghost<Seq<N>>,
}

/// The names of locals.
pub open spec fn names_of(locals: Seq<Vec<char>>) -> Seq<Seq<char>> {
    locals.map_values(|v: Vec<char>| v@)
}

impl<N> FuncState<N> {
    /// Registers, code and constants lie within their limits.
    pub open spec fn wf(&self) -> bool {
        &&& self.locals@.len() <= self.free <= self.max_stack <= MAX_REGS
        &&& self.env@.len() == self.locals@.len()
        &&& self.code@.len() <= MAX_CODE
        &&& self.consts@.len() <= MARG_BX
        &&& self.upvals@.len() == self.up_descs@.len() <= MAX_UPVALS
        &&& self.outer_locals <= self.outer@.len() <= MAX_REGS + MAX_UPVALS
        &&& forall|j: int| 0 <= j < self.up_descs@.len() ==> #[trigger] self.up_descs@[j].1 < MAX_REGS
            + MAX_UPVALS
    }

    /// `self` grew from `old`: code and constants were only appended to,
    /// and the register count never shrinks.
    pub open spec fn grew(&self, old: &Self) -> bool {
        &&& self.max_stack >= old.max_stack
        &&& self.code@.len() >= old.code@.len()
        &&& self.consts@.len() >= old.consts@.len()
    }
}

/// Room for compiling the tokens from `pos` on: registers, code and
/// constants cannot run out, and nesting cannot exceed `depth`.
pub open spec fn budget<N>(fs: FuncState<N>, pos: int, len: int, depth: int) -> bool {
    let rem = len - pos;
    &&& 0 <= pos <= len
    &&& fs.free + rem + 3 <= 248
    &&& fs.code@.len() + 6 * rem <= MAX_CODE
    &&& fs.consts@.len() + 2 * rem + 2 <= MARG_BX
    &&& depth >= rem
}

/// Compiling tokens `p0 .. p1` added at most six instructions and two
/// constants per token.
pub open spec fn grown_by<N>(f0: FuncState<N>, f1: FuncState<N>, p0: int, p1: int) -> bool {
    &&& f1.code@.len() <= f0.code@.len() + 6 * (p1 - p0)
    &&& f1.consts@.len() <= f0.consts@.len() + 2 * (p1 - p0)
}

/// What compiling an arithmetic expression owes: when the tokens from `p0`
/// parse as `e` ending at `q` and there is room, compiling succeeds, stops
/// at `q`, and the code it added leaves the value of `e` (with the locals
/// holding `f0.env`) in the register it returns.
pub open spec fn frag_ok<N: LuaNumber>(
    parsed: Option<(AExpr, int)>,
    f0: FuncState<N>,
    f1: FuncState<N>,
    p0: int,
    p1: int,
    len: int,
    depth: int,
    r: Result<u32, CompileError>,
) -> bool {
    match parsed {
        Some((e, q)) => budget(f0, p0, len, depth) ==> (r matches Ok(reg) && p1 == q && grown_by(
            f0,
            f1,
            p0,
            q,
        ) && seg(
            f1.code@,
            f1.consts@,
            f0.code@.len() as int,
            f1.code@.len() as int,
            reg as int,
            f1.max_stack as int,
            f0.env@,
            Value::Number(eval::<N>(e, f0.env@)),
        )),
        None => true,
    }
}

/// The arguments from `p0` are one arithmetic expression or comparison,
/// and there is room.
pub open spec fn val_frag<N>(ts: Seq<crate::frontend::lexer::TokenModel>, p0: int, fs: FuncState<N>, depth: int) -> bool {
    match p_relation(ts, p0, names_of(fs.locals@)) {
        Some((_c, q)) => tg(ts, q) != TokenTag::Comma && budget(fs, p0, ts.len() as int, depth),
        None => false,
    }
}

/// What compiling such an argument gives: it stops after it, and its code
/// leaves its value in the first free register.
pub open spec fn val_ok<N: LuaNumber>(
    ts: Seq<crate::frontend::lexer::TokenModel>,
    p0: int,
    f0: FuncState<N>,
    f1: FuncState<N>,
    p1: int,
) -> bool {
    let (c, q) = p_relation(ts, p0, names_of(f0.locals@))->Some_0;
    &&& p1 == q
    &&& grown_by(f0, f1, p0, q)
    &&& cseg(
        f1.code@,
        f1.consts@,
        f0.code@.len() as int,
        f1.code@.len() as int,
        f0.free as int,
        f1.max_stack as int,
        f0.env@,
        cond_value::<N>(c, f0.env@),
    )
}

/// The tokens from `p0` are a comparison of two arithmetic expressions,
/// and there is room.
pub open spec fn rel_frag<N>(ts: Seq<crate::frontend::lexer::TokenModel>, p0: int, fs: FuncState<N>, depth: int) -> bool {
    &&& (p_relation(ts, p0, names_of(fs.locals@)) matches Some((c, _q)) && (c is Lt || c is Eq))
    &&& budget(fs, p0, ts.len() as int, depth)
}

/// What compiling such a comparison gives: it stops after it, and its code
/// leaves the comparison's boolean in the register returned.
pub open spec fn rel_ok<N: LuaNumber>(
    ts: Seq<crate::frontend::lexer::TokenModel>,
    p0: int,
    f0: FuncState<N>,
    f1: FuncState<N>,
    p1: int,
    r: Result<u32, CompileError>,
) -> bool {
    let (c, q) = p_relation(ts, p0, names_of(f0.locals@))->Some_0;
    &&& r matches Ok(reg) && cseg(
        f1.code@,
        f1.consts@,
        f0.code@.len() as int,
        f1.code@.len() as int,
        reg as int,
        f1.max_stack as int,
        f0.env@,
        cond_value::<N>(c, f0.env@),
    )
    &&& p1 == q
    &&& grown_by(f0, f1, p0, q)
}

/// The block from `p0` always returns one arithmetic value (see
/// `p_block`), and there is room.
pub open spec fn block_frag<N>(ts: Seq<crate::frontend::lexer::TokenModel>, p0: int, fs: FuncState<N>, depth: int) -> bool {
    &&& p_block(ts, p0, names_of(fs.locals@)) is Some
    &&& budget(fs, p0, ts.len() as int, depth)
    &&& fs.free == fs.locals@.len()
}

/// What compiling such a block gives: it stops where the block ends, and
/// its code returns the block's value.
pub open spec fn block_ok<N: LuaNumber>(
    ts: Seq<crate::frontend::lexer::TokenModel>,
    p0: int,
    f0: FuncState<N>,
    f1: FuncState<N>,
    p1: int,
) -> bool {
    match p_block(ts, p0, names_of(f0.locals@)) {
        Some((b, q)) => {
            &&& p1 == q
            &&& grown_by(f0, f1, p0, q)
            &&& prefix(f0.code@, f1.code@)
            &&& prefix(f0.consts@, f1.consts@)
            &&& rblock(
                f1.code@,
                f1.consts@,
                f0.code@.len() as int,
                f1.code@.len() as int,
                f1.max_stack as int,
                f0.env@,
                block_value::<N>(b, f0.env@),
            )
        },
        None => true,
    }
}

/// The statement from `p0` is an `if` that always returns (see
/// `p_block`), and there is room.
pub open spec fn if_frag<N>(ts: Seq<crate::frontend::lexer::TokenModel>, p0: int, fs: FuncState<N>, depth: int) -> bool {
    &&& tg(ts, p0) == TokenTag::If
    &&& p_block(ts, p0, names_of(fs.locals@)) is Some
    &&& budget(fs, p0, ts.len() as int, depth)
    &&& fs.free == fs.locals@.len()
}

/// What compiling such a statement gives: it stops after `end`, keeps the
/// locals, and its code returns the value of the branch the condition
/// picks.
pub open spec fn if_ok<N: LuaNumber>(
    ts: Seq<crate::frontend::lexer::TokenModel>,
    p0: int,
    f0: FuncState<N>,
    f1: FuncState<N>,
    p1: int,
) -> bool {
    let (b, q) = p_block(ts, p0, names_of(f0.locals@))->Some_0;
    &&& p1 == q
    &&& f1.locals@ == f0.locals@
    &&& f1.env == f0.env
    &&& f1.free == f0.free
    &&& grown_by(f0, f1, p0, q)
    &&& prefix(f0.code@, f1.code@)
    &&& prefix(f0.consts@, f1.consts@)
    &&& rblock(
        f1.code@,
        f1.consts@,
        f0.code@.len() as int,
        f1.code@.len() as int,
        f1.max_stack as int,
        f0.env@,
        block_value::<N>(b, f0.env@),
    )
}

/// The tokens from `p0` are an `if` condition (see `p_cond`) followed by
/// `then`, and there is room.
pub open spec fn cond_frag<N>(ts: Seq<crate::frontend::lexer::TokenModel>, p0: int, fs: FuncState<N>, depth: int) -> bool {
    &&& (p_cond(ts, p0, names_of(fs.locals@)) matches Some((_c, q)) && tg(ts, q) == TokenTag::Then)
    &&& budget(fs, p0, ts.len() as int, depth)
}

/// What compiling such a condition gives: it stops at `then`, and its code
/// leaves the condition's value in the register returned.
pub open spec fn cond_ok<N: LuaNumber>(
    ts: Seq<crate::frontend::lexer::TokenModel>,
    p0: int,
    f0: FuncState<N>,
    f1: FuncState<N>,
    p1: int,
    r: Result<u32, CompileError>,
) -> bool {
    let (c, q) = p_cond(ts, p0, names_of(f0.locals@))->Some_0;
    &&& r matches Ok(reg) && reg == f0.free && cseg(
        f1.code@,
        f1.consts@,
        f0.code@.len() as int,
        f1.code@.len() as int,
        reg as int,
        f1.max_stack as int,
        f0.env@,
        cond_value::<N>(c, f0.env@),
    )
    &&& p1 == q
    &&& grown_by(f0, f1, p0, q)
}

/// The value a literal condition token stands for.
pub open spec fn lit_value<N>(t: TokenTag) -> Value<N> {
    if t == TokenTag::Nil {
        Value::Nil
    } else if t == TokenTag::True {
        Value::Bool(true)
    } else {
        Value::Bool(false)
    }
}

/// The tokens from `p0` are `nil`, `true` or `false` followed by `then`,
/// and there is room.
pub open spec fn lit_frag<N>(ts: Seq<crate::frontend::lexer::TokenModel>, p0: int, fs: FuncState<N>, depth: int) -> bool {
    &&& tg(ts, p0 + 1) == TokenTag::Then
    &&& (tg(ts, p0) == TokenTag::Nil || tg(ts, p0) == TokenTag::True || tg(ts, p0) == TokenTag::False)
    &&& budget(fs, p0, ts.len() as int, depth)
}

/// What compiling such a literal gives: one token consumed, and code that
/// loads its value into the register returned.
pub open spec fn lit_ok<N: LuaNumber>(
    ts: Seq<crate::frontend::lexer::TokenModel>,
    p0: int,
    f0: FuncState<N>,
    f1: FuncState<N>,
    p1: int,
    r: Result<u32, CompileError>,
) -> bool {
    &&& r matches Ok(reg) && seg(
        f1.code@,
        f1.consts@,
        f0.code@.len() as int,
        f1.code@.len() as int,
        reg as int,
        f1.max_stack as int,
        f0.env@,
        lit_value::<N>(ts[p0].tag),
    )
    &&& p1 == p0 + 1
    &&& grown_by(f0, f1, p0, p0 + 1)
}

/// The statement from `p0` is `local Name = e` for an arithmetic
/// expression `e`, and there is room.
pub open spec fn local_frag<N>(ts: Seq<crate::frontend::lexer::TokenModel>, p0: int, fs: FuncState<N>, depth: int) -> bool {
    &&& 0 <= p0
    &&& p0 + 2 < ts.len()
    &&& ts[p0].tag == TokenTag::Local
    &&& ts[p0 + 1].tag == TokenTag::Identifier
    &&& ts[p0 + 2].tag == TokenTag::Assign
    &&& p_expr(ts, p0 + 3, names_of(fs.locals@)) is Some
    &&& budget(fs, p0, ts.len() as int, depth)
    &&& fs.free == fs.locals@.len()
}

/// What compiling such a statement gives: it stops after `e`, adds the
/// local, whose value is that of `e`, and its code computes that value
/// into the local's register.
pub open spec fn local_ok<N: LuaNumber>(
    ts: Seq<crate::frontend::lexer::TokenModel>,
    p0: int,
    f0: FuncState<N>,
    f1: FuncState<N>,
    p1: int,
) -> bool {
    let (e, q) = p_expr(ts, p0 + 3, names_of(f0.locals@))->Some_0;
    let x = eval::<N>(e, f0.env@);
    &&& p1 == q
    &&& names_of(f1.locals@) == names_of(f0.locals@).push(ts[p0 + 1].text)
    &&& f1.env@ == f0.env@.push(x)
    &&& f1.free == f0.free + 1
    &&& grown_by(f0, f1, p0, q)
    &&& prefix(f0.code@, f1.code@)
    &&& prefix(f0.consts@, f1.consts@)
    &&& seg(
        f1.code@,
        f1.consts@,
        f0.code@.len() as int,
        f1.code@.len() as int,
        f0.free as int,
        f1.max_stack as int,
        f0.env@,
        Value::Number(x),
    )
}

/// The names of locals with one more.
pub proof fn lemma_names_push(locals: Seq<Vec<char>>, name: Vec<char>)
    ensures
        names_of(locals.push(name)) == names_of(locals).push(name@),
{
    assert(names_of(locals.push(name)) =~= names_of(locals).push(name@));
}

/// `line`, `col` is where one of the tokens starts (`1:1` when there are
/// none).
pub open spec fn at_token(ts: Seq<crate::frontend::lexer::TokenModel>, line: int, col: int) -> bool {
    ||| exists|i: int| 0 <= i < ts.len() && ts[i].line == line && ts[i].col == col
    ||| ts.len() == 0 && line == 1 && col == 1
}

/// A parse, code generation or unsupported-feature error lies at the
/// start of one of the tokens.
pub open spec fn err_at(e: CompileError, ts: Seq<crate::frontend::lexer::TokenModel>) -> bool {
    match e {
        CompileError::Parse { line, col, .. } => at_token(ts, line as int, col as int),
        CompileError::Codegen { line, col, .. } => at_token(ts, line as int, col as int),
        CompileError::Unsupported { line, col, .. } => at_token(ts, line as int, col as int),
        _ => false,
    }
}

/// The instruction that loads the variable descriptor `d` describes into
/// register `r`: `MOVE r idx` for a local of the enclosing function,
/// `GETUPVAL r idx` for one of its upvalues.
pub open spec fn capture_ins(r: int, d: (bool, usize)) -> u32 {
    if d.0 {
        abc_of(1, r as u32, d.1 as u32, 0) as u32
    } else {
        abc_of(15, r as u32, d.1 as u32, 0) as u32
    }
}

/// The code that loads, for each `k`, the variable `descs[k]` describes
/// into register `reg + 1 + k`.
#[verifier::opaque]
pub open spec fn capture_code(reg: int, descs: Seq<(bool, usize)>) -> Seq<u32> {
    Seq::new(descs.len(), |k: int| capture_ins(reg + 1 + k, descs[k]))
}

/// Every prototype's code fits the machine's limit on code length.
pub open spec fn protos_small<N>(ps: Seq<Proto<N>>) -> bool {
    forall|i: int| 0 <= i < ps.len() ==> #[trigger] ps[i].code@.len() <= MAX_CODE
}

/// The parser: the tokens, the position of the next one, and the
/// prototypes compiled so far (the main chunk's slot is index 0).
pub struct Parser<N> {
    pub toks: Vec<Token>,
    pub pos: usize,
    pub protos: Vec<Proto<N>>,
}

/// Whether two names are equal.
fn same_name(x: &Vec<char>, y: &Vec<char>) -> (r: bool)
    ensures
        r == (x@ == y@),
{
    if x.len() != y.len() {
        return false;
    }
    let mut i: usize = 0;
    while i < x.len()
        invariant
            x@.len() == y@.len(),
            i <= x@.len(),
            forall|j: int| 0 <= j < i ==> x@[j] == y@[j],
        decreases x@.len() - i,
    {
        if x[i] != y[i] {
            return false;
        }
        i = i + 1;
    }
    assert(x@ =~= y@);
    true
}

/// A copy of a name.
fn copy_chars(x: &Vec<char>) -> (r: Vec<char>)
    ensures
        r@ == x@,
{
    let mut out: Vec<char> = Vec::new();
    let mut i: usize = 0;
    while i < x.len()
        invariant
            i <= x@.len(),
            out@ == x@.take(i as int),
        decreases x@.len() - i,
    {
        out.push(x[i]);
        i = i + 1;
        assert(out@ =~= x@.take(i as int));
    }
    assert(x@.take(i as int) =~= x@);
    out
}

/// Minus one, as the number type builds it.
fn minus_one_exec<N: LuaNumber>() -> (r: N)
    ensures
        r == minus_one::<N>(),
{
    N::from_digit(1).num_neg()
}

/// The number a numeral's text denotes.
fn numeral_exec<N: LuaNumber>(text: &String) -> (r: N)
    ensures
        r == numeral_value::<N>(text@),
{
    let cs = chars_of(text.as_str());
    let ten_n = N::from_digit(9).num_add(&N::from_digit(1));
    let mut acc = N::from_digit(0);
    let mut seen_dot = false;
    let mut frac: usize = 0;
    let mut i: usize = 0;
    while i < cs.len()
        invariant
            i <= cs@.len(),
            cs@ == text@,
            ten_n == ten::<N>(),
            acc == digits_value::<N>(cs@.take(i as int)),
            seen_dot == has_dot(cs@.take(i as int)),
            frac == fraction_len(cs@.take(i as int)),
            frac <= i,
        decreases cs@.len() - i,
    {
        let c = cs[i];
        assert(cs@.take(i + 1).drop_last() =~= cs@.take(i as int));
        assert(cs@.take(i + 1).last() == c);
        if c == '.' {
            seen_dot = true;
            frac = 0;
        } else {
            let cv = c as u32;
            let d: u8 = if 48 <= cv && cv <= 57 {
                (cv - 48) as u8
            } else {
                0
            };
            acc = acc.num_mul(&ten_n).num_add(&N::from_digit(d));
            if seen_dot {
                frac = frac + 1;
            }
        }
        i = i + 1;
    }
    assert(cs@.take(i as int) =~= cs@);
    if frac == 0 {
        acc
    } else {
        let mut p = N::from_digit(1);
        let mut j: usize = 0;
        while j < frac
            invariant
                j <= frac,
                ten_n == ten::<N>(),
                p == pow10::<N>(j as nat),
            decreases frac - j,
        {
            p = p.num_mul(&ten_n);
            j = j + 1;
        }
        acc.num_div(&p)
    }
}

/// A codegen error at `line`, `col`.
fn codegen_error(line: usize, col: usize, msg: &str) -> (e: CompileError)
    ensures
        e matches CompileError::Codegen { line: l, col: c, .. } && l == line && c == col,
{
    CompileError::Codegen { line, col, msg: String::from_str(msg) }
}

impl<N: LuaNumber> Parser<N> {
    /// The parser's invariant: the position lies within the tokens and all
    /// prototypes fit the machine's code limit.
    pub open spec fn wf(&self) -> bool {
        &&& self.pos <= self.toks@.len()
        &&& protos_small(self.protos@)
    }

    /// `self` moved on from `old`: same tokens, position not behind,
    /// prototypes only appended.
    pub open spec fn moved(&self, old: &Self) -> bool {
        &&& self.toks == old.toks
        &&& self.pos >= old.pos
        &&& self.protos@.len() >= old.protos@.len()
    }

    /// The class of the next token (`Eof` past the end).
    fn peek(&self) -> (t: TokenTag)
        requires
            self.wf(),
        ensures
            t == tg(models(self.toks@), self.pos as int),
    {
        if self.pos < self.toks.len() {
            self.toks[self.pos].kind.tag()
        } else {
            TokenTag::Eof
        }
    }

    /// Where the next token starts (`1:1` when there is none).
    fn here(&self) -> (lc: (usize, usize))
        requires
            self.wf(),
        ensures
            at_token(models(self.toks@), lc.0 as int, lc.1 as int),
    {
        let ghost ts = models(self.toks@);
        if self.pos < self.toks.len() {
            assert(ts[self.pos as int] == self.toks@[self.pos as int].model());
            (self.toks[self.pos].line, self.toks[self.pos].col)
        } else if self.toks.len() > 0 {
            let n = self.toks.len() - 1;
            assert(ts[n as int] == self.toks@[n as int].model());
            (self.toks[n].line, self.toks[n].col)
        } else {
            (1, 1)
        }
    }

    /// Moves past the next token.
    fn advance(&mut self)
        requires
            old(self).wf(),
        ensures
            final(self).wf(),
            final(self).moved(old(self)),
            final(self).protos == old(self).protos,
            old(self).pos < old(self).toks@.len() ==> final(self).pos == old(self).pos + 1,
    {
        if self.pos < self.toks.len() {
            self.pos = self.pos + 1;
        }
    }

    /// A parse error at the next token: `expected` was wanted.
    fn parse_error(&self, expected: &str) -> (e: CompileError)
        requires
            self.wf(),
        ensures
            e is Parse,
            err_at(e, models(self.toks@)),
    {
        let (line, col) = self.here();
        let found = if self.pos < self.toks.len() {
            self.toks[self.pos].kind.display_name()
        } else {
            String::from_str("eof")
        };
        CompileError::Parse { line, col, expected: String::from_str(expected), found }
    }

    /// Consumes a token of class `t`, or reports that one was expected.
    fn expect(&mut self, t: TokenTag) -> (r: Result<(), CompileError>)
        requires
            old(self).wf(),
        ensures
            old(self).pos < old(self).toks@.len() && tg(models(old(self).toks@), old(self).pos as int) == t
                ==> r is Ok && final(self).pos == old(self).pos + 1,
            r is Ok ==> final(self).pos == old(self).pos + 1,
            r matches Err(e) ==> !(e is Io),
            r matches Err(e) ==> err_at(e, models(old(self).toks@)),
            final(self).wf(),
            final(self).moved(old(self)),
            final(self).protos == old(self).protos,
            r is Ok ==> final(self).pos > old(self).pos,
    {
        if self.pos < self.toks.len() && self.peek() == t {
            self.advance();
            Ok(())
        } else {
            Err(self.parse_error(t.display_name()))
        }
    }

    /// The name in the next token, which must be an identifier.
    fn expect_name(&mut self) -> (r: Result<Vec<char>, CompileError>)
        requires
            old(self).wf(),
        ensures
            old(self).pos < old(self).toks@.len() && tg(models(old(self).toks@), old(self).pos as int)
                == TokenTag::Identifier ==> (r matches Ok(n) && n@ == models(old(self).toks@)[old(
                self).pos as int].text && final(self).pos == old(self).pos + 1),
            r matches Err(e) ==> !(e is Io),
            r matches Err(e) ==> err_at(e, models(old(self).toks@)),
            final(self).wf(),
            final(self).moved(old(self)),
            final(self).protos == old(self).protos,
            r is Ok ==> final(self).pos > old(self).pos,
    {
        if self.pos < self.toks.len() {
            assert(models(self.toks@)[self.pos as int] == self.toks@[self.pos as int].model());
            match &self.toks[self.pos].kind {
                TokenKind::Identifier(name) => {
                    let cs = chars_of(name.as_str());
                    self.advance();
                    return Ok(cs);
                },
                _ => {},
            }
        }
        Err(self.parse_error("identifier"))
    }

    /// Appends an instruction; gives its index.
    fn emit(&self, fs: &mut FuncState<N>, ins: u32) -> (r: Result<usize, CompileError>)
        requires
            self.wf(),
            old(fs).wf(),
        ensures
            r matches Err(e) ==> !(e is Io),
            r matches Err(e) ==> err_at(e, models(self.toks@)),
            final(fs).wf(),
            final(fs).grew(old(fs)),
            final(fs).locals == old(fs).locals,
            final(fs).env == old(fs).env,
            final(fs).free == old(fs).free,
            final(fs).max_stack == old(fs).max_stack,
            match r {
                Ok(pc) => pc == old(fs).code@.len() && final(fs).code@ == old(fs).code@.push(ins)
                    && final(fs).consts == old(fs).consts,
                Err(_) => true,
            },
            old(fs).code@.len() < MAX_CODE ==> r is Ok,
            prefix(old(fs).code@, final(fs).code@),
            prefix(old(fs).consts@, final(fs).consts@),
    {
        if fs.code.len() >= MAX_CODE {
            let (line, col) = self.here();
            return Err(codegen_error(line, col, "function too long"));
        }
        let pc = fs.code.len();
        fs.code.push(ins);
        Ok(pc)
    }

    /// Adds a constant; gives its index.
    fn constant(&self, fs: &mut FuncState<N>, v: Value<N>) -> (r: Result<u32, CompileError>)
        requires
            self.wf(),
            old(fs).wf(),
        ensures
            r matches Err(e) ==> !(e is Io),
            r matches Err(e) ==> err_at(e, models(self.toks@)),
            final(fs).wf(),
            final(fs).grew(old(fs)),
            final(fs).locals == old(fs).locals,
            final(fs).env == old(fs).env,
            final(fs).free == old(fs).free,
            final(fs).max_stack == old(fs).max_stack,
            final(fs).code == old(fs).code,
            r matches Ok(k) ==> k < MARG_BX && k == old(fs).consts@.len() && final(fs).consts@
                == old(fs).consts@.push(v),
            old(fs).consts@.len() < MARG_BX ==> r is Ok,
            prefix(old(fs).consts@, final(fs).consts@),
    {
        if fs.consts.len() >= MARG_BX as usize {
            let (line, col) = self.here();
            return Err(codegen_error(line, col, "too many constants"));
        }
        let k = fs.consts.len() as u32;
        fs.consts.push(v);
        Ok(k)
    }

    /// Takes the first free register.
    fn reserve(&self, fs: &mut FuncState<N>) -> (r: Result<u32, CompileError>)
        requires
            self.wf(),
            old(fs).wf(),
        ensures
            r matches Err(e) ==> !(e is Io),
            r matches Err(e) ==> err_at(e, models(self.toks@)),
            final(fs).wf(),
            final(fs).grew(old(fs)),
            final(fs).locals == old(fs).locals,
            final(fs).env == old(fs).env,
            final(fs).code == old(fs).code,
            final(fs).consts == old(fs).consts,
            r matches Ok(reg) ==> reg == old(fs).free && final(fs).free == old(fs).free + 1,
            old(fs).free < MAX_REGS - 1 ==> r is Ok,
    {
        if fs.free >= MAX_REGS - 1 {
            let (line, col) = self.here();
            return Err(codegen_error(line, col, "too many registers"));
        }
        let reg = fs.free as u32;
        fs.free = fs.free + 1;
        if fs.max_stack < fs.free {
            fs.max_stack = fs.free;
        }
        Ok(reg)
    }

    /// Loads `v` into the first free register; gives the register.
    fn load_value(&self, fs: &mut FuncState<N>, v: Value<N>) -> (r: Result<u32, CompileError>)
        requires
            self.wf(),
            old(fs).wf(),
        ensures
            r matches Err(e) ==> !(e is Io),
            r matches Err(e) ==> err_at(e, models(self.toks@)),
            final(fs).wf(),
            final(fs).grew(old(fs)),
            final(fs).locals == old(fs).locals,
            final(fs).env == old(fs).env,
            r matches Ok(reg) ==> reg == old(fs).free && final(fs).free == old(fs).free + 1
                && final(fs).code@ == old(fs).code@.push(abx_of(0, reg, old(fs).consts@.len() as int) as u32)
                && final(fs).consts@ == old(fs).consts@.push(v) && old(fs).consts@.len() < MARG_BX,
            old(fs).consts@.len() < MARG_BX && old(fs).free < MAX_REGS - 1 && old(fs).code@.len()
                < MAX_CODE ==> r is Ok,
            prefix(old(fs).code@, final(fs).code@),
            prefix(old(fs).consts@, final(fs).consts@),
    {
        let k = self.constant(fs, v)?;
        let reg = self.reserve(fs)?;
        self.emit(fs, load_k(reg, k))?;
        Ok(reg)
    }

    /// Sets the jump at `at` to land on the next instruction to be emitted.
    fn patch_jump(&self, fs: &mut FuncState<N>, at: usize)
        requires
            self.wf(),
            old(fs).wf(),
            at < old(fs).code@.len(),
        ensures
            final(fs).wf(),
            final(fs).grew(old(fs)),
            final(fs).locals == old(fs).locals,
            final(fs).env == old(fs).env,
            final(fs).free == old(fs).free,
            final(fs).max_stack == old(fs).max_stack,
            final(fs).code@.len() == old(fs).code@.len(),
            final(fs).code@ == old(fs).code@.update(
                at as int,
                abx_of(5, 0, old(fs).code@.len() - (at + 1) + MARG_SBX) as u32,
            ),
            final(fs).consts == old(fs).consts,
            old(fs).code@.len() - (at + 1) + MARG_SBX <= MARG_BX,
    {
        let offset = fs.code.len() - (at + 1);
        let bx = (offset + MARG_SBX as usize) as u32;
        fs.code.set(at, jmp(0, bx));
    }

    /// The register of the innermost local named `name`.
    fn resolve(fs: &FuncState<N>, name: &Vec<char>) -> (r: Option<usize>)
        ensures
            r matches Some(i) ==> i < fs.locals@.len(),
            match r {
                Some(i) => lookup(names_of(fs.locals@), name@) == Some(i as int),
                None => lookup(names_of(fs.locals@), name@) is None,
            },
    {
        let ghost names = names_of(fs.locals@);
        let mut i = fs.locals.len();
        assert(names.take(i as int) =~= names);
        while i > 0
            invariant
                i <= fs.locals@.len(),
                names == names_of(fs.locals@),
                lookup(names, name@) == lookup(names.take(i as int), name@),
            decreases i,
        {
            assert(names.take(i as int).last() == fs.locals@[i - 1]@);
            assert(names.take(i as int).drop_last() =~= names.take(i - 1));
            i = i - 1;
            if same_name(&fs.locals[i], name) {
                return Some(i);
            }
        }
        assert(names.take(0) =~= Seq::<Seq<char>>::empty());
        None
    }

    /// The upvalue index of `name` in the function being compiled, adding
    /// an upvalue when `name` is visible in the enclosing function.
    #[verifier::loop_isolation(false)]
    fn resolve_upvalue(&self, fs: &mut FuncState<N>, name: &Vec<char>) -> (r: Result<
        Option<usize>,
        CompileError,
    >)
        requires
            self.wf(),
            old(fs).wf(),
        ensures
            r matches Err(e) ==> !(e is Io),
            r matches Err(e) ==> err_at(e, models(self.toks@)),
            final(fs).wf(),
            final(fs).grew(old(fs)),
            final(fs).locals == old(fs).locals,
            final(fs).env == old(fs).env,
            final(fs).free == old(fs).free,
            final(fs).code == old(fs).code,
            final(fs).consts == old(fs).consts,
            r matches Ok(Some(j)) ==> j < final(fs).upvals@.len(),
    {
        let mut j: usize = 0;
        while j < fs.upvals.len()
            invariant
                j <= fs.upvals@.len(),
            decreases fs.upvals@.len() - j,
        {
            if same_name(&fs.upvals[j], name) {
                return Ok(Some(j));
            }
            j = j + 1;
        }
        let mut k: usize = fs.outer.len();
        let mut found = false;
        while k > 0
            invariant
                k <= fs.outer@.len(),
            decreases k,
        {
            k = k - 1;
            if same_name(&fs.outer[k], name) {
                found = true;
                break;
            }
        }
        if found && k < fs.outer.len() {
            if fs.upvals.len() >= MAX_UPVALS {
                let (line, col) = self.here();
                return Err(codegen_error(line, col, "too many upvalues"));
            }
            let desc = if k < fs.outer_locals {
                (true, k)
            } else {
                (false, k - fs.outer_locals)
            };
            fs.upvals.push(copy_chars(name));
            fs.up_descs.push(desc);
            assert(fs.up_descs@[fs.up_descs@.len() - 1] == desc);
            return Ok(Some(fs.upvals.len() - 1));
        }
        Ok(None)
    }

    /// Compiles an expression into the first free register.
    #[verifier::rlimit(100)]
    #[verifier::spinoff_prover]
    fn expr(&mut self, fs: &mut FuncState<N>, depth: usize) -> (r: Result<u32, CompileError>)
        requires
            old(self).wf(),
            old(fs).wf(),
        ensures
            frag_ok(
                p_expr(models(old(self).toks@), old(self).pos as int, names_of(old(fs).locals@)),
                *old(fs),
                *final(fs),
                old(self).pos as int,
                final(self).pos as int,
                old(self).toks@.len() as int,
                depth as int,
                r,
            ),
            lit_frag(models(old(self).toks@), old(self).pos as int, *old(fs), depth as int) ==> lit_ok(
                models(old(self).toks@),
                old(self).pos as int,
                *old(fs),
                *final(fs),
                final(self).pos as int,
                r,
            ),
            rel_frag(models(old(self).toks@), old(self).pos as int, *old(fs), depth as int) ==> rel_ok(
                models(old(self).toks@),
                old(self).pos as int,
                *old(fs),
                *final(fs),
                final(self).pos as int,
                r,
            ),
            prefix(old(fs).code@, final(fs).code@),
            prefix(old(fs).consts@, final(fs).consts@),
            r matches Err(e) ==> !(e is Io),
            r matches Err(e) ==> err_at(e, models(old(self).toks@)),
            final(self).wf(),
            final(self).moved(old(self)),
            final(fs).wf(),
            final(fs).grew(old(fs)),
            final(fs).locals == old(fs).locals,
            final(fs).env == old(fs).env,
            r matches Ok(reg) ==> reg == old(fs).free && final(fs).free == old(fs).free + 1
                && final(self).pos > old(self).pos,
        decreases depth, 5nat,
    {
        let ghost names = names_of(fs.locals@);
        let ghost env = fs.env@;
        let ghost ts = models(self.toks@);
        let ghost pos0 = self.pos as int;
        let ghost lo = fs.code@.len() as int;
        let ghost relf = rel_frag(ts, pos0, *old(fs), depth as int);
        let ghost (x, q1) = if relf {
            p_sum(ts, pos0, names)->Some_0
        } else {
            (AExpr::Num(Seq::empty()), 0int)
        };
        let ghost (y, q2) = if relf {
            p_sum(ts, q1 + 1, names)->Some_0
        } else {
            (AExpr::Num(Seq::empty()), 0int)
        };
        let reg = self.sum(fs, depth)?;
        let t = self.peek();
        if t == TokenTag::Less || t == TokenTag::EqEq {
            let ghost fs_mid = *fs;
            self.advance();
            proof {
                if relf {
                    assert(self.pos == q1 + 1);
                    assert(budget(fs_mid, q1 + 1, ts.len() as int, depth as int));
                }
            }
            let rhs = self.sum(fs, depth)?;
            let ghost fs_r = *fs;
            proof {
                if relf {
                    assert(self.pos == q2);
                    assert(fs_r.code@.len() + 5 <= MAX_CODE);
                    assert(fs_r.consts@.len() + 2 <= MARG_BX);
                }
            }
            if t == TokenTag::Less {
                self.emit(fs, lt(1, reg, rhs))?;
            } else {
                self.emit(fs, eq(1, reg, rhs))?;
            }
            fs.free = reg as usize;
            let kf = self.constant(fs, Value::Bool(false))?;
            let kt = self.constant(fs, Value::Bool(true))?;
            self.emit(fs, jmp(0, (2 + MARG_SBX) as u32))?;
            self.emit(fs, load_k(reg, kf))?;
            self.emit(fs, jmp(0, (1 + MARG_SBX) as u32))?;
            self.emit(fs, load_k(reg, kt))?;
            fs.free = reg as usize + 1;
            proof {
                lemma_prefix_trans(old(fs).code@, fs_mid.code@, fs.code@);
                lemma_prefix_trans(old(fs).consts@, fs_mid.consts@, fs.consts@);
                if relf {
                    let op: u32 = if t == TokenTag::Less { 4 } else { 3 };
                    let h1 = fs_mid.code@.len() as int;
                    let h2 = fs_r.code@.len() as int;
                    lemma_prefix_trans(fs_mid.code@, fs_r.code@, fs.code@);
                    lemma_prefix_trans(fs_mid.consts@, fs_r.consts@, fs.consts@);
                    lemma_seg_extend(
                        fs_mid.code@,
                        fs_mid.consts@,
                        fs.code@,
                        fs.consts@,
                        lo,
                        h1,
                        reg as int,
                        fs_mid.max_stack as int,
                        fs.max_stack as int,
                        env,
                        Value::Number(eval::<N>(x, env)),
                    );
                    lemma_seg_extend(
                        fs_r.code@,
                        fs_r.consts@,
                        fs.code@,
                        fs.consts@,
                        h1,
                        h2,
                        rhs as int,
                        fs_r.max_stack as int,
                        fs.max_stack as int,
                        env,
                        Value::Number(eval::<N>(y, env)),
                    );
                    assert(fs.consts@[kf as int] == Value::<N>::Bool(false));
                    assert(fs.consts@[kt as int] == Value::<N>::Bool(true));
                    lemma_cseg_compare(
                        fs.code@,
                        fs.consts@,
                        lo,
                        h1,
                        h2,
                        reg,
                        fs.max_stack as int,
                        env,
                        op,
                        eval::<N>(x, env),
                        eval::<N>(y, env),
                        kf,
                        kt,
                    );
                }
            }
        }
        Ok(reg)
    }

    /// `term { ('+' | '-') term }`
    fn sum(&mut self, fs: &mut FuncState<N>, depth: usize) -> (r: Result<u32, CompileError>)
        requires
            old(self).wf(),
            old(fs).wf(),
        ensures
            frag_ok(
                p_sum(models(old(self).toks@), old(self).pos as int, names_of(old(fs).locals@)),
                *old(fs),
                *final(fs),
                old(self).pos as int,
                final(self).pos as int,
                old(self).toks@.len() as int,
                depth as int,
                r,
            ),
            lit_frag(models(old(self).toks@), old(self).pos as int, *old(fs), depth as int) ==> lit_ok(
                models(old(self).toks@),
                old(self).pos as int,
                *old(fs),
                *final(fs),
                final(self).pos as int,
                r,
            ),
            prefix(old(fs).code@, final(fs).code@),
            prefix(old(fs).consts@, final(fs).consts@),
            r matches Err(e) ==> !(e is Io),
            r matches Err(e) ==> err_at(e, models(old(self).toks@)),
            final(self).wf(),
            final(self).moved(old(self)),
            final(fs).wf(),
            final(fs).grew(old(fs)),
            final(fs).locals == old(fs).locals,
            final(fs).env == old(fs).env,
            r matches Ok(reg) ==> reg == old(fs).free && final(fs).free == old(fs).free + 1
                && final(self).pos > old(self).pos,
        decreases depth, 4nat,
    {
        let ghost names = names_of(fs.locals@);
        let ghost env = fs.env@;
        let ghost ts = models(self.toks@);
        let ghost pos0 = self.pos as int;
        let ghost lo = fs.code@.len() as int;
        let ghost frag = p_sum(ts, pos0, names) is Some && budget(*old(fs), pos0, ts.len() as int, depth as int);
        let reg = self.term(fs, depth)?;
        let ghost litf = lit_frag(ts, pos0, *old(fs), depth as int);
        let ghost mut lhs: AExpr = if frag {
            p_term(ts, pos0, names)->Some_0.0
        } else {
            AExpr::Num(Seq::empty())
        };
        loop
            invariant
                self.wf(),
                self.moved(old(self)),
                self.pos > old(self).pos,
                fs.wf(),
                fs.grew(old(fs)),
                fs.locals == old(fs).locals,
                fs.env == old(fs).env,
                reg == old(fs).free,
                fs.free == old(fs).free + 1,
                ts == models(self.toks@),
                names == names_of(old(fs).locals@),
                env == old(fs).env@,
                pos0 == old(self).pos as int,
                lo == old(fs).code@.len() as int,
                prefix(old(fs).code@, fs.code@),
                prefix(old(fs).consts@, fs.consts@),
                frag == (p_sum(ts, pos0, names) is Some && budget(*old(fs), pos0, ts.len() as int, depth as int)),
                litf == lit_frag(ts, pos0, *old(fs), depth as int),
                litf ==> lit_ok(ts, pos0, *old(fs), *fs, self.pos as int, Ok::<u32, CompileError>(reg)),
                frag ==> p_sum_rest(ts, lhs, self.pos as int, names) == p_sum(ts, pos0, names) && seg(
                    fs.code@,
                    fs.consts@,
                    lo,
                    fs.code@.len() as int,
                    reg as int,
                    fs.max_stack as int,
                    env,
                    Value::Number(eval::<N>(lhs, env)),
                ) && grown_by(*old(fs), *fs, pos0, self.pos as int),
            ensures
                frag ==> tg(ts, self.pos as int) != TokenTag::Plus && tg(ts, self.pos as int)
                    != TokenTag::Minus,
            decreases self.toks@.len() - self.pos,
        {
            let t = self.peek();
            if t != TokenTag::Plus && t != TokenTag::Minus {
                break;
            }
            let p0 = self.pos;
            self.advance();
            if self.pos == p0 {
                break;
            }
            let ghost fs_a = *fs;
            let rhs = self.term(fs, depth)?;
            let ghost fs_b = *fs;
            let ghost q2 = self.pos as int;
            let ghost r_e: AExpr = if frag {
                p_term(ts, p0 + 1, names)->Some_0.0
            } else {
                AExpr::Num(Seq::empty())
            };
            if t == TokenTag::Minus {
                let m1 = minus_one_exec::<N>();
                let k = self.load_value(fs, Value::Number(m1))?;
                let ghost fs_c = *fs;
                self.emit(fs, crate::opcode::mul(rhs, rhs, k))?;
                let ghost fs_d = *fs;
                self.emit(fs, crate::opcode::add(reg, reg, rhs))?;
                proof {
                    lemma_prefix_trans(fs_b.code@, fs_c.code@, fs_d.code@);
                    lemma_prefix_trans(fs_b.code@, fs_d.code@, fs.code@);
                    lemma_prefix_trans(fs_b.consts@, fs_c.consts@, fs.consts@);
                    if frag {
                        let hb = fs_b.code@.len() as int;
                        lemma_seg_extend(
                            fs_b.code@,
                            fs_b.consts@,
                            fs.code@,
                            fs.consts@,
                            fs_a.code@.len() as int,
                            hb,
                            rhs as int,
                            fs_b.max_stack as int,
                            fs.max_stack as int,
                            env,
                            Value::Number(eval::<N>(r_e, env)),
                        );
                        lemma_seg_extend(
                            fs_a.code@,
                            fs_a.consts@,
                            fs.code@,
                            fs.consts@,
                            lo,
                            fs_a.code@.len() as int,
                            reg as int,
                            fs_a.max_stack as int,
                            fs.max_stack as int,
                            env,
                            Value::Number(eval::<N>(lhs, env)),
                        );
                        lemma_seg_loadk(fs.code@, fs.consts@, hb, k, fs_b.consts@.len() as u32, fs.max_stack as int, env);
                        assert(fs.consts@[fs_b.consts@.len() as int] == Value::Number(m1));
                        lemma_seg_arith(
                            fs.code@,
                            fs.consts@,
                            fs_a.code@.len() as int,
                            hb,
                            hb + 1,
                            rhs,
                            fs.max_stack as int,
                            11,
                            env,
                            eval::<N>(r_e, env),
                            m1,
                        );
                        lemma_seg_arith(
                            fs.code@,
                            fs.consts@,
                            lo,
                            fs_a.code@.len() as int,
                            hb + 2,
                            reg,
                            fs.max_stack as int,
                            2,
                            env,
                            eval::<N>(lhs, env),
                            eval::<N>(r_e, env).mul_spec(m1),
                        );
                        lhs = AExpr::Bin(AOp::Sub, Box::new(lhs), Box::new(r_e));
                    }
                }
            } else {
                self.emit(fs, crate::opcode::add(reg, reg, rhs))?;
                proof {
                    lemma_prefix_trans(fs_b.code@, fs_b.code@, fs.code@);
                    if frag {
                        let hb = fs_b.code@.len() as int;
                        lemma_seg_extend(
                            fs_b.code@,
                            fs_b.consts@,
                            fs.code@,
                            fs.consts@,
                            fs_a.code@.len() as int,
                            hb,
                            rhs as int,
                            fs_b.max_stack as int,
                            fs.max_stack as int,
                            env,
                            Value::Number(eval::<N>(r_e, env)),
                        );
                        lemma_seg_extend(
                            fs_a.code@,
                            fs_a.consts@,
                            fs.code@,
                            fs.consts@,
                            lo,
                            fs_a.code@.len() as int,
                            reg as int,
                            fs_a.max_stack as int,
                            fs.max_stack as int,
                            env,
                            Value::Number(eval::<N>(lhs, env)),
                        );
                        lemma_seg_arith(
                            fs.code@,
                            fs.consts@,
                            lo,
                            fs_a.code@.len() as int,
                            hb,
                            reg,
                            fs.max_stack as int,
                            2,
                            env,
                            eval::<N>(lhs, env),
                            eval::<N>(r_e, env),
                        );
                        lhs = AExpr::Bin(AOp::Add, Box::new(lhs), Box::new(r_e));
                    }
                }
            }
            proof {
                lemma_prefix_trans(old(fs).code@, fs_a.code@, fs.code@);
                lemma_prefix_trans(old(fs).consts@, fs_a.consts@, fs.consts@);
            }
            fs.free = reg as usize + 1;
        }
        Ok(reg)
    }

    /// `unary { ('*' | '/') unary }`
    fn term(&mut self, fs: &mut FuncState<N>, depth: usize) -> (r: Result<u32, CompileError>)
        requires
            old(self).wf(),
            old(fs).wf(),
        ensures
            frag_ok(
                p_term(models(old(self).toks@), old(self).pos as int, names_of(old(fs).locals@)),
                *old(fs),
                *final(fs),
                old(self).pos as int,
                final(self).pos as int,
                old(self).toks@.len() as int,
                depth as int,
                r,
            ),
            lit_frag(models(old(self).toks@), old(self).pos as int, *old(fs), depth as int) ==> lit_ok(
                models(old(self).toks@),
                old(self).pos as int,
                *old(fs),
                *final(fs),
                final(self).pos as int,
                r,
            ),
            prefix(old(fs).code@, final(fs).code@),
            prefix(old(fs).consts@, final(fs).consts@),
            r matches Err(e) ==> !(e is Io),
            r matches Err(e) ==> err_at(e, models(old(self).toks@)),
            final(self).wf(),
            final(self).moved(old(self)),
            final(fs).wf(),
            final(fs).grew(old(fs)),
            final(fs).locals == old(fs).locals,
            final(fs).env == old(fs).env,
            r matches Ok(reg) ==> reg == old(fs).free && final(fs).free == old(fs).free + 1
                && final(self).pos > old(self).pos,
        decreases depth, 3nat,
    {
        let ghost names = names_of(fs.locals@);
        let ghost env = fs.env@;
        let ghost ts = models(self.toks@);
        let ghost pos0 = self.pos as int;
        let ghost lo = fs.code@.len() as int;
        let ghost frag = p_term(ts, pos0, names) is Some && budget(*old(fs), pos0, ts.len() as int, depth as int);
        let reg = self.unary(fs, depth)?;
        let ghost litf = lit_frag(ts, pos0, *old(fs), depth as int);
        let ghost mut lhs: AExpr = if frag {
            p_unary(ts, pos0, names)->Some_0.0
        } else {
            AExpr::Num(Seq::empty())
        };
        loop
            invariant
                self.wf(),
                self.moved(old(self)),
                self.pos > old(self).pos,
                fs.wf(),
                fs.grew(old(fs)),
                fs.locals == old(fs).locals,
                fs.env == old(fs).env,
                reg == old(fs).free,
                fs.free == old(fs).free + 1,
                ts == models(self.toks@),
                names == names_of(old(fs).locals@),
                env == old(fs).env@,
                pos0 == old(self).pos as int,
                lo == old(fs).code@.len() as int,
                prefix(old(fs).code@, fs.code@),
                prefix(old(fs).consts@, fs.consts@),
                frag == (p_term(ts, pos0, names) is Some && budget(*old(fs), pos0, ts.len() as int, depth as int)),
                litf == lit_frag(ts, pos0, *old(fs), depth as int),
                litf ==> lit_ok(ts, pos0, *old(fs), *fs, self.pos as int, Ok::<u32, CompileError>(reg)),
                frag ==> p_term_rest(ts, lhs, self.pos as int, names) == p_term(ts, pos0, names) && seg(
                    fs.code@,
                    fs.consts@,
                    lo,
                    fs.code@.len() as int,
                    reg as int,
                    fs.max_stack as int,
                    env,
                    Value::Number(eval::<N>(lhs, env)),
                ) && grown_by(*old(fs), *fs, pos0, self.pos as int),
            ensures
                frag ==> tg(ts, self.pos as int) != TokenTag::Star && tg(ts, self.pos as int)
                    != TokenTag::Slash,
            decreases self.toks@.len() - self.pos,
        {
            let t = self.peek();
            if t != TokenTag::Star && t != TokenTag::Slash {
                break;
            }
            let p0 = self.pos;
            self.advance();
            if self.pos == p0 {
                break;
            }
            let ghost fs_a = *fs;
            let rhs = self.unary(fs, depth)?;
            let ghost fs_b = *fs;
            let ghost r_e: AExpr = if frag {
                p_unary(ts, p0 + 1, names)->Some_0.0
            } else {
                AExpr::Num(Seq::empty())
            };
            let op: u32 = if t == TokenTag::Star {
                11
            } else {
                12
            };
            if t == TokenTag::Star {
                self.emit(fs, crate::opcode::mul(reg, reg, rhs))?;
            } else {
                self.emit(fs, div(reg, reg, rhs))?;
            }
            proof {
                lemma_prefix_trans(old(fs).code@, fs_a.code@, fs.code@);
                lemma_prefix_trans(old(fs).consts@, fs_a.consts@, fs.consts@);
                if frag {
                    let hb = fs_b.code@.len() as int;
                    lemma_seg_extend(
                        fs_b.code@,
                        fs_b.consts@,
                        fs.code@,
                        fs.consts@,
                        fs_a.code@.len() as int,
                        hb,
                        rhs as int,
                        fs_b.max_stack as int,
                        fs.max_stack as int,
                        env,
                        Value::Number(eval::<N>(r_e, env)),
                    );
                    lemma_prefix_trans(fs_a.code@, fs_b.code@, fs.code@);
                    lemma_seg_extend(
                        fs_a.code@,
                        fs_a.consts@,
                        fs.code@,
                        fs.consts@,
                        lo,
                        fs_a.code@.len() as int,
                        reg as int,
                        fs_a.max_stack as int,
                        fs.max_stack as int,
                        env,
                        Value::Number(eval::<N>(lhs, env)),
                    );
                    lemma_seg_arith(
                        fs.code@,
                        fs.consts@,
                        lo,
                        fs_a.code@.len() as int,
                        hb,
                        reg,
                        fs.max_stack as int,
                        op,
                        env,
                        eval::<N>(lhs, env),
                        eval::<N>(r_e, env),
                    );
                    lhs = AExpr::Bin(
                        if op == 11 {
                            AOp::Mul
                        } else {
                            AOp::Div
                        },
                        Box::new(lhs),
                        Box::new(r_e),
                    );
                }
            }
            fs.free = reg as usize + 1;
        }
        Ok(reg)
    }

    /// `'-' unary | suffixed`; `-e` is `e * -1`.
    fn unary(&mut self, fs: &mut FuncState<N>, depth: usize) -> (r: Result<u32, CompileError>)
        requires
            old(self).wf(),
            old(fs).wf(),
        ensures
            frag_ok(
                p_unary(models(old(self).toks@), old(self).pos as int, names_of(old(fs).locals@)),
                *old(fs),
                *final(fs),
                old(self).pos as int,
                final(self).pos as int,
                old(self).toks@.len() as int,
                depth as int,
                r,
            ),
            lit_frag(models(old(self).toks@), old(self).pos as int, *old(fs), depth as int) ==> lit_ok(
                models(old(self).toks@),
                old(self).pos as int,
                *old(fs),
                *final(fs),
                final(self).pos as int,
                r,
            ),
            prefix(old(fs).code@, final(fs).code@),
            prefix(old(fs).consts@, final(fs).consts@),
            r matches Err(e) ==> !(e is Io),
            r matches Err(e) ==> err_at(e, models(old(self).toks@)),
            final(self).wf(),
            final(self).moved(old(self)),
            final(fs).wf(),
            final(fs).grew(old(fs)),
            final(fs).locals == old(fs).locals,
            final(fs).env == old(fs).env,
            r matches Ok(reg) ==> reg == old(fs).free && final(fs).free == old(fs).free + 1
                && final(self).pos > old(self).pos,
        decreases depth, 2nat,
    {
        let ghost names = names_of(fs.locals@);
        let ghost env = fs.env@;
        if self.peek() == TokenTag::Minus {
            if depth == 0 {
                let (line, col) = self.here();
                return Err(codegen_error(line, col, "chunk has too many syntax levels"));
            }
            let ghost ts = models(self.toks@);
            let ghost pos0 = self.pos as int;
            let ghost frag = p_unary(ts, pos0, names) is Some && budget(*old(fs), pos0, ts.len() as int, depth as int);
            self.advance();
            let reg = self.unary(fs, depth - 1)?;
            let ghost fs_a = *fs;
            let m1 = minus_one_exec::<N>();
            let k = self.load_value(fs, Value::Number(m1))?;
            let ghost fs_b = *fs;
            self.emit(fs, crate::opcode::mul(reg, reg, k))?;
            proof {
                lemma_prefix_trans(old(fs).code@, fs_a.code@, fs_b.code@);
                lemma_prefix_trans(old(fs).code@, fs_b.code@, fs.code@);
                lemma_prefix_trans(old(fs).consts@, fs_a.consts@, fs.consts@);
                if frag {
                    let e = p_unary(ts, pos0 + 1, names)->Some_0.0;
                    let ha = fs_a.code@.len() as int;
                    lemma_prefix_trans(fs_a.code@, fs_b.code@, fs.code@);
                    lemma_seg_extend(
                        fs_a.code@,
                        fs_a.consts@,
                        fs.code@,
                        fs.consts@,
                        old(fs).code@.len() as int,
                        ha,
                        reg as int,
                        fs_a.max_stack as int,
                        fs.max_stack as int,
                        env,
                        Value::Number(eval::<N>(e, env)),
                    );
                    lemma_seg_loadk(fs.code@, fs.consts@, ha, k, fs_a.consts@.len() as u32, fs.max_stack as int, env);
                    assert(fs.consts@[fs_a.consts@.len() as int] == Value::Number(m1));
                    lemma_seg_arith(
                        fs.code@,
                        fs.consts@,
                        old(fs).code@.len() as int,
                        ha,
                        ha + 1,
                        reg,
                        fs.max_stack as int,
                        11,
                        env,
                        eval::<N>(e, env),
                        m1,
                    );
                    assert(eval::<N>(AExpr::Neg(Box::new(e)), env) == eval::<N>(e, env).mul_spec(m1));
                }
            }
            fs.free = reg as usize + 1;
            Ok(reg)
        } else {
            self.suffixed(fs, depth)
        }
    }

    /// A primary expression followed by any number of calls.
    fn suffixed(&mut self, fs: &mut FuncState<N>, depth: usize) -> (r: Result<u32, CompileError>)
        requires
            old(self).wf(),
            old(fs).wf(),
        ensures
            frag_ok(
                p_suffixed(models(old(self).toks@), old(self).pos as int, names_of(old(fs).locals@)),
                *old(fs),
                *final(fs),
                old(self).pos as int,
                final(self).pos as int,
                old(self).toks@.len() as int,
                depth as int,
                r,
            ),
            lit_frag(models(old(self).toks@), old(self).pos as int, *old(fs), depth as int) ==> lit_ok(
                models(old(self).toks@),
                old(self).pos as int,
                *old(fs),
                *final(fs),
                final(self).pos as int,
                r,
            ),
            prefix(old(fs).code@, final(fs).code@),
            prefix(old(fs).consts@, final(fs).consts@),
            r matches Err(e) ==> !(e is Io),
            r matches Err(e) ==> err_at(e, models(old(self).toks@)),
            final(self).wf(),
            final(self).moved(old(self)),
            final(fs).wf(),
            final(fs).grew(old(fs)),
            final(fs).locals == old(fs).locals,
            final(fs).env == old(fs).env,
            r matches Ok(reg) ==> reg == old(fs).free && final(fs).free == old(fs).free + 1
                && final(self).pos > old(self).pos,
        decreases depth, 1nat,
    {
        let ghost names = names_of(fs.locals@);
        let ghost env = fs.env@;
        let ghost ts = models(self.toks@);
        let ghost pos0 = self.pos as int;
        let ghost frag = p_suffixed(ts, pos0, names) is Some && budget(*old(fs), pos0, ts.len() as int, depth as int);
        let reg = self.primary(fs, depth)?;
        let ghost litf = lit_frag(ts, pos0, *old(fs), depth as int);
        let ghost fs1 = *fs;
        let ghost q0 = self.pos as int;
        loop
            invariant
                self.wf(),
                self.moved(old(self)),
                self.pos > old(self).pos,
                fs.wf(),
                fs.grew(old(fs)),
                fs.locals == old(fs).locals,
                fs.env == old(fs).env,
                reg == old(fs).free,
                fs.free == old(fs).free + 1,
                ts == models(self.toks@),
                names == names_of(old(fs).locals@),
                env == old(fs).env@,
                prefix(old(fs).code@, fs.code@),
                prefix(old(fs).consts@, fs.consts@),
                frag == (p_suffixed(ts, pos0, names) is Some && budget(*old(fs), pos0, ts.len() as int, depth as int)),
                pos0 == old(self).pos as int,
                frag ==> self.pos == q0 && *fs == fs1,
                litf == lit_frag(ts, pos0, *old(fs), depth as int),
                litf ==> lit_ok(ts, pos0, *old(fs), *fs, self.pos as int, Ok::<u32, CompileError>(reg)),
                frag ==> q0 == p_primary(ts, pos0, names)->Some_0.1,
            decreases self.toks@.len() - self.pos,
        {
            if self.peek() != TokenTag::LParen {
                break;
            }
            let p0 = self.pos;
            self.advance();
            if self.pos == p0 {
                break;
            }
            if depth == 0 {
                let (line, col) = self.here();
                return Err(codegen_error(line, col, "chunk has too many syntax levels"));
            }
            let ghost fs_a = *fs;
            let nargs = self.args(fs, depth - 1)?;
            self.expect(TokenTag::RParen)?;
            let ghost fs_b = *fs;
            self.emit(fs, call(reg, nargs + 1, 2))?;
            proof {
                lemma_prefix_trans(old(fs).code@, fs_a.code@, fs_b.code@);
                lemma_prefix_trans(old(fs).code@, fs_b.code@, fs.code@);
                lemma_prefix_trans(old(fs).consts@, fs_a.consts@, fs.consts@);
            }
            fs.free = reg as usize + 1;
        }
        Ok(reg)
    }

    /// The arguments of a call, into consecutive free registers; gives their count.
    fn args(&mut self, fs: &mut FuncState<N>, depth: usize) -> (r: Result<u32, CompileError>)
        requires
            old(self).wf(),
            old(fs).wf(),
        ensures
            val_frag(models(old(self).toks@), old(self).pos as int, *old(fs), depth as int) ==> r
                == Ok::<u32, CompileError>(1) && val_ok(
                models(old(self).toks@),
                old(self).pos as int,
                *old(fs),
                *final(fs),
                final(self).pos as int,
            ),
            prefix(old(fs).code@, final(fs).code@),
            prefix(old(fs).consts@, final(fs).consts@),
            r matches Err(e) ==> !(e is Io),
            r matches Err(e) ==> err_at(e, models(old(self).toks@)),
            final(self).wf(),
            final(self).moved(old(self)),
            final(fs).wf(),
            final(fs).grew(old(fs)),
            final(fs).locals == old(fs).locals,
            final(fs).env == old(fs).env,
            r matches Ok(n) ==> n <= MAX_REGS,
        decreases depth, 6nat,
    {
        let ghost names = names_of(fs.locals@);
        let ghost env = fs.env@;
        let ghost ts = models(self.toks@);
        let ghost p0 = self.pos as int;
        let ghost frag = val_frag(ts, p0, *old(fs), depth as int);
        proof {
            if frag {
                lemma_expr_starts(ts, p0, names);
            }
        }
        let mut n: u32 = 0;
        if self.peek() == TokenTag::RParen {
            return Ok(0);
        }
        loop
            invariant_except_break
                frag ==> n == 0 && self.pos == p0 && *fs == *old(fs),
            invariant
                self.wf(),
                self.moved(old(self)),
                fs.wf(),
                fs.grew(old(fs)),
                fs.locals == old(fs).locals,
                fs.env == old(fs).env,
                n <= fs.free,
                prefix(old(fs).code@, fs.code@),
                prefix(old(fs).consts@, fs.consts@),
                ts == models(self.toks@),
                names == names_of(old(fs).locals@),
                env == old(fs).env@,
                p0 == old(self).pos as int,
                frag == val_frag(ts, p0, *old(fs), depth as int),
            ensures
                frag ==> n == 1 && val_ok(ts, p0, *old(fs), *fs, self.pos as int),
            decreases self.toks@.len() - self.pos,
        {
            let pp = self.pos;
            let ghost fs_a = *fs;
            self.expr(fs, depth)?;
            proof {
                lemma_prefix_trans(old(fs).code@, fs_a.code@, fs.code@);
                lemma_prefix_trans(old(fs).consts@, fs_a.consts@, fs.consts@);
                if frag {
                    let (c, q) = p_relation(ts, p0, names)->Some_0;
                    match c {
                        CExpr::Arith(e) => {
                            assert(p_expr(ts, p0, names) == Some((e, q)));
                            lemma_seg_cseg(
                                fs.code@,
                                fs.consts@,
                                fs_a.code@.len() as int,
                                fs.code@.len() as int,
                                fs_a.free as int,
                                fs.max_stack as int,
                                env,
                                Value::Number(eval::<N>(e, env)),
                            );
                        },
                        _ => {
                            assert(rel_frag(ts, p0, fs_a, depth as int));
                        },
                    }
                    assert(ts[q] == self.toks@[q].model() || q >= ts.len());
                }
            }
            n = n + 1;
            if self.peek() != TokenTag::Comma {
                break;
            }
            self.advance();
            if self.pos <= pp {
                break;
            }
        }
        Ok(n)
    }

    /// `Number | 'true' | 'false' | 'nil' | Name | '(' expr ')'`
    #[verifier::rlimit(60)]
    #[verifier::spinoff_prover]
    fn primary(&mut self, fs: &mut FuncState<N>, depth: usize) -> (r: Result<u32, CompileError>)
        requires
            old(self).wf(),
            old(fs).wf(),
        ensures
            frag_ok(
                p_primary(models(old(self).toks@), old(self).pos as int, names_of(old(fs).locals@)),
                *old(fs),
                *final(fs),
                old(self).pos as int,
                final(self).pos as int,
                old(self).toks@.len() as int,
                depth as int,
                r,
            ),
            lit_frag(models(old(self).toks@), old(self).pos as int, *old(fs), depth as int) ==> lit_ok(
                models(old(self).toks@),
                old(self).pos as int,
                *old(fs),
                *final(fs),
                final(self).pos as int,
                r,
            ),
            prefix(old(fs).code@, final(fs).code@),
            prefix(old(fs).consts@, final(fs).consts@),
            r matches Err(e) ==> !(e is Io),
            r matches Err(e) ==> err_at(e, models(old(self).toks@)),
            final(self).wf(),
            final(self).moved(old(self)),
            final(fs).wf(),
            final(fs).grew(old(fs)),
            final(fs).locals == old(fs).locals,
            final(fs).env == old(fs).env,
            r matches Ok(reg) ==> reg == old(fs).free && final(fs).free == old(fs).free + 1
                && final(self).pos > old(self).pos,
        decreases depth, 0nat,
    {
        let ghost names = names_of(fs.locals@);
        let ghost env = fs.env@;
        if self.pos >= self.toks.len() {
            return Err(self.parse_error("expression"));
        }
        let ghost ts = models(self.toks@);
        let ghost pos0 = self.pos as int;
        let ghost lo = fs.code@.len() as int;
        assert(ts[pos0] == self.toks@[pos0].model());
        let (line, col) = self.here();
        match &self.toks[self.pos].kind {
            TokenKind::Number(text) => {
                let v = numeral_exec::<N>(text);
                self.advance();
                let r = self.load_value(fs, Value::Number(v));
                proof {
                    if budget(*old(fs), pos0, ts.len() as int, depth as int) {
                        assert(old(fs).free < MAX_REGS - 1);
                        assert(old(fs).code@.len() < MAX_CODE);
                        assert(old(fs).consts@.len() < MARG_BX);
                        assert(r is Ok);
                        let reg = r->Ok_0;
                        lemma_seg_loadk(
                            fs.code@,
                            fs.consts@,
                            lo,
                            reg,
                            old(fs).consts@.len() as u32,
                            fs.max_stack as int,
                            env,
                        );
                        assert(fs.consts@[old(fs).consts@.len() as int] == Value::Number(v));
                        assert(self.pos == pos0 + 1);
                        assert(ts[pos0].text == text@);
                        assert(seg(
                            fs.code@,
                            fs.consts@,
                            lo,
                            fs.code@.len() as int,
                            reg as int,
                            fs.max_stack as int,
                            env,
                            Value::Number(eval::<N>(AExpr::Num(ts[pos0].text), env)),
                        ));
                    }
                }
                r
            },
            TokenKind::True => {
                self.advance();
                let r = self.load_value(fs, Value::Bool(true));
                proof {
                    if lit_frag(ts, pos0, *old(fs), depth as int) {
                        assert(old(fs).free < MAX_REGS - 1);
                        let reg = r->Ok_0;
                        lemma_seg_loadk(
                            fs.code@,
                            fs.consts@,
                            lo,
                            reg,
                            old(fs).consts@.len() as u32,
                            fs.max_stack as int,
                            env,
                        );
                        assert(fs.consts@[old(fs).consts@.len() as int] == Value::<N>::Bool(true));
                    }
                }
                r
            },
            TokenKind::False => {
                self.advance();
                let r = self.load_value(fs, Value::Bool(false));
                proof {
                    if lit_frag(ts, pos0, *old(fs), depth as int) {
                        assert(old(fs).free < MAX_REGS - 1);
                        let reg = r->Ok_0;
                        lemma_seg_loadk(
                            fs.code@,
                            fs.consts@,
                            lo,
                            reg,
                            old(fs).consts@.len() as u32,
                            fs.max_stack as int,
                            env,
                        );
                        assert(fs.consts@[old(fs).consts@.len() as int] == Value::<N>::Bool(false));
                    }
                }
                r
            },
            TokenKind::Nil => {
                self.advance();
                let r = self.load_value(fs, Value::Nil);
                proof {
                    if lit_frag(ts, pos0, *old(fs), depth as int) {
                        assert(old(fs).free < MAX_REGS - 1);
                        let reg = r->Ok_0;
                        lemma_seg_loadk(
                            fs.code@,
                            fs.consts@,
                            lo,
                            reg,
                            old(fs).consts@.len() as u32,
                            fs.max_stack as int,
                            env,
                        );
                        assert(fs.consts@[old(fs).consts@.len() as int] == Value::<N>::Nil);
                    }
                }
                r
            },
            TokenKind::Identifier(name) => {
                let cs = chars_of(name.as_str());
                self.advance();
                match Self::resolve(fs, &cs) {
                    Some(i) => {
                        let reg = self.reserve(fs)?;
                        self.emit(fs, move_(reg, i as u32, 0))?;
                        proof {
                            if budget(*old(fs), pos0, ts.len() as int, depth as int) && p_primary(
                                ts,
                                pos0,
                                names,
                            ) is Some {
                                assert(ts[pos0].text == cs@);
                                assert(names.len() == env.len());
                                lemma_seg_move(
                                    fs.code@,
                                    fs.consts@,
                                    lo,
                                    reg,
                                    i as u32,
                                    fs.max_stack as int,
                                    env,
                                );
                                assert(self.pos == pos0 + 1);
                            }
                        }
                        Ok(reg)
                    },
                    None => match self.resolve_upvalue(fs, &cs)? {
                        Some(j) => {
                            let reg = self.reserve(fs)?;
                            self.emit(fs, get_upval(reg, j as u32, 0))?;
                            Ok(reg)
                        },
                        None => Err(
                            CompileError::Unsupported {
                                line,
                                col,
                                feature: String::from_str("global or outer variable"),
                            },
                        ),
                    },
                }
            },
            TokenKind::LParen => {
                if depth == 0 {
                    return Err(codegen_error(line, col, "chunk has too many syntax levels"));
                }
                self.advance();
                let reg = self.expr(fs, depth - 1)?;
                proof {
                    if budget(*old(fs), pos0, ts.len() as int, depth as int) && p_primary(ts, pos0, names) is Some {
                        assert(ts[pos0].tag == TokenTag::LParen);
                        assert(p_expr(ts, pos0 + 1, names) is Some);
                        assert(budget(*old(fs), pos0 + 1, ts.len() as int, depth - 1));
                        let q = p_expr(ts, pos0 + 1, names)->Some_0.1;
                        assert(self.pos == q);
                        assert(ts[q] == self.toks@[q].model());
                        assert(tg(ts, q) == TokenTag::RParen);
                    }
                }
                self.expect(TokenTag::RParen)?;
                proof {
                    if budget(*old(fs), pos0, ts.len() as int, depth as int) && p_primary(ts, pos0, names) is Some {
                        let e = p_expr(ts, pos0 + 1, names)->Some_0.0;
                        lemma_seg_extend(
                            fs.code@,
                            fs.consts@,
                            fs.code@,
                            fs.consts@,
                            lo,
                            fs.code@.len() as int,
                            reg as int,
                            fs.max_stack as int,
                            fs.max_stack as int,
                            env,
                            Value::Number(eval::<N>(e, env)),
                        );
                    }
                }
                Ok(reg)
            },
            _ => Err(self.parse_error("expression")),
        }
    }

    /// The condition of an `if`, into the first free register.
    #[verifier::rlimit(60)]
    #[verifier::spinoff_prover]
    fn condition(&mut self, fs: &mut FuncState<N>, depth: usize) -> (r: Result<u32, CompileError>)
        requires
            old(self).wf(),
            old(fs).wf(),
        ensures
            cond_frag(models(old(self).toks@), old(self).pos as int, *old(fs), depth as int) ==> cond_ok(
                models(old(self).toks@),
                old(self).pos as int,
                *old(fs),
                *final(fs),
                final(self).pos as int,
                r,
            ),
            prefix(old(fs).code@, final(fs).code@),
            prefix(old(fs).consts@, final(fs).consts@),
            r matches Err(e) ==> !(e is Io),
            r matches Err(e) ==> err_at(e, models(old(self).toks@)),
            final(self).wf(),
            final(self).moved(old(self)),
            final(fs).wf(),
            final(fs).grew(old(fs)),
            final(fs).locals == old(fs).locals,
            final(fs).env == old(fs).env,
            r matches Ok(reg) ==> reg == old(fs).free && final(fs).free == old(fs).free + 1
                && final(self).pos > old(self).pos,
        decreases depth, 6nat,
    {
        let ghost ts = models(self.toks@);
        let ghost p0 = self.pos as int;
        let ghost f0 = *fs;
        let ghost names = names_of(f0.locals@);
        let ghost env = f0.env@;
        let reg = self.expr(fs, depth)?;
        proof {
            if cond_frag(ts, p0, f0, depth as int) {
                let (c, q1) = p_cond(ts, p0, names)->Some_0;
                if lit_frag(ts, p0, f0, depth as int) {
                    assert(lit_value::<N>(ts[p0].tag) == cond_value::<N>(c, env));
                    lemma_seg_cseg(
                        fs.code@,
                        fs.consts@,
                        f0.code@.len() as int,
                        fs.code@.len() as int,
                        reg as int,
                        fs.max_stack as int,
                        env,
                        cond_value::<N>(c, env),
                    );
                } else {
                    match c {
                        CExpr::Arith(e) => {
                            assert(p_expr(ts, p0, names) == Some((e, q1)));
                            lemma_seg_cseg(
                                fs.code@,
                                fs.consts@,
                                f0.code@.len() as int,
                                fs.code@.len() as int,
                                reg as int,
                                fs.max_stack as int,
                                env,
                                cond_value::<N>(c, env),
                            );
                        },
                        _ => {
                            assert(rel_frag(ts, p0, f0, depth as int));
                        },
                    }
                }
            }
        }
        Ok(reg)
    }

    /// `'if' expr 'then' block [ 'else' block ] 'end'`: the condition is
    /// tested with `TEST`; a false one jumps to the `else` block (or past
    /// the end).
    #[verifier::rlimit(100)]
    #[verifier::spinoff_prover]
    fn if_statement(&mut self, fs: &mut FuncState<N>, depth: usize) -> (r: Result<(), CompileError>)
        requires
            old(self).wf(),
            old(fs).wf(),
            old(fs).free == old(fs).locals@.len(),
            tg(models(old(self).toks@), old(self).pos as int) == TokenTag::If,
        ensures
            r matches Err(e) ==> !(e is Io),
            r matches Err(e) ==> err_at(e, models(old(self).toks@)),
            final(self).wf(),
            final(self).moved(old(self)),
            final(fs).wf(),
            final(fs).grew(old(fs)),
            r is Ok ==> final(fs).free == final(fs).locals@.len(),
            r is Ok ==> final(fs).locals@ == old(fs).locals@ && final(fs).env@ == old(fs).env@,
            r is Ok ==> final(self).pos > old(self).pos,
            if_frag(models(old(self).toks@), old(self).pos as int, *old(fs), depth as int) ==> r is Ok
                && if_ok(models(old(self).toks@), old(self).pos as int, *old(fs), *final(fs), final(self).pos as int),
        decreases depth, 7nat,
    {
        let (line, col) = self.here();
        if depth == 0 {
            return Err(codegen_error(line, col, "chunk has too many syntax levels"));
        }
        let ghost ts = models(self.toks@);
        let ghost p0 = self.pos as int;
        let ghost f0 = *fs;
        let ghost names = names_of(f0.locals@);
        let ghost env = f0.env@;
        let ghost frag = if_frag(ts, p0, f0, depth as int);
        let ghost (c, q1) = if frag {
            p_cond(ts, p0 + 1, names)->Some_0
        } else {
            (CExpr::Nil, 0int)
        };
        let ghost (b1, q2) = if frag {
            p_block(ts, q1 + 1, names)->Some_0
        } else {
            (SBlock::Ret(CExpr::Nil), 0int)
        };
        let ghost (b2, q3) = if frag {
            p_block(ts, q2 + 1, names)->Some_0
        } else {
            (SBlock::Ret(CExpr::Nil), 0int)
        };
        proof {
            if frag {
                assert(p_block(ts, p0, names) == Some(
                    (SBlock::If(c, Box::new(b1), Box::new(b2)), q3 + 1),
                ));
            }
        }
        self.advance();
        proof {
            if frag {
                assert(cond_frag(ts, p0 + 1, f0, depth as int));
            }
        }
        let reg = self.condition(fs, depth)?;
        let ghost fs_e = *fs;
        proof {
            if frag {
                assert(ts[q1] == self.toks@[q1].model());
            }
        }
        self.expect(TokenTag::Then)?;
        self.emit(fs, test_(reg, 0, 0))?;
        fs.free = reg as usize;
        let jf = self.emit(fs, jmp(0, MARG_SBX as u32))?;
        let ghost fs_b1 = *fs;
        proof {
            if frag {
                assert(names_of(fs_b1.locals@) == names);
                assert(block_frag(ts, q1 + 1, fs_b1, depth - 1));
            }
        }
        self.block(fs, depth - 1)?;
        let ghost fs_e1 = *fs;
        proof {
            if frag {
                assert(ts[q2] == self.toks@[q2].model());
            }
        }
        if self.peek() == TokenTag::Else {
            let jend = self.emit(fs, jmp(0, MARG_SBX as u32))?;
            let ghost fs_j = *fs;
            self.patch_jump(fs, jf);
            let ghost fs_p = *fs;
            self.advance();
            let ghost fs_b2 = *fs;
            proof {
                if frag {
                    assert(names_of(fs_b2.locals@) == names);
                    assert(block_frag(ts, q2 + 1, fs_b2, depth - 1));
                }
            }
            self.block(fs, depth - 1)?;
            let ghost fs_e2 = *fs;
            proof {
                if frag {
                    assert(ts[q3] == self.toks@[q3].model());
                }
            }
            self.expect(TokenTag::End)?;
            self.patch_jump(fs, jend);
            proof {
                if frag {
                    let s0 = f0.code@.len() as int;
                    assert(rblock(
                        fs.code@,
                        fs.consts@,
                        s0,
                        fs.code@.len() as int,
                        fs.max_stack as int,
                        env,
                        if truthy(cond_value::<N>(c, env)) { block_value::<N>(b1, env) } else { block_value::<N>(b2, env) },
                    ) && prefix(f0.code@, fs.code@) && prefix(f0.consts@, fs.consts@)) by {
                        let s0 = f0.code@.len() as int;
                        let a = fs_e.code@.len() as int;
                        let e1 = fs_e1.code@.len() as int;
                        let e2 = fs_e2.code@.len() as int;
                        let fin = fs.code@;
                        // the condition's code
                        lemma_wprefix_trans(fs_e.code@, fs_b1.code@, fs_e1.code@, s0);
                        lemma_wprefix_trans(fs_e.code@, fs_e1.code@, fs_j.code@, s0);
                        lemma_wprefix_update(
                            fs_e.code@,
                            fs_j.code@,
                            s0,
                            jf as int,
                            abx_of(5, 0, fs_j.code@.len() - (jf + 1) + MARG_SBX) as u32,
                        );
                        lemma_wprefix_trans(fs_e.code@, fs_p.code@, fs_e2.code@, s0);
                        lemma_wprefix_update(
                            fs_e.code@,
                            fs_e2.code@,
                            s0,
                            jend as int,
                            abx_of(5, 0, fs_e2.code@.len() - (jend + 1) + MARG_SBX) as u32,
                        );
                        lemma_prefix_trans(fs_e.consts@, fs_b1.consts@, fs_e1.consts@);
                        lemma_prefix_trans(fs_e.consts@, fs_e1.consts@, fs_e2.consts@);
                        lemma_cseg_extend(
                            fs_e.code@,
                            fs_e.consts@,
                            fin,
                            fs.consts@,
                            s0,
                            a,
                            reg as int,
                            fs_e.max_stack as int,
                            fs.max_stack as int,
                            env,
                            cond_value::<N>(c, env),
                        );
                        // the first block
                        lemma_wprefix_trans(fs_e1.code@, fs_j.code@, fs_j.code@, a + 2);
                        lemma_wprefix_update(
                            fs_e1.code@,
                            fs_j.code@,
                            a + 2,
                            jf as int,
                            abx_of(5, 0, fs_j.code@.len() - (jf + 1) + MARG_SBX) as u32,
                        );
                        lemma_wprefix_trans(fs_e1.code@, fs_p.code@, fs_e2.code@, a + 2);
                        lemma_wprefix_update(
                            fs_e1.code@,
                            fs_e2.code@,
                            a + 2,
                            jend as int,
                            abx_of(5, 0, fs_e2.code@.len() - (jend + 1) + MARG_SBX) as u32,
                        );
                        lemma_prefix_trans(fs_e1.consts@, fs_e1.consts@, fs_e2.consts@);
                        lemma_rblock_extend(
                            fs_e1.code@,
                            fs_e1.consts@,
                            fin,
                            fs.consts@,
                            a + 2,
                            e1,
                            fs_e1.max_stack as int,
                            fs.max_stack as int,
                            env,
                            block_value::<N>(b1, env),
                        );
                        // the second block
                        lemma_wprefix_update(
                            fs_e2.code@,
                            fs_e2.code@,
                            e1 + 1,
                            jend as int,
                            abx_of(5, 0, fs_e2.code@.len() - (jend + 1) + MARG_SBX) as u32,
                        );
                        lemma_rblock_extend(
                            fs_e2.code@,
                            fs_e2.consts@,
                            fin,
                            fs.consts@,
                            e1 + 1,
                            e2,
                            fs_e2.max_stack as int,
                            fs.max_stack as int,
                            env,
                            block_value::<N>(b2, env),
                        );
                        assert(fin[a] == fs_e1.code@[a]);
                        assert(fin[a + 1] == abx_of(5, 0, e1 - a - 1 + MARG_SBX) as u32);
                        lemma_rblock_if(
                            fin,
                            fs.consts@,
                            s0,
                            a,
                            e1,
                            e2,
                            fs.max_stack as int,
                            env,
                            cond_value::<N>(c, env),
                            block_value::<N>(b1, env),
                            block_value::<N>(b2, env),
                        );
                        lemma_prefix_trans(f0.consts@, fs_e.consts@, fs.consts@);
                        assert(prefix(f0.code@, fin));
                    }
                }
            }
        } else {
            self.expect(TokenTag::End)?;
            self.patch_jump(fs, jf);
        }
        Ok(())
    }

    /// Loads, for each descriptor `descs[k]`, the variable it describes into
    /// register `reg + 1 + k`: the code that precedes `CLOSURE reg id n`.
    fn emit_captures(&self, fs: &mut FuncState<N>, descs: &Vec<(bool, usize)>, reg: u32) -> (r: Result<
        (),
        CompileError,
    >)
        requires
            self.wf(),
            old(fs).wf(),
            old(fs).free == reg + 1,
            descs@.len() <= MAX_UPVALS,
            forall|q: int| 0 <= q < descs@.len() ==> #[trigger] descs@[q].1 < MAX_REGS + MAX_UPVALS,
        ensures
            r matches Err(e) ==> !(e is Io),
            r matches Err(e) ==> err_at(e, models(self.toks@)),
            final(fs).wf(),
            final(fs).grew(old(fs)),
            final(fs).locals == old(fs).locals,
            final(fs).env == old(fs).env,
            r is Ok ==> final(fs).consts == old(fs).consts,
            r is Ok ==> final(fs).code@ == old(fs).code@ + capture_code(reg as int, descs@),
            r is Ok ==> final(fs).free == reg + 1 + descs@.len(),
    {
        let mut j: usize = 0;
        proof {
            reveal(capture_code);
            assert(capture_code(reg as int, descs@.take(0)) =~= Seq::<u32>::empty());
            assert(fs.code@ =~= old(fs).code@ + Seq::<u32>::empty());
        }
        while j < descs.len()
            invariant
                self.wf(),
                fs.wf(),
                fs.grew(old(fs)),
                fs.locals == old(fs).locals,
                fs.env == old(fs).env,
                fs.consts == old(fs).consts,
                fs.free == reg + 1 + j,
                j <= descs@.len(),
                descs@.len() <= MAX_UPVALS,
                forall|q: int| 0 <= q < descs@.len() ==> #[trigger] descs@[q].1 < MAX_REGS + MAX_UPVALS,
                fs.code@ == old(fs).code@ + capture_code(reg as int, descs@.take(j as int)),
            decreases descs@.len() - j,
        {
            let ghost c0 = fs.code@;
            let (in_stack, idx) = descs[j];
            let r2 = self.reserve(fs)?;
            if in_stack {
                self.emit(fs, move_(r2, idx as u32, 0))?;
            } else {
                self.emit(fs, get_upval(r2, idx as u32, 0))?;
            }
            proof {
                reveal(capture_code);
                assert(capture_code(reg as int, descs@.take(j + 1)) =~= capture_code(
                    reg as int,
                    descs@.take(j as int),
                ).push(capture_ins(reg + 1 + j, descs@[j as int])));
                assert(fs.code@ =~= old(fs).code@ + capture_code(reg as int, descs@.take(j + 1)));
            }
            j = j + 1;
        }
        assert(descs@.take(j as int) =~= descs@);
        Ok(())
    }

    /// A statement; temporaries are released afterwards.
    #[verifier::rlimit(100)]
    #[verifier::spinoff_prover]
    fn statement(&mut self, fs: &mut FuncState<N>, depth: usize) -> (r: Result<(), CompileError>)
        requires
            old(self).wf(),
            old(fs).wf(),
            old(fs).free == old(fs).locals@.len(),
        ensures
            r matches Err(e) ==> !(e is Io),
            r matches Err(e) ==> err_at(e, models(old(self).toks@)),
            final(self).wf(),
            final(self).moved(old(self)),
            final(fs).wf(),
            final(fs).grew(old(fs)),
            r is Ok ==> final(fs).free == final(fs).locals@.len(),
            r is Ok ==> final(fs).locals@.len() >= old(fs).locals@.len(),
            r is Ok ==> final(self).pos > old(self).pos,
            local_frag(models(old(self).toks@), old(self).pos as int, *old(fs), depth as int) ==> r is Ok
                && local_ok(models(old(self).toks@), old(self).pos as int, *old(fs), *final(fs), final(self).pos as int),
            if_frag(models(old(self).toks@), old(self).pos as int, *old(fs), depth as int) ==> r is Ok
                && if_ok(models(old(self).toks@), old(self).pos as int, *old(fs), *final(fs), final(self).pos as int),
            r is Ok ==> final(fs).locals@.subrange(0, old(fs).locals@.len() as int) == old(fs).locals@,
            r is Ok ==> final(fs).env@.subrange(0, old(fs).env@.len() as int) == old(fs).env@,
        decreases depth, 8nat,
    {
        let (line, col) = self.here();
        let t = self.peek();
        if t == TokenTag::Local {
            self.advance();
            if self.peek() == TokenTag::Function {
                self.advance();
                let name = self.expect_name()?;
                if depth == 0 {
                    return Err(codegen_error(line, col, "chunk has too many syntax levels"));
                }
                let (id, descs) = self.function_body(fs, depth - 1)?;
                if descs.len() == 0 {
                    self.load_value(fs, Value::LFn(id))?;
                } else {
                    if id > 511 {
                        return Err(codegen_error(line, col, "too many functions"));
                    }
                    let reg = self.reserve(fs)?;
                    self.emit_captures(fs, &descs, reg)?;
                    self.emit(fs, closure(reg, id as u32, descs.len() as u32))?;
                    fs.free = reg as usize + 1;
                }
                fs.locals.push(name);
                fs.env = Ghost(fs.env@.push(N::digit_spec(0)));
                assert(fs.free == fs.locals@.len());
                assert(fs.locals@.subrange(0, old(fs).locals@.len() as int) =~= old(fs).locals@);
                assert(fs.env@.subrange(0, old(fs).env@.len() as int) =~= old(fs).env@);
                Ok(())
            } else {
                let ghost ts = models(self.toks@);
                let ghost p0 = old(self).pos as int;
                let ghost frag = local_frag(ts, p0, *old(fs), depth as int);
                proof {
                    if frag {
                        assert(self.pos == p0 + 1);
                    }
                }
                let name = self.expect_name()?;
                proof {
                    if frag {
                        assert(ts[p0 + 2] == self.toks@[p0 + 2].model());
                    }
                }
                self.expect(TokenTag::Assign)?;
                let ghost fs_a = *fs;
                self.expr(fs, depth)?;
                let ghost x: N = match p_expr(ts, p0 + 3, names_of(fs_a.locals@)) {
                    Some((e, _q)) => eval::<N>(e, fs_a.env@),
                    None => N::digit_spec(0),
                };
                proof {
                    lemma_names_push(fs.locals@, name);
                }
                fs.locals.push(name);
                fs.env = Ghost(fs.env@.push(x));
                assert(fs.locals@.subrange(0, old(fs).locals@.len() as int) =~= old(fs).locals@);
                assert(fs.env@.subrange(0, old(fs).env@.len() as int) =~= old(fs).env@);
                Ok(())
            }
        } else if t == TokenTag::If {
            let r = self.if_statement(fs, depth);
            proof {
                if r is Ok {
                    assert(fs.locals@.subrange(0, old(fs).locals@.len() as int) =~= fs.locals@);
                    assert(fs.env@.subrange(0, old(fs).env@.len() as int) =~= fs.env@);
                }
            }
            r
        } else if t == TokenTag::Function {
            Err(
                CompileError::Unsupported {
                    line,
                    col,
                    feature: String::from_str("global function definition"),
                },
            )
        } else if t == TokenTag::Identifier || t == TokenTag::LParen {
            let n0: usize = fs.code.len();
            let reg = self.expr(fs, depth)?;
            let is_call = fs.code.len() > n0 && crate::opcode::op(&fs.code[fs.code.len() - 1]) == 7;
            if !is_call {
                return Err(self.parse_error("function call"));
            }
            fs.free = reg as usize;
            assert(fs.locals@.subrange(0, old(fs).locals@.len() as int) =~= old(fs).locals@);
            assert(fs.env@.subrange(0, old(fs).env@.len() as int) =~= old(fs).env@);
            Ok(())
        } else {
            Err(self.parse_error("statement"))
        }
    }

    /// A block: statements, then an optional `return`.  Its locals go out of
    /// scope at its end.
    #[verifier::rlimit(80)]
    #[verifier::spinoff_prover]
    fn block(&mut self, fs: &mut FuncState<N>, depth: usize) -> (r: Result<(), CompileError>)
        requires
            old(self).wf(),
            old(fs).wf(),
            old(fs).free == old(fs).locals@.len(),
        ensures
            block_frag(models(old(self).toks@), old(self).pos as int, *old(fs), depth as int) ==> r is Ok
                && block_ok(models(old(self).toks@), old(self).pos as int, *old(fs), *final(fs), final(self).pos as int),
            r matches Err(e) ==> !(e is Io),
            r matches Err(e) ==> err_at(e, models(old(self).toks@)),
            final(self).wf(),
            final(self).moved(old(self)),
            final(fs).wf(),
            final(fs).grew(old(fs)),
            r is Ok ==> final(fs).free == final(fs).locals@.len(),
            r is Ok ==> final(fs).locals@.len() == old(fs).locals@.len(),
            r is Ok ==> final(fs).locals@ == old(fs).locals@ && final(fs).env@ == old(fs).env@,
        decreases depth, 9nat,
    {
        let ghost ts = models(self.toks@);
        let ghost p0 = self.pos as int;
        let ghost frag = block_frag(ts, p0, *old(fs), depth as int);
        let ghost lo0 = fs.code@.len() as int;
        let ghost env0 = fs.env@;
        let ghost (b0, q0) = if frag {
            p_block(ts, p0, names_of(fs.locals@))->Some_0
        } else {
            (SBlock::Ret(CExpr::Nil), 0int)
        };
        let ghost v0 = block_value::<N>(b0, env0);
        let ghost mut cur: SBlock = b0;
        let ghost mut done = false;
        proof {
            if frag {
                lemma_pseg_empty(fs.code@, fs.consts@, lo0, fs.max_stack as int, env0);
            }
        }
        let nlocals: usize = fs.locals.len();
        assert(fs.locals@.subrange(0, nlocals as int) =~= fs.locals@);
        assert(fs.env@.subrange(0, nlocals as int) =~= fs.env@);
        loop
            invariant
                self.wf(),
                self.moved(old(self)),
                fs.wf(),
                fs.grew(old(fs)),
                fs.free == fs.locals@.len(),
                fs.locals@.len() >= nlocals,
                nlocals == old(fs).locals@.len(),
                fs.locals@.subrange(0, nlocals as int) == old(fs).locals@,
                fs.env@.subrange(0, nlocals as int) == old(fs).env@,
                ts == models(self.toks@),
                p0 == old(self).pos as int,
                lo0 == old(fs).code@.len() as int,
                env0 == old(fs).env@,
                frag == block_frag(ts, p0, *old(fs), depth as int),
                v0 == block_value::<N>(b0, env0),
                frag ==> budget(*fs, self.pos as int, ts.len() as int, depth as int),
                frag ==> grown_by(*old(fs), *fs, p0, self.pos as int),
                frag ==> prefix(old(fs).code@, fs.code@) && prefix(old(fs).consts@, fs.consts@),
                frag && !done ==> p_block(ts, self.pos as int, names_of(fs.locals@)) == Some((cur, q0)),
                frag && !done ==> block_value::<N>(cur, fs.env@) == v0,
                frag && !done ==> pseg(fs.code@, fs.consts@, lo0, fs.code@.len() as int, fs.max_stack as int, env0, fs.env@),
                frag && done ==> self.pos == q0 && block_end(ts, q0) && rblock(
                    fs.code@,
                    fs.consts@,
                    lo0,
                    fs.code@.len() as int,
                    fs.max_stack as int,
                    env0,
                    v0,
                ),
            ensures
                frag ==> (done && self.pos == q0) || (!done && cur is Ret && tg(ts, self.pos as int)
                    == TokenTag::Return),
            decreases self.toks@.len() - self.pos,
        {
            let t = self.peek();
            if t == TokenTag::End || t == TokenTag::Else || t == TokenTag::Eof || t
                == TokenTag::Return {
                break;
            }
            let ghost fs_a = *fs;
            let ghost pa = self.pos as int;
            proof {
                if frag {
                    assert(!done);
                    if cur is Local {
                        assert(local_frag(ts, pa, fs_a, depth as int));
                    } else {
                        assert(cur is If);
                        assert(if_frag(ts, pa, fs_a, depth as int));
                    }
                }
            }
            self.statement(fs, depth)?;
            proof {
                assert(fs.locals@.subrange(0, nlocals as int) =~= fs.locals@.subrange(
                    0,
                    fs_a.locals@.len() as int,
                ).subrange(0, nlocals as int));
                assert(fs.env@.subrange(0, nlocals as int) =~= fs.env@.subrange(
                    0,
                    fs_a.env@.len() as int,
                ).subrange(0, nlocals as int));
                if frag {
                    lemma_prefix_trans(old(fs).code@, fs_a.code@, fs.code@);
                    lemma_prefix_trans(old(fs).consts@, fs_a.consts@, fs.consts@);
                    lemma_pseg_extend(
                        fs_a.code@,
                        fs_a.consts@,
                        fs.code@,
                        fs.consts@,
                        lo0,
                        fs_a.code@.len() as int,
                        fs_a.max_stack as int,
                        fs.max_stack as int,
                        env0,
                        fs_a.env@,
                    );
                    match cur {
                        SBlock::Local(e, rest) => {
                            let x = eval::<N>(e, fs_a.env@);
                            lemma_pseg_seg(
                                fs.code@,
                                fs.consts@,
                                lo0,
                                fs_a.code@.len() as int,
                                fs.code@.len() as int,
                                fs.max_stack as int,
                                env0,
                                fs_a.env@,
                                x,
                            );
                            cur = *rest;
                        },
                        _ => {
                            lemma_rblock_pre(
                                fs.code@,
                                fs.consts@,
                                lo0,
                                fs_a.code@.len() as int,
                                fs.code@.len() as int,
                                fs.max_stack as int,
                                env0,
                                fs_a.env@,
                                v0,
                            );
                            done = true;
                        },
                    }
                }
            }
        }
        if self.peek() == TokenTag::Return {
            let ghost pr = self.pos as int;
            self.advance();
            let ghost ret_c = match cur {
                SBlock::Ret(c) => c,
                _ => CExpr::Nil,
            };
            proof {
                if frag {
                    assert(p_relation(ts, pr + 1, names_of(fs.locals@)) == Some((ret_c, q0)));
                    assert(p_sum(ts, pr + 1, names_of(fs.locals@)) is Some);
                    lemma_expr_starts(ts, self.pos as int, names_of(fs.locals@));
                    assert(ts[q0] == self.toks@[q0].model());
                    assert(val_frag(ts, self.pos as int, *fs, depth as int));
                }
            }
            let t = self.peek();
            if t == TokenTag::End || t == TokenTag::Else || t == TokenTag::Eof {
                self.emit(fs, return_(0, 1, 0))?;
            } else {
                let first = fs.free as u32;
                let ghost fs_a = *fs;
                let n = self.args(fs, depth)?;
                proof {
                    if frag {
                        assert(self.pos == q0);
                    }
                }
                let ghost fs_b = *fs;
                self.emit(fs, return_(first, n + 1, 0))?;
                proof {
                    if frag {
                        let v = cond_value::<N>(ret_c, fs_a.env@);
                        lemma_cseg_extend(
                            fs_b.code@,
                            fs_b.consts@,
                            fs.code@,
                            fs.consts@,
                            fs_a.code@.len() as int,
                            fs_b.code@.len() as int,
                            first as int,
                            fs_b.max_stack as int,
                            fs.max_stack as int,
                            fs_a.env@,
                            v,
                        );
                        lemma_pseg_extend(
                            fs_a.code@,
                            fs_a.consts@,
                            fs.code@,
                            fs.consts@,
                            lo0,
                            fs_a.code@.len() as int,
                            fs_a.max_stack as int,
                            fs.max_stack as int,
                            env0,
                            fs_a.env@,
                        );
                        lemma_rblock_ret(
                            fs.code@,
                            fs.consts@,
                            lo0,
                            fs_a.code@.len() as int,
                            fs_b.code@.len() as int,
                            fs.max_stack as int,
                            env0,
                            fs_a.env@,
                            v,
                        );
                        lemma_prefix_trans(old(fs).code@, fs_a.code@, fs.code@);
                        lemma_prefix_trans(old(fs).consts@, fs_a.consts@, fs.consts@);
                    }
                }
            }
            let t = self.peek();
            if t != TokenTag::End && t != TokenTag::Else && t != TokenTag::Eof {
                return Err(self.parse_error("end"));
            }
        }
        fs.locals.truncate(nlocals);
        fs.env = Ghost(fs.env@.subrange(0, nlocals as int));
        fs.free = nlocals;
        Ok(())
    }

    /// `'(' params ')' block 'end'`: compiles a function and adds its
    /// prototype; gives the prototype's index.
    fn function_body(&mut self, parent: &FuncState<N>, depth: usize) -> (r: Result<
        (usize, Vec<(bool, usize)>),
        CompileError,
    >)
        requires
            old(self).wf(),
            parent.wf(),
        ensures
            r matches Err(e) ==> !(e is Io),
            r matches Err(e) ==> err_at(e, models(old(self).toks@)),
            final(self).wf(),
            final(self).moved(old(self)),
            r matches Ok((id, descs)) ==> id < final(self).protos@.len() && descs@.len() <= MAX_UPVALS
                && forall|q: int| 0 <= q < descs@.len() ==> #[trigger] descs@[q].1 < MAX_REGS
                + MAX_UPVALS,
        decreases depth, 10nat,
    {
        self.expect(TokenTag::LParen)?;
        let mut outer: Vec<Vec<char>> = Vec::new();
        let mut i: usize = 0;
        while i < parent.locals.len()
            invariant
                i <= parent.locals@.len(),
                outer@.len() == i,
                parent.wf(),
            decreases parent.locals@.len() - i,
        {
            outer.push(copy_chars(&parent.locals[i]));
            i = i + 1;
        }
        let outer_locals: usize = outer.len();
        let mut i: usize = 0;
        while i < parent.upvals.len()
            invariant
                i <= parent.upvals@.len(),
                outer@.len() == outer_locals + i,
                outer_locals == parent.locals@.len(),
                parent.wf(),
            decreases parent.upvals@.len() - i,
        {
            outer.push(copy_chars(&parent.upvals[i]));
            i = i + 1;
        }
        let mut fs: FuncState<N> = FuncState {
            code: Vec::new(),
            consts: Vec::new(),
            locals: Vec::new(),
            free: 0,
            max_stack: 0,
            upvals: Vec::new(),
            up_descs: Vec::new(),
            outer,
            outer_locals,
            env: Ghost(Seq::empty()),
        };
        if self.peek() != TokenTag::RParen {
            loop
                invariant
                    self.wf(),
                    self.moved(old(self)),
                    fs.wf(),
                    fs.free == fs.locals@.len(),
                decreases self.toks@.len() - self.pos,
            {
                let name = self.expect_name()?;
                self.reserve(&mut fs)?;
                fs.locals.push(name);
                fs.env = Ghost(fs.env@.push(N::digit_spec(0)));
                if self.peek() != TokenTag::Comma {
                    break;
                }
                self.advance();
            }
        }
        self.expect(TokenTag::RParen)?;
        let num_params: usize = fs.locals.len();
        self.block(&mut fs, depth)?;
        self.expect(TokenTag::End)?;
        self.emit(&mut fs, return_(0, 1, 0))?;
        let id: usize = self.protos.len();
        self.protos.push(
            Proto {
                code: fs.code,
                consts: fs.consts,
                num_params,
                is_vararg: false,
                max_stack: fs.max_stack,
            },
        );
        Ok((id, fs.up_descs))
    }

    /// Compiles the whole chunk: its prototype is placed at index 0.
    pub fn chunk(toks: Vec<Token>) -> (r: Result<Vec<Proto<N>>, CompileError>)
        ensures
            r matches Err(e) ==> !(e is Io),
            r matches Err(e) ==> err_at(e, models(toks@)),
            r matches Ok(ps) ==> ps@.len() >= 1 && protos_small(ps@) && ps@[0].num_params == 0,
            match p_block(models(toks@), 0, Seq::empty()) {
                Some((b, q)) => models(toks@)[q].tag == TokenTag::Eof && toks@.len() <= 200 ==> (r matches Ok(
                    ps,
                ) && main_returns(ps@, block_value::<N>(b, Seq::empty()))),
                None => true,
            },
    {
        let ghost ts = models(toks@);
        let mut p: Parser<N> = Parser { toks, pos: 0, protos: Vec::new() };
        p.protos.push(
            Proto { code: Vec::new(), consts: Vec::new(), num_params: 0, is_vararg: true, max_stack: 0 },
        );
        let mut fs: FuncState<N> = FuncState {
            code: Vec::new(),
            consts: Vec::new(),
            locals: Vec::new(),
            free: 0,
            max_stack: 0,
            upvals: Vec::new(),
            up_descs: Vec::new(),
            outer: Vec::new(),
            outer_locals: 0,
            env: Ghost(Seq::empty()),
        };
        let ghost fs0 = fs;
        let ghost frag = match p_block(ts, 0, Seq::empty()) {
            Some((_b, q)) => ts[q].tag == TokenTag::Eof && ts.len() <= 200,
            None => false,
        };
        proof {
            assert(names_of(fs0.locals@) =~= Seq::<Seq<char>>::empty());
            if p_block(ts, 0, Seq::empty()) is Some {
                crate::frontend::meaning::lemma_block_end(ts, 0, Seq::empty());
            }
            if frag {
                assert(block_frag(ts, 0, fs0, MAX_DEPTH as int));
            }
        }
        p.block(&mut fs, MAX_DEPTH)?;
        p.expect(TokenTag::Eof)?;
        let ghost fs_b = fs;
        p.emit(&mut fs, return_(0, 1, 0))?;
        proof {
            if frag {
                let (b, q) = p_block(ts, 0, Seq::empty())->Some_0;
                lemma_rblock_extend(
                    fs_b.code@,
                    fs_b.consts@,
                    fs.code@,
                    fs.consts@,
                    0,
                    fs_b.code@.len() as int,
                    fs_b.max_stack as int,
                    fs.max_stack as int,
                    Seq::empty(),
                    block_value::<N>(b, Seq::empty()),
                );
            }
        }
        let main = Proto {
            code: fs.code,
            consts: fs.consts,
            num_params: 0,
            is_vararg: true,
            max_stack: fs.max_stack,
        };
        p.protos.set(0, main);
        Ok(p.protos)
    }
}

/// Every prototype of a compiled chunk fits the machine's code limit.
pub proof fn lemma_small_fits<N>(ps: Seq<Proto<N>>)
    requires
        protos_small(ps),
    ensures
        crate::vm::model::protos_wf(ps),
{
    assert(MAX_CODE <= max_code_len());
}

} // verus!
