//! The Lua front end: source text to prototypes.
//!
//! The pipeline: the lexer (source text to tokens), then the parser, which
//! generates the prototypes' code as it parses.
pub mod capture;
pub mod error;
pub mod lexer;
pub mod meaning;
pub mod parser;
pub mod token;

pub use crate::frontend::error::CompileError;

use crate::frontend::lexer::{lex_error, lex_spec, models, tokenize, LexErrorModel, TokenModel};
use crate::frontend::meaning::{block_value, chunk_value, lemma_main_runs, loaded, main_returns, p_block};
use crate::frontend::parser::{err_at, lemma_small_fits, Parser, MAX_CODE};
use crate::vm::model::ResultsSpec;
use crate::vm::semantics::{call_spec, run_spec, MAX_STEPS};
use crate::Value;
use crate::frontend::token::{TokenKind, TokenTag};
use crate::vm::model::protos_wf;
use crate::LuaNumber;
use crate::proto::Proto;
use vstd::prelude::*;
use vstd::string::StringExecFns;

verus! {

/// Token `i` starts a global function definition: `function Name` not
/// preceded by `local` (a function expression has no name).
pub open spec fn global_function_at(ts: Seq<TokenModel>, i: int) -> bool {
    &&& 0 <= i
    &&& i + 1 < ts.len()
    &&& ts[i].tag == TokenTag::Function
    &&& ts[i + 1].tag == TokenTag::Identifier
    &&& (i == 0 || ts[i - 1].tag != TokenTag::Local)
}

/// An `Unsupported` error at `line`, `col` naming `feature`.
pub open spec fn unsupported(r: CompileError, line: int, col: int, feature: Seq<char>) -> bool {
    r matches CompileError::Unsupported { line: l, col: c, feature: f } && l == line && c == col
        && f@ == feature
}

/// Compiles source text to prototypes; `protos[0]` is the main chunk, which
/// takes no fixed parameters.
///
/// Errors carry the stage and the position:
/// - a lexical error, when the text does not split into tokens;
/// - `Unsupported` "global function definition" at the first `function Name`
///   that is not `local function Name`;
/// - otherwise the parser's errors: a `Parse` error where the grammar wants
///   another token, `Unsupported` for a name that is neither a local of the
///   function being compiled nor a local or upvalue of the function it is
///   defined in, `Codegen` where a limit of the instruction format (or the
///   nesting limit) is exceeded.  Each of these carries the line and column
///   where one of the tokens starts.
///
/// A chunk that is a block of local definitions over arithmetic
/// expressions ending in `return` of an expression or comparison, or in an
/// `if`/`else` on `nil`, `true`, `false`, an expression or a comparison
/// whose branches are again such blocks (see `meaning::chunk_value`), and
/// that has at most 200 tokens (the nesting limit bounds what the proof can
/// budget for), compiles, and running its main prototype from a fresh
/// machine returns exactly the value the chunk denotes.
pub fn compile_str<N: LuaNumber>(src: &str) -> (r: Result<Vec<Proto<N>>, CompileError>)
    requires
        src@.len() < usize::MAX,
    ensures
        match lex_spec(src@) {
            Err(e) => r matches Err(err) && lex_error(e, err),
            Ok(ts) => (exists|i: int| global_function_at(ts, i)) ==> (r matches Err(err) && exists|i: int|
                global_function_at(ts, i) && (forall|j: int| 0 <= j < i ==> !global_function_at(ts, j))
                    && unsupported(err, ts[i].line, ts[i].col, "global function definition"@)),
        },
        r matches Ok(ps) ==> lex_spec(src@) is Ok && ps@.len() >= 1 && protos_wf(ps@) && ps@[0].num_params
            == 0,
        match lex_spec(src@) {
            Ok(ts) => match chunk_value::<N>(ts) {
                Some(v) => (forall|i: int| !global_function_at(ts, i)) && ts.len() <= 200 ==> (r matches Ok(
                    ps,
                ) && call_spec(loaded::<N>(), ps@, 0, 0, ResultsSpec::Fixed(1), 0) matches Ok(m1)
                    && run_spec(m1, ps@, MAX_STEPS as nat) matches Ok((_after, vs)) && vs == seq![v]),
                None => true,
            },
            Err(_) => true,
        },
        r matches Err(e) ==> !(e is Io),
        r matches Err(e) ==> match lex_spec(src@) {
            Ok(ts) => err_at(e, ts),
            Err(_) => true,
        },
{
    let tokens = tokenize(src)?;
    let ghost ts = models(tokens@);
    let n = tokens.len();
    let mut i: usize = 0;
    while n > 0 && i < n - 1
        invariant
            n == tokens@.len(),
            lex_spec(src@) == Ok::<Seq<TokenModel>, LexErrorModel>(ts),
            ts == models(tokens@),
            i <= n,
            forall|j: int| 0 <= j < i ==> !global_function_at(ts, j),
        decreases n - i,
    {
        let is_fn = match tokens[i].kind {
            TokenKind::Function => true,
            _ => false,
        };
        let named = match tokens[i + 1].kind {
            TokenKind::Identifier(_) => true,
            _ => false,
        };
        let after_local = i > 0 && match tokens[i - 1].kind {
            TokenKind::Local => true,
            _ => false,
        };
        assert(ts[i as int] == tokens@[i as int].model());
        assert(ts[i + 1] == tokens@[i + 1].model());
        assert(i > 0 ==> ts[i - 1] == tokens@[i - 1].model());
        if is_fn && named && !after_local {
            assert(global_function_at(ts, i as int));
            return Err(
                CompileError::Unsupported {
                    line: tokens[i].line,
                    col: tokens[i].col,
                    feature: String::from_str("global function definition"),
                },
            );
        }
        i = i + 1;
    }
    assert forall|j: int| !global_function_at(ts, j) by {
        if 0 <= j < i {
        }
    }
    let ps = Parser::<N>::chunk(tokens)?;
    proof {
        lemma_small_fits(ps@);
        if chunk_value::<N>(ts) is Some && ts.len() <= 200 {
            let (b, q) = p_block(ts, 0, Seq::empty())->Some_0;
            let v = block_value::<N>(b, Seq::empty());
            assert(main_returns(ps@, v));
            assert(ps@[0].code@.len() <= MAX_CODE);
            lemma_main_runs(ps@, v);
        }
    }
    Ok(ps)
}

} // verus!
