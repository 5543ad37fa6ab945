//! The lexer: source text to tokens.
//!
//! Tokens are separated by blanks, newlines and `--` comments (which run to
//! the end of the line).  Identifiers are `[A-Za-z_][A-Za-z0-9_]*`, the ten
//! keywords excepted; numerals are `digits` or `digits.digits` and must not
//! run into a letter, digit, `_` or `.`.  Each token records the line and
//! column (1-based) where it starts; the list ends with `Eof`.
use crate::frontend::error::CompileError;
use crate::frontend::token::{tag_of, Token, TokenKind, TokenTag};
use vstd::prelude::*;
use vstd::string::StringExecFns;
use vstd::string::StrSliceExecFns;

verus! {

broadcast use vstd::string::group_string_axioms;

/// A token as the lexer sees it: its class, its text (identifiers and
/// numerals only), and where it starts.
pub struct TokenModel {
    pub tag: TokenTag,
    pub text: Seq<char>,
    pub line: int,
    pub col: int,
}

/// A lexical error: where, and what.
pub struct LexErrorModel {
    pub line: int,
    pub col: int,
    pub msg: Seq<char>,
}

impl Token {
    pub open spec fn model(&self) -> TokenModel {
        TokenModel {
            tag: tag_of(self.kind),
            text: match self.kind {
                TokenKind::Identifier(s) => s@,
                TokenKind::Number(s) => s@,
                _ => Seq::empty(),
            },
            line: self.line as int,
            col: self.col as int,
        }
    }
}

pub open spec fn is_digit(c: char) -> bool {
    '0' <= c <= '9'
}

pub open spec fn is_ident_start(c: char) -> bool {
    ('a' <= c <= 'z') || ('A' <= c <= 'Z') || c == '_'
}

pub open spec fn is_ident_char(c: char) -> bool {
    is_ident_start(c) || is_digit(c)
}

pub open spec fn is_blank(c: char) -> bool {
    c == ' ' || c == '\t' || c == '\r'
}

/// The end of the run of identifier characters from `i`.
pub open spec fn ident_end(cs: Seq<char>, i: int) -> int
    decreases cs.len() - i,
{
    if 0 <= i < cs.len() && is_ident_char(cs[i]) {
        ident_end(cs, i + 1)
    } else {
        i
    }
}

/// The end of the run of digits from `i`.
pub open spec fn digits_end(cs: Seq<char>, i: int) -> int
    decreases cs.len() - i,
{
    if 0 <= i < cs.len() && is_digit(cs[i]) {
        digits_end(cs, i + 1)
    } else {
        i
    }
}

/// The end of the line that contains `i` (the newline itself excluded).
pub open spec fn line_end(cs: Seq<char>, i: int) -> int
    decreases cs.len() - i,
{
    if 0 <= i < cs.len() && cs[i] != '\n' {
        line_end(cs, i + 1)
    } else {
        i
    }
}

/// The end of the numeral starting at `i`: digits, then `.digits` if a
/// digit follows the dot.
pub open spec fn number_end(cs: Seq<char>, i: int) -> int {
    let d = digits_end(cs, i);
    if d + 1 < cs.len() && cs[d] == '.' && is_digit(cs[d + 1]) {
        digits_end(cs, d + 1)
    } else {
        d
    }
}

/// The class of a word: a keyword's class, or `Identifier`.
pub open spec fn word_tag(w: Seq<char>) -> TokenTag {
    if w == "true"@ {
        TokenTag::True
    } else if w == "false"@ {
        TokenTag::False
    } else if w == "nil"@ {
        TokenTag::Nil
    } else if w == "local"@ {
        TokenTag::Local
    } else if w == "function"@ {
        TokenTag::Function
    } else if w == "return"@ {
        TokenTag::Return
    } else if w == "if"@ {
        TokenTag::If
    } else if w == "then"@ {
        TokenTag::Then
    } else if w == "else"@ {
        TokenTag::Else
    } else if w == "end"@ {
        TokenTag::End
    } else {
        TokenTag::Identifier
    }
}

/// The class of a one-character symbol token (other than `=`).
pub open spec fn symbol_tag(c: char) -> Option<TokenTag> {
    if c == '+' {
        Some(TokenTag::Plus)
    } else if c == '-' {
        Some(TokenTag::Minus)
    } else if c == '*' {
        Some(TokenTag::Star)
    } else if c == '/' {
        Some(TokenTag::Slash)
    } else if c == '<' {
        Some(TokenTag::Less)
    } else if c == '(' {
        Some(TokenTag::LParen)
    } else if c == ')' {
        Some(TokenTag::RParen)
    } else if c == ',' {
        Some(TokenTag::Comma)
    } else {
        None
    }
}

pub open spec fn tok(tag: TokenTag, text: Seq<char>, line: int, col: int) -> TokenModel {
    TokenModel { tag, text, line, col }
}

/// `t` followed by the tokens of `rest` (or the error of `rest`).
pub open spec fn emit(t: TokenModel, rest: Result<Seq<TokenModel>, LexErrorModel>) -> Result<
    Seq<TokenModel>,
    LexErrorModel,
> {
    match rest {
        Ok(ts) => Ok(seq![t] + ts),
        Err(e) => Err(e),
    }
}

/// The tokens of `cs` from position `pos`, which lies at `line`, `col`.
pub open spec fn lex_from(cs: Seq<char>, pos: int, line: int, col: int) -> Result<
    Seq<TokenModel>,
    LexErrorModel,
>
    decreases cs.len() - pos,
{
    if pos < 0 || pos >= cs.len() {
        Ok(seq![tok(TokenTag::Eof, Seq::empty(), line, col)])
    } else {
        let c = cs[pos];
        if c == '\n' {
            lex_from(cs, pos + 1, line + 1, 1)
        } else if is_blank(c) {
            lex_from(cs, pos + 1, line, col + 1)
        } else if c == '-' && pos + 1 < cs.len() && cs[pos + 1] == '-' {
            let e = line_end(cs, pos + 2);
            if e <= pos || e > cs.len() {
                Ok(Seq::empty())
            } else {
                lex_from(cs, e, line, col + (e - pos))
            }
        } else if is_ident_start(c) {
            let e = ident_end(cs, pos);
            if e <= pos || e > cs.len() {
                Ok(Seq::empty())
            } else {
                let w = cs.subrange(pos, e);
                let t = word_tag(w);
                emit(
                    tok(
                        t,
                        if t == TokenTag::Identifier {
                            w
                        } else {
                            Seq::empty()
                        },
                        line,
                        col,
                    ),
                    lex_from(cs, e, line, col + (e - pos)),
                )
            }
        } else if is_digit(c) {
            let e = number_end(cs, pos);
            if e <= pos || e > cs.len() {
                Ok(Seq::empty())
            } else if e < cs.len() && (is_ident_char(cs[e]) || cs[e] == '.') {
                Err(LexErrorModel { line, col, msg: "malformed number"@ })
            } else {
                emit(
                    tok(TokenTag::Number, cs.subrange(pos, e), line, col),
                    lex_from(cs, e, line, col + (e - pos)),
                )
            }
        } else if c == '=' {
            if pos + 1 < cs.len() && cs[pos + 1] == '=' {
                emit(tok(TokenTag::EqEq, Seq::empty(), line, col), lex_from(cs, pos + 2, line, col + 2))
            } else {
                emit(tok(TokenTag::Assign, Seq::empty(), line, col), lex_from(cs, pos + 1, line, col + 1))
            }
        } else {
            match symbol_tag(c) {
                Some(t) => emit(tok(t, Seq::empty(), line, col), lex_from(cs, pos + 1, line, col + 1)),
                None => Err(LexErrorModel { line, col, msg: "unexpected character"@ }),
            }
        }
    }
}

/// The tokens of a whole source text.
pub open spec fn lex_spec(cs: Seq<char>) -> Result<Seq<TokenModel>, LexErrorModel> {
    lex_from(cs, 0, 1, 1)
}

/// `ts` followed by the outcome `r`.
pub open spec fn prepend(ts: Seq<TokenModel>, r: Result<Seq<TokenModel>, LexErrorModel>) -> Result<
    Seq<TokenModel>,
    LexErrorModel,
> {
    match r {
        Ok(rest) => Ok(ts + rest),
        Err(e) => Err(e),
    }
}

pub open spec fn models(ts: Seq<Token>) -> Seq<TokenModel> {
    ts.map_values(|t: Token| t.model())
}

/// A lexical error in the front end's error type.
pub open spec fn lex_error(e: LexErrorModel, r: CompileError) -> bool {
    r matches CompileError::Lex { line, col, msg } && line == e.line && col == e.col && msg@ == e.msg
}

proof fn lemma_ident_end(cs: Seq<char>, i: int)
    requires
        0 <= i,
    ensures
        i <= ident_end(cs, i),
        ident_end(cs, i) <= cs.len() || ident_end(cs, i) == i,
        ident_end(cs, i) < cs.len() ==> !is_ident_char(cs[ident_end(cs, i)]),
        forall|j: int| i <= j < ident_end(cs, i) ==> is_ident_char(#[trigger] cs[j]),
    decreases cs.len() - i,
{
    if 0 <= i < cs.len() && is_ident_char(cs[i]) {
        lemma_ident_end(cs, i + 1);
    }
}

proof fn lemma_digits_end(cs: Seq<char>, i: int)
    requires
        0 <= i,
    ensures
        i <= digits_end(cs, i),
        digits_end(cs, i) <= cs.len() || digits_end(cs, i) == i,
        digits_end(cs, i) < cs.len() ==> !is_digit(cs[digits_end(cs, i)]),
    decreases cs.len() - i,
{
    if 0 <= i < cs.len() && is_digit(cs[i]) {
        lemma_digits_end(cs, i + 1);
    }
}

/// A letter or `_`: what a Lua name starts with.
pub open spec fn name_start(c: char) -> bool {
    ('a' <= c <= 'z') || ('A' <= c <= 'Z') || c == '_'
}

/// A letter, a digit or `_`: what the rest of a Lua name is made of.
pub open spec fn name_char(c: char) -> bool {
    name_start(c) || ('0' <= c <= '9')
}

/// The run of identifier characters from `j` ends at `e` when everything
/// from `j` up to `e` is a name character and `e` is not.
proof fn lemma_ident_end_at(cs: Seq<char>, j: int, e: int)
    requires
        0 <= j <= e <= cs.len(),
        forall|k: int| j <= k < e ==> name_char(#[trigger] cs[k]),
        e == cs.len() || !name_char(cs[e]),
    ensures
        ident_end(cs, j) == e,
    decreases e - j,
{
    if j < e {
        lemma_ident_end_at(cs, j + 1, e);
    }
}

/// A Lua name — a letter or `_`, then letters, digits and `_` — that no
/// letter, digit or `_` follows is read as one token starting where it
/// starts: the keyword it spells, or an identifier that carries the whole
/// name; reading goes on right after the name.
pub proof fn lemma_lex_name(cs: Seq<char>, pos: int, n: int, line: int, col: int)
    requires
        0 <= pos,
        1 <= n,
        pos + n <= cs.len(),
        name_start(cs[pos]),
        forall|j: int| pos < j < pos + n ==> name_char(#[trigger] cs[j]),
        pos + n == cs.len() || !name_char(cs[pos + n]),
    ensures
        lex_from(cs, pos, line, col) == emit(
            tok(
                word_tag(cs.subrange(pos, pos + n)),
                if word_tag(cs.subrange(pos, pos + n)) == TokenTag::Identifier {
                    cs.subrange(pos, pos + n)
                } else {
                    Seq::empty()
                },
                line,
                col,
            ),
            lex_from(cs, pos + n, line, col + n),
        ),
{
    lemma_ident_end_at(cs, pos, pos + n);
}

proof fn lemma_line_end(cs: Seq<char>, i: int)
    requires
        0 <= i,
    ensures
        i <= line_end(cs, i),
        line_end(cs, i) <= cs.len() || line_end(cs, i) == i,
    decreases cs.len() - i,
{
    if 0 <= i < cs.len() && cs[i] != '\n' {
        lemma_line_end(cs, i + 1);
    }
}

/// The characters of `src`, in order.
pub(crate) fn chars_of(src: &str) -> (cs: Vec<char>)
    ensures
        cs@ == src@,
{
    let mut cs: Vec<char> = Vec::new();
    for c in it: src.chars()
        invariant
            cs@ == it.seq().take(it.index()),
            it.seq() == src@,
    {
        cs.push(c);
    }
    cs
}

/// The end of the run from `i` of characters `pred` accepts.
fn ident_run_end(cs: &Vec<char>, i: usize) -> (e: usize)
    ensures
        e == ident_end(cs@, i as int),
{
    let mut j = i;
    while j < cs.len() && is_ident_char_exec(cs[j])
        invariant
            i <= j,
            ident_end(cs@, i as int) == ident_end(cs@, j as int),
        decreases cs.len() - j,
    {
        j = j + 1;
    }
    j
}

fn digit_run_end(cs: &Vec<char>, i: usize) -> (e: usize)
    ensures
        e == digits_end(cs@, i as int),
{
    let mut j = i;
    while j < cs.len() && is_digit_exec(cs[j])
        invariant
            i <= j,
            digits_end(cs@, i as int) == digits_end(cs@, j as int),
        decreases cs.len() - j,
    {
        j = j + 1;
    }
    j
}

fn line_run_end(cs: &Vec<char>, i: usize) -> (e: usize)
    ensures
        e == line_end(cs@, i as int),
{
    let mut j = i;
    while j < cs.len() && cs[j] != '\n'
        invariant
            i <= j,
            line_end(cs@, i as int) == line_end(cs@, j as int),
        decreases cs.len() - j,
    {
        j = j + 1;
    }
    j
}

fn is_digit_exec(c: char) -> (b: bool)
    ensures
        b == is_digit(c),
{
    '0' <= c && c <= '9'
}

fn is_ident_start_exec(c: char) -> (b: bool)
    ensures
        b == is_ident_start(c),
{
    ('a' <= c && c <= 'z') || ('A' <= c && c <= 'Z') || c == '_'
}

fn is_ident_char_exec(c: char) -> (b: bool)
    ensures
        b == is_ident_char(c),
{
    is_ident_start_exec(c) || is_digit_exec(c)
}

/// The token for a word: a keyword, or an identifier carrying the word.
fn word_token(w: String) -> (k: TokenKind)
    ensures
        tag_of(k) == word_tag(w@),
        tag_of(k) == TokenTag::Identifier ==> k == TokenKind::Identifier(w),
{
    proof {
        reveal_strlit("true");
        reveal_strlit("false");
        reveal_strlit("nil");
        reveal_strlit("local");
        reveal_strlit("function");
        reveal_strlit("return");
        reveal_strlit("if");
        reveal_strlit("then");
        reveal_strlit("else");
        reveal_strlit("end");
    }
    if w == String::from_str("true") {
        TokenKind::True
    } else if w == String::from_str("false") {
        TokenKind::False
    } else if w == String::from_str("nil") {
        TokenKind::Nil
    } else if w == String::from_str("local") {
        TokenKind::Local
    } else if w == String::from_str("function") {
        TokenKind::Function
    } else if w == String::from_str("return") {
        TokenKind::Return
    } else if w == String::from_str("if") {
        TokenKind::If
    } else if w == String::from_str("then") {
        TokenKind::Then
    } else if w == String::from_str("else") {
        TokenKind::Else
    } else if w == String::from_str("end") {
        TokenKind::End
    } else {
        TokenKind::Identifier(w)
    }
}

/// The token for a one-character symbol (other than `=`).
fn symbol_token(c: char) -> (k: Option<TokenKind>)
    ensures
        match symbol_tag(c) {
            Some(t) => k matches Some(kk) && tag_of(kk) == t && tag_of(kk) != TokenTag::Identifier
                && tag_of(kk) != TokenTag::Number,
            None => k is None,
        },
{
    if c == '+' {
        Some(TokenKind::Plus)
    } else if c == '-' {
        Some(TokenKind::Minus)
    } else if c == '*' {
        Some(TokenKind::Star)
    } else if c == '/' {
        Some(TokenKind::Slash)
    } else if c == '<' {
        Some(TokenKind::Less)
    } else if c == '(' {
        Some(TokenKind::LParen)
    } else if c == ')' {
        Some(TokenKind::RParen)
    } else if c == ',' {
        Some(TokenKind::Comma)
    } else {
        None
    }
}

/// Splits `src` into tokens, ending with `Eof`.
pub fn tokenize(src: &str) -> (r: Result<Vec<Token>, CompileError>)
    requires
        src@.len() < usize::MAX,
    ensures
        match lex_spec(src@) {
            Ok(ts) => r matches Ok(v) && models(v@) == ts,
            Err(e) => r matches Err(err) && lex_error(e, err),
        },
{
    let cs = chars_of(src);
    let n = cs.len();
    let mut tokens: Vec<Token> = Vec::new();
    let mut pos: usize = 0;
    let mut line: usize = 1;
    let mut col: usize = 1;
    while pos < n
        invariant
            n == cs@.len(),
            cs@ == src@,
            n < usize::MAX,
            pos <= n,
            1 <= line <= pos + 1,
            1 <= col <= pos + 1,
            lex_spec(cs@) == prepend(models(tokens@), lex_from(cs@, pos as int, line as int, col as int)),
        decreases n - pos,
    {
        let ghost ts0 = tokens@;
        let c = cs[pos];
        if c == '\n' {
            pos = pos + 1;
            line = line + 1;
            col = 1;
        } else if c == ' ' || c == '\t' || c == '\r' {
            pos = pos + 1;
            col = col + 1;
        } else if c == '-' && pos + 1 < n && cs[pos + 1] == '-' {
            let e = line_run_end(&cs, pos + 2);
            proof {
                lemma_line_end(cs@, pos + 2);
            }
            col = col + (e - pos);
            pos = e;
        } else if is_ident_start_exec(c) {
            let e = ident_run_end(&cs, pos);
            proof {
                lemma_ident_end(cs@, pos as int);
                assert(e > pos);
            }
            let w = String::from_str(src.substring_char(pos, e));
            let kind = word_token(w);
            let t = Token { kind, line, col };
            let ghost w_seq = cs@.subrange(pos as int, e as int);
            assert(t.model() == tok(word_tag(w_seq), if word_tag(w_seq) == TokenTag::Identifier {
                w_seq
            } else {
                Seq::empty()
            }, line as int, col as int));
            tokens.push(t);
            proof {
                assert(models(tokens@) =~= models(ts0) + seq![t.model()]);
                assert(models(ts0) + seq![t.model()] + seq![] =~= models(ts0) + seq![t.model()]);
                assert forall|rest: Seq<TokenModel>| true implies (models(ts0) + (seq![t.model()] + rest)) =~= (models(tokens@) + rest) by {}
            }
            col = col + (e - pos);
            pos = e;
        } else if is_digit_exec(c) {
            let d = digit_run_end(&cs, pos);
            proof {
                lemma_digits_end(cs@, pos as int);
            }
            let e = if d + 1 < n && cs[d] == '.' && is_digit_exec(cs[d + 1]) {
                proof {
                    lemma_digits_end(cs@, d + 1);
                }
                digit_run_end(&cs, d + 1)
            } else {
                d
            };
            assert(e == number_end(cs@, pos as int));
            assert(e > pos);
            if e < n && (is_ident_char_exec(cs[e]) || cs[e] == '.') {
                return Err(CompileError::Lex { line, col, msg: String::from_str("malformed number") });
            }
            let text = String::from_str(src.substring_char(pos, e));
            let t = Token { kind: TokenKind::Number(text), line, col };
            tokens.push(t);
            proof {
                assert(models(tokens@) =~= models(ts0) + seq![t.model()]);
                assert forall|rest: Seq<TokenModel>| true implies (models(ts0) + (seq![t.model()] + rest)) =~= (models(tokens@) + rest) by {}
            }
            col = col + (e - pos);
            pos = e;
        } else if c == '=' {
            let two = pos + 1 < n && cs[pos + 1] == '=';
            let t = Token {
                kind: if two {
                    TokenKind::EqEq
                } else {
                    TokenKind::Assign
                },
                line,
                col,
            };
            tokens.push(t);
            proof {
                assert(models(tokens@) =~= models(ts0) + seq![t.model()]);
                assert forall|rest: Seq<TokenModel>| true implies (models(ts0) + (seq![t.model()] + rest)) =~= (models(tokens@) + rest) by {}
            }
            if two {
                pos = pos + 2;
                col = col + 2;
            } else {
                pos = pos + 1;
                col = col + 1;
            }
        } else {
            match symbol_token(c) {
                Some(kind) => {
                    let t = Token { kind, line, col };
                    tokens.push(t);
                    proof {
                        assert(models(tokens@) =~= models(ts0) + seq![t.model()]);
                        assert forall|rest: Seq<TokenModel>| true implies (models(ts0) + (seq![t.model()] + rest)) =~= (models(tokens@) + rest) by {}
                    }
                    pos = pos + 1;
                    col = col + 1;
                },
                None => {
                    return Err(
                        CompileError::Lex { line, col, msg: String::from_str("unexpected character") },
                    );
                },
            }
        }
    }
    let t = Token { kind: TokenKind::Eof, line, col };
    let ghost ts0 = tokens@;
    tokens.push(t);
    proof {
        assert(models(tokens@) =~= models(ts0) + seq![t.model()]);
    }
    Ok(tokens)
}

} // verus!
