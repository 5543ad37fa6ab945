//! Tokens.
use vstd::prelude::*;
use vstd::string::StringExecFns;

verus! {

/// A token with its value: identifiers and numerals carry their text.
///
/// A numeral keeps the digits as written; its numeric value is the number
/// type's business.
#[derive(Debug, Clone, PartialEq)]
pub enum TokenKind {
    Identifier(String),
    Number(String),
    True,
    False,
    Nil,
    Local,
    Function,
    Return,
    If,
    Then,
    Else,
    End,
    Plus,
    Minus,
    Star,
    Slash,
    Less,
    EqEq,
    Assign,
    LParen,
    RParen,
    Comma,
    Eof,
}

/// The class of a token, without its value: what the parser matches on and
/// what "expected ..." messages name.
#[derive(Debug, Copy, Clone, PartialEq, Eq, Structural)]
pub enum TokenTag {
    Identifier,
    Number,
    True,
    False,
    Nil,
    Local,
    Function,
    Return,
    If,
    Then,
    Else,
    End,
    Plus,
    Minus,
    Star,
    Slash,
    Less,
    EqEq,
    Assign,
    LParen,
    RParen,
    Comma,
    Eof,
}

/// A token and where it starts in the source (1-based line and column).
#[derive(Debug, Clone, PartialEq)]
pub struct Token {
    pub kind: TokenKind,
    pub line: usize,
    pub col: usize,
}

/// The class of a token.
pub open spec fn tag_of(k: TokenKind) -> TokenTag {
    match k {
        TokenKind::Identifier(_) => TokenTag::Identifier,
        TokenKind::Number(_) => TokenTag::Number,
        TokenKind::True => TokenTag::True,
        TokenKind::False => TokenTag::False,
        TokenKind::Nil => TokenTag::Nil,
        TokenKind::Local => TokenTag::Local,
        TokenKind::Function => TokenTag::Function,
        TokenKind::Return => TokenTag::Return,
        TokenKind::If => TokenTag::If,
        TokenKind::Then => TokenTag::Then,
        TokenKind::Else => TokenTag::Else,
        TokenKind::End => TokenTag::End,
        TokenKind::Plus => TokenTag::Plus,
        TokenKind::Minus => TokenTag::Minus,
        TokenKind::Star => TokenTag::Star,
        TokenKind::Slash => TokenTag::Slash,
        TokenKind::Less => TokenTag::Less,
        TokenKind::EqEq => TokenTag::EqEq,
        TokenKind::Assign => TokenTag::Assign,
        TokenKind::LParen => TokenTag::LParen,
        TokenKind::RParen => TokenTag::RParen,
        TokenKind::Comma => TokenTag::Comma,
        TokenKind::Eof => TokenTag::Eof,
    }
}

/// The name of a token class in messages.
pub open spec fn tag_name(t: TokenTag) -> Seq<char> {
    match t {
        TokenTag::Identifier => "identifier"@,
        TokenTag::Number => "number"@,
        TokenTag::True => "true"@,
        TokenTag::False => "false"@,
        TokenTag::Nil => "nil"@,
        TokenTag::Local => "local"@,
        TokenTag::Function => "function"@,
        TokenTag::Return => "return"@,
        TokenTag::If => "if"@,
        TokenTag::Then => "then"@,
        TokenTag::Else => "else"@,
        TokenTag::End => "end"@,
        TokenTag::Plus => "+"@,
        TokenTag::Minus => "-"@,
        TokenTag::Star => "*"@,
        TokenTag::Slash => "/"@,
        TokenTag::Less => "<"@,
        TokenTag::EqEq => "=="@,
        TokenTag::Assign => "="@,
        TokenTag::LParen => "("@,
        TokenTag::RParen => ")"@,
        TokenTag::Comma => ","@,
        TokenTag::Eof => "eof"@,
    }
}

/// How a token reads in messages: the class name, with the text in
/// parentheses for identifiers and numerals.
pub open spec fn kind_name(k: TokenKind) -> Seq<char> {
    match k {
        TokenKind::Identifier(name) => "identifier("@ + name@ + ")"@,
        TokenKind::Number(text) => "number("@ + text@ + ")"@,
        other => tag_name(tag_of(other)),
    }
}

impl TokenKind {
    /// The class of this token.
    pub fn tag(&self) -> (t: TokenTag)
        ensures
            t == tag_of(*self),
    {
        match self {
            TokenKind::Identifier(_) => TokenTag::Identifier,
            TokenKind::Number(_) => TokenTag::Number,
            TokenKind::True => TokenTag::True,
            TokenKind::False => TokenTag::False,
            TokenKind::Nil => TokenTag::Nil,
            TokenKind::Local => TokenTag::Local,
            TokenKind::Function => TokenTag::Function,
            TokenKind::Return => TokenTag::Return,
            TokenKind::If => TokenTag::If,
            TokenKind::Then => TokenTag::Then,
            TokenKind::Else => TokenTag::Else,
            TokenKind::End => TokenTag::End,
            TokenKind::Plus => TokenTag::Plus,
            TokenKind::Minus => TokenTag::Minus,
            TokenKind::Star => TokenTag::Star,
            TokenKind::Slash => TokenTag::Slash,
            TokenKind::Less => TokenTag::Less,
            TokenKind::EqEq => TokenTag::EqEq,
            TokenKind::Assign => TokenTag::Assign,
            TokenKind::LParen => TokenTag::LParen,
            TokenKind::RParen => TokenTag::RParen,
            TokenKind::Comma => TokenTag::Comma,
            TokenKind::Eof => TokenTag::Eof,
        }
    }

    /// How this token reads in messages, e.g. `identifier(foo)`,
    /// `number(3.14)`, `+`, `end`.
    pub fn display_name(&self) -> (s: String)
        ensures
            s@ == kind_name(*self),
    {
        match self {
            TokenKind::Identifier(name) => String::from_str("identifier(").concat(name.as_str()).concat(")"),
            TokenKind::Number(text) => String::from_str("number(").concat(text.as_str()).concat(")"),
            other => String::from_str(other.tag().display_name()),
        }
    }
}

impl TokenTag {
    /// The name of this class, for "expected ..." messages.
    pub fn display_name(&self) -> (s: &'static str)
        ensures
            s@ == tag_name(*self),
    {
        match self {
            TokenTag::Identifier => "identifier",
            TokenTag::Number => "number",
            TokenTag::True => "true",
            TokenTag::False => "false",
            TokenTag::Nil => "nil",
            TokenTag::Local => "local",
            TokenTag::Function => "function",
            TokenTag::Return => "return",
            TokenTag::If => "if",
            TokenTag::Then => "then",
            TokenTag::Else => "else",
            TokenTag::End => "end",
            TokenTag::Plus => "+",
            TokenTag::Minus => "-",
            TokenTag::Star => "*",
            TokenTag::Slash => "/",
            TokenTag::Less => "<",
            TokenTag::EqEq => "==",
            TokenTag::Assign => "=",
            TokenTag::LParen => "(",
            TokenTag::RParen => ")",
            TokenTag::Comma => ",",
            TokenTag::Eof => "eof",
        }
    }
}

} // verus!
