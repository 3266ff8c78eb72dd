//! The token model: the closed set of lexical units the lexer produces and
//! the parser consumes, together with their canonical textual form.
//!
//! Identifier names and the payloads of string and float literals are held as
//! `Vec<char>`, so that every fact about them can be stated over `Seq<char>`.
//! A float literal keeps its source text rather than a binary approximation;
//! the front end never evaluates numbers, it only classifies them.
//!
//! `TokenView` is the mathematical image of a token: the same variants with
//! `Seq<char>` in place of `Vec<char>` and `int` in place of `i64`. All
//! contracts in this crate speak of tokens through it.

use vstd::prelude::*;

verus! {

/// One lexical unit of the language.
#[derive(Debug, Clone, PartialEq)]
pub enum Token {
    // Type markers.
    TypeInt,
    TypeFloat,
    TypeString,
    TypeBool,
    TypeList,
    // Keywords.
    Let,
    Print,
    If,
    Else,
    While,
    For,
    Func,
    Return,
    End,
    // Identifiers and literal payloads.
    Identifier(Vec<char>),
    Integer(i64),
    Float(Vec<char>),
    Str(Vec<char>),
    Boolean(bool),
    // Operators.
    Assign,
    Plus,
    Minus,
    Multiply,
    Divide,
    EqEq,
    NotEq,
    Greater,
    Less,
    GreaterEq,
    LessEq,
    And,
    Or,
    // Punctuation.
    LParen,
    RParen,
    LBracket,
    RBracket,
    LBrace,
    RBrace,
    Colon,
    Comma,
    Dot,
    Semicolon,
    Range,
    // End-of-input marker, appended once by the lexer.
    EOF,
}

/// The mathematical image of a `Token`.
pub enum TokenView {
    TypeInt,
    TypeFloat,
    TypeString,
    TypeBool,
    TypeList,
    Let,
    Print,
    If,
    Else,
    While,
    For,
    Func,
    Return,
    End,
    Identifier(Seq<char>),
    Integer(int),
    Float(Seq<char>),
    Str(Seq<char>),
    Boolean(bool),
    Assign,
    Plus,
    Minus,
    Multiply,
    Divide,
    EqEq,
    NotEq,
    Greater,
    Less,
    GreaterEq,
    LessEq,
    And,
    Or,
    LParen,
    RParen,
    LBracket,
    RBracket,
    LBrace,
    RBrace,
    Colon,
    Comma,
    Dot,
    Semicolon,
    Range,
    EOF,
}

impl View for Token {
    type V = TokenView;

    open spec fn view(&self) -> TokenView {
        match self {
            Token::TypeInt => TokenView::TypeInt,
            Token::TypeFloat => TokenView::TypeFloat,
            Token::TypeString => TokenView::TypeString,
            Token::TypeBool => TokenView::TypeBool,
            Token::TypeList => TokenView::TypeList,
            Token::Let => TokenView::Let,
            Token::Print => TokenView::Print,
            Token::If => TokenView::If,
            Token::Else => TokenView::Else,
            Token::While => TokenView::While,
            Token::For => TokenView::For,
            Token::Func => TokenView::Func,
            Token::Return => TokenView::Return,
            Token::End => TokenView::End,
            Token::Identifier(v) => TokenView::Identifier(v@),
            Token::Integer(n) => TokenView::Integer(*n as int),
            Token::Float(v) => TokenView::Float(v@),
            Token::Str(v) => TokenView::Str(v@),
            Token::Boolean(b) => TokenView::Boolean(*b),
            Token::Assign => TokenView::Assign,
            Token::Plus => TokenView::Plus,
            Token::Minus => TokenView::Minus,
            Token::Multiply => TokenView::Multiply,
            Token::Divide => TokenView::Divide,
            Token::EqEq => TokenView::EqEq,
            Token::NotEq => TokenView::NotEq,
            Token::Greater => TokenView::Greater,
            Token::Less => TokenView::Less,
            Token::GreaterEq => TokenView::GreaterEq,
            Token::LessEq => TokenView::LessEq,
            Token::And => TokenView::And,
            Token::Or => TokenView::Or,
            Token::LParen => TokenView::LParen,
            Token::RParen => TokenView::RParen,
            Token::LBracket => TokenView::LBracket,
            Token::RBracket => TokenView::RBracket,
            Token::LBrace => TokenView::LBrace,
            Token::RBrace => TokenView::RBrace,
            Token::Colon => TokenView::Colon,
            Token::Comma => TokenView::Comma,
            Token::Dot => TokenView::Dot,
            Token::Semicolon => TokenView::Semicolon,
            Token::Range => TokenView::Range,
            Token::EOF => TokenView::EOF,
        }
    }
}

/// The views of a whole token sequence.
pub open spec fn views_of_tokens(ts: Seq<Token>) -> Seq<TokenView> {
    ts.map_values(|t: Token| t@)
}

/// Character classes used by the lexer and by token well-formedness.
pub open spec fn is_digit_char(c: char) -> bool {
    '0' <= c && c <= '9'
}

pub open spec fn is_ident_start_char(c: char) -> bool {
    ('a' <= c && c <= 'z') || ('A' <= c && c <= 'Z') || c == '_'
}

pub open spec fn is_ident_char(c: char) -> bool {
    is_ident_start_char(c) || is_digit_char(c)
}

pub open spec fn is_space_char(c: char) -> bool {
    c == ' ' || c == '\t' || c == '\n' || c == '\r'
}

/// Exact character-sequence equality, decided executably.
pub fn chars_eq(a: &Vec<char>, b: &Vec<char>) -> (r: bool)
    ensures
        r <==> a@ == b@,
{
    if a.len() != b.len() {
        return false;
    }
    let mut i: usize = 0;
    while i < a.len()
        invariant
            i <= a@.len(),
            a@.len() == b@.len(),
            forall|j: int| 0 <= j < i ==> a@[j] == b@[j],
        decreases a@.len() - i,
    {
        if a[i] != b[i] {
            return false;
        }
        i += 1;
    }
    proof {
        assert(a@ =~= b@);
    }
    true
}

/// Structural token equality: same variant and, where one is carried, the
/// same payload. This is the comparison `eat` uses on the expect-and-consume
/// path.
#[verifier::rlimit(50)]
pub fn token_eq(a: &Token, b: &Token) -> (r: bool)
    ensures
        r <==> a@ == b@,
{
    match a {
        Token::TypeInt => match b { Token::TypeInt => true, _ => false },
        Token::TypeFloat => match b { Token::TypeFloat => true, _ => false },
        Token::TypeString => match b { Token::TypeString => true, _ => false },
        Token::TypeBool => match b { Token::TypeBool => true, _ => false },
        Token::TypeList => match b { Token::TypeList => true, _ => false },
        Token::Let => match b { Token::Let => true, _ => false },
        Token::Print => match b { Token::Print => true, _ => false },
        Token::If => match b { Token::If => true, _ => false },
        Token::Else => match b { Token::Else => true, _ => false },
        Token::While => match b { Token::While => true, _ => false },
        Token::For => match b { Token::For => true, _ => false },
        Token::Func => match b { Token::Func => true, _ => false },
        Token::Return => match b { Token::Return => true, _ => false },
        Token::End => match b { Token::End => true, _ => false },
        Token::Identifier(x) => match b {
            Token::Identifier(y) => chars_eq(x, y),
            _ => false,
        },
        Token::Integer(x) => match b {
            Token::Integer(y) => *x == *y,
            _ => false,
        },
        Token::Float(x) => match b {
            Token::Float(y) => chars_eq(x, y),
            _ => false,
        },
        Token::Str(x) => match b {
            Token::Str(y) => chars_eq(x, y),
            _ => false,
        },
        Token::Boolean(x) => match b {
            Token::Boolean(y) => *x == *y,
            _ => false,
        },
        Token::Assign => match b { Token::Assign => true, _ => false },
        Token::Plus => match b { Token::Plus => true, _ => false },
        Token::Minus => match b { Token::Minus => true, _ => false },
        Token::Multiply => match b { Token::Multiply => true, _ => false },
        Token::Divide => match b { Token::Divide => true, _ => false },
        Token::EqEq => match b { Token::EqEq => true, _ => false },
        Token::NotEq => match b { Token::NotEq => true, _ => false },
        Token::Greater => match b { Token::Greater => true, _ => false },
        Token::Less => match b { Token::Less => true, _ => false },
        Token::GreaterEq => match b { Token::GreaterEq => true, _ => false },
        Token::LessEq => match b { Token::LessEq => true, _ => false },
        Token::And => match b { Token::And => true, _ => false },
        Token::Or => match b { Token::Or => true, _ => false },
        Token::LParen => match b { Token::LParen => true, _ => false },
        Token::RParen => match b { Token::RParen => true, _ => false },
        Token::LBracket => match b { Token::LBracket => true, _ => false },
        Token::RBracket => match b { Token::RBracket => true, _ => false },
        Token::LBrace => match b { Token::LBrace => true, _ => false },
        Token::RBrace => match b { Token::RBrace => true, _ => false },
        Token::Colon => match b { Token::Colon => true, _ => false },
        Token::Comma => match b { Token::Comma => true, _ => false },
        Token::Dot => match b { Token::Dot => true, _ => false },
        Token::Semicolon => match b { Token::Semicolon => true, _ => false },
        Token::Range => match b { Token::Range => true, _ => false },
        Token::EOF => match b { Token::EOF => true, _ => false },
    }
}

} // verus!
