use lexparse::errors::LexError;
use lexparse::lexer::lexer;
use lexparse::text::keyword_or_identifier;
use lexparse::text::render_tokens;
use lexparse::text::token_chars;
use lexparse::tokens::chars_eq;
use lexparse::tokens::token_eq;
use lexparse::tokens::Token;

fn chars(s: &str) -> Vec<char> {
    s.chars().collect()
}

#[test]
fn lex_simple_let() {
    let toks = lexer(&chars("let x : int = 5")).unwrap();
    assert_eq!(
        toks,
        vec![
            Token::Let,
            Token::Identifier(chars("x")),
            Token::Colon,
            Token::TypeInt,
            Token::Assign,
            Token::Integer(5),
            Token::EOF,
        ]
    );
}

#[test]
fn lex_all_keywords() {
    let src = "int float string bool list let print if else while for fn return end true false and or";
    let toks = lexer(&chars(src)).unwrap();
    assert_eq!(
        toks,
        vec![
            Token::TypeInt,
            Token::TypeFloat,
            Token::TypeString,
            Token::TypeBool,
            Token::TypeList,
            Token::Let,
            Token::Print,
            Token::If,
            Token::Else,
            Token::While,
            Token::For,
            Token::Func,
            Token::Return,
            Token::End,
            Token::Boolean(true),
            Token::Boolean(false),
            Token::And,
            Token::Or,
            Token::EOF,
        ]
    );
}

#[test]
fn lex_operators_longest_match_first() {
    let toks = lexer(&chars("== != >= <= = > < + - * / ( ) [ ] { } : , . .. ;")).unwrap();
    assert_eq!(
        toks,
        vec![
            Token::EqEq,
            Token::NotEq,
            Token::GreaterEq,
            Token::LessEq,
            Token::Assign,
            Token::Greater,
            Token::Less,
            Token::Plus,
            Token::Minus,
            Token::Multiply,
            Token::Divide,
            Token::LParen,
            Token::RParen,
            Token::LBracket,
            Token::RBracket,
            Token::LBrace,
            Token::RBrace,
            Token::Colon,
            Token::Comma,
            Token::Dot,
            Token::Range,
            Token::Semicolon,
            Token::EOF,
        ]
    );
}

#[test]
fn lex_two_char_operators_unspaced() {
    let toks = lexer(&chars("a<=b")).unwrap();
    assert_eq!(
        toks,
        vec![
            Token::Identifier(chars("a")),
            Token::LessEq,
            Token::Identifier(chars("b")),
            Token::EOF,
        ]
    );
}

#[test]
fn lex_float_keeps_lexeme() {
    let toks = lexer(&chars("3.14")).unwrap();
    assert_eq!(toks, vec![Token::Float(chars("3.14")), Token::EOF]);
}

#[test]
fn lex_string_literal_drops_quotes() {
    let toks = lexer(&chars("\"hello world\"")).unwrap();
    assert_eq!(toks, vec![Token::Str(chars("hello world")), Token::EOF]);
}

#[test]
fn lex_string_keeps_escapes_verbatim() {
    let toks = lexer(&chars("\"a\\\"b\"")).unwrap();
    assert_eq!(toks, vec![Token::Str(chars("a\\\"b")), Token::EOF]);
}

#[test]
fn lex_whitespace_is_skipped() {
    let toks = lexer(&chars("  let\n\tx  \r\n")).unwrap();
    assert_eq!(
        toks,
        vec![Token::Let, Token::Identifier(chars("x")), Token::EOF]
    );
}

#[test]
fn lex_unterminated_string_fails() {
    let r = lexer(&chars("let x : int = \"5"));
    assert_eq!(r, Err(LexError::UnterminatedString));
}

#[test]
fn lex_invalid_number_two_dots() {
    let r = lexer(&chars("1.2.3"));
    assert_eq!(r, Err(LexError::InvalidNumber(chars("1.2.3"))));
}

#[test]
fn lex_range_needs_space_after_number() {
    // A numeric run consumes digits and dots greedily, as the grammar
    // prescribes, so an unspaced range after a number is a malformed number.
    let r = lexer(&chars("0..10"));
    assert_eq!(r, Err(LexError::InvalidNumber(chars("0..10"))));
    let toks = lexer(&chars("0 .. 10")).unwrap();
    assert_eq!(
        toks,
        vec![Token::Integer(0), Token::Range, Token::Integer(10), Token::EOF]
    );
}

#[test]
fn lex_integer_overflow_is_invalid_number() {
    let r = lexer(&chars("9223372036854775808"));
    assert_eq!(r, Err(LexError::InvalidNumber(chars("9223372036854775808"))));
    let toks = lexer(&chars("9223372036854775807")).unwrap();
    assert_eq!(toks, vec![Token::Integer(i64::MAX), Token::EOF]);
}

#[test]
fn lex_unexpected_char_reports_index() {
    let r = lexer(&chars("let @"));
    assert_eq!(r, Err(LexError::UnexpectedChar(4)));
}

#[test]
fn lex_lone_bang_is_unexpected() {
    let r = lexer(&chars("a ! b"));
    assert_eq!(r, Err(LexError::UnexpectedChar(2)));
}

#[test]
fn keyword_table_exact_matches_only() {
    assert_eq!(keyword_or_identifier(chars("while")), Token::While);
    assert_eq!(keyword_or_identifier(chars("fn")), Token::Func);
    assert_eq!(
        keyword_or_identifier(chars("whilex")),
        Token::Identifier(chars("whilex"))
    );
    assert_eq!(
        keyword_or_identifier(chars("Let")),
        Token::Identifier(chars("Let"))
    );
}

#[test]
fn token_canonical_text() {
    assert_eq!(token_chars(&Token::Integer(42)), chars("42"));
    assert_eq!(token_chars(&Token::Integer(0)), chars("0"));
    assert_eq!(token_chars(&Token::Integer(-7)), chars("-7"));
    assert_eq!(token_chars(&Token::Str(chars("hi"))), chars("\"hi\""));
    assert_eq!(token_chars(&Token::Float(chars("2.5"))), chars("2.5"));
    assert_eq!(token_chars(&Token::GreaterEq), chars(">="));
    assert_eq!(token_chars(&Token::Range), chars(".."));
    assert_eq!(token_chars(&Token::Boolean(false)), chars("false"));
}

#[test]
fn render_joins_with_single_spaces() {
    let toks = vec![Token::Let, Token::Identifier(chars("x")), Token::Assign, Token::Integer(1)];
    assert_eq!(render_tokens(&toks), chars("let x = 1"));
}

#[test]
fn round_trip_statement() {
    let toks = lexer(&chars("let x : int = 5 + 3 * 2")).unwrap();
    let mut body = toks.clone();
    body.pop();
    let text = render_tokens(&body);
    let again = lexer(&text).unwrap();
    assert_eq!(again, toks);
}

#[test]
fn round_trip_mixed_tokens() {
    let toks = lexer(&chars("print \"hi\" 3.5 foo [ 2 ] .. true")).unwrap();
    let mut body = toks.clone();
    body.pop();
    let text = render_tokens(&body);
    let again = lexer(&text).unwrap();
    assert_eq!(again, toks);
}

#[test]
fn char_and_token_equality() {
    assert!(chars_eq(&chars("abc"), &chars("abc")));
    assert!(!chars_eq(&chars("abc"), &chars("abd")));
    assert!(!chars_eq(&chars("abc"), &chars("ab")));
    assert!(token_eq(
        &Token::Identifier(chars("x")),
        &Token::Identifier(chars("x"))
    ));
    assert!(!token_eq(
        &Token::Identifier(chars("x")),
        &Token::Identifier(chars("y"))
    ));
    assert!(!token_eq(&Token::Let, &Token::Print));
}

#[test]
fn round_trip_string_with_escapes() {
    let toks = lexer(&chars("\"a\\\"b\" \"c\\\\d\"")).unwrap();
    let mut body = toks.clone();
    body.pop();
    let text = render_tokens(&body);
    let again = lexer(&text).unwrap();
    assert_eq!(again, toks);
}
