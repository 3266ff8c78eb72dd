//! The lexer: converts source text into an ordered token sequence, or fails
//! at the first invalid character. It is a pure function of the input text;
//! `spec_lex_from` is its mathematical definition and `lexer` is proved to
//! return exactly that.
//!
//! Scanning rules, in the order tried at each position:
//! - whitespace separates tokens and is never emitted;
//! - an identifier run (letter or underscore, then letters, digits or
//!   underscores) becomes a keyword token on an exact keyword-table match,
//!   otherwise an identifier token;
//! - a numeric run (digits and decimal points, scanned greedily) becomes an
//!   integer literal when it has no point and fits `i64`, a float literal
//!   when it has exactly one point, and an invalid-number error otherwise;
//! - a string literal runs to the next unescaped quote; input that ends
//!   first is an unterminated-string error;
//! - operators and punctuation match a fixed table, longest match first;
//! - anything else is an unexpected-character error at that index.
//!
//! On success the end-of-input marker is appended as the final token.

use vstd::prelude::*;

use crate::errors::LexError;
use crate::errors::LexErrorView;
use crate::tokens::Token;
use crate::tokens::TokenView;
use crate::tokens::views_of_tokens;
use crate::tokens::is_digit_char;
use crate::tokens::is_ident_start_char;
use crate::tokens::is_ident_char;
use crate::tokens::is_space_char;
use crate::text::spec_word_token;
use crate::text::keyword_or_identifier;
use crate::text::digits_val;
use crate::text::digit_val;
use crate::text::dot_count;

verus! {

/// Index right after the identifier run that starts at `i`.
pub open spec fn ident_run_end(s: Seq<char>, i: int) -> int
    decreases s.len() - i,
        when 0 <= i <= s.len()
{
    if i == s.len() {
        i
    } else if is_ident_char(s[i]) {
        ident_run_end(s, i + 1)
    } else {
        i
    }
}

/// Index right after the numeric run (digits and decimal points) that starts
/// at `i`.
pub open spec fn num_run_end(s: Seq<char>, i: int) -> int
    decreases s.len() - i,
        when 0 <= i <= s.len()
{
    if i == s.len() {
        i
    } else if is_digit_char(s[i]) || s[i] == '.' {
        num_run_end(s, i + 1)
    } else {
        i
    }
}

/// Index of the closing quote of a string body starting at `i`, skipping
/// escaped characters; the input length when no closing quote exists.
pub open spec fn str_body_end(s: Seq<char>, i: int) -> int
    decreases s.len() - i,
        when 0 <= i <= s.len()
{
    if i >= s.len() {
        s.len() as int
    } else if s[i] == '"' {
        i
    } else if s[i] == '\\' {
        if i + 2 <= s.len() {
            str_body_end(s, i + 2)
        } else {
            s.len() as int
        }
    } else {
        str_body_end(s, i + 1)
    }
}

pub proof fn lemma_ident_run_end_bounds(s: Seq<char>, i: int)
    requires
        0 <= i <= s.len(),
    ensures
        i <= ident_run_end(s, i) <= s.len(),
    decreases s.len() - i,
{
    if i < s.len() && is_ident_char(s[i]) {
        lemma_ident_run_end_bounds(s, i + 1);
    }
}

pub proof fn lemma_num_run_end_bounds(s: Seq<char>, i: int)
    requires
        0 <= i <= s.len(),
    ensures
        i <= num_run_end(s, i) <= s.len(),
    decreases s.len() - i,
{
    if i < s.len() && (is_digit_char(s[i]) || s[i] == '.') {
        lemma_num_run_end_bounds(s, i + 1);
    }
}

pub proof fn lemma_str_body_end_bounds(s: Seq<char>, i: int)
    requires
        0 <= i <= s.len(),
    ensures
        i <= str_body_end(s, i) <= s.len(),
    decreases s.len() - i,
{
    if i < s.len() {
        if s[i] == '"' {
        } else if s[i] == '\\' {
            if i + 2 <= s.len() {
                lemma_str_body_end_bounds(s, i + 2);
            }
        } else {
            lemma_str_body_end_bounds(s, i + 1);
        }
    }
}

/// Prepends a token to a lexing outcome; an error swallows the token.
pub open spec fn cons_token(
    t: TokenView,
    rest: Result<Seq<TokenView>, LexErrorView>,
) -> Result<Seq<TokenView>, LexErrorView> {
    match rest {
        Ok(ts) => Ok(seq![t] + ts),
        Err(e) => Err(e),
    }
}

/// Prepends already-lexed tokens to a lexing outcome.
pub open spec fn cons_all(
    done: Seq<TokenView>,
    rest: Result<Seq<TokenView>, LexErrorView>,
) -> Result<Seq<TokenView>, LexErrorView> {
    match rest {
        Ok(ts) => Ok(done + ts),
        Err(e) => Err(e),
    }
}

/// What lexing the input from position `i` onward yields. This is the
/// mathematical definition of the lexer.
pub open spec fn spec_lex_from(s: Seq<char>, i: int) -> Result<Seq<TokenView>, LexErrorView>
    decreases s.len() - i,
        when 0 <= i <= s.len()
        via spec_lex_from_dec
{
    if i >= s.len() {
        Ok(seq![TokenView::EOF])
    } else {
        let c = s[i];
        if is_space_char(c) {
            spec_lex_from(s, i + 1)
        } else if is_ident_start_char(c) {
            let end = ident_run_end(s, i + 1);
            cons_token(spec_word_token(s.subrange(i, end)), spec_lex_from(s, end))
        } else if is_digit_char(c) {
            let end = num_run_end(s, i + 1);
            let run = s.subrange(i, end);
            if dot_count(run) == 0 {
                if digits_val(run) <= i64::MAX as int {
                    cons_token(TokenView::Integer(digits_val(run)), spec_lex_from(s, end))
                } else {
                    Err(LexErrorView::InvalidNumber(run))
                }
            } else if dot_count(run) == 1 {
                cons_token(TokenView::Float(run), spec_lex_from(s, end))
            } else {
                Err(LexErrorView::InvalidNumber(run))
            }
        } else if c == '"' {
            let end = str_body_end(s, i + 1);
            if end == s.len() {
                Err(LexErrorView::UnterminatedString)
            } else {
                cons_token(TokenView::Str(s.subrange(i + 1, end)), spec_lex_from(s, end + 1))
            }
        } else if c == '=' {
            if i + 1 < s.len() && s[i + 1] == '=' {
                cons_token(TokenView::EqEq, spec_lex_from(s, i + 2))
            } else {
                cons_token(TokenView::Assign, spec_lex_from(s, i + 1))
            }
        } else if c == '!' {
            if i + 1 < s.len() && s[i + 1] == '=' {
                cons_token(TokenView::NotEq, spec_lex_from(s, i + 2))
            } else {
                Err(LexErrorView::UnexpectedChar(i))
            }
        } else if c == '>' {
            if i + 1 < s.len() && s[i + 1] == '=' {
                cons_token(TokenView::GreaterEq, spec_lex_from(s, i + 2))
            } else {
                cons_token(TokenView::Greater, spec_lex_from(s, i + 1))
            }
        } else if c == '<' {
            if i + 1 < s.len() && s[i + 1] == '=' {
                cons_token(TokenView::LessEq, spec_lex_from(s, i + 2))
            } else {
                cons_token(TokenView::Less, spec_lex_from(s, i + 1))
            }
        } else if c == '.' {
            if i + 1 < s.len() && s[i + 1] == '.' {
                cons_token(TokenView::Range, spec_lex_from(s, i + 2))
            } else {
                cons_token(TokenView::Dot, spec_lex_from(s, i + 1))
            }
        } else if c == '+' {
            cons_token(TokenView::Plus, spec_lex_from(s, i + 1))
        } else if c == '-' {
            cons_token(TokenView::Minus, spec_lex_from(s, i + 1))
        } else if c == '*' {
            cons_token(TokenView::Multiply, spec_lex_from(s, i + 1))
        } else if c == '/' {
            cons_token(TokenView::Divide, spec_lex_from(s, i + 1))
        } else if c == '(' {
            cons_token(TokenView::LParen, spec_lex_from(s, i + 1))
        } else if c == ')' {
            cons_token(TokenView::RParen, spec_lex_from(s, i + 1))
        } else if c == '[' {
            cons_token(TokenView::LBracket, spec_lex_from(s, i + 1))
        } else if c == ']' {
            cons_token(TokenView::RBracket, spec_lex_from(s, i + 1))
        } else if c == '{' {
            cons_token(TokenView::LBrace, spec_lex_from(s, i + 1))
        } else if c == '}' {
            cons_token(TokenView::RBrace, spec_lex_from(s, i + 1))
        } else if c == ':' {
            cons_token(TokenView::Colon, spec_lex_from(s, i + 1))
        } else if c == ',' {
            cons_token(TokenView::Comma, spec_lex_from(s, i + 1))
        } else if c == ';' {
            cons_token(TokenView::Semicolon, spec_lex_from(s, i + 1))
        } else {
            Err(LexErrorView::UnexpectedChar(i))
        }
    }
}

#[via_fn]
proof fn spec_lex_from_dec(s: Seq<char>, i: int) {
    if 0 <= i && i < s.len() {
        lemma_ident_run_end_bounds(s, i + 1);
        lemma_num_run_end_bounds(s, i + 1);
        lemma_str_body_end_bounds(s, i + 1);
    }
}

/// Whether an executable lexing outcome is exactly a mathematical one.
pub open spec fn lex_output_matches(
    r: Result<Vec<Token>, LexError>,
    m: Result<Seq<TokenView>, LexErrorView>,
) -> bool {
    match (r, m) {
        (Ok(ts), Ok(vs)) => views_of_tokens(ts@) == vs,
        (Err(e), Err(ev)) => e@ == ev,
        _ => false,
    }
}

proof fn lemma_cons_all_nil(r: Result<Seq<TokenView>, LexErrorView>)
    ensures
        cons_all(Seq::<TokenView>::empty(), r) == r,
{
    match r {
        Ok(ts) => {
            assert(Seq::<TokenView>::empty() + ts =~= ts);
        },
        Err(_) => {},
    }
}

proof fn lemma_cons_all_push(
    done: Seq<TokenView>,
    t: TokenView,
    r: Result<Seq<TokenView>, LexErrorView>,
)
    ensures
        cons_all(done, cons_token(t, r)) == cons_all(done.push(t), r),
{
    match r {
        Ok(ts) => {
            assert(done + (seq![t] + ts) =~= done.push(t) + ts);
        },
        Err(_) => {},
    }
}

/// One scanning step: the tokens lexed so far, extended with the token the
/// current position yields, account for lexing from the next position.
proof fn lemma_step(s: Seq<char>, done: Seq<Token>, tok: Token, i: int, j: int)
    requires
        spec_lex_from(s, 0) == cons_all(views_of_tokens(done), spec_lex_from(s, i)),
        spec_lex_from(s, i) == cons_token(tok@, spec_lex_from(s, j)),
    ensures
        spec_lex_from(s, 0) == cons_all(views_of_tokens(done.push(tok)), spec_lex_from(s, j)),
{
    assert(views_of_tokens(done.push(tok)) =~= views_of_tokens(done).push(tok@));
    lemma_cons_all_push(views_of_tokens(done), tok@, spec_lex_from(s, j));
}

fn char_is_space(c: char) -> (r: bool)
    ensures
        r == is_space_char(c),
{
    c == ' ' || c == '\t' || c == '\n' || c == '\r'
}

fn char_is_digit(c: char) -> (r: bool)
    ensures
        r == is_digit_char(c),
{
    '0' <= c && c <= '9'
}

fn char_is_ident_start(c: char) -> (r: bool)
    ensures
        r == is_ident_start_char(c),
{
    ('a' <= c && c <= 'z') || ('A' <= c && c <= 'Z') || c == '_'
}

fn char_is_ident(c: char) -> (r: bool)
    ensures
        r == is_ident_char(c),
{
    char_is_ident_start(c) || char_is_digit(c)
}

/// Collects the identifier run starting at `i` (whose first character is an
/// identifier-start character) and returns it with its end index.
fn scan_ident_run(content: &[char], i: usize) -> (r: (Vec<char>, usize))
    requires
        i < content@.len(),
        is_ident_start_char(content@[i as int]),
    ensures
        i < r.1 <= content@.len(),
        r.1 == ident_run_end(content@, i + 1),
        r.0@ == content@.subrange(i as int, r.1 as int),
{
    let ghost s = content@;
    let n = content.len();
    let mut run: Vec<char> = Vec::new();
    run.push(content[i]);
    let mut k: usize = i + 1;
    proof {
        assert(run@ =~= s.subrange(i as int, k as int));
    }
    while k < n && char_is_ident(content[k])
        invariant
            i + 1 <= k <= n,
            n == s.len(),
            s == content@,
            run@ == s.subrange(i as int, k as int),
            ident_run_end(s, i + 1) == ident_run_end(s, k as int),
        decreases n - k,
    {
        run.push(content[k]);
        proof {
            assert(run@ =~= s.subrange(i as int, k as int + 1));
        }
        k += 1;
    }
    proof {
        assert(ident_run_end(s, k as int) == k as int);
    }
    (run, k)
}

/// Collects the numeric run starting at `i` (whose first character is a
/// digit) and returns it with its end index and its count of decimal points.
fn scan_num_run(content: &[char], i: usize) -> (r: (Vec<char>, usize, usize))
    requires
        i < content@.len(),
        is_digit_char(content@[i as int]),
    ensures
        i < r.1 <= content@.len(),
        r.1 == num_run_end(content@, i + 1),
        r.0@ == content@.subrange(i as int, r.1 as int),
        r.2 as int == dot_count(r.0@),
        forall|m: int| 0 <= m < r.0@.len() ==> is_digit_char(#[trigger] r.0@[m]) || r.0@[m] == '.',
{
    let ghost s = content@;
    let n = content.len();
    let mut run: Vec<char> = Vec::new();
    let mut dots: usize = 0;
    run.push(content[i]);
    let mut k: usize = i + 1;
    proof {
        assert(run@ =~= s.subrange(i as int, k as int));
        assert(run@.drop_last() =~= Seq::<char>::empty());
        assert(dot_count(run@.drop_last()) == 0);
        assert(run@.last() == s[i as int]);
        assert(run@.last() != '.');
    }
    while k < n && (char_is_digit(content[k]) || content[k] == '.')
        invariant
            i + 1 <= k <= n,
            n == s.len(),
            s == content@,
            run@ == s.subrange(i as int, k as int),
            dots <= run@.len(),
            dots as int == dot_count(run@),
            num_run_end(s, i + 1) == num_run_end(s, k as int),
            forall|m: int| 0 <= m < run@.len() ==> is_digit_char(#[trigger] run@[m]) || run@[m] == '.',
        decreases n - k,
    {
        let ghost old_run = run@;
        if content[k] == '.' {
            dots += 1;
        }
        run.push(content[k]);
        proof {
            assert(run@ =~= s.subrange(i as int, k as int + 1));
            assert(run@.drop_last() =~= old_run);
        }
        k += 1;
    }
    proof {
        assert(num_run_end(s, k as int) == k as int);
    }
    (run, k, dots)
}

/// Finds the closing quote of the string body starting at `i + 1`, where
/// `i` holds the opening quote. Returns whether one exists before the input
/// ends, and its index.
fn scan_str_body(content: &[char], i: usize) -> (r: (bool, usize))
    requires
        i < content@.len(),
        content@[i as int] == '"',
    ensures
        r.1 == str_body_end(content@, i + 1),
        r.0 <==> r.1 < content@.len(),
        i < r.1 <= content@.len(),
        r.0 ==> content@[r.1 as int] == '"',
    decreases content@.len(),
{
    let ghost s = content@;
    let n = content.len();
    let mut k: usize = i + 1;
    while k < n && content[k] != '"'
        invariant
            i + 1 <= k <= n,
            n == s.len(),
            s == content@,
            str_body_end(s, i + 1) == str_body_end(s, k as int),
        decreases n - k,
    {
        if content[k] == '\\' {
            if n - k >= 2 {
                k += 2;
            } else {
                proof {
                    assert(str_body_end(s, k as int) == s.len());
                }
                k = n;
            }
        } else {
            k += 1;
        }
    }
    proof {
        assert(str_body_end(s, k as int) == k as int || str_body_end(s, k as int) == s.len());
    }
    if k < n {
        (true, k)
    } else {
        (false, k)
    }
}

/// A fresh copy of `content[a..b]`.
fn copy_range(content: &[char], a: usize, b: usize) -> (r: Vec<char>)
    requires
        a <= b <= content@.len(),
    ensures
        r@ == content@.subrange(a as int, b as int),
{
    let mut out: Vec<char> = Vec::new();
    let mut m: usize = a;
    while m < b
        invariant
            a <= m <= b <= content@.len(),
            out@ == content@.subrange(a as int, m as int),
        decreases b - m,
    {
        out.push(content[m]);
        proof {
            assert(out@ =~= content@.subrange(a as int, m as int + 1));
        }
        m += 1;
    }
    out
}

pub proof fn lemma_digits_val_nonneg(s: Seq<char>)
    ensures
        digits_val(s) >= 0,
    decreases s.len(),
{
    if s.len() > 0 {
        lemma_digits_val_nonneg(s.drop_last());
    }
}

proof fn lemma_digits_val_prefix(s: Seq<char>, k: int)
    requires
        0 <= k <= s.len(),
    ensures
        digits_val(s.subrange(0, k)) <= digits_val(s),
    decreases s.len() - k,
{
    if k < s.len() {
        lemma_digits_val_prefix(s, k + 1);
        lemma_digits_val_nonneg(s.subrange(0, k));
        assert(s.subrange(0, k + 1).drop_last() =~= s.subrange(0, k));
        assert(digits_val(s.subrange(0, k + 1)) == digits_val(s.subrange(0, k)) * 10 + digit_val(
            s.subrange(0, k + 1).last(),
        ));
    } else {
        assert(s.subrange(0, k) =~= s);
    }
}

proof fn lemma_dot_count_zero(s: Seq<char>)
    ensures
        dot_count(s) >= 0,
        dot_count(s) == 0 ==> forall|j: int| 0 <= j < s.len() ==> s[j] != '.',
    decreases s.len(),
{
    if s.len() > 0 {
        lemma_dot_count_zero(s.drop_last());
        if dot_count(s) == 0 {
            assert forall|j: int| 0 <= j < s.len() implies s[j] != '.' by {
                if j < s.len() - 1 {
                    assert(s[j] == s.drop_last()[j]);
                } else {
                    assert(s[j] == s.last());
                }
            }
        }
    }
}

fn digit_val_of(c: char) -> (d: i64)
    requires
        is_digit_char(c),
    ensures
        d == digit_val(c),
        0 <= d <= 9,
{
    if c == '0' { 0 }
    else if c == '1' { 1 }
    else if c == '2' { 2 }
    else if c == '3' { 3 }
    else if c == '4' { 4 }
    else if c == '5' { 5 }
    else if c == '6' { 6 }
    else if c == '7' { 7 }
    else if c == '8' { 8 }
    else { 9 }
}

/// Reads a digit run as an integer; `None` when the value exceeds `i64`.
fn parse_digits(run: &Vec<char>) -> (r: Option<i64>)
    requires
        forall|m: int| 0 <= m < run@.len() ==> is_digit_char(#[trigger] run@[m]),
    ensures
        match r {
            Some(v) => 0 <= v && v as int == digits_val(run@),
            None => digits_val(run@) > i64::MAX as int,
        },
{
    let mut acc: i64 = 0;
    let mut k: usize = 0;
    proof {
        assert(run@.subrange(0, 0) =~= Seq::<char>::empty());
    }
    while k < run.len()
        invariant
            k <= run@.len(),
            forall|m: int| 0 <= m < run@.len() ==> is_digit_char(#[trigger] run@[m]),
            0 <= acc,
            acc as int == digits_val(run@.subrange(0, k as int)),
        decreases run@.len() - k,
    {
        let d = digit_val_of(run[k]);
        proof {
            assert(run@.subrange(0, k as int + 1).drop_last() =~= run@.subrange(0, k as int));
            assert(run@.subrange(0, k as int + 1).last() == run@[k as int]);
        }
        if acc > (i64::MAX - d) / 10 {
            proof {
                assert(digits_val(run@.subrange(0, k as int + 1)) > i64::MAX as int);
                lemma_digits_val_prefix(run@, k as int + 1);
            }
            return None;
        }
        acc = acc * 10 + d;
        k += 1;
    }
    proof {
        assert(run@.subrange(0, run@.len() as int) =~= run@);
    }
    Some(acc)
}

/// Converts the whole source text into tokens, ending with the end-of-input
/// marker, or fails at the first defect: an unreadable numeric run, an
/// unterminated string literal, or a character that starts no token. The
/// result is exactly what `spec_lex_from` defines for this input.
pub fn lexer(content: &[char]) -> (r: Result<Vec<Token>, LexError>)
    ensures
        lex_output_matches(r, spec_lex_from(content@, 0)),
{
    let ghost s = content@;
    let n = content.len();
    let mut toks: Vec<Token> = Vec::new();
    let mut i: usize = 0;
    proof {
        assert(views_of_tokens(toks@) =~= Seq::<TokenView>::empty());
        lemma_cons_all_nil(spec_lex_from(s, 0));
    }
    while i < n
        invariant
            i <= n,
            n == s.len(),
            s == content@,
            spec_lex_from(s, 0) == cons_all(views_of_tokens(toks@), spec_lex_from(s, i as int)),
        decreases n - i,
    {
        let c = content[i];
        if char_is_space(c) {
            i += 1;
        } else if char_is_ident_start(c) {
            let (run, end) = scan_ident_run(content, i);
            let tok = keyword_or_identifier(run);
            proof {
                lemma_step(s, toks@, tok, i as int, end as int);
            }
            toks.push(tok);
            i = end;
        } else if char_is_digit(c) {
            let (run, end, dots) = scan_num_run(content, i);
            if dots == 0 {
                proof {
                    lemma_dot_count_zero(run@);
                }
                match parse_digits(&run) {
                    Some(v) => {
                        let tok = Token::Integer(v);
                        proof {
                            lemma_step(s, toks@, tok, i as int, end as int);
                        }
                        toks.push(tok);
                        i = end;
                    },
                    None => {
                        return Err(LexError::InvalidNumber(run));
                    },
                }
            } else if dots == 1 {
                let tok = Token::Float(run);
                proof {
                    lemma_step(s, toks@, tok, i as int, end as int);
                }
                toks.push(tok);
                i = end;
            } else {
                return Err(LexError::InvalidNumber(run));
            }
        } else if c == '"' {
            let (found, end) = scan_str_body(content, i);
            if !found {
                return Err(LexError::UnterminatedString);
            }
            let body = copy_range(content, i + 1, end);
            let tok = Token::Str(body);
            proof {
                lemma_step(s, toks@, tok, i as int, end as int + 1);
            }
            toks.push(tok);
            i = end + 1;
        } else if c == '=' {
            if i + 1 < n && content[i + 1] == '=' {
                let tok = Token::EqEq;
                proof {
                    lemma_step(s, toks@, tok, i as int, i as int + 2);
                }
                toks.push(tok);
                i += 2;
            } else {
                let tok = Token::Assign;
                proof {
                    lemma_step(s, toks@, tok, i as int, i as int + 1);
                }
                toks.push(tok);
                i += 1;
            }
        } else if c == '!' {
            if i + 1 < n && content[i + 1] == '=' {
                let tok = Token::NotEq;
                proof {
                    lemma_step(s, toks@, tok, i as int, i as int + 2);
                }
                toks.push(tok);
                i += 2;
            } else {
                return Err(LexError::UnexpectedChar(i));
            }
        } else if c == '>' {
            if i + 1 < n && content[i + 1] == '=' {
                let tok = Token::GreaterEq;
                proof {
                    lemma_step(s, toks@, tok, i as int, i as int + 2);
                }
                toks.push(tok);
                i += 2;
            } else {
                let tok = Token::Greater;
                proof {
                    lemma_step(s, toks@, tok, i as int, i as int + 1);
                }
                toks.push(tok);
                i += 1;
            }
        } else if c == '<' {
            if i + 1 < n && content[i + 1] == '=' {
                let tok = Token::LessEq;
                proof {
                    lemma_step(s, toks@, tok, i as int, i as int + 2);
                }
                toks.push(tok);
                i += 2;
            } else {
                let tok = Token::Less;
                proof {
                    lemma_step(s, toks@, tok, i as int, i as int + 1);
                }
                toks.push(tok);
                i += 1;
            }
        } else if c == '.' {
            if i + 1 < n && content[i + 1] == '.' {
                let tok = Token::Range;
                proof {
                    lemma_step(s, toks@, tok, i as int, i as int + 2);
                }
                toks.push(tok);
                i += 2;
            } else {
                let tok = Token::Dot;
                proof {
                    lemma_step(s, toks@, tok, i as int, i as int + 1);
                }
                toks.push(tok);
                i += 1;
            }
        } else {
            let tok = match c {
                '+' => Token::Plus,
                '-' => Token::Minus,
                '*' => Token::Multiply,
                '/' => Token::Divide,
                '(' => Token::LParen,
                ')' => Token::RParen,
                '[' => Token::LBracket,
                ']' => Token::RBracket,
                '{' => Token::LBrace,
                '}' => Token::RBrace,
                ':' => Token::Colon,
                ',' => Token::Comma,
                ';' => Token::Semicolon,
                _ => {
                    return Err(LexError::UnexpectedChar(i));
                },
            };
            proof {
                lemma_step(s, toks@, tok, i as int, i as int + 1);
            }
            toks.push(tok);
            i += 1;
        }
    }
    let ghost done = views_of_tokens(toks@);
    toks.push(Token::EOF);
    proof {
        assert(spec_lex_from(s, i as int) == Ok::<Seq<TokenView>, LexErrorView>(
            seq![TokenView::EOF],
        ));
        assert(views_of_tokens(toks@) =~= done.push(TokenView::EOF));
        assert(done.push(TokenView::EOF) =~= done + seq![TokenView::EOF]);
    }
    Ok(toks)
}

} // verus!
