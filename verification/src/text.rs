//! Canonical textual form of tokens.
//!
//! Every token other than the end-of-input marker has a canonical text; a
//! token sequence renders as those texts joined by single spaces. The keyword
//! table lives here as well, shared by the lexer (which classifies identifier
//! runs) and the renderer (which prints keyword tokens back out).

use vstd::prelude::*;

use crate::tokens::Token;
use crate::tokens::TokenView;
use crate::tokens::views_of_tokens;
use crate::tokens::is_digit_char;
use crate::tokens::is_ident_start_char;
use crate::tokens::is_ident_char;

verus! {

/// The fixed keyword table: identifier runs that are keywords, type markers
/// or word operators rather than identifiers.
pub open spec fn spec_keyword(s: Seq<char>) -> Option<TokenView> {
    if s == seq!['i', 'n', 't'] {
        Some(TokenView::TypeInt)
    } else if s == seq!['f', 'l', 'o', 'a', 't'] {
        Some(TokenView::TypeFloat)
    } else if s == seq!['s', 't', 'r', 'i', 'n', 'g'] {
        Some(TokenView::TypeString)
    } else if s == seq!['b', 'o', 'o', 'l'] {
        Some(TokenView::TypeBool)
    } else if s == seq!['l', 'i', 's', 't'] {
        Some(TokenView::TypeList)
    } else if s == seq!['l', 'e', 't'] {
        Some(TokenView::Let)
    } else if s == seq!['p', 'r', 'i', 'n', 't'] {
        Some(TokenView::Print)
    } else if s == seq!['i', 'f'] {
        Some(TokenView::If)
    } else if s == seq!['e', 'l', 's', 'e'] {
        Some(TokenView::Else)
    } else if s == seq!['w', 'h', 'i', 'l', 'e'] {
        Some(TokenView::While)
    } else if s == seq!['f', 'o', 'r'] {
        Some(TokenView::For)
    } else if s == seq!['f', 'n'] {
        Some(TokenView::Func)
    } else if s == seq!['r', 'e', 't', 'u', 'r', 'n'] {
        Some(TokenView::Return)
    } else if s == seq!['e', 'n', 'd'] {
        Some(TokenView::End)
    } else if s == seq!['t', 'r', 'u', 'e'] {
        Some(TokenView::Boolean(true))
    } else if s == seq!['f', 'a', 'l', 's', 'e'] {
        Some(TokenView::Boolean(false))
    } else if s == seq!['a', 'n', 'd'] {
        Some(TokenView::And)
    } else if s == seq!['o', 'r'] {
        Some(TokenView::Or)
    } else {
        None
    }
}

/// The token an identifier run lexes to: its keyword meaning where the table
/// has one, otherwise an identifier carrying the run itself.
pub open spec fn spec_word_token(s: Seq<char>) -> TokenView {
    match spec_keyword(s) {
        Some(k) => k,
        None => TokenView::Identifier(s),
    }
}

/// Executable lookup in the keyword table.
#[verifier::rlimit(60)]
pub fn keyword_or_identifier(v: Vec<char>) -> (t: Token)
    ensures
        t@ == spec_word_token(v@),
{
    let n = v.len();
    if n == 2 {
        if v[0] == 'i' && v[1] == 'f' {
            proof { assert(v@ =~= seq!['i', 'f']); }
            return Token::If;
        }
        if v[0] == 'f' && v[1] == 'n' {
            proof { assert(v@ =~= seq!['f', 'n']); }
            return Token::Func;
        }
        if v[0] == 'o' && v[1] == 'r' {
            proof { assert(v@ =~= seq!['o', 'r']); }
            return Token::Or;
        }
    } else if n == 3 {
        if v[0] == 'i' && v[1] == 'n' && v[2] == 't' {
            proof { assert(v@ =~= seq!['i', 'n', 't']); }
            return Token::TypeInt;
        }
        if v[0] == 'l' && v[1] == 'e' && v[2] == 't' {
            proof { assert(v@ =~= seq!['l', 'e', 't']); }
            return Token::Let;
        }
        if v[0] == 'f' && v[1] == 'o' && v[2] == 'r' {
            proof { assert(v@ =~= seq!['f', 'o', 'r']); }
            return Token::For;
        }
        if v[0] == 'e' && v[1] == 'n' && v[2] == 'd' {
            proof { assert(v@ =~= seq!['e', 'n', 'd']); }
            return Token::End;
        }
        if v[0] == 'a' && v[1] == 'n' && v[2] == 'd' {
            proof { assert(v@ =~= seq!['a', 'n', 'd']); }
            return Token::And;
        }
    } else if n == 4 {
        if v[0] == 'b' && v[1] == 'o' && v[2] == 'o' && v[3] == 'l' {
            proof { assert(v@ =~= seq!['b', 'o', 'o', 'l']); }
            return Token::TypeBool;
        }
        if v[0] == 'l' && v[1] == 'i' && v[2] == 's' && v[3] == 't' {
            proof { assert(v@ =~= seq!['l', 'i', 's', 't']); }
            return Token::TypeList;
        }
        if v[0] == 'e' && v[1] == 'l' && v[2] == 's' && v[3] == 'e' {
            proof { assert(v@ =~= seq!['e', 'l', 's', 'e']); }
            return Token::Else;
        }
        if v[0] == 't' && v[1] == 'r' && v[2] == 'u' && v[3] == 'e' {
            proof { assert(v@ =~= seq!['t', 'r', 'u', 'e']); }
            return Token::Boolean(true);
        }
    } else if n == 5 {
        if v[0] == 'f' && v[1] == 'l' && v[2] == 'o' && v[3] == 'a' && v[4] == 't' {
            proof { assert(v@ =~= seq!['f', 'l', 'o', 'a', 't']); }
            return Token::TypeFloat;
        }
        if v[0] == 'p' && v[1] == 'r' && v[2] == 'i' && v[3] == 'n' && v[4] == 't' {
            proof { assert(v@ =~= seq!['p', 'r', 'i', 'n', 't']); }
            return Token::Print;
        }
        if v[0] == 'w' && v[1] == 'h' && v[2] == 'i' && v[3] == 'l' && v[4] == 'e' {
            proof { assert(v@ =~= seq!['w', 'h', 'i', 'l', 'e']); }
            return Token::While;
        }
        if v[0] == 'f' && v[1] == 'a' && v[2] == 'l' && v[3] == 's' && v[4] == 'e' {
            proof { assert(v@ =~= seq!['f', 'a', 'l', 's', 'e']); }
            return Token::Boolean(false);
        }
    } else if n == 6 {
        if v[0] == 's' && v[1] == 't' && v[2] == 'r' && v[3] == 'i' && v[4] == 'n' && v[5] == 'g' {
            proof { assert(v@ =~= seq!['s', 't', 'r', 'i', 'n', 'g']); }
            return Token::TypeString;
        }
        if v[0] == 'r' && v[1] == 'e' && v[2] == 't' && v[3] == 'u' && v[4] == 'r' && v[5] == 'n' {
            proof { assert(v@ =~= seq!['r', 'e', 't', 'u', 'r', 'n']); }
            return Token::Return;
        }
    }
    Token::Identifier(v)
}

/// The character for one decimal digit value.
pub open spec fn digit_char(d: int) -> char {
    if d == 0 { '0' }
    else if d == 1 { '1' }
    else if d == 2 { '2' }
    else if d == 3 { '3' }
    else if d == 4 { '4' }
    else if d == 5 { '5' }
    else if d == 6 { '6' }
    else if d == 7 { '7' }
    else if d == 8 { '8' }
    else { '9' }
}

/// The value of one decimal digit character.
pub open spec fn digit_val(c: char) -> int {
    if c == '0' { 0 }
    else if c == '1' { 1 }
    else if c == '2' { 2 }
    else if c == '3' { 3 }
    else if c == '4' { 4 }
    else if c == '5' { 5 }
    else if c == '6' { 6 }
    else if c == '7' { 7 }
    else if c == '8' { 8 }
    else { 9 }
}

/// Decimal digits of a nonnegative number, most significant first.
pub open spec fn digits_of(n: int) -> Seq<char>
    recommends
        n >= 0,
    decreases n,
{
    if n <= 9 {
        seq![digit_char(n)]
    } else {
        digits_of(n / 10).push(digit_char(n % 10))
    }
}

/// The number a digit run denotes, read left to right.
pub open spec fn digits_val(s: Seq<char>) -> int
    decreases s.len(),
{
    if s.len() == 0 {
        0
    } else {
        digits_val(s.drop_last()) * 10 + digit_val(s.last())
    }
}

/// How many decimal points a run of characters holds.
pub open spec fn dot_count(s: Seq<char>) -> int
    decreases s.len(),
{
    if s.len() == 0 {
        0
    } else {
        dot_count(s.drop_last()) + if s.last() == '.' { 1int } else { 0int }
    }
}

/// The canonical text of an integer, a minus sign before the digits when it
/// is negative.
pub open spec fn int_text(n: int) -> Seq<char> {
    if n < 0 {
        seq!['-'] + digits_of(-n)
    } else {
        digits_of(n)
    }
}

/// A well-formed float lexeme: digits with exactly one decimal point, not in
/// the leading position.
pub open spec fn wf_float_lexeme(s: Seq<char>) -> bool {
    &&& s.len() >= 2
    &&& is_digit_char(s[0])
    &&& dot_count(s) == 1
    &&& forall|i: int| 0 <= i < s.len() ==> is_digit_char(#[trigger] s[i]) || s[i] == '.'
}

/// A string payload the lexer's own scan accepts whole: walked from the
/// left, skipping a character after each backslash, it never meets an
/// unescaped quote and never ends inside an escape. Every payload the
/// lexer produces has this shape, and exactly these payloads survive a
/// render-and-relex round trip.
pub open spec fn str_scan_ok(v: Seq<char>) -> bool
    decreases v.len(),
{
    if v.len() == 0 {
        true
    } else if v[0] == '"' {
        false
    } else if v[0] == '\\' {
        v.len() >= 2 && str_scan_ok(v.skip(2))
    } else {
        str_scan_ok(v.skip(1))
    }
}

/// A well-formed identifier name: nonempty, an identifier run, and not a
/// keyword.
pub open spec fn wf_ident(s: Seq<char>) -> bool {
    &&& s.len() > 0
    &&& is_ident_start_char(s[0])
    &&& forall|i: int| 0 <= i < s.len() ==> is_ident_char(#[trigger] s[i])
    &&& spec_keyword(s) is None
}

/// A token the lexer can produce and the renderer can print back: payloads
/// are well formed, and the end-of-input marker is excluded (it has no text).
pub open spec fn wf_token(t: TokenView) -> bool {
    match t {
        TokenView::Identifier(s) => wf_ident(s),
        TokenView::Integer(n) => 0 <= n <= i64::MAX,
        TokenView::Float(s) => wf_float_lexeme(s),
        TokenView::Str(s) => str_scan_ok(s),
        TokenView::EOF => false,
        _ => true,
    }
}

/// The canonical text of one token.
pub open spec fn token_text(t: TokenView) -> Seq<char> {
    match t {
        TokenView::TypeInt => seq!['i', 'n', 't'],
        TokenView::TypeFloat => seq!['f', 'l', 'o', 'a', 't'],
        TokenView::TypeString => seq!['s', 't', 'r', 'i', 'n', 'g'],
        TokenView::TypeBool => seq!['b', 'o', 'o', 'l'],
        TokenView::TypeList => seq!['l', 'i', 's', 't'],
        TokenView::Let => seq!['l', 'e', 't'],
        TokenView::Print => seq!['p', 'r', 'i', 'n', 't'],
        TokenView::If => seq!['i', 'f'],
        TokenView::Else => seq!['e', 'l', 's', 'e'],
        TokenView::While => seq!['w', 'h', 'i', 'l', 'e'],
        TokenView::For => seq!['f', 'o', 'r'],
        TokenView::Func => seq!['f', 'n'],
        TokenView::Return => seq!['r', 'e', 't', 'u', 'r', 'n'],
        TokenView::End => seq!['e', 'n', 'd'],
        TokenView::Identifier(s) => s,
        TokenView::Integer(n) => int_text(n),
        TokenView::Float(s) => s,
        TokenView::Str(s) => seq!['"'] + s + seq!['"'],
        TokenView::Boolean(b) => if b {
            seq!['t', 'r', 'u', 'e']
        } else {
            seq!['f', 'a', 'l', 's', 'e']
        },
        TokenView::Assign => seq!['='],
        TokenView::Plus => seq!['+'],
        TokenView::Minus => seq!['-'],
        TokenView::Multiply => seq!['*'],
        TokenView::Divide => seq!['/'],
        TokenView::EqEq => seq!['=', '='],
        TokenView::NotEq => seq!['!', '='],
        TokenView::Greater => seq!['>'],
        TokenView::Less => seq!['<'],
        TokenView::GreaterEq => seq!['>', '='],
        TokenView::LessEq => seq!['<', '='],
        TokenView::And => seq!['a', 'n', 'd'],
        TokenView::Or => seq!['o', 'r'],
        TokenView::LParen => seq!['('],
        TokenView::RParen => seq![')'],
        TokenView::LBracket => seq!['['],
        TokenView::RBracket => seq![']'],
        TokenView::LBrace => seq!['{'],
        TokenView::RBrace => seq!['}'],
        TokenView::Colon => seq![':'],
        TokenView::Comma => seq![','],
        TokenView::Dot => seq!['.'],
        TokenView::Semicolon => seq![';'],
        TokenView::Range => seq!['.', '.'],
        TokenView::EOF => Seq::<char>::empty(),
    }
}

/// A token sequence's canonical text: the tokens' texts joined by single
/// spaces.
pub open spec fn render_text(ts: Seq<TokenView>) -> Seq<char>
    decreases ts.len(),
{
    if ts.len() == 0 {
        Seq::<char>::empty()
    } else if ts.len() == 1 {
        token_text(ts[0])
    } else {
        token_text(ts[0]) + seq![' '] + render_text(ts.drop_first())
    }
}

/// Executable digit for a digit value.
fn digit_char_of(d: u64) -> (c: char)
    requires
        d <= 9,
    ensures
        c == digit_char(d as int),
{
    if d == 0 { '0' }
    else if d == 1 { '1' }
    else if d == 2 { '2' }
    else if d == 3 { '3' }
    else if d == 4 { '4' }
    else if d == 5 { '5' }
    else if d == 6 { '6' }
    else if d == 7 { '7' }
    else if d == 8 { '8' }
    else { '9' }
}

/// Appends the decimal digits of `m` to `out`, most significant first.
fn push_digits(out: &mut Vec<char>, m: u64)
    ensures
        final(out)@ == old(out)@ + digits_of(m as int),
    decreases m,
{
    if m <= 9 {
        out.push(digit_char_of(m));
        proof {
            assert(final(out)@ =~= old(out)@ + digits_of(m as int));
        }
    } else {
        push_digits(out, m / 10);
        out.push(digit_char_of(m % 10));
        proof {
            assert(final(out)@ =~= old(out)@ + digits_of(m as int));
        }
    }
}

/// A fresh copy of a character vector.
pub fn copy_chars(v: &Vec<char>) -> (r: Vec<char>)
    ensures
        r@ == v@,
{
    let mut out: Vec<char> = Vec::new();
    let mut i: usize = 0;
    while i < v.len()
        invariant
            i <= v@.len(),
            out@ == v@.subrange(0, i as int),
        decreases v@.len() - i,
    {
        out.push(v[i]);
        proof {
            assert(out@ =~= v@.subrange(0, i + 1 as int));
        }
        i += 1;
    }
    proof {
        assert(out@ =~= v@);
    }
    out
}

/// A fresh copy of a token, equal to the original in view.
pub fn token_copy(t: &Token) -> (r: Token)
    ensures
        r@ == t@,
{
    match t {
        Token::TypeInt => Token::TypeInt,
        Token::TypeFloat => Token::TypeFloat,
        Token::TypeString => Token::TypeString,
        Token::TypeBool => Token::TypeBool,
        Token::TypeList => Token::TypeList,
        Token::Let => Token::Let,
        Token::Print => Token::Print,
        Token::If => Token::If,
        Token::Else => Token::Else,
        Token::While => Token::While,
        Token::For => Token::For,
        Token::Func => Token::Func,
        Token::Return => Token::Return,
        Token::End => Token::End,
        Token::Identifier(v) => Token::Identifier(copy_chars(v)),
        Token::Integer(n) => Token::Integer(*n),
        Token::Float(v) => Token::Float(copy_chars(v)),
        Token::Str(v) => Token::Str(copy_chars(v)),
        Token::Boolean(b) => Token::Boolean(*b),
        Token::Assign => Token::Assign,
        Token::Plus => Token::Plus,
        Token::Minus => Token::Minus,
        Token::Multiply => Token::Multiply,
        Token::Divide => Token::Divide,
        Token::EqEq => Token::EqEq,
        Token::NotEq => Token::NotEq,
        Token::Greater => Token::Greater,
        Token::Less => Token::Less,
        Token::GreaterEq => Token::GreaterEq,
        Token::LessEq => Token::LessEq,
        Token::And => Token::And,
        Token::Or => Token::Or,
        Token::LParen => Token::LParen,
        Token::RParen => Token::RParen,
        Token::LBracket => Token::LBracket,
        Token::RBracket => Token::RBracket,
        Token::LBrace => Token::LBrace,
        Token::RBrace => Token::RBrace,
        Token::Colon => Token::Colon,
        Token::Comma => Token::Comma,
        Token::Dot => Token::Dot,
        Token::Semicolon => Token::Semicolon,
        Token::Range => Token::Range,
        Token::EOF => Token::EOF,
    }
}

/// The canonical text of one token, as characters.
pub fn token_chars(t: &Token) -> (r: Vec<char>)
    ensures
        r@ == token_text(t@),
{
    match t {
        Token::Identifier(v) => copy_chars(v),
        Token::Float(v) => copy_chars(v),
        Token::Str(v) => {
            let mut out: Vec<char> = Vec::new();
            out.push('"');
            let mut i: usize = 0;
            while i < v.len()
                invariant
                    i <= v@.len(),
                    out@ == seq!['"'] + v@.subrange(0, i as int),
                decreases v@.len() - i,
            {
                out.push(v[i]);
                proof {
                    assert(out@ =~= seq!['"'] + v@.subrange(0, i + 1 as int));
                }
                i += 1;
            }
            out.push('"');
            proof {
                assert(out@ =~= seq!['"'] + v@ + seq!['"']);
            }
            out
        },
        Token::Integer(n) => {
            let mut out: Vec<char> = Vec::new();
            if *n >= 0 {
                push_digits(&mut out, *n as u64);
            } else {
                out.push('-');
                let m: u64 = (-((*n) as i128)) as u64;
                push_digits(&mut out, m);
            }
            proof {
                assert(out@ =~= token_text(t@));
            }
            out
        },
        _ => {
            let mut out: Vec<char> = Vec::new();
            match t {
                Token::TypeInt => { out.push('i'); out.push('n'); out.push('t'); },
                Token::TypeFloat => {
                    out.push('f'); out.push('l'); out.push('o'); out.push('a'); out.push('t');
                },
                Token::TypeString => {
                    out.push('s'); out.push('t'); out.push('r'); out.push('i'); out.push('n');
                    out.push('g');
                },
                Token::TypeBool => { out.push('b'); out.push('o'); out.push('o'); out.push('l'); },
                Token::TypeList => { out.push('l'); out.push('i'); out.push('s'); out.push('t'); },
                Token::Let => { out.push('l'); out.push('e'); out.push('t'); },
                Token::Print => {
                    out.push('p'); out.push('r'); out.push('i'); out.push('n'); out.push('t');
                },
                Token::If => { out.push('i'); out.push('f'); },
                Token::Else => { out.push('e'); out.push('l'); out.push('s'); out.push('e'); },
                Token::While => {
                    out.push('w'); out.push('h'); out.push('i'); out.push('l'); out.push('e');
                },
                Token::For => { out.push('f'); out.push('o'); out.push('r'); },
                Token::Func => { out.push('f'); out.push('n'); },
                Token::Return => {
                    out.push('r'); out.push('e'); out.push('t'); out.push('u'); out.push('r');
                    out.push('n');
                },
                Token::End => { out.push('e'); out.push('n'); out.push('d'); },
                Token::Boolean(b) => {
                    if *b {
                        out.push('t'); out.push('r'); out.push('u'); out.push('e');
                    } else {
                        out.push('f'); out.push('a'); out.push('l'); out.push('s'); out.push('e');
                    }
                },
                Token::Assign => { out.push('='); },
                Token::Plus => { out.push('+'); },
                Token::Minus => { out.push('-'); },
                Token::Multiply => { out.push('*'); },
                Token::Divide => { out.push('/'); },
                Token::EqEq => { out.push('='); out.push('='); },
                Token::NotEq => { out.push('!'); out.push('='); },
                Token::Greater => { out.push('>'); },
                Token::Less => { out.push('<'); },
                Token::GreaterEq => { out.push('>'); out.push('='); },
                Token::LessEq => { out.push('<'); out.push('='); },
                Token::And => { out.push('a'); out.push('n'); out.push('d'); },
                Token::Or => { out.push('o'); out.push('r'); },
                Token::LParen => { out.push('('); },
                Token::RParen => { out.push(')'); },
                Token::LBracket => { out.push('['); },
                Token::RBracket => { out.push(']'); },
                Token::LBrace => { out.push('{'); },
                Token::RBrace => { out.push('}'); },
                Token::Colon => { out.push(':'); },
                Token::Comma => { out.push(','); },
                Token::Dot => { out.push('.'); },
                Token::Semicolon => { out.push(';'); },
                Token::Range => { out.push('.'); out.push('.'); },
                Token::EOF => {},
                _ => {},
            }
            proof {
                assert(out@ =~= token_text(t@));
            }
            out
        },
    }
}

/// The canonical text of a token sequence: the tokens' texts joined by
/// single spaces.
pub fn render_tokens(ts: &Vec<Token>) -> (r: Vec<char>)
    ensures
        r@ == render_text(views_of_tokens(ts@)),
{
    let ghost vs: Seq<TokenView> = views_of_tokens(ts@);
    let mut out: Vec<char> = Vec::new();
    let mut i: usize = 0;
    while i < ts.len()
        invariant
            i <= ts@.len(),
            vs == views_of_tokens(ts@),
            vs.len() == ts@.len(),
            i == 0 ==> out@ =~= Seq::<char>::empty(),
            0 < i < vs.len() ==> render_text(vs) == out@ + seq![' '] + render_text(vs.skip(i as int)),
            i == vs.len() && i > 0 ==> render_text(vs) == out@,
        decreases ts@.len() - i,
    {
        if i > 0 {
            out.push(' ');
        }
        let mut piece = token_chars(&ts[i]);
        proof {
            assert(vs[i as int] == ts@[i as int]@);
            if i + 1 < vs.len() {
                assert(vs.skip(i as int).drop_first() =~= vs.skip(i as int + 1));
                assert(vs.skip(i as int)[0] == vs[i as int]);
            } else {
                assert(vs.skip(i as int).len() == 1);
                assert(vs.skip(i as int)[0] == vs[i as int]);
            }
        }
        out.append(&mut piece);
        i += 1;
    }
    out
}

} // verus!
