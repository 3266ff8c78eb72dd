//! Laws of the library, stated and proved as public proof functions.
//!
//! The central one is the render/lex round trip: lexing the canonical text
//! of any well-formed token sequence yields exactly that sequence again
//! (followed by the end-of-input marker). The scope-shadowing law shows
//! that a declaration in a nested scope leaves the outer bindings exactly
//! as they were once the scope is closed.

use vstd::prelude::*;

use crate::lexer::ident_run_end;
use crate::lexer::num_run_end;
use crate::lexer::str_body_end;
use crate::lexer::spec_lex_from;
use crate::lexer::cons_token;
use crate::tokens::TokenView;
use crate::tokens::is_digit_char;
use crate::tokens::is_ident_start_char;
use crate::tokens::is_ident_char;
use crate::tokens::is_space_char;
use crate::errors::LexErrorView;
use crate::parser::BindingView;
use crate::parser::find_in_scope;
use crate::parser::lookup_model;
use crate::text::digit_char;
use crate::text::digit_val;
use crate::text::digits_of;
use crate::text::digits_val;
use crate::text::dot_count;
use crate::text::render_text;
use crate::text::spec_word_token;
use crate::text::str_scan_ok;
use crate::text::token_text;
use crate::text::wf_token;
use crate::text::wf_ident;
use crate::text::wf_float_lexeme;
use crate::text::spec_keyword;

verus! {

/// An identifier run ends exactly at the first non-identifier character.
proof fn lemma_ident_run_end_at(s: Seq<char>, i: int, e: int)
    requires
        0 <= i <= e <= s.len(),
        forall|k: int| i <= k < e ==> is_ident_char(#[trigger] s[k]),
        e == s.len() || !is_ident_char(s[e]),
    ensures
        ident_run_end(s, i) == e,
    decreases e - i,
{
    if i < e {
        lemma_ident_run_end_at(s, i + 1, e);
    }
}

/// Every character inside an identifier run is an identifier character,
/// and the run stops at the end of input or at a non-identifier character.
proof fn lemma_ident_run_end_props(s: Seq<char>, i: int)
    requires
        0 <= i <= s.len(),
    ensures
        i <= ident_run_end(s, i) <= s.len(),
        forall|k: int| i <= k < ident_run_end(s, i) ==> is_ident_char(#[trigger] s[k]),
        ident_run_end(s, i) == s.len() || !is_ident_char(s[ident_run_end(s, i)]),
    decreases s.len() - i,
{
    if i < s.len() && is_ident_char(s[i]) {
        lemma_ident_run_end_props(s, i + 1);
    }
}

/// A numeric run ends exactly at the first character that is neither a
/// digit nor a decimal point.
proof fn lemma_num_run_end_at(s: Seq<char>, i: int, e: int)
    requires
        0 <= i <= e <= s.len(),
        forall|k: int| i <= k < e ==> is_digit_char(#[trigger] s[k]) || s[k] == '.',
        e == s.len() || !(is_digit_char(s[e]) || s[e] == '.'),
    ensures
        num_run_end(s, i) == e,
    decreases e - i,
{
    if i < e {
        lemma_num_run_end_at(s, i + 1, e);
    }
}

proof fn lemma_num_run_end_props(s: Seq<char>, i: int)
    requires
        0 <= i <= s.len(),
    ensures
        i <= num_run_end(s, i) <= s.len(),
        forall|k: int|
            i <= k < num_run_end(s, i) ==> is_digit_char(#[trigger] s[k]) || s[k] == '.',
        num_run_end(s, i) == s.len() || !(is_digit_char(s[num_run_end(s, i)]) || s[num_run_end(
            s,
            i,
        )] == '.'),
    decreases s.len() - i,
{
    if i < s.len() && (is_digit_char(s[i]) || s[i] == '.') {
        lemma_num_run_end_props(s, i + 1);
    }
}

/// A string body whose payload the string scan accepts ends exactly at
/// the closing quote that follows the payload.
proof fn lemma_str_scan_to_end(s: Seq<char>, i: int, e: int)
    requires
        0 <= i <= e < s.len(),
        str_scan_ok(s.subrange(i, e)),
        s[e] == '"',
    ensures
        str_body_end(s, i) == e,
    decreases e - i,
{
    if i < e {
        let v = s.subrange(i, e);
        assert(v[0] == s[i]);
        if s[i] == '\\' {
            assert(v.len() >= 2);
            assert(v.skip(2) =~= s.subrange(i + 2, e));
            lemma_str_scan_to_end(s, i + 2, e);
        } else {
            assert(v.skip(1) =~= s.subrange(i + 1, e));
            lemma_str_scan_to_end(s, i + 1, e);
        }
    }
}

/// The payload between an opening quote and the closing quote the scan
/// finds is accepted whole by the string scan.
proof fn lemma_str_body_scan_ok(s: Seq<char>, i: int)
    requires
        0 <= i <= s.len(),
        str_body_end(s, i) < s.len(),
    ensures
        str_scan_ok(s.subrange(i, str_body_end(s, i))),
    decreases s.len() - i,
{
    let e = str_body_end(s, i);
    crate::lexer::lemma_str_body_end_bounds(s, i);
    if i < s.len() {
        if s[i] == '"' {
            assert(s.subrange(i, e) =~= Seq::<char>::empty());
        } else if s[i] == '\\' {
            assert(i + 2 <= s.len());
            lemma_str_body_scan_ok(s, i + 2);
            crate::lexer::lemma_str_body_end_bounds(s, i + 2);
            let v = s.subrange(i, e);
            assert(v[0] == '\\');
            assert(v.len() >= 2);
            assert(v.skip(2) =~= s.subrange(i + 2, e));
        } else {
            lemma_str_body_scan_ok(s, i + 1);
            crate::lexer::lemma_str_body_end_bounds(s, i + 1);
            let v = s.subrange(i, e);
            assert(v[0] == s[i]);
            assert(v.skip(1) =~= s.subrange(i + 1, e));
        }
    }
}

proof fn lemma_ident_run_end_shift(u: Seq<char>, v: Seq<char>, j: int)
    requires
        0 <= j <= v.len(),
    ensures
        ident_run_end(u + v, u.len() + j) == u.len() + ident_run_end(v, j),
{
    lemma_ident_run_end_props(v, j);
    let e = ident_run_end(v, j);
    assert forall|k: int| u.len() + j <= k < u.len() + e implies is_ident_char(
        #[trigger] (u + v)[k],
    ) by {
        assert((u + v)[k] == v[k - u.len()]);
    }
    if e < v.len() {
        assert((u + v)[u.len() + e] == v[e]);
    }
    lemma_ident_run_end_at(u + v, u.len() + j, u.len() + e);
}

proof fn lemma_num_run_end_shift(u: Seq<char>, v: Seq<char>, j: int)
    requires
        0 <= j <= v.len(),
    ensures
        num_run_end(u + v, u.len() + j) == u.len() + num_run_end(v, j),
{
    lemma_num_run_end_props(v, j);
    let e = num_run_end(v, j);
    assert forall|k: int|
        u.len() + j <= k < u.len() + e implies is_digit_char(#[trigger] (u + v)[k]) || (u + v)[k]
        == '.' by {
        assert((u + v)[k] == v[k - u.len()]);
    }
    if e < v.len() {
        assert((u + v)[u.len() + e] == v[e]);
    }
    lemma_num_run_end_at(u + v, u.len() + j, u.len() + e);
}

proof fn lemma_str_body_end_shift(u: Seq<char>, v: Seq<char>, j: int)
    requires
        0 <= j <= v.len(),
    ensures
        str_body_end(u + v, u.len() + j) == if str_body_end(v, j) == v.len() {
            (u + v).len() as int
        } else {
            u.len() + str_body_end(v, j)
        },
    decreases v.len() - j,
{
    if j < v.len() {
        assert((u + v)[u.len() + j] == v[j]);
        if v[j] == '"' {
        } else if v[j] == '\\' {
            if j + 2 <= v.len() {
                lemma_str_body_end_shift(u, v, j + 2);
            }
        } else {
            lemma_str_body_end_shift(u, v, j + 1);
        }
    }
}

/// Lexing is unaffected by the text standing before the position it reads
/// from: a successful outcome from position `j` of `v` is the outcome from
/// the corresponding position of `u + v`.
proof fn lemma_lex_shift(u: Seq<char>, v: Seq<char>, j: int, out: Seq<TokenView>)
    requires
        0 <= j <= v.len(),
        spec_lex_from(v, j) == Result::<Seq<TokenView>, LexErrorView>::Ok(out),
    ensures
        spec_lex_from(u + v, u.len() + j) == Result::<Seq<TokenView>, LexErrorView>::Ok(out),
    decreases v.len() - j,
{
    let s = u + v;
    let n = u.len() as int;
    if j >= v.len() {
    } else {
        let c = v[j];
        assert(s[n + j] == c);
        if is_space_char(c) {
            lemma_lex_shift(u, v, j + 1, out);
        } else if is_ident_start_char(c) {
            lemma_ident_run_end_shift(u, v, j + 1);
            lemma_ident_run_end_props(v, j + 1);
            let e = ident_run_end(v, j + 1);
            assert(s.subrange(n + j, n + e) =~= v.subrange(j, e));
            match spec_lex_from(v, e) {
                Ok(ts) => {
                    lemma_lex_shift(u, v, e, ts);
                },
                Err(_) => {
                    assert(false);
                },
            }
        } else if is_digit_char(c) {
            lemma_num_run_end_shift(u, v, j + 1);
            lemma_num_run_end_props(v, j + 1);
            let e = num_run_end(v, j + 1);
            assert(s.subrange(n + j, n + e) =~= v.subrange(j, e));
            match spec_lex_from(v, e) {
                Ok(ts) => {
                    lemma_lex_shift(u, v, e, ts);
                },
                Err(_) => {
                    assert(false);
                },
            }
        } else if c == '"' {
            lemma_str_body_end_shift(u, v, j + 1);
            let e = str_body_end(v, j + 1);
            assert(e != v.len());
            crate::lexer::lemma_str_body_end_bounds(v, j + 1);
            assert(s.subrange(n + j + 1, n + e) =~= v.subrange(j + 1, e));
            match spec_lex_from(v, e + 1) {
                Ok(ts) => {
                    lemma_lex_shift(u, v, e + 1, ts);
                },
                Err(_) => {
                    assert(false);
                },
            }
        } else if c == '=' || c == '!' || c == '>' || c == '<' || c == '.' {
            let two = j + 1 < v.len() && (if c == '.' {
                v[j + 1] == '.'
            } else {
                v[j + 1] == '='
            });
            if j + 1 < v.len() {
                assert(s[n + j + 1] == v[j + 1]);
            }
            assert(n + j + 1 < s.len() <==> j + 1 < v.len());
            if two {
                match spec_lex_from(v, j + 2) {
                    Ok(ts) => {
                        lemma_lex_shift(u, v, j + 2, ts);
                    },
                    Err(_) => {
                        assert(false);
                    },
                }
            } else {
                match spec_lex_from(v, j + 1) {
                    Ok(ts) => {
                        lemma_lex_shift(u, v, j + 1, ts);
                    },
                    Err(_) => {
                        assert(false);
                    },
                }
            }
        } else {
            match spec_lex_from(v, j + 1) {
                Ok(ts) => {
                    lemma_lex_shift(u, v, j + 1, ts);
                },
                Err(_) => {
                    assert(false);
                },
            }
        }
    }
}

/// The decimal digits of a nonnegative number are digit characters.
proof fn lemma_digits_of_all_digits(n: int)
    requires
        n >= 0,
    ensures
        digits_of(n).len() >= 1,
        forall|k: int| 0 <= k < digits_of(n).len() ==> is_digit_char(#[trigger] digits_of(n)[k]),
    decreases n,
{
    if n > 9 {
        lemma_digits_of_all_digits(n / 10);
        assert forall|k: int| 0 <= k < digits_of(n).len() implies is_digit_char(
            #[trigger] digits_of(n)[k],
        ) by {
            if k < digits_of(n).len() - 1 {
                assert(digits_of(n)[k] == digits_of(n / 10)[k]);
            }
        }
    }
}

/// The value of a digit's character is the digit.
proof fn lemma_digit_char_val(d: int)
    requires
        0 <= d <= 9,
    ensures
        digit_val(digit_char(d)) == d,
{
    if d == 0 {
    } else if d == 1 {
    } else if d == 2 {
    } else if d == 3 {
    } else if d == 4 {
    } else if d == 5 {
    } else if d == 6 {
    } else if d == 7 {
    } else {
    }
}

/// Reading the decimal digits of a number back gives the number: the
/// digit rendering and the digit valuation are inverse.
proof fn lemma_digits_val_of_digits(n: int)
    requires
        n >= 0,
    ensures
        digits_val(digits_of(n)) == n,
    decreases n,
{
    if n <= 9 {
        lemma_digit_char_val(n);
        assert(digits_of(n).drop_last() =~= Seq::<char>::empty());
        assert(digits_val(Seq::<char>::empty()) == 0);
        assert(digits_of(n).last() == digit_char(n));
    } else {
        lemma_digits_val_of_digits(n / 10);
        lemma_digit_char_val(n % 10);
        assert(digits_of(n).drop_last() =~= digits_of(n / 10));
        assert(digits_of(n).last() == digit_char(n % 10));
    }
}

/// A run of digit characters holds no decimal point.
proof fn lemma_dot_count_all_digits(s: Seq<char>)
    requires
        forall|k: int| 0 <= k < s.len() ==> is_digit_char(#[trigger] s[k]),
    ensures
        dot_count(s) == 0,
    decreases s.len(),
{
    if s.len() > 0 {
        assert forall|k: int|
            0 <= k < s.drop_last().len() implies is_digit_char(#[trigger] s.drop_last()[k]) by {
            assert(s.drop_last()[k] == s[k]);
        }
        lemma_dot_count_all_digits(s.drop_last());
        assert(s.last() == s[s.len() - 1]);
    }
}

/// Scanning an identifier run at the start of `w + rest`, where `w` is a
/// whole identifier-shaped word and `rest` begins with a separator,
/// consumes exactly `w` and yields its word token.
proof fn lemma_word_token(w: Seq<char>, rest: Seq<char>)
    requires
        w.len() > 0,
        is_ident_start_char(w[0]),
        forall|k: int| 0 <= k < w.len() ==> is_ident_char(#[trigger] w[k]),
        rest.len() == 0 || rest[0] == ' ',
    ensures
        spec_lex_from(w + rest, 0) == cons_token(
            spec_word_token(w),
            spec_lex_from(w + rest, w.len() as int),
        ),
{
    let s = w + rest;
    assert(s[0] == w[0]);
    assert forall|k: int| 1 <= k < w.len() implies is_ident_char(#[trigger] s[k]) by {
        assert(s[k] == w[k]);
    }
    if w.len() < s.len() {
        assert(s[w.len() as int] == rest[0]);
    }
    lemma_ident_run_end_at(s, 1, w.len() as int);
    assert(s.subrange(0, w.len() as int) =~= w);
}

/// Lexing the canonical text of one well-formed token, followed by rest
/// text that begins with a separator (or nothing), yields exactly that
/// token and continues after its text.
proof fn lemma_lex_one_token(t: TokenView, rest: Seq<char>)
    requires
        wf_token(t),
        rest.len() == 0 || rest[0] == ' ',
    ensures
        spec_lex_from(token_text(t) + rest, 0) == cons_token(
            t,
            spec_lex_from(token_text(t) + rest, token_text(t).len() as int),
        ),
{
    let w = token_text(t);
    let s = w + rest;
    match t {
        TokenView::TypeInt => lemma_word_token(w, rest),
        TokenView::TypeFloat => lemma_word_token(w, rest),
        TokenView::TypeString => lemma_word_token(w, rest),
        TokenView::TypeBool => lemma_word_token(w, rest),
        TokenView::TypeList => lemma_word_token(w, rest),
        TokenView::Let => lemma_word_token(w, rest),
        TokenView::Print => lemma_word_token(w, rest),
        TokenView::If => lemma_word_token(w, rest),
        TokenView::Else => lemma_word_token(w, rest),
        TokenView::While => lemma_word_token(w, rest),
        TokenView::For => lemma_word_token(w, rest),
        TokenView::Func => lemma_word_token(w, rest),
        TokenView::Return => lemma_word_token(w, rest),
        TokenView::End => lemma_word_token(w, rest),
        TokenView::Boolean(_) => lemma_word_token(w, rest),
        TokenView::And => lemma_word_token(w, rest),
        TokenView::Or => lemma_word_token(w, rest),
        TokenView::Identifier(_) => lemma_word_token(w, rest),
        TokenView::Integer(n) => {
            lemma_digits_of_all_digits(n);
            assert(s[0] == w[0]);
            assert forall|k: int|
                1 <= k < w.len() implies is_digit_char(#[trigger] s[k]) || s[k] == '.' by {
                assert(s[k] == w[k]);
            }
            if w.len() < s.len() {
                assert(s[w.len() as int] == rest[0]);
            }
            lemma_num_run_end_at(s, 1, w.len() as int);
            assert(s.subrange(0, w.len() as int) =~= w);
            lemma_dot_count_all_digits(w);
            lemma_digits_val_of_digits(n);
        },
        TokenView::Float(fv) => {
            assert(s[0] == w[0]);
            assert forall|k: int|
                1 <= k < w.len() implies is_digit_char(#[trigger] s[k]) || s[k] == '.' by {
                assert(s[k] == w[k]);
            }
            if w.len() < s.len() {
                assert(s[w.len() as int] == rest[0]);
            }
            lemma_num_run_end_at(s, 1, w.len() as int);
            assert(s.subrange(0, w.len() as int) =~= w);
        },
        TokenView::Str(sv) => {
            assert(s[0] == w[0]);
            assert(s[0] == '"');
            assert(s.subrange(1, 1 + sv.len() as int) =~= sv);
            assert(s[1 + sv.len() as int] == w[1 + sv.len() as int]);
            assert(w[1 + sv.len() as int] == '"');
            lemma_str_scan_to_end(s, 1, 1 + sv.len() as int);
        },
        TokenView::EOF => {
            assert(false);
        },
        _ => {
            if w.len() < s.len() {
                assert(s[w.len() as int] == rest[0]);
            }
            if w.len() >= 2 {
                assert(s[1] == w[1]);
            }
        },
    }
}

/// Round-trip idempotence: lexing the canonical text of any sequence of
/// well-formed tokens reproduces exactly that sequence, with the
/// end-of-input marker appended. Whitespace carries no meaning: the single
/// separating spaces the renderer writes are skipped, never emitted.
pub proof fn lemma_render_lex_round_trip(ts: Seq<TokenView>)
    requires
        forall|i: int| 0 <= i < ts.len() ==> wf_token(#[trigger] ts[i]),
    ensures
        spec_lex_from(render_text(ts), 0) == Result::<Seq<TokenView>, LexErrorView>::Ok(
            ts.push(TokenView::EOF),
        ),
    decreases ts.len(),
{
    if ts.len() == 0 {
        assert(seq![TokenView::EOF] =~= ts.push(TokenView::EOF));
    } else if ts.len() == 1 {
        let t = ts[0];
        let w = token_text(t);
        lemma_lex_one_token(t, Seq::<char>::empty());
        assert(w + Seq::<char>::empty() =~= w);
        assert(spec_lex_from(w, w.len() as int) == Result::<Seq<TokenView>, LexErrorView>::Ok(
            seq![TokenView::EOF],
        ));
        assert(seq![t] + seq![TokenView::EOF] =~= ts.push(TokenView::EOF));
    } else {
        let t = ts[0];
        let w = token_text(t);
        let rest_tokens = ts.drop_first();
        let rest_txt = render_text(rest_tokens);
        let sep_rest = seq![' '] + rest_txt;
        let s = w + sep_rest;
        assert(render_text(ts) == token_text(ts[0]) + seq![' '] + render_text(ts.drop_first()));
        assert((w + seq![' ']) + rest_txt =~= s);
        assert(render_text(ts) == s);
        lemma_lex_one_token(t, sep_rest);
        assert(sep_rest[0] == ' ');
        assert(s[w.len() as int] == sep_rest[0]);
        assert(w.len() < s.len());
        assert(spec_lex_from(s, w.len() as int) == spec_lex_from(s, w.len() as int + 1));
        assert forall|i: int| 0 <= i < rest_tokens.len() implies wf_token(
            #[trigger] rest_tokens[i],
        ) by {
            assert(rest_tokens[i] == ts[i + 1]);
        }
        lemma_render_lex_round_trip(rest_tokens);
        lemma_lex_shift(w + seq![' '], rest_txt, 0, rest_tokens.push(TokenView::EOF));
        assert((w + seq![' ']).len() == w.len() + 1);
        assert(spec_lex_from(s, w.len() as int + 1) == Result::<Seq<TokenView>, LexErrorView>::Ok(
            rest_tokens.push(TokenView::EOF),
        ));
        assert(seq![t] + rest_tokens.push(TokenView::EOF) =~= ts.push(TokenView::EOF));
    }
}

/// A successful lexing outcome prefixed with one well-formed token is a
/// nonempty sequence ending in the end-of-input marker whose earlier
/// tokens are all well formed.
proof fn lemma_outputs_cons(s: Seq<char>, tv: TokenView, j: int, ts: Seq<TokenView>)
    requires
        0 <= j <= s.len(),
        wf_token(tv),
        Result::<Seq<TokenView>, LexErrorView>::Ok(ts) == cons_token(tv, spec_lex_from(s, j)),
    ensures
        ts.len() >= 1,
        ts.last() == TokenView::EOF,
        forall|k: int| 0 <= k < ts.len() - 1 ==> wf_token(#[trigger] ts[k]),
    decreases s.len() - j, 1int,
{
    match spec_lex_from(s, j) {
        Ok(tail) => {
            lemma_lex_outputs_wf(s, j, tail);
            assert(ts == seq![tv] + tail);
            assert(ts.last() == tail.last());
            assert forall|k: int| 0 <= k < ts.len() - 1 implies wf_token(#[trigger] ts[k]) by {
                if k == 0 {
                    assert(ts[0] == tv);
                } else {
                    assert(ts[k] == tail[k - 1]);
                }
            }
        },
        Err(_) => {
            assert(false);
        },
    }
}

/// Every token the lexer emits is well formed: a successful outcome is the
/// end-of-input marker preceded by well-formed tokens only.
proof fn lemma_lex_outputs_wf(s: Seq<char>, i: int, ts: Seq<TokenView>)
    requires
        0 <= i <= s.len(),
        spec_lex_from(s, i) == Result::<Seq<TokenView>, LexErrorView>::Ok(ts),
    ensures
        ts.len() >= 1,
        ts.last() == TokenView::EOF,
        forall|k: int| 0 <= k < ts.len() - 1 ==> wf_token(#[trigger] ts[k]),
    decreases s.len() - i, 0int,
{
    if i >= s.len() {
    } else {
        let c = s[i];
        if is_space_char(c) {
            lemma_lex_outputs_wf(s, i + 1, ts);
        } else if is_ident_start_char(c) {
            lemma_ident_run_end_props(s, i + 1);
            let e = ident_run_end(s, i + 1);
            let word = s.subrange(i, e);
            let tv = spec_word_token(word);
            assert(word[0] == s[i]);
            if spec_keyword(word) is None {
                assert forall|k: int| 0 <= k < word.len() implies is_ident_char(
                    #[trigger] word[k],
                ) by {
                    assert(word[k] == s[i + k]);
                }
                assert(wf_ident(word));
            }
            assert(wf_token(tv));
            lemma_outputs_cons(s, tv, e, ts);
        } else if is_digit_char(c) {
            lemma_num_run_end_props(s, i + 1);
            let e = num_run_end(s, i + 1);
            let run = s.subrange(i, e);
            assert(run[0] == s[i]);
            if dot_count(run) == 0 {
                assert(digits_val(run) <= i64::MAX as int);
                crate::lexer::lemma_digits_val_nonneg(run);
                lemma_outputs_cons(s, TokenView::Integer(digits_val(run)), e, ts);
            } else {
                assert(dot_count(run) == 1);
                assert forall|k: int|
                    0 <= k < run.len() implies is_digit_char(#[trigger] run[k]) || run[k]
                    == '.' by {
                    assert(run[k] == s[i + k]);
                }
                if run.len() == 1 {
                    assert(run.drop_last() =~= Seq::<char>::empty());
                    assert(dot_count(run.drop_last()) == 0);
                    assert(run.last() == run[0]);
                    assert(false);
                }
                assert(wf_float_lexeme(run));
                lemma_outputs_cons(s, TokenView::Float(run), e, ts);
            }
        } else if c == '"' {
            let e = str_body_end(s, i + 1);
            assert(e != s.len());
            crate::lexer::lemma_str_body_end_bounds(s, i + 1);
            lemma_str_body_scan_ok(s, i + 1);
            lemma_outputs_cons(s, TokenView::Str(s.subrange(i + 1, e)), e + 1, ts);
        } else if c == '=' {
            if i + 1 < s.len() && s[i + 1] == '=' {
                lemma_outputs_cons(s, TokenView::EqEq, i + 2, ts);
            } else {
                lemma_outputs_cons(s, TokenView::Assign, i + 1, ts);
            }
        } else if c == '!' {
            if i + 1 < s.len() && s[i + 1] == '=' {
                lemma_outputs_cons(s, TokenView::NotEq, i + 2, ts);
            } else {
                assert(false);
            }
        } else if c == '>' {
            if i + 1 < s.len() && s[i + 1] == '=' {
                lemma_outputs_cons(s, TokenView::GreaterEq, i + 2, ts);
            } else {
                lemma_outputs_cons(s, TokenView::Greater, i + 1, ts);
            }
        } else if c == '<' {
            if i + 1 < s.len() && s[i + 1] == '=' {
                lemma_outputs_cons(s, TokenView::LessEq, i + 2, ts);
            } else {
                lemma_outputs_cons(s, TokenView::Less, i + 1, ts);
            }
        } else if c == '.' {
            if i + 1 < s.len() && s[i + 1] == '.' {
                lemma_outputs_cons(s, TokenView::Range, i + 2, ts);
            } else {
                lemma_outputs_cons(s, TokenView::Dot, i + 1, ts);
            }
        } else if c == '+' {
            lemma_outputs_cons(s, TokenView::Plus, i + 1, ts);
        } else if c == '-' {
            lemma_outputs_cons(s, TokenView::Minus, i + 1, ts);
        } else if c == '*' {
            lemma_outputs_cons(s, TokenView::Multiply, i + 1, ts);
        } else if c == '/' {
            lemma_outputs_cons(s, TokenView::Divide, i + 1, ts);
        } else if c == '(' {
            lemma_outputs_cons(s, TokenView::LParen, i + 1, ts);
        } else if c == ')' {
            lemma_outputs_cons(s, TokenView::RParen, i + 1, ts);
        } else if c == '[' {
            lemma_outputs_cons(s, TokenView::LBracket, i + 1, ts);
        } else if c == ']' {
            lemma_outputs_cons(s, TokenView::RBracket, i + 1, ts);
        } else if c == '{' {
            lemma_outputs_cons(s, TokenView::LBrace, i + 1, ts);
        } else if c == '}' {
            lemma_outputs_cons(s, TokenView::RBrace, i + 1, ts);
        } else if c == ':' {
            lemma_outputs_cons(s, TokenView::Colon, i + 1, ts);
        } else if c == ',' {
            lemma_outputs_cons(s, TokenView::Comma, i + 1, ts);
        } else if c == ';' {
            lemma_outputs_cons(s, TokenView::Semicolon, i + 1, ts);
        } else {
            assert(false);
        }
    }
}

/// Every token sequence the lexer actually returns round-trips: rendering
/// it without its end-of-input marker and lexing that text again yields
/// the very same sequence. Together with the lexer's own functional
/// contract, this covers all outputs of `lexer`, whose payloads are well
/// formed by construction.
pub proof fn lemma_lexer_output_round_trips(s: Seq<char>, ts: Seq<TokenView>)
    requires
        spec_lex_from(s, 0) == Result::<Seq<TokenView>, LexErrorView>::Ok(ts),
    ensures
        ts.len() >= 1,
        ts.last() == TokenView::EOF,
        spec_lex_from(render_text(ts.drop_last()), 0) == Result::<Seq<TokenView>, LexErrorView>::Ok(
            ts,
        ),
{
    lemma_lex_outputs_wf(s, 0, ts);
    assert forall|k: int| 0 <= k < ts.drop_last().len() implies wf_token(
        #[trigger] ts.drop_last()[k],
    ) by {
        assert(ts.drop_last()[k] == ts[k]);
    }
    lemma_render_lex_round_trip(ts.drop_last());
    assert(ts.drop_last().push(TokenView::EOF) =~= ts);
}

/// Scope shadowing: opening a nested scope, declaring a binding there (the
/// exact model step `define_variable` performs on a freshly pushed scope),
/// and closing the scope again leaves the stack exactly as it was. While
/// the scope is open the new binding shadows; once it is closed the outer
/// binding of the same name — if any — is exposed again, unmodified.
pub proof fn lemma_scope_shadowing(m: Seq<Seq<BindingView>>, bv: BindingView)
    ensures
        ({
            let pushed = m.push(Seq::<BindingView>::empty());
            let top = pushed.last();
            let k = find_in_scope(top, bv.name);
            let defined = pushed.update(
                pushed.len() - 1,
                if k < top.len() {
                    top.update(k, bv)
                } else {
                    top.push(bv)
                },
            );
            &&& lookup_model(defined, bv.name) == Some(bv)
            &&& defined.drop_last() == m
            &&& lookup_model(defined.drop_last(), bv.name) == lookup_model(m, bv.name)
        }),
{
    let pushed = m.push(Seq::<BindingView>::empty());
    let top = pushed.last();
    assert(top =~= Seq::<BindingView>::empty());
    let k = find_in_scope(top, bv.name);
    assert(k == 0);
    let inner = top.push(bv);
    let defined = pushed.update(pushed.len() - 1, inner);
    assert(inner =~= seq![bv]);
    assert(defined.drop_last() =~= m);
    assert(defined.last() == inner);
    assert(find_in_scope(inner, bv.name) == 0);
    assert(lookup_model(defined, bv.name) == Some(bv));
}

} // verus!
