//! The parser / scope checker: a recursive-descent parser over the token
//! sequence that builds `Stmt`/`Expr` trees while maintaining a lexical
//! scope stack and a function table, and checking declared types against
//! the literal values it can see.
//!
//! The cursor (`pos`) only ever advances. `eat` is the sole mutator of the
//! cursor on the expect-and-consume path; every production fails fast on the
//! first structural mismatch, and the cursor is unspecified after an error —
//! callers must not continue parsing after one.
//!
//! The scope stack is modelled by `scope_model`: the innermost scope last,
//! each scope a sequence of bindings (name, declared type, tracked literal
//! value). The stack is never empty; blocks push on entry and pop on exit;
//! lookup and assignment search innermost to outermost and stop at the
//! first match, which is what makes shadowing work.

use vstd::prelude::*;

use crate::ast::Expr;
use crate::ast::LiteralValue;
use crate::ast::LiteralView;
use crate::ast::Stmt;
use crate::ast::TypeDesc;
use crate::ast::check_expr_type;
use crate::ast::expr_compatible;
use crate::ast::first_offender;
use crate::ast::is_add_expr;
use crate::ast::is_and_expr;
use crate::ast::is_cmp_expr;
use crate::ast::is_cmp_op;
use crate::ast::lit_compatible;
use crate::ast::is_mul_expr;
use crate::ast::is_or_expr;
use crate::ast::is_postfix_expr;
use crate::ast::is_unary_expr;
use crate::ast::lit_copy;
use crate::ast::static_value;
use crate::ast::type_desc_copy;
use crate::errors::Expected;
use crate::errors::ExpectedView;
use crate::errors::ParseError;
use crate::text::copy_chars;
use crate::text::token_copy;
use crate::tokens::Token;
use crate::tokens::TokenView;
use crate::tokens::chars_eq;
use crate::tokens::token_eq;

verus! {

/// One variable binding: the declared name, its declared type, and the
/// literal value last recorded for it (`Nil` when untracked).
pub struct Binding {
    pub name: Vec<char>,
    pub ty: TypeDesc,
    pub value: LiteralValue,
}

/// The mathematical image of a `Binding`.
pub struct BindingView {
    pub name: Seq<char>,
    pub ty: TypeDesc,
    pub value: LiteralView,
}

impl View for Binding {
    type V = BindingView;

    open spec fn view(&self) -> BindingView {
        BindingView { name: self.name@, ty: self.ty, value: self.value@ }
    }
}

/// One function-table entry: the function's name, its signature, and its
/// body as parsed.
pub struct FuncDef {
    pub name: Vec<char>,
    pub params: Vec<(Vec<char>, TypeDesc)>,
    pub body: Vec<Stmt>,
}

/// The mathematical image of a `FuncDef`: its name and signature. The
/// stored body is kept as parsed and not tracked by the contracts.
pub struct FuncView {
    pub name: Seq<char>,
    pub params: Seq<(Seq<char>, TypeDesc)>,
}

impl View for FuncDef {
    type V = FuncView;

    open spec fn view(&self) -> FuncView {
        FuncView {
            name: self.name@,
            params: self.params@.map_values(|p: (Vec<char>, TypeDesc)| (p.0@, p.1)),
        }
    }
}

/// The views of one scope's bindings.
pub open spec fn scope_view(sc: Seq<Binding>) -> Seq<BindingView> {
    sc.map_values(|b: Binding| b@)
}

/// Index of the first binding with this name in one scope, or the scope's
/// length when it holds none.
pub open spec fn find_in_scope(sc: Seq<BindingView>, name: Seq<char>) -> int
    decreases sc.len(),
{
    if sc.len() == 0 {
        0
    } else if sc[0].name == name {
        0
    } else {
        1 + find_in_scope(sc.drop_first(), name)
    }
}

/// Index of the innermost scope that binds this name, or `-1` when none
/// does.
pub open spec fn find_scope(m: Seq<Seq<BindingView>>, name: Seq<char>) -> int
    decreases m.len(),
{
    if m.len() == 0 {
        -1
    } else if find_in_scope(m.last(), name) < m.last().len() {
        m.len() - 1
    } else {
        find_scope(m.drop_last(), name)
    }
}

/// The binding this name resolves to: the first match, searching scopes
/// innermost to outermost.
pub open spec fn lookup_model(m: Seq<Seq<BindingView>>, name: Seq<char>) -> Option<BindingView> {
    let si = find_scope(m, name);
    if si >= 0 {
        Some(m[si][find_in_scope(m[si], name)])
    } else {
        None
    }
}

/// Index of the first table entry with this name, or the table's length.
pub open spec fn find_func(fm: Seq<FuncView>, name: Seq<char>) -> int
    decreases fm.len(),
{
    if fm.len() == 0 {
        0
    } else if fm[0].name == name {
        0
    } else {
        1 + find_func(fm.drop_first(), name)
    }
}

pub proof fn lemma_find_in_scope_found(sc: Seq<BindingView>, name: Seq<char>, i: int)
    requires
        0 <= i < sc.len(),
        forall|j: int| 0 <= j < i ==> (#[trigger] sc[j]).name != name,
        sc[i].name == name,
    ensures
        find_in_scope(sc, name) == i,
    decreases i,
{
    if i > 0 {
        assert(sc.drop_first()[i - 1] == sc[i]);
        assert forall|j: int| 0 <= j < i - 1 implies (#[trigger] sc.drop_first()[j]).name
            != name by {
            assert(sc.drop_first()[j] == sc[j + 1]);
        }
        lemma_find_in_scope_found(sc.drop_first(), name, i - 1);
    }
}

pub proof fn lemma_find_in_scope_absent(sc: Seq<BindingView>, name: Seq<char>)
    requires
        forall|j: int| 0 <= j < sc.len() ==> (#[trigger] sc[j]).name != name,
    ensures
        find_in_scope(sc, name) == sc.len(),
    decreases sc.len(),
{
    if sc.len() > 0 {
        assert forall|j: int|
            0 <= j < sc.drop_first().len() implies (#[trigger] sc.drop_first()[j]).name
            != name by {
            assert(sc.drop_first()[j] == sc[j + 1]);
        }
        lemma_find_in_scope_absent(sc.drop_first(), name);
    }
}

pub proof fn lemma_find_scope_found(m: Seq<Seq<BindingView>>, name: Seq<char>, si: int)
    requires
        0 <= si < m.len(),
        find_in_scope(m[si], name) < m[si].len(),
        forall|k: int| si < k < m.len() ==> find_in_scope(#[trigger] m[k], name) == m[k].len(),
    ensures
        find_scope(m, name) == si,
    decreases m.len(),
{
    if si == m.len() - 1 {
        assert(m.last() == m[si]);
    } else {
        assert(m.last() == m[m.len() - 1]);
        assert(find_in_scope(m.last(), name) == m.last().len());
        assert forall|k: int| si < k < m.drop_last().len() implies find_in_scope(
            #[trigger] m.drop_last()[k],
            name,
        ) == m.drop_last()[k].len() by {
            assert(m.drop_last()[k] == m[k]);
        }
        assert(m.drop_last()[si] == m[si]);
        lemma_find_scope_found(m.drop_last(), name, si);
    }
}

pub proof fn lemma_find_scope_absent(m: Seq<Seq<BindingView>>, name: Seq<char>)
    requires
        forall|k: int| 0 <= k < m.len() ==> find_in_scope(#[trigger] m[k], name) == m[k].len(),
    ensures
        find_scope(m, name) == -1,
    decreases m.len(),
{
    if m.len() > 0 {
        assert(m.last() == m[m.len() - 1]);
        assert forall|k: int| 0 <= k < m.drop_last().len() implies find_in_scope(
            #[trigger] m.drop_last()[k],
            name,
        ) == m.drop_last()[k].len() by {
            assert(m.drop_last()[k] == m[k]);
        }
        lemma_find_scope_absent(m.drop_last(), name);
    }
}

/// Whether a parse error is an unexpected-token report with exactly this
/// expectation and this found token (`None` for exhausted input).
pub open spec fn unexpected_exact(
    e: ParseError,
    expected: TokenView,
    found: Option<TokenView>,
) -> bool {
    match e {
        ParseError::UnexpectedToken { expected: exp, found: f } => exp@ == ExpectedView::Exact(
            expected,
        ) && (match (f, found) {
            (Some(a), Some(b)) => a@ == b,
            (None, None) => true,
            _ => false,
        }),
        _ => false,
    }
}

/// The literal value the parser records for an initializer expression.
pub fn static_value_of(e: &Expr) -> (r: LiteralValue)
    ensures
        r@ == static_value(*e),
{
    match e {
        Expr::Literal(lv) => lit_copy(lv),
        _ => LiteralValue::Nil,
    }
}

/// Index of the first binding with this name in one scope, or the scope's
/// length, decided executably.
fn find_binding_index(sc: &Vec<Binding>, name: &Vec<char>) -> (r: usize)
    ensures
        r <= sc@.len(),
        r as int == find_in_scope(scope_view(sc@), name@),
        r < sc@.len() ==> sc@[r as int].name@ == name@,
{
    let ghost sv = scope_view(sc@);
    let mut i: usize = 0;
    while i < sc.len()
        invariant
            i <= sc@.len(),
            sv == scope_view(sc@),
            sv.len() == sc@.len(),
            forall|j: int| 0 <= j < i ==> (#[trigger] sv[j]).name != name@,
        decreases sc@.len() - i,
    {
        if chars_eq(&sc[i].name, name) {
            proof {
                assert(sv[i as int] == sc@[i as int]@);
                lemma_find_in_scope_found(sv, name@, i as int);
            }
            return i;
        }
        proof {
            assert(sv[i as int] == sc@[i as int]@);
        }
        i += 1;
    }
    proof {
        lemma_find_in_scope_absent(sv, name@);
    }
    i
}

/// The parser: the token sequence, the read position, the scope stack, and
/// the function table.
pub struct Parser {
    pub tokens: Vec<Token>,
    pub pos: usize,
    pub scopes: Vec<Vec<Binding>>,
    pub functions: Vec<FuncDef>,
}

impl Parser {
    /// Well-formedness: the cursor never passes the end, and one implicit
    /// global scope always exists.
    pub open spec fn wf(&self) -> bool {
        self.pos <= self.tokens@.len() && self.scopes@.len() >= 1
    }

    /// The scope stack as mathematics: innermost scope last.
    pub open spec fn scope_model(&self) -> Seq<Seq<BindingView>> {
        self.scopes@.map_values(|sc: Vec<Binding>| scope_view(sc@))
    }

    /// The function table as mathematics.
    pub open spec fn func_model(&self) -> Seq<FuncView> {
        self.functions@.map_values(|f: FuncDef| f@)
    }

    /// A fresh parser over a token sequence: cursor at the start, one empty
    /// global scope, an empty function table.
    pub fn new(tokens: Vec<Token>) -> (p: Parser)
        ensures
            p.wf(),
            p.tokens == tokens,
            p.pos == 0,
            p.scope_model().len() == 1,
            p.scope_model()[0].len() == 0,
            p.func_model().len() == 0,
    {
        let mut scopes: Vec<Vec<Binding>> = Vec::new();
        scopes.push(Vec::new());
        let p = Parser { tokens, pos: 0, scopes, functions: Vec::new() };
        proof {
            assert(p.scope_model().len() == 1);
            assert(p.scope_model()[0] =~= Seq::<BindingView>::empty());
        }
        p
    }

    /// The token at the cursor, if any. A pure lookahead.
    pub fn current_token(&self) -> (r: Option<&Token>)
        ensures
            r is Some <==> self.pos < self.tokens@.len(),
            r matches Some(t) ==> *t == self.tokens@[self.pos as int],
    {
        if self.pos < self.tokens.len() {
            Some(&self.tokens[self.pos])
        } else {
            None
        }
    }

    /// The token after the one at the cursor, if any. A pure lookahead.
    pub fn peek(&self) -> (r: Option<&Token>)
        ensures
            r is Some <==> self.pos + 1 < self.tokens@.len(),
            r matches Some(t) ==> *t == self.tokens@[self.pos + 1],
    {
        if self.pos >= self.tokens.len() {
            return None;
        }
        if self.pos + 1 < self.tokens.len() {
            Some(&self.tokens[self.pos + 1])
        } else {
            None
        }
    }

    /// Whether the token at the cursor matches `t` structurally.
    fn check_at(&self, t: &Token) -> (r: bool)
        ensures
            r <==> (self.pos < self.tokens@.len() && self.tokens@[self.pos as int]@ == t@),
    {
        if self.pos < self.tokens.len() {
            token_eq(&self.tokens[self.pos], t)
        } else {
            false
        }
    }

    /// Expect-and-consume: advances past the current token exactly when it
    /// structurally equals `expected` (same variant and payload); otherwise
    /// reports what was expected and what stood there, or that the input
    /// was exhausted, and leaves the cursor in place.
    pub fn eat(&mut self, expected: Token) -> (r: Result<(), ParseError>)
        requires
            old(self).wf(),
        ensures
            final(self).wf(),
            final(self).tokens == old(self).tokens,
            final(self).scopes == old(self).scopes,
            final(self).functions == old(self).functions,
            match r {
                Ok(()) => old(self).pos < old(self).tokens@.len() && old(self).tokens@[old(self).pos as int]@ == expected@ && final(self).pos == old(self).pos + 1,
                Err(e) => final(self).pos == old(self).pos && !(old(self).pos < old(self).tokens@.len() && old(self).tokens@[old(self).pos as int]@ == expected@)
                    && unexpected_exact(
                    e,
                    expected@,
                    if old(self).pos < old(self).tokens@.len() {
                        Some(old(self).tokens@[old(self).pos as int]@)
                    } else {
                        None
                    },
                ),
            },
    {
        if self.pos < self.tokens.len() {
            if token_eq(&self.tokens[self.pos], &expected) {
                self.pos += 1;
                Ok(())
            } else {
                Err(
                    ParseError::UnexpectedToken {
                        expected: Expected::Exact(expected),
                        found: Some(token_copy(&self.tokens[self.pos])),
                    },
                )
            }
        } else {
            Err(
                ParseError::UnexpectedToken {
                    expected: Expected::Exact(expected),
                    found: None,
                },
            )
        }
    }

    /// Opens a nested scope: pushed on block entry.
    pub fn push_scope(&mut self)
        requires
            old(self).wf(),
        ensures
            final(self).wf(),
            final(self).tokens == old(self).tokens,
            final(self).pos == old(self).pos,
            final(self).functions == old(self).functions,
            final(self).scope_model() == old(self).scope_model().push(
                Seq::<BindingView>::empty(),
            ),
    {
        self.scopes.push(Vec::new());
        proof {
            assert(scope_view(Seq::<Binding>::empty()) =~= Seq::<BindingView>::empty());
            assert(self.scope_model() =~= old(self).scope_model().push(
                Seq::<BindingView>::empty(),
            ));
        }
    }

    /// Closes the innermost scope: popped on block exit. The global scope
    /// is never popped.
    pub fn pop_scope(&mut self)
        requires
            old(self).wf(),
            old(self).scope_model().len() >= 2,
        ensures
            final(self).wf(),
            final(self).tokens == old(self).tokens,
            final(self).pos == old(self).pos,
            final(self).functions == old(self).functions,
            final(self).scope_model() == old(self).scope_model().drop_last(),
    {
        let _ = self.scopes.pop();
        proof {
            assert(self.scope_model() =~= old(self).scope_model().drop_last());
        }
    }

    /// Records a declaration in the innermost scope, after checking the
    /// initializer against the declared type. A name already declared in
    /// that same scope is overwritten; names in outer scopes are shadowed,
    /// not touched. Fails exactly when the initializer's visible literal
    /// value does not fit the declared type, and then changes nothing.
    pub fn define_variable(&mut self, name: &Vec<char>, ty: &TypeDesc, value: &Expr) -> (r: Result<
        (),
        ParseError,
    >)
        requires
            old(self).wf(),
        ensures
            final(self).wf(),
            final(self).tokens == old(self).tokens,
            final(self).pos == old(self).pos,
            final(self).functions == old(self).functions,
            final(self).scope_model().len() == old(self).scope_model().len(),
            match r {
                Ok(()) => expr_compatible(*value, *ty) && ({
                    let m = old(self).scope_model();
                    let top = m.last();
                    let k = find_in_scope(top, name@);
                    let bv = (BindingView {
                        name: name@,
                        ty: *ty,
                        value: static_value(*value),
                    });
                    final(self).scope_model() == m.update(
                        m.len() - 1,
                        if k < top.len() {
                            top.update(k, bv)
                        } else {
                            top.push(bv)
                        },
                    )
                }),
                Err(e) => !expr_compatible(*value, *ty) && final(self).scope_model() == old(self).scope_model() && (e matches ParseError::TypeMismatch { expected, found } && (
                expected,
                found@,
                ) == first_offender(*value, *ty)),
            },
    {
        match check_expr_type(value, ty) {
            Err(pe) => Err(pe),
            Ok(()) => {
                let ghost m = old(self).scope_model();
                let j = self.scopes.len() - 1;
                let bi = find_binding_index(&self.scopes[j], name);
                let b = Binding {
                    name: copy_chars(name),
                    ty: type_desc_copy(ty),
                    value: static_value_of(value),
                };
                proof {
                    assert(m[j as int] == scope_view(self.scopes@[j as int]@));
                    assert(m.last() == m[j as int]);
                }
                let row = &mut self.scopes[j];
                if bi < row.len() {
                    let ghost rv = row@;
                    row[bi] = b;
                    proof {
                        assert(scope_view(rv.update(bi as int, b)) =~= scope_view(rv).update(
                            bi as int,
                            b@,
                        ));
                    }
                } else {
                    let ghost rv = row@;
                    row.push(b);
                    proof {
                        assert(scope_view(rv.push(b)) =~= scope_view(rv).push(b@));
                    }
                }
                proof {
                    let top = m.last();
                    let k = find_in_scope(top, name@);
                    let bv = (BindingView { name: name@, ty: *ty, value: static_value(*value) });
                    assert(final(self).scope_model() =~= m.update(
                        m.len() - 1,
                        if k < top.len() {
                            top.update(k, bv)
                        } else {
                            top.push(bv)
                        },
                    ));
                }
                Ok(())
            },
        }
    }

    /// Resolves an assignment: searches the scopes innermost to outermost
    /// for the name's binding, checks the assigned expression against the
    /// binding's declared type, and overwrites the tracked value. Fails
    /// with an undeclared-variable error when no scope binds the name, and
    /// with a type-mismatch error when the check fails; either way the
    /// bindings are left unchanged.
    #[verifier::loop_isolation(false)]
    pub fn assign_variable(&mut self, name: &Vec<char>, value: &Expr) -> (r: Result<
        (),
        ParseError,
    >)
        requires
            old(self).wf(),
        ensures
            final(self).wf(),
            final(self).tokens == old(self).tokens,
            final(self).pos == old(self).pos,
            final(self).functions == old(self).functions,
            final(self).scope_model().len() == old(self).scope_model().len(),
            ({
                let m = old(self).scope_model();
                let si = find_scope(m, name@);
                match r {
                    Ok(()) => si >= 0 && ({
                        let bi = find_in_scope(m[si], name@);
                        let bound = m[si][bi];
                        let bv = (BindingView {
                            name: name@,
                            ty: bound.ty,
                            value: static_value(*value),
                        });
                        expr_compatible(*value, bound.ty) && final(self).scope_model()
                            == m.update(si, m[si].update(bi, bv))
                    }),
                    Err(e) => final(self).scope_model() == m && (if si < 0 {
                        e matches ParseError::UndeclaredVariable { name: n } && n@ == name@
                    } else {
                        let bound = m[si][find_in_scope(m[si], name@)];
                        !expr_compatible(*value, bound.ty) && (e
                            matches ParseError::TypeMismatch { expected, found } && (
                        expected,
                        found@,
                        ) == first_offender(*value, bound.ty))
                    }),
                }
            }),
    {
        let ghost m = old(self).scope_model();
        let mut si = self.scopes.len();
        while si > 0
            invariant
                self.tokens == old(self).tokens,
                self.pos == old(self).pos,
                self.scopes == old(self).scopes,
                self.functions == old(self).functions,
                m == old(self).scope_model(),
                m.len() == self.scopes@.len(),
                si <= self.scopes@.len(),
                forall|k: int|
                    si <= k < m.len() ==> find_in_scope(#[trigger] m[k], name@) == m[k].len(),
            decreases si,
        {
            let j = si - 1;
            proof {
                assert(m[j as int] == scope_view(self.scopes@[j as int]@));
            }
            let bi = find_binding_index(&self.scopes[j], name);
            if bi < self.scopes[j].len() {
                proof {
                    lemma_find_scope_found(m, name@, j as int);
                }
                match check_expr_type(value, &self.scopes[j][bi].ty) {
                    Err(pe) => {
                        return Err(pe);
                    },
                    Ok(()) => {},
                }
                let ty_c = type_desc_copy(&self.scopes[j][bi].ty);
                let b = Binding {
                    name: copy_chars(name),
                    ty: ty_c,
                    value: static_value_of(value),
                };
                let row = &mut self.scopes[j];
                let ghost rv = row@;
                row[bi] = b;
                proof {
                    assert(scope_view(rv.update(bi as int, b)) =~= scope_view(rv).update(
                        bi as int,
                        b@,
                    ));
                    assert(final(self).scope_model() =~= m.update(
                        j as int,
                        m[j as int].update(bi as int, b@),
                    ));
                }
                return Ok(());
            }
            si = j;
        }
        proof {
            lemma_find_scope_absent(m, name@);
        }
        Err(ParseError::UndeclaredVariable { name: copy_chars(name) })
    }

    /// Looks the name up as an assignment would: first match, innermost to
    /// outermost; returns a copy of the declared type and tracked value.
    #[verifier::loop_isolation(false)]
    pub fn lookup_variable(&self, name: &Vec<char>) -> (r: Option<(TypeDesc, LiteralValue)>)
        ensures
            match lookup_model(self.scope_model(), name@) {
                Some(bv) => r matches Some(p) && p.0 == bv.ty && p.1@ == bv.value,
                None => r is None,
            },
    {
        let ghost m = self.scope_model();
        let mut si = self.scopes.len();
        while si > 0
            invariant
                m == self.scope_model(),
                m.len() == self.scopes@.len(),
                si <= self.scopes@.len(),
                forall|k: int|
                    si <= k < m.len() ==> find_in_scope(#[trigger] m[k], name@) == m[k].len(),
            decreases si,
        {
            let j = si - 1;
            proof {
                assert(m[j as int] == scope_view(self.scopes@[j as int]@));
            }
            let bi = find_binding_index(&self.scopes[j], name);
            if bi < self.scopes[j].len() {
                proof {
                    lemma_find_scope_found(m, name@, j as int);
                }
                let ty_c = type_desc_copy(&self.scopes[j][bi].ty);
                let lv_c = lit_copy(&self.scopes[j][bi].value);
                return Some((ty_c, lv_c));
            }
            si = j;
        }
        proof {
            lemma_find_scope_absent(m, name@);
        }
        None
    }

    /// Registers a function definition in the table. A later definition
    /// under the same name replaces the earlier one, so names stay unique
    /// within the table; there is no overloading.
    #[verifier::loop_isolation(false)]
    pub fn define_function(&mut self, func: FuncDef)
        requires
            old(self).wf(),
        ensures
            final(self).wf(),
            final(self).tokens == old(self).tokens,
            final(self).pos == old(self).pos,
            final(self).scopes == old(self).scopes,
            ({
                let fm = old(self).func_model();
                let k = find_func(fm, func.name@);
                final(self).func_model() == if k < fm.len() {
                    fm.update(k, func@)
                } else {
                    fm.push(func@)
                }
            }),
    {
        let ghost fm = old(self).func_model();
        let mut i: usize = 0;
        while i < self.functions.len()
            invariant
                self.tokens == old(self).tokens,
                self.pos == old(self).pos,
                self.scopes == old(self).scopes,
                self.functions == old(self).functions,
                fm == old(self).func_model(),
                fm.len() == self.functions@.len(),
                i <= self.functions@.len(),
                forall|j: int| 0 <= j < i ==> (#[trigger] fm[j]).name != func.name@,
            decreases self.functions@.len() - i,
        {
            proof {
                assert(fm[i as int] == self.functions@[i as int]@);
            }
            if chars_eq(&self.functions[i].name, &func.name) {
                proof {
                    lemma_find_func_found(fm, func.name@, i as int);
                }
                self.functions[i] = func;
                proof {
                    assert(final(self).func_model() =~= fm.update(i as int, func@));
                }
                return ;
            }
            i += 1;
        }
        proof {
            lemma_find_func_absent(fm, func.name@);
        }
        self.functions.push(func);
        proof {
            assert(final(self).func_model() =~= fm.push(func@));
        }
    }
}

pub proof fn lemma_find_func_found(fm: Seq<FuncView>, name: Seq<char>, i: int)
    requires
        0 <= i < fm.len(),
        forall|j: int| 0 <= j < i ==> (#[trigger] fm[j]).name != name,
        fm[i].name == name,
    ensures
        find_func(fm, name) == i,
    decreases i,
{
    if i > 0 {
        assert(fm.drop_first()[i - 1] == fm[i]);
        assert forall|j: int|
            0 <= j < i - 1 implies (#[trigger] fm.drop_first()[j]).name != name by {
            assert(fm.drop_first()[j] == fm[j + 1]);
        }
        lemma_find_func_found(fm.drop_first(), name, i - 1);
    }
}

/// Frame of the expression-level productions: the token sequence, scope
/// stack and function table are untouched, and the cursor only advances.
pub open spec fn keeps_context(pre: Parser, post: Parser) -> bool {
    &&& post.tokens == pre.tokens
    &&& post.scopes == pre.scopes
    &&& post.functions == pre.functions
    &&& pre.pos <= post.pos <= post.tokens@.len()
}

impl Parser {
    /// Consumes the current token when it is an identifier and hands its
    /// name out; otherwise reports that an identifier was expected.
    fn take_identifier(&mut self) -> (r: Result<Vec<char>, ParseError>)
        requires
            old(self).wf(),
        ensures
            final(self).wf(),
            keeps_context(*old(self), *final(self)),
            match r {
                Ok(v) => old(self).pos < old(self).tokens@.len() && old(self).tokens@[old(self).pos as int]@ == TokenView::Identifier(v@) && final(self).pos == old(self).pos
                    + 1,
                Err(e) => final(self).pos == old(self).pos && !(old(self).pos < old(self).tokens@.len() && old(self).tokens@[old(self).pos as int]@
                    matches TokenView::Identifier(_)) && (e
                    matches ParseError::UnexpectedToken { expected, found } && expected@
                    == ExpectedView::AnyIdentifier && (match (found, old(self).pos < old(self).tokens@.len()) {
                    (Some(f), true) => f@ == old(self).tokens@[old(self).pos as int]@,
                    (None, false) => true,
                    _ => false,
                })),
            },
    {
        if self.pos < self.tokens.len() {
            match &self.tokens[self.pos] {
                Token::Identifier(v) => {
                    let name = copy_chars(v);
                    self.pos += 1;
                    Ok(name)
                },
                _ => Err(
                    ParseError::UnexpectedToken {
                        expected: Expected::AnyIdentifier,
                        found: Some(token_copy(&self.tokens[self.pos])),
                    },
                ),
            }
        } else {
            Err(
                ParseError::UnexpectedToken {
                    expected: Expected::AnyIdentifier,
                    found: None,
                },
            )
        }
    }

    /// The comparison operator at the cursor, if one stands there.
    fn comparison_op(&self) -> (r: Option<Token>)
        ensures
            match r {
                Some(op) => self.pos < self.tokens@.len() && self.tokens@[self.pos as int]@ == op@
                    && crate::ast::is_cmp_op(op@),
                None => !(self.pos < self.tokens@.len() && crate::ast::is_cmp_op(
                    self.tokens@[self.pos as int]@,
                )),
            },
    {
        if self.pos < self.tokens.len() {
            match &self.tokens[self.pos] {
                Token::EqEq => Some(Token::EqEq),
                Token::NotEq => Some(Token::NotEq),
                Token::Greater => Some(Token::Greater),
                Token::Less => Some(Token::Less),
                Token::GreaterEq => Some(Token::GreaterEq),
                Token::LessEq => Some(Token::LessEq),
                _ => None,
            }
        } else {
            None
        }
    }

    /// A parenthesized, comma-separated argument list; a trailing comma is
    /// not permitted, an empty list is.
    #[verifier::loop_isolation(false)]
    fn parse_arguments(&mut self) -> (r: Result<Vec<Expr>, ParseError>)
        requires
            old(self).wf(),
        ensures
            final(self).wf(),
            keeps_context(*old(self), *final(self)),
            r is Ok ==> final(self).pos > old(self).pos,
            (old(self).pos < old(self).tokens@.len() && old(self).tokens@[old(self).pos as int]@
                == TokenView::LParen && old(self).pos + 1 < old(self).tokens@.len() && old(self).tokens@[old(self).pos + 1]@ == TokenView::RParen) ==> (r matches Ok(a) && a@.len()
                == 0 && final(self).pos == old(self).pos + 2),
        decreases self.tokens@.len() - self.pos, 1int,
    {
        self.eat(Token::LParen)?;
        let mut args: Vec<Expr> = Vec::new();
        if self.check_at(&Token::RParen) {
            self.eat(Token::RParen)?;
            return Ok(args);
        }
        loop
            invariant
                self.wf(),
                keeps_context(*old(self), *self),
                old(self).pos < self.pos,
            decreases self.tokens@.len() - self.pos,
        {
            let a = self.parse_expression()?;
            args.push(a);
            if self.check_at(&Token::Comma) {
                self.eat(Token::Comma)?;
            } else {
                self.eat(Token::RParen)?;
                return Ok(args);
            }
        }
    }

    /// The suffix forms after an already-consumed identifier: a call, a
    /// method call, a left-associating chain of index brackets, or nothing
    /// (a bare variable reference).
    #[verifier::loop_isolation(false)]
    fn parse_identifier_suffix(&mut self, name: Vec<char>) -> (r: Result<Expr, ParseError>)
        requires
            old(self).wf(),
        ensures
            final(self).wf(),
            keeps_context(*old(self), *final(self)),
            r matches Ok(e) ==> is_postfix_expr(e),
        decreases self.tokens@.len() - self.pos, 2int,
    {
        if self.check_at(&Token::LParen) {
            let args = self.parse_arguments()?;
            Ok(Expr::Call { callee: Box::new(Expr::Variable(name)), arguments: args })
        } else if self.check_at(&Token::Dot) {
            self.eat(Token::Dot)?;
            let method = self.take_identifier()?;
            let args = self.parse_arguments()?;
            Ok(
                Expr::MethodCall {
                    receiver: Box::new(Expr::Variable(name)),
                    method,
                    arguments: args,
                },
            )
        } else if self.check_at(&Token::LBracket) {
            let mut e = Expr::Variable(name);
            loop
                invariant
                    self.wf(),
                    keeps_context(*old(self), *self),
                    is_postfix_expr(e),
                decreases self.tokens@.len() - self.pos,
            {
                if self.check_at(&Token::LBracket) {
                    self.eat(Token::LBracket)?;
                    let idx = self.parse_expression()?;
                    self.eat(Token::RBracket)?;
                    e = Expr::Index { list: Box::new(e), index: Box::new(idx) };
                } else {
                    return Ok(e);
                }
            }
        } else {
            Ok(Expr::Variable(name))
        }
    }

    /// Primary expressions: literals; identifiers fanning out into variable
    /// references, calls, indexing chains and method calls by one-token
    /// lookahead; parenthesized groupings; bracketed list literals.
    fn parse_primary(&mut self) -> (r: Result<Expr, ParseError>)
        requires
            old(self).wf(),
        ensures
            final(self).wf(),
            keeps_context(*old(self), *final(self)),
            r matches Ok(e) ==> final(self).pos > old(self).pos && is_postfix_expr(e),
            (old(self).pos < old(self).tokens@.len() && is_literal_token(old(self).tokens@[old(self).pos as int]@)) ==> (r matches Ok(e) && final(self).pos == old(self).pos + 1 && (e matches Expr::Literal(lv) && lv@ == lit_of_token(old(self).tokens@[old(self).pos as int]@))),
        decreases self.tokens@.len() - self.pos, 3int,
    {
        if self.pos >= self.tokens.len() {
            return Err(
                ParseError::UnexpectedToken { expected: Expected::ExpressionStart, found: None },
            );
        }
        let t = token_copy(&self.tokens[self.pos]);
        match t {
            Token::Integer(n) => {
                self.pos += 1;
                Ok(Expr::Literal(LiteralValue::Int(n)))
            },
            Token::Float(v) => {
                self.pos += 1;
                Ok(Expr::Literal(LiteralValue::Float(v)))
            },
            Token::Str(v) => {
                self.pos += 1;
                Ok(Expr::Literal(LiteralValue::Str(v)))
            },
            Token::Boolean(b) => {
                self.pos += 1;
                Ok(Expr::Literal(LiteralValue::Bool(b)))
            },
            Token::Identifier(v) => {
                self.pos += 1;
                self.parse_identifier_suffix(v)
            },
            Token::LParen => {
                self.pos += 1;
                let e = self.parse_expression()?;
                self.eat(Token::RParen)?;
                Ok(Expr::Grouping(Box::new(e)))
            },
            Token::LBracket => {
                self.pos += 1;
                self.parse_list_literal()
            },
            other => Err(
                ParseError::UnexpectedToken {
                    expected: Expected::ExpressionStart,
                    found: Some(other),
                },
            ),
        }
    }

    /// The elements of a bracketed list literal whose opening bracket has
    /// been consumed; a trailing comma is not permitted, an empty list is.
    #[verifier::loop_isolation(false)]
    fn parse_list_literal(&mut self) -> (r: Result<Expr, ParseError>)
        requires
            old(self).wf(),
        ensures
            final(self).wf(),
            keeps_context(*old(self), *final(self)),
            r matches Ok(e) ==> e is List,
        decreases self.tokens@.len() - self.pos, 11int,
    {
        let mut elems: Vec<Expr> = Vec::new();
        if self.check_at(&Token::RBracket) {
            self.eat(Token::RBracket)?;
            return Ok(Expr::List(elems));
        }
        loop
            invariant
                self.wf(),
                keeps_context(*old(self), *self),
            decreases self.tokens@.len() - self.pos,
        {
            let e = self.parse_expression()?;
            elems.push(e);
            if self.check_at(&Token::Comma) {
                self.eat(Token::Comma)?;
            } else {
                self.eat(Token::RBracket)?;
                return Ok(Expr::List(elems));
            }
        }
    }

    /// Unary minus: binds to a single following primary expression.
    fn parse_unary(&mut self) -> (r: Result<Expr, ParseError>)
        requires
            old(self).wf(),
        ensures
            final(self).wf(),
            keeps_context(*old(self), *final(self)),
            r matches Ok(e) ==> final(self).pos > old(self).pos && is_unary_expr(e),
            (old(self).pos < old(self).tokens@.len() && is_literal_token(old(self).tokens@[old(self).pos as int]@)) ==> (r matches Ok(e) && final(self).pos == old(self).pos + 1 && (e matches Expr::Literal(lv) && lv@ == lit_of_token(old(self).tokens@[old(self).pos as int]@))),
        decreases self.tokens@.len() - self.pos, 4int,
    {
        if self.check_at(&Token::Minus) {
            self.eat(Token::Minus)?;
            let rhs = self.parse_primary()?;
            Ok(Expr::Unary { operator: Token::Minus, right: Box::new(rhs) })
        } else {
            self.parse_primary()
        }
    }

    /// Multiplicative level: `*` and `/`, left-associative.
    #[verifier::loop_isolation(false)]
    fn parse_multiplicative(&mut self) -> (r: Result<Expr, ParseError>)
        requires
            old(self).wf(),
        ensures
            final(self).wf(),
            keeps_context(*old(self), *final(self)),
            r matches Ok(e) ==> final(self).pos > old(self).pos && is_mul_expr(e),
            lone_literal_at(old(self).tokens@, old(self).pos as int) ==> (r matches Ok(e) && final(self).pos == old(self).pos + 1 && (e matches Expr::Literal(lv) && lv@ == lit_of_token(old(self).tokens@[old(self).pos as int]@))),
        decreases self.tokens@.len() - self.pos, 5int,
    {
        let mut e = self.parse_unary()?;
        loop
            invariant
                self.wf(),
                keeps_context(*old(self), *self),
                old(self).pos < self.pos,
                is_mul_expr(e),
                lone_literal_at(old(self).tokens@, old(self).pos as int) ==> (self.pos == old(self).pos + 1 && (e matches Expr::Literal(lv) && lv@ == lit_of_token(old(self).tokens@[old(self).pos as int]@))),
            decreases self.tokens@.len() - self.pos,
        {
            if self.check_at(&Token::Multiply) {
                self.eat(Token::Multiply)?;
                let rhs = self.parse_unary()?;
                e = Expr::Binary { op: Token::Multiply, left: Box::new(e), right: Box::new(rhs) };
            } else if self.check_at(&Token::Divide) {
                self.eat(Token::Divide)?;
                let rhs = self.parse_unary()?;
                e = Expr::Binary { op: Token::Divide, left: Box::new(e), right: Box::new(rhs) };
            } else {
                return Ok(e);
            }
        }
    }

    /// Additive level: `+` and `-`, left-associative.
    #[verifier::loop_isolation(false)]
    fn parse_additive(&mut self) -> (r: Result<Expr, ParseError>)
        requires
            old(self).wf(),
        ensures
            final(self).wf(),
            keeps_context(*old(self), *final(self)),
            r matches Ok(e) ==> final(self).pos > old(self).pos && is_add_expr(e),
            lone_literal_at(old(self).tokens@, old(self).pos as int) ==> (r matches Ok(e) && final(self).pos == old(self).pos + 1 && (e matches Expr::Literal(lv) && lv@ == lit_of_token(old(self).tokens@[old(self).pos as int]@))),
        decreases self.tokens@.len() - self.pos, 6int,
    {
        let mut e = self.parse_multiplicative()?;
        loop
            invariant
                self.wf(),
                keeps_context(*old(self), *self),
                old(self).pos < self.pos,
                is_add_expr(e),
                lone_literal_at(old(self).tokens@, old(self).pos as int) ==> (self.pos == old(self).pos + 1 && (e matches Expr::Literal(lv) && lv@ == lit_of_token(old(self).tokens@[old(self).pos as int]@))),
            decreases self.tokens@.len() - self.pos,
        {
            if self.check_at(&Token::Plus) {
                self.eat(Token::Plus)?;
                let rhs = self.parse_multiplicative()?;
                e = Expr::Binary { op: Token::Plus, left: Box::new(e), right: Box::new(rhs) };
            } else if self.check_at(&Token::Minus) {
                self.eat(Token::Minus)?;
                let rhs = self.parse_multiplicative()?;
                e = Expr::Binary { op: Token::Minus, left: Box::new(e), right: Box::new(rhs) };
            } else {
                return Ok(e);
            }
        }
    }

    /// Comparison level: non-associative, at most one comparison operator
    /// is consumed per call; a second one is left for the caller.
    fn parse_comparison(&mut self) -> (r: Result<Expr, ParseError>)
        requires
            old(self).wf(),
        ensures
            final(self).wf(),
            keeps_context(*old(self), *final(self)),
            r matches Ok(e) ==> final(self).pos > old(self).pos && is_cmp_expr(e),
            lone_literal_at(old(self).tokens@, old(self).pos as int) ==> (r matches Ok(e) && final(self).pos == old(self).pos + 1 && (e matches Expr::Literal(lv) && lv@ == lit_of_token(old(self).tokens@[old(self).pos as int]@))),
        decreases self.tokens@.len() - self.pos, 7int,
    {
        let left = self.parse_additive()?;
        match self.comparison_op() {
            Some(op) => {
                self.eat(token_copy(&op))?;
                let right = self.parse_additive()?;
                Ok(Expr::Binary { op, left: Box::new(left), right: Box::new(right) })
            },
            None => Ok(left),
        }
    }

    /// Logical-and level, left-associative.
    #[verifier::loop_isolation(false)]
    fn parse_and(&mut self) -> (r: Result<Expr, ParseError>)
        requires
            old(self).wf(),
        ensures
            final(self).wf(),
            keeps_context(*old(self), *final(self)),
            r matches Ok(e) ==> final(self).pos > old(self).pos && is_and_expr(e),
            lone_literal_at(old(self).tokens@, old(self).pos as int) ==> (r matches Ok(e) && final(self).pos == old(self).pos + 1 && (e matches Expr::Literal(lv) && lv@ == lit_of_token(old(self).tokens@[old(self).pos as int]@))),
        decreases self.tokens@.len() - self.pos, 8int,
    {
        let mut e = self.parse_comparison()?;
        loop
            invariant
                self.wf(),
                keeps_context(*old(self), *self),
                old(self).pos < self.pos,
                is_and_expr(e),
                lone_literal_at(old(self).tokens@, old(self).pos as int) ==> (self.pos == old(self).pos + 1 && (e matches Expr::Literal(lv) && lv@ == lit_of_token(old(self).tokens@[old(self).pos as int]@))),
            decreases self.tokens@.len() - self.pos,
        {
            if self.check_at(&Token::And) {
                self.eat(Token::And)?;
                let rhs = self.parse_comparison()?;
                e = Expr::Logical { left: Box::new(e), operator: Token::And, right: Box::new(rhs) };
            } else {
                return Ok(e);
            }
        }
    }

    /// Logical-or level, left-associative: the lowest precedence level, so
    /// also the entry point for a full expression.
    #[verifier::loop_isolation(false)]
    fn parse_or(&mut self) -> (r: Result<Expr, ParseError>)
        requires
            old(self).wf(),
        ensures
            final(self).wf(),
            keeps_context(*old(self), *final(self)),
            r matches Ok(e) ==> final(self).pos > old(self).pos && is_or_expr(e),
            lone_literal_at(old(self).tokens@, old(self).pos as int) ==> (r matches Ok(e) && final(self).pos == old(self).pos + 1 && (e matches Expr::Literal(lv) && lv@ == lit_of_token(old(self).tokens@[old(self).pos as int]@))),
        decreases self.tokens@.len() - self.pos, 9int,
    {
        let mut e = self.parse_and()?;
        loop
            invariant
                self.wf(),
                keeps_context(*old(self), *self),
                old(self).pos < self.pos,
                is_or_expr(e),
                lone_literal_at(old(self).tokens@, old(self).pos as int) ==> (self.pos == old(self).pos + 1 && (e matches Expr::Literal(lv) && lv@ == lit_of_token(old(self).tokens@[old(self).pos as int]@))),
            decreases self.tokens@.len() - self.pos,
        {
            if self.check_at(&Token::Or) {
                self.eat(Token::Or)?;
                let rhs = self.parse_and()?;
                e = Expr::Logical { left: Box::new(e), operator: Token::Or, right: Box::new(rhs) };
            } else {
                return Ok(e);
            }
        }
    }

    /// One full expression, starting at the cursor. On success the tree's
    /// shape respects the precedence chain: or over and over comparison
    /// over additive over multiplicative over unary over primaries, with
    /// comparison non-associative and index chains nesting on the left.
    pub fn parse_expression(&mut self) -> (r: Result<Expr, ParseError>)
        requires
            old(self).wf(),
        ensures
            final(self).wf(),
            keeps_context(*old(self), *final(self)),
            r matches Ok(e) ==> final(self).pos > old(self).pos && is_or_expr(e),
            lone_literal_at(old(self).tokens@, old(self).pos as int) ==> (r matches Ok(e) && final(self).pos == old(self).pos + 1 && (e matches Expr::Literal(lv) && lv@ == lit_of_token(old(self).tokens@[old(self).pos as int]@))),
        decreases self.tokens@.len() - self.pos, 10int,
    {
        self.parse_or()
    }
}

pub proof fn lemma_find_func_absent(fm: Seq<FuncView>, name: Seq<char>)
    requires
        forall|j: int| 0 <= j < fm.len() ==> (#[trigger] fm[j]).name != name,
    ensures
        find_func(fm, name) == fm.len(),
    decreases fm.len(),
{
    if fm.len() > 0 {
        assert forall|j: int|
            0 <= j < fm.drop_first().len() implies (#[trigger] fm.drop_first()[j]).name
            != name by {
            assert(fm.drop_first()[j] == fm[j + 1]);
        }
        lemma_find_func_absent(fm.drop_first(), name);
    }
}

/// Whether a token is a literal token.
pub open spec fn is_literal_token(t: TokenView) -> bool {
    ||| t matches TokenView::Integer(_)
    ||| t matches TokenView::Float(_)
    ||| t matches TokenView::Str(_)
    ||| t matches TokenView::Boolean(_)
}

/// The literal value a literal token carries.
pub open spec fn lit_of_token(t: TokenView) -> LiteralView {
    match t {
        TokenView::Integer(n) => LiteralView::Int(n),
        TokenView::Float(v) => LiteralView::Float(v),
        TokenView::Str(v) => LiteralView::Str(v),
        TokenView::Boolean(b) => LiteralView::Bool(b),
        _ => LiteralView::Nil,
    }
}

/// Whether a token, standing after a complete operand, would extend the
/// expression at some precedence level.
pub open spec fn continues_expr(t: TokenView) -> bool {
    ||| t == TokenView::Or
    ||| t == TokenView::And
    ||| is_cmp_op(t)
    ||| t == TokenView::Plus
    ||| t == TokenView::Minus
    ||| t == TokenView::Multiply
    ||| t == TokenView::Divide
}

/// A literal token at `pos` that forms a whole expression: nothing after
/// it would extend the expression.
pub open spec fn lone_literal_at(ts: Seq<Token>, pos: int) -> bool {
    &&& 0 <= pos < ts.len()
    &&& is_literal_token(ts[pos]@)
    &&& (pos + 1 >= ts.len() || !continues_expr(ts[pos + 1]@))
}

/// Whether a token is one of the four scalar type markers.
pub open spec fn scalar_type_token(t: TokenView) -> bool {
    t == TokenView::TypeInt || t == TokenView::TypeFloat || t == TokenView::TypeString || t
        == TokenView::TypeBool
}

/// The type descriptor a scalar type marker denotes.
pub open spec fn scalar_type_of(t: TokenView) -> TypeDesc {
    if t == TokenView::TypeInt {
        TypeDesc::Int
    } else if t == TokenView::TypeFloat {
        TypeDesc::Float
    } else if t == TokenView::TypeString {
        TypeDesc::Str
    } else {
        TypeDesc::Bool
    }
}

/// The tokens from `pos` begin `let <identifier> : <scalar type> =
/// <literal>`, with nothing following that would extend the initializer.
pub open spec fn simple_let_at(ts: Seq<Token>, pos: int) -> bool {
    &&& 0 <= pos && pos + 5 < ts.len()
    &&& ts[pos]@ == TokenView::Let
    &&& ts[pos + 1]@ matches TokenView::Identifier(_)
    &&& ts[pos + 2]@ == TokenView::Colon
    &&& scalar_type_token(ts[pos + 3]@)
    &&& ts[pos + 4]@ == TokenView::Assign
    &&& is_literal_token(ts[pos + 5]@)
    &&& (pos + 6 >= ts.len() || !continues_expr(ts[pos + 6]@))
}

/// Whether a token after a leading identifier selects one of the suffix
/// statement shapes (assignment, indexing, method call, call).
pub open spec fn starts_suffix(t: TokenView) -> bool {
    t == TokenView::Assign || t == TokenView::LBracket || t == TokenView::Dot || t
        == TokenView::LParen
}

/// The scope model after a declaration takes effect in the innermost
/// scope: an existing binding of the name there is overwritten, otherwise
/// the binding is appended. This is exactly what `define_variable` does.
pub open spec fn model_after_define(
    m: Seq<Seq<BindingView>>,
    name: Seq<char>,
    ty: TypeDesc,
    value: LiteralView,
) -> Seq<Seq<BindingView>> {
    let top = m.last();
    let k = find_in_scope(top, name);
    let bv = (BindingView { name, ty, value });
    m.update(
        m.len() - 1,
        if k < top.len() {
            top.update(k, bv)
        } else {
            top.push(bv)
        },
    )
}

/// The scope model after an assignment takes effect: the innermost binding
/// of the name keeps its declared type and takes the new tracked value.
/// This is exactly what `assign_variable` does on success.
pub open spec fn model_after_assign(
    m: Seq<Seq<BindingView>>,
    name: Seq<char>,
    value: LiteralView,
) -> Seq<Seq<BindingView>> {
    let si = find_scope(m, name);
    let bi = find_in_scope(m[si], name);
    let bound = m[si][bi];
    m.update(si, m[si].update(bi, BindingView { name, ty: bound.ty, value }))
}

/// Whether a block starting at `pos` is immediately closed: the cursor
/// already stands on a terminator, an `else`, or past the input.
pub open spec fn blocks_immediately(ts: Seq<Token>, pos: int) -> bool {
    pos >= ts.len() || ts[pos]@ == TokenView::End || ts[pos]@ == TokenView::Else || ts[pos]@
        == TokenView::EOF
}

/// Whether a token can begin a statement.
pub open spec fn is_statement_start(t: TokenView) -> bool {
    ||| t == TokenView::Let
    ||| t == TokenView::Print
    ||| t == TokenView::If
    ||| t == TokenView::While
    ||| t == TokenView::For
    ||| t == TokenView::Func
    ||| t == TokenView::Return
    ||| t matches TokenView::Identifier(_)
}

/// Which statement shape each leading token selects. No token outside this
/// table starts a statement.
pub open spec fn dispatches(lead: TokenView, s: Stmt) -> bool {
    match lead {
        TokenView::Let => s is Let,
        TokenView::Print => s is Print,
        TokenView::If => s is If,
        TokenView::While => s is While,
        TokenView::For => s is For,
        TokenView::Func => s is Func,
        TokenView::Return => s is Return,
        TokenView::Identifier(_) => s is Expression,
        _ => false,
    }
}

/// A fresh copy of a parameter list, preserving names and types.
fn params_copy(ps: &Vec<(Vec<char>, TypeDesc)>) -> (r: Vec<(Vec<char>, TypeDesc)>)
    ensures
        r@.len() == ps@.len(),
        forall|i: int|
            0 <= i < ps@.len() ==> (#[trigger] r@[i]).0@ == ps@[i].0@ && r@[i].1 == ps@[i].1,
{
    let mut out: Vec<(Vec<char>, TypeDesc)> = Vec::new();
    let mut i: usize = 0;
    while i < ps.len()
        invariant
            i <= ps@.len(),
            out@.len() == i,
            forall|j: int|
                0 <= j < i ==> (#[trigger] out@[j]).0@ == ps@[j].0@ && out@[j].1 == ps@[j].1,
        decreases ps@.len() - i,
    {
        out.push((copy_chars(&ps[i].0), type_desc_copy(&ps[i].1)));
        i += 1;
    }
    out
}

/// A structural copy of an expression tree, used when a parsed body must
/// live both in the returned statement and in the function table.
fn expr_copy(e: &Expr) -> Expr
    decreases *e,
{
    match e {
        Expr::Binary { op, left, right } => {
            proof {
                assert(decreases_to!(*e => **left));
                assert(decreases_to!(*e => **right));
            }
            Expr::Binary {
                op: token_copy(op),
                left: Box::new(expr_copy(left)),
                right: Box::new(expr_copy(right)),
            }
        },
        Expr::Grouping(inner) => {
            proof {
                assert(decreases_to!(*e => **inner));
            }
            Expr::Grouping(Box::new(expr_copy(inner)))
        },
        Expr::Literal(lv) => Expr::Literal(lit_copy(lv)),
        Expr::Variable(name) => Expr::Variable(copy_chars(name)),
        Expr::Unary { operator, right } => {
            proof {
                assert(decreases_to!(*e => **right));
            }
            Expr::Unary { operator: token_copy(operator), right: Box::new(expr_copy(right)) }
        },
        Expr::Assign { name, value } => {
            proof {
                assert(decreases_to!(*e => **value));
            }
            Expr::Assign { name: copy_chars(name), value: Box::new(expr_copy(value)) }
        },
        Expr::Logical { left, operator, right } => {
            proof {
                assert(decreases_to!(*e => **left));
                assert(decreases_to!(*e => **right));
            }
            Expr::Logical {
                left: Box::new(expr_copy(left)),
                operator: token_copy(operator),
                right: Box::new(expr_copy(right)),
            }
        },
        Expr::Call { callee, arguments } => {
            proof {
                assert(decreases_to!(*e => **callee));
                assert(decreases_to!(*e => *arguments));
                assert(decreases_to!(*arguments => arguments@));
                assert(decreases_to!(*e => arguments@));
            }
            Expr::Call { callee: Box::new(expr_copy(callee)), arguments: exprs_copy(arguments) }
        },
        Expr::MethodCall { receiver, method, arguments } => {
            proof {
                assert(decreases_to!(*e => **receiver));
                assert(decreases_to!(*e => *arguments));
                assert(decreases_to!(*arguments => arguments@));
                assert(decreases_to!(*e => arguments@));
            }
            Expr::MethodCall {
                receiver: Box::new(expr_copy(receiver)),
                method: copy_chars(method),
                arguments: exprs_copy(arguments),
            }
        },
        Expr::List(elems) => {
            proof {
                assert(decreases_to!(*e => *elems));
                assert(decreases_to!(*elems => elems@));
                assert(decreases_to!(*e => elems@));
            }
            Expr::List(exprs_copy(elems))
        },
        Expr::Index { list, index } => {
            proof {
                assert(decreases_to!(*e => **list));
                assert(decreases_to!(*e => **index));
            }
            Expr::Index { list: Box::new(expr_copy(list)), index: Box::new(expr_copy(index)) }
        },
        Expr::ListAssign { list_name, index, value } => {
            proof {
                assert(decreases_to!(*e => **index));
                assert(decreases_to!(*e => **value));
            }
            Expr::ListAssign {
                list_name: copy_chars(list_name),
                index: Box::new(expr_copy(index)),
                value: Box::new(expr_copy(value)),
            }
        },
    }
}

/// A structural copy of an expression list.
#[verifier::loop_isolation(false)]
fn exprs_copy(es: &Vec<Expr>) -> Vec<Expr>
    decreases es@,
{
    let mut out: Vec<Expr> = Vec::new();
    let mut i: usize = 0;
    while i < es.len()
        invariant
            i <= es@.len(),
        decreases es@.len() - i,
    {
        proof {
            assert(decreases_to!(es@ => es@[i as int]));
        }
        out.push(expr_copy(&es[i]));
        i += 1;
    }
    out
}

/// A structural copy of a statement tree.
fn stmt_copy(s: &Stmt) -> Stmt
    decreases *s,
{
    match s {
        Stmt::Expression(e) => Stmt::Expression(expr_copy(e)),
        Stmt::Let { name, data_type, value } => Stmt::Let {
            name: copy_chars(name),
            data_type: type_desc_copy(data_type),
            value: expr_copy(value),
        },
        Stmt::Print(e) => Stmt::Print(expr_copy(e)),
        Stmt::Block(stmts) => {
            proof {
                assert(decreases_to!(*s => *stmts));
                assert(decreases_to!(*stmts => stmts@));
                assert(decreases_to!(*s => stmts@));
            }
            Stmt::Block(stmts_copy(stmts))
        },
        Stmt::If { condition, then_branch, else_branch } => {
            proof {
                assert(decreases_to!(*s => **then_branch));
            }
            let eb: Option<Box<Stmt>> = match else_branch {
                Some(b) => {
                    proof {
                        assert(decreases_to!(*s => *else_branch));
                        assert(decreases_to!(*else_branch => **b));
                        assert(decreases_to!(*s => **b));
                    }
                    Some(Box::new(stmt_copy(b)))
                },
                None => None,
            };
            Stmt::If {
                condition: expr_copy(condition),
                then_branch: Box::new(stmt_copy(then_branch)),
                else_branch: eb,
            }
        },
        Stmt::While { condition, body } => {
            proof {
                assert(decreases_to!(*s => **body));
            }
            Stmt::While { condition: expr_copy(condition), body: Box::new(stmt_copy(body)) }
        },
        Stmt::For { var_name, start_value, end_value, body } => {
            proof {
                assert(decreases_to!(*s => **body));
            }
            Stmt::For {
                var_name: copy_chars(var_name),
                start_value: expr_copy(start_value),
                end_value: expr_copy(end_value),
                body: Box::new(stmt_copy(body)),
            }
        },
        Stmt::Func { name, params, body } => {
            proof {
                assert(decreases_to!(*s => *body));
                assert(decreases_to!(*body => body@));
                assert(decreases_to!(*s => body@));
            }
            Stmt::Func {
                name: copy_chars(name),
                params: params_copy(params),
                body: stmts_copy(body),
            }
        },
        Stmt::Return { value } => {
            let v: Option<Expr> = match value {
                Some(e) => Some(expr_copy(e)),
                None => None,
            };
            Stmt::Return { value: v }
        },
    }
}

/// A structural copy of a statement list.
#[verifier::loop_isolation(false)]
fn stmts_copy(ss: &Vec<Stmt>) -> Vec<Stmt>
    decreases ss@,
{
    let mut out: Vec<Stmt> = Vec::new();
    let mut i: usize = 0;
    while i < ss.len()
        invariant
            i <= ss@.len(),
        decreases ss@.len() - i,
    {
        proof {
            assert(decreases_to!(ss@ => ss@[i as int]));
        }
        out.push(stmt_copy(&ss[i]));
        i += 1;
    }
    out
}

impl Parser {
    /// A type annotation: a scalar type marker consumed directly, or the
    /// list type marker followed by an angle-bracketed inner type,
    /// recursively.
    pub fn parse_type(&mut self) -> (r: Result<TypeDesc, ParseError>)
        requires
            old(self).wf(),
        ensures
            final(self).wf(),
            keeps_context(*old(self), *final(self)),
            r is Ok ==> final(self).pos > old(self).pos,
            (old(self).pos < old(self).tokens@.len() && scalar_type_token(old(self).tokens@[old(self).pos as int]@)) ==> (r matches Ok(d) && d == scalar_type_of(old(self).tokens@[old(self).pos as int]@) && final(self).pos == old(self).pos + 1),
            (old(self).pos + 3 < old(self).tokens@.len() && old(self).tokens@[old(self).pos as int]@
                == TokenView::TypeList && old(self).tokens@[old(self).pos + 1]@ == TokenView::Less
                && scalar_type_token(old(self).tokens@[old(self).pos + 2]@) && old(self).tokens@[old(self).pos + 3]@ == TokenView::Greater) ==> (r matches Ok(d) && d
                == TypeDesc::List(Box::new(scalar_type_of(old(self).tokens@[old(self).pos + 2]@)))
                && final(self).pos == old(self).pos + 4),
        decreases self.tokens@.len() - self.pos,
    {
        if self.pos >= self.tokens.len() {
            return Err(
                ParseError::UnexpectedToken { expected: Expected::TypeMarker, found: None },
            );
        }
        if self.check_at(&Token::TypeInt) {
            self.eat(Token::TypeInt)?;
            Ok(TypeDesc::Int)
        } else if self.check_at(&Token::TypeFloat) {
            self.eat(Token::TypeFloat)?;
            Ok(TypeDesc::Float)
        } else if self.check_at(&Token::TypeString) {
            self.eat(Token::TypeString)?;
            Ok(TypeDesc::Str)
        } else if self.check_at(&Token::TypeBool) {
            self.eat(Token::TypeBool)?;
            Ok(TypeDesc::Bool)
        } else if self.check_at(&Token::TypeList) {
            self.eat(Token::TypeList)?;
            self.eat(Token::Less)?;
            let inner = self.parse_type()?;
            self.eat(Token::Greater)?;
            Ok(TypeDesc::List(Box::new(inner)))
        } else {
            Err(
                ParseError::UnexpectedToken {
                    expected: Expected::TypeMarker,
                    found: Some(token_copy(&self.tokens[self.pos])),
                },
            )
        }
    }

    /// The `let` production: `let name : type = expression`. Pure grammar —
    /// it returns the declaration as a statement and performs no scope
    /// insertion; callers invoke `define_variable` to make it take effect.
    pub fn parse_let(&mut self) -> (r: Result<Stmt, ParseError>)
        requires
            old(self).wf(),
        ensures
            final(self).wf(),
            keeps_context(*old(self), *final(self)),
            r matches Ok(s) ==> final(self).pos > old(self).pos && (s matches Stmt::Let {
                name,
                data_type,
                value,
            } && is_or_expr(value)),
            simple_let_at(old(self).tokens@, old(self).pos as int) ==> (r matches Ok(s)
                && final(self).pos == old(self).pos + 6 && (s matches Stmt::Let {
                name,
                data_type,
                value,
            } && old(self).tokens@[old(self).pos + 1]@ == TokenView::Identifier(name@)
                && data_type == scalar_type_of(old(self).tokens@[old(self).pos + 3]@) && (value
                matches Expr::Literal(lv) && lv@ == lit_of_token(
                old(self).tokens@[old(self).pos + 5]@,
            )))),
            !(old(self).pos < old(self).tokens@.len() && old(self).tokens@[old(self).pos as int]@
                == TokenView::Let) ==> (r matches Err(e) && unexpected_exact(
                e,
                TokenView::Let,
                if old(self).pos < old(self).tokens@.len() {
                    Some(old(self).tokens@[old(self).pos as int]@)
                } else {
                    None
                },
            )),
            (old(self).pos < old(self).tokens@.len() && old(self).tokens@[old(self).pos as int]@
                == TokenView::Let && !(old(self).pos + 1 < old(self).tokens@.len() && old(self).tokens@[old(self).pos + 1]@ matches TokenView::Identifier(_))) ==> (r matches Err(e)
                && (e matches ParseError::UnexpectedToken { expected, .. } && expected@
                == ExpectedView::AnyIdentifier)),
    {
        self.eat(Token::Let)?;
        let name = self.take_identifier()?;
        self.eat(Token::Colon)?;
        let data_type = self.parse_type()?;
        self.eat(Token::Assign)?;
        let value = self.parse_expression()?;
        Ok(Stmt::Let { name, data_type, value })
    }

    /// The `print` production: `print expression`.
    pub fn parse_print(&mut self) -> (r: Result<Stmt, ParseError>)
        requires
            old(self).wf(),
        ensures
            final(self).wf(),
            keeps_context(*old(self), *final(self)),
            r matches Ok(s) ==> final(self).pos > old(self).pos && s is Print,
            (old(self).pos < old(self).tokens@.len() && old(self).tokens@[old(self).pos as int]@
                == TokenView::Print && lone_literal_at(old(self).tokens@, old(self).pos + 1))
                ==> (r matches Ok(s) && final(self).pos == old(self).pos + 2 && (s
                matches Stmt::Print(e) && e matches Expr::Literal(lv) && lv@ == lit_of_token(
                old(self).tokens@[old(self).pos + 1]@,
            ))),
    {
        self.eat(Token::Print)?;
        let e = self.parse_expression()?;
        Ok(Stmt::Print(e))
    }

    /// The `return` production: an optional value expression, present
    /// unless the current token is a block terminator, `else`, or the end
    /// of input.
    pub fn parse_return(&mut self) -> (r: Result<Stmt, ParseError>)
        requires
            old(self).wf(),
        ensures
            final(self).wf(),
            keeps_context(*old(self), *final(self)),
            r matches Ok(s) ==> final(self).pos > old(self).pos && s is Return,
            (old(self).pos < old(self).tokens@.len() && old(self).tokens@[old(self).pos as int]@
                == TokenView::Return && (old(self).pos + 1 >= old(self).tokens@.len() || old(self).tokens@[old(self).pos + 1]@ == TokenView::End || old(self).tokens@[old(self).pos
                + 1]@ == TokenView::Else || old(self).tokens@[old(self).pos + 1]@
                == TokenView::EOF)) ==> (r matches Ok(s) && s == (Stmt::Return { value: None })
                && final(self).pos == old(self).pos + 1),
    {
        self.eat(Token::Return)?;
        if self.pos >= self.tokens.len() {
            return Ok(Stmt::Return { value: None });
        }
        if self.check_at(&Token::End) || self.check_at(&Token::Else) || self.check_at(
            &Token::EOF,
        ) {
            return Ok(Stmt::Return { value: None });
        }
        let e = self.parse_expression()?;
        Ok(Stmt::Return { value: Some(e) })
    }

    /// A block: statements collected until a terminator, `else`, or the end
    /// of input — none of which the block consumes; they are left for the
    /// caller. The block opens its own scope on entry and closes it on
    /// exit, so declarations inside it shadow and then expire.
    #[verifier::loop_isolation(false)]
    pub fn parse_block(&mut self) -> (r: Result<Vec<Stmt>, ParseError>)
        requires
            old(self).wf(),
        ensures
            final(self).wf(),
            final(self).tokens == old(self).tokens,
            old(self).pos <= final(self).pos <= final(self).tokens@.len(),
            r is Ok ==> final(self).scope_model().len() == old(self).scope_model().len() && (
            final(self).pos == final(self).tokens@.len() || final(self).tokens@[final(self).pos as int]@ == TokenView::End || final(self).tokens@[final(self).pos as int]@
                == TokenView::Else || final(self).tokens@[final(self).pos as int]@
                == TokenView::EOF),
            blocks_immediately(old(self).tokens@, old(self).pos as int) ==> (r matches Ok(b)
                && b@.len() == 0 && final(self).pos == old(self).pos && final(self).scope_model()
                == old(self).scope_model()),
        decreases self.tokens@.len() - self.pos, 3int,
    {
        self.push_scope();
        let mut stmts: Vec<Stmt> = Vec::new();
        loop
            invariant
                self.wf(),
                self.tokens == old(self).tokens,
                old(self).pos <= self.pos <= self.tokens@.len(),
                self.scope_model().len() == old(self).scope_model().len() + 1,
                blocks_immediately(old(self).tokens@, old(self).pos as int) ==> (stmts@.len() == 0
                    && self.pos == old(self).pos && self.scope_model() == old(self).scope_model().push(Seq::<BindingView>::empty())),
            decreases self.tokens@.len() - self.pos,
        {
            if self.pos >= self.tokens.len() {
                break ;
            }
            if self.check_at(&Token::End) || self.check_at(&Token::Else) || self.check_at(
                &Token::EOF,
            ) {
                break ;
            }
            let s = self.sense()?;
            stmts.push(s);
        }
        self.pop_scope();
        Ok(stmts)
    }

    /// The `if` production: condition, then-block, an optional `else`
    /// block (present exactly when the current token is `else`), then a
    /// required terminator.
    pub fn parse_if(&mut self) -> (r: Result<Stmt, ParseError>)
        requires
            old(self).wf(),
        ensures
            final(self).wf(),
            final(self).tokens == old(self).tokens,
            old(self).pos <= final(self).pos <= final(self).tokens@.len(),
            r matches Ok(s) ==> final(self).pos > old(self).pos && final(self).scope_model().len()
                == old(self).scope_model().len() && (s matches Stmt::If { condition, .. }
                && is_or_expr(condition)),
            (old(self).pos < old(self).tokens@.len() && old(self).tokens@[old(self).pos as int]@
                == TokenView::If && lone_literal_at(old(self).tokens@, old(self).pos + 1) && old(self).pos + 2 < old(self).tokens@.len() && old(self).tokens@[old(self).pos + 2]@
                == TokenView::End) ==> (r matches Ok(s) && final(self).pos == old(self).pos + 3
                && final(self).scope_model() == old(self).scope_model() && (s matches Stmt::If {
                condition,
                then_branch,
                else_branch,
            } && (condition matches Expr::Literal(lv) && lv@ == lit_of_token(
                old(self).tokens@[old(self).pos + 1]@,
            )) && else_branch is None)),
            (old(self).pos < old(self).tokens@.len() && old(self).tokens@[old(self).pos as int]@
                == TokenView::If && lone_literal_at(old(self).tokens@, old(self).pos + 1) && old(self).pos + 2 < old(self).tokens@.len() && old(self).tokens@[old(self).pos + 2]@
                == TokenView::EOF) ==> (r matches Err(e) && unexpected_exact(
                e,
                TokenView::End,
                Some(TokenView::EOF),
            )),
        decreases self.tokens@.len() - self.pos, 1int,
    {
        self.eat(Token::If)?;
        let condition = self.parse_expression()?;
        let then_stmts = self.parse_block()?;
        let else_branch: Option<Box<Stmt>> = if self.check_at(&Token::Else) {
            self.eat(Token::Else)?;
            let else_stmts = self.parse_block()?;
            Some(Box::new(Stmt::Block(else_stmts)))
        } else {
            None
        };
        self.eat(Token::End)?;
        Ok(
            Stmt::If {
                condition,
                then_branch: Box::new(Stmt::Block(then_stmts)),
                else_branch,
            },
        )
    }

    /// The `while` production: condition, body block, terminator.
    pub fn parse_while(&mut self) -> (r: Result<Stmt, ParseError>)
        requires
            old(self).wf(),
        ensures
            final(self).wf(),
            final(self).tokens == old(self).tokens,
            old(self).pos <= final(self).pos <= final(self).tokens@.len(),
            r matches Ok(s) ==> final(self).pos > old(self).pos && final(self).scope_model().len()
                == old(self).scope_model().len() && (s matches Stmt::While { condition, .. }
                && is_or_expr(condition)),
            (old(self).pos < old(self).tokens@.len() && old(self).tokens@[old(self).pos as int]@
                == TokenView::While && lone_literal_at(old(self).tokens@, old(self).pos + 1)
                && old(self).pos + 2 < old(self).tokens@.len() && old(self).tokens@[old(self).pos
                + 2]@ == TokenView::End) ==> (r matches Ok(s) && final(self).pos == old(self).pos
                + 3 && final(self).scope_model() == old(self).scope_model() && (s
                matches Stmt::While { condition, .. } && (condition matches Expr::Literal(lv)
                && lv@ == lit_of_token(old(self).tokens@[old(self).pos + 1]@)))),
        decreases self.tokens@.len() - self.pos, 1int,
    {
        self.eat(Token::While)?;
        let condition = self.parse_expression()?;
        let body = self.parse_block()?;
        self.eat(Token::End)?;
        Ok(Stmt::While { condition, body: Box::new(Stmt::Block(body)) })
    }

    /// The `for` production: `for name : int = start .. end`, then a body
    /// block and a terminator (required here as for the other block
    /// statements, for structural symmetry). The loop variable must be
    /// declared with the integer type marker and is defined, implicitly
    /// integer-typed, in a scope that encloses only the body.
    pub fn parse_for(&mut self) -> (r: Result<Stmt, ParseError>)
        requires
            old(self).wf(),
        ensures
            final(self).wf(),
            final(self).tokens == old(self).tokens,
            old(self).pos <= final(self).pos <= final(self).tokens@.len(),
            r matches Ok(s) ==> final(self).pos > old(self).pos && final(self).scope_model().len()
                == old(self).scope_model().len() && s is For,
            ({
                let ts = old(self).tokens@;
                let p = old(self).pos as int;
                &&& p + 8 < ts.len()
                &&& ts[p]@ == TokenView::For
                &&& ts[p + 1]@ matches TokenView::Identifier(_)
                &&& ts[p + 2]@ == TokenView::Colon
                &&& ts[p + 3]@ == TokenView::TypeInt
                &&& ts[p + 4]@ == TokenView::Assign
                &&& is_literal_token(ts[p + 5]@)
                &&& lit_compatible(lit_of_token(ts[p + 5]@), TypeDesc::Int)
                &&& ts[p + 6]@ == TokenView::Range
                &&& is_literal_token(ts[p + 7]@)
                &&& ts[p + 8]@ == TokenView::End
            }) ==> (r matches Ok(s) && final(self).pos == old(self).pos + 9 && final(self).scope_model() == old(self).scope_model() && s is For),
        decreases self.tokens@.len() - self.pos, 1int,
    {
        self.eat(Token::For)?;
        let var_name = self.take_identifier()?;
        self.eat(Token::Colon)?;
        self.eat(Token::TypeInt)?;
        self.eat(Token::Assign)?;
        let start_value = self.parse_expression()?;
        self.eat(Token::Range)?;
        let end_value = self.parse_expression()?;
        self.push_scope();
        match self.define_variable(&var_name, &TypeDesc::Int, &start_value) {
            Err(e) => {
                return Err(e);
            },
            Ok(()) => {},
        }
        let body = self.parse_block()?;
        self.pop_scope();
        self.eat(Token::End)?;
        proof {
            let m0 = old(self).scope_model();
            let pushed = m0.push(Seq::<BindingView>::empty());
            assert(pushed.drop_last() =~= m0);
            assert(model_after_define(
                pushed,
                var_name@,
                TypeDesc::Int,
                static_value(start_value),
            ).drop_last() =~= m0);
        }
        Ok(
            Stmt::For {
                var_name,
                start_value,
                end_value,
                body: Box::new(Stmt::Block(body)),
            },
        )
    }

    /// The `fn` production: name, a parenthesized comma-separated list of
    /// `name : type` parameters (no trailing comma), a body block in which
    /// the parameters are in scope, and a terminator. Pure grammar: the
    /// function table is populated by callers through `define_function`.
    #[verifier::loop_isolation(false)]
    pub fn parse_fn(&mut self) -> (r: Result<Stmt, ParseError>)
        requires
            old(self).wf(),
        ensures
            final(self).wf(),
            final(self).tokens == old(self).tokens,
            old(self).pos <= final(self).pos <= final(self).tokens@.len(),
            r matches Ok(s) ==> final(self).pos > old(self).pos && final(self).scope_model().len()
                == old(self).scope_model().len() && s is Func,
            ({
                let ts = old(self).tokens@;
                let p = old(self).pos as int;
                &&& p + 4 < ts.len()
                &&& ts[p]@ == TokenView::Func
                &&& ts[p + 1]@ matches TokenView::Identifier(_)
                &&& ts[p + 2]@ == TokenView::LParen
                &&& ts[p + 3]@ == TokenView::RParen
                &&& ts[p + 4]@ == TokenView::End
            }) ==> (r matches Ok(s) && final(self).pos == old(self).pos + 5 && final(self).scope_model() == old(self).scope_model() && (s matches Stmt::Func {
                name,
                params,
                body,
            } && old(self).tokens@[old(self).pos + 1]@ == TokenView::Identifier(name@)
                && params@.len() == 0 && body@.len() == 0)),
        decreases self.tokens@.len() - self.pos, 1int,
    {
        self.eat(Token::Func)?;
        let name = self.take_identifier()?;
        self.eat(Token::LParen)?;
        let mut params: Vec<(Vec<char>, TypeDesc)> = Vec::new();
        if self.check_at(&Token::RParen) {
            self.eat(Token::RParen)?;
        } else {
            loop
                invariant
                    self.wf(),
                    self.tokens == old(self).tokens,
                    self.scopes == old(self).scopes,
                    self.functions == old(self).functions,
                    old(self).pos < self.pos <= self.tokens@.len(),
                decreases self.tokens@.len() - self.pos,
            {
                let pn = self.take_identifier()?;
                self.eat(Token::Colon)?;
                let pt = self.parse_type()?;
                params.push((pn, pt));
                if self.check_at(&Token::Comma) {
                    self.eat(Token::Comma)?;
                } else {
                    self.eat(Token::RParen)?;
                    break ;
                }
            }
        }
        self.push_scope();
        let ghost pos_before_defines = self.pos;
        let ghost model_before_defines = self.scope_model();
        let mut i: usize = 0;
        while i < params.len()
            invariant
                self.wf(),
                self.tokens == old(self).tokens,
                self.functions == old(self).functions,
                old(self).pos < self.pos <= self.tokens@.len(),
                self.scope_model().len() == old(self).scope_model().len() + 1,
                params@.len() == 0 ==> (self.pos == pos_before_defines && self.scope_model()
                    == model_before_defines),
            decreases params@.len() - i,
        {
            let nil_value = Expr::Literal(LiteralValue::Nil);
            match self.define_variable(&params[i].0, &params[i].1, &nil_value) {
                Err(e) => {
                    return Err(e);
                },
                Ok(()) => {},
            }
            i += 1;
        }
        let body = self.parse_block()?;
        self.pop_scope();
        self.eat(Token::End)?;
        proof {
            assert(old(self).scope_model().push(Seq::<BindingView>::empty()).drop_last() =~= old(self).scope_model());
        }
        Ok(Stmt::Func { name, params, body })
    }

    /// The identifier-statement production: after the leading identifier,
    /// one token of lookahead distinguishes assignment, indexed assignment
    /// or a bare indexed read, a method call, a call, and a bare variable
    /// reference. Assignments are resolved against the scope stack as they
    /// are parsed.
    #[verifier::loop_isolation(false)]
    fn parse_identifier_statement(&mut self, name: Vec<char>) -> (r: Result<Stmt, ParseError>)
        requires
            old(self).wf(),
        ensures
            final(self).wf(),
            final(self).tokens == old(self).tokens,
            final(self).functions == old(self).functions,
            old(self).pos <= final(self).pos <= final(self).tokens@.len(),
            r matches Ok(s) ==> final(self).scope_model().len() == old(self).scope_model().len()
                && s is Expression,
            r is Err ==> final(self).scope_model() == old(self).scope_model(),
            (old(self).pos >= old(self).tokens@.len() || !starts_suffix(
                old(self).tokens@[old(self).pos as int]@,
            )) ==> (r matches Ok(s) && final(self).pos == old(self).pos && s == Stmt::Expression(
                Expr::Variable(name),
            ) && final(self).scope_model() == old(self).scope_model()),
            r matches Ok(s) ==> (s matches Stmt::Expression(e) ==> (e matches Expr::Assign {
                name: n,
                value: v,
            } ==> ({
                let m = old(self).scope_model();
                let si = find_scope(m, n@);
                &&& si >= 0
                &&& expr_compatible(*v, m[si][find_in_scope(m[si], n@)].ty)
                &&& final(self).scope_model() == model_after_assign(m, n@, static_value(*v))
            }))),
            (old(self).pos < old(self).tokens@.len() && old(self).tokens@[old(self).pos as int]@
                == TokenView::Assign && lone_literal_at(old(self).tokens@, old(self).pos + 1))
                ==> ({
                let lv = lit_of_token(old(self).tokens@[old(self).pos + 1]@);
                let m = old(self).scope_model();
                let si = find_scope(m, name@);
                if si < 0 {
                    r matches Err(e) && (e matches ParseError::UndeclaredVariable { name: n } && n@
                        == name@)
                } else {
                    let bound = m[si][find_in_scope(m[si], name@)];
                    if lit_compatible(lv, bound.ty) {
                        r matches Ok(s) && final(self).pos == old(self).pos + 2 && final(self).scope_model() == model_after_assign(m, name@, lv)
                    } else {
                        r matches Err(e) && (e matches ParseError::TypeMismatch {
                            expected,
                            found,
                        } && expected == bound.ty && found@ == lv)
                    }
                }
            }),
    {
        if self.check_at(&Token::Assign) {
            self.eat(Token::Assign)?;
            let value = self.parse_expression()?;
            match self.assign_variable(&name, &value) {
                Err(e) => {
                    return Err(e);
                },
                Ok(()) => {},
            }
            return Ok(Stmt::Expression(Expr::Assign { name, value: Box::new(value) }));
        }
        if self.check_at(&Token::LBracket) {
            self.eat(Token::LBracket)?;
            let index = self.parse_expression()?;
            self.eat(Token::RBracket)?;
            if self.check_at(&Token::Assign) {
                self.eat(Token::Assign)?;
                let value = self.parse_expression()?;
                match self.lookup_variable(&name) {
                    None => {
                        return Err(ParseError::UndeclaredVariable { name });
                    },
                    Some((ty, _)) => match &ty {
                        TypeDesc::List(inner) => match check_expr_type(&value, inner) {
                            Err(e) => {
                                return Err(e);
                            },
                            Ok(()) => {},
                        },
                        _ => {},
                    },
                }
                return Ok(
                    Stmt::Expression(
                        Expr::ListAssign {
                            list_name: name,
                            index: Box::new(index),
                            value: Box::new(value),
                        },
                    ),
                );
            }
            let mut e = Expr::Index { list: Box::new(Expr::Variable(name)), index: Box::new(
                index,
            ) };
            loop
                invariant
                    self.wf(),
                    self.tokens == old(self).tokens,
                    self.scopes == old(self).scopes,
                    self.functions == old(self).functions,
                    old(self).pos <= self.pos <= self.tokens@.len(),
                    e is Index,
                decreases self.tokens@.len() - self.pos,
            {
                if self.check_at(&Token::LBracket) {
                    self.eat(Token::LBracket)?;
                    let idx = self.parse_expression()?;
                    self.eat(Token::RBracket)?;
                    e = Expr::Index { list: Box::new(e), index: Box::new(idx) };
                } else {
                    return Ok(Stmt::Expression(e));
                }
            }
        }
        if self.check_at(&Token::Dot) {
            self.eat(Token::Dot)?;
            let method = self.take_identifier()?;
            let args = self.parse_arguments()?;
            return Ok(
                Stmt::Expression(
                    Expr::MethodCall {
                        receiver: Box::new(Expr::Variable(name)),
                        method,
                        arguments: args,
                    },
                ),
            );
        }
        if self.check_at(&Token::LParen) {
            let args = self.parse_arguments()?;
            return Ok(
                Stmt::Expression(
                    Expr::Call { callee: Box::new(Expr::Variable(name)), arguments: args },
                ),
            );
        }
        Ok(Stmt::Expression(Expr::Variable(name)))
    }

    /// One logical statement, selected deterministically by its first
    /// token: `let`, `print`, `if`, `while`, `for`, `fn` and `return` each
    /// own a production; an identifier selects the identifier-statement
    /// production; anything else is an error naming the unrecognized
    /// token. Declarations and function definitions take effect in the
    /// scope stack and the function table as part of this call.
    pub fn sense(&mut self) -> (r: Result<Stmt, ParseError>)
        requires
            old(self).wf(),
        ensures
            final(self).wf(),
            final(self).tokens == old(self).tokens,
            old(self).pos <= final(self).pos <= final(self).tokens@.len(),
            r matches Ok(s) ==> final(self).pos > old(self).pos && old(self).pos < old(self).tokens@.len() && dispatches(old(self).tokens@[old(self).pos as int]@, s) && final(self).scope_model().len() == old(self).scope_model().len(),
            old(self).pos >= old(self).tokens@.len() ==> r is Err,
            (old(self).pos < old(self).tokens@.len() && !is_statement_start(old(self).tokens@[old(self).pos as int]@)) ==> (r matches Err(e) && e matches ParseError::UnknownStatement { found } && found@ == old(self).tokens@[old(self).pos as int]@),
            r matches Ok(s) ==> (s matches Stmt::Let { name, data_type, value } ==> (
            expr_compatible(value, data_type) && final(self).scope_model() == model_after_define(
                old(self).scope_model(),
                name@,
                data_type,
                static_value(value),
            ))),
            r matches Ok(s) ==> (s matches Stmt::Expression(e) ==> (e matches Expr::Assign {
                name: n,
                value: v,
            } ==> ({
                let m = old(self).scope_model();
                let si = find_scope(m, n@);
                &&& si >= 0
                &&& expr_compatible(*v, m[si][find_in_scope(m[si], n@)].ty)
                &&& final(self).scope_model() == model_after_assign(m, n@, static_value(*v))
            }))),
            (r is Err && old(self).pos < old(self).tokens@.len() && ({
                let lead = old(self).tokens@[old(self).pos as int]@;
                lead == TokenView::Let || lead == TokenView::Print || lead == TokenView::Return
                    || lead matches TokenView::Identifier(_)
            })) ==> final(self).scope_model() == old(self).scope_model(),
            simple_let_at(old(self).tokens@, old(self).pos as int) ==> ({
                let dt = scalar_type_of(old(self).tokens@[old(self).pos + 3]@);
                let lv = lit_of_token(old(self).tokens@[old(self).pos + 5]@);
                if lit_compatible(lv, dt) {
                    r matches Ok(s) && final(self).pos == old(self).pos + 6 && (s
                        matches Stmt::Let { name, data_type, value } && old(self).tokens@[old(self).pos + 1]@ == TokenView::Identifier(name@) && data_type == dt && (value
                        matches Expr::Literal(l2) && l2@ == lv))
                } else {
                    r matches Err(e) && (e matches ParseError::TypeMismatch { expected, found }
                        && expected == dt && found@ == lv)
                }
            }),
            (old(self).pos < old(self).tokens@.len() && old(self).pos + 1 < old(self).tokens@.len() && old(self).tokens@[old(self).pos + 1]@ == TokenView::Assign
                && lone_literal_at(old(self).tokens@, old(self).pos + 2)) ==> (old(self).tokens@[old(self).pos as int]@ matches TokenView::Identifier(x) ==> ({
                let lv = lit_of_token(old(self).tokens@[old(self).pos + 2]@);
                let m = old(self).scope_model();
                let si = find_scope(m, x);
                if si < 0 {
                    r matches Err(e) && (e matches ParseError::UndeclaredVariable { name: n } && n@
                        == x)
                } else {
                    let bound = m[si][find_in_scope(m[si], x)];
                    if lit_compatible(lv, bound.ty) {
                        r matches Ok(s) && final(self).pos == old(self).pos + 3 && final(self).scope_model() == model_after_assign(m, x, lv)
                    } else {
                        r matches Err(e) && (e matches ParseError::TypeMismatch {
                            expected,
                            found,
                        } && expected == bound.ty && found@ == lv)
                    }
                }
            })),
            (old(self).pos < old(self).tokens@.len() && old(self).tokens@[old(self).pos as int]@
                == TokenView::Print && lone_literal_at(old(self).tokens@, old(self).pos + 1))
                ==> (r matches Ok(s) && final(self).pos == old(self).pos + 2 && s is Print),
            (old(self).pos < old(self).tokens@.len() && old(self).tokens@[old(self).pos as int]@
                == TokenView::Return && (old(self).pos + 1 >= old(self).tokens@.len() || old(self).tokens@[old(self).pos + 1]@ == TokenView::End || old(self).tokens@[old(self).pos
                + 1]@ == TokenView::Else || old(self).tokens@[old(self).pos + 1]@
                == TokenView::EOF)) ==> (r matches Ok(s) && s is Return && final(self).pos == old(self).pos + 1),
            (old(self).pos < old(self).tokens@.len() && old(self).tokens@[old(self).pos as int]@
                == TokenView::If && lone_literal_at(old(self).tokens@, old(self).pos + 1) && old(self).pos + 2 < old(self).tokens@.len() && old(self).tokens@[old(self).pos + 2]@
                == TokenView::End) ==> (r matches Ok(s) && s is If && final(self).pos == old(self).pos + 3 && final(self).scope_model() == old(self).scope_model()),
            (old(self).pos < old(self).tokens@.len() && old(self).tokens@[old(self).pos as int]@
                == TokenView::If && lone_literal_at(old(self).tokens@, old(self).pos + 1) && old(self).pos + 2 < old(self).tokens@.len() && old(self).tokens@[old(self).pos + 2]@
                == TokenView::EOF) ==> (r matches Err(e) && unexpected_exact(
                e,
                TokenView::End,
                Some(TokenView::EOF),
            )),

            (old(self).pos < old(self).tokens@.len() && old(self).tokens@[old(self).pos as int]@
                == TokenView::While && lone_literal_at(old(self).tokens@, old(self).pos + 1)
                && old(self).pos + 2 < old(self).tokens@.len() && old(self).tokens@[old(self).pos
                + 2]@ == TokenView::End) ==> (r matches Ok(s) && s is While && final(self).pos
                == old(self).pos + 3 && final(self).scope_model() == old(self).scope_model()),
            ({
                let ts = old(self).tokens@;
                let p = old(self).pos as int;
                &&& p + 8 < ts.len()
                &&& ts[p]@ == TokenView::For
                &&& ts[p + 1]@ matches TokenView::Identifier(_)
                &&& ts[p + 2]@ == TokenView::Colon
                &&& ts[p + 3]@ == TokenView::TypeInt
                &&& ts[p + 4]@ == TokenView::Assign
                &&& is_literal_token(ts[p + 5]@)
                &&& lit_compatible(lit_of_token(ts[p + 5]@), TypeDesc::Int)
                &&& ts[p + 6]@ == TokenView::Range
                &&& is_literal_token(ts[p + 7]@)
                &&& ts[p + 8]@ == TokenView::End
            }) ==> (r matches Ok(s) && s is For && final(self).pos == old(self).pos + 9 && final(self).scope_model() == old(self).scope_model()),
            ({
                let ts = old(self).tokens@;
                let p = old(self).pos as int;
                &&& p + 4 < ts.len()
                &&& ts[p]@ == TokenView::Func
                &&& ts[p + 1]@ matches TokenView::Identifier(_)
                &&& ts[p + 2]@ == TokenView::LParen
                &&& ts[p + 3]@ == TokenView::RParen
                &&& ts[p + 4]@ == TokenView::End
            }) ==> (r matches Ok(s) && s is Func && final(self).pos == old(self).pos + 5 && final(self).scope_model() == old(self).scope_model()),
            (old(self).pos < old(self).tokens@.len() && (old(self).tokens@[old(self).pos as int]@
                matches TokenView::Identifier(_)) && (old(self).pos + 1 >= old(self).tokens@.len() || !starts_suffix(old(self).tokens@[old(self).pos + 1]@))) ==> (r
                matches Ok(s)
                && final(self).pos == old(self).pos + 1 && final(self).scope_model() == old(self).scope_model() && (s matches Stmt::Expression(e) && e is Variable)),
        decreases self.tokens@.len() - self.pos, 2int,
    {
        if self.pos >= self.tokens.len() {
            return Err(
                ParseError::UnexpectedToken { expected: Expected::StatementStart, found: None },
            );
        }
        if self.check_at(&Token::Let) {
            let s = self.parse_let()?;
            match &s {
                Stmt::Let { name, data_type, value } => {
                    match self.define_variable(name, data_type, value) {
                        Err(e) => {
                            return Err(e);
                        },
                        Ok(()) => {},
                    }
                },
                _ => {},
            }
            Ok(s)
        } else if self.check_at(&Token::Print) {
            self.parse_print()
        } else if self.check_at(&Token::If) {
            self.parse_if()
        } else if self.check_at(&Token::While) {
            self.parse_while()
        } else if self.check_at(&Token::For) {
            self.parse_for()
        } else if self.check_at(&Token::Func) {
            let s = self.parse_fn()?;
            match &s {
                Stmt::Func { name, params, body } => {
                    let fd = FuncDef {
                        name: copy_chars(name),
                        params: params_copy(params),
                        body: stmts_copy(body),
                    };
                    self.define_function(fd);
                },
                _ => {},
            }
            Ok(s)
        } else if self.check_at(&Token::Return) {
            self.parse_return()
        } else {
            let is_ident = match &self.tokens[self.pos] {
                Token::Identifier(_) => true,
                _ => false,
            };
            if is_ident {
                let name = self.take_identifier()?;
                self.parse_identifier_statement(name)
            } else {
                Err(ParseError::UnknownStatement { found: token_copy(&self.tokens[self.pos]) })
            }
        }
    }

    /// The top-level driver: statements collected until the token sequence
    /// is exhausted or only the end-of-input marker remains.
    #[verifier::loop_isolation(false)]
    pub fn parse_program(&mut self) -> (r: Result<Vec<Stmt>, ParseError>)
        requires
            old(self).wf(),
        ensures
            final(self).wf(),
            final(self).tokens == old(self).tokens,
            old(self).pos <= final(self).pos <= final(self).tokens@.len(),
            r is Ok ==> final(self).scope_model().len() == old(self).scope_model().len() && (
            final(self).pos == final(self).tokens@.len() || final(self).tokens@[final(self).pos as int]@ == TokenView::EOF),
            (old(self).pos >= old(self).tokens@.len() || old(self).tokens@[old(self).pos as int]@
                == TokenView::EOF) ==> (r matches Ok(p) && p@.len() == 0 && final(self).pos == old(self).pos && final(self).scope_model() == old(self).scope_model()),
            (old(self).pos < old(self).tokens@.len() && old(self).tokens@[old(self).pos as int]@
                != TokenView::EOF) ==> (r matches Ok(p) ==> (p@.len() >= 1 && dispatches(
                old(self).tokens@[old(self).pos as int]@,
                p@[0],
            ))),
    {
        let mut program: Vec<Stmt> = Vec::new();
        loop
            invariant
                self.wf(),
                self.tokens == old(self).tokens,
                old(self).pos <= self.pos <= self.tokens@.len(),
                self.scope_model().len() == old(self).scope_model().len(),
                (old(self).pos >= old(self).tokens@.len() || old(self).tokens@[old(self).pos as int]@
                    == TokenView::EOF) ==> (program@.len() == 0 && self.pos == old(self).pos
                    && self.scope_model() == old(self).scope_model()),
                program@.len() == 0 ==> self.pos == old(self).pos,
                program@.len() > 0 && old(self).pos < old(self).tokens@.len() ==> dispatches(
                    old(self).tokens@[old(self).pos as int]@,
                    program@[0],
                ),
            decreases self.tokens@.len() - self.pos,
        {
            if self.pos >= self.tokens.len() {
                return Ok(program);
            }
            if self.check_at(&Token::EOF) {
                return Ok(program);
            }
            let s = self.sense()?;
            program.push(s);
        }
    }
}

} // verus!
