//! The AST model: the closed set of expression and statement node shapes the
//! parser produces, the type descriptors of declarations, and the
//! compatibility relation between initializer expressions and declared types.
//!
//! Expression nodes own their sub-expressions exclusively; recursive fields
//! go through `Box`. The precedence shape predicates (`is_or_expr` and the
//! levels below it) describe exactly the trees the descent chain can build:
//! a multiplication node can never hold a bare addition as an operand, and
//! an indexing chain always nests on the left.

use vstd::prelude::*;

use crate::errors::ParseError;
use crate::tokens::Token;
use crate::tokens::TokenView;

verus! {

/// A literal payload as the parser records it in its scope bindings.
/// `Nil` stands for a value the parser does not track: the result of any
/// expression other than a plain literal.
#[derive(Debug, Clone, PartialEq)]
pub enum LiteralValue {
    Int(i64),
    /// A float literal's source text; the front end never evaluates it.
    Float(Vec<char>),
    Str(Vec<char>),
    Bool(bool),
    Nil,
}

/// The mathematical image of a `LiteralValue`.
pub enum LiteralView {
    Int(int),
    Float(Seq<char>),
    Str(Seq<char>),
    Bool(bool),
    Nil,
}

impl View for LiteralValue {
    type V = LiteralView;

    open spec fn view(&self) -> LiteralView {
        match self {
            LiteralValue::Int(n) => LiteralView::Int(*n as int),
            LiteralValue::Float(v) => LiteralView::Float(v@),
            LiteralValue::Str(v) => LiteralView::Str(v@),
            LiteralValue::Bool(b) => LiteralView::Bool(*b),
            LiteralValue::Nil => LiteralView::Nil,
        }
    }
}

/// A declared type: a scalar type marker or a nested list type. List types
/// nest recursively and are compared structurally.
#[derive(Debug, PartialEq)]
pub enum TypeDesc {
    Int,
    Float,
    Str,
    Bool,
    List(Box<TypeDesc>),
}

/// An expression node.
#[derive(Debug, PartialEq)]
pub enum Expr {
    Binary { op: Token, left: Box<Expr>, right: Box<Expr> },
    Grouping(Box<Expr>),
    Literal(LiteralValue),
    Variable(Vec<char>),
    Unary { operator: Token, right: Box<Expr> },
    Assign { name: Vec<char>, value: Box<Expr> },
    Logical { left: Box<Expr>, operator: Token, right: Box<Expr> },
    Call { callee: Box<Expr>, arguments: Vec<Expr> },
    MethodCall { receiver: Box<Expr>, method: Vec<char>, arguments: Vec<Expr> },
    List(Vec<Expr>),
    Index { list: Box<Expr>, index: Box<Expr> },
    ListAssign { list_name: Vec<char>, index: Box<Expr>, value: Box<Expr> },
}

/// A statement node.
#[derive(Debug, PartialEq)]
pub enum Stmt {
    Expression(Expr),
    Let { name: Vec<char>, data_type: TypeDesc, value: Expr },
    Print(Expr),
    Block(Vec<Stmt>),
    If { condition: Expr, then_branch: Box<Stmt>, else_branch: Option<Box<Stmt>> },
    While { condition: Expr, body: Box<Stmt> },
    For { var_name: Vec<char>, start_value: Expr, end_value: Expr, body: Box<Stmt> },
    Func { name: Vec<char>, params: Vec<(Vec<char>, TypeDesc)>, body: Vec<Stmt> },
    Return { value: Option<Expr> },
}

/// A primary expression with its bracket suffixes: literals, variables,
/// groupings, list literals, calls and method calls, and indexing chains
/// whose base is itself such an expression. An index node's inner list
/// position never holds an operator node, so bracket chains associate left.
pub open spec fn is_postfix_expr(e: Expr) -> bool
    decreases e,
{
    match e {
        Expr::Literal(_) => true,
        Expr::Variable(_) => true,
        Expr::Grouping(_) => true,
        Expr::List(_) => true,
        Expr::Call { .. } => true,
        Expr::MethodCall { .. } => true,
        Expr::Index { list, index } => is_postfix_expr(*list),
        _ => false,
    }
}

/// A unary-minus level expression: a postfix expression, possibly under one
/// prefix minus.
pub open spec fn is_unary_expr(e: Expr) -> bool {
    match e {
        Expr::Unary { operator, right } => operator@ == TokenView::Minus && is_postfix_expr(
            *right,
        ),
        _ => is_postfix_expr(e),
    }
}

/// A multiplicative-level expression: `*` and `/` chains associate left and
/// never hold a bare additive node as an operand.
pub open spec fn is_mul_expr(e: Expr) -> bool
    decreases e,
{
    match e {
        Expr::Binary { op, left, right } => (op@ == TokenView::Multiply || op@
            == TokenView::Divide) && is_mul_expr(*left) && is_unary_expr(*right),
        _ => is_unary_expr(e),
    }
}

/// An additive-level expression: `+` and `-` chains associate left, with
/// multiplicative operands.
pub open spec fn is_add_expr(e: Expr) -> bool
    decreases e,
{
    if is_mul_expr(e) {
        true
    } else {
        match e {
            Expr::Binary { op, left, right } => (op@ == TokenView::Plus || op@
                == TokenView::Minus) && is_add_expr(*left) && is_mul_expr(*right),
            _ => false,
        }
    }
}

/// Whether a token is one of the six comparison operators.
pub open spec fn is_cmp_op(t: TokenView) -> bool {
    t == TokenView::EqEq || t == TokenView::NotEq || t == TokenView::Greater || t
        == TokenView::Less || t == TokenView::GreaterEq || t == TokenView::LessEq
}

/// A comparison-level expression: at most one comparison operator, joining
/// two additive expressions. Comparison is non-associative by construction.
pub open spec fn is_cmp_expr(e: Expr) -> bool {
    if is_add_expr(e) {
        true
    } else {
        match e {
            Expr::Binary { op, left, right } => is_cmp_op(op@) && is_add_expr(*left)
                && is_add_expr(*right),
            _ => false,
        }
    }
}

/// A logical-and level expression.
pub open spec fn is_and_expr(e: Expr) -> bool
    decreases e,
{
    if is_cmp_expr(e) {
        true
    } else {
        match e {
            Expr::Logical { left, operator, right } => operator@ == TokenView::And && is_and_expr(
                *left,
            ) && is_cmp_expr(*right),
            _ => false,
        }
    }
}

/// A logical-or level expression: the shape of every full expression the
/// descent chain produces.
pub open spec fn is_or_expr(e: Expr) -> bool
    decreases e,
{
    if is_and_expr(e) {
        true
    } else {
        match e {
            Expr::Logical { left, operator, right } => operator@ == TokenView::Or && is_or_expr(
                *left,
            ) && is_and_expr(*right),
            _ => false,
        }
    }
}

/// The literal value an expression statically denotes: the payload of a
/// plain literal, `Nil` for everything else.
pub open spec fn static_value(e: Expr) -> LiteralView {
    match e {
        Expr::Literal(lv) => lv@,
        _ => LiteralView::Nil,
    }
}

/// Whether a tracked literal value fits a declared type. An untracked value
/// (`Nil`) fits every type: the parser checks only what it can see.
pub open spec fn lit_compatible(lv: LiteralView, ty: TypeDesc) -> bool {
    match lv {
        LiteralView::Int(_) => ty is Int,
        LiteralView::Float(_) => ty is Float,
        LiteralView::Str(_) => ty is Str,
        LiteralView::Bool(_) => ty is Bool,
        LiteralView::Nil => true,
    }
}

/// Whether an initializer expression fits a declared type: a literal must
/// match the scalar type; a list literal requires a list type, with every
/// element recursively fitting the element type (an empty list fits any list
/// type); any other expression is not checked at parse time.
pub open spec fn expr_compatible(e: Expr, ty: TypeDesc) -> bool
    decreases e,
{
    match e {
        Expr::Literal(lv) => lit_compatible(lv@, ty),
        Expr::List(elems) => match ty {
            TypeDesc::List(inner) => forall|i: int|
                0 <= i < elems@.len() ==> expr_compatible(#[trigger] elems@[i], *inner),
            _ => false,
        },
        _ => true,
    }
}

/// Index of the first list element that fails the compatibility check.
pub open spec fn first_bad_index(elems: Seq<Expr>, inner: TypeDesc) -> int
    decreases elems.len(),
{
    if elems.len() == 0 {
        0
    } else if !expr_compatible(elems[0], inner) {
        0
    } else {
        1 + first_bad_index(elems.drop_first(), inner)
    }
}

/// The expected type and offending literal value reported when an
/// expression fails the compatibility check: the mismatched literal itself,
/// found by descending into list literals; `Nil` where a list literal meets
/// a non-list type.
pub open spec fn first_offender(e: Expr, ty: TypeDesc) -> (TypeDesc, LiteralView)
    decreases e,
{
    match e {
        Expr::Literal(lv) => (ty, lv@),
        Expr::List(elems) => match ty {
            TypeDesc::List(inner) => {
                let k = first_bad_index(elems@, *inner);
                if 0 <= k < elems@.len() {
                    first_offender(elems@[k], *inner)
                } else {
                    (ty, LiteralView::Nil)
                }
            },
            _ => (ty, LiteralView::Nil),
        },
        _ => (ty, LiteralView::Nil),
    }
}

/// A fresh copy of a literal value.
pub fn lit_copy(lv: &LiteralValue) -> (r: LiteralValue)
    ensures
        r@ == lv@,
{
    match lv {
        LiteralValue::Int(n) => LiteralValue::Int(*n),
        LiteralValue::Float(v) => LiteralValue::Float(crate::text::copy_chars(v)),
        LiteralValue::Str(v) => LiteralValue::Str(crate::text::copy_chars(v)),
        LiteralValue::Bool(b) => LiteralValue::Bool(*b),
        LiteralValue::Nil => LiteralValue::Nil,
    }
}

/// A fresh copy of a type descriptor, structurally equal to the original.
pub fn type_desc_copy(ty: &TypeDesc) -> (r: TypeDesc)
    ensures
        r == *ty,
    decreases *ty,
{
    match ty {
        TypeDesc::Int => TypeDesc::Int,
        TypeDesc::Float => TypeDesc::Float,
        TypeDesc::Str => TypeDesc::Str,
        TypeDesc::Bool => TypeDesc::Bool,
        TypeDesc::List(inner) => TypeDesc::List(Box::new(type_desc_copy(inner))),
    }
}

/// Whether a literal payload fits a declared type, decided executably.
pub fn lit_matches_type(lv: &LiteralValue, ty: &TypeDesc) -> (r: bool)
    ensures
        r == lit_compatible(lv@, *ty),
{
    match lv {
        LiteralValue::Int(_) => match ty { TypeDesc::Int => true, _ => false },
        LiteralValue::Float(_) => match ty { TypeDesc::Float => true, _ => false },
        LiteralValue::Str(_) => match ty { TypeDesc::Str => true, _ => false },
        LiteralValue::Bool(_) => match ty { TypeDesc::Bool => true, _ => false },
        LiteralValue::Nil => true,
    }
}

pub proof fn lemma_first_bad_index(elems: Seq<Expr>, inner: TypeDesc, i: int)
    requires
        0 <= i < elems.len(),
        forall|j: int| 0 <= j < i ==> expr_compatible(#[trigger] elems[j], inner),
        !expr_compatible(elems[i], inner),
    ensures
        first_bad_index(elems, inner) == i,
    decreases i,
{
    if i > 0 {
        assert forall|j: int| 0 <= j < i - 1 implies expr_compatible(
            #[trigger] elems.drop_first()[j],
            inner,
        ) by {
            assert(elems.drop_first()[j] == elems[j + 1]);
        }
        assert(elems.drop_first()[i - 1] == elems[i]);
        lemma_first_bad_index(elems.drop_first(), inner, i - 1);
    }
}

/// Checks an initializer expression against a declared type. Succeeds
/// exactly when the expression is compatible; otherwise reports the first
/// offending literal together with the type it was expected to fit.
#[verifier::loop_isolation(false)]
pub fn check_expr_type(e: &Expr, ty: &TypeDesc) -> (r: Result<(), ParseError>)
    ensures
        r is Ok <==> expr_compatible(*e, *ty),
        r matches Err(pe) ==> pe matches ParseError::TypeMismatch { expected, found } && (
        expected,
        found@,
        ) == first_offender(*e, *ty),
    decreases *e,
{
    match e {
        Expr::Literal(lv) => {
            if lit_matches_type(lv, ty) {
                Ok(())
            } else {
                Err(ParseError::TypeMismatch { expected: type_desc_copy(ty), found: lit_copy(lv) })
            }
        },
        Expr::List(elems) => match ty {
            TypeDesc::List(inner) => {
                let mut i: usize = 0;
                while i < elems.len()
                    invariant
                        i <= elems@.len(),
                        forall|j: int|
                            0 <= j < i ==> expr_compatible(#[trigger] elems@[j], **inner),
                    decreases elems@.len() - i,
                {
                    proof {
                        vstd::std_specs::vec::axiom_vec_index_decreases(*elems, i as int);
                        assert(decreases_to!(*e => *elems));
                        assert(decreases_to!(*elems => elems@));
                        assert(decreases_to!(elems@ => elems@[i as int]));
                        assert(decreases_to!(*e => elems@[i as int]));
                    }
                    match check_expr_type(&elems[i], inner) {
                        Err(pe) => {
                            proof {
                                lemma_first_bad_index(elems@, **inner, i as int);
                                assert(!expr_compatible(elems@[i as int], **inner));
                                assert(*e matches Expr::List(es) && es == *elems);
                                assert(!expr_compatible(*e, *ty));
                            }
                            return Err(pe);
                        },
                        Ok(()) => {},
                    }
                    i += 1;
                }
                Ok(())
            },
            _ => Err(
                ParseError::TypeMismatch {
                    expected: type_desc_copy(ty),
                    found: LiteralValue::Nil,
                },
            ),
        },
        _ => Ok(()),
    }
}

} // verus!

