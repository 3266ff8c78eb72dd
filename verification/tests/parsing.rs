use lexparse::ast::Expr;
use lexparse::ast::LiteralValue;
use lexparse::ast::Stmt;
use lexparse::ast::TypeDesc;
use lexparse::errors::Expected;
use lexparse::errors::ParseError;
use lexparse::lexer::lexer;
use lexparse::parser::Parser;
use lexparse::tokens::Token;

fn chars(s: &str) -> Vec<char> {
    s.chars().collect()
}

fn parser_for(src: &str) -> Parser {
    Parser::new(lexer(&chars(src)).unwrap())
}

#[test]
fn precedence_multiplication_binds_tighter() {
    let mut p = parser_for("1 + 2 * 3");
    let e = p.parse_expression().unwrap();
    assert_eq!(
        e,
        Expr::Binary {
            op: Token::Plus,
            left: Box::new(Expr::Literal(LiteralValue::Int(1))),
            right: Box::new(Expr::Binary {
                op: Token::Multiply,
                left: Box::new(Expr::Literal(LiteralValue::Int(2))),
                right: Box::new(Expr::Literal(LiteralValue::Int(3))),
            }),
        }
    );
}

#[test]
fn precedence_additive_left_associative() {
    let mut p = parser_for("1 - 2 + 3");
    let e = p.parse_expression().unwrap();
    assert_eq!(
        e,
        Expr::Binary {
            op: Token::Plus,
            left: Box::new(Expr::Binary {
                op: Token::Minus,
                left: Box::new(Expr::Literal(LiteralValue::Int(1))),
                right: Box::new(Expr::Literal(LiteralValue::Int(2))),
            }),
            right: Box::new(Expr::Literal(LiteralValue::Int(3))),
        }
    );
}

#[test]
fn grouping_overrides_precedence() {
    let mut p = parser_for("( 1 + 2 ) * 3");
    let e = p.parse_expression().unwrap();
    assert_eq!(
        e,
        Expr::Binary {
            op: Token::Multiply,
            left: Box::new(Expr::Grouping(Box::new(Expr::Binary {
                op: Token::Plus,
                left: Box::new(Expr::Literal(LiteralValue::Int(1))),
                right: Box::new(Expr::Literal(LiteralValue::Int(2))),
            }))),
            right: Box::new(Expr::Literal(LiteralValue::Int(3))),
        }
    );
}

#[test]
fn unary_minus_binds_one_factor() {
    let mut p = parser_for("-x * 2");
    let e = p.parse_expression().unwrap();
    assert_eq!(
        e,
        Expr::Binary {
            op: Token::Multiply,
            left: Box::new(Expr::Unary {
                operator: Token::Minus,
                right: Box::new(Expr::Variable(chars("x"))),
            }),
            right: Box::new(Expr::Literal(LiteralValue::Int(2))),
        }
    );
}

#[test]
fn index_chains_left_associate() {
    let mut p = parser_for("a[0][1]");
    let e = p.parse_expression().unwrap();
    assert_eq!(
        e,
        Expr::Index {
            list: Box::new(Expr::Index {
                list: Box::new(Expr::Variable(chars("a"))),
                index: Box::new(Expr::Literal(LiteralValue::Int(0))),
            }),
            index: Box::new(Expr::Literal(LiteralValue::Int(1))),
        }
    );
}

#[test]
fn comparison_is_non_associative() {
    let mut p = parser_for("a == b == c");
    let e = p.parse_expression().unwrap();
    assert_eq!(
        e,
        Expr::Binary {
            op: Token::EqEq,
            left: Box::new(Expr::Variable(chars("a"))),
            right: Box::new(Expr::Variable(chars("b"))),
        }
    );
    // the second comparison operator is left dangling for the caller
    assert_eq!(p.current_token(), Some(&Token::EqEq));
}

#[test]
fn logical_operators_nest_and_under_or() {
    let mut p = parser_for("a or b and c");
    let e = p.parse_expression().unwrap();
    assert_eq!(
        e,
        Expr::Logical {
            left: Box::new(Expr::Variable(chars("a"))),
            operator: Token::Or,
            right: Box::new(Expr::Logical {
                left: Box::new(Expr::Variable(chars("b"))),
                operator: Token::And,
                right: Box::new(Expr::Variable(chars("c"))),
            }),
        }
    );
}

#[test]
fn call_and_method_call_expressions() {
    let mut p = parser_for("f(1, x)");
    let e = p.parse_expression().unwrap();
    assert_eq!(
        e,
        Expr::Call {
            callee: Box::new(Expr::Variable(chars("f"))),
            arguments: vec![
                Expr::Literal(LiteralValue::Int(1)),
                Expr::Variable(chars("x")),
            ],
        }
    );
    let mut q = parser_for("xs.push(1)");
    let m = q.parse_expression().unwrap();
    assert_eq!(
        m,
        Expr::MethodCall {
            receiver: Box::new(Expr::Variable(chars("xs"))),
            method: chars("push"),
            arguments: vec![Expr::Literal(LiteralValue::Int(1))],
        }
    );
}

#[test]
fn list_literals_empty_and_nested() {
    let mut p = parser_for("[]");
    assert_eq!(p.parse_expression().unwrap(), Expr::List(vec![]));
    let mut q = parser_for("[1, [2]]");
    assert_eq!(
        q.parse_expression().unwrap(),
        Expr::List(vec![
            Expr::Literal(LiteralValue::Int(1)),
            Expr::List(vec![Expr::Literal(LiteralValue::Int(2))]),
        ])
    );
}

#[test]
fn let_declares_in_scope() {
    let mut p = parser_for("let x : int = 5");
    let prog = p.parse_program().unwrap();
    assert_eq!(
        prog,
        vec![Stmt::Let {
            name: chars("x"),
            data_type: TypeDesc::Int,
            value: Expr::Literal(LiteralValue::Int(5)),
        }]
    );
    assert_eq!(
        p.lookup_variable(&chars("x")),
        Some((TypeDesc::Int, LiteralValue::Int(5)))
    );
}

#[test]
fn let_nested_list_type() {
    let mut p = parser_for("let xs : list<list<int>> = []");
    p.parse_program().unwrap();
    assert_eq!(
        p.lookup_variable(&chars("xs")),
        Some((
            TypeDesc::List(Box::new(TypeDesc::List(Box::new(TypeDesc::Int)))),
            LiteralValue::Nil
        ))
    );
}

#[test]
fn let_type_mismatch_detected() {
    let mut p = parser_for("let x : int = \"five\"");
    assert_eq!(
        p.parse_program(),
        Err(ParseError::TypeMismatch {
            expected: TypeDesc::Int,
            found: LiteralValue::Str(chars("five")),
        })
    );
}

#[test]
fn empty_list_fits_any_list_type() {
    let mut p = parser_for("let xs : list<int> = []");
    assert!(p.parse_program().is_ok());
}

#[test]
fn list_element_mismatch_names_offender() {
    let mut p = parser_for("let xs : list<int> = [1, \"a\"]");
    assert_eq!(
        p.parse_program(),
        Err(ParseError::TypeMismatch {
            expected: TypeDesc::Int,
            found: LiteralValue::Str(chars("a")),
        })
    );
}

#[test]
fn assignment_type_mismatch_keeps_binding() {
    let mut p = parser_for("let x : int = 1 x = \"a\"");
    assert_eq!(
        p.parse_program(),
        Err(ParseError::TypeMismatch {
            expected: TypeDesc::Int,
            found: LiteralValue::Str(chars("a")),
        })
    );
    // the original binding is unchanged by the failed assignment
    assert_eq!(
        p.lookup_variable(&chars("x")),
        Some((TypeDesc::Int, LiteralValue::Int(1)))
    );
}

#[test]
fn assignment_overwrites_tracked_value() {
    let mut p = parser_for("let x : int = 1 x = 2");
    p.parse_program().unwrap();
    assert_eq!(
        p.lookup_variable(&chars("x")),
        Some((TypeDesc::Int, LiteralValue::Int(2)))
    );
}

#[test]
fn assignment_to_undeclared_fails() {
    let mut p = parser_for("x = 5");
    assert_eq!(
        p.parse_program(),
        Err(ParseError::UndeclaredVariable { name: chars("x") })
    );
}

#[test]
fn scope_shadowing_restores_outer_binding() {
    let mut p = parser_for("let x : int = 1 if true let x : int = 2 end");
    p.parse_program().unwrap();
    assert_eq!(
        p.lookup_variable(&chars("x")),
        Some((TypeDesc::Int, LiteralValue::Int(1)))
    );
}

#[test]
fn assignment_reaches_outer_scope() {
    let mut p = parser_for("let x : int = 1 if true x = 2 end");
    p.parse_program().unwrap();
    assert_eq!(
        p.lookup_variable(&chars("x")),
        Some((TypeDesc::Int, LiteralValue::Int(2)))
    );
}

#[test]
fn malformed_block_reports_end_of_input() {
    let mut p = parser_for("if true print 1");
    assert_eq!(
        p.parse_program(),
        Err(ParseError::UnexpectedToken {
            expected: Expected::Exact(Token::End),
            found: Some(Token::EOF),
        })
    );
}

#[test]
fn if_else_shape() {
    let mut p = parser_for("if x > 0 print 1 else print 2 end");
    let prog = p.parse_program().unwrap();
    assert_eq!(prog.len(), 1);
    match &prog[0] {
        Stmt::If { condition, then_branch, else_branch } => {
            assert_eq!(
                *condition,
                Expr::Binary {
                    op: Token::Greater,
                    left: Box::new(Expr::Variable(chars("x"))),
                    right: Box::new(Expr::Literal(LiteralValue::Int(0))),
                }
            );
            assert_eq!(
                **then_branch,
                Stmt::Block(vec![Stmt::Print(Expr::Literal(LiteralValue::Int(1)))])
            );
            assert_eq!(
                *else_branch,
                Some(Box::new(Stmt::Block(vec![Stmt::Print(Expr::Literal(
                    LiteralValue::Int(2)
                ))])))
            );
        },
        other => panic!("expected an if statement, got {:?}", other),
    }
}

#[test]
fn while_statement_shape() {
    let mut p = parser_for("let x : int = 0 while x < 10 x = x + 1 end");
    let prog = p.parse_program().unwrap();
    assert_eq!(prog.len(), 2);
    assert!(matches!(prog[1], Stmt::While { .. }));
}

#[test]
fn for_statement_requires_int_marker() {
    let mut p = parser_for("for i : int = 0 .. 10 print i end");
    let prog = p.parse_program().unwrap();
    assert_eq!(prog.len(), 1);
    match &prog[0] {
        Stmt::For { var_name, start_value, end_value, .. } => {
            assert_eq!(*var_name, chars("i"));
            assert_eq!(*start_value, Expr::Literal(LiteralValue::Int(0)));
            assert_eq!(*end_value, Expr::Literal(LiteralValue::Int(10)));
        },
        other => panic!("expected a for statement, got {:?}", other),
    }
    let mut q = parser_for("for i : string = 0 .. 10 print i end");
    assert_eq!(
        q.parse_program(),
        Err(ParseError::UnexpectedToken {
            expected: Expected::Exact(Token::TypeInt),
            found: Some(Token::TypeString),
        })
    );
}

#[test]
fn for_loop_variable_expires_with_loop() {
    let mut p = parser_for("for i : int = 0 .. 3 print i end");
    p.parse_program().unwrap();
    assert_eq!(p.lookup_variable(&chars("i")), None);
}

#[test]
fn fn_definition_registers_in_table() {
    let mut p = parser_for("fn combine(a : int, b : int) print a + b end");
    let prog = p.parse_program().unwrap();
    assert_eq!(prog.len(), 1);
    match &prog[0] {
        Stmt::Func { name, params, body } => {
            assert_eq!(*name, chars("combine"));
            assert_eq!(params.len(), 2);
            assert_eq!(params[0], (chars("a"), TypeDesc::Int));
            assert_eq!(params[1], (chars("b"), TypeDesc::Int));
            assert_eq!(body.len(), 1);
        },
        other => panic!("expected a function definition, got {:?}", other),
    }
    assert_eq!(p.functions.len(), 1);
    assert_eq!(p.functions[0].name, chars("combine"));
    assert_eq!(p.functions[0].params.len(), 2);
}

#[test]
fn fn_parameters_are_scoped_to_the_body() {
    let mut p = parser_for("fn shout(msg : string) msg = \"loud\" end");
    p.parse_program().unwrap();
    assert_eq!(p.lookup_variable(&chars("msg")), None);
}

#[test]
fn return_with_and_without_value() {
    let mut p = parser_for("fn f() return 1 end fn g() return end");
    let prog = p.parse_program().unwrap();
    match &prog[0] {
        Stmt::Func { body, .. } => assert_eq!(
            body[0],
            Stmt::Return { value: Some(Expr::Literal(LiteralValue::Int(1))) }
        ),
        other => panic!("expected a function definition, got {:?}", other),
    }
    match &prog[1] {
        Stmt::Func { body, .. } => assert_eq!(body[0], Stmt::Return { value: None }),
        other => panic!("expected a function definition, got {:?}", other),
    }
}

#[test]
fn indexed_assignment_checks_element_type() {
    let mut p = parser_for("let xs : list<int> = [1, 2] xs[0] = 3");
    let prog = p.parse_program().unwrap();
    assert_eq!(
        prog[1],
        Stmt::Expression(Expr::ListAssign {
            list_name: chars("xs"),
            index: Box::new(Expr::Literal(LiteralValue::Int(0))),
            value: Box::new(Expr::Literal(LiteralValue::Int(3))),
        })
    );
    let mut q = parser_for("let xs : list<int> = [1, 2] xs[0] = \"a\"");
    assert_eq!(
        q.parse_program(),
        Err(ParseError::TypeMismatch {
            expected: TypeDesc::Int,
            found: LiteralValue::Str(chars("a")),
        })
    );
}

#[test]
fn indexed_assignment_to_undeclared_fails() {
    let mut p = parser_for("xs[0] = 3");
    assert_eq!(
        p.parse_program(),
        Err(ParseError::UndeclaredVariable { name: chars("xs") })
    );
}

#[test]
fn bare_indexed_read_statement() {
    let mut p = parser_for("let xs : list<int> = [1] xs[0]");
    let prog = p.parse_program().unwrap();
    assert_eq!(
        prog[1],
        Stmt::Expression(Expr::Index {
            list: Box::new(Expr::Variable(chars("xs"))),
            index: Box::new(Expr::Literal(LiteralValue::Int(0))),
        })
    );
}

#[test]
fn statement_dispatch_rejects_unknown_leading_token() {
    let mut p = parser_for("+ 1");
    assert_eq!(
        p.parse_program(),
        Err(ParseError::UnknownStatement { found: Token::Plus })
    );
}

#[test]
fn eat_reports_expected_and_found() {
    let mut p = Parser::new(vec![Token::Let]);
    assert_eq!(p.current_token(), Some(&Token::Let));
    assert_eq!(p.peek(), None);
    assert_eq!(
        p.eat(Token::Print),
        Err(ParseError::UnexpectedToken {
            expected: Expected::Exact(Token::Print),
            found: Some(Token::Let),
        })
    );
    assert_eq!(p.eat(Token::Let), Ok(()));
    assert_eq!(
        p.eat(Token::Let),
        Err(ParseError::UnexpectedToken {
            expected: Expected::Exact(Token::Let),
            found: None,
        })
    );
}

#[test]
fn eat_compares_payloads_not_just_variants() {
    let mut p = Parser::new(vec![Token::Identifier(chars("a"))]);
    assert_eq!(
        p.eat(Token::Identifier(chars("b"))),
        Err(ParseError::UnexpectedToken {
            expected: Expected::Exact(Token::Identifier(chars("b"))),
            found: Some(Token::Identifier(chars("a"))),
        })
    );
    assert_eq!(p.eat(Token::Identifier(chars("a"))), Ok(()));
}

#[test]
fn redeclaration_in_same_scope_overwrites() {
    let mut p = parser_for("let x : int = 1 let x : string = \"s\"");
    p.parse_program().unwrap();
    assert_eq!(
        p.lookup_variable(&chars("x")),
        Some((TypeDesc::Str, LiteralValue::Str(chars("s"))))
    );
}

#[test]
fn program_stops_cleanly_at_end_of_input() {
    let mut p = parser_for("print 1 print 2");
    let prog = p.parse_program().unwrap();
    assert_eq!(
        prog,
        vec![
            Stmt::Print(Expr::Literal(LiteralValue::Int(1))),
            Stmt::Print(Expr::Literal(LiteralValue::Int(2))),
        ]
    );
}

#[test]
fn minimal_block_statements_parse() {
    let mut p = parser_for("if true end while false end for i : int = 0 .. 1 end fn f() end");
    let prog = p.parse_program().unwrap();
    assert_eq!(prog.len(), 4);
    assert!(matches!(prog[0], Stmt::If { .. }));
    assert!(matches!(prog[1], Stmt::While { .. }));
    assert!(matches!(prog[2], Stmt::For { .. }));
    assert!(matches!(prog[3], Stmt::Func { .. }));
}

#[test]
fn bare_variable_statement() {
    let mut p = parser_for("x");
    let prog = p.parse_program().unwrap();
    assert_eq!(prog, vec![Stmt::Expression(Expr::Variable(chars("x")))]);
}
