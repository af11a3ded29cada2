use gate::BinaryOp;
use gate::{Expression, ParseError, Parser, Program, Token};

fn nl(x: f64) -> Expression {
    Expression::NumberLiteral(x.to_bits())
}

#[test]
fn test_literal() {
    let mut parser = Parser::new(r#"nil true false 1 "foo""#);
    assert_eq!(parser.next(), Some(Ok(Expression::NilLiteral)));
    assert_eq!(parser.next(), Some(Ok(Expression::BooleanLiteral(true))));
    assert_eq!(parser.next(), Some(Ok(Expression::BooleanLiteral(false))));
    assert_eq!(parser.next(), Some(Ok(nl(1.0))));
    assert_eq!(parser.next(), Some(Ok(Expression::StrLiteral("foo".to_owned()))));
    assert_eq!(parser.next(), None);
}

#[test]
fn test_parenthesis() {
    let mut parser = Parser::new(r#"(nil)(((true)))"#);
    assert_eq!(
        parser.next(),
        Some(Ok(Expression::ParenExpr(Box::new(Expression::NilLiteral))))
    );
    assert_eq!(
        parser.next(),
        Some(Ok(Expression::ParenExpr(Box::new(Expression::ParenExpr(Box::new(
            Expression::ParenExpr(Box::new(Expression::BooleanLiteral(true)))
        ))))))
    );
    assert_eq!(parser.next(), None);
}

#[test]
fn test_identifier_and_function_call() {
    let foo_var = Expression::Variable("foo".to_owned());

    let mut parser = Parser::new(r#"foo foo() foo(foo) foo(foo, foo)"#);
    assert_eq!(parser.next(), Some(Ok(foo_var.clone())));
    assert_eq!(
        parser.next(),
        Some(Ok(Expression::FunctionCall { name: "foo".to_owned(), args: vec![] }))
    );
    assert_eq!(
        parser.next(),
        Some(Ok(Expression::FunctionCall {
            name: "foo".to_owned(),
            args: vec![foo_var.clone()],
        }))
    );
    assert_eq!(
        parser.next(),
        Some(Ok(Expression::FunctionCall {
            name: "foo".to_owned(),
            args: vec![foo_var.clone(), foo_var.clone()],
        }))
    );
    assert_eq!(parser.next(), None);
}

#[test]
fn parser_test_test_binary_expr() {
    let mut parser = Parser::new(r#"1 + 2 - 3 * 4 / 5"#);

    assert_eq!(
        parser.next(),
        Some(Ok(Expression::BinaryExpr {
            left: Box::new(nl(1.0)),
            op: BinaryOp::Add,
            right: Box::new(Expression::BinaryExpr {
                left: Box::new(nl(2.0)),
                op: BinaryOp::Sub,
                right: Box::new(Expression::BinaryExpr {
                    left: Box::new(nl(3.0)),
                    op: BinaryOp::Mul,
                    right: Box::new(Expression::BinaryExpr {
                        left: Box::new(nl(4.0)),
                        op: BinaryOp::Div,
                        right: Box::new(nl(5.0)),
                    }),
                }),
            }),
        }))
    );
    assert_eq!(parser.next(), None);
}

#[test]
fn test_binary_op() {
    let cases = vec![
        ("+", BinaryOp::Add),
        ("-", BinaryOp::Sub),
        ("*", BinaryOp::Mul),
        ("/", BinaryOp::Div),
        ("==", BinaryOp::Eq),
        ("<", BinaryOp::Lt),
        ("<=", BinaryOp::LtEq),
        (">", BinaryOp::Gt),
        (">=", BinaryOp::GtEq),
    ];

    for (s, op) in cases {
        let expr_str = format!("1 {} 2", s);

        let mut parser = Parser::new(&expr_str);
        assert_eq!(
            parser.next(),
            Some(Ok(Expression::BinaryExpr {
                left: Box::new(nl(1.0)),
                op: op,
                right: Box::new(nl(2.0)),
            }))
        );
        assert_eq!(parser.next(), None);
    }
}

#[test]
fn parser_test_test_block() {
    let mut parser = Parser::new("{1{}2}");

    assert_eq!(
        parser.next(),
        Some(Ok(Expression::Block(vec![
            nl(1.0),
            Expression::Block(vec![]),
            nl(2.0),
        ])))
    );
    assert_eq!(parser.next(), None);
}

#[test]
fn test_assignment() {
    let mut parser = Parser::new("x = y = z");

    assert_eq!(
        parser.next(),
        Some(Ok(Expression::Assignment {
            left: "x".to_owned(),
            right: Box::new(Expression::Assignment {
                left: "y".to_owned(),
                right: Box::new(Expression::Variable("z".to_owned())),
            }),
        }))
    );
    assert_eq!(parser.next(), None);
}

#[test]
fn parser_test_test_if_expr() {
    let mut parser = Parser::new("if true {} else if false {}");

    assert_eq!(
        parser.next(),
        Some(Ok(Expression::IfExpr {
            cond: Box::new(Expression::BooleanLiteral(true)),
            body: Box::new(Expression::Block(vec![])),
            else_branch: Some(Box::new(Expression::IfExpr {
                cond: Box::new(Expression::BooleanLiteral(false)),
                body: Box::new(Expression::Block(vec![])),
                else_branch: None,
            })),
        }))
    );
    assert_eq!(parser.next(), None);
}

#[test]
fn parser_test_test_while_loop() {
    let mut parser = Parser::new("while true {}");

    assert_eq!(
        parser.next(),
        Some(Ok(Expression::WhileLoop {
            cond: Box::new(Expression::BooleanLiteral(true)),
            body: Box::new(Expression::Block(vec![])),
        }))
    );
    assert_eq!(parser.next(), None);
}

#[test]
fn test_precedence() {
    let mut parser = Parser::new("1 + 2 * 3  1 * 2 + 3");

    assert_eq!(
        parser.next(),
        Some(Ok(Expression::BinaryExpr {
            left: Box::new(nl(1.0)),
            op: BinaryOp::Add,
            right: Box::new(Expression::BinaryExpr {
                left: Box::new(nl(2.0)),
                op: BinaryOp::Mul,
                right: Box::new(nl(3.0)),
            }),
        }))
    );
    assert_eq!(
        parser.next(),
        Some(Ok(Expression::BinaryExpr {
            left: Box::new(Expression::BinaryExpr {
                left: Box::new(nl(1.0)),
                op: BinaryOp::Mul,
                right: Box::new(nl(2.0)),
            }),
            op: BinaryOp::Add,
            right: Box::new(nl(3.0)),
        }))
    );
    assert_eq!(parser.next(), None);
}

#[test]
fn test_modulo() {
    // `%` scans, parses with its own rank, and evaluates as the remainder.
    let mut parser = Parser::new("17 % 4");
    let e = parser.next().unwrap().unwrap();
    assert_eq!(
        e,
        Expression::BinaryExpr {
            left: Box::new(nl(17.0)),
            op: BinaryOp::Mod,
            right: Box::new(nl(4.0)),
        }
    );
    let mut p = Program::new();
    assert_eq!(e.eval(&mut p).unwrap(), gate::Data::Number((1.0f64).to_bits()));
}

#[test]
fn test_paren_not_assignment() {
    // Only a bare variable reference on the left becomes an assignment;
    // `(x) = 1` stays two separate items.
    let mut parser = Parser::new("(x) = 1");
    assert_eq!(
        parser.next(),
        Some(Ok(Expression::ParenExpr(Box::new(Expression::Variable("x".to_owned())))))
    );
    assert_eq!(parser.next(), Some(Err(ParseError::Unexpected(Token::Eq))));
}

#[test]
fn test_parse_errors() {
    // Input ending mid-construct is distinguishable from a wrong token.
    let mut parser = Parser::new("(1");
    assert_eq!(parser.next(), Some(Err(ParseError::UnexpectedEOF)));

    let mut parser = Parser::new("{ 1");
    assert_eq!(parser.next(), Some(Err(ParseError::UnexpectedEOF)));

    let mut parser = Parser::new("(1}");
    assert_eq!(parser.next(), Some(Err(ParseError::Unexpected(Token::CloseCurly))));

    let mut parser = Parser::new("foo(1,)");
    assert_eq!(parser.next(), Some(Err(ParseError::Unexpected(Token::CloseParen))));

    // An unterminated string surfaces through the parser as a lexical
    // incomplete-string error, the other "more input needed" signal.
    let mut parser = Parser::new("\"abc");
    assert_eq!(
        parser.next(),
        Some(Err(ParseError::ScanError(gate::TokenError::IncompleteString)))
    );
}
