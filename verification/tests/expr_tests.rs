use gate::BinaryOp::{Add, Lt};
use gate::Data::{Boolean, Nil, Number};
use gate::ExecuteError::{UndefinedFunc, UndefinedVar};
use gate::Expression::{
    Assignment, BinaryExpr, Block, BooleanLiteral, FunctionCall, IfExpr, NilLiteral,
    NumberLiteral, ParenExpr, StrLiteral, Variable, WhileLoop,
};
use gate::{Data, Expression, Program};

fn nl(x: f64) -> Expression {
    NumberLiteral(x.to_bits())
}

fn num(x: f64) -> Data {
    Number(x.to_bits())
}

#[test]
fn expr_test_test_variables() {
    let ast = vec![
        Assignment { left: "x".to_owned(), right: Box::new(nl(2.0)) },
        Assignment { left: "y".to_owned(), right: Box::new(Variable("x".to_owned())) },
        Assignment { left: "z".to_owned(), right: Box::new(Variable("w".to_owned())) },
        Assignment {
            left: "y".to_owned(),
            right: Box::new(BinaryExpr {
                left: Box::new(Variable("y".to_owned())),
                op: Add,
                right: Box::new(nl(1.0)),
            }),
        },
    ];

    let mut p = Program::new();
    for exp in ast {
        p.eval(&exp).ok();
    }

    assert_eq!(p.var("w"), None);
    assert_eq!(p.var("x"), Some(num(2.0)));
    assert_eq!(p.var("y"), Some(num(3.0)));
    assert_eq!(p.var("z"), None);
}

#[test]
fn expr_test_test_undefined_var() {
    let ast = Variable("foo".to_owned());
    let mut p = Program::new();
    let res = ast.eval(&mut p);
    assert_eq!(Err(UndefinedVar("foo".to_owned())), res);
}

#[test]
fn expr_test_test_undefined_func() {
    let ast = FunctionCall { name: "foo".to_owned(), args: vec![] };
    let mut p = Program::new();
    let res = ast.eval(&mut p);
    assert_eq!(Err(UndefinedFunc("foo".to_owned())), res);
}

#[test]
fn expr_test_test_paren_expr() {
    let expr = ParenExpr(Box::new(BooleanLiteral(true)));

    let mut p = Program::new();
    assert_eq!(expr.eval(&mut p).unwrap(), Boolean(true));
}

#[test]
fn expr_test_test_block() {
    let block = Block(vec![nl(1.0), nl(2.0), nl(3.0)]);

    let mut p = Program::new();
    assert_eq!(block.eval(&mut p).unwrap(), num(3.0));
}

#[test]
fn expr_test_test_block_scope() {
    let var = Variable("x".to_owned());

    let block = Block(vec![
        Assignment { left: "x".to_owned(), right: Box::new(nl(1.0)) },
        Variable("x".to_owned()),
    ]);

    let assign = Assignment { left: "x".to_owned(), right: Box::new(BooleanLiteral(true)) };

    let mut p = Program::new();
    assert_eq!(Err(UndefinedVar("x".to_owned())), var.eval(&mut p));
    assert_eq!(Ok(num(1.0)), block.eval(&mut p));
    assert_eq!(Err(UndefinedVar("x".to_owned())), var.eval(&mut p));
    assert_eq!(Ok(Boolean(true)), assign.eval(&mut p));
    assert_eq!(Ok(Boolean(true)), var.eval(&mut p));
}

#[test]
fn expr_test_test_if_expr() {
    let mut p = Program::new();

    // The condition counts as true unless it is exactly `false`; `nil` in
    // particular is truthy here, so the fifth case takes the body.
    let cases = vec![
        (BooleanLiteral(true), nl(1.0), None, num(1.0)),
        (BooleanLiteral(true), nl(1.0), Some(nl(2.0)), num(1.0)),
        (BooleanLiteral(false), nl(1.0), None, Nil),
        (BooleanLiteral(false), nl(1.0), Some(nl(2.0)), num(2.0)),
        (NilLiteral, nl(1.0), Some(nl(2.0)), num(1.0)),
    ];

    for (cond, body, else_branch, exp) in cases {
        let x = IfExpr {
            cond: Box::new(cond),
            body: Box::new(body),
            else_branch: else_branch.map(|e| Box::new(e)),
        };

        assert_eq!(x.eval(&mut p).unwrap(), exp);
    }
}

#[test]
fn expr_test_test_while_loop() {
    let mut p = Program::new();
    p.eval(&Assignment { left: "x".to_owned(), right: Box::new(nl(0.0)) }).unwrap();

    let out = p
        .eval(&WhileLoop {
            cond: Box::new(BinaryExpr {
                left: Box::new(Variable("x".to_owned())),
                op: Lt,
                right: Box::new(nl(5.0)),
            }),
            body: Box::new(Assignment {
                left: "x".to_owned(),
                right: Box::new(BinaryExpr {
                    left: Box::new(Variable("x".to_owned())),
                    op: Add,
                    right: Box::new(nl(1.0)),
                }),
            }),
        })
        .unwrap();

    assert_eq!(out, num(5.0));
    assert_eq!(p.eval(&Variable("x".to_owned())).unwrap(), num(5.0));
}

#[test]
fn test_if_truthiness() {
    // In a conditional every value but exactly `false` takes the body:
    // `nil` and the number zero are both truthy here, unlike under the
    // general truthiness rule.
    let mut p = Program::new();
    let x = IfExpr {
        cond: Box::new(NilLiteral),
        body: Box::new(nl(1.0)),
        else_branch: Some(Box::new(nl(2.0))),
    };
    assert_eq!(x.eval(&mut p).unwrap(), num(1.0));
    let y = IfExpr {
        cond: Box::new(nl(0.0)),
        body: Box::new(nl(1.0)),
        else_branch: Some(Box::new(nl(2.0))),
    };
    assert_eq!(y.eval(&mut p).unwrap(), num(1.0));
}

#[test]
fn test_general_truthiness() {
    assert_eq!(Nil.to_bool(), false);
    assert_eq!(Boolean(false).to_bool(), false);
    assert_eq!(Boolean(true).to_bool(), true);
    assert_eq!(num(0.0).to_bool(), true);
    assert_eq!(Data::Str("".to_owned()).to_bool(), true);
}

#[test]
fn test_step_limit() {
    // A loop that never ends exhausts a finite step budget.
    let mut p = Program::new();
    let w = WhileLoop { cond: Box::new(BooleanLiteral(true)), body: Box::new(nl(1.0)) };
    assert_eq!(w.eval_fueled(&mut p, 10), Err(gate::ExecuteError::StepLimit));
}

#[test]
fn test_println_builtin() {
    // `println` evaluates its arguments and yields nil; argument errors
    // propagate before anything is written.
    let mut p = Program::new();
    let call = FunctionCall {
        name: "println".to_owned(),
        args: vec![StrLiteral("a".to_owned()), nl(1.0)],
    };
    assert_eq!(call.eval(&mut p).unwrap(), Nil);

    let bad = FunctionCall {
        name: "println".to_owned(),
        args: vec![Variable("missing".to_owned())],
    };
    assert_eq!(bad.eval(&mut p), Err(UndefinedVar("missing".to_owned())));
}

#[test]
fn test_error_messages() {
    assert_eq!(
        UndefinedVar("foo".to_owned()).message(),
        "undefined variable \"foo\"".to_owned()
    );
    assert_eq!(
        UndefinedFunc("foo".to_owned()).message(),
        "undefined function \"foo\"".to_owned()
    );
    assert_eq!(
        gate::ExecuteError::InvalidOperation {
            left: "number".to_owned(),
            op: Add,
            right: "boolean".to_owned(),
        }
        .message(),
        "invalid operation (number + boolean)".to_owned()
    );
}

#[test]
fn test_display_text() {
    assert_eq!(Nil.display_text(), "nil".to_owned());
    assert_eq!(Boolean(true).display_text(), "true".to_owned());
    assert_eq!(Boolean(false).display_text(), "false".to_owned());
    assert_eq!(Data::Str("hey".to_owned()).display_text(), "hey".to_owned());
}

#[test]
fn test_type_text() {
    assert_eq!(Nil.type_text(), "nil".to_owned());
    assert_eq!(Boolean(true).type_text(), "boolean".to_owned());
    assert_eq!(num(1.0).type_text(), "number".to_owned());
    assert_eq!(Data::Str("s".to_owned()).type_text(), "string".to_owned());
}
