use gate::BinaryOp::{Add, Lt};
use gate::Data::{Boolean, Nil, Number};
use gate::ExecuteError::{UndefinedFunc, UndefinedVar};
use gate::Expression::{
    Assignment, BinaryExpr, Block, BooleanLiteral, FunctionCall, IfExpr, NumberLiteral,
    ParenExpr, Variable, WhileLoop,
};
use gate::{Data, Expression, Program};

fn nl(x: f64) -> Expression {
    NumberLiteral(x.to_bits())
}

fn num(x: f64) -> Data {
    Number(x.to_bits())
}

#[test]
fn ast_test_variables() {
    let ast = vec![
        Assignment { left: "x".to_owned(), right: Box::new(nl(2.0)) },
        Assignment { left: "y".to_owned(), right: Box::new(Variable("x".to_owned())) },
        Assignment { left: "z".to_owned(), right: Box::new(Variable("w".to_owned())) },
        Assignment {
            left: "y".to_owned(),
            right: Box::new(BinaryExpr {
                left: Box::new(Variable("y".to_owned())),
                op: Add,
                right: Box::new(nl(1.0)),
            }),
        },
    ];

    let mut p = Program::new();
    for exp in ast {
        p.eval(&exp).ok();
    }

    assert_eq!(p.var("w"), None);
    assert_eq!(p.var("x"), Some(num(2.0)));
    assert_eq!(p.var("y"), Some(num(3.0)));
    assert_eq!(p.var("z"), None);
}

#[test]
fn ast_test_undefined_var() {
    let ast = Variable("foo".to_owned());
    let mut p = Program::new();
    let res = ast.eval(&mut p);
    assert_eq!(Err(UndefinedVar("foo".to_owned())), res);
}

#[test]
fn ast_test_undefined_func() {
    let ast = FunctionCall { name: "foo".to_owned(), args: vec![] };
    let mut p = Program::new();
    let res = ast.eval(&mut p);
    assert_eq!(Err(UndefinedFunc("foo".to_owned())), res);
}

#[test]
fn ast_test_paren_expr() {
    let expr = ParenExpr(Box::new(BooleanLiteral(true)));

    let mut p = Program::new();
    assert_eq!(expr.eval(&mut p).unwrap(), Boolean(true));
}

#[test]
fn ast_test_block() {
    let block = Block(vec![nl(1.0), nl(2.0), nl(3.0)]);

    let mut p = Program::new();
    assert_eq!(block.eval(&mut p).unwrap(), num(3.0));
}

#[test]
fn ast_test_block_scope() {
    let var = Variable("x".to_owned());

    let block = Block(vec![
        Assignment { left: "x".to_owned(), right: Box::new(nl(1.0)) },
        Variable("x".to_owned()),
    ]);

    let assign = Assignment { left: "x".to_owned(), right: Box::new(BooleanLiteral(true)) };

    let mut p = Program::new();
    assert_eq!(Err(UndefinedVar("x".to_owned())), var.eval(&mut p));
    assert_eq!(Ok(num(1.0)), block.eval(&mut p));
    assert_eq!(Err(UndefinedVar("x".to_owned())), var.eval(&mut p));
    assert_eq!(Ok(Boolean(true)), assign.eval(&mut p));
    assert_eq!(Ok(Boolean(true)), var.eval(&mut p));
}

#[test]
fn ast_test_if_expr() {
    let mut p = Program::new();

    let cases = vec![
        (BooleanLiteral(true), nl(1.0), None, num(1.0)),
        (BooleanLiteral(true), nl(1.0), Some(nl(2.0)), num(1.0)),
        (BooleanLiteral(false), nl(1.0), None, Nil),
        (BooleanLiteral(false), nl(1.0), Some(nl(2.0)), num(2.0)),
    ];

    for (cond, body, else_branch, exp) in cases {
        let x = IfExpr {
            cond: Box::new(cond),
            body: Box::new(body),
            else_branch: else_branch.map(|e| Box::new(e)),
        };

        assert_eq!(x.eval(&mut p).unwrap(), exp);
    }
}

#[test]
fn ast_test_while_loop() {
    let mut p = Program::new();
    p.eval(&Assignment { left: "x".to_owned(), right: Box::new(nl(0.0)) }).unwrap();

    let out = p
        .eval(&WhileLoop {
            cond: Box::new(BinaryExpr {
                left: Box::new(Variable("x".to_owned())),
                op: Lt,
                right: Box::new(nl(5.0)),
            }),
            body: Box::new(Assignment {
                left: "x".to_owned(),
                right: Box::new(BinaryExpr {
                    left: Box::new(Variable("x".to_owned())),
                    op: Add,
                    right: Box::new(nl(1.0)),
                }),
            }),
        })
        .unwrap();

    assert_eq!(out, num(5.0));
    assert_eq!(p.eval(&Variable("x".to_owned())).unwrap(), num(5.0));
}
