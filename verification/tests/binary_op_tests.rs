use gate::BinaryOp::{Add, Div, Gt, GtEq, Lt, LtEq, Mod, Mul, Sub};
use gate::BinaryOp;
use gate::Data::{Boolean, Nil, Number, Str};
use gate::ExecuteError::InvalidOperation;

fn num(x: f64) -> gate::Data {
    Number(x.to_bits())
}

#[test]
fn binary_op_test_binary_expr() {
    let cases = vec![
        // Arithmetic
        (Add, num(1.0), num(2.0), num(3.0)),
        (Sub, num(1.0), num(2.0), num(-1.0)),
        (Mul, num(1.5), num(2.0), num(3.0)),
        (Div, num(1.0), num(2.0), num(0.5)),
        (Mod, num(17.0), num(4.0), num(1.0)),
        // Eq
        (BinaryOp::Eq, num(2.0), num(2.0), Boolean(true)),
        (BinaryOp::Eq, num(-2.0), num(2.0), Boolean(false)),
        (BinaryOp::Eq, Str("foo".to_owned()), Str("foo".to_owned()), Boolean(true)),
        (BinaryOp::Eq, Str("foo".to_owned()), Str("bar".to_owned()), Boolean(false)),
        (BinaryOp::Eq, Boolean(false), Boolean(false), Boolean(true)),
        (BinaryOp::Eq, Boolean(true), Boolean(true), Boolean(true)),
        (BinaryOp::Eq, Boolean(true), Boolean(false), Boolean(false)),
        (BinaryOp::Eq, Nil, Boolean(false), Boolean(false)),
        (BinaryOp::Eq, Nil, Nil, Boolean(true)),
        // Lt
        (Lt, num(-1.0), num(0.5), Boolean(true)),
        (Lt, num(1.0), num(1.0), Boolean(false)),
        (Lt, num(1.0), num(0.5), Boolean(false)),
        // LtEq
        (LtEq, num(-1.0), num(0.5), Boolean(true)),
        (LtEq, num(1.0), num(1.0), Boolean(true)),
        (LtEq, num(1.0), num(0.5), Boolean(false)),
        // Gt
        (Gt, num(-1.0), num(0.5), Boolean(false)),
        (Gt, num(1.0), num(1.0), Boolean(false)),
        (Gt, num(1.0), num(0.5), Boolean(true)),
        // GtEq
        (GtEq, num(-1.0), num(0.5), Boolean(false)),
        (GtEq, num(1.0), num(1.0), Boolean(true)),
        (GtEq, num(1.0), num(0.5), Boolean(true)),
    ];

    for (op, left, right, exp) in cases {
        assert_eq!(op.eval(&left, &right).unwrap(), exp);
    }

    // Invalid operation
    assert_eq!(
        Add.eval(&num(1.0), &Boolean(false)),
        Err(InvalidOperation {
            left: "number".to_owned(),
            op: Add,
            right: "boolean".to_owned(),
        })
    );
}

#[test]
fn test_precendence_ranks() {
    // Equality at the bottom, then relational, then modulo, then additive,
    // then multiplicative.
    assert_eq!(BinaryOp::Eq.precendence(), 0);
    assert_eq!(Lt.precendence(), 1);
    assert_eq!(LtEq.precendence(), 1);
    assert_eq!(Gt.precendence(), 1);
    assert_eq!(GtEq.precendence(), 1);
    assert_eq!(Mod.precendence(), 2);
    assert_eq!(Add.precendence(), 3);
    assert_eq!(Sub.precendence(), 3);
    assert_eq!(Mul.precendence(), 4);
    assert_eq!(Div.precendence(), 4);
}

#[test]
fn test_ieee_division() {
    // Division and modulo by zero follow IEEE semantics: no error.
    let r = Div.eval(&num(1.0), &num(0.0)).unwrap();
    match r {
        gate::Data::Number(b) => assert_eq!(f64::from_bits(b), f64::INFINITY),
        other => panic!("expected a number, got {:?}", other),
    }
    let r = Mod.eval(&num(1.0), &num(0.0)).unwrap();
    match r {
        gate::Data::Number(b) => assert!(f64::from_bits(b).is_nan()),
        other => panic!("expected a number, got {:?}", other),
    }
}
