//! The binary operators of the language: their precedence ranks and their
//! meaning on runtime values.

use vstd::prelude::*;

use crate::data::{spec_data_eq, spec_type_text, Data, DataV};
use crate::error::{ExecuteError, ExecuteErrorV};
use crate::number::{
    add_bits, add_number, div_bits, div_number, ge_bits, ge_number, gt_bits, gt_number, le_bits,
    le_number, lt_bits, lt_number, mul_bits, mul_number, rem_bits, rem_number, sub_bits,
    sub_number,
};

verus! {

/// A binary operator. Each operator has a fixed precedence rank; a higher
/// rank binds tighter.
#[derive(Clone, Copy, Debug, PartialEq, Eq, Structural)]
pub enum BinaryOp {
    Add,
    Sub,
    Mul,
    Div,
    Mod,
    Eq,
    Lt,
    LtEq,
    Gt,
    GtEq,
}

/// The precedence rank of an operator: equality at the bottom, then the
/// relational operators, then modulo, then addition and subtraction, then
/// multiplication and division.
pub open spec fn spec_precedence(op: BinaryOp) -> int {
    match op {
        BinaryOp::Add => 3,
        BinaryOp::Sub => 3,
        BinaryOp::Mul => 4,
        BinaryOp::Div => 4,
        BinaryOp::Mod => 2,
        BinaryOp::Eq => 0,
        BinaryOp::Lt => 1,
        BinaryOp::LtEq => 1,
        BinaryOp::Gt => 1,
        BinaryOp::GtEq => 1,
    }
}

/// The source text of an operator.
pub open spec fn spec_op_text(op: BinaryOp) -> Seq<char> {
    match op {
        BinaryOp::Add => "+"@,
        BinaryOp::Sub => "-"@,
        BinaryOp::Mul => "*"@,
        BinaryOp::Div => "/"@,
        BinaryOp::Mod => "%"@,
        BinaryOp::Eq => "=="@,
        BinaryOp::Lt => "<"@,
        BinaryOp::LtEq => "<="@,
        BinaryOp::Gt => ">"@,
        BinaryOp::GtEq => ">="@,
    }
}

/// What applying an operator to two values yields. Arithmetic and the
/// relational orderings are defined on numbers alone; equality is defined on
/// every pair of values; everything else is an invalid operation naming both
/// operand types.
pub open spec fn spec_op_eval(op: BinaryOp, a: DataV, b: DataV) -> Result<DataV, ExecuteErrorV> {
    if op == BinaryOp::Eq {
        Ok(DataV::Boolean(spec_data_eq(a, b)))
    } else {
        match (a, b) {
            (DataV::Number(x), DataV::Number(y)) => match op {
                BinaryOp::Add => Ok(DataV::Number(add_bits(x, y))),
                BinaryOp::Sub => Ok(DataV::Number(sub_bits(x, y))),
                BinaryOp::Mul => Ok(DataV::Number(mul_bits(x, y))),
                BinaryOp::Div => Ok(DataV::Number(div_bits(x, y))),
                BinaryOp::Mod => Ok(DataV::Number(rem_bits(x, y))),
                BinaryOp::Lt => Ok(DataV::Boolean(lt_bits(x, y))),
                BinaryOp::LtEq => Ok(DataV::Boolean(le_bits(x, y))),
                BinaryOp::Gt => Ok(DataV::Boolean(gt_bits(x, y))),
                BinaryOp::GtEq => Ok(DataV::Boolean(ge_bits(x, y))),
                BinaryOp::Eq => Ok(DataV::Boolean(spec_data_eq(a, b))),
            },
            _ => Err(
                ExecuteErrorV::InvalidOperation {
                    left: spec_type_text(a),
                    op,
                    right: spec_type_text(b),
                },
            ),
        }
    }
}

/// The view of an operator application's result.
pub open spec fn op_result_view(r: Result<Data, ExecuteError>) -> Result<DataV, ExecuteErrorV> {
    match r {
        Ok(d) => Ok(d@),
        Err(e) => Err(e@),
    }
}

impl BinaryOp {
    /// Apply the operator to two values.
    pub fn eval(&self, left: &Data, right: &Data) -> (r: Result<Data, ExecuteError>)
        ensures
            op_result_view(r) == spec_op_eval(*self, left@, right@),
    {
        match (self, left, right) {
            (BinaryOp::Add, Data::Number(l), Data::Number(r)) => Ok(
                Data::Number(add_number(*l, *r)),
            ),
            (BinaryOp::Sub, Data::Number(l), Data::Number(r)) => Ok(
                Data::Number(sub_number(*l, *r)),
            ),
            (BinaryOp::Mul, Data::Number(l), Data::Number(r)) => Ok(
                Data::Number(mul_number(*l, *r)),
            ),
            (BinaryOp::Div, Data::Number(l), Data::Number(r)) => Ok(
                Data::Number(div_number(*l, *r)),
            ),
            (BinaryOp::Mod, Data::Number(l), Data::Number(r)) => Ok(
                Data::Number(rem_number(*l, *r)),
            ),
            (BinaryOp::Eq, _, _) => Ok(Data::Boolean(left.data_eq(right))),
            (BinaryOp::Lt, Data::Number(l), Data::Number(r)) => Ok(
                Data::Boolean(lt_number(*l, *r)),
            ),
            (BinaryOp::LtEq, Data::Number(l), Data::Number(r)) => Ok(
                Data::Boolean(le_number(*l, *r)),
            ),
            (BinaryOp::Gt, Data::Number(l), Data::Number(r)) => Ok(
                Data::Boolean(gt_number(*l, *r)),
            ),
            (BinaryOp::GtEq, Data::Number(l), Data::Number(r)) => Ok(
                Data::Boolean(ge_number(*l, *r)),
            ),
            (o, l, r) => Err(
                ExecuteError::InvalidOperation {
                    left: l.type_text(),
                    op: o.clone(),
                    right: r.type_text(),
                },
            ),
        }
    }

    /// The precedence rank of the operator; a higher rank binds tighter.
    pub fn precendence(&self) -> (r: u8)
        ensures
            r == spec_precedence(*self),
    {
        match self {
            BinaryOp::Add => 3,
            BinaryOp::Sub => 3,
            BinaryOp::Mul => 4,
            BinaryOp::Div => 4,
            BinaryOp::Mod => 2,
            BinaryOp::Eq => 0,
            BinaryOp::Lt => 1,
            BinaryOp::LtEq => 1,
            BinaryOp::Gt => 1,
            BinaryOp::GtEq => 1,
        }
    }

    /// The source text of the operator.
    pub fn op_text(&self) -> (r: String)
        ensures
            r@ == spec_op_text(*self),
    {
        match self {
            BinaryOp::Add => "+".to_owned(),
            BinaryOp::Sub => "-".to_owned(),
            BinaryOp::Mul => "*".to_owned(),
            BinaryOp::Div => "/".to_owned(),
            BinaryOp::Mod => "%".to_owned(),
            BinaryOp::Eq => "==".to_owned(),
            BinaryOp::Lt => "<".to_owned(),
            BinaryOp::LtEq => "<=".to_owned(),
            BinaryOp::Gt => ">".to_owned(),
            BinaryOp::GtEq => ">=".to_owned(),
        }
    }
}

} // verus!
