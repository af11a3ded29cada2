//! The expression tree the parser produces and the evaluator walks.

use vstd::prelude::*;

use crate::binary_op::{spec_op_eval, BinaryOp};
use crate::data::{datas_view, lemma_data_false, lemma_datas_view, spec_display, Data, DataV};
use crate::program::Program;
use crate::scope::str_eq;
use std::io::Write;
use vstd::string::StringExecFns;
use crate::error::{ExecuteError, ExecuteErrorV};
use crate::scope::{spec_assign, spec_lookup};

verus! {

/// One node of the expression tree. Each node owns its children.
/// `NumberLiteral` holds the bit pattern of an IEEE 754 binary64 value; see
/// `crate::number`.
#[derive(Debug, PartialEq)]
#[verifier::ext_equal]
pub enum Expression {
    NilLiteral,
    BooleanLiteral(bool),
    NumberLiteral(u64),
    StrLiteral(String),
    Variable(String),
    ParenExpr(Box<Expression>),
    Block(Vec<Expression>),
    Assignment { left: String, right: Box<Expression> },
    FunctionCall { name: String, args: Vec<Expression> },
    BinaryExpr { left: Box<Expression>, op: BinaryOp, right: Box<Expression> },
    IfExpr { cond: Box<Expression>, body: Box<Expression>, else_branch: Option<Box<Expression>> },
    WhileLoop { cond: Box<Expression>, body: Box<Expression> },
}

/// The mathematical shape of an expression: text as character sequences,
/// child lists as sequences.
#[verifier::ext_equal]
pub enum ExprV {
    NilLiteral,
    BooleanLiteral(bool),
    NumberLiteral(u64),
    StrLiteral(Seq<char>),
    Variable(Seq<char>),
    ParenExpr(Box<ExprV>),
    Block(Seq<ExprV>),
    Assignment { left: Seq<char>, right: Box<ExprV> },
    FunctionCall { name: Seq<char>, args: Seq<ExprV> },
    BinaryExpr { left: Box<ExprV>, op: BinaryOp, right: Box<ExprV> },
    IfExpr { cond: Box<ExprV>, body: Box<ExprV>, else_branch: Option<Box<ExprV>> },
    WhileLoop { cond: Box<ExprV>, body: Box<ExprV> },
}

/// The shape of one expression.
pub open spec fn expr_view(e: Expression) -> ExprV
    decreases e,
{
    match e {
        Expression::NilLiteral => ExprV::NilLiteral,
        Expression::BooleanLiteral(b) => ExprV::BooleanLiteral(b),
        Expression::NumberLiteral(n) => ExprV::NumberLiteral(n),
        Expression::StrLiteral(s) => ExprV::StrLiteral(s@),
        Expression::Variable(s) => ExprV::Variable(s@),
        Expression::ParenExpr(inner) => ExprV::ParenExpr(Box::new(expr_view(*inner))),
        Expression::Block(es) => ExprV::Block(exprs_view(es@)),
        Expression::Assignment { left, right } => ExprV::Assignment {
            left: left@,
            right: Box::new(expr_view(*right)),
        },
        Expression::FunctionCall { name, args } => ExprV::FunctionCall {
            name: name@,
            args: exprs_view(args@),
        },
        Expression::BinaryExpr { left, op, right } => ExprV::BinaryExpr {
            left: Box::new(expr_view(*left)),
            op,
            right: Box::new(expr_view(*right)),
        },
        Expression::IfExpr { cond, body, else_branch } => ExprV::IfExpr {
            cond: Box::new(expr_view(*cond)),
            body: Box::new(expr_view(*body)),
            else_branch: match else_branch {
                Some(b) => Some(Box::new(expr_view(*b))),
                None => None,
            },
        },
        Expression::WhileLoop { cond, body } => ExprV::WhileLoop {
            cond: Box::new(expr_view(*cond)),
            body: Box::new(expr_view(*body)),
        },
    }
}

/// The shapes of a list of expressions, in order.
pub open spec fn exprs_view(es: Seq<Expression>) -> Seq<ExprV>
    decreases es,
{
    if es.len() == 0 {
        Seq::empty()
    } else {
        exprs_view(es.drop_last()).push(expr_view(es.last()))
    }
}

impl View for Expression {
    type V = ExprV;

    open spec fn view(&self) -> ExprV {
        expr_view(*self)
    }
}

/// A view is a binary expression exactly when the expression is one.
pub proof fn lemma_expr_view_binary(e: Expression)
    ensures
        (expr_view(e) is BinaryExpr) <==> (e is BinaryExpr),
{
    match e {
        Expression::NilLiteral => {},
        Expression::BooleanLiteral(_) => {},
        Expression::NumberLiteral(_) => {},
        Expression::StrLiteral(_) => {},
        Expression::Variable(_) => {},
        Expression::ParenExpr(_) => {},
        Expression::Block(_) => {},
        Expression::Assignment { .. } => {},
        Expression::FunctionCall { .. } => {},
        Expression::BinaryExpr { .. } => {},
        Expression::IfExpr { .. } => {},
        Expression::WhileLoop { .. } => {},
    }
}

/// Facts about `exprs_view` that proofs use: its length, and what stands at
/// each index.
pub proof fn lemma_exprs_view(es: Seq<Expression>)
    ensures
        exprs_view(es).len() == es.len(),
        forall|i: int| 0 <= i < es.len() ==> exprs_view(es)[i] == expr_view(es[i]),
    decreases es,
{
    if es.len() > 0 {
        lemma_exprs_view(es.drop_last());
        assert(forall|i: int| 0 <= i < es.len() - 1 ==> es.drop_last()[i] == es[i]);
    }
}

/// The line the `println` built-in writes for a list of argument values:
/// each value's display form, concatenated with no separator.
pub open spec fn println_line(vs: Seq<DataV>) -> Seq<char>
    decreases vs.len(),
{
    if vs.len() == 0 {
        Seq::empty()
    } else {
        spec_display(vs[0]) + println_line(vs.drop_first())
    }
}

/// What evaluating one expression yields: the result, the scope chain and
/// the output log after it — or `None` when the step budget `fuel` runs
/// out. Only loop iterations draw on the budget, so with enough fuel this
/// is exactly the meaning of the expression.
pub open spec fn sev(
    e: ExprV,
    env: Seq<Map<Seq<char>, DataV>>,
    out: Seq<Seq<char>>,
    fuel: nat,
) -> Option<(Result<DataV, ExecuteErrorV>, Seq<Map<Seq<char>, DataV>>, Seq<Seq<char>>)>
    decreases fuel, e, 1int,
{
    match e {
        ExprV::NilLiteral => Some((Ok(DataV::Nil), env, out)),
        ExprV::BooleanLiteral(b) => Some((Ok(DataV::Boolean(b)), env, out)),
        ExprV::NumberLiteral(n) => Some((Ok(DataV::Number(n)), env, out)),
        ExprV::StrLiteral(s) => Some((Ok(DataV::Str(s)), env, out)),
        ExprV::Variable(name) => match spec_lookup(env, name) {
            Some(d) => Some((Ok(d), env, out)),
            None => Some((Err(ExecuteErrorV::UndefinedVar(name)), env, out)),
        },
        ExprV::ParenExpr(inner) => sev(*inner, env, out, fuel),
        ExprV::Block(es) => {
            match sev_block_items(es, env.push(Map::empty()), out, fuel) {
                None => None,
                Some((r, env2, out2)) => {
                    let env3 = if env2.len() >= 1 {
                        env2.drop_last()
                    } else {
                        env2
                    };
                    Some((r, env3, out2))
                },
            }
        },
        ExprV::Assignment { left, right } => match sev(*right, env, out, fuel) {
            None => None,
            Some((Err(er), env1, out1)) => Some((Err(er), env1, out1)),
            Some((Ok(v), env1, out1)) => Some((Ok(v), spec_assign(env1, left, v), out1)),
        },
        ExprV::FunctionCall { name, args } => {
            if name == "println"@ {
                match sev_args(args, env, out, fuel) {
                    None => None,
                    Some((Err(er), env1, out1)) => Some((Err(er), env1, out1)),
                    Some((Ok(vs), env1, out1)) => Some(
                        (Ok(DataV::Nil), env1, out1.push(println_line(vs))),
                    ),
                }
            } else {
                Some((Err(ExecuteErrorV::UndefinedFunc(name)), env, out))
            }
        },
        ExprV::BinaryExpr { left, op, right } => match sev(*left, env, out, fuel) {
            None => None,
            Some((Err(er), env1, out1)) => Some((Err(er), env1, out1)),
            Some((Ok(lv), env1, out1)) => match sev(*right, env1, out1, fuel) {
                None => None,
                Some((Err(er), env2, out2)) => Some((Err(er), env2, out2)),
                Some((Ok(rv), env2, out2)) => Some((spec_op_eval(op, lv, rv), env2, out2)),
            },
        },
        ExprV::IfExpr { cond, body, else_branch } => match sev(*cond, env, out, fuel) {
            None => None,
            Some((Err(er), env1, out1)) => Some((Err(er), env1, out1)),
            Some((Ok(cv), env1, out1)) => {
                if cv != DataV::Boolean(false) {
                    sev(*body, env1, out1, fuel)
                } else {
                    match else_branch {
                        Some(b) => sev(*b, env1, out1, fuel),
                        None => Some((Ok(DataV::Nil), env1, out1)),
                    }
                }
            },
        },
        ExprV::WhileLoop { .. } => sev_while(e, DataV::Nil, env, out, fuel),
    }
}

/// The items of a block, evaluated in order in an already-pushed frame: the
/// value of the last item (`Nil` for none), or the first error, which
/// aborts the rest.
pub open spec fn sev_block_items(
    es: Seq<ExprV>,
    env: Seq<Map<Seq<char>, DataV>>,
    out: Seq<Seq<char>>,
    fuel: nat,
) -> Option<(Result<DataV, ExecuteErrorV>, Seq<Map<Seq<char>, DataV>>, Seq<Seq<char>>)>
    decreases fuel, es, 1int,
{
    if es.len() == 0 {
        Some((Ok(DataV::Nil), env, out))
    } else {
        match sev(es[0], env, out, fuel) {
            None => None,
            Some((Err(er), env1, out1)) => Some((Err(er), env1, out1)),
            Some((Ok(v), env1, out1)) => {
                if es.len() == 1 {
                    Some((Ok(v), env1, out1))
                } else {
                    sev_block_items(es.drop_first(), env1, out1, fuel)
                }
            },
        }
    }
}

/// The arguments of a call, evaluated left to right: their values in
/// order, or the first error, which aborts the rest.
pub open spec fn sev_args(
    es: Seq<ExprV>,
    env: Seq<Map<Seq<char>, DataV>>,
    out: Seq<Seq<char>>,
    fuel: nat,
) -> Option<(Result<Seq<DataV>, ExecuteErrorV>, Seq<Map<Seq<char>, DataV>>, Seq<Seq<char>>)>
    decreases fuel, es, 1int,
{
    if es.len() == 0 {
        Some((Ok(Seq::empty()), env, out))
    } else {
        match sev(es[0], env, out, fuel) {
            None => None,
            Some((Err(er), env1, out1)) => Some((Err(er), env1, out1)),
            Some((Ok(v), env1, out1)) => match sev_args(es.drop_first(), env1, out1, fuel) {
                None => None,
                Some((Err(er), env2, out2)) => Some((Err(er), env2, out2)),
                Some((Ok(vs), env2, out2)) => Some((Ok(seq![v] + vs), env2, out2)),
            },
        }
    }
}

/// A loop in progress: `last` is the value of the last body run so far
/// (`Nil` before the first). Each iteration evaluates the condition,
/// stops with `last` the instant it is exactly `false`, else runs the body
/// and spends one unit of fuel.
pub open spec fn sev_while(
    w: ExprV,
    last: DataV,
    env: Seq<Map<Seq<char>, DataV>>,
    out: Seq<Seq<char>>,
    fuel: nat,
) -> Option<(Result<DataV, ExecuteErrorV>, Seq<Map<Seq<char>, DataV>>, Seq<Seq<char>>)>
    decreases fuel, w, 0int,
{
    match w {
        ExprV::WhileLoop { cond, body } => {
            if fuel == 0 {
                None
            } else {
                match sev(*cond, env, out, fuel) {
                    None => None,
                    Some((Err(er), env1, out1)) => Some((Err(er), env1, out1)),
                    Some((Ok(cv), env1, out1)) => {
                        if cv == DataV::Boolean(false) {
                            Some((Ok(last), env1, out1))
                        } else {
                            match sev(*body, env1, out1, fuel) {
                                None => None,
                                Some((Err(er), env2, out2)) => Some((Err(er), env2, out2)),
                                Some((Ok(v), env2, out2)) => sev_while(
                                    w,
                                    v,
                                    env2,
                                    out2,
                                    (fuel - 1) as nat,
                                ),
                            }
                        }
                    },
                }
            }
        },
        _ => None,
    }
}

/// The frame discipline one evaluation obeys, relating the scope chain
/// before and after: same number of frames, every frame but the innermost
/// keeps exactly its bindings, and the innermost can only gain bindings.
pub open spec fn preserves_frames(
    env: Seq<Map<Seq<char>, DataV>>,
    env2: Seq<Map<Seq<char>, DataV>>,
) -> bool {
    &&& env2.len() == env.len()
    &&& forall|i: int| 0 <= i < env.len() - 1 ==> #[trigger] env2[i].dom() == env[i].dom()
    &&& env.len() >= 1 ==> env.last().dom().subset_of(env2.last().dom())
}

proof fn lemma_preserves_refl(env: Seq<Map<Seq<char>, DataV>>)
    ensures
        preserves_frames(env, env),
{
    if env.len() >= 1 {
        assert(env.last().dom().subset_of(env.last().dom()));
    }
}

proof fn lemma_preserves_trans(
    a: Seq<Map<Seq<char>, DataV>>,
    b: Seq<Map<Seq<char>, DataV>>,
    c: Seq<Map<Seq<char>, DataV>>,
)
    requires
        preserves_frames(a, b),
        preserves_frames(b, c),
    ensures
        preserves_frames(a, c),
{
    assert forall|i: int| 0 <= i < a.len() - 1 implies #[trigger] c[i].dom() == a[i].dom() by {
        assert(b[i].dom() == a[i].dom());
        assert(c[i].dom() == b[i].dom());
    }
    if a.len() >= 1 {
        assert(a.last().dom().subset_of(c.last().dom()));
    }
}

/// Law: evaluation keeps the scope chain's shape. No frame is added or
/// removed, a frame other than the innermost keeps exactly its bindings,
/// and the innermost can only gain bindings. A block pushes its own frame
/// and pops it again inside its evaluation, so a binding first made inside
/// a block never leaks into any enclosing frame.
pub proof fn lemma_eval_preserves_frames(
    e: ExprV,
    env: Seq<Map<Seq<char>, DataV>>,
    out: Seq<Seq<char>>,
    fuel: nat,
)
    ensures
        match sev(e, env, out, fuel) {
            None => true,
            Some(t) => preserves_frames(env, t.1),
        },
    decreases fuel, e, 1int,
{
    match e {
        ExprV::NilLiteral => lemma_preserves_refl(env),
        ExprV::BooleanLiteral(_) => lemma_preserves_refl(env),
        ExprV::NumberLiteral(_) => lemma_preserves_refl(env),
        ExprV::StrLiteral(_) => lemma_preserves_refl(env),
        ExprV::Variable(_) => lemma_preserves_refl(env),
        ExprV::ParenExpr(inner) => lemma_eval_preserves_frames(*inner, env, out, fuel),
        ExprV::Block(es) => {
            let env1 = env.push(Map::empty());
            lemma_block_items_preserves_frames(es, env1, out, fuel);
            match sev_block_items(es, env1, out, fuel) {
                None => {},
                Some((_r, env2, _out2)) => {
                    assert(env2.len() == env.len() + 1);
                    let env3 = env2.drop_last();
                    assert forall|i: int| 0 <= i < env.len() implies #[trigger] env3[i].dom()
                        == env[i].dom() by {
                        assert(env2[i].dom() == env1[i].dom());
                        assert(env1[i] == env[i]);
                        assert(env3[i] == env2[i]);
                    }
                    if env.len() >= 1 {
                        assert(env3.last().dom() == env.last().dom());
                        assert(env.last().dom().subset_of(env3.last().dom()));
                    }
                },
            }
        },
        ExprV::Assignment { left, right } => {
            lemma_eval_preserves_frames(*right, env, out, fuel);
            match sev(*right, env, out, fuel) {
                Some((Ok(v), env1, _out1)) => {
                    crate::scope::lemma_assign_domains(env1, left, v);
                    assert(preserves_frames(env1, crate::scope::spec_assign(env1, left, v)));
                    lemma_preserves_trans(env, env1, crate::scope::spec_assign(env1, left, v));
                },
                _ => {},
            }
        },
        ExprV::FunctionCall { name, args } => {
            if name == "println"@ {
                lemma_args_preserves_frames(args, env, out, fuel);
            } else {
                lemma_preserves_refl(env);
            }
        },
        ExprV::BinaryExpr { left, op: _, right } => {
            lemma_eval_preserves_frames(*left, env, out, fuel);
            match sev(*left, env, out, fuel) {
                Some((Ok(_lv), env1, out1)) => {
                    lemma_eval_preserves_frames(*right, env1, out1, fuel);
                    match sev(*right, env1, out1, fuel) {
                        Some((_, env2, _)) => {
                            lemma_preserves_trans(env, env1, env2);
                        },
                        None => {},
                    }
                },
                _ => {},
            }
        },
        ExprV::IfExpr { cond, body, else_branch } => {
            lemma_eval_preserves_frames(*cond, env, out, fuel);
            match sev(*cond, env, out, fuel) {
                Some((Ok(cv), env1, out1)) => {
                    if cv != DataV::Boolean(false) {
                        lemma_eval_preserves_frames(*body, env1, out1, fuel);
                        match sev(*body, env1, out1, fuel) {
                            Some((_, env2, _)) => {
                                lemma_preserves_trans(env, env1, env2);
                            },
                            None => {},
                        }
                    } else {
                        match else_branch {
                            Some(b) => {
                                lemma_eval_preserves_frames(*b, env1, out1, fuel);
                                match sev(*b, env1, out1, fuel) {
                                    Some((_, env2, _)) => {
                                        lemma_preserves_trans(env, env1, env2);
                                    },
                                    None => {},
                                }
                            },
                            None => {},
                        }
                    }
                },
                _ => {},
            }
        },
        ExprV::WhileLoop { .. } => {
            lemma_while_preserves_frames(e, DataV::Nil, env, out, fuel);
        },
    }
}

proof fn lemma_block_items_preserves_frames(
    es: Seq<ExprV>,
    env: Seq<Map<Seq<char>, DataV>>,
    out: Seq<Seq<char>>,
    fuel: nat,
)
    ensures
        match sev_block_items(es, env, out, fuel) {
            None => true,
            Some(t) => preserves_frames(env, t.1),
        },
    decreases fuel, es, 1int,
{
    if es.len() == 0 {
        lemma_preserves_refl(env);
    } else {
        lemma_eval_preserves_frames(es[0], env, out, fuel);
        match sev(es[0], env, out, fuel) {
            Some((Ok(_v), env1, out1)) => {
                if es.len() > 1 {
                    lemma_block_items_preserves_frames(es.drop_first(), env1, out1, fuel);
                    match sev_block_items(es.drop_first(), env1, out1, fuel) {
                        Some((_, env2, _)) => {
                            lemma_preserves_trans(env, env1, env2);
                        },
                        None => {},
                    }
                }
            },
            _ => {},
        }
    }
}

proof fn lemma_args_preserves_frames(
    es: Seq<ExprV>,
    env: Seq<Map<Seq<char>, DataV>>,
    out: Seq<Seq<char>>,
    fuel: nat,
)
    ensures
        match sev_args(es, env, out, fuel) {
            None => true,
            Some(t) => preserves_frames(env, t.1),
        },
    decreases fuel, es, 1int,
{
    if es.len() == 0 {
        lemma_preserves_refl(env);
    } else {
        lemma_eval_preserves_frames(es[0], env, out, fuel);
        match sev(es[0], env, out, fuel) {
            Some((Ok(_v), env1, out1)) => {
                lemma_args_preserves_frames(es.drop_first(), env1, out1, fuel);
                match sev_args(es.drop_first(), env1, out1, fuel) {
                    Some((_, env2, _)) => {
                        lemma_preserves_trans(env, env1, env2);
                    },
                    None => {},
                }
            },
            _ => {},
        }
    }
}

proof fn lemma_while_preserves_frames(
    w: ExprV,
    last: DataV,
    env: Seq<Map<Seq<char>, DataV>>,
    out: Seq<Seq<char>>,
    fuel: nat,
)
    ensures
        match sev_while(w, last, env, out, fuel) {
            None => true,
            Some(t) => preserves_frames(env, t.1),
        },
    decreases fuel, w, 0int,
{
    match w {
        ExprV::WhileLoop { cond, body } => {
            if fuel == 0 {
            } else {
                lemma_eval_preserves_frames(*cond, env, out, fuel);
                match sev(*cond, env, out, fuel) {
                    Some((Ok(cv), env1, out1)) => {
                        if cv == DataV::Boolean(false) {
                        } else {
                            lemma_eval_preserves_frames(*body, env1, out1, fuel);
                            match sev(*body, env1, out1, fuel) {
                                Some((Ok(v), env2, out2)) => {
                                    lemma_while_preserves_frames(
                                        w,
                                        v,
                                        env2,
                                        out2,
                                        (fuel - 1) as nat,
                                    );
                                    match sev_while(w, v, env2, out2, (fuel - 1) as nat) {
                                        Some((_, env3, _)) => {
                                            lemma_preserves_trans(env, env1, env2);
                                            lemma_preserves_trans(env, env2, env3);
                                        },
                                        None => {},
                                    }
                                },
                                Some((Err(_), env2, _)) => {
                                    lemma_preserves_trans(env, env1, env2);
                                },
                                None => {},
                            }
                        }
                    },
                    _ => {},
                }
            }
        },
        _ => {},
    }
}

/// The view of an evaluation result.
pub open spec fn eval_res_view(r: Result<Data, ExecuteError>) -> Result<DataV, ExecuteErrorV> {
    match r {
        Ok(d) => Ok(d@),
        Err(e) => Err(e@),
    }
}

impl Clone for Expression {
    /// A structural copy with the same shape.
    fn clone(&self) -> (r: Expression)
        ensures
            r@ == self@,
        decreases self,
    {
        match self {
            Expression::NilLiteral => Expression::NilLiteral,
            Expression::BooleanLiteral(b) => Expression::BooleanLiteral(*b),
            Expression::NumberLiteral(n) => Expression::NumberLiteral(*n),
            Expression::StrLiteral(s) => Expression::StrLiteral(s.clone()),
            Expression::Variable(s) => Expression::Variable(s.clone()),
            Expression::ParenExpr(inner) => Expression::ParenExpr(Box::new((**inner).clone())),
            Expression::Block(es) => Expression::Block(clone_exprs(es)),
            Expression::Assignment { left, right } => Expression::Assignment {
                left: left.clone(),
                right: Box::new((**right).clone()),
            },
            Expression::FunctionCall { name, args } => Expression::FunctionCall {
                name: name.clone(),
                args: clone_exprs(args),
            },
            Expression::BinaryExpr { left, op, right } => Expression::BinaryExpr {
                left: Box::new((**left).clone()),
                op: *op,
                right: Box::new((**right).clone()),
            },
            Expression::IfExpr { cond, body, else_branch } => Expression::IfExpr {
                cond: Box::new((**cond).clone()),
                body: Box::new((**body).clone()),
                else_branch: match else_branch {
                    Some(b) => Some(Box::new((**b).clone())),
                    None => None,
                },
            },
            Expression::WhileLoop { cond, body } => Expression::WhileLoop {
                cond: Box::new((**cond).clone()),
                body: Box::new((**body).clone()),
            },
        }
    }
}

/// A structural copy of a list of expressions.
fn clone_exprs(es: &Vec<Expression>) -> (r: Vec<Expression>)
    ensures
        exprs_view(r@) == exprs_view(es@),
        r@.len() == es@.len(),
    decreases es,
{
    let mut r: Vec<Expression> = Vec::new();
    let mut i: usize = 0;
    proof {
        lemma_exprs_view(r@);
        lemma_exprs_view(es@);
    }
    while i < es.len()
        invariant
            i <= es@.len(),
            r@.len() == i,
            forall|j: int| 0 <= j < i ==> expr_view(r@[j]) == expr_view(es@[j]),
        decreases es@.len() - i,
    {
        proof {
            assert(decreases_to!(es => es@));
        }
        r.push(es[i].clone());
        i += 1;
    }
    proof {
        lemma_exprs_view(r@);
        lemma_exprs_view(es@);
        assert(exprs_view(r@) =~= exprs_view(es@));
    }
    r
}


/// Relies on `writeln!` to the standard output stream: writes the line and
/// a newline; nothing is assumed of the effect.
#[verifier::external_body]
fn write_line(s: &str) {
    let _ = writeln!(std::io::stdout(), "{}", s);
}

/// The `println` built-in: writes each argument's display form,
/// concatenated with no separator, followed by one newline, and yields
/// `Nil`.
pub fn println(v: &Vec<Data>) -> (r: Result<Data, ExecuteError>)
    ensures
        r == Ok::<Data, ExecuteError>(Data::Nil),
{
    let ghost dvs = datas_view(v@);
    let mut line = String::new();
    proof {
        lemma_datas_view(v@);
        assert(dvs.skip(0) =~= dvs);
    }
    let mut i: usize = 0;
    while i < v.len()
        invariant
            dvs == datas_view(v@),
            dvs.len() == v@.len(),
            forall|j: int| 0 <= j < v@.len() ==> dvs[j] == v@[j]@,
            i <= v@.len(),
            line@ + println_line(dvs.skip(i as int)) == println_line(dvs),
        decreases v@.len() - i,
    {
        let ghost linepre = line@;
        let text = v[i].display_text();
        line.append(text.as_str());
        i += 1;
        proof {
            assert(dvs.skip(i - 1).drop_first() =~= dvs.skip(i as int));
            assert(dvs.skip(i - 1)[0] == dvs[i - 1]);
            assert(linepre + (spec_display(dvs[i - 1]) + println_line(dvs.skip(i as int)))
                =~= line@ + println_line(dvs.skip(i as int)));
        }
    }
    proof {
        assert(line@ + println_line(dvs.skip(i as int)) =~= line@);
    }
    write_line(line.as_str());
    Ok(Data::Nil)
}

impl Expression {
    /// Evaluate the expression against a program context, with a step
    /// budget: every loop iteration costs one step, and a budget of zero
    /// steps left ends evaluation with a `StepLimit` error.
    pub fn eval_fueled(&self, p: &mut Program, fuel: u64) -> (r: Result<Data, ExecuteError>)
        requires
            old(p).wf(),
        ensures
            final(p).wf(),
            final(p).scopes@.len() == old(p).scopes@.len(),
            match sev(self@, old(p).scopes@, old(p).output@, fuel as nat) {
                None => r == Err::<Data, ExecuteError>(ExecuteError::StepLimit),
                Some(t) => eval_res_view(r) == t.0 && final(p).scopes@ == t.1 && final(p).output@
                    == t.2,
            },
        decreases fuel, self, 1int,
    {
        match self {
            Expression::NilLiteral => Ok(Data::Nil),
            Expression::BooleanLiteral(b) => Ok(Data::Boolean(*b)),
            Expression::NumberLiteral(n) => Ok(Data::Number(*n)),
            Expression::StrLiteral(s) => Ok(Data::Str(s.clone())),
            Expression::Variable(name) => match p.var(name.as_str()) {
                Some(d) => Ok(d),
                None => Err(ExecuteError::UndefinedVar(name.clone())),
            },
            Expression::ParenExpr(inner) => (&**inner).eval_fueled(p, fuel),
            Expression::Block(es) => self.eval_block(es, p, fuel),
            Expression::Assignment { left, right } => {
                let res = match (&**right).eval_fueled(p, fuel) {
                    Ok(v) => v,
                    Err(e) => {
                        return Err(e);
                    },
                };
                p.set_var(left.as_str(), res.clone());
                Ok(res)
            },
            Expression::FunctionCall { name, args } => self.eval_call(name, args, p, fuel),
            Expression::BinaryExpr { left, op, right } => {
                let left_data = match (&**left).eval_fueled(p, fuel) {
                    Ok(v) => v,
                    Err(e) => {
                        return Err(e);
                    },
                };
                let right_data = match (&**right).eval_fueled(p, fuel) {
                    Ok(v) => v,
                    Err(e) => {
                        return Err(e);
                    },
                };
                op.eval(&left_data, &right_data)
            },
            Expression::IfExpr { cond, body, else_branch } => {
                let cv = match (&**cond).eval_fueled(p, fuel) {
                    Ok(v) => v,
                    Err(e) => {
                        return Err(e);
                    },
                };
                proof {
                    lemma_data_false(cv);
                }
                match cv {
                    Data::Boolean(false) => match else_branch {
                        Some(b) => (&**b).eval_fueled(p, fuel),
                        None => Ok(Data::Nil),
                    },
                    _ => (&**body).eval_fueled(p, fuel),
                }
            },
            Expression::WhileLoop { cond, body } => {
                let ghost w = self@;
                let ghost env0 = p.scopes@;
                let ghost out0 = p.output@;
                let mut last = Data::Nil;
                let mut m: u64 = fuel;
                proof {
                    assert(decreases_to!(*self => **cond));
                    assert(decreases_to!(*self => **body));
                }
                loop
                    invariant
                        p.wf(),
                        m <= fuel,
                        w == self@,
                        w == (ExprV::WhileLoop {
                            cond: Box::new((&**cond)@),
                            body: Box::new((&**body)@),
                        }),
                        decreases_to!(*self => **cond),
                        decreases_to!(*self => **body),
                        env0 == old(p).scopes@,
                        out0 == old(p).output@,
                        p.scopes@.len() == env0.len(),
                        sev_while(w, last@, p.scopes@, p.output@, m as nat) == sev_while(
                            w,
                            DataV::Nil,
                            env0,
                            out0,
                            fuel as nat,
                        ),
                    decreases m,
                {
                    if m == 0 {
                        return Err(ExecuteError::StepLimit);
                    }
                    let cv = match (&**cond).eval_fueled(p, m) {
                        Ok(v) => v,
                        Err(e) => {
                            return Err(e);
                        },
                    };
                    proof {
                        lemma_data_false(cv);
                    }
                    match cv {
                        Data::Boolean(false) => {
                            return Ok(last);
                        },
                        _ => {},
                    }
                    match (&**body).eval_fueled(p, m) {
                        Ok(v) => {
                            last = v;
                        },
                        Err(e) => {
                            return Err(e);
                        },
                    }
                    m = m - 1;
                }
            },
        }
    }

    /// The items of a block: a fresh innermost frame, each item in order,
    /// the frame released however evaluation ends.
    fn eval_block(&self, es: &Vec<Expression>, p: &mut Program, fuel: u64) -> (r: Result<
        Data,
        ExecuteError,
    >)
        requires
            old(p).wf(),
            self is Block,
            self->Block_0 == *es,
        ensures
            final(p).wf(),
            final(p).scopes@.len() == old(p).scopes@.len(),
            match sev(self@, old(p).scopes@, old(p).output@, fuel as nat) {
                None => r == Err::<Data, ExecuteError>(ExecuteError::StepLimit),
                Some(t) => eval_res_view(r) == t.0 && final(p).scopes@ == t.1 && final(p).output@
                    == t.2,
            },
        decreases fuel, self, 0int,
    {
        let ghost vs = exprs_view(es@);
        proof {
            lemma_exprs_view(es@);
        }
        p.new_scope();
        let ghost env1 = p.scopes@;
        let ghost out1 = p.output@;
        let mut last = Data::Nil;
        let mut i: usize = 0;
        proof {
            assert(vs.skip(0) =~= vs);
        }
        while i < es.len()
            invariant
                p.wf(),
                self@ == ExprV::Block(vs),
                self->Block_0 == *es,
                vs == exprs_view(es@),
                vs.len() == es@.len(),
                forall|j: int| 0 <= j < es@.len() ==> vs[j] == expr_view(es@[j]),
                i <= es@.len(),
                env1 == old(p).scopes@.push(Map::empty()),
                env1.len() == old(p).scopes@.len() + 1,
                env1.len() >= 2,
                out1 == old(p).output@,
                p.scopes@.len() == env1.len(),
                i < es@.len() ==> sev_block_items(vs.skip(i as int), p.scopes@, p.output@, fuel as nat)
                    == sev_block_items(vs, env1, out1, fuel as nat),
                i == es@.len() ==> sev_block_items(vs, env1, out1, fuel as nat) == Some(
                    (
                        Ok::<DataV, ExecuteErrorV>(last@),
                        p.scopes@,
                        p.output@,
                    ),
                ),
            decreases es@.len() - i,
        {
            proof {
                assert(decreases_to!(*self => self->Block_0));
                assert(decreases_to!(es => es@));
                assert(decreases_to!(*self => es@[i as int]));
                assert(vs.skip(i as int)[0] == vs[i as int]);
            }
            match (&es[i]).eval_fueled(p, fuel) {
                Ok(v) => {
                    proof {
                        assert(vs.skip(i as int).drop_first() =~= vs.skip(i + 1));
                    }
                    last = v;
                    i += 1;
                },
                Err(e) => {
                    proof {
                        assert(p.scopes@.len() >= 2);
                    }
                    p.pop_scope();
                    return Err(e);
                },
            }
        }
        proof {
            assert(p.scopes@.len() >= 2);
        }
        p.pop_scope();
        Ok(last)
    }

    /// A function call: the one built-in is `println`; any other name is an
    /// undefined function.
    fn eval_call(&self, name: &String, args: &Vec<Expression>, p: &mut Program, fuel: u64) -> (r:
        Result<Data, ExecuteError>)
        requires
            old(p).wf(),
            self is FunctionCall,
            self->FunctionCall_name == *name,
            self->FunctionCall_args == *args,
        ensures
            final(p).wf(),
            final(p).scopes@.len() == old(p).scopes@.len(),
            match sev(self@, old(p).scopes@, old(p).output@, fuel as nat) {
                None => r == Err::<Data, ExecuteError>(ExecuteError::StepLimit),
                Some(t) => eval_res_view(r) == t.0 && final(p).scopes@ == t.1 && final(p).output@
                    == t.2,
            },
        decreases fuel, self, 0int,
    {
        let ghost vs = exprs_view(args@);
        proof {
            lemma_exprs_view(args@);
        }
        if !str_eq(name.as_str(), "println") {
            return Err(ExecuteError::UndefinedFunc(name.clone()));
        }
        let ghost env0 = p.scopes@;
        let ghost out0 = p.output@;
        let mut vals: Vec<Data> = Vec::new();
        let mut i: usize = 0;
        proof {
            assert(vs.skip(0) =~= vs);
            lemma_datas_view(vals@);
            match sev_args(vs, env0, out0, fuel as nat) {
                Some((Ok(rest), _e2, _o2)) => {
                    assert(datas_view(vals@) + rest =~= rest);
                },
                _ => {},
            }
        }
        while i < args.len()
            invariant
                p.wf(),
                self@ == (ExprV::FunctionCall { name: name@, args: vs }),
                self->FunctionCall_args == *args,
                name@ == "println"@,
                vs == exprs_view(args@),
                vs.len() == args@.len(),
                forall|j: int| 0 <= j < args@.len() ==> vs[j] == expr_view(args@[j]),
                i <= args@.len(),
                vals@.len() == i,
                env0 == old(p).scopes@,
                out0 == old(p).output@,
                p.scopes@.len() == env0.len(),
                ({
                    let suffix = sev_args(vs.skip(i as int), p.scopes@, p.output@, fuel as nat);
                    let orig = sev_args(vs, env0, out0, fuel as nat);
                    match suffix {
                        None => orig == None::<
                            (Result<Seq<DataV>, ExecuteErrorV>, Seq<Map<Seq<char>, DataV>>, Seq<
                                Seq<char>,
                            >),
                        >,
                        Some((Ok(rest), e2, o2)) => orig == Some(
                            (
                                Ok::<Seq<DataV>, ExecuteErrorV>(datas_view(vals@) + rest),
                                e2,
                                o2,
                            ),
                        ),
                        Some((Err(er), e2, o2)) => orig == Some(
                            (Err::<Seq<DataV>, ExecuteErrorV>(er), e2, o2),
                        ),
                    }
                }),
            decreases args@.len() - i,
        {
            proof {
                assert(decreases_to!(*self => self->FunctionCall_args));
                assert(decreases_to!(args => args@));
                assert(decreases_to!(*self => args@[i as int]));
                assert(vs.skip(i as int)[0] == vs[i as int]);
            }
            match (&args[i]).eval_fueled(p, fuel) {
                Ok(v) => {
                    let ghost valspre = vals@;
                    let ghost vg = v;
                    vals.push(v);
                    i += 1;
                    proof {
                        assert(vs.skip(i - 1).drop_first() =~= vs.skip(i as int));
                        lemma_datas_view(valspre);
                        lemma_datas_view(vals@);
                        assert(datas_view(vals@) =~= datas_view(valspre).push(vg@));
                        match sev_args(vs.skip(i as int), p.scopes@, p.output@, fuel as nat) {
                            Some((Ok(rest), _e2, _o2)) => {
                                assert(datas_view(valspre) + (seq![vg@] + rest) =~= datas_view(
                                    vals@,
                                ) + rest);
                            },
                            _ => {},
                        }
                    }
                },
                Err(e) => {
                    return Err(e);
                },
            }
        }
        proof {
            assert(datas_view(vals@) + Seq::<DataV>::empty() =~= datas_view(vals@));
        }
        let r = println(&vals);
        p.output = Ghost(p.output@.push(println_line(datas_view(vals@))));
        r
    }

    /// Evaluate the expression against a program context. The step budget
    /// is the largest one possible; exhausting it yields `StepLimit`.
    pub fn eval(&self, p: &mut Program) -> (r: Result<Data, ExecuteError>)
        requires
            old(p).wf(),
        ensures
            final(p).wf(),
            final(p).scopes@.len() == old(p).scopes@.len(),
            match sev(self@, old(p).scopes@, old(p).output@, u64::MAX as nat) {
                None => r == Err::<Data, ExecuteError>(ExecuteError::StepLimit),
                Some(t) => eval_res_view(r) == t.0 && final(p).scopes@ == t.1 && final(p).output@
                    == t.2,
            },
    {
        self.eval_fueled(p, u64::MAX)
    }
}

} // verus!
