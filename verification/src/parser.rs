//! The parser: tokens in, expressions out, one top-level expression per
//! pull, by recursive descent with one token of lookahead and a precedence
//! rewrite for binary operators.
//!
//! The grammar is specified by the `sp_*` functions over the character
//! sequence itself, each returning what is parsed and the position reached.
//! Every recursive position goes through `adv`, which clamps a position into
//! the open interval above the current one so that the functions are total;
//! the implementation proves that the clamp never fires.

use vstd::prelude::*;

use crate::binary_op::{spec_precedence, BinaryOp};
use crate::error::{ParseError, ParseErrorV, TokenError};
use crate::expr::{expr_view, exprs_view, ExprV, Expression};
use crate::scanner::{
    lemma_scan_bounds, lemma_scanner_in_range, scan_item_view, spec_scan, spec_to_binary_op,
    Scanner, Token, TokenV,
};

verus! {

/// A parse position strictly after `i`, normally `k`; clamped into range so
/// that recursion terminates. Parsing always advances, so the clamp is a
/// formality: callers prove `i < k <= s.len()` and get `k` back.
pub open spec fn adv(s: Seq<char>, i: int, k: int) -> int {
    if i < k && k <= s.len() {
        k
    } else if i + 1 <= s.len() {
        i + 1
    } else {
        s.len() as int
    }
}

/// The precedence rewrite: when the right-hand side is itself a binary
/// expression whose operator binds less tightly than `op`, rotate the tree
/// so that `op` binds the inner left operand directly; operators of equal
/// rank stay right-associated.
pub open spec fn spec_apply_precedence(lhs: ExprV, op: BinaryOp, rhs: ExprV) -> ExprV {
    match rhs {
        ExprV::BinaryExpr { left: l2, op: op2, right: r2 } => {
            if spec_precedence(op2) < spec_precedence(op) {
                ExprV::BinaryExpr {
                    left: Box::new(ExprV::BinaryExpr { left: Box::new(lhs), op, right: l2 }),
                    op: op2,
                    right: r2,
                }
            } else {
                ExprV::BinaryExpr {
                    left: Box::new(lhs),
                    op,
                    right: Box::new(ExprV::BinaryExpr { left: l2, op: op2, right: r2 }),
                }
            }
        },
        _ => ExprV::BinaryExpr { left: Box::new(lhs), op, right: Box::new(rhs) },
    }
}

/// One pull of the parser from position `i`: `None` at the end of input,
/// otherwise one expression or one parse error, together with the position
/// reached.
pub open spec fn sp_next(s: Seq<char>, i: int) -> (Option<Result<ExprV, ParseErrorV>>, int)
    decreases s.len() - i, 0int,
{
    if i > s.len() {
        (None, i)
    } else {
        let (t0, j) = spec_scan(s, i);
        match t0 {
            None => (None, j),
            Some(Err(e)) => (Some(Err(ParseErrorV::ScanError(e))), j),
            Some(Ok(tok)) => {
                let (lhs_res, k) = match tok {
                    TokenV::Nil => (Some(Ok(ExprV::NilLiteral)), j),
                    TokenV::Boolean(b) => (Some(Ok(ExprV::BooleanLiteral(b))), j),
                    TokenV::Number(n) => (Some(Ok(ExprV::NumberLiteral(n))), j),
                    TokenV::String(t) => (Some(Ok(ExprV::StrLiteral(t))), j),
                    TokenV::OpenParen => sp_paren(s, adv(s, i, j)),
                    TokenV::OpenCurly => {
                        let (r, k) = sp_block(s, adv(s, i, j));
                        (
                            match r {
                                Ok(es) => Some(Ok(ExprV::Block(es))),
                                Err(e) => Some(Err(e)),
                            },
                            k,
                        )
                    },
                    TokenV::Identifier(name) => sp_ident(s, adv(s, i, j), name),
                    TokenV::If => sp_if(s, adv(s, i, j)),
                    TokenV::While => sp_while(s, adv(s, i, j)),
                    t => (Some(Err(ParseErrorV::Unexpected(t))), j),
                };
                match lhs_res {
                    Some(Ok(lhs)) => {
                        let (t1, k1) = spec_scan(s, k);
                        match t1 {
                            Some(Ok(next_tok)) => {
                                if spec_to_binary_op(next_tok) is Some {
                                    let op = spec_to_binary_op(next_tok)->0;
                                    let (rhs_res, k2) = sp_next(s, adv(s, i, k1));
                                    match rhs_res {
                                        Some(Ok(rhs)) => (
                                            Some(Ok(spec_apply_precedence(lhs, op, rhs))),
                                            k2,
                                        ),
                                        Some(Err(e)) => (Some(Err(e)), k2),
                                        None => (Some(Err(ParseErrorV::UnexpectedEOF)), k2),
                                    }
                                } else if next_tok == TokenV::Eq && lhs is Variable {
                                    let (rhs_res, k2) = sp_next(s, adv(s, i, k1));
                                    match rhs_res {
                                        Some(Ok(rhs)) => (
                                            Some(
                                                Ok(
                                                    ExprV::Assignment {
                                                        left: lhs->Variable_0,
                                                        right: Box::new(rhs),
                                                    },
                                                ),
                                            ),
                                            k2,
                                        ),
                                        Some(Err(e)) => (Some(Err(e)), k2),
                                        None => (Some(Err(ParseErrorV::UnexpectedEOF)), k2),
                                    }
                                } else {
                                    (Some(Ok(lhs)), k)
                                }
                            },
                            _ => (Some(Ok(lhs)), k),
                        }
                    },
                    _ => (lhs_res, k),
                }
            },
        }
    }
}

/// The rest of a parenthesized expression, the opening parenthesis already
/// consumed at position `j`: the inner expression, then the closing
/// parenthesis.
pub open spec fn sp_paren(s: Seq<char>, j: int) -> (Option<Result<ExprV, ParseErrorV>>, int)
    decreases s.len() - j, 1int,
{
    if j > s.len() {
        (Some(Err(ParseErrorV::UnexpectedEOF)), j)
    } else {
        let (inner_res, k) = sp_next(s, j);
        match inner_res {
            None => (Some(Err(ParseErrorV::UnexpectedEOF)), k),
            Some(Err(e)) => (Some(Err(e)), k),
            Some(Ok(inner)) => {
                let (t2, k2) = spec_scan(s, k);
                match t2 {
                    Some(Ok(TokenV::CloseParen)) => (
                        Some(Ok(ExprV::ParenExpr(Box::new(inner)))),
                        k2,
                    ),
                    Some(Ok(t)) => (Some(Err(ParseErrorV::Unexpected(t))), k2),
                    Some(Err(e)) => (Some(Err(ParseErrorV::ScanError(e))), k2),
                    None => (Some(Err(ParseErrorV::UnexpectedEOF)), k2),
                }
            },
        }
    }
}

/// The items of a block, the opening brace already consumed at position
/// `j`: expressions up to the closing brace. A lexical error or the end of
/// the input is reported without consuming it.
pub open spec fn sp_block(s: Seq<char>, j: int) -> (Result<Seq<ExprV>, ParseErrorV>, int)
    decreases s.len() - j, 1int,
{
    if j > s.len() {
        (Err(ParseErrorV::UnexpectedEOF), j)
    } else {
        let (t, _k) = spec_scan(s, j);
        match t {
            None => (Err(ParseErrorV::UnexpectedEOF), j),
            Some(Err(e)) => (Err(ParseErrorV::ScanError(e)), j),
            Some(Ok(TokenV::CloseCurly)) => (Ok(Seq::empty()), spec_scan(s, j).1),
            Some(Ok(_)) => {
                let (item_res, k) = sp_next(s, j);
                match item_res {
                    Some(Ok(item)) => {
                        let (rest, k2) = sp_block(s, adv(s, j, k));
                        (
                            match rest {
                                Ok(es) => Ok(seq![item] + es),
                                Err(e) => Err(e),
                            },
                            k2,
                        )
                    },
                    Some(Err(e)) => (Err(e), k),
                    None => (Err(ParseErrorV::UnexpectedEOF), k),
                }
            },
        }
    }
}

/// What follows an identifier consumed just before position `j`: a call's
/// argument list when an opening parenthesis follows at once, else a plain
/// variable reference.
pub open spec fn sp_ident(s: Seq<char>, j: int, name: Seq<char>) -> (
    Option<Result<ExprV, ParseErrorV>>,
    int,
)
    decreases s.len() - j, 1int,
{
    if j > s.len() {
        (Some(Ok(ExprV::Variable(name))), j)
    } else {
        let (t, k) = spec_scan(s, j);
        match t {
            Some(Ok(TokenV::OpenParen)) => {
                let (args_res, k2) = sp_list(s, adv(s, j, k));
                (
                    match args_res {
                        Ok(args) => Some(Ok(ExprV::FunctionCall { name, args })),
                        Err(e) => Some(Err(e)),
                    },
                    k2,
                )
            },
            _ => (Some(Ok(ExprV::Variable(name))), j),
        }
    }
}

/// A comma-separated argument list, the opening parenthesis already
/// consumed at position `j`: empty when a closing parenthesis follows at
/// once, else the items that `sp_list_items` parses.
pub open spec fn sp_list(s: Seq<char>, j: int) -> (Result<Seq<ExprV>, ParseErrorV>, int)
    decreases s.len() - j, 2int,
{
    if j > s.len() {
        (Err(ParseErrorV::UnexpectedEOF), j)
    } else {
        let (t, k) = spec_scan(s, j);
        if t == Some(Ok::<TokenV, TokenError>(TokenV::CloseParen)) {
            (Ok(Seq::empty()), k)
        } else {
            sp_list_items(s, j)
        }
    }
}

/// One or more comma-separated expressions followed by a closing
/// parenthesis; a comma must be followed by another expression.
pub open spec fn sp_list_items(s: Seq<char>, j: int) -> (Result<Seq<ExprV>, ParseErrorV>, int)
    decreases s.len() - j, 1int,
{
    if j > s.len() {
        (Err(ParseErrorV::UnexpectedEOF), j)
    } else {
        let (t, k) = spec_scan(s, j);
        match t {
            None => (Err(ParseErrorV::UnexpectedEOF), k),
            Some(Err(e0)) => (Err(ParseErrorV::ScanError(e0)), k),
            Some(Ok(_)) => {
                let (item_res, k1) = sp_next(s, j);
                match item_res {
                    None => (Err(ParseErrorV::UnexpectedEOF), k1),
                    Some(Err(e)) => (Err(e), k1),
                    Some(Ok(item)) => {
                        let (t2, k2) = spec_scan(s, k1);
                        match t2 {
                            Some(Ok(TokenV::Comma)) => {
                                let (rest, k3) = sp_list_items(s, adv(s, j, k2));
                                (
                                    match rest {
                                        Ok(es) => Ok(seq![item] + es),
                                        Err(e) => Err(e),
                                    },
                                    k3,
                                )
                            },
                            Some(Ok(TokenV::CloseParen)) => (Ok(seq![item]), k2),
                            Some(Ok(t3)) => (Err(ParseErrorV::Unexpected(t3)), k2),
                            Some(Err(e)) => (Err(ParseErrorV::ScanError(e)), k2),
                            None => (Err(ParseErrorV::UnexpectedEOF), k2),
                        }
                    },
                }
            },
        }
    }
}

/// The rest of a conditional, the `if` keyword already consumed at position
/// `j`: a condition, a body, and an else branch exactly when the next token
/// after the body is `else`.
pub open spec fn sp_if(s: Seq<char>, j: int) -> (Option<Result<ExprV, ParseErrorV>>, int)
    decreases s.len() - j, 1int,
{
    if j > s.len() {
        (Some(Err(ParseErrorV::UnexpectedEOF)), j)
    } else {
        let (cond_res, k) = sp_next(s, j);
        match cond_res {
            None => (Some(Err(ParseErrorV::UnexpectedEOF)), k),
            Some(Err(e)) => (Some(Err(e)), k),
            Some(Ok(cond)) => {
                let (body_res, k2) = sp_next(s, adv(s, j, k));
                match body_res {
                    None => (Some(Err(ParseErrorV::UnexpectedEOF)), k2),
                    Some(Err(e)) => (Some(Err(e)), k2),
                    Some(Ok(body)) => {
                        let (t3, k3) = spec_scan(s, k2);
                        if t3 == Some(Ok::<TokenV, TokenError>(TokenV::Else)) {
                            let (else_res, k4) = sp_next(s, adv(s, j, k3));
                            match else_res {
                                None => (Some(Err(ParseErrorV::UnexpectedEOF)), k4),
                                Some(Err(e)) => (Some(Err(e)), k4),
                                Some(Ok(eb)) => (
                                    Some(
                                        Ok(
                                            ExprV::IfExpr {
                                                cond: Box::new(cond),
                                                body: Box::new(body),
                                                else_branch: Some(Box::new(eb)),
                                            },
                                        ),
                                    ),
                                    k4,
                                ),
                            }
                        } else {
                            (
                                Some(
                                    Ok(
                                        ExprV::IfExpr {
                                            cond: Box::new(cond),
                                            body: Box::new(body),
                                            else_branch: None,
                                        },
                                    ),
                                ),
                                k2,
                            )
                        }
                    },
                }
            },
        }
    }
}

/// The rest of a loop, the `while` keyword already consumed at position
/// `j`: a condition and a body.
pub open spec fn sp_while(s: Seq<char>, j: int) -> (Option<Result<ExprV, ParseErrorV>>, int)
    decreases s.len() - j, 1int,
{
    if j > s.len() {
        (Some(Err(ParseErrorV::UnexpectedEOF)), j)
    } else {
        let (cond_res, k) = sp_next(s, j);
        match cond_res {
            None => (Some(Err(ParseErrorV::UnexpectedEOF)), k),
            Some(Err(e)) => (Some(Err(e)), k),
            Some(Ok(cond)) => {
                let (body_res, k2) = sp_next(s, adv(s, j, k));
                match body_res {
                    None => (Some(Err(ParseErrorV::UnexpectedEOF)), k2),
                    Some(Err(e)) => (Some(Err(e)), k2),
                    Some(Ok(body)) => (
                        Some(
                            Ok(ExprV::WhileLoop { cond: Box::new(cond), body: Box::new(body) }),
                        ),
                        k2,
                    ),
                }
            },
        }
    }
}

/// The view of one pulled parse item.
pub open spec fn parse_item_view(r: Option<Result<Expression, ParseError>>) -> Option<
    Result<ExprV, ParseErrorV>,
> {
    match r {
        None => None,
        Some(Ok(e)) => Some(Ok(expr_view(e))),
        Some(Err(e)) => Some(Err(e@)),
    }
}

/// The view of one parse result.
pub open spec fn parse_res_view(r: Result<Expression, ParseError>) -> Result<ExprV, ParseErrorV> {
    match r {
        Ok(e) => Ok(expr_view(e)),
        Err(e) => Err(e@),
    }
}

/// The parser: a scanner plus one slot of lookahead. Each call of `next`
/// yields one top-level expression or one parse error, exactly as `sp_next`
/// says.
pub struct Parser {
    scanner: Scanner,
    peeked: Option<Option<Result<Token, TokenError>>>,
    base: Ghost<int>,
}

proof fn lemma_parser_in_range(p: &Parser)
    requires
        p.wf(),
    ensures
        0 <= p.pos() <= p.text().len(),
{
    if p.peeked is None {
        lemma_scanner_in_range(&p.scanner);
    }
}

impl Parser {
    /// The text being parsed.
    pub closed spec fn text(&self) -> Seq<char> {
        self.scanner.text()
    }

    /// The current position: where the lookahead token was scanned from, if
    /// one is held, else the scanner's position.
    pub closed spec fn pos(&self) -> int {
        if self.peeked is Some {
            self.base@
        } else {
            self.scanner.position()
        }
    }

    /// The scanner is in range, and any held lookahead item is exactly what
    /// scanning from `base` yields.
    pub closed spec fn wf(&self) -> bool {
        &&& self.scanner.wf()
        &&& match self.peeked {
            None => true,
            Some(item) => {
                &&& 0 <= self.base@ <= self.scanner.text().len()
                &&& scan_item_view(item) == spec_scan(self.scanner.text(), self.base@).0
                &&& self.scanner.position() == spec_scan(self.scanner.text(), self.base@).1
            },
        }
    }

    /// A parser at the start of the given text.
    pub fn new(input: &str) -> (r: Parser)
        ensures
            r.wf(),
            r.text() == input@,
            r.pos() == 0,
    {
        Parser { scanner: Scanner::new(input), peeked: None, base: Ghost(0) }
    }

    /// Pull one token, taking the lookahead item first if one is held.
    fn scan_next(&mut self) -> (r: Option<Result<Token, TokenError>>)
        requires
            old(self).wf(),
        ensures
            final(self).wf(),
            final(self).peeked is None,
            final(self).text() == old(self).text(),
            scan_item_view(r) == spec_scan(old(self).text(), old(self).pos()).0,
            final(self).pos() == spec_scan(old(self).text(), old(self).pos()).1,
    {
        match self.peeked.take() {
            Some(item) => item,
            None => self.scanner.next(),
        }
    }

    /// Put one pulled item back as the lookahead.
    fn unscan(&mut self, item: Option<Result<Token, TokenError>>, Ghost(p): Ghost<int>)
        requires
            old(self).wf(),
            old(self).peeked is None,
            0 <= p <= old(self).text().len(),
            scan_item_view(item) == spec_scan(old(self).text(), p).0,
            old(self).scanner.position() == spec_scan(old(self).text(), p).1,
        ensures
            final(self).wf(),
            final(self).text() == old(self).text(),
            final(self).pos() == p,
    {
        self.peeked = Some(item);
        self.base = Ghost(p);
    }

    /// The precedence rewrite on built trees; see `spec_apply_precedence`.
    fn apply_precedence(lhs: Expression, op: BinaryOp, rhs: Expression) -> (r: Expression)
        ensures
            expr_view(r) == spec_apply_precedence(expr_view(lhs), op, expr_view(rhs)),
    {
        let ghost lhsg = lhs;
        let ghost rhsg = rhs;
        match rhs {
            Expression::BinaryExpr { left: l2, op: op2, right: r2 } => {
                let ghost l2g = *l2;
                let ghost r2g = *r2;
                if op2.precendence() < op.precendence() {
                    let inner = Expression::BinaryExpr { left: Box::new(lhs), op, right: l2 };
                    let ghost innerg = inner;
                    let out = Expression::BinaryExpr {
                        left: Box::new(inner),
                        op: op2,
                        right: r2,
                    };
                    proof {
                        assert(expr_view(innerg) == ExprV::BinaryExpr {
                            left: Box::new(expr_view(lhsg)),
                            op,
                            right: Box::new(expr_view(l2g)),
                        });
                        assert(expr_view(out) =~~= spec_apply_precedence(
                            expr_view(lhsg),
                            op,
                            expr_view(rhsg),
                        ));
                    }
                    out
                } else {
                    let inner = Expression::BinaryExpr { left: l2, op: op2, right: r2 };
                    let ghost innerg = inner;
                    let out = Expression::BinaryExpr {
                        left: Box::new(lhs),
                        op,
                        right: Box::new(inner),
                    };
                    proof {
                        assert(expr_view(innerg) == ExprV::BinaryExpr {
                            left: Box::new(expr_view(l2g)),
                            op: op2,
                            right: Box::new(expr_view(r2g)),
                        });
                        assert(expr_view(out) =~~= spec_apply_precedence(
                            expr_view(lhsg),
                            op,
                            expr_view(rhsg),
                        ));
                    }
                    out
                }
            },
            other => {
                let ghost otherg = other;
                let out = Expression::BinaryExpr {
                    left: Box::new(lhs),
                    op,
                    right: Box::new(other),
                };
                proof {
                    crate::expr::lemma_expr_view_binary(rhsg);
                    assert(expr_view(out) =~~= spec_apply_precedence(
                        expr_view(lhsg),
                        op,
                        expr_view(rhsg),
                    ));
                }
                out
            },
        }
    }

    /// Pull the next top-level expression, or the next parse error, or
    /// `None` at the end of the input.
    #[verifier::rlimit(100)]
    pub fn next(&mut self) -> (r: Option<Result<Expression, ParseError>>)
        requires
            old(self).wf(),
        ensures
            final(self).wf(),
            final(self).text() == old(self).text(),
            old(self).pos() <= final(self).pos() <= final(self).text().len(),
            parse_item_view(r) == sp_next(old(self).text(), old(self).pos()).0,
            final(self).pos() == sp_next(old(self).text(), old(self).pos()).1,
            r is Some ==> final(self).pos() > old(self).pos(),
        decreases self.text().len() - self.pos(), 0int,
    {
        let ghost s = self.text();
        let ghost i = self.pos();
        proof {
            lemma_parser_in_range(self);
            lemma_scan_bounds(s, i);
        }
        let t0 = self.scan_next();
        let tok = match t0 {
            None => {
                return None;
            },
            Some(Err(e)) => {
                return Some(Err(ParseError::ScanError(e)));
            },
            Some(Ok(tok)) => tok,
        };
        let ghost j = self.pos();
        proof {
            assert(adv(s, i, j) == j);
        }
        let lhs_res: Result<Expression, ParseError> = match tok {
            Token::Nil => Ok(Expression::NilLiteral),
            Token::Boolean(b) => Ok(Expression::BooleanLiteral(b)),
            Token::Number(n) => Ok(Expression::NumberLiteral(n)),
            Token::String(st) => Ok(Expression::StrLiteral(st)),
            Token::OpenParen => self.parse_paren_expr(),
            Token::OpenCurly => self.parse_block(),
            Token::Identifier(name) => self.parse_identifier(name),
            Token::If => self.parse_if(),
            Token::While => self.parse_while(),
            t => Err(ParseError::Unexpected(t)),
        };
        let lhs = match lhs_res {
            Ok(e) => e,
            Err(e) => {
                return Some(Err(e));
            },
        };
        let ghost k = self.pos();
        proof {
            lemma_scan_bounds(s, k);
        }
        let t1 = self.scan_next();
        let next_tok = match t1 {
            Some(Ok(t)) => t,
            other => {
                self.unscan(other, Ghost(k));
                return Some(Ok(lhs));
            },
        };
        match next_tok.to_binary_op() {
            Some(op) => {
                proof {
                    assert(adv(s, i, self.pos()) == self.pos());
                }
                let rhs = match self.next() {
                    Some(Ok(e)) => e,
                    Some(Err(e)) => {
                        return Some(Err(e));
                    },
                    None => {
                        return Some(Err(ParseError::UnexpectedEOF));
                    },
                };
                Some(Ok(Self::apply_precedence(lhs, op, rhs)))
            },
            None => {
                match (next_tok, lhs) {
                    (Token::Eq, Expression::Variable(v)) => {
                        proof {
                            assert(adv(s, i, self.pos()) == self.pos());
                        }
                        let rhs = match self.next() {
                            Some(Ok(e)) => e,
                            Some(Err(e)) => {
                                return Some(Err(e));
                            },
                            None => {
                                return Some(Err(ParseError::UnexpectedEOF));
                            },
                        };
                        Some(
                            Ok(Expression::Assignment { left: v, right: Box::new(rhs) }),
                        )
                    },
                    (t, lhs2) => {
                        self.unscan(Some(Ok(t)), Ghost(k));
                        Some(Ok(lhs2))
                    },
                }
            },
        }
    }

    /// The rest of a parenthesized expression; see `sp_paren`.
    fn parse_paren_expr(&mut self) -> (r: Result<Expression, ParseError>)
        requires
            old(self).wf(),
        ensures
            final(self).wf(),
            final(self).text() == old(self).text(),
            old(self).pos() <= final(self).pos() <= final(self).text().len(),
            parse_res_view(r) == sp_paren(old(self).text(), old(self).pos()).0->0,
            sp_paren(old(self).text(), old(self).pos()).0 is Some,
            final(self).pos() == sp_paren(old(self).text(), old(self).pos()).1,
        decreases self.text().len() - self.pos(), 1int,
    {
        let ghost s = self.text();
        let ghost j = self.pos();
        proof {
            lemma_parser_in_range(self);
        }
        let inner = match self.next() {
            Some(Ok(e)) => e,
            Some(Err(e)) => {
                return Err(e);
            },
            None => {
                return Err(ParseError::UnexpectedEOF);
            },
        };
        proof {
            lemma_scan_bounds(s, self.pos());
        }
        match self.scan_next() {
            Some(Ok(Token::CloseParen)) => Ok(Expression::ParenExpr(Box::new(inner))),
            Some(Ok(t)) => Err(ParseError::Unexpected(t)),
            Some(Err(e)) => Err(ParseError::ScanError(e)),
            None => Err(ParseError::UnexpectedEOF),
        }
    }

    /// A block, the opening brace already consumed; see `sp_block`.
    #[verifier::rlimit(100)]
    fn parse_block(&mut self) -> (r: Result<Expression, ParseError>)
        requires
            old(self).wf(),
        ensures
            final(self).wf(),
            final(self).text() == old(self).text(),
            old(self).pos() <= final(self).pos() <= final(self).text().len(),
            match r {
                Ok(e) => sp_block(old(self).text(), old(self).pos()).0 matches Ok(es)
                    && expr_view(e) == ExprV::Block(es),
                Err(pe) => sp_block(old(self).text(), old(self).pos()).0 == Err::<
                    Seq<ExprV>,
                    ParseErrorV,
                >(pe@),
            },
            final(self).pos() == sp_block(old(self).text(), old(self).pos()).1,
        decreases self.text().len() - self.pos(), 1int,
    {
        let ghost s = self.text();
        let ghost j0 = self.pos();
        proof {
            lemma_parser_in_range(self);
        }
        let mut body: Vec<Expression> = Vec::new();
        proof {
            crate::expr::lemma_exprs_view(body@);
            if sp_block(s, j0).0 is Ok {
                assert(exprs_view(body@) + sp_block(s, j0).0->Ok_0 =~= sp_block(s, j0).0->Ok_0);
            }
        }
        loop
            invariant
                self.wf(),
                self.text() == s,
                s == old(self).text(),
                j0 == old(self).pos(),
                0 <= j0 <= self.pos() <= s.len(),
                sp_block(s, j0).1 == sp_block(s, self.pos()).1,
                sp_block(s, self.pos()).0 matches Ok(es) ==> sp_block(s, j0).0 == Ok::<
                    Seq<ExprV>,
                    ParseErrorV,
                >(exprs_view(body@) + es),
                sp_block(s, self.pos()).0 matches Err(e) ==> sp_block(s, j0).0 == Err::<
                    Seq<ExprV>,
                    ParseErrorV,
                >(e),
            decreases s.len() - self.pos(),
        {
            let ghost p = self.pos();
            proof {
                lemma_scan_bounds(s, p);
            }
            let t = self.scan_next();
            match t {
                None => {
                    self.unscan(None, Ghost(p));
                    return Err(ParseError::UnexpectedEOF);
                },
                Some(Err(e)) => {
                    self.unscan(Some(Err(e)), Ghost(p));
                    return Err(ParseError::ScanError(e));
                },
                Some(Ok(Token::CloseCurly)) => {
                    return Ok(Expression::Block(body));
                },
                other => {
                    self.unscan(other, Ghost(p));
                    let item = match self.next() {
                        Some(Ok(e)) => e,
                        Some(Err(e)) => {
                            return Err(e);
                        },
                        None => {
                            return Err(ParseError::UnexpectedEOF);
                        },
                    };
                    proof {
                        assert(adv(s, p, self.pos()) == self.pos());
                    }
                    let ghost bodypre = body@;
                    let ghost itemg = item;
                    body.push(item);
                    proof {
                        crate::expr::lemma_exprs_view(bodypre);
                        crate::expr::lemma_exprs_view(body@);
                        assert(exprs_view(body@) =~= exprs_view(bodypre).push(expr_view(itemg)));
                        if sp_block(s, self.pos()).0 is Ok {
                            assert(exprs_view(bodypre) + (seq![expr_view(itemg)] + sp_block(
                                s,
                                self.pos(),
                            ).0->Ok_0) =~= exprs_view(body@) + sp_block(s, self.pos()).0->Ok_0);
                        }
                    }
                },
            }
        }
    }

    /// What follows an identifier: a call or a variable; see `sp_ident`.
    fn parse_identifier(&mut self, name: String) -> (r: Result<Expression, ParseError>)
        requires
            old(self).wf(),
        ensures
            final(self).wf(),
            final(self).text() == old(self).text(),
            old(self).pos() <= final(self).pos() <= final(self).text().len(),
            parse_res_view(r) == sp_ident(old(self).text(), old(self).pos(), name@).0->0,
            sp_ident(old(self).text(), old(self).pos(), name@).0 is Some,
            final(self).pos() == sp_ident(old(self).text(), old(self).pos(), name@).1,
        decreases self.text().len() - self.pos(), 1int,
    {
        let ghost s = self.text();
        let ghost j = self.pos();
        proof {
            lemma_parser_in_range(self);
            lemma_scan_bounds(s, j);
        }
        let t = self.scan_next();
        match t {
            Some(Ok(Token::OpenParen)) => {
                proof {
                    assert(adv(s, j, self.pos()) == self.pos());
                }
                match self.parse_expr_list() {
                    Ok(args) => Ok(Expression::FunctionCall { name, args }),
                    Err(e) => Err(e),
                }
            },
            other => {
                self.unscan(other, Ghost(j));
                Ok(Expression::Variable(name))
            },
        }
    }

    /// A comma-separated argument list up to the closing parenthesis; see
    /// `sp_list`.
    #[verifier::rlimit(100)]
    fn parse_expr_list(&mut self) -> (r: Result<Vec<Expression>, ParseError>)
        requires
            old(self).wf(),
        ensures
            final(self).wf(),
            final(self).text() == old(self).text(),
            old(self).pos() <= final(self).pos() <= final(self).text().len(),
            match r {
                Ok(es) => sp_list(old(self).text(), old(self).pos()).0 == Ok::<
                    Seq<ExprV>,
                    ParseErrorV,
                >(exprs_view(es@)),
                Err(pe) => sp_list(old(self).text(), old(self).pos()).0 == Err::<
                    Seq<ExprV>,
                    ParseErrorV,
                >(pe@),
            },
            final(self).pos() == sp_list(old(self).text(), old(self).pos()).1,
        decreases self.text().len() - self.pos(), 1int,
    {
        let ghost s = self.text();
        let ghost j0 = self.pos();
        proof {
            lemma_parser_in_range(self);
            lemma_scan_bounds(s, j0);
        }
        let mut args: Vec<Expression> = Vec::new();
        let t = self.scan_next();
        match t {
            Some(Ok(Token::CloseParen)) => {
                proof {
                    crate::expr::lemma_exprs_view(args@);
                    assert(exprs_view(args@) =~= Seq::<ExprV>::empty());
                }
                return Ok(args);
            },
            other => {
                self.unscan(other, Ghost(j0));
            },
        }
        proof {
            crate::expr::lemma_exprs_view(args@);
            if sp_list_items(s, j0).0 is Ok {
                assert(exprs_view(args@) + sp_list_items(s, j0).0->Ok_0 =~= sp_list_items(
                    s,
                    j0,
                ).0->Ok_0);
            }
        }
        loop
            invariant
                self.wf(),
                self.text() == s,
                s == old(self).text(),
                j0 == old(self).pos(),
                0 <= j0 <= self.pos() <= s.len(),
                sp_list(s, j0).0 == sp_list_items(s, j0).0,
                sp_list(s, j0).1 == sp_list_items(s, j0).1,
                sp_list_items(s, j0).1 == sp_list_items(s, self.pos()).1,
                sp_list_items(s, self.pos()).0 matches Ok(es) ==> sp_list_items(s, j0).0 == Ok::<
                    Seq<ExprV>,
                    ParseErrorV,
                >(exprs_view(args@) + es),
                sp_list_items(s, self.pos()).0 matches Err(e) ==> sp_list_items(s, j0).0 == Err::<
                    Seq<ExprV>,
                    ParseErrorV,
                >(e),
            decreases s.len() - self.pos(),
        {
            let ghost p = self.pos();
            proof {
                lemma_scan_bounds(s, p);
            }
            let item = match self.next() {
                Some(Ok(e)) => e,
                Some(Err(e)) => {
                    return Err(e);
                },
                None => {
                    return Err(ParseError::UnexpectedEOF);
                },
            };
            let ghost argspre = args@;
            let ghost itemg = item;
            args.push(item);
            proof {
                crate::expr::lemma_exprs_view(argspre);
                crate::expr::lemma_exprs_view(args@);
                assert(exprs_view(args@) =~= exprs_view(argspre).push(expr_view(itemg)));
                lemma_scan_bounds(s, self.pos());
            }
            let t2 = self.scan_next();
            match t2 {
                Some(Ok(Token::Comma)) => {
                    proof {
                        assert(adv(s, p, self.pos()) == self.pos());
                        if sp_list_items(s, self.pos()).0 is Ok {
                            assert(exprs_view(argspre) + (seq![expr_view(itemg)] + sp_list_items(
                                s,
                                self.pos(),
                            ).0->Ok_0) =~= exprs_view(args@) + sp_list_items(s, self.pos()).0->Ok_0);
                        }
                    }
                },
                Some(Ok(Token::CloseParen)) => {
                    proof {
                        assert(exprs_view(argspre) + seq![expr_view(itemg)] =~= exprs_view(args@));
                    }
                    return Ok(args);
                },
                Some(Ok(t3)) => {
                    return Err(ParseError::Unexpected(t3));
                },
                Some(Err(e)) => {
                    return Err(ParseError::ScanError(e));
                },
                None => {
                    return Err(ParseError::UnexpectedEOF);
                },
            }
        }
    }

    /// The rest of a conditional; see `sp_if`.
    fn parse_if(&mut self) -> (r: Result<Expression, ParseError>)
        requires
            old(self).wf(),
        ensures
            final(self).wf(),
            final(self).text() == old(self).text(),
            old(self).pos() <= final(self).pos() <= final(self).text().len(),
            parse_res_view(r) == sp_if(old(self).text(), old(self).pos()).0->0,
            sp_if(old(self).text(), old(self).pos()).0 is Some,
            final(self).pos() == sp_if(old(self).text(), old(self).pos()).1,
        decreases self.text().len() - self.pos(), 1int,
    {
        let ghost s = self.text();
        let ghost j = self.pos();
        proof {
            lemma_parser_in_range(self);
        }
        let condition = match self.next() {
            None => {
                return Err(ParseError::UnexpectedEOF);
            },
            Some(Err(e)) => {
                return Err(e);
            },
            Some(Ok(e)) => e,
        };
        proof {
            assert(adv(s, j, self.pos()) == self.pos());
        }
        let body = match self.next() {
            None => {
                return Err(ParseError::UnexpectedEOF);
            },
            Some(Err(e)) => {
                return Err(e);
            },
            Some(Ok(e)) => e,
        };
        let ghost k2 = self.pos();
        proof {
            lemma_scan_bounds(s, k2);
        }
        let t3 = self.scan_next();
        match t3 {
            Some(Ok(Token::Else)) => {
                proof {
                    assert(adv(s, j, self.pos()) == self.pos());
                }
                let eb = match self.next() {
                    None => {
                        return Err(ParseError::UnexpectedEOF);
                    },
                    Some(Err(e)) => {
                        return Err(e);
                    },
                    Some(Ok(e)) => e,
                };
                Ok(
                    Expression::IfExpr {
                        cond: Box::new(condition),
                        body: Box::new(body),
                        else_branch: Some(Box::new(eb)),
                    },
                )
            },
            other => {
                self.unscan(other, Ghost(k2));
                Ok(
                    Expression::IfExpr {
                        cond: Box::new(condition),
                        body: Box::new(body),
                        else_branch: None,
                    },
                )
            },
        }
    }

    /// The rest of a loop; see `sp_while`.
    fn parse_while(&mut self) -> (r: Result<Expression, ParseError>)
        requires
            old(self).wf(),
        ensures
            final(self).wf(),
            final(self).text() == old(self).text(),
            old(self).pos() <= final(self).pos() <= final(self).text().len(),
            parse_res_view(r) == sp_while(old(self).text(), old(self).pos()).0->0,
            sp_while(old(self).text(), old(self).pos()).0 is Some,
            final(self).pos() == sp_while(old(self).text(), old(self).pos()).1,
        decreases self.text().len() - self.pos(), 1int,
    {
        let ghost s = self.text();
        let ghost j = self.pos();
        proof {
            lemma_parser_in_range(self);
        }
        let condition = match self.next() {
            None => {
                return Err(ParseError::UnexpectedEOF);
            },
            Some(Err(e)) => {
                return Err(e);
            },
            Some(Ok(e)) => e,
        };
        proof {
            assert(adv(s, j, self.pos()) == self.pos());
        }
        let body = match self.next() {
            None => {
                return Err(ParseError::UnexpectedEOF);
            },
            Some(Err(e)) => {
                return Err(e);
            },
            Some(Ok(e)) => e,
        };
        Ok(Expression::WhileLoop { cond: Box::new(condition), body: Box::new(body) })
    }
}

} // verus!
