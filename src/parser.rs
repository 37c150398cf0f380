//! The parser: recursive descent over a token sequence with one token of
//! lookahead, and precedence climbing for binary operators. The grammar is
//! stated by the spec functions below; each takes the position of the first
//! token to read and gives back what it built and the position after it.
use vstd::prelude::*;
use crate::ast::{model, models, lemma_model_call, proto_model, item_model, Expr, ExprAST, FunctionAST, Item, Proto, PrototypeAST, TopLevel};
use crate::lexer::{gettok, toks_view, tokenize, LexError, Tok, Token};

verus! {

/// Why a token sequence is not a well-formed program; positions index the
/// token sequence.
#[derive(Debug, PartialEq, Eq, Clone, Copy, Structural)]
pub enum SyntaxError {
    /// A required token (a parenthesis, a comma, a keyword, a name, or the
    /// end of input) is not at this position.
    Expected(usize),
    /// This token cannot start an expression.
    UnexpectedToken(usize),
    /// The input ended before the construct was complete.
    UnexpectedEnd,
}

/// A failure of either stage of parsing text.
#[derive(Debug, PartialEq, Eq, Clone, Copy, Structural)]
pub enum ParseError {
    Lexical(LexError),
    Syntax(SyntaxError),
}

/// The token at position `p`; the end marker past the end.
pub open spec fn tok_at(toks: Seq<Tok>, p: int) -> Tok {
    if 0 <= p < toks.len() {
        toks[p]
    } else {
        Tok::Eof
    }
}

/// The error for a required token that is not at `p`.
pub open spec fn missing(toks: Seq<Tok>, p: int) -> SyntaxError {
    if tok_at(toks, p) is Eof {
        SyntaxError::UnexpectedEnd
    } else {
        SyntaxError::Expected(p as usize)
    }
}

/// The error for a token at `p` that cannot start an expression.
pub open spec fn stray(toks: Seq<Tok>, p: int) -> SyntaxError {
    if tok_at(toks, p) is Eof {
        SyntaxError::UnexpectedEnd
    } else {
        SyntaxError::UnexpectedToken(p as usize)
    }
}

/// The binding power of a binary operator: `*` and `/` bind tighter than
/// `+` and `-`; any other character is no operator.
pub open spec fn precedence(c: char) -> int {
    if c == '*' || c == '/' {
        40
    } else if c == '+' || c == '-' {
        20
    } else {
        -1
    }
}

/// The binding power of the token at `p`, or -1 where it is no operator.
pub open spec fn tok_prec(toks: Seq<Tok>, p: int) -> int {
    match tok_at(toks, p) {
        Tok::Sym(c) => precedence(c),
        _ => -1,
    }
}

/// An expression: a primary expression followed by any binary operators.
pub open spec fn parse_expr(toks: Seq<Tok>, p: int) -> Result<(Expr, int), SyntaxError>
    decreases toks.len() - p, 3int,
{
    if !(0 <= p <= toks.len()) {
        Err(SyntaxError::UnexpectedEnd)
    } else {
        match parse_primary(toks, p) {
            Err(e) => Err(e),
            Ok((lhs, q)) => if p < q <= toks.len() {
                parse_binop_rhs(toks, 0, lhs, q)
            } else {
                Err(SyntaxError::UnexpectedEnd)
            },
        }
    }
}

/// Precedence climbing: folds into `lhs` each operator at `p` that binds at
/// least as tightly as `min_prec`. An operator followed by one that binds
/// more tightly takes the tighter chain as its right operand first, so equal
/// operators group to the left.
pub open spec fn parse_binop_rhs(toks: Seq<Tok>, min_prec: int, lhs: Expr, p: int) -> Result<
    (Expr, int),
    SyntaxError,
>
    decreases toks.len() - p, 2int,
{
    let tp = tok_prec(toks, p);
    if !(0 <= p <= toks.len()) {
        Err(SyntaxError::UnexpectedEnd)
    } else if tp < 0 || tp < min_prec {
        Ok((lhs, p))
    } else {
        let op = tok_at(toks, p)->Sym_0;
        match parse_primary(toks, p + 1) {
            Err(e) => Err(e),
            Ok((rhs, q)) => if !(p + 1 < q <= toks.len()) {
                Err(SyntaxError::UnexpectedEnd)
            } else if tp < tok_prec(toks, q) {
                match parse_binop_rhs(toks, tp + 1, rhs, q) {
                    Err(e) => Err(e),
                    Ok((rhs2, q2)) => if !(p < q2 <= toks.len()) {
                        Err(SyntaxError::UnexpectedEnd)
                    } else {
                        parse_binop_rhs(
                            toks,
                            min_prec,
                            Expr::Bin(op, Box::new(lhs), Box::new(rhs2)),
                            q2,
                        )
                    },
                }
            } else {
                parse_binop_rhs(toks, min_prec, Expr::Bin(op, Box::new(lhs), Box::new(rhs)), q)
            },
        }
    }
}

/// A primary expression: a literal, a variable, a call, a parenthesised
/// expression, or a conditional.
pub open spec fn parse_primary(toks: Seq<Tok>, p: int) -> Result<(Expr, int), SyntaxError>
    decreases toks.len() - p, 1int,
{
    if !(0 <= p <= toks.len()) {
        Err(SyntaxError::UnexpectedEnd)
    } else {
        match tok_at(toks, p) {
            Tok::Num(s) => Ok((Expr::Num(s), p + 1)),
            Tok::Ident(name) => if tok_at(toks, p + 1) == Tok::Sym('(') {
                match parse_args(toks, p + 2) {
                    Err(e) => Err(e),
                    Ok((args, q)) => Ok((Expr::Call(name, args), q)),
                }
            } else {
                Ok((Expr::Var(name), p + 1))
            },
            Tok::Sym(c) => if c == '(' {
                match parse_expr(toks, p + 1) {
                    Err(e) => Err(e),
                    Ok((e, q)) => if !(p < q <= toks.len()) {
                        Err(SyntaxError::UnexpectedEnd)
                    } else if tok_at(toks, q) == Tok::Sym(')') {
                        Ok((e, q + 1))
                    } else {
                        Err(missing(toks, q))
                    },
                }
            } else {
                Err(stray(toks, p))
            },
            Tok::If => parse_cond(toks, p + 1),
            _ => Err(stray(toks, p)),
        }
    }
}

/// The rest of a conditional after `if`: a condition, `then` and a branch,
/// `else` and a branch, all mandatory.
pub open spec fn parse_cond(toks: Seq<Tok>, p: int) -> Result<(Expr, int), SyntaxError>
    decreases toks.len() - p, 4int,
{
    if !(0 < p <= toks.len()) {
        Err(SyntaxError::UnexpectedEnd)
    } else {
        match parse_expr(toks, p) {
            Err(e) => Err(e),
            Ok((c, q1)) => if !(p < q1 <= toks.len()) {
                Err(SyntaxError::UnexpectedEnd)
            } else if tok_at(toks, q1) != Tok::Then {
                Err(missing(toks, q1))
            } else {
                match parse_expr(toks, q1 + 1) {
                    Err(e) => Err(e),
                    Ok((t, q2)) => if !(q1 < q2 <= toks.len()) {
                        Err(SyntaxError::UnexpectedEnd)
                    } else if tok_at(toks, q2) != Tok::Else {
                        Err(missing(toks, q2))
                    } else {
                        match parse_expr(toks, q2 + 1) {
                            Err(e) => Err(e),
                            Ok((f, q3)) => Ok(
                                (Expr::Cond(Box::new(c), Box::new(t), Box::new(f)), q3),
                            ),
                        }
                    },
                }
            },
        }
    }
}

/// The arguments of a call after `(`: none, or expressions separated by
/// commas, then `)`.
pub open spec fn parse_args(toks: Seq<Tok>, p: int) -> Result<(Seq<Expr>, int), SyntaxError>
    decreases toks.len() - p, 6int,
{
    if !(0 <= p <= toks.len()) {
        Err(SyntaxError::UnexpectedEnd)
    } else if tok_at(toks, p) == Tok::Sym(')') {
        Ok((Seq::empty(), p + 1))
    } else {
        parse_arg_list(toks, p)
    }
}

pub open spec fn parse_arg_list(toks: Seq<Tok>, p: int) -> Result<(Seq<Expr>, int), SyntaxError>
    decreases toks.len() - p, 5int,
{
    if !(0 <= p <= toks.len()) {
        Err(SyntaxError::UnexpectedEnd)
    } else {
        match parse_expr(toks, p) {
            Err(e) => Err(e),
            Ok((e, q)) => if !(p < q <= toks.len()) {
                Err(SyntaxError::UnexpectedEnd)
            } else if tok_at(toks, q) == Tok::Sym(')') {
                Ok((seq![e], q + 1))
            } else if tok_at(toks, q) == Tok::Sym(',') {
                match parse_arg_list(toks, q + 1) {
                    Err(err) => Err(err),
                    Ok((rest, r)) => Ok((seq![e] + rest, r)),
                }
            } else {
                Err(missing(toks, q))
            },
        }
    }
}

/// Whether an exec result agrees with the spec result of a rule started at
/// `p`, and, on success, ends past `p` and within the `n` tokens.
pub open spec fn agrees(
    spec_r: Result<(Expr, int), SyntaxError>,
    r: Result<(ExprAST, usize), SyntaxError>,
    p: int,
    n: int,
) -> bool {
    match r {
        Ok((e, q)) => spec_r == Ok::<(Expr, int), SyntaxError>((model(e), q as int)) && p < q <= n,
        Err(err) => spec_r == Err::<(Expr, int), SyntaxError>(err),
    }
}

pub open spec fn agrees_list(
    spec_r: Result<(Seq<Expr>, int), SyntaxError>,
    r: Result<(Vec<ExprAST>, usize), SyntaxError>,
    p: int,
    n: int,
) -> bool {
    match r {
        Ok((v, q)) => spec_r == Ok::<(Seq<Expr>, int), SyntaxError>((models(v@), q as int)) && p
            < q <= n,
        Err(err) => spec_r == Err::<(Seq<Expr>, int), SyntaxError>(err),
    }
}

fn sym_at(toks: &Vec<Token>, p: usize, c: char) -> (r: bool)
    ensures
        r == (tok_at(toks_view(toks@), p as int) == Tok::Sym(c)),
{
    if p < toks.len() {
        match &toks[p] {
            Token::Char(d) => *d == c,
            _ => false,
        }
    } else {
        false
    }
}

fn is_eof_at(toks: &Vec<Token>, p: usize) -> (r: bool)
    ensures
        r == (tok_at(toks_view(toks@), p as int) is Eof),
{
    if p < toks.len() {
        match &toks[p] {
            Token::Eof => true,
            _ => false,
        }
    } else {
        true
    }
}

fn missing_at(toks: &Vec<Token>, p: usize) -> (r: SyntaxError)
    ensures
        r == missing(toks_view(toks@), p as int),
{
    if is_eof_at(toks, p) {
        SyntaxError::UnexpectedEnd
    } else {
        SyntaxError::Expected(p)
    }
}

fn stray_at(toks: &Vec<Token>, p: usize) -> (r: SyntaxError)
    ensures
        r == stray(toks_view(toks@), p as int),
{
    if is_eof_at(toks, p) {
        SyntaxError::UnexpectedEnd
    } else {
        SyntaxError::UnexpectedToken(p)
    }
}

/// The binding power of the token at `p`, as in `tok_prec`.
fn prec_at(toks: &Vec<Token>, p: usize) -> (r: i32)
    ensures
        r as int == tok_prec(toks_view(toks@), p as int),
{
    if p < toks.len() {
        match &toks[p] {
            Token::Char(c) => {
                if *c == '*' || *c == '/' {
                    40
                } else if *c == '+' || *c == '-' {
                    20
                } else {
                    -1
                }
            },
            _ => -1,
        }
    } else {
        -1
    }
}

/// Parses an expression starting at token `p`.
pub fn parse_expr_at(toks: &Vec<Token>, p: usize) -> (r: Result<(ExprAST, usize), SyntaxError>)
    requires
        p <= toks.len(),
    ensures
        agrees(parse_expr(toks_view(toks@), p as int), r, p as int, toks.len() as int),
    decreases toks.len() - p, 3int,
{
    match parse_primary_at(toks, p) {
        Err(e) => Err(e),
        Ok((lhs, q)) => parse_binop_rhs_at(toks, 0, lhs, q),
    }
}

fn parse_binop_rhs_at(toks: &Vec<Token>, min_prec: i32, lhs: ExprAST, p: usize) -> (r: Result<
    (ExprAST, usize),
    SyntaxError,
>)
    requires
        0 < p <= toks.len(),
        0 <= min_prec <= 41,
    ensures
        match r {
            Ok((e, q)) => parse_binop_rhs(toks_view(toks@), min_prec as int, model(lhs), p as int)
                == Ok::<(Expr, int), SyntaxError>((model(e), q as int)) && p <= q <= toks.len(),
            Err(err) => parse_binop_rhs(toks_view(toks@), min_prec as int, model(lhs), p as int)
                == Err::<(Expr, int), SyntaxError>(err),
        },
    decreases toks.len() - p, 2int,
{
    let ghost t = toks_view(toks@);
    let tp = prec_at(toks, p);
    if tp < 0 || tp < min_prec {
        return Ok((lhs, p));
    }
    let op = match &toks[p] {
        Token::Char(c) => *c,
        _ => ' ',
    };
    assert(op == tok_at(t, p as int)->Sym_0);
    match parse_primary_at(toks, p + 1) {
        Err(e) => Err(e),
        Ok((rhs, q)) => {
            if tp < prec_at(toks, q) {
                match parse_binop_rhs_at(toks, tp + 1, rhs, q) {
                    Err(e) => Err(e),
                    Ok((rhs2, q2)) => {
                        let combined = ExprAST::Binary(op, Box::new(lhs), Box::new(rhs2));
                        parse_binop_rhs_at(toks, min_prec, combined, q2)
                    },
                }
            } else {
                let combined = ExprAST::Binary(op, Box::new(lhs), Box::new(rhs));
                parse_binop_rhs_at(toks, min_prec, combined, q)
            }
        },
    }
}

fn parse_primary_at(toks: &Vec<Token>, p: usize) -> (r: Result<(ExprAST, usize), SyntaxError>)
    requires
        p <= toks.len(),
    ensures
        agrees(parse_primary(toks_view(toks@), p as int), r, p as int, toks.len() as int),
    decreases toks.len() - p, 1int,
{
    let ghost t = toks_view(toks@);
    if p >= toks.len() {
        return Err(SyntaxError::UnexpectedEnd);
    }
    assert(tok_at(t, p as int) == toks@[p as int]@);
    match &toks[p] {
        Token::Number(s) => Ok((ExprAST::Number(s.clone()), p + 1)),
        Token::Identifier(name) => {
            if sym_at(toks, p + 1, '(') {
                match parse_args_at(toks, p + 2) {
                    Err(e) => Err(e),
                    Ok((args, q)) => {
                        let n = name.clone();
                        proof {
                            lemma_model_call(n, args);
                        }
                        Ok((ExprAST::Call(n, args), q))
                    },
                }
            } else {
                Ok((ExprAST::Variable(name.clone()), p + 1))
            }
        },
        Token::Char(c) => {
            if *c == '(' {
                match parse_expr_at(toks, p + 1) {
                    Err(e) => Err(e),
                    Ok((e, q)) => {
                        if sym_at(toks, q, ')') {
                            Ok((e, q + 1))
                        } else {
                            Err(missing_at(toks, q))
                        }
                    },
                }
            } else {
                Err(stray_at(toks, p))
            }
        },
        Token::If => parse_cond_at(toks, p + 1),
        _ => Err(stray_at(toks, p)),
    }
}

fn expect_keyword(toks: &Vec<Token>, p: usize, want_else: bool) -> (r: bool)
    ensures
        r == (tok_at(toks_view(toks@), p as int) == (if want_else {
            Tok::Else
        } else {
            Tok::Then
        })),
{
    if p < toks.len() {
        match &toks[p] {
            Token::Then => !want_else,
            Token::Else => want_else,
            _ => false,
        }
    } else {
        false
    }
}

fn parse_cond_at(toks: &Vec<Token>, p: usize) -> (r: Result<(ExprAST, usize), SyntaxError>)
    requires
        0 < p <= toks.len(),
    ensures
        agrees(parse_cond(toks_view(toks@), p as int), r, p as int - 1, toks.len() as int),
    decreases toks.len() - p, 4int,
{
    let c = match parse_expr_at(toks, p) {
        Err(e) => return Err(e),
        Ok(x) => x,
    };
    let (cond, q1) = c;
    if !expect_keyword(toks, q1, false) {
        return Err(missing_at(toks, q1));
    }
    let t = match parse_expr_at(toks, q1 + 1) {
        Err(e) => return Err(e),
        Ok(x) => x,
    };
    let (then_branch, q2) = t;
    if !expect_keyword(toks, q2, true) {
        return Err(missing_at(toks, q2));
    }
    let f = match parse_expr_at(toks, q2 + 1) {
        Err(e) => return Err(e),
        Ok(x) => x,
    };
    let (else_branch, q3) = f;
    Ok(
        (
            ExprAST::If {
                condition: Box::new(cond),
                then_: Box::new(then_branch),
                else_: Box::new(else_branch),
            },
            q3,
        ),
    )
}

fn parse_args_at(toks: &Vec<Token>, p: usize) -> (r: Result<(Vec<ExprAST>, usize), SyntaxError>)
    requires
        0 < p <= toks.len(),
    ensures
        agrees_list(parse_args(toks_view(toks@), p as int), r, p as int - 1, toks.len() as int),
    decreases toks.len() - p, 6int,
{
    if sym_at(toks, p, ')') {
        let v: Vec<ExprAST> = Vec::new();
        assert(models(v@) =~= Seq::<Expr>::empty());
        Ok((v, p + 1))
    } else {
        parse_arg_list_at(toks, p)
    }
}

fn parse_arg_list_at(toks: &Vec<Token>, p: usize) -> (r: Result<(Vec<ExprAST>, usize), SyntaxError>)
    requires
        0 < p <= toks.len(),
    ensures
        agrees_list(parse_arg_list(toks_view(toks@), p as int), r, p as int, toks.len() as int),
    decreases toks.len() - p, 5int,
{
    match parse_expr_at(toks, p) {
        Err(e) => Err(e),
        Ok((e, q)) => {
            let ghost m = model(e);
            if sym_at(toks, q, ')') {
                let mut v: Vec<ExprAST> = Vec::new();
                v.push(e);
                assert(models(v@) =~= seq![m]);
                Ok((v, q + 1))
            } else if sym_at(toks, q, ',') {
                match parse_arg_list_at(toks, q + 1) {
                    Err(err) => Err(err),
                    Ok((rest, r)) => {
                        let ghost rest_v = rest@;
                        let mut v = rest;
                        v.insert(0, e);
                        assert(models(v@) =~= seq![m] + models(rest_v));
                        Ok((v, r))
                    },
                }
            } else {
                Err(missing_at(toks, q))
            }
        },
    }
}

/// Parameter names after the `(` of a prototype: none, or names separated
/// by commas, then `)`.
pub open spec fn parse_params(toks: Seq<Tok>, p: int) -> Result<(Seq<Seq<char>>, int), SyntaxError>
    decreases toks.len() - p,
{
    if !(0 <= p <= toks.len()) {
        Err(SyntaxError::UnexpectedEnd)
    } else if tok_at(toks, p) == Tok::Sym(')') {
        Ok((Seq::empty(), p + 1))
    } else {
        parse_param_list(toks, p)
    }
}

pub open spec fn parse_param_list(toks: Seq<Tok>, p: int) -> Result<
    (Seq<Seq<char>>, int),
    SyntaxError,
>
    decreases toks.len() - p,
{
    if !(0 <= p <= toks.len()) {
        Err(SyntaxError::UnexpectedEnd)
    } else {
        match tok_at(toks, p) {
            Tok::Ident(n) => if tok_at(toks, p + 1) == Tok::Sym(')') {
                Ok((seq![n], p + 2))
            } else if tok_at(toks, p + 1) == Tok::Sym(',') {
                match parse_param_list(toks, p + 2) {
                    Err(e) => Err(e),
                    Ok((rest, q)) => Ok((seq![n] + rest, q)),
                }
            } else {
                Err(missing(toks, p + 1))
            },
            _ => Err(missing(toks, p)),
        }
    }
}

/// A prototype: a name, `(`, the parameters, `)`.
pub open spec fn parse_proto(toks: Seq<Tok>, p: int) -> Result<(Proto, int), SyntaxError> {
    match tok_at(toks, p) {
        Tok::Ident(name) => if tok_at(toks, p + 1) == Tok::Sym('(') {
            match parse_params(toks, p + 2) {
                Err(e) => Err(e),
                Ok((params, q)) => Ok((Proto { name, params }, q)),
            }
        } else {
            Err(missing(toks, p + 1))
        },
        _ => Err(missing(toks, p)),
    }
}

/// The top-level items from position `p` up to the end marker: `def` with a
/// prototype and a body, `extern` with a prototype, or a bare expression.
pub open spec fn parse_items(toks: Seq<Tok>, p: int) -> Result<Seq<Item>, SyntaxError>
    decreases toks.len() - p,
{
    if !(0 <= p <= toks.len()) {
        Err(SyntaxError::UnexpectedEnd)
    } else {
        match tok_at(toks, p) {
            Tok::Eof => Ok(Seq::empty()),
            Tok::Def => match parse_proto(toks, p + 1) {
                Err(e) => Err(e),
                Ok((proto, q)) => if !(p < q <= toks.len()) {
                    Err(SyntaxError::UnexpectedEnd)
                } else {
                    match parse_expr(toks, q) {
                        Err(e) => Err(e),
                        Ok((body, r)) => if !(p < r <= toks.len()) {
                            Err(SyntaxError::UnexpectedEnd)
                        } else {
                            match parse_items(toks, r) {
                                Err(e) => Err(e),
                                Ok(rest) => Ok(seq![Item::Function(proto, body)] + rest),
                            }
                        },
                    }
                },
            },
            Tok::Extern => match parse_proto(toks, p + 1) {
                Err(e) => Err(e),
                Ok((proto, q)) => if !(p < q <= toks.len()) {
                    Err(SyntaxError::UnexpectedEnd)
                } else {
                    match parse_items(toks, q) {
                        Err(e) => Err(e),
                        Ok(rest) => Ok(seq![Item::Extern(proto)] + rest),
                    }
                },
            },
            _ => match parse_expr(toks, p) {
                Err(e) => Err(e),
                Ok((e, q)) => if !(p < q <= toks.len()) {
                    Err(SyntaxError::UnexpectedEnd)
                } else {
                    match parse_items(toks, q) {
                        Err(err) => Err(err),
                        Ok(rest) => Ok(seq![Item::Expression(e)] + rest),
                    }
                },
            },
        }
    }
}

/// One expression that spans the whole token sequence up to the end marker.
pub open spec fn parse_single(toks: Seq<Tok>) -> Result<Expr, SyntaxError> {
    match parse_expr(toks, 0) {
        Err(e) => Err(e),
        Ok((e, q)) => if tok_at(toks, q) is Eof {
            Ok(e)
        } else {
            Err(SyntaxError::Expected(q as usize))
        },
    }
}

/// One function definition that spans the whole token sequence up to the
/// end marker.
pub open spec fn parse_definition(toks: Seq<Tok>) -> Result<(Proto, Expr), SyntaxError> {
    if tok_at(toks, 0) != Tok::Def {
        Err(missing(toks, 0))
    } else {
        match parse_proto(toks, 1) {
            Err(e) => Err(e),
            Ok((proto, q)) => match parse_expr(toks, q) {
                Err(e) => Err(e),
                Ok((body, r)) => if tok_at(toks, r) is Eof {
                    Ok((proto, body))
                } else {
                    Err(SyntaxError::Expected(r as usize))
                },
            },
        }
    }
}

/// The text as one expression: its tokens, or the lexical error, then the
/// expression, or the syntax error.
pub open spec fn parse_text(s: Seq<char>) -> Result<Expr, ParseError> {
    match tokenize(s) {
        Err(e) => Err(ParseError::Lexical(e)),
        Ok(t) => match parse_single(t) {
            Err(e) => Err(ParseError::Syntax(e)),
            Ok(x) => Ok(x),
        },
    }
}

/// The text as one function definition.
pub open spec fn parse_def_text(s: Seq<char>) -> Result<(Proto, Expr), ParseError> {
    match tokenize(s) {
        Err(e) => Err(ParseError::Lexical(e)),
        Ok(t) => match parse_definition(t) {
            Err(e) => Err(ParseError::Syntax(e)),
            Ok(x) => Ok(x),
        },
    }
}

/// The text as a program: a sequence of top-level items.
pub open spec fn parse_program_text(s: Seq<char>) -> Result<Seq<Item>, ParseError> {
    match tokenize(s) {
        Err(e) => Err(ParseError::Lexical(e)),
        Ok(t) => match parse_items(t, 0) {
            Err(e) => Err(ParseError::Syntax(e)),
            Ok(x) => Ok(x),
        },
    }
}

fn parse_param_list_at(toks: &Vec<Token>, p: usize) -> (r: Result<(Vec<String>, usize), SyntaxError>)
    requires
        p <= toks.len(),
    ensures
        match r {
            Ok((v, q)) => parse_param_list(toks_view(toks@), p as int) == Ok::<
                (Seq<Seq<char>>, int),
                SyntaxError,
            >((v@.map_values(|s: String| s@), q as int)) && p < q <= toks.len(),
            Err(e) => parse_param_list(toks_view(toks@), p as int) == Err::<
                (Seq<Seq<char>>, int),
                SyntaxError,
            >(e),
        },
    decreases toks.len() - p,
{
    let ghost t = toks_view(toks@);
    if p >= toks.len() {
        return Err(missing_at(toks, p));
    }
    assert(tok_at(t, p as int) == toks@[p as int]@);
    match &toks[p] {
        Token::Identifier(n) => {
            let name = n.clone();
            if sym_at(toks, p + 1, ')') {
                let mut v: Vec<String> = Vec::new();
                v.push(name);
                assert(v@.map_values(|s: String| s@) =~= seq![n@]);
                Ok((v, p + 2))
            } else if sym_at(toks, p + 1, ',') {
                match parse_param_list_at(toks, p + 2) {
                    Err(e) => Err(e),
                    Ok((rest, q)) => {
                        let ghost rest_v = rest@;
                        let mut v = rest;
                        v.insert(0, name);
                        assert(v@.map_values(|s: String| s@) =~= seq![n@] + rest_v.map_values(
                            |s: String| s@,
                        ));
                        Ok((v, q))
                    },
                }
            } else {
                Err(missing_at(toks, p + 1))
            }
        },
        _ => Err(missing_at(toks, p)),
    }
}

fn parse_proto_at(toks: &Vec<Token>, p: usize) -> (r: Result<(PrototypeAST, usize), SyntaxError>)
    requires
        p <= toks.len(),
    ensures
        match r {
            Ok((pr, q)) => parse_proto(toks_view(toks@), p as int) == Ok::<(Proto, int), SyntaxError>(
                (proto_model(pr), q as int),
            ) && p < q <= toks.len(),
            Err(e) => parse_proto(toks_view(toks@), p as int) == Err::<(Proto, int), SyntaxError>(e),
        },
{
    let ghost t = toks_view(toks@);
    if p >= toks.len() {
        return Err(missing_at(toks, p));
    }
    assert(tok_at(t, p as int) == toks@[p as int]@);
    match &toks[p] {
        Token::Identifier(n) => {
            if !sym_at(toks, p + 1, '(') {
                return Err(missing_at(toks, p + 1));
            }
            if sym_at(toks, p + 2, ')') {
                let v: Vec<String> = Vec::new();
                assert(v@.map_values(|s: String| s@) =~= Seq::<Seq<char>>::empty());
                Ok((PrototypeAST(n.clone(), v), p + 3))
            } else {
                match parse_param_list_at(toks, p + 2) {
                    Err(e) => Err(e),
                    Ok((v, q)) => Ok((PrototypeAST(n.clone(), v), q)),
                }
            }
        },
        _ => Err(missing_at(toks, p)),
    }
}

/// The top-level items of a token sequence, read up to its end marker.
pub fn parse_items_at(toks: &Vec<Token>, p: usize) -> (r: Result<Vec<TopLevel>, SyntaxError>)
    requires
        p <= toks.len(),
    ensures
        match r {
            Ok(v) => parse_items(toks_view(toks@), p as int) == Ok::<Seq<Item>, SyntaxError>(
                v@.map_values(|t: TopLevel| item_model(t)),
            ),
            Err(e) => parse_items(toks_view(toks@), p as int) == Err::<Seq<Item>, SyntaxError>(e),
        },
    decreases toks.len() - p,
{
    let ghost t = toks_view(toks@);
    if is_eof_at(toks, p) {
        let v: Vec<TopLevel> = Vec::new();
        assert(v@.map_values(|t: TopLevel| item_model(t)) =~= Seq::<Item>::empty());
        return Ok(v);
    }
    assert(tok_at(t, p as int) == toks@[p as int]@);
    let (item, next) = match &toks[p] {
        Token::Def => {
            let (proto, q) = match parse_proto_at(toks, p + 1) {
                Err(e) => return Err(e),
                Ok(x) => x,
            };
            let (body, r) = match parse_expr_at(toks, q) {
                Err(e) => return Err(e),
                Ok(x) => x,
            };
            (TopLevel::Function(FunctionAST(proto, body)), r)
        },
        Token::Extern => {
            let (proto, q) = match parse_proto_at(toks, p + 1) {
                Err(e) => return Err(e),
                Ok(x) => x,
            };
            (TopLevel::Extern(proto), q)
        },
        _ => {
            let (e, q) = match parse_expr_at(toks, p) {
                Err(e) => return Err(e),
                Ok(x) => x,
            };
            (TopLevel::Expression(e), q)
        },
    };
    match parse_items_at(toks, next) {
        Err(e) => Err(e),
        Ok(rest) => {
            let ghost rest_v = rest@;
            let ghost m = item_model(item);
            let mut v = rest;
            v.insert(0, item);
            assert(v@.map_values(|t: TopLevel| item_model(t)) =~= seq![m] + rest_v.map_values(
                |t: TopLevel| item_model(t),
            ));
            Ok(v)
        },
    }
}

/// Parses text that holds exactly one expression.
pub fn parse(input: &str) -> (r: Result<ExprAST, ParseError>)
    ensures
        match r {
            Ok(e) => parse_text(input@) == Ok::<Expr, ParseError>(model(e)),
            Err(err) => parse_text(input@) == Err::<Expr, ParseError>(err),
        },
{
    let toks = match gettok(input) {
        Err(e) => return Err(ParseError::Lexical(e)),
        Ok(t) => t,
    };
    match parse_expr_at(&toks, 0) {
        Err(e) => Err(ParseError::Syntax(e)),
        Ok((e, q)) => {
            if is_eof_at(&toks, q) {
                Ok(e)
            } else {
                Err(ParseError::Syntax(SyntaxError::Expected(q)))
            }
        },
    }
}

/// Parses text that holds exactly one function definition: `def`, a
/// prototype and a body expression.
pub fn parse_def(input: &str) -> (r: Result<FunctionAST, ParseError>)
    ensures
        match r {
            Ok(f) => parse_def_text(input@) == Ok::<(Proto, Expr), ParseError>(
                (proto_model(f.0), model(f.1)),
            ),
            Err(err) => parse_def_text(input@) == Err::<(Proto, Expr), ParseError>(err),
        },
{
    let toks = match gettok(input) {
        Err(e) => return Err(ParseError::Lexical(e)),
        Ok(t) => t,
    };
    let ghost t = toks_view(toks@);
    let is_def = toks.len() > 0 && match &toks[0] {
        Token::Def => true,
        _ => false,
    };
    if !is_def {
        return Err(ParseError::Syntax(missing_at(&toks, 0)));
    }
    let (proto, q) = match parse_proto_at(&toks, 1) {
        Err(e) => return Err(ParseError::Syntax(e)),
        Ok(x) => x,
    };
    let (body, r) = match parse_expr_at(&toks, q) {
        Err(e) => return Err(ParseError::Syntax(e)),
        Ok(x) => x,
    };
    if is_eof_at(&toks, r) {
        Ok(FunctionAST(proto, body))
    } else {
        Err(ParseError::Syntax(SyntaxError::Expected(r)))
    }
}

/// Parses a program: `def` definitions, `extern` declarations and bare
/// expressions, up to the end of the text. Stops at the first error.
pub fn parse_program(input: &str) -> (r: Result<Vec<TopLevel>, ParseError>)
    ensures
        match r {
            Ok(v) => parse_program_text(input@) == Ok::<Seq<Item>, ParseError>(
                v@.map_values(|t: TopLevel| item_model(t)),
            ),
            Err(err) => parse_program_text(input@) == Err::<Seq<Item>, ParseError>(err),
        },
{
    let toks = match gettok(input) {
        Err(e) => return Err(ParseError::Lexical(e)),
        Ok(t) => t,
    };
    match parse_items_at(&toks, 0) {
        Err(e) => Err(ParseError::Syntax(e)),
        Ok(v) => Ok(v),
    }
}

} // verus!
