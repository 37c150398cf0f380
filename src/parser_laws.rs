//! Laws of the parser: how operator precedence and associativity shape the
//! tree of a chain of two binary operators.
use vstd::prelude::*;
use crate::ast::Expr;
use crate::lexer::{tokenize, LexError, Tok};
use crate::lexer_laws::{is_identifier, is_renderable, lemma_render_tokenize, render};
use crate::parser::{
    parse_binop_rhs, parse_expr, parse_primary, parse_single, parse_text, precedence, tok_at,
    tok_prec, ParseError,
};

verus! {

/// The tokens of `a o1 b o2 c`, then the end marker.
pub open spec fn chain(a: Seq<char>, o1: char, b: Seq<char>, o2: char, c: Seq<char>) -> Seq<Tok> {
    seq![Tok::Ident(a), Tok::Sym(o1), Tok::Ident(b), Tok::Sym(o2), Tok::Ident(c), Tok::Eof]
}

pub open spec fn bin(op: char, l: Expr, r: Expr) -> Expr {
    Expr::Bin(op, Box::new(l), Box::new(r))
}

/// For variables `a`, `b`, `c` and binary operators `o1`, `o2`: where `o2`
/// binds more tightly than `o1`, `a o1 b o2 c` groups as `a o1 (b o2 c)`;
/// otherwise, equal binding included, it groups to the left as
/// `(a o1 b) o2 c`.
pub proof fn lemma_two_operators(a: Seq<char>, o1: char, b: Seq<char>, o2: char, c: Seq<char>)
    requires
        precedence(o1) >= 0,
        precedence(o2) >= 0,
    ensures
        parse_single(chain(a, o1, b, o2, c)) == Ok::<Expr, crate::parser::SyntaxError>(
            if precedence(o1) < precedence(o2) {
                bin(o1, Expr::Var(a), bin(o2, Expr::Var(b), Expr::Var(c)))
            } else {
                bin(o2, bin(o1, Expr::Var(a), Expr::Var(b)), Expr::Var(c))
            },
        ),
{
    let t = chain(a, o1, b, o2, c);
    assert(tok_at(t, 0) == Tok::Ident(a));
    assert(tok_at(t, 1) == Tok::Sym(o1));
    assert(tok_at(t, 2) == Tok::Ident(b));
    assert(tok_at(t, 3) == Tok::Sym(o2));
    assert(tok_at(t, 4) == Tok::Ident(c));
    assert(tok_at(t, 5) == Tok::Eof);
    assert(tok_prec(t, 5) == -1);
    assert(parse_primary(t, 0) == Ok::<(Expr, int), crate::parser::SyntaxError>((Expr::Var(a), 1)));
    assert(parse_primary(t, 2) == Ok::<(Expr, int), crate::parser::SyntaxError>((Expr::Var(b), 3)));
    assert(parse_primary(t, 4) == Ok::<(Expr, int), crate::parser::SyntaxError>((Expr::Var(c), 5)));
    let va = Expr::Var(a);
    let vb = Expr::Var(b);
    let vc = Expr::Var(c);
    if precedence(o1) < precedence(o2) {
        let p1 = precedence(o1);
        assert(parse_binop_rhs(t, p1 + 1, bin(o2, vb, vc), 5) == Ok::<
            (Expr, int),
            crate::parser::SyntaxError,
        >((bin(o2, vb, vc), 5)));
        assert(parse_binop_rhs(t, p1 + 1, vb, 3) == Ok::<(Expr, int), crate::parser::SyntaxError>(
            (bin(o2, vb, vc), 5),
        ));
        let whole = bin(o1, va, bin(o2, vb, vc));
        assert(parse_binop_rhs(t, 0, whole, 5) == Ok::<(Expr, int), crate::parser::SyntaxError>(
            (whole, 5),
        ));
        assert(parse_binop_rhs(t, 0, va, 1) == Ok::<(Expr, int), crate::parser::SyntaxError>(
            (whole, 5),
        ));
    } else {
        let left = bin(o1, va, vb);
        let whole = bin(o2, left, vc);
        assert(parse_binop_rhs(t, 0, whole, 5) == Ok::<(Expr, int), crate::parser::SyntaxError>(
            (whole, 5),
        ));
        assert(parse_binop_rhs(t, 0, left, 3) == Ok::<(Expr, int), crate::parser::SyntaxError>(
            (whole, 5),
        ));
        assert(parse_binop_rhs(t, 0, va, 1) == Ok::<(Expr, int), crate::parser::SyntaxError>(
            (whole, 5),
        ));
    }
    assert(parse_expr(t, 0) == parse_binop_rhs(t, 0, va, 1));
}

/// The same law on source text: `a o1 b o2 c`, each token followed by a
/// space, parses to the tree that the binding of the two operators gives.
pub proof fn lemma_two_operators_text(
    a: Seq<char>,
    o1: char,
    b: Seq<char>,
    o2: char,
    c: Seq<char>,
)
    requires
        is_identifier(a),
        is_identifier(b),
        is_identifier(c),
        precedence(o1) >= 0,
        precedence(o2) >= 0,
    ensures
        parse_text(
            render(seq![Tok::Ident(a), Tok::Sym(o1), Tok::Ident(b), Tok::Sym(o2), Tok::Ident(c)]),
        ) == Ok::<Expr, ParseError>(
            if precedence(o1) < precedence(o2) {
                bin(o1, Expr::Var(a), bin(o2, Expr::Var(b), Expr::Var(c)))
            } else {
                bin(o2, bin(o1, Expr::Var(a), Expr::Var(b)), Expr::Var(c))
            },
        ),
{
    let toks = seq![Tok::Ident(a), Tok::Sym(o1), Tok::Ident(b), Tok::Sym(o2), Tok::Ident(c)];
    assert forall|i: int| 0 <= i < toks.len() implies is_renderable(#[trigger] toks[i]) by {}
    lemma_render_tokenize(toks);
    assert(toks.push(Tok::Eof) =~= chain(a, o1, b, o2, c));
    assert(tokenize(render(toks)) == Ok::<Seq<Tok>, LexError>(chain(a, o1, b, o2, c)));
    lemma_two_operators(a, o1, b, o2, c);
}

} // verus!
