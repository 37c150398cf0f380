//! The abstract syntax tree: expressions, prototypes, function definitions
//! and top-level items, each with its mathematical model.
use vstd::prelude::*;

verus! {

/// An expression. A numeric literal keeps its source text.
#[derive(Debug, PartialEq)]
pub enum ExprAST {
    Number(String),
    Variable(String),
    Binary(char, Box<ExprAST>, Box<ExprAST>),
    Call(String, Vec<ExprAST>),
    If { condition: Box<ExprAST>, then_: Box<ExprAST>, else_: Box<ExprAST> },
}

/// The model of an expression: names and literals are character sequences.
pub enum Expr {
    Num(Seq<char>),
    Var(Seq<char>),
    Bin(char, Box<Expr>, Box<Expr>),
    Call(Seq<char>, Seq<Expr>),
    Cond(Box<Expr>, Box<Expr>, Box<Expr>),
}

/// The model of an expression tree.
pub open spec fn model(e: ExprAST) -> Expr
    decreases e,
{
    match e {
        ExprAST::Number(s) => Expr::Num(s@),
        ExprAST::Variable(s) => Expr::Var(s@),
        ExprAST::Binary(op, l, r) => Expr::Bin(op, Box::new(model(*l)), Box::new(model(*r))),
        ExprAST::Call(name, args) => Expr::Call(
            name@,
            Seq::new(
                args.len() as nat,
                |i: int|
                    if 0 <= i < args.len() {
                        model(args[i])
                    } else {
                        Expr::Num(Seq::empty())
                    },
            ),
        ),
        ExprAST::If { condition, then_, else_ } => Expr::Cond(
            Box::new(model(*condition)),
            Box::new(model(*then_)),
            Box::new(model(*else_)),
        ),
    }
}

/// The models of a sequence of expressions.
pub open spec fn models(v: Seq<ExprAST>) -> Seq<Expr> {
    Seq::new(v.len(), |i: int| model(v[i]))
}

pub proof fn lemma_model_call(name: String, args: Vec<ExprAST>)
    ensures
        model(ExprAST::Call(name, args)) == Expr::Call(name@, models(args@)),
{
    let e = ExprAST::Call(name, args);
    let m = model(e);
    assert(m->Call_1.len() == args.len());
    assert forall|i: int| 0 <= i < args.len() implies m->Call_1[i] == models(args@)[i] by {
        assert(args[i] == args@[i]);
    }
    assert(m->Call_1 =~= models(args@));
}

/// A function signature: a name and its parameter names.
#[derive(Debug, PartialEq, Clone)]
pub struct PrototypeAST(pub String, pub Vec<String>);

/// The model of a prototype.
pub struct Proto {
    pub name: Seq<char>,
    pub params: Seq<Seq<char>>,
}

pub open spec fn proto_model(p: PrototypeAST) -> Proto {
    Proto { name: p.0@, params: p.1@.map_values(|s: String| s@) }
}

/// A function definition: a prototype and a single body expression.
#[derive(Debug, PartialEq)]
pub struct FunctionAST(pub PrototypeAST, pub ExprAST);

/// One item of a program. A bare expression at the top level is kept as an
/// item of its own kind, not wrapped in an anonymous function.
#[derive(Debug, PartialEq)]
pub enum TopLevel {
    Function(FunctionAST),
    Extern(PrototypeAST),
    Expression(ExprAST),
}

/// The model of a top-level item.
pub enum Item {
    Function(Proto, Expr),
    Extern(Proto),
    Expression(Expr),
}

pub open spec fn item_model(t: TopLevel) -> Item {
    match t {
        TopLevel::Function(f) => Item::Function(proto_model(f.0), model(f.1)),
        TopLevel::Extern(p) => Item::Extern(proto_model(p)),
        TopLevel::Expression(e) => Item::Expression(model(e)),
    }
}

} // verus!
