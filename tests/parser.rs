use kaleidoscope::ast::{ExprAST, FunctionAST, PrototypeAST, TopLevel};
use kaleidoscope::lexer::{gettok, LexError};
use kaleidoscope::parser::{parse, parse_def, parse_items_at, parse_program, ParseError, SyntaxError};

fn var(s: &str) -> ExprAST {
    ExprAST::Variable(s.to_string())
}

fn num(s: &str) -> ExprAST {
    ExprAST::Number(s.to_string())
}

fn bin(op: char, l: ExprAST, r: ExprAST) -> ExprAST {
    ExprAST::Binary(op, Box::new(l), Box::new(r))
}

fn number_value(e: &ExprAST) -> f64 {
    match e {
        ExprAST::Number(s) => s.parse::<f64>().unwrap(),
        other => panic!("not a number: {:?}", other),
    }
}

#[test]
fn parse_number() {
    let e = parse("12.34").unwrap();
    assert_eq!(number_value(&e), 12.34f64);
}

#[test]
fn parse_variable() {
    assert_eq!(parse("foo"), Ok(var("foo")));
}

#[test]
fn parse_if() {
    match parse("if 1 then 2 else 3").unwrap() {
        ExprAST::If { condition, then_, else_ } => {
            assert_eq!(number_value(&condition), 1f64);
            assert_eq!(number_value(&then_), 2f64);
            assert_eq!(number_value(&else_), 3f64);
        }
        other => panic!("not a conditional: {:?}", other),
    }

    match parse("if foo() then bar(2) else toast(3.14)").unwrap() {
        ExprAST::If { condition, then_, else_ } => {
            assert_eq!(*condition, ExprAST::Call("foo".into(), vec![]));
            match *then_ {
                ExprAST::Call(name, args) => {
                    assert_eq!(name, "bar");
                    assert_eq!(args.len(), 1);
                    assert_eq!(number_value(&args[0]), 2f64);
                }
                other => panic!("not a call: {:?}", other),
            }
            match *else_ {
                ExprAST::Call(name, args) => {
                    assert_eq!(name, "toast");
                    assert_eq!(args.len(), 1);
                    assert_eq!(number_value(&args[0]), 3.14f64);
                }
                other => panic!("not a call: {:?}", other),
            }
        }
        other => panic!("not a conditional: {:?}", other),
    }
}

#[test]
fn parse_binary_add_over_sub() {
    let binexpr_abc = bin('-', bin('+', var("a"), var("b")), var("c"));
    assert_eq!(parse("a + b - c"), Ok(binexpr_abc));
}

#[test]
fn parse_binary_mul_over_add() {
    let binexpr_abc = bin('+', var("a"), bin('*', var("b"), var("c")));
    assert_eq!(parse("a + b * c"), Ok(binexpr_abc));
}

#[test]
fn parse_function() {
    let fun_body = bin('+', var("a"), var("b"));
    assert_eq!(
        parse_def("def add(a,b) a + b"),
        Ok(FunctionAST(
            PrototypeAST("add".into(), vec!["a".into(), "b".into()]),
            fun_body
        ))
    );
}

#[test]
fn mul_before_add_on_the_left() {
    assert_eq!(parse("a * b + c"), Ok(bin('+', bin('*', var("a"), var("b")), var("c"))));
}

#[test]
fn equal_precedence_groups_left() {
    assert_eq!(
        parse("a / b * c - d + e"),
        Ok(bin(
            '+',
            bin('-', bin('*', bin('/', var("a"), var("b")), var("c")), var("d")),
            var("e")
        ))
    );
}

#[test]
fn parentheses_group_without_a_node() {
    assert_eq!(parse("(a + b) * c"), Ok(bin('*', bin('+', var("a"), var("b")), var("c"))));
    assert_eq!(parse("((x))"), Ok(var("x")));
}

#[test]
fn call_with_expression_arguments() {
    assert_eq!(
        parse("f(x, y + 1, g())"),
        Ok(ExprAST::Call(
            "f".into(),
            vec![
                var("x"),
                bin('+', var("y"), num("1")),
                ExprAST::Call("g".into(), vec![])
            ]
        ))
    );
}

#[test]
fn missing_else_is_a_syntax_error() {
    assert_eq!(parse("if 1 then 2"), Err(ParseError::Syntax(SyntaxError::UnexpectedEnd)));
    assert_eq!(parse("if 1 then 2 3"), Err(ParseError::Syntax(SyntaxError::Expected(4))));
}

#[test]
fn missing_then_is_a_syntax_error() {
    assert_eq!(parse("if 1 2 else 3"), Err(ParseError::Syntax(SyntaxError::Expected(2))));
}

#[test]
fn unexpected_token_in_primary_position() {
    assert_eq!(parse("+ a"), Err(ParseError::Syntax(SyntaxError::UnexpectedToken(0))));
    assert_eq!(parse("a * then"), Err(ParseError::Syntax(SyntaxError::UnexpectedToken(2))));
}

#[test]
fn input_ending_early() {
    assert_eq!(parse("a +"), Err(ParseError::Syntax(SyntaxError::UnexpectedEnd)));
    assert_eq!(parse("(a"), Err(ParseError::Syntax(SyntaxError::UnexpectedEnd)));
    assert_eq!(parse(""), Err(ParseError::Syntax(SyntaxError::UnexpectedEnd)));
}

#[test]
fn trailing_tokens_are_rejected() {
    assert_eq!(parse("a b"), Err(ParseError::Syntax(SyntaxError::Expected(1))));
}

#[test]
fn lexical_errors_pass_through() {
    assert_eq!(
        parse("12.12.12"),
        Err(ParseError::Lexical(LexError::ExtraDecimalPoint(5)))
    );
}

#[test]
fn definition_errors() {
    assert_eq!(parse_def("add(a) a"), Err(ParseError::Syntax(SyntaxError::Expected(0))));
    assert_eq!(parse_def("def add a"), Err(ParseError::Syntax(SyntaxError::Expected(2))));
    assert_eq!(parse_def("def add(a b) a"), Err(ParseError::Syntax(SyntaxError::Expected(4))));
    assert_eq!(parse_def("def add(a,) a"), Err(ParseError::Syntax(SyntaxError::Expected(5))));
}

#[test]
fn definition_without_parameters() {
    assert_eq!(
        parse_def("def one() 1"),
        Ok(FunctionAST(PrototypeAST("one".into(), vec![]), num("1")))
    );
}

#[test]
fn program_of_definitions_externs_and_expressions() {
    let items = parse_program("extern sin(x) def sq(x) x * x sq(3)").unwrap();
    assert_eq!(
        items,
        vec![
            TopLevel::Extern(PrototypeAST("sin".into(), vec!["x".into()])),
            TopLevel::Function(FunctionAST(
                PrototypeAST("sq".into(), vec!["x".into()]),
                bin('*', var("x"), var("x"))
            )),
            TopLevel::Expression(ExprAST::Call("sq".into(), vec![num("3")])),
        ]
    );
    assert_eq!(parse_program("  # nothing here").unwrap(), vec![]);
}

#[test]
fn program_stops_at_first_error() {
    assert_eq!(
        parse_program("def f(x) x extern"),
        Err(ParseError::Syntax(SyntaxError::UnexpectedEnd))
    );
    assert_eq!(
        parse_program("for x in y"),
        Err(ParseError::Syntax(SyntaxError::UnexpectedToken(0)))
    );
}

#[test]
fn items_from_a_token_sequence() {
    let toks = gettok("x + 1").unwrap();
    assert_eq!(
        parse_items_at(&toks, 0),
        Ok(vec![TopLevel::Expression(bin('+', var("x"), num("1")))])
    );
}
