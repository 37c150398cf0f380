use kaleidoscope::lexer::{gettok, match_to_keyword_or_ident, LexError, Token};

fn ident(s: &str) -> Token {
    Token::Identifier(s.to_string())
}

fn number_value(t: &Token) -> f64 {
    match t {
        Token::Number(s) => s.parse::<f64>().unwrap(),
        other => panic!("not a number token: {:?}", other),
    }
}

#[test]
fn test_identifier() {
    assert_eq!(
        vec![ident("a"), ident("b"), ident("c"), Token::Eof],
        gettok("a b c").unwrap()
    );
}

#[test]
fn test_keywords() {
    assert_eq!(vec![Token::Def, Token::Extern, Token::Eof], gettok("def extern").unwrap());
}

#[test]
fn test_number() {
    let toks = gettok("12.34").unwrap();
    assert_eq!(toks.len(), 2);
    assert_eq!(number_value(&toks[0]), 12.34f64);
    assert_eq!(toks[1], Token::Eof);

    let toks = gettok("1.0 2.0 3.0").unwrap();
    assert_eq!(toks.len(), 4);
    assert_eq!(number_value(&toks[0]), 1.0f64);
    assert_eq!(number_value(&toks[1]), 2.0f64);
    assert_eq!(number_value(&toks[2]), 3.0f64);
    assert_eq!(toks[3], Token::Eof);

    assert_eq!(gettok("12.12.12"), Err(LexError::ExtraDecimalPoint(5)));
}

#[test]
fn test_comment() {
    assert_eq!(vec![Token::Eof], gettok("      # asdjhtasldk alsdkhjf;l ").unwrap());
    let toks = gettok("abc # my comment to end \n 3.14").unwrap();
    assert_eq!(toks.len(), 3);
    assert_eq!(toks[0], ident("abc"));
    assert_eq!(number_value(&toks[1]), 3.14f64);
    assert_eq!(toks[2], Token::Eof);
    assert_eq!(vec![Token::Def, Token::Eof], gettok("def#extern").unwrap());
}

#[test]
fn test_chars() {
    assert_eq!(
        vec![
            ident("a"),
            Token::Char('+'),
            ident("b"),
            Token::Char('-'),
            ident("c"),
            Token::Eof
        ],
        gettok("a+b-c").unwrap()
    );
}

#[test]
fn test_whitespaces() {
    assert_eq!(
        vec![
            Token::Char('+'),
            ident("a"),
            ident("b"),
            ident("c"),
            Token::Char('!'),
            Token::Eof
        ],
        gettok("           +a   b      c!").unwrap()
    );
}

#[test]
fn test_control_flow() {
    assert_eq!(
        vec![Token::If, Token::Then, Token::Else, Token::Eof],
        gettok("  if then # \r else ").unwrap()
    );
}

#[test]
fn test_loops() {
    assert_eq!(
        vec![Token::For, ident("Word"), Token::In, Token::Eof],
        gettok("  for Word in ").unwrap()
    );
}

#[test]
fn number_text_is_kept() {
    assert_eq!(
        gettok("12.34").unwrap(),
        vec![Token::Number("12.34".to_string()), Token::Eof]
    );
}

#[test]
fn empty_text_gives_only_the_end_marker() {
    assert_eq!(gettok("").unwrap(), vec![Token::Eof]);
    assert_eq!(gettok(" \t\n\r").unwrap(), vec![Token::Eof]);
}

#[test]
fn identifiers_with_mixed_whitespace() {
    assert_eq!(
        gettok("\tfoo  x1\n\nBar9 ").unwrap(),
        vec![ident("foo"), ident("x1"), ident("Bar9"), Token::Eof]
    );
}

#[test]
fn rendered_tokens_scan_back() {
    let toks = vec![
        Token::Def,
        ident("f"),
        Token::Char('('),
        ident("x"),
        Token::Char(')'),
        Token::Number("2.5".to_string()),
        Token::Char('*'),
        ident("x"),
        Token::In,
    ];
    let mut text = String::new();
    for t in &toks {
        let piece = match t {
            Token::Def => "def".to_string(),
            Token::In => "in".to_string(),
            Token::Identifier(s) | Token::Number(s) => s.clone(),
            Token::Char(c) => c.to_string(),
            other => panic!("unexpected token {:?}", other),
        };
        text.push_str(&piece);
        text.push(' ');
    }
    let mut expected = toks.clone();
    expected.push(Token::Eof);
    assert_eq!(gettok(&text).unwrap(), expected);
}

#[test]
fn letter_after_digits_is_an_error() {
    assert_eq!(gettok("x 12abc"), Err(LexError::LetterInNumber(4)));
}

#[test]
fn comment_ends_a_pending_number() {
    assert_eq!(
        gettok("7#c\nx").unwrap(),
        vec![Token::Number("7".to_string()), ident("x"), Token::Eof]
    );
}

#[test]
fn symbol_after_number_and_word() {
    assert_eq!(
        gettok("a+1*b2").unwrap(),
        vec![
            ident("a"),
            Token::Char('+'),
            Token::Number("1".to_string()),
            Token::Char('*'),
            ident("b2"),
            Token::Eof
        ]
    );
}

#[test]
fn keyword_resolution_is_exact() {
    assert_eq!(match_to_keyword_or_ident(&vec!['d', 'e', 'f']), Token::Def);
    assert_eq!(match_to_keyword_or_ident(&vec!['t', 'h', 'e', 'n']), Token::Then);
    assert_eq!(match_to_keyword_or_ident(&vec!['D', 'e', 'f']), ident("Def"));
    assert_eq!(match_to_keyword_or_ident(&vec!['i', 'n', 's']), ident("ins"));
}
