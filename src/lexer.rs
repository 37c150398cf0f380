//! The lexer: a single pass over the characters of the source text, driven by
//! a small state machine whose transitions are stated by `step`.
use vstd::prelude::*;

verus! {

/// One lexical unit. A numeric literal keeps its source text: a run of
/// decimal digits with at most one decimal point, starting with a digit.
#[derive(Debug, PartialEq, Clone)]
pub enum Token {
    Eof,
    Def,
    Extern,
    Identifier(String),
    Number(String),
    Char(char),
    If,
    Then,
    Else,
    For,
    In,
}

/// The mathematical model of a token: texts are character sequences.
pub enum Tok {
    Eof,
    Def,
    Extern,
    Ident(Seq<char>),
    Num(Seq<char>),
    Sym(char),
    If,
    Then,
    Else,
    For,
    In,
}

impl View for Token {
    type V = Tok;

    open spec fn view(&self) -> Tok {
        match self {
            Token::Eof => Tok::Eof,
            Token::Def => Tok::Def,
            Token::Extern => Tok::Extern,
            Token::Identifier(s) => Tok::Ident(s@),
            Token::Number(s) => Tok::Num(s@),
            Token::Char(c) => Tok::Sym(*c),
            Token::If => Tok::If,
            Token::Then => Tok::Then,
            Token::Else => Tok::Else,
            Token::For => Tok::For,
            Token::In => Tok::In,
        }
    }
}

/// The models of a sequence of tokens.
pub open spec fn toks_view(v: Seq<Token>) -> Seq<Tok> {
    v.map_values(|t: Token| t@)
}

/// Why the text could not be split into tokens; each carries the index of
/// the offending character.
#[derive(Debug, PartialEq, Eq, Clone, Copy, Structural)]
pub enum LexError {
    /// A second decimal point inside one numeric literal.
    ExtraDecimalPoint(usize),
    /// A letter directly after the digits of a numeric literal.
    LetterInNumber(usize),
}

/// What the scanner is accumulating.
#[derive(Debug, PartialEq, Eq, Clone, Copy, Structural)]
pub enum Mode {
    Blank,
    Word,
    Digits,
    Comment,
}

/// The scanner's state: tokens emitted so far, the mode, the pending
/// characters of a word or a literal, and whether that literal holds a point.
pub struct Scan {
    pub toks: Seq<Tok>,
    pub mode: Mode,
    pub buf: Seq<char>,
    pub dot: bool,
}

pub open spec fn is_blank(c: char) -> bool {
    c == ' ' || c == '\t' || c == '\n' || c == '\r' || c == '\x0C'
}

pub open spec fn is_letter(c: char) -> bool {
    ('a' <= c && c <= 'z') || ('A' <= c && c <= 'Z')
}

pub open spec fn is_digit(c: char) -> bool {
    '0' <= c && c <= '9'
}

/// The token for a completed word: a keyword, or else an identifier.
pub open spec fn word_token(w: Seq<char>) -> Tok {
    if w == seq!['d', 'e', 'f'] {
        Tok::Def
    } else if w == seq!['e', 'x', 't', 'e', 'r', 'n'] {
        Tok::Extern
    } else if w == seq!['i', 'f'] {
        Tok::If
    } else if w == seq!['t', 'h', 'e', 'n'] {
        Tok::Then
    } else if w == seq!['e', 'l', 's', 'e'] {
        Tok::Else
    } else if w == seq!['f', 'o', 'r'] {
        Tok::For
    } else if w == seq!['i', 'n'] {
        Tok::In
    } else {
        Tok::Ident(w)
    }
}

pub open spec fn is_keyword(w: Seq<char>) -> bool {
    !(word_token(w) is Ident)
}

pub open spec fn blank(toks: Seq<Tok>) -> Scan {
    Scan { toks, mode: Mode::Blank, buf: Seq::empty(), dot: false }
}

/// The tokens after the pending word or literal, if any, is emitted.
pub open spec fn flush(st: Scan) -> Seq<Tok> {
    match st.mode {
        Mode::Word => st.toks.push(word_token(st.buf)),
        Mode::Digits => st.toks.push(Tok::Num(st.buf)),
        _ => st.toks,
    }
}

/// The state after a character that is neither a letter nor a digit, once
/// nothing is pending: whitespace is skipped, `#` opens a comment, and any
/// other character is a symbol token.
pub open spec fn settle(toks: Seq<Tok>, c: char) -> Scan {
    if is_blank(c) {
        blank(toks)
    } else if c == '#' {
        Scan { toks, mode: Mode::Comment, buf: Seq::empty(), dot: false }
    } else {
        blank(toks.push(Tok::Sym(c)))
    }
}

/// One transition of the scanner on the character `c` at index `i`.
pub open spec fn step(st: Scan, c: char, i: int) -> Result<Scan, LexError> {
    match st.mode {
        Mode::Blank => if is_letter(c) {
            Ok(Scan { toks: st.toks, mode: Mode::Word, buf: seq![c], dot: false })
        } else if is_digit(c) {
            Ok(Scan { toks: st.toks, mode: Mode::Digits, buf: seq![c], dot: false })
        } else {
            Ok(settle(st.toks, c))
        },
        Mode::Word => if is_letter(c) || is_digit(c) {
            Ok(Scan { toks: st.toks, mode: Mode::Word, buf: st.buf.push(c), dot: false })
        } else {
            Ok(settle(flush(st), c))
        },
        Mode::Digits => if is_digit(c) {
            Ok(Scan { toks: st.toks, mode: Mode::Digits, buf: st.buf.push(c), dot: st.dot })
        } else if c == '.' {
            if st.dot {
                Err(LexError::ExtraDecimalPoint(i as usize))
            } else {
                Ok(Scan { toks: st.toks, mode: Mode::Digits, buf: st.buf.push(c), dot: true })
            }
        } else if is_letter(c) {
            Err(LexError::LetterInNumber(i as usize))
        } else {
            Ok(settle(flush(st), c))
        },
        Mode::Comment => if c == '\n' || c == '\r' {
            Ok(blank(st.toks))
        } else {
            Ok(st)
        },
    }
}

/// The scanner's state after the characters `s`, read from the start, or
/// the first error met.
pub open spec fn scan(s: Seq<char>) -> Result<Scan, LexError>
    decreases s.len(),
{
    if s.len() == 0 {
        Ok(blank(Seq::empty()))
    } else {
        match scan(s.drop_last()) {
            Ok(st) => step(st, s.last(), s.len() - 1),
            Err(e) => Err(e),
        }
    }
}

/// The tokens of the text `s`, ended by `Eof`, or the first lexical error.
pub open spec fn tokenize(s: Seq<char>) -> Result<Seq<Tok>, LexError> {
    match scan(s) {
        Ok(st) => Ok(flush(st).push(Tok::Eof)),
        Err(e) => Err(e),
    }
}

proof fn lemma_toks_view_push(v: Seq<Token>, t: Token)
    ensures
        toks_view(v.push(t)) == toks_view(v).push(t@),
{
    assert(toks_view(v.push(t)) =~= toks_view(v).push(t@));
}

/// Once the scanner has failed on a prefix, it fails on the whole text with
/// the same error.
proof fn lemma_scan_err_persists(s: Seq<char>, k: int, e: LexError)
    requires
        0 <= k <= s.len(),
        scan(s.take(k)) == Err::<Scan, LexError>(e),
    ensures
        scan(s) == Err::<Scan, LexError>(e),
    decreases s.len() - k,
{
    if k < s.len() {
        assert(s.take(k + 1).drop_last() =~= s.take(k));
        lemma_scan_err_persists(s, k + 1, e);
    } else {
        assert(s.take(k) =~= s);
    }
}

/// Relies on str::chars: the characters of the text, in order.
#[verifier::external_body]
fn chars_of(s: &str) -> (r: Vec<char>)
    ensures
        r@ == s@,
{
    s.chars().collect()
}

/// Relies on String's FromIterator<char>: the text made of these characters.
#[verifier::external_body]
fn string_of(v: &Vec<char>) -> (r: String)
    ensures
        r@ == v@,
{
    v.iter().collect()
}

fn blank_char(c: char) -> (r: bool)
    ensures
        r == is_blank(c),
{
    c == ' ' || c == '\t' || c == '\n' || c == '\r' || c == '\x0C'
}

fn letter_char(c: char) -> (r: bool)
    ensures
        r == is_letter(c),
{
    ('a' <= c && c <= 'z') || ('A' <= c && c <= 'Z')
}

fn digit_char(c: char) -> (r: bool)
    ensures
        r == is_digit(c),
{
    '0' <= c && c <= '9'
}

fn same_chars(a: &Vec<char>, b: &Vec<char>) -> (r: bool)
    ensures
        r == (a@ == b@),
{
    if a.len() != b.len() {
        return false;
    }
    let mut i: usize = 0;
    while i < a.len()
        invariant
            a.len() == b.len(),
            0 <= i <= a.len(),
            forall|j: int| 0 <= j < i ==> a@[j] == b@[j],
        decreases a.len() - i,
    {
        if a[i] != b[i] {
            return false;
        }
        i = i + 1;
    }
    assert(a@ =~= b@);
    true
}

/// The token for a completed word: one of the keywords `def`, `extern`,
/// `if`, `then`, `else`, `for`, `in` (matched exactly), or an identifier.
pub fn match_to_keyword_or_ident(word: &Vec<char>) -> (r: Token)
    ensures
        r@ == word_token(word@),
{
    if same_chars(word, &vec!['d', 'e', 'f']) {
        Token::Def
    } else if same_chars(word, &vec!['e', 'x', 't', 'e', 'r', 'n']) {
        Token::Extern
    } else if same_chars(word, &vec!['i', 'f']) {
        Token::If
    } else if same_chars(word, &vec!['t', 'h', 'e', 'n']) {
        Token::Then
    } else if same_chars(word, &vec!['e', 'l', 's', 'e']) {
        Token::Else
    } else if same_chars(word, &vec!['f', 'o', 'r']) {
        Token::For
    } else if same_chars(word, &vec!['i', 'n']) {
        Token::In
    } else {
        Token::Identifier(string_of(word))
    }
}

fn push_pending(toks: &mut Vec<Token>, mode: Mode, buf: &Vec<char>)
    ensures
        toks_view(final(toks)@) == flush(
            Scan { toks: toks_view(old(toks)@), mode, buf: buf@, dot: false },
        ),
{
    let ghost before = toks@;
    match mode {
        Mode::Word => toks.push(match_to_keyword_or_ident(buf)),
        Mode::Digits => toks.push(Token::Number(string_of(buf))),
        _ => {},
    }
    assert(toks_view(toks@) =~= flush(
        Scan { toks: toks_view(before), mode, buf: buf@, dot: false },
    ));
}

/// Splits the source text into tokens, ended by `Token::Eof`. Fails on a
/// numeric literal with a second decimal point or with a letter right after
/// its digits.
pub fn gettok(raw_text: &str) -> (r: Result<Vec<Token>, LexError>)
    ensures
        match r {
            Ok(v) => tokenize(raw_text@) == Ok::<Seq<Tok>, LexError>(toks_view(v@)),
            Err(e) => tokenize(raw_text@) == Err::<Seq<Tok>, LexError>(e),
        },
{
    let text = chars_of(raw_text);
    let mut toks: Vec<Token> = Vec::new();
    let mut buf: Vec<char> = Vec::new();
    let mut mode = Mode::Blank;
    let mut dot = false;
    let mut i: usize = 0;
    assert(text@.take(0) =~= Seq::<char>::empty());
    assert(toks_view(toks@) =~= Seq::<Tok>::empty());
    while i < text.len()
        invariant
            text@ == raw_text@,
            0 <= i <= text.len(),
            scan(text@.take(i as int)) == Ok::<Scan, LexError>(
                Scan { toks: toks_view(toks@), mode, buf: buf@, dot },
            ),
            mode == Mode::Word ==> !dot,
            mode == Mode::Blank || mode == Mode::Comment ==> buf@ == Seq::<char>::empty() && !dot,
        decreases text.len() - i,
    {
        let c = text[i];
        let ghost st = Scan { toks: toks_view(toks@), mode, buf: buf@, dot };
        assert(text@.take(i + 1).drop_last() =~= text@.take(i as int));
        assert(text@.take(i + 1).last() == c);
        let letter = letter_char(c);
        let digit = digit_char(c);
        let pending = match mode {
            Mode::Blank => {
                if letter || digit {
                    buf = Vec::new();
                    buf.push(c);
                    mode = if letter { Mode::Word } else { Mode::Digits };
                    dot = false;
                    assert(buf@ =~= seq![c]);
                    false
                } else {
                    true
                }
            },
            Mode::Word => {
                if letter || digit {
                    buf.push(c);
                    false
                } else {
                    true
                }
            },
            Mode::Digits => {
                if digit {
                    buf.push(c);
                    false
                } else if c == '.' {
                    if dot {
                        proof {
                            lemma_scan_err_persists(text@, i + 1, LexError::ExtraDecimalPoint(i));
                        }
                        return Err(LexError::ExtraDecimalPoint(i));
                    }
                    buf.push(c);
                    dot = true;
                    false
                } else if letter {
                    proof {
                        lemma_scan_err_persists(text@, i + 1, LexError::LetterInNumber(i));
                    }
                    return Err(LexError::LetterInNumber(i));
                } else {
                    true
                }
            },
            Mode::Comment => {
                if c == '\n' || c == '\r' {
                    mode = Mode::Blank;
                }
                false
            },
        };
        if pending {
            push_pending(&mut toks, mode, &buf);
            assert(toks_view(toks@) == flush(st));
            let ghost flushed = toks@;
            buf = Vec::new();
            dot = false;
            if blank_char(c) {
                mode = Mode::Blank;
            } else if c == '#' {
                mode = Mode::Comment;
            } else {
                toks.push(Token::Char(c));
                mode = Mode::Blank;
                proof {
                    lemma_toks_view_push(flushed, Token::Char(c));
                }
            }
            assert(buf@ =~= Seq::<char>::empty());
            assert(toks_view(toks@) =~= settle(flush(st), c).toks);
        }
        i = i + 1;
    }
    assert(text@.take(i as int) =~= text@);
    push_pending(&mut toks, mode, &buf);
    let ghost flushed = toks@;
    toks.push(Token::Eof);
    proof {
        lemma_toks_view_push(flushed, Token::Eof);
    }
    Ok(toks)
}

} // verus!
