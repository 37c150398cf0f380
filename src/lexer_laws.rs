//! Laws of the lexer: how it treats whitespace-separated identifiers, and
//! that rendering tokens as text and scanning that text again gives them back.
use vstd::prelude::*;
use crate::lexer::{
    blank, is_blank, is_digit, is_keyword, is_letter, scan, step, tokenize, word_token,
    LexError, Mode, Scan, Tok,
};

verus! {

/// The scanner run from state `st` over `s`, whose first character has index `k`.
pub open spec fn scan_from(st: Scan, s: Seq<char>, k: int) -> Result<Scan, LexError>
    decreases s.len(),
{
    if s.len() == 0 {
        Ok(st)
    } else {
        match scan_from(st, s.drop_last(), k) {
            Ok(st2) => step(st2, s.last(), k + s.len() - 1),
            Err(e) => Err(e),
        }
    }
}

pub open spec fn then_scan(r: Result<Scan, LexError>, s: Seq<char>, k: int) -> Result<
    Scan,
    LexError,
> {
    match r {
        Ok(st) => scan_from(st, s, k),
        Err(e) => Err(e),
    }
}

proof fn lemma_scan_is_scan_from(s: Seq<char>)
    ensures
        scan(s) == scan_from(blank(Seq::empty()), s, 0),
    decreases s.len(),
{
    if s.len() > 0 {
        lemma_scan_is_scan_from(s.drop_last());
    }
}

proof fn lemma_scan_concat(st: Scan, a: Seq<char>, b: Seq<char>, k: int)
    ensures
        scan_from(st, a + b, k) == then_scan(scan_from(st, a, k), b, k + a.len()),
    decreases b.len(),
{
    if b.len() == 0 {
        assert(a + b =~= a);
    } else {
        assert((a + b).drop_last() =~= a + b.drop_last());
        assert((a + b).last() == b.last());
        lemma_scan_concat(st, a, b.drop_last(), k);
    }
}

pub open spec fn all_blank(s: Seq<char>) -> bool {
    forall|i: int| 0 <= i < s.len() ==> is_blank(#[trigger] s[i])
}

/// A word: a letter, then letters and digits.
pub open spec fn is_word(w: Seq<char>) -> bool {
    &&& w.len() > 0
    &&& is_letter(w[0])
    &&& forall|i: int| 0 <= i < w.len() ==> is_letter(#[trigger] w[i]) || is_digit(w[i])
}

/// A word that is no keyword.
pub open spec fn is_identifier(w: Seq<char>) -> bool {
    is_word(w) && !is_keyword(w)
}

proof fn lemma_blanks(t: Seq<Tok>, g: Seq<char>, k: int)
    requires
        all_blank(g),
    ensures
        scan_from(blank(t), g, k) == Ok::<Scan, LexError>(blank(t)),
    decreases g.len(),
{
    if g.len() > 0 {
        lemma_blanks(t, g.drop_last(), k);
        assert(is_blank(g[g.len() - 1]));
    }
}

proof fn lemma_word(t: Seq<Tok>, w: Seq<char>, k: int)
    requires
        is_word(w),
    ensures
        scan_from(blank(t), w, k) == Ok::<Scan, LexError>(
            Scan { toks: t, mode: Mode::Word, buf: w, dot: false },
        ),
    decreases w.len(),
{
    if w.len() == 1 {
        assert(w.drop_last() =~= Seq::<char>::empty());
        assert(seq![w[0]] =~= w);
    } else {
        let u = w.drop_last();
        assert(u[0] == w[0]);
        assert forall|i: int| 0 <= i < u.len() implies is_letter(#[trigger] u[i]) || is_digit(
            u[i],
        ) by {
            assert(u[i] == w[i]);
        }
        lemma_word(t, u, k);
        assert(is_letter(w[w.len() - 1]) || is_digit(w[w.len() - 1]));
        assert(u.push(w.last()) =~= w);
    }
}

/// A word followed by whitespace that is not empty leaves the word's token
/// emitted and the scanner between tokens.
proof fn lemma_word_then_blanks(t: Seq<Tok>, w: Seq<char>, g: Seq<char>, k: int)
    requires
        is_word(w),
        all_blank(g),
        g.len() > 0,
    ensures
        scan_from(blank(t), w + g, k) == Ok::<Scan, LexError>(blank(t.push(word_token(w)))),
{
    lemma_scan_concat(blank(t), w, g, k);
    lemma_word(t, w, k);
    let st = Scan { toks: t, mode: Mode::Word, buf: w, dot: false };
    let g1 = g.subrange(0, 1);
    let g2 = g.subrange(1, g.len() as int);
    assert(g1 + g2 =~= g);
    lemma_scan_concat(st, g1, g2, k + w.len());
    assert(g1.drop_last() =~= Seq::<char>::empty());
    assert(is_blank(g[0]));
    assert(g1.last() == g[0]);
    assert(scan_from(st, g1.drop_last(), k + w.len()) == Ok::<Scan, LexError>(st));
    assert(!is_letter(g[0]) && !is_digit(g[0]));
    assert(scan_from(st, g1, k + w.len()) == Ok::<Scan, LexError>(blank(t.push(word_token(w)))));
    assert forall|i: int| 0 <= i < g2.len() implies is_blank(#[trigger] g2[i]) by {
        assert(g2[i] == g[i + 1]);
    }
    lemma_blanks(t.push(word_token(w)), g2, k + w.len() + 1);
}

/// Words laid out with whitespace: `gaps[i]` precedes `words[i]`, and the
/// last gap follows the last word.
pub open spec fn spaced(words: Seq<Seq<char>>, gaps: Seq<Seq<char>>) -> Seq<char>
    decreases words.len(),
{
    if words.len() == 0 || gaps.len() == 0 {
        if gaps.len() == 0 {
            Seq::empty()
        } else {
            gaps[0]
        }
    } else {
        spaced(words.drop_last(), gaps.drop_last()) + words.last() + gaps.last()
    }
}

pub open spec fn idents(words: Seq<Seq<char>>) -> Seq<Tok> {
    words.map_values(|w: Seq<char>| Tok::Ident(w))
}

proof fn lemma_spaced_state(words: Seq<Seq<char>>, gaps: Seq<Seq<char>>)
    requires
        gaps.len() == words.len() + 1,
        forall|i: int| 0 <= i < words.len() ==> is_identifier(#[trigger] words[i]),
        forall|i: int| 0 <= i < gaps.len() ==> all_blank(#[trigger] gaps[i]),
        forall|i: int| 0 < i < words.len() ==> (#[trigger] gaps[i]).len() > 0,
    ensures
        words.len() == 0 || gaps.last().len() > 0 ==> scan(spaced(words, gaps)) == Ok::<
            Scan,
            LexError,
        >(blank(idents(words))),
        words.len() > 0 && gaps.last().len() == 0 ==> scan(spaced(words, gaps)) == Ok::<
            Scan,
            LexError,
        >(Scan { toks: idents(words.drop_last()), mode: Mode::Word, buf: words.last(), dot: false }),
    decreases words.len(),
{
    let text = spaced(words, gaps);
    lemma_scan_is_scan_from(text);
    if words.len() == 0 {
        assert(idents(words) =~= Seq::<Tok>::empty());
        lemma_blanks(Seq::empty(), gaps[0], 0);
    } else {
        let ws = words.drop_last();
        let gs = gaps.drop_last();
        let w = words.last();
        let g = gaps.last();
        assert forall|i: int| 0 <= i < ws.len() implies is_identifier(#[trigger] ws[i]) by {
            assert(ws[i] == words[i]);
        }
        assert forall|i: int| 0 <= i < gs.len() implies all_blank(#[trigger] gs[i]) by {
            assert(gs[i] == gaps[i]);
        }
        assert forall|i: int| 0 < i < ws.len() implies (#[trigger] gs[i]).len() > 0 by {
            assert(gs[i] == gaps[i]);
        }
        lemma_spaced_state(ws, gs);
        let prefix = spaced(ws, gs);
        lemma_scan_is_scan_from(prefix);
        if ws.len() > 0 {
            assert(gs.last() == gaps[ws.len() as int]);
        }
        let t = idents(ws);
        assert(scan_from(blank(Seq::empty()), prefix, 0) == Ok::<Scan, LexError>(blank(t)));
        assert(is_identifier(words[words.len() - 1]));
        assert(word_token(w) == Tok::Ident(w));
        assert(idents(words) =~= t.push(Tok::Ident(w)));
        assert(idents(words.drop_last()) =~= t);
        assert(all_blank(gaps[gaps.len() - 1]));
        lemma_scan_concat(blank(Seq::empty()), prefix + w, g, 0);
        lemma_scan_concat(blank(Seq::empty()), prefix, w, 0);
        lemma_word(t, w, prefix.len() as int);
        if g.len() > 0 {
            lemma_scan_concat(blank(Seq::empty()), prefix, w + g, 0);
            assert(prefix + w + g =~= prefix + (w + g));
            lemma_word_then_blanks(t, w, g, prefix.len() as int);
        } else {
            assert(prefix + w + g =~= prefix + w);
        }
    }
}

/// Whitespace-separated identifiers give one identifier token per word, in
/// order, then the end marker. Whitespace may stand before the first word and
/// after the last.
pub proof fn lemma_identifiers_tokenize(words: Seq<Seq<char>>, gaps: Seq<Seq<char>>)
    requires
        gaps.len() == words.len() + 1,
        forall|i: int| 0 <= i < words.len() ==> is_identifier(#[trigger] words[i]),
        forall|i: int| 0 <= i < gaps.len() ==> all_blank(#[trigger] gaps[i]),
        forall|i: int| 0 < i < words.len() ==> (#[trigger] gaps[i]).len() > 0,
    ensures
        tokenize(spaced(words, gaps)) == Ok::<Seq<Tok>, LexError>(idents(words).push(Tok::Eof)),
{
    lemma_spaced_state(words, gaps);
    if words.len() > 0 && gaps.last().len() == 0 {
        assert(is_identifier(words[words.len() - 1]));
        assert(idents(words) =~= idents(words.drop_last()).push(Tok::Ident(words.last())));
    }
}

/// A numeric literal: a digit, then digits and at most one decimal point.
pub open spec fn is_literal(d: Seq<char>) -> bool {
    &&& d.len() > 0
    &&& is_digit(d[0])
    &&& forall|i: int| 0 <= i < d.len() ==> is_digit(#[trigger] d[i]) || d[i] == '.'
    &&& forall|i: int, j: int| 0 <= i < d.len() && 0 <= j < d.len() && d[i] == '.' && d[j] == '.' ==> i == j
}

pub open spec fn has_point(d: Seq<char>) -> bool {
    exists|i: int| 0 <= i < d.len() && d[i] == '.'
}

/// The source text of a token.
pub open spec fn tok_text(t: Tok) -> Seq<char> {
    match t {
        Tok::Eof => Seq::empty(),
        Tok::Def => seq!['d', 'e', 'f'],
        Tok::Extern => seq!['e', 'x', 't', 'e', 'r', 'n'],
        Tok::Ident(w) => w,
        Tok::Num(d) => d,
        Tok::Sym(c) => seq![c],
        Tok::If => seq!['i', 'f'],
        Tok::Then => seq!['t', 'h', 'e', 'n'],
        Tok::Else => seq!['e', 'l', 's', 'e'],
        Tok::For => seq!['f', 'o', 'r'],
        Tok::In => seq!['i', 'n'],
    }
}

/// A token that the lexer can produce before the end marker.
pub open spec fn is_renderable(t: Tok) -> bool {
    match t {
        Tok::Eof => false,
        Tok::Ident(w) => is_identifier(w),
        Tok::Num(d) => is_literal(d),
        Tok::Sym(c) => !is_blank(c) && !is_letter(c) && !is_digit(c) && c != '#',
        _ => true,
    }
}

/// Tokens written out as text, each followed by one space.
pub open spec fn render(toks: Seq<Tok>) -> Seq<char>
    decreases toks.len(),
{
    if toks.len() == 0 {
        Seq::empty()
    } else {
        render(toks.drop_last()) + tok_text(toks.last()) + seq![' ']
    }
}

proof fn lemma_literal(t: Seq<Tok>, d: Seq<char>, k: int)
    requires
        is_literal(d),
    ensures
        scan_from(blank(t), d, k) == Ok::<Scan, LexError>(
            Scan { toks: t, mode: Mode::Digits, buf: d, dot: has_point(d) },
        ),
    decreases d.len(),
{
    if d.len() == 1 {
        assert(d.drop_last() =~= Seq::<char>::empty());
        assert(seq![d[0]] =~= d);
        assert(!has_point(d));
    } else {
        let u = d.drop_last();
        let c = d.last();
        assert(u[0] == d[0]);
        assert forall|i: int| 0 <= i < u.len() implies is_digit(#[trigger] u[i]) || u[i] == '.' by {
            assert(u[i] == d[i]);
        }
        assert forall|i: int, j: int|
            0 <= i < u.len() && 0 <= j < u.len() && u[i] == '.' && u[j] == '.' implies i == j by {
            assert(u[i] == d[i] && u[j] == d[j]);
        }
        lemma_literal(t, u, k);
        assert(u.push(c) =~= d);
        assert(is_digit(d[d.len() - 1]) || d[d.len() - 1] == '.');
        if c == '.' {
            if has_point(u) {
                let i = choose|i: int| 0 <= i < u.len() && u[i] == '.';
                assert(d[i] == '.' && d[d.len() - 1] == '.');
            }
            assert(has_point(d)) by {
                assert(d[d.len() - 1] == '.');
            }
        } else {
            if has_point(d) {
                let i = choose|i: int| 0 <= i < d.len() && d[i] == '.';
                assert(u[i] == '.');
            }
            if has_point(u) {
                let i = choose|i: int| 0 <= i < u.len() && u[i] == '.';
                assert(d[i] == '.');
            }
        }
    }
}

/// From between tokens, the text of a token and a space emit that token.
proof fn lemma_one_token(t: Seq<Tok>, x: Tok, k: int)
    requires
        is_renderable(x),
    ensures
        scan_from(blank(t), tok_text(x) + seq![' '], k) == Ok::<Scan, LexError>(blank(t.push(x))),
{
    let g = seq![' '];
    assert(all_blank(g));
    match x {
        Tok::Num(d) => {
            lemma_scan_concat(blank(t), d, g, k);
            lemma_literal(t, d, k);
            let st = Scan { toks: t, mode: Mode::Digits, buf: d, dot: has_point(d) };
            assert(g.drop_last() =~= Seq::<char>::empty());
            assert(scan_from(st, g.drop_last(), k + d.len()) == Ok::<Scan, LexError>(st));
            assert(g.last() == ' ');
            assert(step(st, ' ', k + d.len()) == Ok::<Scan, LexError>(blank(t.push(x))));
            assert(scan_from(st, g, k + d.len()) == Ok::<Scan, LexError>(blank(t.push(x))));
        },
        Tok::Sym(c) => {
            lemma_scan_concat(blank(t), seq![c], g, k);
            assert(seq![c].drop_last() =~= Seq::<char>::empty());
            assert(g.drop_last() =~= Seq::<char>::empty());
            assert(scan_from(blank(t), seq![c].drop_last(), k) == Ok::<Scan, LexError>(blank(t)));
            assert(seq![c].last() == c);
            assert(step(blank(t), c, k) == Ok::<Scan, LexError>(blank(t.push(x))));
            assert(scan_from(blank(t), seq![c], k) == Ok::<Scan, LexError>(blank(t.push(x))));
            let b = blank(t.push(x));
            assert(scan_from(b, g.drop_last(), k + 1) == Ok::<Scan, LexError>(b));
            assert(g.last() == ' ');
            assert(scan_from(b, g, k + 1) == Ok::<Scan, LexError>(b));
        },
        _ => {
            let w = tok_text(x);
            assert(is_word(w));
            assert(word_token(w) == x);
            lemma_word_then_blanks(t, w, g, k);
        },
    }
}

/// Rendering tokens as text and tokenizing that text gives back the same
/// tokens, followed by the end marker.
pub proof fn lemma_render_tokenize(toks: Seq<Tok>)
    requires
        forall|i: int| 0 <= i < toks.len() ==> is_renderable(#[trigger] toks[i]),
    ensures
        tokenize(render(toks)) == Ok::<Seq<Tok>, LexError>(toks.push(Tok::Eof)),
{
    lemma_render_scan(toks);
}

proof fn lemma_render_scan(toks: Seq<Tok>)
    requires
        forall|i: int| 0 <= i < toks.len() ==> is_renderable(#[trigger] toks[i]),
    ensures
        scan(render(toks)) == Ok::<Scan, LexError>(blank(toks)),
    decreases toks.len(),
{
    let text = render(toks);
    lemma_scan_is_scan_from(text);
    if toks.len() > 0 {
        let ts = toks.drop_last();
        let x = toks.last();
        assert forall|i: int| 0 <= i < ts.len() implies is_renderable(#[trigger] ts[i]) by {
            assert(ts[i] == toks[i]);
        }
        lemma_render_scan(ts);
        let prefix = render(ts);
        lemma_scan_is_scan_from(prefix);
        assert(is_renderable(toks[toks.len() - 1]));
        lemma_scan_concat(blank(Seq::empty()), prefix, tok_text(x) + seq![' '], 0);
        assert(prefix + tok_text(x) + seq![' '] =~= prefix + (tok_text(x) + seq![' ']));
        lemma_one_token(ts, x, prefix.len() as int);
        assert(ts.push(x) =~= toks);
        assert(text == prefix + tok_text(x) + seq![' ']);
        assert(scan_from(blank(Seq::empty()), prefix, 0) == Ok::<Scan, LexError>(blank(ts)));
        assert(scan_from(blank(Seq::empty()), text, 0) == Ok::<Scan, LexError>(blank(toks)));
    } else {
        assert(toks =~= Seq::<Tok>::empty());
    }
}

} // verus!
