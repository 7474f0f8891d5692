//! What the tokens of a command line are.
//!
//! A line is read in three layers. Backslashes are resolved first, which leaves
//! a sequence of glyphs. The glyphs are then cut into words and delimiters. Last,
//! neighbouring white space tokens become one.
use vstd::prelude::*;

use crate::text::{blank, white};
use crate::token::{Lexeme, Operator, Quoting};

verus! {

/// A character of a command line once backslashes are resolved: one that stood
/// there as it is, or one that a backslash stood in front of.
pub enum Glyph {
    Plain(char),
    Escaped(char),
}

/// The glyph of a character that stands there as it is.
pub open spec fn plain(c: char) -> Glyph {
    Glyph::Plain(c)
}

/// The glyph of a character that a backslash stood in front of.
pub open spec fn escaped(c: char) -> Glyph {
    Glyph::Escaped(c)
}

/// The character that a backslash in front of `c` stands for.
pub open spec fn unescaped(c: char) -> char {
    match c {
        'n' => '\n',
        't' => '\t',
        'r' => '\r',
        '0' => '\0',
        _ => c,
    }
}

/// The glyphs of `s`. A backslash with nothing behind it is dropped.
pub open spec fn glyphs(s: Seq<char>) -> Seq<Glyph>
    decreases s.len(),
{
    if s.len() == 0 {
        seq![]
    } else if s[0] != '\\' {
        seq![plain(s[0])] + glyphs(s.skip(1))
    } else if s.len() == 1 {
        seq![]
    } else {
        seq![escaped(unescaped(s[1]))] + glyphs(s.skip(2))
    }
}

/// The character of a glyph.
pub open spec fn char_of(x: Glyph) -> char {
    match x {
        Glyph::Plain(c) => c,
        Glyph::Escaped(c) => c,
    }
}

/// The characters of a run of glyphs.
pub open spec fn chars_of(g: Seq<Glyph>) -> Seq<char> {
    g.map_values(|x: Glyph| char_of(x))
}

/// Whether a glyph is part of a word that is written with quoting `mode`.
///
/// A quoted word goes up to its closing quote. A bare word goes up to white
/// space, a quote or an operator, none of them escaped.
pub open spec fn within(mode: Quoting, x: Glyph) -> bool {
    match x {
        Glyph::Escaped(_) => true,
        Glyph::Plain(c) => match mode {
            Quoting::SingleQuoted => c != '\'',
            Quoting::DoubleQuoted => c != '"',
            Quoting::Unquoted => !white(c) && c != '\'' && c != '"' && c != '&' && c != '|' && c
                != ';',
        },
    }
}

/// The number of glyphs at the start of `g` that are part of one word.
pub open spec fn span(mode: Quoting, g: Seq<Glyph>) -> nat
    decreases g.len(),
{
    if g.len() > 0 && within(mode, g[0]) {
        1 + span(mode, g.skip(1))
    } else {
        0
    }
}

/// `s` without the white space that it starts with.
pub open spec fn trim_start(s: Seq<char>) -> Seq<char>
    decreases s.len(),
{
    if s.len() > 0 && white(s[0]) {
        trim_start(s.skip(1))
    } else {
        s
    }
}

/// The text of a word: a bare one does not start with white space.
pub open spec fn word_text(mode: Quoting, run: Seq<Glyph>) -> Seq<char> {
    match mode {
        Quoting::Unquoted => trim_start(chars_of(run)),
        _ => chars_of(run),
    }
}

/// The token for a complete run of word glyphs: none where no text is left.
pub open spec fn word(mode: Quoting, run: Seq<Glyph>) -> Seq<Lexeme> {
    let text = word_text(mode, run);
    if text.len() == 0 {
        seq![]
    } else {
        seq![Lexeme::Word(text, mode)]
    }
}

/// What stands at the start of `g` where a word written with quoting `mode`
/// ends: the tokens for it, the quoting that holds behind it, and its length.
pub open spec fn delimiter(mode: Quoting, g: Seq<Glyph>) -> (Seq<Lexeme>, Quoting, int) {
    if mode != Quoting::Unquoted {
        (seq![], Quoting::Unquoted, 1)
    } else {
        match g[0] {
            Glyph::Plain('\'') => (seq![], Quoting::SingleQuoted, 1),
            Glyph::Plain('"') => (seq![], Quoting::DoubleQuoted, 1),
            Glyph::Plain('&') => if g.len() > 1 && g[1] == Glyph::Plain('&') {
                (seq![Lexeme::Operator(Operator::And)], mode, 2)
            } else {
                (seq![Lexeme::Operator(Operator::Andpercent)], mode, 1)
            },
            Glyph::Plain('|') => if g.len() > 1 && g[1] == Glyph::Plain('|') {
                (seq![Lexeme::Operator(Operator::Or)], mode, 2)
            } else {
                (seq![Lexeme::Operator(Operator::Pipe)], mode, 1)
            },
            Glyph::Plain(';') => (seq![Lexeme::Operator(Operator::Semicolon)], mode, 1),
            _ => (seq![Lexeme::Whitespace], mode, 1),
        }
    }
}

/// The tokens of `g`, read from inside a word that is written with quoting
/// `mode`. The text of a quote that is never closed is no word.
pub open spec fn lex(mode: Quoting, g: Seq<Glyph>) -> Seq<Lexeme>
    decreases g.len(),
{
    let n = span(mode, g);
    if n >= g.len() {
        if mode == Quoting::Unquoted {
            word(mode, g)
        } else {
            seq![]
        }
    } else {
        let rest = g.skip(n as int);
        let (tokens, next, len) = delimiter(mode, rest);
        word(mode, g.take(n as int)) + tokens + lex(next, rest.skip(len))
    }
}

/// `tokens` with `t` behind them, unless that were a second white space token
/// in a row.
pub open spec fn followed_by(tokens: Seq<Lexeme>, t: Lexeme) -> Seq<Lexeme> {
    if t == Lexeme::Whitespace && tokens.len() > 0 && tokens.last() == Lexeme::Whitespace {
        tokens
    } else {
        tokens.push(t)
    }
}

/// `tokens` with those of `more` behind them, one after the other.
pub open spec fn continued(tokens: Seq<Lexeme>, more: Seq<Lexeme>) -> Seq<Lexeme>
    decreases more.len(),
{
    if more.len() == 0 {
        tokens
    } else {
        continued(followed_by(tokens, more[0]), more.skip(1))
    }
}

/// The tokens of the command line `s`.
pub open spec fn tokens_of(s: Seq<char>) -> Seq<Lexeme> {
    continued(seq![], lex(Quoting::Unquoted, glyphs(s)))
}

/// Whether every glyph of `g` is part of one word.
pub open spec fn all_within(mode: Quoting, g: Seq<Glyph>) -> bool {
    forall|i: int| 0 <= i < g.len() ==> within(mode, #[trigger] g[i])
}

/// A word ends where the first glyph stands that is not part of it.
pub proof fn lemma_span(mode: Quoting, run: Seq<Glyph>, rest: Seq<Glyph>)
    requires
        all_within(mode, run),
        rest.len() == 0 || !within(mode, rest[0]),
    ensures
        span(mode, run + rest) == run.len(),
    decreases run.len(),
{
    if run.len() == 0 {
        assert(run + rest =~= rest);
    } else {
        assert((run + rest).skip(1) =~= run.skip(1) + rest);
        assert forall|i: int| 0 <= i < run.skip(1).len() implies within(
            mode,
            #[trigger] run.skip(1)[i],
        ) by {
            assert(within(mode, run[i + 1]));
        }
        lemma_span(mode, run.skip(1), rest);
    }
}

/// A word and the delimiter behind it give their tokens, then come those of
/// the rest.
pub proof fn lemma_lex_delimiter(mode: Quoting, run: Seq<Glyph>, rest: Seq<Glyph>)
    requires
        all_within(mode, run),
        rest.len() > 0,
        !within(mode, rest[0]),
    ensures
        lex(mode, run + rest) == word(mode, run) + delimiter(mode, rest).0 + lex(
            delimiter(mode, rest).1,
            rest.skip(delimiter(mode, rest).2),
        ),
{
    lemma_span(mode, run, rest);
    assert((run + rest).take(run.len() as int) =~= run);
    assert((run + rest).skip(run.len() as int) =~= rest);
}

/// What is left when the line ends inside a word.
pub proof fn lemma_lex_end(mode: Quoting, run: Seq<Glyph>)
    requires
        all_within(mode, run),
    ensures
        lex(mode, run) == (if mode == Quoting::Unquoted {
            word(mode, run)
        } else {
            seq![]
        }),
{
    lemma_span(mode, run, seq![]);
    assert(run + seq![] =~= run);
}

/// Tokens that come in two parts may be put behind others part by part.
pub proof fn lemma_continued_add(tokens: Seq<Lexeme>, a: Seq<Lexeme>, b: Seq<Lexeme>)
    ensures
        continued(tokens, a + b) == continued(continued(tokens, a), b),
    decreases a.len(),
{
    if a.len() == 0 {
        assert(a + b =~= b);
    } else {
        assert((a + b).skip(1) =~= a.skip(1) + b);
        lemma_continued_add(followed_by(tokens, a[0]), a.skip(1), b);
    }
}

/// One token behind others.
pub proof fn lemma_continued_one(tokens: Seq<Lexeme>, t: Lexeme)
    ensures
        continued(tokens, seq![t]) == followed_by(tokens, t),
        continued(tokens, seq![]) == tokens,
{
    reveal_with_fuel(continued, 2);
    assert(seq![t].skip(1) =~= seq![]);
}

/// Trimming leaves nothing of blank text.
pub proof fn lemma_trim_blank(s: Seq<char>)
    ensures
        blank(s) <==> trim_start(s).len() == 0,
        trim_start(s).len() > 0 ==> !white(trim_start(s)[0]),
        trim_start(s).len() > 0 ==> !blank(trim_start(s)),
    decreases s.len(),
{
    if s.len() > 0 && white(s[0]) {
        lemma_trim_blank(s.skip(1));
        if blank(s.skip(1)) {
            assert forall|i: int| 0 <= i < s.len() implies white(#[trigger] s[i]) by {
                if i > 0 {
                    assert(white(s.skip(1)[i - 1]));
                }
            }
        }
        if blank(s) {
            assert forall|i: int| 0 <= i < s.skip(1).len() implies white(
                #[trigger] s.skip(1)[i],
            ) by {
                assert(white(s[i + 1]));
            }
        }
    }
}

/// A character behind text that is not blank stays behind it when trimmed;
/// behind blank text it is all that can be left.
pub proof fn lemma_trim_push(s: Seq<char>, c: char)
    ensures
        blank(s) && white(c) ==> trim_start(s.push(c)).len() == 0,
        blank(s) && !white(c) ==> trim_start(s.push(c)) == seq![c],
        !blank(s) ==> trim_start(s.push(c)) == trim_start(s).push(c),
    decreases s.len(),
{
    if s.len() == 0 {
        assert(s.push(c) =~= seq![c]);
        reveal_with_fuel(trim_start, 2);
    } else if white(s[0]) {
        assert(s.push(c).skip(1) =~= s.skip(1).push(c));
        lemma_trim_push(s.skip(1), c);
        lemma_trim_blank(s);
        lemma_trim_blank(s.skip(1));
    }
}

/// The glyphs from position `i` on.
pub proof fn lemma_glyphs_step(s: Seq<char>, i: int)
    requires
        0 <= i < s.len(),
    ensures
        s[i] != '\\' ==> glyphs(s.skip(i)) == seq![plain(s[i])] + glyphs(s.skip(i + 1)),
        s[i] == '\\' && i + 1 < s.len() ==> glyphs(s.skip(i)) == seq![
            escaped(unescaped(s[i + 1])),
        ] + glyphs(s.skip(i + 2)),
        s[i] == '\\' && i + 1 == s.len() ==> glyphs(s.skip(i)) == glyphs(s.skip(i + 1)),
{
    let rest = s.skip(i);
    assert(rest[0] == s[i]);
    assert(rest.skip(1) =~= s.skip(i + 1));
    if rest.len() > 1 {
        assert(rest[1] == s[i + 1]);
        assert(rest.skip(2) =~= s.skip(i + 2));
    }
}

/// Whether `text` is what has been gathered of a word whose glyphs so far are
/// `run`: its text, or white space only where it has no text yet.
pub open spec fn gathered(mode: Quoting, run: Seq<Glyph>, text: Seq<char>) -> bool {
    &&& all_within(mode, run)
    &&& text == word_text(mode, run) || mode == Quoting::Unquoted && blank(text) && blank(
        chars_of(run),
    )
}

/// One more glyph of a word.
pub proof fn lemma_gathered_push(mode: Quoting, run: Seq<Glyph>, text: Seq<char>, x: Glyph)
    requires
        all_within(mode, run),
        text == word_text(mode, run),
        within(mode, x),
    ensures
        gathered(mode, run.push(x), text.push(char_of(x))),
{
    let c = char_of(x);
    assert(chars_of(run.push(x)) =~= chars_of(run).push(c));
    if mode == Quoting::Unquoted {
        lemma_trim_push(chars_of(run), c);
        lemma_trim_blank(chars_of(run));
        if blank(chars_of(run)) {
            assert(text.push(c) =~= seq![c]);
            lemma_trim_blank(chars_of(run).push(c));
        }
    }
}

/// What has been gathered of a bare word, once white space that it would start
/// with is dropped, is its text.
pub proof fn lemma_gathered_text(run: Seq<Glyph>, text: Seq<char>)
    requires
        gathered(Quoting::Unquoted, run, text),
    ensures
        word_text(Quoting::Unquoted, run) == (if blank(text) {
            seq![]
        } else {
            text
        }),
{
    lemma_trim_blank(chars_of(run));
    if blank(text) {
        assert(word_text(Quoting::Unquoted, run) =~= seq![]);
    }
}

} // verus!
