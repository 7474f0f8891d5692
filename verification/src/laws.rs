//! What holds of every command line.
use vstd::prelude::*;

use crate::command::{argument, arguments, has_word, parsed, request, Request};
use crate::grammar::{
    all_within, chars_of, continued, delimiter, escaped, followed_by, glyphs,
    lemma_continued_add, lemma_continued_one, lemma_glyphs_step, lemma_lex_delimiter,
    lemma_lex_end, lemma_span, lemma_trim_blank, lex, plain, span, tokens_of, trim_start,
    unescaped, within, word, Glyph,
};
use crate::text::white;
use crate::token::{Lexeme, Operator, Quoting};
use crate::variables::expanded;

verus! {

/// Whether `s` ends in a backslash that nothing follows.
pub open spec fn dangling(s: Seq<char>) -> bool
    decreases s.len(),
{
    if s.len() == 0 {
        false
    } else if s[0] != '\\' {
        dangling(s.skip(1))
    } else if s.len() == 1 {
        true
    } else {
        dangling(s.skip(2))
    }
}

/// The quoting that holds at the end of `g`, where `mode` holds at its start.
pub open spec fn mode_after(mode: Quoting, g: Seq<Glyph>) -> Quoting
    decreases g.len(),
{
    let n = span(mode, g);
    if n >= g.len() {
        mode
    } else {
        let rest = g.skip(n as int);
        mode_after(delimiter(mode, rest).1, rest.skip(delimiter(mode, rest).2))
    }
}

/// Whether `s` leaves no quote open and no backslash without a character.
pub open spec fn complete(s: Seq<char>) -> bool {
    !dangling(s) && mode_after(Quoting::Unquoted, glyphs(s)) == Quoting::Unquoted
}

proof fn lemma_span_is(mode: Quoting, g: Seq<Glyph>)
    ensures
        span(mode, g) <= g.len(),
        all_within(mode, g.take(span(mode, g) as int)),
        span(mode, g) < g.len() ==> !within(mode, g[span(mode, g) as int]),
    decreases g.len(),
{
    if g.len() > 0 && within(mode, g[0]) {
        lemma_span_is(mode, g.skip(1));
        let n = span(mode, g);
        assert forall|i: int| 0 <= i < n implies within(mode, #[trigger] g.take(n as int)[i]) by {
            if i > 0 {
                assert(g.skip(1).take(n - 1)[i - 1] == g[i]);
            }
        }
    }
}

proof fn lemma_glyphs_add(a: Seq<char>, b: Seq<char>)
    requires
        !dangling(a),
    ensures
        glyphs(a + b) == glyphs(a) + glyphs(b),
    decreases a.len(),
{
    if a.len() == 0 {
        assert(a + b =~= b);
        assert(glyphs(a) + glyphs(b) =~= glyphs(b));
    } else if a[0] != '\\' {
        assert((a + b).skip(1) =~= a.skip(1) + b);
        lemma_glyphs_add(a.skip(1), b);
        assert(seq![plain(a[0])] + (glyphs(a.skip(1)) + glyphs(b)) =~= glyphs(a) + glyphs(b));
    } else {
        assert((a + b).skip(2) =~= a.skip(2) + b);
        lemma_glyphs_add(a.skip(2), b);
        assert(seq![escaped(unescaped(a[1]))] + (glyphs(a.skip(2)) + glyphs(b)) =~= glyphs(a)
            + glyphs(b));
    }
}

/// Whether `x` ends a bare word by itself, whatever stands in front of it.
spec fn separates(x: Glyph) -> bool {
    !within(Quoting::Unquoted, x) && x != Glyph::Plain('&') && x != Glyph::Plain('|')
}

/// Whether `b` starts with a glyph that ends a bare word, and that does not make
/// one operator with the end of `a`.
spec fn cuts(a: Seq<Glyph>, b: Seq<Glyph>) -> bool {
    &&& b.len() > 0
    &&& !within(Quoting::Unquoted, b[0])
    &&& separates(b[0]) || a.len() == 0 || a.last() != b[0]
}

proof fn lemma_mode_delimiter(mode: Quoting, run: Seq<Glyph>, rest: Seq<Glyph>)
    requires
        all_within(mode, run),
        rest.len() > 0,
        !within(mode, rest[0]),
    ensures
        mode_after(mode, run + rest) == mode_after(
            delimiter(mode, rest).1,
            rest.skip(delimiter(mode, rest).2),
        ),
{
    lemma_span(mode, run, rest);
    assert((run + rest).skip(run.len() as int) =~= rest);
}

proof fn lemma_delimiter_add(mode: Quoting, rest: Seq<Glyph>, b: Seq<Glyph>)
    requires
        rest.len() > 0,
        cuts(rest, b),
    ensures
        delimiter(mode, rest + b) == delimiter(mode, rest),
        (rest + b).skip(delimiter(mode, rest).2) == rest.skip(delimiter(mode, rest).2) + b,
        1 <= delimiter(mode, rest).2 <= rest.len(),
{
    let len = delimiter(mode, rest).2;
    assert((rest + b)[0] == rest[0]);
    if rest.len() > 1 {
        assert((rest + b)[1] == rest[1]);
    } else {
        assert((rest + b)[1] == b[0]);
    }
    assert((rest + b).skip(len) =~= rest.skip(len) + b);
}

/// Text that ends outside of quotes and text that starts with a separator are
/// read one after the other.
proof fn lemma_lex_add(mode: Quoting, a: Seq<Glyph>, b: Seq<Glyph>)
    requires
        mode_after(mode, a) == Quoting::Unquoted,
        cuts(a, b),
    ensures
        lex(mode, a + b) == lex(mode, a) + lex(Quoting::Unquoted, b),
        mode_after(mode, a + b) == mode_after(Quoting::Unquoted, b),
    decreases a.len(),
{
    lemma_span_is(mode, a);
    let n = span(mode, a) as int;
    let run = a.take(n);
    let rest = a.skip(n);
    assert(a =~= run + rest);
    if n >= a.len() {
        assert(run =~= a);
        lemma_lex_end_add(a, b);
    } else {
        lemma_delimiter_add(mode, rest, b);
        lemma_mode_delimiter(mode, run, rest);
        lemma_lex_add(delimiter(mode, rest).1, rest.skip(delimiter(mode, rest).2), b);
        lemma_lex_add_step(mode, run, rest, b);
        assert(a + b =~= run + (rest + b));
    }
}

proof fn lemma_lex_add_step(mode: Quoting, run: Seq<Glyph>, rest: Seq<Glyph>, b: Seq<Glyph>)
    requires
        all_within(mode, run),
        rest.len() > 0,
        !within(mode, rest[0]),
        cuts(rest, b),
        lex(delimiter(mode, rest).1, rest.skip(delimiter(mode, rest).2) + b) == lex(
            delimiter(mode, rest).1,
            rest.skip(delimiter(mode, rest).2),
        ) + lex(Quoting::Unquoted, b),
        mode_after(delimiter(mode, rest).1, rest.skip(delimiter(mode, rest).2) + b) == mode_after(
            Quoting::Unquoted,
            b,
        ),
    ensures
        lex(mode, run + (rest + b)) == lex(mode, run + rest) + lex(Quoting::Unquoted, b),
        mode_after(mode, run + (rest + b)) == mode_after(Quoting::Unquoted, b),
{
    let (tokens, next, len) = delimiter(mode, rest);
    lemma_delimiter_add(mode, rest, b);
    lemma_lex_delimiter(mode, run, rest + b);
    lemma_lex_delimiter(mode, run, rest);
    lemma_mode_delimiter(mode, run, rest + b);
    let front = word(mode, run) + tokens;
    let middle = lex(next, rest.skip(len));
    let back = lex(Quoting::Unquoted, b);
    assert(front + (middle + back) =~= (front + middle) + back);
}

proof fn lemma_lex_end_add(a: Seq<Glyph>, b: Seq<Glyph>)
    requires
        all_within(Quoting::Unquoted, a),
        b.len() > 0,
        !within(Quoting::Unquoted, b[0]),
    ensures
        lex(Quoting::Unquoted, a + b) == lex(Quoting::Unquoted, a) + lex(Quoting::Unquoted, b),
        mode_after(Quoting::Unquoted, a + b) == mode_after(Quoting::Unquoted, b),
{
    let mode = Quoting::Unquoted;
    lemma_lex_end(mode, a);
    lemma_lex_delimiter(mode, a, b);
    lemma_mode_delimiter(mode, a, b);
    lemma_lex_delimiter(mode, seq![], b);
    lemma_mode_delimiter(mode, seq![], b);
    lemma_no_word(mode);
    assert(seq![] + b =~= b);
    let tokens = delimiter(mode, b).0;
    let back = lex(delimiter(mode, b).1, b.skip(delimiter(mode, b).2));
    assert(word(mode, a) + tokens + back =~= word(mode, a) + (seq![] + tokens + back));
}

proof fn lemma_no_word(mode: Quoting)
    ensures
        word(mode, seq![]) == Seq::<Lexeme>::empty(),
{
    assert(chars_of(seq![]) =~= seq![]);
}

/// A separator gives its tokens, and the rest is read with the quoting that
/// holds behind it.
proof fn lemma_lex_separator(x: Glyph, g: Seq<Glyph>)
    requires
        separates(x),
    ensures
        lex(Quoting::Unquoted, seq![x] + g) == delimiter(Quoting::Unquoted, seq![x] + g).0 + lex(
            delimiter(Quoting::Unquoted, seq![x] + g).1,
            g,
        ),
        mode_after(Quoting::Unquoted, seq![x] + g) == mode_after(
            delimiter(Quoting::Unquoted, seq![x] + g).1,
            g,
        ),
{
    let s = seq![x] + g;
    let mode = Quoting::Unquoted;
    lemma_lex_delimiter(mode, seq![], s);
    lemma_span(mode, seq![], s);
    assert(seq![] + s =~= s);
    assert(chars_of(seq![]) =~= seq![]);
    assert(word(mode, seq![]) =~= seq![]);
    assert(s.skip(1) =~= g);
    assert(s.skip(0) =~= s);
    assert(word(mode, seq![]) + delimiter(mode, s).0 =~= delimiter(mode, s).0);
}

/// No two white space tokens stand next to each other.
pub proof fn law_no_repeated_whitespace(s: Seq<char>)
    ensures
        forall|i: int|
            0 <= i < tokens_of(s).len() - 1 && #[trigger] tokens_of(s)[i] is Whitespace
                ==> !(tokens_of(s)[i + 1] is Whitespace),
{
    lemma_continued_spaced(seq![], lex(Quoting::Unquoted, glyphs(s)));
}

/// Whether no two white space tokens of `tokens` stand next to each other.
spec fn spaced_out(tokens: Seq<Lexeme>) -> bool {
    forall|i: int|
        0 <= i < tokens.len() - 1 && #[trigger] tokens[i] is Whitespace ==> !(tokens[i
            + 1] is Whitespace)
}

proof fn lemma_continued_spaced(tokens: Seq<Lexeme>, more: Seq<Lexeme>)
    requires
        spaced_out(tokens),
    ensures
        spaced_out(continued(tokens, more)),
    decreases more.len(),
{
    if more.len() > 0 {
        let t = followed_by(tokens, more[0]);
        assert forall|i: int| 0 <= i < t.len() - 1 && #[trigger] t[i] is Whitespace implies !(t[i
            + 1] is Whitespace) by {
            assert(t[i] == tokens[i]);
            if i + 1 < tokens.len() {
                assert(t[i + 1] == tokens[i + 1]);
            }
        }
        lemma_continued_spaced(t, more.skip(1));
    }
}

/// Every word has text, and a bare word does not start with white space.
pub proof fn law_words_have_text(s: Seq<char>, i: int)
    requires
        0 <= i < tokens_of(s).len(),
    ensures
        tokens_of(s)[i] matches Lexeme::Word(text, quoting) ==> {
            &&& text.len() > 0
            &&& quoting == Quoting::Unquoted ==> !white(text[0])
        },
{
    lemma_lex_worded(Quoting::Unquoted, glyphs(s));
    lemma_continued_worded(seq![], lex(Quoting::Unquoted, glyphs(s)));
    assert(worded(tokens_of(s)[i]));
}

spec fn worded(t: Lexeme) -> bool {
    t matches Lexeme::Word(text, quoting) ==> {
        &&& text.len() > 0
        &&& quoting == Quoting::Unquoted ==> !white(text[0])
    }
}

spec fn all_worded(tokens: Seq<Lexeme>) -> bool {
    forall|i: int| 0 <= i < tokens.len() ==> worded(#[trigger] tokens[i])
}

proof fn lemma_word_worded(mode: Quoting, run: Seq<Glyph>)
    ensures
        all_worded(word(mode, run)),
{
    lemma_trim_blank(chars_of(run));
}

proof fn lemma_lex_worded(mode: Quoting, g: Seq<Glyph>)
    ensures
        all_worded(lex(mode, g)),
    decreases g.len(),
{
    lemma_span_is(mode, g);
    let n = span(mode, g) as int;
    lemma_word_worded(mode, g);
    lemma_word_worded(mode, g.take(n));
    if n < g.len() {
        let rest = g.skip(n);
        let (tokens, next, len) = delimiter(mode, rest);
        lemma_lex_worded(next, rest.skip(len));
        let front = word(mode, g.take(n));
        let back = lex(next, rest.skip(len));
        assert(all_worded(tokens));
        assert(lex(mode, g) == front + tokens + back);
        assert forall|i: int| 0 <= i < (front + tokens + back).len() implies worded(
            #[trigger] (front + tokens + back)[i],
        ) by {
            if i < front.len() {
                assert((front + tokens + back)[i] == front[i]);
            } else if i < front.len() + tokens.len() {
                assert((front + tokens + back)[i] == tokens[i - front.len()]);
            } else {
                assert((front + tokens + back)[i] == back[i - front.len() - tokens.len()]);
            }
        }
    }
}

proof fn lemma_continued_worded(tokens: Seq<Lexeme>, more: Seq<Lexeme>)
    requires
        all_worded(tokens),
        all_worded(more),
    ensures
        all_worded(continued(tokens, more)),
    decreases more.len(),
{
    if more.len() > 0 {
        assert(worded(more[0]));
        assert forall|i: int| 0 <= i < more.skip(1).len() implies worded(
            #[trigger] more.skip(1)[i],
        ) by {
            assert(more.skip(1)[i] == more[i + 1]);
        }
        lemma_continued_worded(followed_by(tokens, more[0]), more.skip(1));
    }
}

/// A quote that is never closed takes everything behind it away, and nothing in
/// front of it.
pub proof fn law_unclosed_quote_is_dropped(before: Seq<char>, quote: char, behind: Seq<char>)
    requires
        complete(before),
        quote == '\'' || quote == '"',
        !glyphs(behind).contains(Glyph::Plain(quote)),
    ensures
        tokens_of(before + seq![quote] + behind) == tokens_of(before),
{
    let mode = if quote == '\'' {
        Quoting::SingleQuoted
    } else {
        Quoting::DoubleQuoted
    };
    let a = glyphs(before);
    let g = glyphs(behind);
    lemma_glyphs_separated(before, quote, behind);
    lemma_lex_add(Quoting::Unquoted, a, seq![plain(quote)] + g);
    lemma_lex_separator(plain(quote), g);
    assert forall|i: int| 0 <= i < g.len() implies within(mode, #[trigger] g[i]) by {
        assert(g.contains(g[i]));
    }
    lemma_lex_end(mode, g);
    assert(lex(Quoting::Unquoted, a) + lex(Quoting::Unquoted, seq![plain(quote)] + g) =~= lex(
        Quoting::Unquoted,
        a,
    ));
}

/// The glyphs of a text with one plain character in it.
proof fn lemma_glyphs_separated(before: Seq<char>, c: char, behind: Seq<char>)
    requires
        !dangling(before),
        c != '\\',
    ensures
        glyphs(before + seq![c] + behind) == glyphs(before) + (seq![plain(c)] + glyphs(behind)),
        glyphs(seq![c] + behind) == seq![plain(c)] + glyphs(behind),
{
    assert(before + seq![c] + behind =~= before + (seq![c] + behind));
    lemma_glyphs_add(before, seq![c] + behind);
    assert((seq![c] + behind).skip(1) =~= behind);
}

/// Outside of quotes one white space character is as good as another, and as
/// good as two.
pub proof fn law_whitespace_is_one(before: Seq<char>, c: char, d: char, behind: Seq<char>)
    requires
        complete(before),
        white(c),
        white(d),
    ensures
        tokens_of(before + seq![c] + behind) == tokens_of(before + seq![d] + behind),
        tokens_of(before + seq![c, d] + behind) == tokens_of(before + seq![c] + behind),
{
    let a = lex(Quoting::Unquoted, glyphs(before));
    let b = lex(Quoting::Unquoted, glyphs(behind));
    let space = seq![Lexeme::Whitespace];
    lemma_whitespace_tokens(before, c, behind);
    lemma_whitespace_tokens(before, d, behind);
    lemma_whitespace_tokens(before, c, seq![d] + behind);
    lemma_whitespace_tokens(seq![], d, behind);
    assert(before + seq![c, d] + behind =~= before + seq![c] + (seq![d] + behind));
    assert(seq![] + seq![d] + behind =~= seq![d] + behind);
    assert(lex(Quoting::Unquoted, glyphs(seq![])) =~= seq![]) by {
        lemma_lex_end(Quoting::Unquoted, glyphs(seq![]));
        lemma_no_word(Quoting::Unquoted);
    }
    assert(lex(Quoting::Unquoted, glyphs(seq![d] + behind)) =~= space + b);
    let t = continued(seq![], a);
    lemma_continued_add(seq![], a + space, b);
    lemma_continued_add(seq![], a, space);
    lemma_continued_one(t, Lexeme::Whitespace);
    lemma_continued_add(seq![], a + space, space + b);
    lemma_continued_add(followed_by(t, Lexeme::Whitespace), space, b);
    lemma_continued_one(followed_by(t, Lexeme::Whitespace), Lexeme::Whitespace);
}

proof fn lemma_whitespace_tokens(before: Seq<char>, c: char, behind: Seq<char>)
    requires
        complete(before),
        white(c),
    ensures
        lex(Quoting::Unquoted, glyphs(before + seq![c] + behind)) == lex(
            Quoting::Unquoted,
            glyphs(before),
        ) + seq![Lexeme::Whitespace] + lex(Quoting::Unquoted, glyphs(behind)),
        mode_after(Quoting::Unquoted, glyphs(before + seq![c] + behind)) == mode_after(
            Quoting::Unquoted,
            glyphs(behind),
        ),
{
    let a = lex(Quoting::Unquoted, glyphs(before));
    let b = lex(Quoting::Unquoted, glyphs(behind));
    lemma_glyphs_separated(before, c, behind);
    lemma_lex_add(Quoting::Unquoted, glyphs(before), seq![plain(c)] + glyphs(behind));
    lemma_lex_separator(plain(c), glyphs(behind));
    assert(a + (seq![Lexeme::Whitespace] + b) =~= a + seq![Lexeme::Whitespace] + b);
}

/// `text` with a backslash in front of each character that would otherwise end
/// a word with quoting `mode`, and of each backslash.
pub open spec fn protected(mode: Quoting, text: Seq<char>) -> Seq<char>
    decreases text.len(),
{
    if text.len() == 0 {
        seq![]
    } else if within(mode, plain(text[0])) && text[0] != '\\' {
        seq![text[0]] + protected(mode, text.skip(1))
    } else {
        seq!['\\', text[0]] + protected(mode, text.skip(1))
    }
}

/// A way to write the word `text` with quoting `mode`.
pub open spec fn written(mode: Quoting, text: Seq<char>) -> Seq<char> {
    match mode {
        Quoting::Unquoted => protected(mode, text),
        Quoting::SingleQuoted => seq!['\''] + protected(mode, text) + seq!['\''],
        Quoting::DoubleQuoted => seq!['"'] + protected(mode, text) + seq!['"'],
    }
}

/// Whether `text` can be a word with quoting `mode`.
pub open spec fn writable(mode: Quoting, text: Seq<char>) -> bool {
    text.len() > 0 && (mode == Quoting::Unquoted ==> !white(text[0]))
}

/// Any text can be written as a word between quotes of either kind, and any that
/// does not start with white space as a bare word: what is read is that text.
pub proof fn law_written_word(mode: Quoting, text: Seq<char>)
    requires
        writable(mode, text),
    ensures
        tokens_of(written(mode, text)) == seq![Lexeme::Word(text, mode)],
        complete(written(mode, text)),
{
    lemma_written(mode, text);
    lemma_continued_one(seq![], Lexeme::Word(text, mode));
    assert(Seq::<Lexeme>::empty().push(Lexeme::Word(text, mode)) =~= seq![
        Lexeme::Word(text, mode),
    ]);
}

proof fn lemma_protected(mode: Quoting, text: Seq<char>)
    ensures
        all_within(mode, glyphs(protected(mode, text))),
        chars_of(glyphs(protected(mode, text))) == text,
        !dangling(protected(mode, text)),
    decreases text.len(),
{
    if text.len() == 0 {
        assert(chars_of(glyphs(seq![])) =~= text);
    } else {
        let c = text[0];
        let rest = protected(mode, text.skip(1));
        lemma_protected(mode, text.skip(1));
        let g = glyphs(protected(mode, text));
        let x = if within(mode, plain(c)) && c != '\\' {
            assert((seq![c] + rest).skip(1) =~= rest);
            plain(c)
        } else {
            assert((seq!['\\', c] + rest).skip(2) =~= rest);
            escaped(c)
        };
        assert(g =~= seq![x] + glyphs(rest));
        assert forall|i: int| 0 <= i < g.len() implies within(mode, #[trigger] g[i]) by {
            if i > 0 {
                assert(g[i] == glyphs(rest)[i - 1]);
            }
        }
        assert(chars_of(g) =~= seq![c] + chars_of(glyphs(rest)));
        assert(seq![c] + text.skip(1) =~= text);
    }
}

proof fn lemma_dangling_add(a: Seq<char>, b: Seq<char>)
    requires
        !dangling(a),
    ensures
        dangling(a + b) == dangling(b),
    decreases a.len(),
{
    if a.len() == 0 {
        assert(a + b =~= b);
    } else if a[0] != '\\' {
        assert((a + b).skip(1) =~= a.skip(1) + b);
        lemma_dangling_add(a.skip(1), b);
    } else {
        assert((a + b).skip(2) =~= a.skip(2) + b);
        lemma_dangling_add(a.skip(2), b);
    }
}

proof fn lemma_not_dangling(c: char)
    requires
        c != '\\',
    ensures
        !dangling(seq![c]),
{
    reveal_with_fuel(dangling, 2);
    assert(seq![c].skip(1) =~= seq![]);
}

proof fn lemma_trim_text(s: Seq<char>)
    requires
        s.len() > 0,
        !white(s[0]),
    ensures
        trim_start(s) == s,
{
}

proof fn lemma_written(mode: Quoting, text: Seq<char>)
    requires
        writable(mode, text),
    ensures
        lex(Quoting::Unquoted, glyphs(written(mode, text))) == seq![Lexeme::Word(text, mode)],
        complete(written(mode, text)),
{
    let body = protected(mode, text);
    let g = glyphs(body);
    lemma_protected(mode, text);
    if mode == Quoting::Unquoted {
        lemma_trim_text(text);
        lemma_lex_end(mode, g);
        lemma_span(mode, g, seq![]);
        assert(g + seq![] =~= g);
    } else {
        let q = if mode == Quoting::SingleQuoted {
            '\''
        } else {
            '"'
        };
        let close = seq![plain(q)];
        assert(seq![q] + seq![] =~= seq![q]);
        assert(seq![q].skip(1) =~= seq![]);
        lemma_glyphs_separated(seq![], q, body + seq![q]);
        lemma_glyphs_separated(body, q, seq![]);
        assert(seq![] + seq![q] + (body + seq![q]) =~= written(mode, text));
        assert(body + seq![q] + seq![] =~= body + seq![q]);
        assert(glyphs(body + seq![q]) =~= g + close);
        assert(glyphs(written(mode, text)) =~= seq![plain(q)] + (g + close));
        lemma_lex_separator(plain(q), g + close);
        lemma_lex_delimiter(mode, g, close);
        lemma_mode_delimiter(mode, g, close);
        lemma_lex_end(Quoting::Unquoted, seq![]);
        lemma_no_word(Quoting::Unquoted);
        assert(close.skip(1) =~= seq![]);
        assert(word(mode, g) =~= seq![Lexeme::Word(text, mode)]);
        assert(lex(mode, g + close) =~= seq![Lexeme::Word(text, mode)]);
        assert(lex(Quoting::Unquoted, glyphs(written(mode, text))) =~= seq![
            Lexeme::Word(text, mode),
        ]);
        lemma_not_dangling(q);
        lemma_dangling_add(seq![q], body + seq![q]);
        lemma_dangling_add(body, seq![q]);
        assert(seq![q] + (body + seq![q]) =~= written(mode, text));
    }
}

/// Words, each with its quoting, written behind each other with a space between.
pub open spec fn line(words: Seq<(Seq<char>, Quoting)>) -> Seq<char>
    decreases words.len(),
{
    if words.len() == 0 {
        seq![]
    } else if words.len() == 1 {
        written(words[0].1, words[0].0)
    } else {
        line(words.drop_last()) + seq![' '] + written(words.last().1, words.last().0)
    }
}

/// The tokens of words with white space between them.
pub open spec fn word_tokens(words: Seq<(Seq<char>, Quoting)>) -> Seq<Lexeme>
    decreases words.len(),
{
    if words.len() == 0 {
        seq![]
    } else if words.len() == 1 {
        seq![Lexeme::Word(words[0].0, words[0].1)]
    } else {
        word_tokens(words.drop_last()) + seq![
            Lexeme::Whitespace,
            Lexeme::Word(words.last().0, words.last().1),
        ]
    }
}

/// Words that are written with a space between them are read one by one, each
/// with its text and its quoting.
pub proof fn law_line_of_words(words: Seq<(Seq<char>, Quoting)>)
    requires
        forall|i: int|
            0 <= i < words.len() ==> writable((#[trigger] words[i]).1, words[i].0),
    ensures
        tokens_of(line(words)) == word_tokens(words),
        complete(line(words)),
{
    lemma_line(words);
    lemma_word_tokens(words);
}

proof fn lemma_line(words: Seq<(Seq<char>, Quoting)>)
    requires
        forall|i: int|
            0 <= i < words.len() ==> writable((#[trigger] words[i]).1, words[i].0),
    ensures
        lex(Quoting::Unquoted, glyphs(line(words))) == word_tokens(words),
        complete(line(words)),
    decreases words.len(),
{
    if words.len() == 0 {
        lemma_lex_end(Quoting::Unquoted, glyphs(seq![]));
        lemma_no_word(Quoting::Unquoted);
        assert(lex(Quoting::Unquoted, glyphs(seq![])) =~= seq![]);
    } else if words.len() == 1 {
        lemma_written(words[0].1, words[0].0);
    } else {
        let front = words.drop_last();
        let (text, mode) = words.last();
        assert forall|i: int| 0 <= i < front.len() implies writable(
            (#[trigger] front[i]).1,
            front[i].0,
        ) by {
            assert(front[i] == words[i]);
        }
        lemma_line(front);
        lemma_written(mode, text);
        lemma_whitespace_tokens(line(front), ' ', written(mode, text));
        assert(word_tokens(front) + seq![Lexeme::Whitespace] + seq![Lexeme::Word(text, mode)]
            =~= word_tokens(words));
        lemma_dangling_add(line(front), seq![' ']);
        lemma_not_dangling(' ');
        lemma_dangling_add(line(front) + seq![' '], written(mode, text));
    }
}

proof fn lemma_word_tokens(words: Seq<(Seq<char>, Quoting)>)
    ensures
        continued(seq![], word_tokens(words)) == word_tokens(words),
        words.len() > 0 ==> word_tokens(words).len() > 0 && word_tokens(words).last() is Word,
    decreases words.len(),
{
    if words.len() == 1 {
        lemma_continued_one(seq![], word_tokens(words)[0]);
        assert(Seq::<Lexeme>::empty().push(word_tokens(words)[0]) =~= word_tokens(words));
    } else if words.len() > 1 {
        let front = words.drop_last();
        let t = word_tokens(front);
        let last = Lexeme::Word(words.last().0, words.last().1);
        lemma_word_tokens(front);
        let space = seq![Lexeme::Whitespace];
        lemma_continued_add(seq![], t + space, seq![last]);
        lemma_continued_add(seq![], t, space);
        lemma_continued_one(t, Lexeme::Whitespace);
        lemma_continued_one(t.push(Lexeme::Whitespace), last);
        assert(t + space + seq![last] =~= word_tokens(words));
        assert(t.push(Lexeme::Whitespace).push(last) =~= word_tokens(words));
    }
}

/// A command line that has exactly these arguments: each stands between single
/// quotes.
pub open spec fn command_line(args: Seq<Seq<char>>) -> Seq<char> {
    line(args.map_values(|text: Seq<char>| (text, Quoting::SingleQuoted)))
}

/// Any arguments that have text can be written in one line, and that line, read
/// back, asks for a command with those arguments, whatever the variables are.
pub proof fn law_command_line(args: Seq<Seq<char>>, vars: Seq<(String, String)>)
    requires
        args.len() > 0,
        forall|i: int| 0 <= i < args.len() ==> (#[trigger] args[i]).len() > 0,
    ensures
        arguments(tokens_of(command_line(args)), vars) == args,
        parsed(tokens_of(command_line(args)), vars) == Some(request(args)),
{
    let words = args.map_values(|text: Seq<char>| (text, Quoting::SingleQuoted));
    assert forall|i: int| 0 <= i < words.len() implies writable(
        (#[trigger] words[i]).1,
        words[i].0,
    ) by {
        assert(args[i].len() > 0);
    }
    law_line_of_words(words);
    lemma_word_tokens(words);
    lemma_arguments_of_words(args, vars);
}

proof fn lemma_arguments_of_words(args: Seq<Seq<char>>, vars: Seq<(String, String)>)
    ensures
        arguments(
            word_tokens(args.map_values(|text: Seq<char>| (text, Quoting::SingleQuoted))),
            vars,
        ) == args,
    decreases args.len(),
{
    let words = args.map_values(|text: Seq<char>| (text, Quoting::SingleQuoted));
    let tokens = word_tokens(words);
    reveal_with_fuel(arguments, 3);
    if args.len() == 0 {
        assert(arguments(tokens, vars) =~= args);
    } else if args.len() == 1 {
        assert(tokens.drop_last() =~= seq![]);
        assert(arguments(tokens, vars) =~= args);
    } else {
        let front = args.drop_last();
        lemma_arguments_of_words(front, vars);
        let front_words = front.map_values(|text: Seq<char>| (text, Quoting::SingleQuoted));
        assert(words.drop_last() =~= front_words);
        assert(tokens.last() == Lexeme::Word(args.last(), Quoting::SingleQuoted));
        assert(tokens.drop_last().last() == Lexeme::Whitespace);
        assert(tokens.drop_last().drop_last() =~= word_tokens(front_words));
        assert(arguments(tokens, vars) =~= args);
    }
}

/// White space and operators make no arguments: those of tokens in two parts are
/// those of the parts, and those of a part without words are none.
pub proof fn law_only_words_are_arguments(
    a: Seq<Lexeme>,
    b: Seq<Lexeme>,
    vars: Seq<(String, String)>,
)
    ensures
        arguments(a + b, vars) == arguments(a, vars) + arguments(b, vars),
        (forall|i: int| 0 <= i < b.len() ==> !(#[trigger] b[i] is Word)) ==> arguments(a + b, vars)
            == arguments(a, vars),
    decreases b.len(),
{
    if b.len() == 0 {
        assert(a + b =~= a);
        assert(arguments(a, vars) + arguments(b, vars) =~= arguments(a, vars));
    } else {
        assert((a + b).drop_last() =~= a + b.drop_last());
        assert((a + b).last() == b.last());
        law_only_words_are_arguments(a, b.drop_last(), vars);
        if let Some(text) = argument(b.last(), vars) {
            assert((arguments(a, vars) + arguments(b.drop_last(), vars)).push(text) =~= arguments(
                a,
                vars,
            ) + arguments(b.drop_last(), vars).push(text));
        }
        if forall|i: int| 0 <= i < b.len() ==> !(#[trigger] b[i] is Word) {
            assert forall|i: int| 0 <= i < b.drop_last().len() implies !(
            #[trigger] b.drop_last()[i] is Word) by {
                assert(b.drop_last()[i] == b[i]);
            }
            assert(!(b.last() is Word)) by {
                assert(!(b[b.len() - 1] is Word));
            }
        }
    }
}

/// White space in front of a line or behind it, such as the end of the line,
/// changes none of its arguments.
pub proof fn law_surrounding_whitespace(s: Seq<char>, c: char, vars: Seq<(String, String)>)
    requires
        complete(s),
        white(c),
    ensures
        arguments(tokens_of(s + seq![c]), vars) == arguments(tokens_of(s), vars),
        arguments(tokens_of(seq![c] + s), vars) == arguments(tokens_of(s), vars),
{
    let tokens = lex(Quoting::Unquoted, glyphs(s));
    let space = seq![Lexeme::Whitespace];
    assert(lex(Quoting::Unquoted, glyphs(seq![])) =~= seq![]) by {
        lemma_lex_end(Quoting::Unquoted, glyphs(seq![]));
        lemma_no_word(Quoting::Unquoted);
    }
    lemma_whitespace_tokens(s, c, seq![]);
    lemma_whitespace_tokens(seq![], c, s);
    assert(s + seq![c] + seq![] =~= s + seq![c]);
    assert(seq![] + seq![c] + s =~= seq![c] + s);
    assert(tokens + space + seq![] =~= tokens + space);
    assert(seq![] + space + tokens =~= space + tokens);
    lemma_arguments_continued(seq![], tokens, vars);
    lemma_arguments_continued(seq![], tokens + space, vars);
    lemma_arguments_continued(seq![], space + tokens, vars);
    law_only_words_are_arguments(tokens, space, vars);
    law_only_words_are_arguments(seq![], space, vars);
    law_only_words_are_arguments(space, tokens, vars);
    assert(seq![] + space =~= space);
    assert(arguments(seq![], vars) + arguments(tokens, vars) =~= arguments(tokens, vars));
}

proof fn lemma_arguments_continued(
    tokens: Seq<Lexeme>,
    more: Seq<Lexeme>,
    vars: Seq<(String, String)>,
)
    ensures
        arguments(continued(tokens, more), vars) == arguments(tokens, vars) + arguments(more, vars),
    decreases more.len(),
{
    if more.len() == 0 {
        assert(arguments(tokens, vars) + arguments(more, vars) =~= arguments(tokens, vars));
    } else {
        let first = seq![more[0]];
        let next = followed_by(tokens, more[0]);
        lemma_arguments_continued(next, more.skip(1), vars);
        assert(first + more.skip(1) =~= more);
        law_only_words_are_arguments(first, more.skip(1), vars);
        law_only_words_are_arguments(tokens, first, vars);
        assert(tokens.push(more[0]) =~= tokens + first);
        assert(arguments(next, vars) == arguments(tokens, vars) + arguments(first, vars));
        assert(arguments(tokens, vars) + arguments(first, vars) + arguments(more.skip(1), vars)
            =~= arguments(tokens, vars) + (arguments(first, vars) + arguments(
            more.skip(1),
            vars,
        )));
    }
}

/// How an operator is written.
pub open spec fn symbol(op: Operator) -> Seq<char> {
    match op {
        Operator::And => seq!['&', '&'],
        Operator::Andpercent => seq!['&'],
        Operator::Or => seq!['|', '|'],
        Operator::Pipe => seq!['|'],
        Operator::Semicolon => seq![';'],
    }
}

/// A line with an operator in it reads as what stands in front of the operator,
/// the operator, and what stands behind it, unless the operator could be taken
/// together with a character of its own kind next to it.
pub proof fn law_operator_cuts_a_line(before: Seq<char>, op: Operator, behind: Seq<char>)
    requires
        complete(before),
        op != Operator::Semicolon && glyphs(before).len() > 0 ==> glyphs(before).last()
            != Glyph::Plain(symbol(op)[0]),
        (op == Operator::Andpercent || op == Operator::Pipe) && behind.len() > 0 ==> behind[0]
            != symbol(op)[0],
    ensures
        tokens_of(before + symbol(op) + behind) == tokens_of(before) + seq![Lexeme::Operator(op)]
            + tokens_of(behind),
{
    let mode = Quoting::Unquoted;
    let g = glyphs(symbol(op) + behind);
    lemma_operator_tokens(op, behind);
    assert(before + symbol(op) + behind =~= before + (symbol(op) + behind));
    lemma_glyphs_add(before, symbol(op) + behind);
    lemma_lex_add(mode, glyphs(before), g);
    lemma_tokens_joined(
        lex(mode, glyphs(before)),
        Lexeme::Operator(op),
        lex(mode, glyphs(behind)),
    );
}

proof fn lemma_operator_tokens(op: Operator, behind: Seq<char>)
    requires
        (op == Operator::Andpercent || op == Operator::Pipe) && behind.len() > 0 ==> behind[0]
            != symbol(op)[0],
    ensures
        lex(Quoting::Unquoted, glyphs(symbol(op) + behind)) == seq![Lexeme::Operator(op)] + lex(
            Quoting::Unquoted,
            glyphs(behind),
        ),
        glyphs(symbol(op) + behind).len() > 0,
        glyphs(symbol(op) + behind)[0] == plain(symbol(op)[0]),
        !within(Quoting::Unquoted, plain(symbol(op)[0])),
{
    let mode = Quoting::Unquoted;
    let s = symbol(op) + behind;
    let c = symbol(op)[0];
    let g = glyphs(s);
    assert(s.skip(0) =~= s);
    lemma_glyphs_step(s, 0);
    if op == Operator::And || op == Operator::Or {
        lemma_glyphs_step(s, 1);
        assert(s.skip(2) =~= behind);
        assert(g =~= seq![plain(c), plain(c)] + glyphs(behind));
        assert(g.skip(2) =~= glyphs(behind));
    } else {
        assert(s.skip(1) =~= behind);
        assert(g =~= seq![plain(c)] + glyphs(behind));
        assert(g.skip(1) =~= glyphs(behind));
        if behind.len() > 0 {
            assert(behind.skip(0) =~= behind);
            lemma_glyphs_step(behind, 0);
        }
    }
    lemma_lex_delimiter(mode, seq![], g);
    lemma_no_word(mode);
    assert(seq![] + g =~= g);
    assert(seq![] + seq![Lexeme::Operator(op)] =~= seq![Lexeme::Operator(op)]);
}

/// A line with a quoted word in it reads as what stands in front of the word, the
/// word, and what stands behind it.
pub proof fn law_quoted_word_cuts_a_line(
    before: Seq<char>,
    mode: Quoting,
    text: Seq<char>,
    behind: Seq<char>,
)
    requires
        complete(before),
        mode != Quoting::Unquoted,
        text.len() > 0,
    ensures
        tokens_of(before + written(mode, text) + behind) == tokens_of(before) + seq![
            Lexeme::Word(text, mode),
        ] + tokens_of(behind),
{
    let q = if mode == Quoting::SingleQuoted {
        '\''
    } else {
        '"'
    };
    let body = protected(mode, text);
    let run = glyphs(body);
    let rest = seq![plain(q)] + glyphs(behind);
    lemma_protected(mode, text);
    assert(before + written(mode, text) + behind =~= before + seq![q] + (body + seq![q]
        + behind));
    lemma_glyphs_separated(before, q, body + seq![q] + behind);
    lemma_glyphs_separated(body, q, behind);
    lemma_lex_add(Quoting::Unquoted, glyphs(before), seq![plain(q)] + (run + rest));
    lemma_lex_separator(plain(q), run + rest);
    lemma_lex_delimiter(mode, run, rest);
    assert(rest.skip(1) =~= glyphs(behind));
    assert(word(mode, run) =~= seq![Lexeme::Word(text, mode)]);
    let tail = lex(Quoting::Unquoted, glyphs(behind));
    assert(seq![Lexeme::Word(text, mode)] + seq![] + tail =~= seq![Lexeme::Word(text, mode)]
        + tail);
    assert(seq![] + (seq![Lexeme::Word(text, mode)] + tail) =~= seq![Lexeme::Word(text, mode)]
        + tail);
    lemma_tokens_joined(
        lex(Quoting::Unquoted, glyphs(before)),
        Lexeme::Word(text, mode),
        tail,
    );
}

/// Behind a token that is no white space, tokens are put as if nothing stood
/// in front of them.
proof fn lemma_tokens_joined(a: Seq<Lexeme>, t: Lexeme, b: Seq<Lexeme>)
    requires
        !(t is Whitespace),
    ensures
        continued(seq![], a + (seq![t] + b)) == continued(seq![], a) + seq![t] + continued(
            seq![],
            b,
        ),
{
    let front = continued(seq![], a);
    lemma_continued_add(seq![], a, seq![t] + b);
    lemma_continued_add(front, seq![t], b);
    lemma_continued_one(front, t);
    assert(front.push(t) =~= front + seq![t]);
    lemma_continued_front(front + seq![t], seq![], b);
    assert(front + seq![t] + seq![] =~= front + seq![t]);
}

proof fn lemma_continued_front(front: Seq<Lexeme>, tokens: Seq<Lexeme>, more: Seq<Lexeme>)
    requires
        front.len() > 0,
        !(front.last() is Whitespace),
    ensures
        continued(front + tokens, more) == front + continued(tokens, more),
    decreases more.len(),
{
    if more.len() > 0 {
        assert(followed_by(front + tokens, more[0]) =~= front + followed_by(tokens, more[0])) by {
            if tokens.len() > 0 {
                assert((front + tokens).last() == tokens.last());
            } else {
                assert((front + tokens).last() == front.last());
            }
        }
        lemma_continued_front(front, followed_by(tokens, more[0]), more.skip(1));
    }
}

/// One character of a word as it is typed: by itself, or behind a backslash.
pub enum Stroke {
    Bare(char),
    Backslashed(char),
}

/// What is typed for `strokes`.
pub open spec fn typed(strokes: Seq<Stroke>) -> Seq<char>
    decreases strokes.len(),
{
    if strokes.len() == 0 {
        seq![]
    } else {
        match strokes[0] {
            Stroke::Bare(c) => seq![c] + typed(strokes.skip(1)),
            Stroke::Backslashed(c) => seq!['\\', c] + typed(strokes.skip(1)),
        }
    }
}

/// The character that a stroke stands for: behind a backslash `n` is a line feed,
/// `t` a tab, `r` a carriage return and `0` a NUL; everything else is itself.
pub open spec fn meant_char(stroke: Stroke) -> char {
    match stroke {
        Stroke::Bare(c) => c,
        Stroke::Backslashed(c) => if c == 'n' {
            '\u{a}'
        } else if c == 't' {
            '\u{9}'
        } else if c == 'r' {
            '\u{d}'
        } else if c == '0' {
            '\u{0}'
        } else {
            c
        },
    }
}

/// The text that `strokes` stand for.
pub open spec fn meant(strokes: Seq<Stroke>) -> Seq<char> {
    Seq::new(strokes.len(), |i: int| meant_char(strokes[i]))
}

/// Whether `c`, typed by itself, ends a bare word: white space, a quote of either
/// kind, `&`, `|` or `;`.
pub open spec fn ends_bare_word(c: char) -> bool {
    white(c) || c == '\'' || c == '"' || c == '&' || c == '|' || c == ';'
}

/// Whether `strokes` can be typed in a bare word.
pub open spec fn typed_bare(strokes: Seq<Stroke>) -> bool {
    forall|i: int|
        0 <= i < strokes.len() ==> (#[trigger] strokes[i] matches Stroke::Bare(c)
            ==> !ends_bare_word(c) && c != '\\')
}

/// Whether `strokes` can be typed between two `quote` characters.
pub open spec fn typed_between(quote: char, strokes: Seq<Stroke>) -> bool {
    forall|i: int|
        0 <= i < strokes.len() ==> (#[trigger] strokes[i] matches Stroke::Bare(c) ==> c != quote
            && c != '\\')
}

/// How a word between two `quote` characters counts as written.
pub open spec fn quoting_of(quote: char) -> Quoting {
    if quote == '\'' {
        Quoting::SingleQuoted
    } else {
        Quoting::DoubleQuoted
    }
}

/// The glyphs of `strokes`.
spec fn stroke_glyphs(strokes: Seq<Stroke>) -> Seq<Glyph> {
    Seq::new(
        strokes.len(),
        |i: int|
            match strokes[i] {
                Stroke::Bare(c) => plain(c),
                Stroke::Backslashed(c) => escaped(unescaped(c)),
            },
    )
}

proof fn lemma_typed(strokes: Seq<Stroke>, behind: Seq<char>)
    requires
        forall|i: int|
            0 <= i < strokes.len() ==> (#[trigger] strokes[i] matches Stroke::Bare(c) ==> c != '\\'),
    ensures
        glyphs(typed(strokes) + behind) == stroke_glyphs(strokes) + glyphs(behind),
        chars_of(stroke_glyphs(strokes)) == meant(strokes),
    decreases strokes.len(),
{
    if strokes.len() == 0 {
        assert(typed(strokes) + behind =~= behind);
        assert(stroke_glyphs(strokes) + glyphs(behind) =~= glyphs(behind));
    } else {
        let rest = strokes.skip(1);
        assert forall|i: int| 0 <= i < rest.len() implies (#[trigger] rest[i] matches Stroke::Bare(
            c,
        ) ==> c != '\\') by {
            assert(rest[i] == strokes[i + 1]);
        }
        lemma_typed(rest, behind);
        let s = typed(strokes) + behind;
        let first = stroke_glyphs(strokes)[0];
        assert(stroke_glyphs(strokes) =~= seq![first] + stroke_glyphs(rest));
        match strokes[0] {
            Stroke::Bare(c) => {
                assert(s.skip(1) =~= typed(rest) + behind);
            },
            Stroke::Backslashed(c) => {
                assert(s.skip(2) =~= typed(rest) + behind);
            },
        }
        assert(glyphs(s) =~= seq![first] + glyphs(typed(rest) + behind));
        assert(glyphs(s) =~= stroke_glyphs(strokes) + glyphs(behind));
    }
    assert(chars_of(stroke_glyphs(strokes)) =~= meant(strokes));
}

proof fn lemma_typed_within(mode: Quoting, strokes: Seq<Stroke>)
    requires
        mode == Quoting::Unquoted ==> typed_bare(strokes),
        mode == Quoting::SingleQuoted ==> typed_between('\'', strokes),
        mode == Quoting::DoubleQuoted ==> typed_between('"', strokes),
    ensures
        all_within(mode, stroke_glyphs(strokes)),
        forall|i: int|
            0 <= i < strokes.len() ==> (#[trigger] strokes[i] matches Stroke::Bare(c) ==> c != '\\'),
{
    let g = stroke_glyphs(strokes);
    assert forall|i: int| 0 <= i < g.len() implies within(mode, #[trigger] g[i]) by {
        assert(strokes[i] matches Stroke::Bare(c) ==> c != '\\');
    }
}

proof fn lemma_continued_first(tokens: Seq<Lexeme>, more: Seq<Lexeme>)
    requires
        tokens.len() > 0,
    ensures
        continued(tokens, more).len() > 0,
        continued(tokens, more)[0] == tokens[0],
    decreases more.len(),
{
    if more.len() > 0 {
        lemma_continued_first(followed_by(tokens, more[0]), more.skip(1));
    }
}

proof fn lemma_continued_behind(front: Seq<Lexeme>, tokens: Seq<Lexeme>, more: Seq<Lexeme>)
    requires
        tokens.len() > 0,
    ensures
        continued(front + tokens, more) == front + continued(tokens, more),
    decreases more.len(),
{
    if more.len() > 0 {
        assert((front + tokens).last() == tokens.last());
        assert(followed_by(front + tokens, more[0]) =~= front + followed_by(tokens, more[0]));
        lemma_continued_behind(front, followed_by(tokens, more[0]), more.skip(1));
    }
}

proof fn lemma_trim_lead(lead: Seq<char>, text: Seq<char>)
    requires
        forall|i: int| 0 <= i < lead.len() ==> white(#[trigger] lead[i]),
        text.len() > 0 ==> !white(text[0]),
    ensures
        trim_start(lead + text) == text,
    decreases lead.len(),
{
    if lead.len() == 0 {
        assert(lead + text =~= text);
    } else {
        assert(white(lead[0]));
        assert((lead + text).skip(1) =~= lead.skip(1) + text);
        assert forall|i: int| 0 <= i < lead.skip(1).len() implies white(
            #[trigger] lead.skip(1)[i],
        ) by {
            assert(white(lead[i + 1]));
        }
        lemma_trim_lead(lead.skip(1), text);
    }
}

proof fn lemma_tokens_of_nothing()
    ensures
        lex(Quoting::Unquoted, seq![]) == Seq::<Lexeme>::empty(),
        tokens_of(seq![]) == Seq::<Lexeme>::empty(),
{
    lemma_lex_end(Quoting::Unquoted, seq![]);
    lemma_no_word(Quoting::Unquoted);
    assert(glyphs(seq![]) =~= seq![]);
}

/// A line with nothing in it has no tokens, and a backslash with nothing behind
/// it is none.
pub proof fn law_nothing_to_read()
    ensures
        tokens_of(seq![]).len() == 0,
        tokens_of(seq!['\\']).len() == 0,
{
    lemma_tokens_of_nothing();
    assert(glyphs(seq!['\\']) =~= seq![]);
}

/// A line that starts with white space has a white space token in front of the
/// tokens of the rest, unless those start with one themselves.
pub proof fn law_line_starts_with_whitespace(c: char, behind: Seq<char>)
    requires
        white(c),
    ensures
        tokens_of(behind).len() > 0 && tokens_of(behind)[0] is Whitespace ==> tokens_of(
            seq![c] + behind,
        ) == tokens_of(behind),
        tokens_of(behind).len() == 0 || !(tokens_of(behind)[0] is Whitespace) ==> tokens_of(
            seq![c] + behind,
        ) == seq![Lexeme::Whitespace] + tokens_of(behind),
{
    let more = lex(Quoting::Unquoted, glyphs(behind));
    let space = seq![Lexeme::Whitespace];
    assert((seq![c] + behind).skip(1) =~= behind);
    lemma_lex_separator(plain(c), glyphs(behind));
    lemma_continued_add(seq![], space, more);
    lemma_continued_one(seq![], Lexeme::Whitespace);
    assert(Seq::<Lexeme>::empty().push(Lexeme::Whitespace) =~= space);
    if more.len() == 0 {
        assert(space + Seq::<Lexeme>::empty() =~= space);
    } else if more[0] is Whitespace {
        assert(followed_by(seq![], more[0]) =~= space);
        assert(followed_by(space, more[0]) =~= space);
        lemma_continued_first(space, more.skip(1));
    } else {
        let first = seq![more[0]];
        assert(followed_by(seq![], more[0]) =~= first);
        assert(followed_by(space, more[0]) =~= space + first);
        lemma_continued_behind(space, first, more.skip(1));
        lemma_continued_first(first, more.skip(1));
    }
}

/// A line that starts with an operator has its token in front of the tokens of
/// the rest. `&` and `|` are operators of their own only where they are not
/// typed twice.
pub proof fn law_line_starts_with_operator(behind: Seq<char>)
    ensures
        tokens_of(seq![';'] + behind) == seq![Lexeme::Operator(Operator::Semicolon)] + tokens_of(
            behind,
        ),
        tokens_of(seq!['&', '&'] + behind) == seq![Lexeme::Operator(Operator::And)] + tokens_of(
            behind,
        ),
        tokens_of(seq!['|', '|'] + behind) == seq![Lexeme::Operator(Operator::Or)] + tokens_of(
            behind,
        ),
        behind.len() == 0 || behind[0] != '&' ==> tokens_of(seq!['&'] + behind) == seq![
            Lexeme::Operator(Operator::Andpercent),
        ] + tokens_of(behind),
        behind.len() == 0 || behind[0] != '|' ==> tokens_of(seq!['|'] + behind) == seq![
            Lexeme::Operator(Operator::Pipe),
        ] + tokens_of(behind),
{
    lemma_line_starts_with_operator(Operator::Semicolon, behind);
    lemma_line_starts_with_operator(Operator::And, behind);
    lemma_line_starts_with_operator(Operator::Or, behind);
    if behind.len() == 0 || behind[0] != '&' {
        lemma_line_starts_with_operator(Operator::Andpercent, behind);
    }
    if behind.len() == 0 || behind[0] != '|' {
        lemma_line_starts_with_operator(Operator::Pipe, behind);
    }
}

proof fn lemma_line_starts_with_operator(op: Operator, behind: Seq<char>)
    requires
        (op == Operator::Andpercent || op == Operator::Pipe) && behind.len() > 0 ==> behind[0]
            != symbol(op)[0],
    ensures
        tokens_of(symbol(op) + behind) == seq![Lexeme::Operator(op)] + tokens_of(behind),
{
    lemma_operator_tokens(op, behind);
    lemma_starts_with(Lexeme::Operator(op), lex(Quoting::Unquoted, glyphs(behind)));
}

proof fn lemma_starts_with(t: Lexeme, more: Seq<Lexeme>)
    requires
        !(t is Whitespace),
    ensures
        continued(seq![], seq![t] + more) == seq![t] + continued(seq![], more),
{
    lemma_tokens_joined(seq![], t, more);
    assert(seq![] + (seq![t] + more) =~= seq![t] + more);
    assert(Seq::<Lexeme>::empty() + seq![t] =~= seq![t]);
}

/// A line that starts with a quoted word has that word in front of the tokens of
/// the rest. Between the quotes everything counts but a quote of the same kind
/// and a backslash; two quotes with nothing between them are no word.
pub proof fn law_line_starts_with_quoted_word(
    quote: char,
    strokes: Seq<Stroke>,
    behind: Seq<char>,
)
    requires
        quote == '\'' || quote == '"',
        typed_between(quote, strokes),
    ensures
        strokes.len() > 0 ==> tokens_of(seq![quote] + typed(strokes) + seq![quote] + behind)
            == seq![Lexeme::Word(meant(strokes), quoting_of(quote))] + tokens_of(behind),
        strokes.len() == 0 ==> tokens_of(seq![quote] + typed(strokes) + seq![quote] + behind)
            == tokens_of(behind),
{
    let mode = quoting_of(quote);
    let run = stroke_glyphs(strokes);
    let rest = seq![plain(quote)] + glyphs(behind);
    let more = lex(Quoting::Unquoted, glyphs(behind));
    let s = seq![quote] + typed(strokes) + seq![quote] + behind;
    lemma_typed_within(mode, strokes);
    lemma_typed(strokes, seq![quote] + behind);
    assert(s.skip(1) =~= typed(strokes) + (seq![quote] + behind));
    assert((seq![quote] + behind).skip(1) =~= behind);
    assert(glyphs(s) =~= seq![plain(quote)] + (run + rest));
    lemma_lex_separator(plain(quote), run + rest);
    lemma_lex_delimiter(mode, run, rest);
    assert(rest.skip(1) =~= glyphs(behind));
    let lexed = lex(Quoting::Unquoted, glyphs(s));
    assert(lexed =~= word(mode, run) + more);
    if strokes.len() > 0 {
        assert(word(mode, run) =~= seq![Lexeme::Word(meant(strokes), mode)]);
        lemma_starts_with(Lexeme::Word(meant(strokes), mode), more);
    } else {
        assert(lexed =~= more);
    }
}

/// A quote that is not closed hides all that is typed behind it.
pub proof fn law_line_starts_with_open_quote(quote: char, strokes: Seq<Stroke>)
    requires
        quote == '\'' || quote == '"',
        typed_between(quote, strokes),
    ensures
        tokens_of(seq![quote] + typed(strokes)).len() == 0,
        tokens_of(seq![quote] + typed(strokes) + seq!['\\']).len() == 0,
{
    let mode = quoting_of(quote);
    let run = stroke_glyphs(strokes);
    let s = seq![quote] + typed(strokes);
    let t = s + seq!['\\'];
    lemma_typed_within(mode, strokes);
    lemma_typed(strokes, seq![]);
    lemma_typed(strokes, seq!['\\']);
    assert(glyphs(seq![]) =~= seq![]);
    assert(glyphs(seq!['\\']) =~= seq![]);
    assert(s.skip(1) =~= typed(strokes) + seq![]);
    assert(t.skip(1) =~= typed(strokes) + seq!['\\']);
    assert(glyphs(s) =~= seq![plain(quote)] + run);
    assert(glyphs(t) =~= seq![plain(quote)] + run);
    lemma_lex_separator(plain(quote), run);
    lemma_lex_end(mode, run);
    assert(lex(Quoting::Unquoted, seq![plain(quote)] + run) =~= seq![]);
}

/// A line that starts with a bare word has that word in front of the tokens of the
/// rest. The word goes up to the first character, not behind a backslash, that is
/// white space, a quote, `&`, `|` or `;`, or to the end of the line. White space
/// that backslashes put at its start is left out of it, and where nothing else is
/// in it there is no word.
pub proof fn law_line_starts_with_bare_word(
    lead: Seq<Stroke>,
    strokes: Seq<Stroke>,
    behind: Seq<char>,
)
    requires
        typed_bare(lead),
        typed_bare(strokes),
        forall|i: int| 0 <= i < lead.len() ==> white(meant_char(#[trigger] lead[i])),
        strokes.len() > 0 ==> !white(meant_char(strokes[0])),
        behind.len() == 0 || behind == seq!['\\'] || ends_bare_word(behind[0]),
    ensures
        strokes.len() > 0 ==> tokens_of(typed(lead) + typed(strokes) + behind) == seq![
            Lexeme::Word(meant(strokes), Quoting::Unquoted),
        ] + tokens_of(behind),
        strokes.len() == 0 ==> tokens_of(typed(lead) + typed(strokes) + behind) == tokens_of(
            behind,
        ),
{
    let mode = Quoting::Unquoted;
    let first = stroke_glyphs(lead);
    let second = stroke_glyphs(strokes);
    let run = first + second;
    let g = glyphs(behind);
    let more = lex(mode, g);
    let s = typed(lead) + typed(strokes) + behind;
    lemma_typed_within(mode, lead);
    lemma_typed_within(mode, strokes);
    lemma_typed(lead, typed(strokes) + behind);
    lemma_typed(strokes, behind);
    assert(s =~= typed(lead) + (typed(strokes) + behind));
    assert(glyphs(s) =~= run + g);
    assert forall|i: int| 0 <= i < run.len() implies within(mode, #[trigger] run[i]) by {
        if i < first.len() {
            assert(run[i] == first[i]);
        } else {
            assert(run[i] == second[i - first.len()]);
        }
    }
    assert(chars_of(run) =~= meant(lead) + meant(strokes));
    assert forall|i: int| 0 <= i < meant(lead).len() implies white(#[trigger] meant(lead)[i]) by {
        assert(white(meant_char(lead[i])));
    }
    lemma_trim_lead(meant(lead), meant(strokes));
    lemma_lex_end(mode, run);
    if behind.len() == 0 || behind == seq!['\\'] {
        assert(g =~= seq![]);
        lemma_tokens_of_nothing();
        assert(run + g =~= run);
        assert(lex(mode, glyphs(s)) =~= word(mode, run) + more);
    } else {
        assert(behind[0] != '\\');
        assert(g[0] == plain(behind[0]));
        lemma_lex_end_add(run, g);
        assert(lex(mode, glyphs(s)) =~= word(mode, run) + more);
    }
    if strokes.len() > 0 {
        assert(word(mode, run) =~= seq![Lexeme::Word(meant(strokes), mode)]);
        lemma_starts_with(Lexeme::Word(meant(strokes), mode), more);
    } else {
        assert(meant(strokes) =~= seq![]);
        assert(lex(mode, glyphs(s)) =~= more);
    }
}

/// Text without white space, quotes, `&`, `|`, `;` and backslashes is one bare
/// word, and in front of white space it is the word that the line starts with.
pub proof fn law_plain_text_is_one_word(text: Seq<char>, space: char, behind: Seq<char>)
    requires
        text.len() > 0,
        forall|i: int|
            0 <= i < text.len() ==> {
                let c = #[trigger] text[i];
                !white(c) && c != '\'' && c != '"' && c != '&' && c != '|' && c != ';' && c != '\\'
            },
        white(space),
    ensures
        tokens_of(text) == seq![Lexeme::Word(text, Quoting::Unquoted)],
        tokens_of(text + seq![space] + behind) == seq![Lexeme::Word(text, Quoting::Unquoted)]
            + tokens_of(seq![space] + behind),
{
    let strokes = plainly(text);
    lemma_typed_plainly(text);
    assert(meant(strokes) =~= text);
    assert forall|i: int| 0 <= i < strokes.len() implies (#[trigger] strokes[i] matches Stroke::Bare(
        c,
    ) ==> !ends_bare_word(c) && c != '\\') by {
        assert(!white(text[i]));
    }
    assert(!white(text[0]));
    law_line_starts_with_bare_word(seq![], strokes, seq![]);
    law_line_starts_with_bare_word(seq![], strokes, seq![space] + behind);
    law_nothing_to_read();
    assert(typed(seq![]) + text + seq![] =~= text);
    assert(typed(seq![]) + text + (seq![space] + behind) =~= text + seq![space] + behind);
    assert(seq![Lexeme::Word(text, Quoting::Unquoted)] + tokens_of(seq![]) =~= seq![
        Lexeme::Word(text, Quoting::Unquoted),
    ]);
}

/// The stroke of a character that is typed by itself.
spec fn bare(c: char) -> Stroke {
    Stroke::Bare(c)
}

/// `text`, typed without a backslash.
spec fn plainly(text: Seq<char>) -> Seq<Stroke> {
    Seq::new(text.len(), |i: int| bare(text[i]))
}

proof fn lemma_typed_plainly(text: Seq<char>)
    ensures
        typed(plainly(text)) == text,
    decreases text.len(),
{
    let strokes = plainly(text);
    if text.len() > 0 {
        let rest = text.skip(1);
        lemma_typed_plainly(rest);
        assert(strokes.skip(1) =~= plainly(rest));
        assert(seq![text[0]] + rest =~= text);
    }
}

/// A word makes one argument. One that stood between single quotes is taken as it
/// is; in any other the variables are replaced, whatever else is in it.
pub proof fn law_word_is_an_argument(
    text: Seq<char>,
    quoting: Quoting,
    vars: Seq<(String, String)>,
)
    ensures
        quoting != Quoting::SingleQuoted ==> arguments(
            seq![Lexeme::Word(text, quoting)],
            vars,
        ) == seq![expanded(text, vars)],
        quoting == Quoting::SingleQuoted ==> arguments(
            seq![Lexeme::Word(text, quoting)],
            vars,
        ) == seq![text],
{
    let tokens = seq![Lexeme::Word(text, quoting)];
    reveal_with_fuel(arguments, 2);
    assert(tokens.drop_last() =~= seq![]);
    assert(arguments(tokens, vars) =~= seq![argument(tokens[0], vars)->0]);
}

/// The arguments are those of the words, one for each, in the order of the words:
/// in front of a word stand as many arguments as words.
pub proof fn law_argument_of_each_word(
    before: Seq<Lexeme>,
    text: Seq<char>,
    quoting: Quoting,
    behind: Seq<Lexeme>,
    vars: Seq<(String, String)>,
)
    ensures
        ({
            let args = arguments(before + seq![Lexeme::Word(text, quoting)] + behind, vars);
            let place = arguments(before, vars).len() as int;
            &&& args.len() == place + 1 + arguments(behind, vars).len()
            &&& args[place] == (if quoting == Quoting::SingleQuoted {
                text
            } else {
                expanded(text, vars)
            })
            &&& args.take(place) == arguments(before, vars)
            &&& args.skip(place + 1) == arguments(behind, vars)
        }),
{
    let one = seq![Lexeme::Word(text, quoting)];
    law_word_is_an_argument(text, quoting, vars);
    law_only_words_are_arguments(before, one, vars);
    law_only_words_are_arguments(before + one, behind, vars);
    let args = arguments(before + one + behind, vars);
    let place = arguments(before, vars).len() as int;
    assert(args.take(place) =~= arguments(before, vars));
    assert(args.skip(place + 1) =~= arguments(behind, vars));
}

/// There is a word among tokens where there is one among those in front or those
/// behind, and tokens have arguments just where there is a word among them.
pub proof fn law_words_and_arguments(
    a: Seq<Lexeme>,
    t: Lexeme,
    b: Seq<Lexeme>,
    vars: Seq<(String, String)>,
)
    ensures
        has_word(a + seq![t] + b) <==> has_word(a) || t is Word || has_word(b),
        !has_word(seq![]),
        has_word(b) <==> arguments(b, vars).len() > 0,
{
    let all = a + seq![t] + b;
    if has_word(a) {
        let i = choose|i: int| 0 <= i < a.len() && #[trigger] a[i] is Word;
        assert(all[i] == a[i]);
    }
    if t is Word {
        assert(all[a.len() as int] == t);
    }
    if has_word(b) {
        let i = choose|i: int| 0 <= i < b.len() && #[trigger] b[i] is Word;
        assert(all[a.len() + 1 + i] == b[i]);
    }
    if has_word(all) {
        let i = choose|i: int| 0 <= i < all.len() && #[trigger] all[i] is Word;
        if i < a.len() {
            assert(a[i] is Word);
        } else if i > a.len() {
            assert(b[i - a.len() - 1] is Word);
        }
    }
    lemma_words_make_arguments(b, vars);
}

proof fn lemma_words_make_arguments(tokens: Seq<Lexeme>, vars: Seq<(String, String)>)
    ensures
        has_word(tokens) <==> arguments(tokens, vars).len() > 0,
    decreases tokens.len(),
{
    if tokens.len() > 0 {
        let front = tokens.drop_last();
        lemma_words_make_arguments(front, vars);
        if has_word(front) {
            let i = choose|i: int| 0 <= i < front.len() && #[trigger] front[i] is Word;
            assert(tokens[i] is Word);
        }
        if tokens.last() is Word {
            assert(tokens[tokens.len() - 1] is Word);
        }
        if has_word(tokens) && !(tokens.last() is Word) {
            let i = choose|i: int| 0 <= i < tokens.len() && #[trigger] tokens[i] is Word;
            assert(front[i] is Word);
        }
    }
}

/// No tokens ask for nothing. A line whose first argument is `exit` asks for the
/// end of the shell, whatever follows; one whose first argument is `cd` asks for a
/// change of directory with all of its arguments; any other asks for the program
/// with the name that its first argument is, and hands it all of them.
pub proof fn law_first_argument_decides(tokens: Seq<Lexeme>, vars: Seq<(String, String)>, i: int)
    requires
        has_word(tokens),
        0 <= i < arguments(tokens, vars).len(),
    ensures
        parsed(seq![], vars) is None,
        arguments(tokens, vars)[0] == seq!['e', 'x', 'i', 't'] ==> parsed(tokens, vars) == Some(
            Request::Exit,
        ),
        arguments(tokens, vars)[0] == seq!['c', 'd'] ==> {
            &&& parsed(tokens, vars) matches Some(Request::Cd(words))
            &&& words.len() == arguments(tokens, vars).len()
            &&& words[i] == arguments(tokens, vars)[i]
        },
        arguments(tokens, vars)[0] != seq!['e', 'x', 'i', 't'] && arguments(tokens, vars)[0]
            != seq!['c', 'd'] ==> {
            &&& parsed(tokens, vars) matches Some(Request::Run(name, words))
            &&& name == arguments(tokens, vars)[0]
            &&& words.len() == arguments(tokens, vars).len()
            &&& words[i] == arguments(tokens, vars)[i]
        },
{
    reveal_strlit("exit");
    reveal_strlit("cd");
    assert("exit"@ =~= seq!['e', 'x', 'i', 't']);
    assert("cd"@ =~= seq!['c', 'd']);
}

} // verus!
