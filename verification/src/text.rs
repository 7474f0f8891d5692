//! Characters and strings: what counts as white space, and the few string
//! operations that the rest of the library is written with.
use vstd::prelude::*;

verus! {

/// Whether `c` has the Unicode property `White_Space`.
pub open spec fn white(c: char) -> bool {
    ||| '\t' <= c <= '\r'
    ||| c == ' '
    ||| c == '\u{85}'
    ||| c == '\u{a0}'
    ||| c == '\u{1680}'
    ||| '\u{2000}' <= c <= '\u{200a}'
    ||| c == '\u{2028}'
    ||| c == '\u{2029}'
    ||| c == '\u{202f}'
    ||| c == '\u{205f}'
    ||| c == '\u{3000}'
}

/// Whether `s` holds nothing but white space.
pub open spec fn blank(s: Seq<char>) -> bool {
    forall|i: int| 0 <= i < s.len() ==> white(#[trigger] s[i])
}

/// Whether `c` is white space.
pub fn is_whitespace(c: char) -> (r: bool)
    ensures
        r == white(c),
{
    ('\t' <= c && c <= '\r') || c == ' ' || c == '\u{85}' || c == '\u{a0}' || c == '\u{1680}' || (
    '\u{2000}' <= c && c <= '\u{200a}') || c == '\u{2028}' || c == '\u{2029}' || c == '\u{202f}'
        || c == '\u{205f}' || c == '\u{3000}'
}

/// The characters of `s`, in order.
pub fn characters(s: &str) -> (r: Vec<char>)
    ensures
        r@ == s@,
{
    let mut out: Vec<char> = Vec::new();
    for c in it: s.chars()
        invariant
            it.seq() == s@,
            out@ == s@.take(it.index() as int),
    {
        out.push(c);
    }
    out
}

/// Whether `s` holds nothing but white space.
pub fn is_blank(s: &str) -> (r: bool)
    ensures
        r == blank(s@),
{
    for c in it: s.chars()
        invariant
            it.seq() == s@,
            forall|i: int| 0 <= i < it.index() ==> white(#[trigger] s@[i]),
    {
        if !is_whitespace(c) {
            return false;
        }
    }
    true
}

/// `String::push` puts one character behind those that the string already holds.
pub assume_specification[ String::push ](s: &mut String, c: char)
    ensures
        final(s)@ == old(s)@.push(c),
;

/// `str::strip_prefix` with a string slice gives what stands behind `prefix` in
/// a text that starts with it, and nothing for any other text.
#[verifier::external_body]
pub(crate) fn strip_prefix<'a>(s: &'a str, prefix: &str) -> (r: Option<&'a str>)
    ensures
        match r {
            Some(rest) => s@ == prefix@ + rest@,
            None => !prefix@.is_prefix_of(s@),
        },
{
    s.strip_prefix(prefix)
}

/// White space, by the numbers of its characters.
pub proof fn law_whitespace_characters(c: char)
    ensures
        white(c) <==> {
            let n = c as u32;
            ||| 9 <= n <= 13
            ||| n == 32
            ||| n == 133
            ||| n == 160
            ||| n == 5760
            ||| 8192 <= n <= 8202
            ||| n == 8232
            ||| n == 8233
            ||| n == 8239
            ||| n == 8287
            ||| n == 12288
        },
{
}

/// Text is blank where both its parts are: one character is where it is white
/// space, and no text at all is.
pub proof fn law_blank_in_parts(a: Seq<char>, b: Seq<char>, c: char)
    ensures
        blank(a + b) <==> blank(a) && blank(b),
        blank(seq![c]) <==> white(c),
        blank(seq![]),
{
    if blank(a + b) {
        assert forall|i: int| 0 <= i < a.len() implies white(#[trigger] a[i]) by {
            assert((a + b)[i] == a[i]);
        }
        assert forall|i: int| 0 <= i < b.len() implies white(#[trigger] b[i]) by {
            assert((a + b)[a.len() + i] == b[i]);
        }
    }
    if blank(seq![c]) {
        assert(white(seq![c][0]));
    }
}

/// Asking whether a character is white space, whether a text is blank and what
/// its characters are can be done with any, and is answered accordingly.
pub proof fn law_text_is_looked_at(
    c: char,
    s: &str,
    white_space: bool,
    nothing_else: bool,
    chars: Vec<char>,
)
    requires
        call_ensures(is_whitespace, (c,), white_space),
        call_ensures(is_blank, (s,), nothing_else),
        call_ensures(characters, (s,), chars),
    ensures
        white_space <==> white(c),
        nothing_else <==> blank(s@),
        chars@.len() == s@.len(),
        forall|i: int| 0 <= i < s@.len() ==> #[trigger] chars@[i] == s@[i],
        call_requires(is_whitespace, (c,)),
        call_requires(is_blank, (s,)),
        call_requires(characters, (s,)),
{
}

} // verus!
