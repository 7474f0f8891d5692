//! Variables, and the words that refer to them.
use regex::Regex;
use vstd::prelude::*;

verus! {

/// The value of the variable `name`: that of the first pair with this name.
pub open spec fn value(vars: Seq<(String, String)>, name: Seq<char>) -> Option<Seq<char>>
    decreases vars.len(),
{
    if vars.len() == 0 {
        None
    } else if vars[0].0@ == name {
        Some(vars[0].1@)
    } else {
        value(vars.skip(1), name)
    }
}

/// The value of the variable `name`, or no text where it has none.
pub open spec fn value_or_empty(vars: Seq<(String, String)>, name: Seq<char>) -> Seq<char> {
    match value(vars, name) {
        Some(text) => text,
        None => seq![],
    }
}

/// Whether `c` can stand in the name of a variable.
pub open spec fn name_char(c: char) -> bool {
    'a' <= c <= 'z' || 'A' <= c <= 'Z' || '0' <= c <= '9' || c == '_'
}

/// The length of the variable name that `s` starts with: as many name
/// characters as there are, or else a single `$` or `!`.
pub open spec fn name_len(s: Seq<char>) -> nat {
    if name_run(s) > 0 {
        name_run(s)
    } else if s.len() > 0 && (s[0] == '$' || s[0] == '!') {
        1
    } else {
        0
    }
}

/// The number of name characters that `s` starts with.
pub open spec fn name_run(s: Seq<char>) -> nat
    decreases s.len(),
{
    if s.len() > 0 && name_char(s[0]) {
        1 + name_run(s.skip(1))
    } else {
        0
    }
}

/// `s` with each `$` and the variable name behind it replaced by the value of
/// that variable. The text of a value is not looked at again.
pub open spec fn expanded(s: Seq<char>, vars: Seq<(String, String)>) -> Seq<char>
    decreases s.len(),
{
    if s.len() == 0 {
        seq![]
    } else {
        let n = name_len(s.skip(1));
        if s[0] == '$' && 0 < n < s.len() {
            value_or_empty(vars, s.subrange(1, 1 + n as int)) + expanded(s.skip(1 + n as int), vars)
        } else {
            seq![s[0]] + expanded(s.skip(1), vars)
        }
    }
}

/// The pattern of a reference to a variable.
pub open spec fn reference_pattern() -> Seq<char> {
    r"\$([a-zA-Z0-9_]+|\$|!)"@
}

/// A compiled regular expression.
#[verifier::external_type_specification]
#[verifier::external_body]
pub struct ExRegex(Regex);

/// The reason why a regular expression could not be compiled.
#[verifier::external_type_specification]
#[verifier::external_body]
pub struct ExRegexError(regex::Error);

/// The text of a regular expression that `regex::Regex::new` compiled, with its
/// default options; `regex::Regex::as_str` gives that text back.
pub uninterp spec fn pattern_of(re: Regex) -> Seq<char>;

/// `regex::Regex::new` compiles `pattern`. What it returns was compiled from
/// that text. The pattern of a variable reference is well formed and small, so
/// compiling it succeeds; of which other patterns it accepts nothing is said.
#[verifier::external_body]
pub(crate) fn compile(pattern: &str) -> (r: Result<Regex, regex::Error>)
    ensures
        r matches Ok(re) ==> pattern_of(re) == pattern@,
        pattern@ == reference_pattern() ==> r is Ok,
{
    Regex::new(pattern)
}

/// `regex::Regex::replace_all` with the pattern of a variable reference and a
/// function that looks the captured name up.
///
/// Matches are taken from the left, none overlaps another, and each is the one
/// that the pattern prefers: the longest run of name characters behind a `$`,
/// else a `$` or a `!` behind it. Each is replaced by what the function returns,
/// as it is, and everything between them is kept.
#[verifier::external_body]
pub(crate) fn replace_references(re: &Regex, s: &str, vars: &Vec<(String, String)>) -> (r: String)
    requires
        pattern_of(*re) == reference_pattern(),
    ensures
        r@ == expanded(s@, vars@),
{
    re.replace_all(s, |caps: &regex::Captures| lookup_or_empty(vars, &caps[1])).into_owned()
}

/// Looks the variable `name` up.
pub fn lookup(vars: &Vec<(String, String)>, name: &str) -> (r: Option<String>)
    ensures
        r is Some <==> value(vars@, name@) is Some,
        r matches Some(text) ==> value(vars@, name@) == Some(text@),
{
    let wanted: String = name.to_owned();
    let mut i: usize = 0;
    assert(vars@.skip(0) =~= vars@);
    while i < vars.len()
        invariant
            i <= vars@.len(),
            wanted@ == name@,
            value(vars@, name@) == value(vars@.skip(i as int), name@),
        decreases vars@.len() - i,
    {
        assert(vars@.skip(i as int).skip(1) =~= vars@.skip(i + 1));
        if vars[i].0 == wanted {
            return Some(vars[i].1.clone());
        }
        i = i + 1;
    }
    None
}

/// Looks the variable `name` up, and gives no text where it has no value.
pub fn lookup_or_empty(vars: &Vec<(String, String)>, name: &str) -> (r: String)
    ensures
        r@ == value_or_empty(vars@, name@),
{
    match lookup(vars, name) {
        Some(text) => text,
        None => String::new(),
    }
}

/// Text without a `$` is kept as it is, and does not change what becomes of the
/// text behind it.
pub proof fn law_text_is_kept(text: Seq<char>, behind: Seq<char>, vars: Seq<(String, String)>)
    requires
        !text.contains('$'),
    ensures
        expanded(text + behind, vars) == text + expanded(behind, vars),
    decreases text.len(),
{
    if text.len() == 0 {
        assert(text + behind =~= behind);
        assert(text + expanded(behind, vars) =~= expanded(behind, vars));
    } else {
        assert(text.contains(text[0]));
        assert forall|c: char| text.skip(1).contains(c) implies text.contains(c) by {
            let i = choose|i: int| 0 <= i < text.skip(1).len() && text.skip(1)[i] == c;
            assert(text[i + 1] == c);
        }
        assert((text + behind).skip(1) =~= text.skip(1) + behind);
        law_text_is_kept(text.skip(1), behind, vars);
        assert(seq![text[0]] + (text.skip(1) + expanded(behind, vars)) =~= text + expanded(
            behind,
            vars,
        ));
    }
}

/// A `$` with a name behind it becomes the value of the variable of that name.
/// The name goes as far as there are name characters.
pub proof fn law_reference_is_replaced(
    name: Seq<char>,
    behind: Seq<char>,
    vars: Seq<(String, String)>,
)
    requires
        name.len() > 0,
        forall|i: int| 0 <= i < name.len() ==> name_char(#[trigger] name[i]),
        behind.len() == 0 || !name_char(behind[0]),
    ensures
        expanded(seq!['$'] + name + behind, vars) == value_or_empty(vars, name) + expanded(
            behind,
            vars,
        ),
{
    let s = seq!['$'] + name + behind;
    lemma_name_run(name, behind);
    assert(s.skip(1) =~= name + behind);
    assert(s.subrange(1, 1 + name.len() as int) =~= name);
    assert(s.skip(1 + name.len() as int) =~= behind);
}

proof fn lemma_name_run(name: Seq<char>, behind: Seq<char>)
    requires
        forall|i: int| 0 <= i < name.len() ==> name_char(#[trigger] name[i]),
        behind.len() == 0 || !name_char(behind[0]),
    ensures
        name_run(name + behind) == name.len(),
    decreases name.len(),
{
    if name.len() == 0 {
        assert(name + behind =~= behind);
    } else {
        assert((name + behind).skip(1) =~= name.skip(1) + behind);
        assert forall|i: int| 0 <= i < name.skip(1).len() implies name_char(
            #[trigger] name.skip(1)[i],
        ) by {
            assert(name_char(name[i + 1]));
        }
        lemma_name_run(name.skip(1), behind);
    }
}

/// `$$` and `$!` are the variables with the names `$` and `!`, whatever follows.
pub proof fn law_special_reference(c: char, behind: Seq<char>, vars: Seq<(String, String)>)
    requires
        c == '$' || c == '!',
    ensures
        expanded(seq!['$', c] + behind, vars) == value_or_empty(vars, seq![c]) + expanded(
            behind,
            vars,
        ),
{
    let s = seq!['$', c] + behind;
    assert(s.skip(1)[0] == c);
    assert(s.subrange(1, 2) =~= seq![c]);
    assert(s.skip(2) =~= behind);
}

/// A `$` that no name follows stands for itself.
pub proof fn law_lone_dollar(behind: Seq<char>, vars: Seq<(String, String)>)
    requires
        name_len(behind) == 0,
    ensures
        expanded(seq!['$'] + behind, vars) == seq!['$'] + expanded(behind, vars),
{
    assert((seq!['$'] + behind).skip(1) =~= behind);
}

/// A variable has the value that the first pair with its name gives it, and it
/// has none where no pair has that name. Names are told apart by all of their
/// characters.
pub proof fn law_first_value(vars: Seq<(String, String)>, name: Seq<char>, i: int)
    requires
        0 <= i <= vars.len(),
        forall|j: int| 0 <= j < i ==> (#[trigger] vars[j]).0@ != name,
        i < vars.len() ==> vars[i].0@ == name,
    ensures
        i < vars.len() ==> value(vars, name) == Some(vars[i].1@),
        i < vars.len() ==> value_or_empty(vars, name) == vars[i].1@,
        i == vars.len() ==> value(vars, name) is None,
        i == vars.len() ==> value_or_empty(vars, name).len() == 0,
    decreases i,
{
    if i > 0 {
        assert(vars[0].0@ != name);
        assert forall|j: int| 0 <= j < i - 1 implies (#[trigger] vars.skip(1)[j]).0@ != name by {
            assert(vars[j + 1].0@ != name);
        }
        law_first_value(vars.skip(1), name, i - 1);
    }
}

/// Looking a variable up gives the value of the first pair with its name, and
/// nothing, or no text, where no pair has that name.
pub proof fn law_lookup(
    vars: &Vec<(String, String)>,
    name: &str,
    found: Option<String>,
    text: String,
    i: int,
)
    requires
        call_ensures(lookup, (vars, name), found),
        call_ensures(lookup_or_empty, (vars, name), text),
        0 <= i <= vars@.len(),
        forall|j: int| 0 <= j < i ==> (#[trigger] vars@[j]).0@ != name@,
        i < vars@.len() ==> vars@[i].0@ == name@,
    ensures
        i < vars@.len() ==> (found matches Some(value) && value@ == vars@[i].1@),
        i < vars@.len() ==> text@ == vars@[i].1@,
        i == vars@.len() ==> found is None,
        i == vars@.len() ==> text@.len() == 0,
        call_requires(lookup, (vars, name)),
        call_requires(lookup_or_empty, (vars, name)),
{
    law_first_value(vars@, name@, i);
}

/// Names are made of the digits, the letters of the English alphabet and `_`.
pub proof fn law_name_characters(c: char)
    ensures
        name_char(c) <==> {
            let n = c as u32;
            ||| 48 <= n <= 57
            ||| 65 <= n <= 90
            ||| n == 95
            ||| 97 <= n <= 122
        },
{
}

/// A text without a `$` has nothing in it to replace.
pub proof fn law_text_without_references(text: Seq<char>, vars: Seq<(String, String)>)
    requires
        !text.contains('$'),
    ensures
        expanded(text, vars) == text,
{
    law_text_is_kept(text, seq![], vars);
    assert(text + seq![] =~= text);
}

/// A `$` at the end of a text, or in front of a character that is in no name,
/// stands for itself.
pub proof fn law_dollar_without_a_name(behind: Seq<char>, vars: Seq<(String, String)>)
    requires
        behind.len() > 0 ==> !name_char(behind[0]) && behind[0] != '$' && behind[0] != '!',
    ensures
        expanded(seq!['$'] + behind, vars) == seq!['$'] + expanded(behind, vars),
{
    law_lone_dollar(behind, vars);
}

/// Only the variables that a text refers to count: with variables that have the
/// same values it becomes the same text.
pub proof fn law_expansion_depends_on_values(
    s: Seq<char>,
    vars: Seq<(String, String)>,
    others: Seq<(String, String)>,
)
    requires
        forall|name: Seq<char>| #[trigger] value(vars, name) == value(others, name),
    ensures
        expanded(s, vars) == expanded(s, others),
    decreases s.len(),
{
    if s.len() > 0 {
        let n = name_len(s.skip(1)) as int;
        law_expansion_depends_on_values(s.skip(1), vars, others);
        if s[0] == '$' && 0 < n < s.len() {
            let name = s.subrange(1, 1 + n);
            assert(value(vars, name) == value(others, name));
            law_expansion_depends_on_values(s.skip(1 + n), vars, others);
        }
    }
}

/// The characters of the pattern: a `$`, and behind it either name characters, as
/// many as there are but at least one, or another `$`, or a `!`.
pub proof fn law_reference_pattern()
    ensures
        reference_pattern() == seq![
            '\\', '$', '(', '[', 'a', '-', 'z', 'A', '-', 'Z', '0', '-', '9', '_', ']', '+', '|',
            '\\', '$', '|', '!', ')',
        ],
{
    reveal_strlit(r"\$([a-zA-Z0-9_]+|\$|!)");
    assert(reference_pattern() =~= seq![
        '\\', '$', '(', '[', 'a', '-', 'z', 'A', '-', 'Z', '0', '-', '9', '_', ']', '+', '|', '\\',
        '$', '|', '!', ')',
    ]);
}

} // verus!
