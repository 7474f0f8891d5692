use minishell::combinators::{Combine, ManyParser, NeverParser, OrParser, ParserT, StringParser};

fn text(s: &str) -> StringParser {
    StringParser { string: s.to_string() }
}

fn parsed(value: &str, rest: &str) -> Option<(String, String)> {
    Some((value.to_string(), rest.to_string()))
}

#[test]
fn string_parser_takes_its_text() {
    assert_eq!(text("cd").parse("cd /".to_string()), parsed("cd /", " /"));
    assert_eq!(text("é").parse("éa".to_string()), parsed("éa", "a"));
    assert_eq!(text("").parse("a".to_string()), parsed("a", "a"));
    assert_eq!(text("cd").parse("c".to_string()), None);
    assert_eq!(text("cd").parse("xcd".to_string()), None);
}

#[test]
fn or_prefers_its_first_parser() {
    let a = text("a");
    let both = a.or(text("ab"));
    assert_eq!(both.parse("abc".to_string()), parsed("abc", "bc"));
    let ab = text("ab");
    let both = ab.or(text("a"));
    assert_eq!(both.parse("abc".to_string()), parsed("abc", "c"));
    assert_eq!(both.parse("axc".to_string()), parsed("axc", "xc"));
    assert_eq!(both.parse("b".to_string()), None);
}

#[test]
fn or_can_be_grouped_either_way() {
    let (a, b) = (text("a"), text("b"));
    let left = a.or(text("b"));
    let left = left.or(text("c"));
    let right = b.or(text("c"));
    let right = a.or(right);
    for input in ["a1", "b1", "c1", "d1"] {
        assert_eq!(left.parse(input.to_string()), right.parse(input.to_string()));
    }
}

#[test]
fn never_parser_adds_nothing() {
    let found: Option<(String, String)> = NeverParser {}.parse("a".to_string());
    assert_eq!(found, None);
    let p = OrParser { parser1: NeverParser {}, parser2: text("a") };
    assert_eq!(p.parse("ab".to_string()), parsed("ab", "b"));
    let p = OrParser { parser1: text("a"), parser2: NeverParser {} };
    assert_eq!(p.parse("ab".to_string()), parsed("ab", "b"));
    assert_eq!(p.parse("b".to_string()), None);
}

#[test]
fn map_changes_the_value_only() {
    let a = text("a");
    let length = a.map(|value: String| value.len());
    assert_eq!(length.parse("abc".to_string()), Some((3, "bc".to_string())));
    assert_eq!(length.parse("b".to_string()), None);
}

#[test]
fn sequences_keep_one_of_two_values() {
    let a = text("a");
    let second = a.discard_and_then_keep(text("b"));
    assert_eq!(second.parse("abc".to_string()), parsed("bc", "c"));
    assert_eq!(second.parse("ac".to_string()), None);
    assert_eq!(second.parse("b".to_string()), None);
    let first = a.keep_and_then_discard(text("b"));
    assert_eq!(first.parse("abc".to_string()), parsed("abc", "c"));
    assert_eq!(first.parse("ac".to_string()), None);
    assert_eq!(first.parse("b".to_string()), None);
}

#[test]
fn many_of_a_parser_that_fails_is_nothing() {
    let many = ManyParser { parser: text("a") };
    let found: Option<(Vec<String>, String)> = many.parse("bc".to_string());
    assert_eq!(found, Some((vec![], "bc".to_string())));
}

#[test]
fn boxes_and_references_parse_like_what_they_hold() {
    let boxed = Box::new(text("a"));
    assert_eq!(ParserT::parse(&boxed, "ab".to_string()), parsed("ab", "b"));
    let a = text("a");
    let reference = &a;
    assert_eq!(ParserT::parse(&reference, "ab".to_string()), parsed("ab", "b"));
}

#[test]
fn cd_behind_whitespace() {
    let space = text(" ");
    let whitespace_parser = space.or(text("    "));
    let cd_parser = whitespace_parser.discard_and_then_keep(text("cd"));
    assert_eq!(
        cd_parser.parse(" cd     /home".to_string()),
        parsed("cd     /home", "     /home")
    );
}
