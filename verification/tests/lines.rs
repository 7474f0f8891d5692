use minishell::parser::Parser;
use minishell::token::{Operator, Quoting, Token};

fn tokens(line: &str) -> Vec<Token> {
    Parser::new().tokenize(line)
}

fn bare(text: &str) -> Token {
    Token::Word(text.to_string(), Quoting::Unquoted)
}

fn single(text: &str) -> Token {
    Token::Word(text.to_string(), Quoting::SingleQuoted)
}

fn double(text: &str) -> Token {
    Token::Word(text.to_string(), Quoting::DoubleQuoted)
}

#[test]
fn empty_line_has_no_tokens() {
    assert_eq!(tokens(""), vec![]);
}

#[test]
fn blank_line_is_one_whitespace_token() {
    assert_eq!(tokens("\n"), vec![Token::Whitespace]);
    assert_eq!(tokens(" \t \n"), vec![Token::Whitespace]);
}

#[test]
fn leading_and_trailing_whitespace_are_tokens() {
    assert_eq!(tokens(" a\n"), vec![Token::Whitespace, bare("a"), Token::Whitespace]);
}

#[test]
fn whitespace_never_repeats_even_around_empty_quotes() {
    assert_eq!(tokens("a '' b"), vec![bare("a"), Token::Whitespace, bare("b")]);
    assert_eq!(tokens("a \\  b"), vec![bare("a"), Token::Whitespace, bare("b")]);
}

#[test]
fn any_whitespace_is_as_good_as_another() {
    assert_eq!(tokens("a\tb"), tokens("a b"));
    assert_eq!(tokens("a\u{a0}\nb"), tokens("a b"));
}

#[test]
fn empty_quotes_make_no_word() {
    assert_eq!(tokens("''\"\""), vec![]);
}

#[test]
fn blank_text_between_quotes_is_a_word() {
    assert_eq!(tokens("' '"), vec![single(" ")]);
    assert_eq!(tokens("\"\t\""), vec![double("\t")]);
}

#[test]
fn unclosed_quote_is_dropped_with_what_follows() {
    assert_eq!(tokens("echo 'a b"), vec![bare("echo"), Token::Whitespace]);
    assert_eq!(tokens("echo\"a & 'b'"), vec![bare("echo")]);
    assert_eq!(tokens("a 'b\\'c"), vec![bare("a"), Token::Whitespace]);
}

#[test]
fn operators_need_no_space() {
    assert_eq!(
        tokens("a&&b||c|d&e;f"),
        vec![
            bare("a"),
            Token::Operator(Operator::And),
            bare("b"),
            Token::Operator(Operator::Or),
            bare("c"),
            Token::Operator(Operator::Pipe),
            bare("d"),
            Token::Operator(Operator::Andpercent),
            bare("e"),
            Token::Operator(Operator::Semicolon),
            bare("f"),
        ]
    );
}

#[test]
fn operators_take_the_longest_match() {
    assert_eq!(
        tokens("&&&"),
        vec![Token::Operator(Operator::And), Token::Operator(Operator::Andpercent)]
    );
    assert_eq!(
        tokens("|||"),
        vec![Token::Operator(Operator::Or), Token::Operator(Operator::Pipe)]
    );
    assert_eq!(tokens("&|"), vec![
        Token::Operator(Operator::Andpercent),
        Token::Operator(Operator::Pipe),
    ]);
}

#[test]
fn escaped_operator_is_text() {
    assert_eq!(tokens("&\\&"), vec![Token::Operator(Operator::Andpercent), bare("&")]);
    assert_eq!(tokens("a\\;b\\|c"), vec![bare("a;b|c")]);
    assert_eq!(tokens("'a&b;c|d'"), vec![single("a&b;c|d")]);
}

#[test]
fn escapes_for_control_characters() {
    assert_eq!(tokens("a\\n\\t\\r\\0b"), vec![bare("a\n\t\r\0b")]);
    assert_eq!(tokens("'\\n'"), vec![single("\n")]);
    assert_eq!(tokens("\\x\\é"), vec![bare("xé")]);
}

#[test]
fn escaped_space_inside_a_word_is_kept() {
    assert_eq!(tokens("a\\ b"), vec![bare("a b")]);
    assert_eq!(tokens("a\\ "), vec![bare("a ")]);
}

#[test]
fn escaped_space_at_the_start_of_a_word_is_dropped() {
    assert_eq!(tokens("\\ a"), vec![bare("a")]);
    assert_eq!(tokens("\\ "), vec![]);
    assert_eq!(tokens("\\n\\t'x'"), vec![single("x")]);
}

#[test]
fn trailing_backslash_is_dropped() {
    assert_eq!(tokens("a\\"), vec![bare("a")]);
    assert_eq!(tokens("\\"), vec![]);
}

#[test]
fn written_words_are_read_back() {
    assert_eq!(tokens("'it\\'s a \\\\'"), vec![single("it's a \\")]);
    assert_eq!(tokens("\"say \\\"hi\\\"\""), vec![double("say \"hi\"")]);
    assert_eq!(tokens("a\\ \\'\\\"\\&\\|\\;\\\\z"), vec![bare("a '\"&|;\\z")]);
}

#[test]
fn line_of_words_is_read_back() {
    assert_eq!(
        tokens("'a b' \"c'd\" e\\ f"),
        vec![
            single("a b"),
            Token::Whitespace,
            double("c'd"),
            Token::Whitespace,
            bare("e f"),
        ]
    );
}

#[test]
fn operators_and_quoted_words_cut_a_line() {
    let mut expected = tokens("a 'b' ");
    expected.push(Token::Operator(Operator::And));
    expected.extend(tokens(" c"));
    assert_eq!(tokens("a 'b' && c"), expected);

    let mut expected = tokens("a ");
    expected.push(double("x y"));
    expected.extend(tokens(" ;b"));
    assert_eq!(tokens("a \"x y\" ;b"), expected);
}
