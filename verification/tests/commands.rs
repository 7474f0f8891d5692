use minishell::command::{contains_word, BuiltinCommand, Command, ExternalCommand};
use minishell::parser::Parser;
use minishell::token::{Operator, Quoting, Token};
use minishell::variables::{lookup, lookup_or_empty};

fn vars(pairs: &[(&str, &str)]) -> Vec<(String, String)> {
    pairs.iter().map(|(name, value)| (name.to_string(), value.to_string())).collect()
}

fn command(line: &str, pairs: &[(&str, &str)]) -> Option<Command> {
    let parser = Parser::new();
    parser.parse(parser.tokenize(line), &vars(pairs))
}

fn run(args: &[&str]) -> Option<Command> {
    let args: Vec<String> = args.iter().map(|arg| arg.to_string()).collect();
    Some(Command::External(ExternalCommand::new(args[0].clone(), args)))
}

#[test]
fn nothing_to_do_without_tokens() {
    assert_eq!(command("", &[]), None);
}

#[test]
fn exit_is_a_builtin() {
    assert_eq!(command("exit", &[]), Some(Command::Builtin(BuiltinCommand::Exit)));
    assert_eq!(command(" 'exit' now\n", &[]), Some(Command::Builtin(BuiltinCommand::Exit)));
}

#[test]
fn cd_keeps_all_its_words() {
    assert_eq!(
        command("cd a b", &[]),
        Some(Command::Builtin(BuiltinCommand::Cd(vec![
            "cd".to_string(),
            "a".to_string(),
            "b".to_string(),
        ])))
    );
}

#[test]
fn other_names_are_programs() {
    assert_eq!(command("echo hello 'a b'", &[]), run(&["echo", "hello", "a b"]));
    assert_eq!(command("exits", &[]), run(&["exits"]));
}

#[test]
fn operators_and_whitespace_are_no_arguments() {
    assert_eq!(command(" ls | cat && x ;\n", &[]), run(&["ls", "cat", "x"]));
}

#[test]
fn adjacent_words_are_separate_arguments() {
    assert_eq!(command("echo 'a'\"b\"c", &[]), run(&["echo", "a", "b", "c"]));
}

#[test]
fn variables_are_expanded_but_not_in_single_quotes() {
    let pairs = [("HOME", "/home/me"), ("A_1", "x")];
    assert_eq!(
        command("echo $HOME \"<$A_1>\" '$HOME'", &pairs),
        run(&["echo", "/home/me", "<x>", "$HOME"])
    );
}

#[test]
fn unset_variable_is_empty() {
    assert_eq!(command("echo a$NOPE", &[]), run(&["echo", "a"]));
    assert_eq!(command("$NOPE", &[("X", "y")]), run(&[""]));
}

#[test]
fn names_go_as_far_as_they_can() {
    let pairs = [("A", "1"), ("AB", "2")];
    assert_eq!(command("$AB-$A", &pairs), run(&["2-1"]));
    assert_eq!(command("$A.B", &pairs), run(&["1.B"]));
    assert_eq!(command("$Aé", &pairs), run(&["1é"]));
}

#[test]
fn dollar_and_bang_are_names() {
    let pairs = [("$", "pid"), ("!", "job"), ("HOME", "h")];
    assert_eq!(command("$$HOME", &pairs), run(&["pidHOME"]));
    assert_eq!(command("$$$HOME", &pairs), run(&["pidh"]));
    assert_eq!(command("$!x", &pairs), run(&["jobx"]));
}

#[test]
fn lone_dollar_stands_for_itself() {
    assert_eq!(command("a$ $- b$", &[]), run(&["a$", "$-", "b$"]));
    assert_eq!(command("$é", &[]), run(&["$é"]));
}

#[test]
fn values_are_not_expanded_again() {
    assert_eq!(command("$A", &[("A", "$B"), ("B", "no")]), run(&["$B"]));
    assert_eq!(command("$A", &[("A", "$0 ${1} $1")]), run(&["$0 ${1} $1"]));
}

#[test]
fn text_without_references_is_kept() {
    assert_eq!(command("a{b}(c)^.*", &[]), run(&["a{b}(c)^.*"]));
}

#[test]
fn expansion_can_name_a_builtin() {
    assert_eq!(
        command("$E", &[("E", "exit")]),
        Some(Command::Builtin(BuiltinCommand::Exit))
    );
}

#[test]
fn any_arguments_can_be_written_and_read_back() {
    assert_eq!(
        command("'a b' '$X' 'it\\'s' '\\\\' '&'", &[("X", "no")]),
        run(&["a b", "$X", "it's", "\\", "&"])
    );
}

#[test]
fn lookup_takes_the_first_definition() {
    let vars = vars(&[("A", "1"), ("B", "2"), ("A", "3")]);
    assert_eq!(lookup(&vars, "A"), Some("1".to_string()));
    assert_eq!(lookup(&vars, "B"), Some("2".to_string()));
    assert_eq!(lookup(&vars, "C"), None);
    assert_eq!(lookup_or_empty(&vars, "C"), "");
    assert_eq!(lookup_or_empty(&vars, "B"), "2");
}

#[test]
fn words_are_found_among_tokens() {
    assert!(!contains_word(&vec![]));
    assert!(!contains_word(&vec![Token::Whitespace, Token::Operator(Operator::Pipe)]));
    assert!(contains_word(&vec![
        Token::Whitespace,
        Token::Word("a".to_string(), Quoting::Unquoted),
    ]));
}

#[test]
fn new_external_command_holds_what_it_is_given() {
    let command = ExternalCommand::new("ls".to_string(), vec!["ls".to_string(), "-l".to_string()]);
    assert_eq!(command.cmd, "ls");
    assert_eq!(command.args, vec!["ls".to_string(), "-l".to_string()]);
}

#[test]
fn c_strings_end_in_one_zero_byte() {
    let command = ExternalCommand::new("é".to_string(), vec!["é".to_string(), "".to_string()]);
    assert_eq!(command.cmd_as_cstring(), vec![0xc3, 0xa9, 0]);
    assert_eq!(command.args_as_cstring(), vec![vec![0xc3, 0xa9, 0], vec![0]]);
}

#[test]
fn whitespace_around_a_line_changes_no_argument() {
    assert_eq!(command("\t ls -l\n", &[]), command("ls -l", &[]));
    assert_eq!(command("ls -l", &[]), run(&["ls", "-l"]));
}
