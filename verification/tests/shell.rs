use minishell::cd::{resolve, CdError, CdReply, CdStage, Destination};
use minishell::command::{BuiltinCommand, Command, ExternalCommand};
use minishell::parser::Parser;
use minishell::shell::{
    ends_run, Action, BuiltinAction, ForkOutcome, Input, JobAction, JobSignal, JobStep, Shell,
    StartAction, StartStep, WaitStatus,
};
use minishell::token::{Quoting, Token};

fn strings(texts: &[&str]) -> Vec<String> {
    texts.iter().map(|text| text.to_string()).collect()
}

fn vars(pairs: &[(&str, &str)]) -> Vec<(String, String)> {
    pairs.iter().map(|(name, value)| (name.to_string(), value.to_string())).collect()
}

fn place(target: &str, announce: bool) -> Result<Destination, CdError> {
    Ok(Destination { target: target.to_string(), announce })
}

#[test]
fn new_shell_has_status_zero() {
    assert_eq!(Shell::new(42), Shell { shell_pid: 42, last_status: 0 });
}

#[test]
fn reading_nothing_ends_the_shell() {
    let shell = Shell::new(1);
    assert_eq!(shell.read(&Parser::new(), 0, ""), Input::End);
    assert_eq!(shell.read(&Parser::new(), 1, "\n"), Input::Line(vec![Token::Whitespace]));
    assert_eq!(
        shell.read(&Parser::new(), 1, "a"),
        Input::Line(vec![Token::Word("a".to_string(), Quoting::Unquoted)])
    );
}

#[test]
fn cd_alone_goes_home() {
    assert_eq!(resolve(&strings(&["cd"]), &vars(&[("HOME", "/h")])), place("/h", false));
    assert_eq!(resolve(&strings(&["cd"]), &vars(&[])), Err(CdError::HomeNotSet));
}

#[test]
fn cd_takes_the_last_of_two_further_words() {
    assert_eq!(resolve(&strings(&["cd", "x", "/tmp"]), &vars(&[])), place("/tmp", false));
}

#[test]
fn cd_dash_goes_back_and_says_so() {
    let args = strings(&["cd", "x", "-"]);
    assert_eq!(resolve(&args, &vars(&[("OLDPWD", "/old")])), place("/old", true));
    assert_eq!(resolve(&args, &vars(&[("PWD", "/old")])), Err(CdError::OldPwdNotSet));
}

#[test]
fn cd_refuses_other_numbers_of_words() {
    let vars = vars(&[("HOME", "/h"), ("OLDPWD", "/old")]);
    assert_eq!(resolve(&strings(&["cd", "/tmp"]), &vars), Err(CdError::TooManyArguments));
    assert_eq!(resolve(&strings(&["cd", "-"]), &vars), Err(CdError::TooManyArguments));
    assert_eq!(
        resolve(&strings(&["cd", "a", "b", "c"]), &vars),
        Err(CdError::TooManyArguments)
    );
}

#[test]
fn successful_cd_records_both_directories() {
    let stage = CdStage::start("/to".to_string());
    assert_eq!(stage, CdStage::Locate { target: "/to".to_string() });
    let stage = stage.next(CdReply::Directory(b"/from".to_vec()));
    assert_eq!(stage, CdStage::Move { target: "/to".to_string(), from: b"/from".to_vec() });
    let stage = stage.next(CdReply::Moved);
    assert_eq!(stage, CdStage::Settle { from: b"/from".to_vec() });
    assert_eq!(
        stage.next(CdReply::Directory(b"/real/to".to_vec())),
        CdStage::Record {
            assignments: vec![
                ("OLDPWD".to_string(), b"/from".to_vec()),
                ("PWD".to_string(), b"/real/to".to_vec()),
            ],
        }
    );
}

#[test]
fn failed_cd_records_nothing() {
    assert_eq!(CdStage::start("/to".to_string()).next(CdReply::Failed(2)), CdStage::Lost(2));
    let moving = CdStage::Move { target: "/to".to_string(), from: b"/from".to_vec() };
    assert_eq!(moving.next(CdReply::Failed(13)), CdStage::Blocked(13));
    let settling = CdStage::Settle { from: b"/from".to_vec() };
    assert_eq!(settling.next(CdReply::Failed(2)), CdStage::Lost(2));
}

#[test]
fn commands_come_to_actions() {
    let shell = Shell::new(7);
    let none = vars(&[]);
    assert_eq!(
        shell.execute(Command::Builtin(BuiltinCommand::Exit), &none),
        Action::Builtin(BuiltinAction::Exit)
    );
    let ls = || ExternalCommand::new("ls".to_string(), strings(&["ls"]));
    assert_eq!(shell.execute(Command::External(ls()), &none), Action::Spawn(ls()));
    assert_eq!(
        shell.handle_builtin(BuiltinCommand::Cd(strings(&["cd"])), &none),
        BuiltinAction::Refuse(CdError::HomeNotSet)
    );
    assert_eq!(
        shell.execute(
            Command::Builtin(BuiltinCommand::Cd(strings(&["cd"]))),
            &vars(&[("HOME", "/h")])
        ),
        Action::Builtin(BuiltinAction::ChangeDirectory(Destination {
            target: "/h".to_string(),
            announce: false,
        }))
    );
}

fn steps(shell: &Shell, fork: ForkOutcome, failing: &[usize]) -> Vec<JobStep> {
    let mut steps = Vec::new();
    let mut done = 0;
    let mut failed = false;
    loop {
        let step = shell.spawn_foreground(fork, done, failed);
        steps.push(step);
        match step {
            JobStep::Do(_) => failed = failing.contains(&done),
            _ => return steps,
        }
        done += 1;
    }
}

#[test]
fn parent_waits_and_takes_the_terminal_back() {
    let expected = vec![
        JobStep::Do(JobAction::SetGroup { pid: 9, group: 9 }),
        JobStep::Do(JobAction::GiveTerminal { group: 9 }),
        JobStep::Do(JobAction::Wait { pid: 9 }),
        JobStep::Do(JobAction::GiveTerminal { group: 7 }),
        JobStep::Finished,
    ];
    let shell = Shell::new(7);
    assert_eq!(steps(&shell, ForkOutcome::Parent(9), &[]), expected);
    assert_eq!(steps(&shell, ForkOutcome::Parent(9), &[0, 1, 3]), expected);
}

#[test]
fn parent_gives_up_where_waiting_fails() {
    let found = steps(&Shell::new(7), ForkOutcome::Parent(9), &[2]);
    assert_eq!(found.len(), 4);
    assert_eq!(found[3], JobStep::GiveUp);
}

#[test]
fn child_becomes_the_program_or_ends() {
    assert_eq!(
        steps(&Shell::new(7), ForkOutcome::Child, &[2, 3, 4]),
        vec![
            JobStep::Do(JobAction::ResetSignal(JobSignal::Stop)),
            JobStep::Do(JobAction::ResetSignal(JobSignal::TerminalOutput)),
            JobStep::Do(JobAction::SetGroup { pid: 0, group: 0 }),
            JobStep::Do(JobAction::Exec),
            JobStep::Do(JobAction::ReportNotFound),
            JobStep::Do(JobAction::Quit(127)),
            JobStep::Finished,
        ]
    );
    assert_eq!(steps(&Shell::new(7), ForkOutcome::Child, &[0])[1], JobStep::GiveUp);
}

#[test]
fn failed_fork_is_reported_and_given_up() {
    assert_eq!(
        steps(&Shell::new(7), ForkOutcome::Failed, &[1]),
        vec![
            JobStep::Do(JobAction::ReportForkFailure),
            JobStep::Do(JobAction::Fail),
            JobStep::GiveUp,
        ]
    );
}

#[test]
fn only_an_exit_changes_the_status() {
    let mut shell = Shell::new(7);
    assert_eq!(shell.finish(WaitStatus::Exited(9, 3)), None);
    assert_eq!(shell.last_status, 3);
    assert_eq!(shell.finish(WaitStatus::Stopped(9)), Some(9));
    assert_eq!(shell.last_status, 3);
    assert_eq!(shell.finish(WaitStatus::Other), None);
    assert_eq!(shell.last_status, 3);
    assert_eq!(shell.shell_pid, 7);
}

#[test]
fn start_ignores_signals_and_takes_the_terminal() {
    let shell = Shell::new(7);
    let expected = [
        StartStep::Do(StartAction::IgnoreSignal(JobSignal::TerminalOutput)),
        StartStep::Do(StartAction::IgnoreSignal(JobSignal::Stop)),
        StartStep::Do(StartAction::SetGroup { pid: 7, group: 7 }),
        StartStep::Do(StartAction::GiveTerminal { group: 7 }),
        StartStep::Ready,
    ];
    for done in 0..5 {
        assert_eq!(shell.start_up(done, false), expected[done]);
    }
    for done in 1..5 {
        assert_eq!(shell.start_up(done, true), StartStep::GiveUp);
    }
}

#[test]
fn only_a_failed_spawn_ends_the_run() {
    let spawn = Action::Spawn(ExternalCommand::new("ls".to_string(), strings(&["ls"])));
    let builtin = Action::Builtin(BuiltinAction::Refuse(CdError::HomeNotSet));
    assert!(ends_run(&spawn, true));
    assert!(!ends_run(&spawn, false));
    assert!(!ends_run(&builtin, true));
    assert!(!ends_run(&builtin, false));
}

fn taken(line: &str, vars: &[(String, String)]) -> Option<Action> {
    let parser = Parser::new();
    let tokens = parser.tokenize(line);
    Shell::new(7).take_line(&parser, tokens, &vars.to_vec())
}

#[test]
fn line_without_tokens_comes_to_nothing() {
    assert_eq!(taken("", &vars(&[])), None);
    assert_eq!(taken("'not closed", &vars(&[])), None);
}

#[test]
fn lines_come_to_actions() {
    let vars = vars(&[("HOME", "/h"), ("OLDPWD", "/old"), ("LEAVE", "exit")]);
    assert_eq!(taken("exit now\n", &vars), Some(Action::Builtin(BuiltinAction::Exit)));
    assert_eq!(taken("$LEAVE\n", &vars), Some(Action::Builtin(BuiltinAction::Exit)));
    let change = |target: &str, announce: bool| {
        let target = target.to_string();
        Some(Action::Builtin(BuiltinAction::ChangeDirectory(Destination { target, announce })))
    };
    assert_eq!(taken("cd\n", &vars), change("/h", false));
    assert_eq!(taken("cd to -\n", &vars), change("/old", true));
    assert_eq!(taken("cd to \"$HOME/x\"\n", &vars), change("/h/x", false));
    assert_eq!(
        taken("cd /tmp\n", &vars),
        Some(Action::Builtin(BuiltinAction::Refuse(CdError::TooManyArguments)))
    );
    assert_eq!(
        taken("echo $HOME '$HOME' | cat\n", &vars),
        Some(Action::Spawn(ExternalCommand::new(
            "echo".to_string(),
            strings(&["echo", "/h", "$HOME", "cat"])
        )))
    );
}

#[test]
fn line_is_refused_where_a_directory_is_not_set() {
    let refused = |error| Some(Action::Builtin(BuiltinAction::Refuse(error)));
    assert_eq!(taken("cd\n", &vars(&[])), refused(CdError::HomeNotSet));
    assert_eq!(taken("cd to -\n", &vars(&[])), refused(CdError::OldPwdNotSet));
}
