//! The shell: what it does with a line, a command, a forked process and a child
//! that stopped or ended.
use vstd::prelude::*;

use crate::cd::{destination, resolve, CdError, Destination};
use crate::command::{
    arguments, has_word, parsed, texts, BuiltinCommand, Command, ExternalCommand, Request,
};
use crate::grammar::tokens_of;
use crate::parser::Parser;
use crate::token::{lexemes, Token};

verus! {

/// The shell's own state.
#[derive(Debug, PartialEq, Eq)]
pub struct Shell {
    /// The process, and so the process group, of the shell.
    pub shell_pid: i32,
    /// The exit status of the last program that ended by itself.
    pub last_status: i32,
}

/// One thing to be done before the first line is read.
#[derive(Debug, Clone, Copy, PartialEq, Eq, Structural)]
pub enum StartAction {
    /// Ignore a signal from now on.
    IgnoreSignal(JobSignal),
    /// Put process `pid` into process group `group`.
    SetGroup { pid: i32, group: i32 },
    /// Make `group` the foreground process group of the terminal.
    GiveTerminal { group: i32 },
}

/// How to go on before the first line is read.
#[derive(Debug, Clone, Copy, PartialEq, Eq, Structural)]
pub enum StartStep {
    /// This is to be done next.
    Do(StartAction),
    /// The shell can read lines.
    Ready,
    /// What was done last failed, and the shell does not start.
    GiveUp,
}

/// What an attempt to read a line comes to.
#[derive(Debug, PartialEq, Eq)]
pub enum Input {
    /// There is no more input: the shell says so and ends with status 0.
    End,
    /// The tokens of the line.
    Line(Vec<Token>),
}

/// What a command comes to.
#[derive(Debug, PartialEq, Eq)]
pub enum Action {
    /// A builtin command.
    Builtin(BuiltinAction),
    /// A program is to be run in the foreground.
    Spawn(ExternalCommand),
}

/// What a builtin command comes to.
#[derive(Debug, PartialEq, Eq)]
pub enum BuiltinAction {
    /// The shell says so and ends with status 0.
    Exit,
    /// The directory is to be changed.
    ChangeDirectory(Destination),
    /// The directory cannot be changed; the reason is to be reported.
    Refuse(CdError),
}

/// What a fork came to, and in which of the two processes.
#[derive(Debug, Clone, Copy, PartialEq, Eq, Structural)]
pub enum ForkOutcome {
    /// In the parent, with the process of the child.
    Parent(i32),
    Child,
    Failed,
}

/// A signal that the shell ignores and its children do not.
#[derive(Debug, Clone, Copy, PartialEq, Eq, Structural)]
pub enum JobSignal {
    /// `SIGTSTP`
    Stop,
    /// `SIGTTOU`
    TerminalOutput,
}

/// One thing to be done around a fork.
#[derive(Debug, Clone, Copy, PartialEq, Eq, Structural)]
pub enum JobAction {
    /// Put process `pid` into process group `group`; zero is the process itself.
    SetGroup { pid: i32, group: i32 },
    /// Make `group` the foreground process group of the terminal.
    GiveTerminal { group: i32 },
    /// Wait until process `pid` ends or is stopped.
    Wait { pid: i32 },
    /// Let a signal have its default effect again.
    ResetSignal(JobSignal),
    /// Become the program that is to be run.
    Exec,
    /// Say that the program was not found.
    ReportNotFound,
    /// End the process at once with this status.
    Quit(i32),
    /// Say that the fork failed.
    ReportForkFailure,
    /// Give up, with an error that says that the request was invalid.
    Fail,
}

/// How to go on after a fork.
#[derive(Debug, Clone, Copy, PartialEq, Eq, Structural)]
pub enum JobStep {
    /// This is to be done next.
    Do(JobAction),
    /// Everything has been done.
    Finished,
    /// What was done last failed, and nothing more is to be done.
    GiveUp,
}

/// What became of a child that was waited for.
#[derive(Debug, Clone, Copy, PartialEq, Eq, Structural)]
pub enum WaitStatus {
    /// The process ended by itself, with this status.
    Exited(i32, i32),
    /// The process was stopped.
    Stopped(i32),
    /// Anything else.
    Other,
}

/// What is to be done before a shell with process `shell` reads lines, in order.
pub open spec fn startup(shell: i32) -> Seq<StartAction> {
    seq![
        StartAction::IgnoreSignal(JobSignal::TerminalOutput),
        StartAction::IgnoreSignal(JobSignal::Stop),
        StartAction::SetGroup { pid: shell, group: shell },
        StartAction::GiveTerminal { group: shell },
    ]
}

/// What is to be done after a fork, in order, by a shell with process `shell`.
pub open spec fn job(shell: i32, fork: ForkOutcome) -> Seq<JobAction> {
    match fork {
        ForkOutcome::Parent(child) => seq![
            JobAction::SetGroup { pid: child, group: child },
            JobAction::GiveTerminal { group: child },
            JobAction::Wait { pid: child },
            JobAction::GiveTerminal { group: shell },
        ],
        ForkOutcome::Child => seq![
            JobAction::ResetSignal(JobSignal::Stop),
            JobAction::ResetSignal(JobSignal::TerminalOutput),
            JobAction::SetGroup { pid: 0, group: 0 },
            JobAction::Exec,
            JobAction::ReportNotFound,
            JobAction::Quit(127),
        ],
        ForkOutcome::Failed => seq![JobAction::ReportForkFailure, JobAction::Fail],
    }
}

/// Whether nothing more is done where `action` fails.
pub open spec fn essential(action: JobAction) -> bool {
    action is Wait || action is ResetSignal || action is Fail
}

impl Shell {
    /// The shell that runs as process `shell_pid`.
    pub fn new(shell_pid: i32) -> (r: Self)
        ensures
            r.shell_pid == shell_pid,
            r.last_status == 0,
    {
        Self { shell_pid, last_status: 0 }
    }

    /// How to go on before the first line is read, once `done` things have been
    /// done, the last of which failed or did not.
    pub fn start_up(&self, done: usize, failed: bool) -> (r: StartStep)
        requires
            done <= startup(self.shell_pid).len(),
        ensures
            r == (if done > 0 && failed {
                StartStep::GiveUp
            } else if done == startup(self.shell_pid).len() {
                StartStep::Ready
            } else {
                StartStep::Do(startup(self.shell_pid)[done as int])
            }),
    {
        let actions: Vec<StartAction> = vec![
            StartAction::IgnoreSignal(JobSignal::TerminalOutput),
            StartAction::IgnoreSignal(JobSignal::Stop),
            StartAction::SetGroup { pid: self.shell_pid, group: self.shell_pid },
            StartAction::GiveTerminal { group: self.shell_pid },
        ];
        assert(actions@ =~= startup(self.shell_pid));
        if done > 0 && failed {
            StartStep::GiveUp
        } else if done < actions.len() {
            StartStep::Do(actions[done])
        } else {
            StartStep::Ready
        }
    }

    /// Takes in what was read: `bytes_read` bytes, which make up `input`.
    pub fn read(&self, parser: &Parser, bytes_read: usize, input: &str) -> (r: Input)
        ensures
            match r {
                Input::End => bytes_read == 0,
                Input::Line(tokens) => bytes_read != 0 && lexemes(tokens@) == tokens_of(input@),
            },
    {
        if bytes_read == 0 {
            Input::End
        } else {
            Input::Line(parser.tokenize(input))
        }
    }

    /// Says what a line with these tokens comes to: nothing, if it has none.
    pub fn take_line(
        &self,
        parser: &Parser,
        tokens: Vec<Token>,
        vars: &Vec<(String, String)>,
    ) -> (r: Option<Action>)
        requires
            tokens@.len() == 0 || has_word(lexemes(tokens@)),
        ensures
            match parsed(lexemes(tokens@), vars@) {
                None => r is None,
                Some(Request::Exit) => r == Some(Action::Builtin(BuiltinAction::Exit)),
                Some(Request::Cd(args)) => {
                    &&& r matches Some(Action::Builtin(action))
                    &&& match destination(args, vars@) {
                        Ok((target, announce)) => {
                            &&& action matches BuiltinAction::ChangeDirectory(place)
                            &&& place.target@ == target
                            &&& place.announce == announce
                        },
                        Err(error) => action == BuiltinAction::Refuse(error),
                    }
                },
                Some(Request::Run(cmd, args)) => {
                    &&& r matches Some(Action::Spawn(external))
                    &&& external.cmd@ == cmd
                    &&& texts(external.args@) == args
                },
            },
    {
        match parser.parse(tokens, vars) {
            Some(command) => Some(self.execute(command, vars)),
            None => None,
        }
    }

    /// Says what carrying out `command` comes to.
    pub fn execute(&self, command: Command, vars: &Vec<(String, String)>) -> (r: Action)
        requires
            command.wf(),
        ensures
            match command {
                Command::Builtin(builtin) => r matches Action::Builtin(action) && comes_to(
                    builtin,
                    vars@,
                    action,
                ),
                Command::External(external) => r == Action::Spawn(external),
            },
    {
        match command {
            Command::Builtin(builtin) => Action::Builtin(self.handle_builtin(builtin, vars)),
            Command::External(external) => Action::Spawn(external),
        }
    }

    /// Says what carrying out `builtin` comes to.
    pub fn handle_builtin(
        &self,
        builtin: BuiltinCommand,
        vars: &Vec<(String, String)>,
    ) -> (r: BuiltinAction)
        requires
            builtin.wf(),
        ensures
            comes_to(builtin, vars@, r),
    {
        match builtin {
            BuiltinCommand::Exit => BuiltinAction::Exit,
            BuiltinCommand::Cd(args) => match resolve(&args, vars) {
                Ok(place) => BuiltinAction::ChangeDirectory(place),
                Err(error) => BuiltinAction::Refuse(error),
            },
        }
    }

    /// How to go on after a fork, once `done` things have been done, the last of
    /// which failed or did not.
    pub fn spawn_foreground(&self, fork: ForkOutcome, done: usize, failed: bool) -> (r: JobStep)
        requires
            done <= job(self.shell_pid, fork).len(),
        ensures
            r == (if done > 0 && failed && essential(job(self.shell_pid, fork)[done - 1]) {
                JobStep::GiveUp
            } else if done == job(self.shell_pid, fork).len() {
                JobStep::Finished
            } else {
                JobStep::Do(job(self.shell_pid, fork)[done as int])
            }),
    {
        let actions: Vec<JobAction> = match fork {
            ForkOutcome::Parent(child) => vec![
                JobAction::SetGroup { pid: child, group: child },
                JobAction::GiveTerminal { group: child },
                JobAction::Wait { pid: child },
                JobAction::GiveTerminal { group: self.shell_pid },
            ],
            ForkOutcome::Child => vec![
                JobAction::ResetSignal(JobSignal::Stop),
                JobAction::ResetSignal(JobSignal::TerminalOutput),
                JobAction::SetGroup { pid: 0, group: 0 },
                JobAction::Exec,
                JobAction::ReportNotFound,
                JobAction::Quit(127),
            ],
            ForkOutcome::Failed => vec![JobAction::ReportForkFailure, JobAction::Fail],
        };
        assert(actions@ =~= job(self.shell_pid, fork));
        if done > 0 && failed {
            match actions[done - 1] {
                JobAction::Wait { .. } | JobAction::ResetSignal(_) | JobAction::Fail => {
                    return JobStep::GiveUp;
                },
                _ => {},
            }
        }
        if done < actions.len() {
            JobStep::Do(actions[done])
        } else {
            JobStep::Finished
        }
    }

    /// Takes in what became of the program that was run, and gives the process
    /// that is to be reported as suspended, if there is one.
    pub fn finish(&mut self, status: WaitStatus) -> (r: Option<i32>)
        ensures
            final(self).shell_pid == old(self).shell_pid,
            final(self).last_status == (match status {
                WaitStatus::Exited(_, code) => code,
                _ => old(self).last_status,
            }),
            r == (match status {
                WaitStatus::Stopped(pid) => Some(pid),
                _ => None,
            }),
    {
        match status {
            WaitStatus::Exited(_, code) => {
                self.last_status = code;
                None
            },
            WaitStatus::Stopped(pid) => Some(pid),
            WaitStatus::Other => None,
        }
    }
}

/// Whether the shell reads no further line once `action` has failed or has not:
/// a program that could not be run ends it, a builtin command that failed does
/// not.
pub fn ends_run(action: &Action, failed: bool) -> (r: bool)
    ensures
        r == (failed && *action is Spawn),
{
    match action {
        Action::Builtin(_) => false,
        Action::Spawn(_) => failed,
    }
}

/// Whether carrying out `builtin` with the variables `vars` comes to `action`.
pub open spec fn comes_to(
    builtin: BuiltinCommand,
    vars: Seq<(String, String)>,
    action: BuiltinAction,
) -> bool {
    match builtin {
        BuiltinCommand::Exit => action == BuiltinAction::Exit,
        BuiltinCommand::Cd(args) => match destination(texts(args@), vars) {
            Ok((target, announce)) => {
                &&& action matches BuiltinAction::ChangeDirectory(place)
                &&& place.target@ == target
                &&& place.announce == announce
            },
            Err(error) => action == BuiltinAction::Refuse(error),
        },
    }
}

/// The terminal goes to the child and comes back to the shell, unless waiting
/// for the child fails.
pub proof fn law_terminal_comes_back(shell: i32, child: i32)
    ensures
        job(shell, ForkOutcome::Parent(child))[1] == (JobAction::GiveTerminal { group: child }),
        job(shell, ForkOutcome::Parent(child)).last() == (JobAction::GiveTerminal { group: shell }),
        forall|i: int|
            0 <= i < job(shell, ForkOutcome::Parent(child)).len() && essential(
                #[trigger] job(shell, ForkOutcome::Parent(child))[i],
            ) ==> job(shell, ForkOutcome::Parent(child))[i] is Wait,
{
}

/// A child that does not become its program says so and ends with status 127;
/// only signals that cannot be reset keep it from trying.
pub proof fn law_child_ends(shell: i32)
    ensures
        job(shell, ForkOutcome::Child).last() == JobAction::Quit(127),
        job(shell, ForkOutcome::Child)[3] is Exec,
        job(shell, ForkOutcome::Child)[4] is ReportNotFound,
        forall|i: int|
            0 <= i < job(shell, ForkOutcome::Child).len() && essential(
                #[trigger] job(shell, ForkOutcome::Child)[i],
            ) ==> job(shell, ForkOutcome::Child)[i] is ResetSignal,
{
}

/// A new shell has the process that it was given, and status zero. Any process
/// will do.
pub proof fn law_new_shell(pid: i32, shell: Shell)
    requires
        call_ensures(Shell::new, (pid,), shell),
    ensures
        shell.shell_pid == pid,
        shell.last_status == 0,
        call_requires(Shell::new, (pid,)),
{
}

/// The start of a shell, step by step: it ignores the signal for output to the
/// terminal and then the one that stops it, makes a process group of itself and
/// takes the terminal. The first of these that fails ends it, and only where none
/// has failed are lines read.
pub proof fn law_start_up(shell: &Shell, done: usize, failed: bool, r: StartStep)
    requires
        done <= 4,
        call_ensures(Shell::start_up, (shell, done, failed), r),
    ensures
        call_requires(Shell::start_up, (shell, done, failed)),
        done > 0 && failed ==> r == StartStep::GiveUp,
        done == 0 ==> r == StartStep::Do(StartAction::IgnoreSignal(JobSignal::TerminalOutput)),
        done == 1 && !failed ==> r == StartStep::Do(StartAction::IgnoreSignal(JobSignal::Stop)),
        done == 2 && !failed ==> r == StartStep::Do(
            (StartAction::SetGroup { pid: shell.shell_pid, group: shell.shell_pid }),
        ),
        done == 3 && !failed ==> r == StartStep::Do(
            (StartAction::GiveTerminal { group: shell.shell_pid }),
        ),
        done == 4 && !failed ==> r == StartStep::Ready,
{
}

/// What the shell does behind a fork, step by step: it makes a process group of
/// the child, gives it the terminal, waits for it and takes the terminal back. It
/// goes on whatever fails, unless that is the waiting.
pub proof fn law_parent_steps(shell: &Shell, child: i32, done: usize, failed: bool, r: JobStep)
    requires
        done <= 4,
        call_ensures(
            Shell::spawn_foreground,
            (shell, ForkOutcome::Parent(child), done, failed),
            r,
        ),
    ensures
        call_requires(
            Shell::spawn_foreground,
            (shell, ForkOutcome::Parent(child), done, failed),
        ),
        done == 0 ==> r == JobStep::Do((JobAction::SetGroup { pid: child, group: child })),
        done == 1 ==> r == JobStep::Do((JobAction::GiveTerminal { group: child })),
        done == 2 ==> r == JobStep::Do((JobAction::Wait { pid: child })),
        done == 3 && failed ==> r == JobStep::GiveUp,
        done == 3 && !failed ==> r == JobStep::Do(
            (JobAction::GiveTerminal { group: shell.shell_pid }),
        ),
        done == 4 ==> r == JobStep::Finished,
{
}

/// What a child does behind a fork, step by step: it resets the signal that stops
/// it and then the one for output to the terminal, and gives up where that fails.
/// Then it makes a process group of itself and becomes its program; where it does
/// not, it says so and ends with status 127, whatever else fails.
pub proof fn law_child_steps(shell: &Shell, done: usize, failed: bool, r: JobStep)
    requires
        done <= 6,
        call_ensures(Shell::spawn_foreground, (shell, ForkOutcome::Child, done, failed), r),
    ensures
        call_requires(Shell::spawn_foreground, (shell, ForkOutcome::Child, done, failed)),
        done == 0 ==> r == JobStep::Do(JobAction::ResetSignal(JobSignal::Stop)),
        done == 1 && failed ==> r == JobStep::GiveUp,
        done == 1 && !failed ==> r == JobStep::Do(
            JobAction::ResetSignal(JobSignal::TerminalOutput),
        ),
        done == 2 && failed ==> r == JobStep::GiveUp,
        done == 2 && !failed ==> r == JobStep::Do((JobAction::SetGroup { pid: 0, group: 0 })),
        done == 3 ==> r == JobStep::Do(JobAction::Exec),
        done == 4 ==> r == JobStep::Do(JobAction::ReportNotFound),
        done == 5 ==> r == JobStep::Do(JobAction::Quit(127)),
        done == 6 ==> r == JobStep::Finished,
{
}

/// What the shell does where a fork failed, step by step: it says so and fails.
pub proof fn law_failed_fork_steps(shell: &Shell, done: usize, failed: bool, r: JobStep)
    requires
        done <= 2,
        call_ensures(Shell::spawn_foreground, (shell, ForkOutcome::Failed, done, failed), r),
    ensures
        call_requires(Shell::spawn_foreground, (shell, ForkOutcome::Failed, done, failed)),
        done == 0 ==> r == JobStep::Do(JobAction::ReportForkFailure),
        done == 1 ==> r == JobStep::Do(JobAction::Fail),
        done == 2 && failed ==> r == JobStep::GiveUp,
        done == 2 && !failed ==> r == JobStep::Finished,
{
}

/// The status of the shell becomes that of a program that ended by itself, and
/// stays what it was where the program did not; the process of the shell stays in
/// any case. Just a program that was stopped is reported, with its own process.
pub proof fn law_finish(pid: i32, code: i32, r: Option<i32>)
    ensures
        forall|shell: &mut Shell| #[trigger]
            call_ensures(Shell::finish, (shell, WaitStatus::Exited(pid, code)), r) ==> {
                &&& final(shell).shell_pid == shell.shell_pid
                &&& final(shell).last_status == code
                &&& r is None
            },
        forall|shell: &mut Shell| #[trigger]
            call_ensures(Shell::finish, (shell, WaitStatus::Stopped(pid)), r) ==> {
                &&& final(shell).shell_pid == shell.shell_pid
                &&& final(shell).last_status == shell.last_status
                &&& r == Some(pid)
            },
        forall|shell: &mut Shell| #[trigger]
            call_ensures(Shell::finish, (shell, WaitStatus::Other), r) ==> {
                &&& final(shell).shell_pid == shell.shell_pid
                &&& final(shell).last_status == shell.last_status
                &&& r is None
            },
        forall|shell: &mut Shell, status: WaitStatus| #[trigger]
            call_requires(Shell::finish, (shell, status)),
{
}

/// A program that could not be run is the one thing that keeps the shell from
/// reading on.
pub proof fn law_ends_run(external: ExternalCommand, builtin: BuiltinAction, failed: bool, r: bool)
    ensures
        call_ensures(ends_run, (&Action::Spawn(external), failed), r) ==> r == failed,
        call_ensures(ends_run, (&Action::Builtin(builtin), failed), r) ==> !r,
        call_requires(ends_run, (&Action::Spawn(external), failed)),
        call_requires(ends_run, (&Action::Builtin(builtin), failed)),
{
}

/// The shell ends just where nothing at all was read; anything else is a line, and
/// is cut into its tokens.
pub proof fn law_read(shell: &Shell, parser: &Parser, bytes_read: usize, input: &str, r: Input)
    requires
        call_ensures(Shell::read, (shell, parser, bytes_read, input), r),
    ensures
        bytes_read == 0 ==> r is End,
        bytes_read > 0 ==> (r matches Input::Line(tokens) && lexemes(tokens@) == tokens_of(
            input@,
        )),
        call_requires(Shell::read, (shell, parser, bytes_read, input)),
{
}

/// What carrying out a command comes to. `exit` ends the shell. A `cd` leads to the
/// directory that its words lead to, which is printed where they say so, or is
/// refused for the reason for which they lead nowhere. A program is run as it is.
pub proof fn law_execute(
    shell: &Shell,
    args: Vec<String>,
    external: ExternalCommand,
    vars: &Vec<(String, String)>,
    r: Action,
)
    requires
        args@.len() > 0,
    ensures
        call_ensures(
            Shell::execute,
            (shell, Command::Builtin(BuiltinCommand::Exit), vars),
            r,
        ) ==> r == Action::Builtin(BuiltinAction::Exit),
        call_ensures(
            Shell::execute,
            (shell, Command::Builtin(BuiltinCommand::Cd(args)), vars),
            r,
        ) ==> match destination(texts(args@), vars@) {
            Ok((target, announce)) => {
                &&& r matches Action::Builtin(BuiltinAction::ChangeDirectory(place))
                &&& place.target@ == target
                &&& place.announce == announce
            },
            Err(error) => r == Action::Builtin(BuiltinAction::Refuse(error)),
        },
        call_ensures(Shell::execute, (shell, Command::External(external), vars), r) ==> r
            == Action::Spawn(external),
        call_requires(Shell::execute, (shell, Command::Builtin(BuiltinCommand::Exit), vars)),
        call_requires(Shell::execute, (shell, Command::Builtin(BuiltinCommand::Cd(args)), vars)),
        call_requires(Shell::execute, (shell, Command::External(external), vars)),
{
}

/// What carrying out a builtin command comes to: the same as for any command.
pub proof fn law_handle_builtin(
    shell: &Shell,
    args: Vec<String>,
    vars: &Vec<(String, String)>,
    r: BuiltinAction,
)
    requires
        args@.len() > 0,
    ensures
        call_ensures(Shell::handle_builtin, (shell, BuiltinCommand::Exit, vars), r) ==> r
            == BuiltinAction::Exit,
        call_ensures(
            Shell::handle_builtin,
            (shell, BuiltinCommand::Cd(args), vars),
            r,
        ) ==> match destination(texts(args@), vars@) {
            Ok((target, announce)) => {
                &&& r matches BuiltinAction::ChangeDirectory(place)
                &&& place.target@ == target
                &&& place.announce == announce
            },
            Err(error) => r == BuiltinAction::Refuse(error),
        },
        call_requires(Shell::handle_builtin, (shell, BuiltinCommand::Exit, vars)),
        call_requires(Shell::handle_builtin, (shell, BuiltinCommand::Cd(args), vars)),
{
}

/// What a line comes to, by its arguments. Without tokens it comes to nothing. Else
/// the first argument decides: `exit` ends the shell, `cd` changes the directory to
/// where its arguments lead or is refused, and anything else is run as a program of
/// that name with all of the arguments.
pub proof fn law_take_line(
    shell: &Shell,
    parser: &Parser,
    tokens: Vec<Token>,
    vars: &Vec<(String, String)>,
    r: Option<Action>,
    i: int,
)
    requires
        tokens@.len() == 0 || has_word(lexemes(tokens@)),
        call_ensures(Shell::take_line, (shell, parser, tokens, vars), r),
    ensures
        call_requires(Shell::take_line, (shell, parser, tokens, vars)),
        tokens@.len() == 0 <==> r is None,
        tokens@.len() > 0 ==> {
            let args = arguments(lexemes(tokens@), vars@);
            if args[0] == seq!['e', 'x', 'i', 't'] {
                r == Some(Action::Builtin(BuiltinAction::Exit))
            } else if args[0] == seq!['c', 'd'] {
                match destination(args, vars@) {
                    Ok((target, announce)) => {
                        &&& r matches Some(Action::Builtin(BuiltinAction::ChangeDirectory(place)))
                        &&& place.target@ == target
                        &&& place.announce == announce
                    },
                    Err(error) => r == Some(Action::Builtin(BuiltinAction::Refuse(error))),
                }
            } else {
                &&& r matches Some(Action::Spawn(external))
                &&& external.cmd@ == args[0]
                &&& external.args@.len() == args.len()
                &&& 0 <= i < args.len() ==> external.args@[i]@ == args[i]
            }
        },
{
    reveal_strlit("exit");
    reveal_strlit("cd");
    assert("exit"@ =~= seq!['e', 'x', 'i', 't']);
    assert("cd"@ =~= seq!['c', 'd']);
    if let Some(Action::Spawn(external)) = r {
        assert(texts(external.args@).len() == external.args@.len());
        assert(0 <= i < external.args@.len() ==> texts(external.args@)[i] == external.args@[i]@);
    }
}

} // verus!
