//! Changing the directory: where to, and the steps that it takes.
//!
//! The process asks for the directory that it is in, moves, and asks again.
//! Each stage says what is to be done; the reply leads to the next one.
use vstd::prelude::*;
use vstd::utf8::encode_utf8;

use crate::command::texts;
use crate::variables::{lookup, value};

verus! {

/// Why a `cd` cannot even start.
#[derive(Debug, Clone, Copy, PartialEq, Eq, Structural)]
pub enum CdError {
    HomeNotSet,
    OldPwdNotSet,
    TooManyArguments,
}

/// The directory that a `cd` leads to.
#[derive(Debug, PartialEq, Eq)]
pub struct Destination {
    pub target: String,
    /// Whether the directory is to be printed before it is entered.
    pub announce: bool,
}

/// Where the words `args` of a `cd` lead with the variables `vars`: the
/// directory, and whether it is to be printed.
///
/// With no other word than `cd` that is the home directory. With two more
/// words it is the last of them, or the previous directory where that is `-`.
pub open spec fn destination(
    args: Seq<Seq<char>>,
    vars: Seq<(String, String)>,
) -> Result<(Seq<char>, bool), CdError> {
    if args.len() == 1 {
        match value(vars, "HOME"@) {
            Some(home) => Ok((home, false)),
            None => Err(CdError::HomeNotSet),
        }
    } else if args.len() == 3 && args[2] == "-"@ {
        match value(vars, "OLDPWD"@) {
            Some(oldpwd) => Ok((oldpwd, true)),
            None => Err(CdError::OldPwdNotSet),
        }
    } else if args.len() == 3 {
        Ok((args[2], false))
    } else {
        Err(CdError::TooManyArguments)
    }
}

/// Where the words `args` of a `cd` lead.
pub fn resolve(args: &Vec<String>, vars: &Vec<(String, String)>) -> (r: Result<
    Destination,
    CdError,
>)
    requires
        args@.len() > 0,
    ensures
        match r {
            Ok(d) => destination(texts(args@), vars@) == Ok::<(Seq<char>, bool), CdError>(
                (d.target@, d.announce),
            ),
            Err(e) => destination(texts(args@), vars@) == Err::<(Seq<char>, bool), CdError>(e),
        },
{
    if args.len() == 1 {
        match lookup(vars, "HOME") {
            Some(home) => Ok(Destination { target: home, announce: false }),
            None => Err(CdError::HomeNotSet),
        }
    } else if args.len() == 3 {
        assert(texts(args@)[2] == args@[2]@);
        if args[2] == "-".to_owned() {
            match lookup(vars, "OLDPWD") {
                Some(oldpwd) => Ok(Destination { target: oldpwd, announce: true }),
                None => Err(CdError::OldPwdNotSet),
            }
        } else {
            Ok(Destination { target: args[2].clone(), announce: false })
        }
    } else {
        Err(CdError::TooManyArguments)
    }
}

/// How far a `cd` has come, and so what is to be done next. Directories are
/// held as the bytes of their paths.
#[derive(Debug, PartialEq, Eq)]
pub enum CdStage {
    /// The current directory is to be found out.
    Locate { target: String },
    /// The process is to move from directory `from` to `target`.
    Move { target: String, from: Vec<u8> },
    /// The process has left `from`; its directory is to be found out again.
    Settle { from: Vec<u8> },
    /// The process has moved; these variables are to be set, in this order.
    Record { assignments: Vec<(String, Vec<u8>)> },
    /// The process could not move; the error number is to be reported.
    Blocked(i32),
    /// A directory could not be found out, with this error number.
    Lost(i32),
}

/// What came of the last thing that was to be done.
#[derive(Debug, PartialEq, Eq)]
pub enum CdReply {
    /// The current directory.
    Directory(Vec<u8>),
    /// The process has moved.
    Moved,
    /// It failed with this error number.
    Failed(i32),
}

impl CdStage {
    /// Whether `reply` can come of what this stage asks for.
    pub open spec fn awaits(&self, reply: CdReply) -> bool {
        match self {
            CdStage::Locate { .. } => reply !is Moved,
            CdStage::Move { .. } => reply !is Directory,
            CdStage::Settle { .. } => reply !is Moved,
            _ => false,
        }
    }

    /// Whether `next` is the stage behind this one, once `reply` has come.
    pub open spec fn leads_to(self, reply: CdReply, next: CdStage) -> bool {
        match (self, reply) {
            (CdStage::Locate { target }, CdReply::Directory(from)) => next == (CdStage::Move {
                target,
                from,
            }),
            (CdStage::Locate { target }, CdReply::Failed(e)) => next == CdStage::Lost(e),
            (CdStage::Move { target, from }, CdReply::Moved) => next == (CdStage::Settle { from }),
            (CdStage::Move { target, from }, CdReply::Failed(e)) => next == CdStage::Blocked(e),
            (CdStage::Settle { from }, CdReply::Directory(to)) => {
                &&& next matches CdStage::Record { assignments }
                &&& records(assignments@, from@, to@)
            },
            (CdStage::Settle { from }, CdReply::Failed(e)) => next == CdStage::Lost(e),
            _ => false,
        }
    }

    /// The first stage of a `cd` to `target`.
    pub fn start(target: String) -> (r: Self)
        ensures
            r == (CdStage::Locate { target }),
    {
        CdStage::Locate { target }
    }

    /// The stage behind this one.
    pub fn next(self, reply: CdReply) -> (r: Self)
        requires
            self.awaits(reply),
        ensures
            self.leads_to(reply, r),
    {
        match (self, reply) {
            (CdStage::Locate { target }, CdReply::Directory(from)) => CdStage::Move {
                target,
                from,
            },
            (CdStage::Move { from, .. }, CdReply::Moved) => CdStage::Settle { from },
            (CdStage::Settle { from }, CdReply::Directory(to)) => {
                let mut assignments: Vec<(String, Vec<u8>)> = Vec::new();
                assignments.push(("OLDPWD".to_owned(), from));
                assignments.push(("PWD".to_owned(), to));
                CdStage::Record { assignments }
            },
            (CdStage::Move { .. }, CdReply::Failed(e)) => CdStage::Blocked(e),
            (_, CdReply::Failed(e)) => CdStage::Lost(e),
            (stage, _) => stage,
        }
    }
}

/// Whether `assignments` record a move: the directory that was left becomes the
/// previous one, and the one that was entered the current one.
pub open spec fn records(
    assignments: Seq<(String, Vec<u8>)>,
    from: Seq<u8>,
    to: Seq<u8>,
) -> bool {
    &&& assignments.len() == 2
    &&& assignments[0].0@ == "OLDPWD"@
    &&& assignments[0].1@ == from
    &&& assignments[1].0@ == "PWD"@
    &&& assignments[1].1@ == to
}

/// Variables are set only behind a move that succeeded, between two directories
/// that were found out, and they are set to those two.
pub proof fn law_only_moves_are_recorded(
    target: String,
    replies: (CdReply, CdReply, CdReply),
    stages: (CdStage, CdStage, CdStage),
)
    requires
        (CdStage::Locate { target }).leads_to(replies.0, stages.0),
        stages.0.leads_to(replies.1, stages.1),
        stages.1.leads_to(replies.2, stages.2),
        stages.2 is Record,
    ensures
        replies.0 is Directory,
        replies.1 is Moved,
        replies.2 is Directory,
        records(stages.2->assignments@, replies.0->Directory_0@, replies.2->Directory_0@),
{
}

/// The process is asked to move to the directory that the `cd` leads to and to
/// no other.
pub proof fn law_moves_to_target(target: String, reply: CdReply, stage: CdStage)
    requires
        (CdStage::Locate { target }).leads_to(reply, stage),
    ensures
        stage matches CdStage::Move { target: place, from } ==> place == target && reply
            == CdReply::Directory(from),
{
}

/// After a recorded move, `-` leads back to the directory that was left.
pub proof fn law_back_to_previous_directory(
    assignments: Seq<(String, Vec<u8>)>,
    from: Seq<u8>,
    to: Seq<u8>,
    args: Seq<Seq<char>>,
    vars: Seq<(String, String)>,
)
    requires
        records(assignments, from, to),
        args.len() == 3,
        args[2] == "-"@,
        value(vars, assignments[0].0@) matches Some(dir) && encode_utf8(dir) == assignments[0].1@,
    ensures
        destination(args, vars) matches Ok((dir, announce)) && encode_utf8(dir) == from && announce,
{
}

/// Where a `cd` leads, by the number of its words. Alone it leads home, and says
/// nothing; it fails just where the variable for that has no value. With two more
/// words it leads to the last, and says nothing, unless that is `-`: then it leads
/// to the previous directory and says so, or fails where there is none. Any other
/// number of words is refused.
pub proof fn law_destination(args: Seq<Seq<char>>, vars: Seq<(String, String)>)
    requires
        args.len() > 0,
    ensures
        args.len() == 1 ==> match value(vars, seq!['H', 'O', 'M', 'E']) {
            Some(home) => destination(args, vars) == Ok::<(Seq<char>, bool), CdError>(
                (home, false),
            ),
            None => destination(args, vars) == Err::<(Seq<char>, bool), CdError>(
                CdError::HomeNotSet,
            ),
        },
        args.len() == 3 && args[2] == seq!['-'] ==> match value(
            vars,
            seq!['O', 'L', 'D', 'P', 'W', 'D'],
        ) {
            Some(previous) => destination(args, vars) == Ok::<(Seq<char>, bool), CdError>(
                (previous, true),
            ),
            None => destination(args, vars) == Err::<(Seq<char>, bool), CdError>(
                CdError::OldPwdNotSet,
            ),
        },
        args.len() == 3 && args[2] != seq!['-'] ==> destination(args, vars) == Ok::<
            (Seq<char>, bool),
            CdError,
        >((args[2], false)),
        args.len() != 1 && args.len() != 3 ==> destination(args, vars) == Err::<
            (Seq<char>, bool),
            CdError,
        >(CdError::TooManyArguments),
{
    reveal_strlit("HOME");
    reveal_strlit("OLDPWD");
    reveal_strlit("-");
    assert("HOME"@ =~= seq!['H', 'O', 'M', 'E']);
    assert("OLDPWD"@ =~= seq!['O', 'L', 'D', 'P', 'W', 'D']);
    assert("-"@ =~= seq!['-']);
}

/// No other variables than `HOME` and `OLDPWD` count for where a `cd` leads, and
/// of its words only their number and the third.
pub proof fn law_destination_depends_on(
    args: Seq<Seq<char>>,
    others: Seq<Seq<char>>,
    vars: Seq<(String, String)>,
    more: Seq<(String, String)>,
)
    requires
        args.len() > 0,
        others.len() == args.len(),
        args.len() == 3 ==> others[2] == args[2],
        value(more, seq!['H', 'O', 'M', 'E']) == value(vars, seq!['H', 'O', 'M', 'E']),
        value(more, seq!['O', 'L', 'D', 'P', 'W', 'D']) == value(
            vars,
            seq!['O', 'L', 'D', 'P', 'W', 'D'],
        ),
    ensures
        destination(others, more) == destination(args, vars),
{
    law_destination(args, vars);
    law_destination(others, more);
}

/// What resolving the words of a `cd` gives, by their number. It can be done
/// wherever there is at least one.
pub proof fn law_resolve(
    args: &Vec<String>,
    vars: &Vec<(String, String)>,
    r: Result<Destination, CdError>,
)
    requires
        call_ensures(resolve, (args, vars), r),
        args@.len() > 0,
    ensures
        args@.len() == 1 ==> match value(vars@, seq!['H', 'O', 'M', 'E']) {
            Some(home) => r matches Ok(place) && place.target@ == home && !place.announce,
            None => r == Err::<Destination, CdError>(CdError::HomeNotSet),
        },
        args@.len() == 3 && args@[2]@ == seq!['-'] ==> match value(
            vars@,
            seq!['O', 'L', 'D', 'P', 'W', 'D'],
        ) {
            Some(previous) => r matches Ok(place) && place.target@ == previous && place.announce,
            None => r == Err::<Destination, CdError>(CdError::OldPwdNotSet),
        },
        args@.len() == 3 && args@[2]@ != seq!['-'] ==> (r matches Ok(place) && place.target@
            == args@[2]@ && !place.announce),
        args@.len() != 1 && args@.len() != 3 ==> r == Err::<Destination, CdError>(
            CdError::TooManyArguments,
        ),
        call_requires(resolve, (args, vars)),
{
    law_destination(texts(args@), vars@);
    if args@.len() == 3 {
        assert(texts(args@)[2] == args@[2]@);
    }
}

/// What each stage can be told.
pub proof fn law_replies(target: String, from: Vec<u8>, to: Vec<u8>, e: i32)
    ensures
        (CdStage::Locate { target }).awaits(CdReply::Directory(from)),
        (CdStage::Locate { target }).awaits(CdReply::Failed(e)),
        (CdStage::Move { target, from }).awaits(CdReply::Moved),
        (CdStage::Move { target, from }).awaits(CdReply::Failed(e)),
        (CdStage::Settle { from }).awaits(CdReply::Directory(to)),
        (CdStage::Settle { from }).awaits(CdReply::Failed(e)),
{
}

/// A `cd` from its start to its end, where nothing fails: it is the target that is
/// moved to, the directory that was left becomes `OLDPWD` and the one that was
/// found behind the move becomes `PWD`, byte for byte, and nothing else is set.
pub proof fn law_cd_succeeds(
    target: String,
    from: Vec<u8>,
    to: Vec<u8>,
    stages: (CdStage, CdStage, CdStage, CdStage),
)
    requires
        call_ensures(CdStage::start, (target,), stages.0),
        call_ensures(CdStage::next, (stages.0, CdReply::Directory(from)), stages.1),
        call_ensures(CdStage::next, (stages.1, CdReply::Moved), stages.2),
        call_ensures(CdStage::next, (stages.2, CdReply::Directory(to)), stages.3),
    ensures
        call_requires(CdStage::start, (target,)),
        stages.0 == (CdStage::Locate { target }),
        call_requires(CdStage::next, (stages.0, CdReply::Directory(from))),
        stages.1 == (CdStage::Move { target, from }),
        call_requires(CdStage::next, (stages.1, CdReply::Moved)),
        stages.2 == (CdStage::Settle { from }),
        call_requires(CdStage::next, (stages.2, CdReply::Directory(to))),
        stages.3 matches CdStage::Record { assignments } && {
            &&& assignments@.len() == 2
            &&& assignments@[0].0@ == seq!['O', 'L', 'D', 'P', 'W', 'D']
            &&& assignments@[0].1@ == from@
            &&& assignments@[1].0@ == seq!['P', 'W', 'D']
            &&& assignments@[1].1@ == to@
        },
{
    reveal_strlit("OLDPWD");
    reveal_strlit("PWD");
    assert("OLDPWD"@ =~= seq!['O', 'L', 'D', 'P', 'W', 'D']);
    assert("PWD"@ =~= seq!['P', 'W', 'D']);
}

/// A `cd` ends at the first thing that fails, with the number of that error: one
/// kind of end where the process could not move, another where a directory could
/// not be found out. Nothing is set then.
pub proof fn law_cd_fails(target: String, from: Vec<u8>, e: i32, ends: (CdStage, CdStage, CdStage))
    requires
        call_ensures(CdStage::next, (CdStage::Locate { target }, CdReply::Failed(e)), ends.0),
        call_ensures(CdStage::next, (CdStage::Move { target, from }, CdReply::Failed(e)), ends.1),
        call_ensures(CdStage::next, (CdStage::Settle { from }, CdReply::Failed(e)), ends.2),
    ensures
        ends.0 == CdStage::Lost(e),
        ends.1 == CdStage::Blocked(e),
        ends.2 == CdStage::Lost(e),
        call_requires(CdStage::next, (CdStage::Locate { target }, CdReply::Failed(e))),
        call_requires(CdStage::next, (CdStage::Move { target, from }, CdReply::Failed(e))),
        call_requires(CdStage::next, (CdStage::Settle { from }, CdReply::Failed(e))),
{
}

} // verus!
