//! Commands, and what a command line asks for.
use vstd::prelude::*;
use vstd::utf8::{encode_scalar, encode_utf8, encode_utf8_decode_utf8};

use crate::token::{lexemes, Lexeme, Quoting, Token};
use crate::variables::expanded;

verus! {

/// A command that the shell can carry out.
#[derive(Debug, PartialEq, Eq)]
pub enum Command {
    Builtin(BuiltinCommand),
    External(ExternalCommand),
}

/// A command that the shell carries out itself.
#[derive(Debug, PartialEq, Eq)]
pub enum BuiltinCommand {
    Exit,
    /// The words of the command, `cd` itself among them.
    Cd(Vec<String>),
}

/// A program to run, with all its arguments. The first of them is its name.
#[derive(Debug, PartialEq, Eq)]
pub struct ExternalCommand {
    pub cmd: String,
    pub args: Vec<String>,
}

/// The mathematical value of a command.
pub enum Request {
    Exit,
    Cd(Seq<Seq<char>>),
    Run(Seq<char>, Seq<Seq<char>>),
}

/// The texts of `strings`, in order.
pub open spec fn texts(strings: Seq<String>) -> Seq<Seq<char>> {
    strings.map_values(|s: String| s@)
}

impl View for Command {
    type V = Request;

    open spec fn view(&self) -> Request {
        match self {
            Command::Builtin(BuiltinCommand::Exit) => Request::Exit,
            Command::Builtin(BuiltinCommand::Cd(args)) => Request::Cd(texts(args@)),
            Command::External(c) => Request::Run(c.cmd@, texts(c.args@)),
        }
    }
}

/// The argument that a token stands for, if it is a word. Variables are
/// expanded in it unless it stood between single quotes.
pub open spec fn argument(t: Lexeme, vars: Seq<(String, String)>) -> Option<Seq<char>> {
    match t {
        Lexeme::Word(text, Quoting::SingleQuoted) => Some(text),
        Lexeme::Word(text, _) => Some(expanded(text, vars)),
        _ => None,
    }
}

/// The arguments that `tokens` stand for, in order.
pub open spec fn arguments(tokens: Seq<Lexeme>, vars: Seq<(String, String)>) -> Seq<Seq<char>>
    decreases tokens.len(),
{
    if tokens.len() == 0 {
        seq![]
    } else {
        match argument(tokens.last(), vars) {
            Some(text) => arguments(tokens.drop_last(), vars).push(text),
            None => arguments(tokens.drop_last(), vars),
        }
    }
}

/// What a command with these arguments asks for.
pub open spec fn request(args: Seq<Seq<char>>) -> Request {
    if args[0] == "exit"@ {
        Request::Exit
    } else if args[0] == "cd"@ {
        Request::Cd(args)
    } else {
        Request::Run(args[0], args)
    }
}

impl Command {
    /// A `cd` has at least its own name among its words.
    pub open spec fn wf(&self) -> bool {
        self matches Command::Builtin(builtin) ==> builtin.wf()
    }
}

impl BuiltinCommand {
    /// A `cd` has at least its own name among its words.
    pub open spec fn wf(&self) -> bool {
        self matches BuiltinCommand::Cd(args) ==> args@.len() > 0
    }
}

/// Whether there is a word among `tokens`.
pub open spec fn has_word(tokens: Seq<Lexeme>) -> bool {
    exists|i: int| 0 <= i < tokens.len() && #[trigger] tokens[i] is Word
}

/// Whether there is a word among `tokens`.
pub fn contains_word(tokens: &Vec<Token>) -> (r: bool)
    ensures
        r == has_word(lexemes(tokens@)),
{
    let mut i: usize = 0;
    while i < tokens.len()
        invariant
            i <= tokens@.len(),
            forall|j: int| 0 <= j < i ==> !(#[trigger] lexemes(tokens@)[j] is Word),
        decreases tokens@.len() - i,
    {
        if let Token::Word(_, _) = &tokens[i] {
            assert(lexemes(tokens@)[i as int] is Word);
            return true;
        }
        i = i + 1;
    }
    false
}

/// What `tokens` ask for: nothing, if there are none.
pub open spec fn parsed(tokens: Seq<Lexeme>, vars: Seq<(String, String)>) -> Option<Request> {
    if tokens.len() == 0 {
        None
    } else {
        Some(request(arguments(tokens, vars)))
    }
}

/// The bytes of `s` with the zero byte behind them that ends a C string.
pub open spec fn c_string(s: Seq<char>) -> Seq<u8> {
    encode_utf8(s).push(0u8)
}

/// Whether `s` can be a C string: it holds no NUL character.
pub open spec fn nul_free(s: Seq<char>) -> bool {
    forall|i: int| 0 <= i < s.len() ==> #[trigger] s[i] != '\0'
}

/// The bytes of `s` as a C string.
fn as_cstring(s: &str) -> (r: Vec<u8>)
    requires
        nul_free(s@),
    ensures
        r@ == c_string(s@),
{
    let mut bytes = vstd::slice::slice_to_vec(s.as_bytes());
    bytes.push(0u8);
    bytes
}

impl ExternalCommand {
    /// The command `cmd` with the arguments `args`.
    pub fn new(cmd: String, args: Vec<String>) -> (r: Self)
        ensures
            r.cmd == cmd,
            r.args == args,
    {
        Self { cmd, args }
    }

    /// The name of the program, as the bytes of a C string.
    pub fn cmd_as_cstring(&self) -> (r: Vec<u8>)
        requires
            nul_free(self.cmd@),
        ensures
            r@ == c_string(self.cmd@),
    {
        as_cstring(self.cmd.as_str())
    }

    /// The arguments of the program, each as the bytes of a C string.
    pub fn args_as_cstring(&self) -> (r: Vec<Vec<u8>>)
        requires
            forall|i: int| 0 <= i < self.args@.len() ==> nul_free(#[trigger] self.args@[i]@),
        ensures
            r@.len() == self.args@.len(),
            forall|i: int|
                0 <= i < self.args@.len() ==> (#[trigger] r@[i])@ == c_string(self.args@[i]@),
    {
        let mut out: Vec<Vec<u8>> = Vec::new();
        for i in 0..self.args.len()
            invariant
                forall|j: int| 0 <= j < self.args@.len() ==> nul_free(#[trigger] self.args@[j]@),
                out@.len() == i,
                forall|j: int|
                    0 <= j < out@.len() ==> (#[trigger] out@[j])@ == c_string(self.args@[j]@),
        {
            out.push(as_cstring(self.args[i].as_str()));
        }
        out
    }
}

/// A C string ends at its zero byte: there is none before the last place.
pub proof fn law_c_string_ends_once(s: Seq<char>, i: int)
    requires
        nul_free(s),
        0 <= i < c_string(s).len(),
    ensures
        c_string(s)[i] == 0 <==> i == c_string(s).len() - 1,
{
    lemma_encoding_nonzero(s);
}

/// Different texts make different C strings.
pub proof fn law_c_string_is_faithful(s: Seq<char>, t: Seq<char>)
    requires
        c_string(s) == c_string(t),
    ensures
        s == t,
{
    assert(encode_utf8(s) =~= c_string(s).drop_last());
    assert(encode_utf8(t) =~= c_string(t).drop_last());
    encode_utf8_decode_utf8(s);
    encode_utf8_decode_utf8(t);
}

proof fn lemma_scalar_nonzero(c: char)
    requires
        c != '\0',
    ensures
        forall|i: int|
            0 <= i < encode_scalar(c as u32).len() ==> #[trigger] encode_scalar(c as u32)[i] != 0,
{
    let v = c as u32;
    assert(v <= 0x7f ==> v != 0 ==> (v & 0x7F) as u8 != 0) by (bit_vector);
    assert(0xC0 | ((v >> 6) & 0x1F) as u8 != 0) by (bit_vector);
    assert(0xE0 | ((v >> 12) & 0x0F) as u8 != 0) by (bit_vector);
    assert(0xF0 | ((v >> 18) & 0x7) as u8 != 0) by (bit_vector);
    assert(0x80 | (v & 0x3F) as u8 != 0) by (bit_vector);
    assert(0x80 | ((v >> 6) & 0x3F) as u8 != 0) by (bit_vector);
    assert(0x80 | ((v >> 12) & 0x3F) as u8 != 0) by (bit_vector);
}

proof fn lemma_encoding_nonzero(s: Seq<char>)
    requires
        nul_free(s),
    ensures
        forall|i: int| 0 <= i < encode_utf8(s).len() ==> #[trigger] encode_utf8(s)[i] != 0,
    decreases s.len(),
{
    if s.len() > 0 {
        let first = encode_scalar(s[0] as u32);
        let rest = encode_utf8(s.drop_first());
        assert(s[0] != '\0');
        lemma_scalar_nonzero(s[0]);
        assert forall|i: int| 0 <= i < s.drop_first().len() implies #[trigger] s.drop_first()[i]
            != '\0' by {
            assert(s[i + 1] != '\0');
        }
        lemma_encoding_nonzero(s.drop_first());
        assert forall|i: int| 0 <= i < encode_utf8(s).len() implies #[trigger] encode_utf8(s)[i]
            != 0 by {
            if i < first.len() {
                assert(encode_utf8(s)[i] == first[i]);
            } else {
                assert(encode_utf8(s)[i] == rest[i - first.len()]);
            }
        }
    }
}

/// The value of a command keeps all of it: which kind it is, its name and each of
/// its arguments, in order.
pub proof fn law_command_value(command: Command, strings: Seq<String>, i: int)
    ensures
        texts(strings).len() == strings.len(),
        0 <= i < strings.len() ==> texts(strings)[i] == strings[i]@,
        command == Command::Builtin(BuiltinCommand::Exit) <==> command@ == Request::Exit,
        command matches Command::Builtin(BuiltinCommand::Cd(args)) ==> command@ == Request::Cd(
            texts(args@),
        ),
        command matches Command::External(external) ==> command@ == Request::Run(
            external.cmd@,
            texts(external.args@),
        ),
{
}

/// Every command is well formed but a `cd` without even its own name.
pub proof fn law_well_formed_commands(args: Vec<String>, external: ExternalCommand)
    ensures
        Command::Builtin(BuiltinCommand::Exit).wf(),
        Command::External(external).wf(),
        Command::Builtin(BuiltinCommand::Cd(args)).wf() <==> args@.len() > 0,
        BuiltinCommand::Exit.wf(),
        BuiltinCommand::Cd(args).wf() <==> args@.len() > 0,
{
}

/// A C string is the UTF-8 encoding of its text, byte by byte, and one zero byte.
/// That of two texts is that of the first without its zero byte, and that of the
/// second.
pub proof fn law_c_string_bytes(s: Seq<char>, t: Seq<char>, i: int)
    ensures
        c_string(s).len() == encode_utf8(s).len() + 1,
        0 <= i < encode_utf8(s).len() ==> c_string(s)[i] == encode_utf8(s)[i],
        c_string(s).last() == 0,
        c_string(s + t) == c_string(s).drop_last() + c_string(t),
        c_string(seq![]) == seq![0u8],
{
    lemma_encoding_add(s, t);
    assert(c_string(s).drop_last() =~= encode_utf8(s));
    assert(c_string(s + t) =~= c_string(s).drop_last() + c_string(t));
    assert(encode_utf8(seq![]) =~= seq![]);
    assert(c_string(seq![]) =~= seq![0u8]);
}

proof fn lemma_encoding_add(s: Seq<char>, t: Seq<char>)
    ensures
        encode_utf8(s + t) == encode_utf8(s) + encode_utf8(t),
    decreases s.len(),
{
    if s.len() == 0 {
        assert(s + t =~= t);
        assert(encode_utf8(s) =~= seq![]);
        assert(encode_utf8(s) + encode_utf8(t) =~= encode_utf8(t));
    } else {
        let first = encode_scalar(s[0] as u32);
        assert((s + t).drop_first() =~= s.drop_first() + t);
        lemma_encoding_add(s.drop_first(), t);
        assert(first + (encode_utf8(s.drop_first()) + encode_utf8(t)) =~= encode_utf8(s)
            + encode_utf8(t));
    }
}

/// A text can be a C string just where no NUL character is in it.
pub proof fn law_nul_free(s: Seq<char>)
    ensures
        nul_free(s) <==> !s.contains('\u{0}'),
{
    if nul_free(s) && s.contains('\u{0}') {
        let i = choose|i: int| 0 <= i < s.len() && s[i] == '\u{0}';
        assert(s[i] != '\0');
    }
    if !s.contains('\u{0}') {
        assert forall|i: int| 0 <= i < s.len() implies #[trigger] s[i] != '\0' by {
            assert(s.contains(s[i]));
        }
    }
}

/// A program is run under the name and with the arguments that it was made with:
/// each becomes one C string, in order, and none is left out. That can be done
/// with any that hold no NUL character.
pub proof fn law_program_is_handed_over(
    cmd: String,
    args: Vec<String>,
    external: ExternalCommand,
    name: Vec<u8>,
    words: Vec<Vec<u8>>,
    i: int,
)
    requires
        call_ensures(ExternalCommand::new, (cmd, args), external),
        call_ensures(ExternalCommand::cmd_as_cstring, (&external,), name),
        call_ensures(ExternalCommand::args_as_cstring, (&external,), words),
        nul_free(cmd@),
        forall|j: int| 0 <= j < args@.len() ==> nul_free(#[trigger] args@[j]@),
    ensures
        external.cmd == cmd,
        external.args == args,
        name@ == c_string(cmd@),
        words@.len() == args@.len(),
        0 <= i < args@.len() ==> words@[i]@ == c_string(args@[i]@),
        call_requires(ExternalCommand::new, (cmd, args)),
        call_requires(ExternalCommand::cmd_as_cstring, (&external,)),
        call_requires(ExternalCommand::args_as_cstring, (&external,)),
{
}

/// Looking for a word finds one just where some token is a word.
pub proof fn law_contains_word(tokens: &Vec<Token>, found: bool)
    requires
        call_ensures(contains_word, (tokens,), found),
    ensures
        found <==> exists|i: int| 0 <= i < tokens@.len() && #[trigger] tokens@[i] is Word,
        call_requires(contains_word, (tokens,)),
{
    if found {
        let i = choose|i: int|
            0 <= i < lexemes(tokens@).len() && #[trigger] lexemes(tokens@)[i] is Word;
        assert(tokens@[i] is Word);
    }
    if exists|i: int| 0 <= i < tokens@.len() && #[trigger] tokens@[i] is Word {
        let i = choose|i: int| 0 <= i < tokens@.len() && #[trigger] tokens@[i] is Word;
        assert(lexemes(tokens@)[i] is Word);
    }
}

} // verus!
