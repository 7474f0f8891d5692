//! Reading a command line: cutting it into tokens, and making a command of them.
use regex::Regex;
use vstd::prelude::*;

use crate::command::{
    arguments, has_word, parsed, texts, BuiltinCommand, Command, ExternalCommand,
};
use crate::grammar::{
    all_within, chars_of, continued, delimiter, gathered, glyphs, lemma_continued_add,
    lemma_continued_one, lemma_gathered_push, lemma_gathered_text, lemma_glyphs_step,
    lemma_lex_delimiter, lemma_lex_end, lex, tokens_of, unescaped, within, word, word_text,
    Glyph,
};
use crate::text::{characters, is_blank, is_whitespace};
use crate::token::{lexemes, Lexeme, Operator, Quoting, Token};
use crate::variables::{compile, pattern_of, reference_pattern, replace_references};

verus! {

/// Reads command lines.
pub struct Parser {
    variable_regex: Regex,
}

/// The character that a backslash in front of `c` stands for.
fn unescape(c: char) -> (r: char)
    ensures
        r == unescaped(c),
{
    match c {
        'n' => '\n',
        't' => '\t',
        'r' => '\r',
        '0' => '\0',
        _ => c,
    }
}

/// Puts a word behind `tokens`, unless it holds no text.
fn push_word(tokens: &mut Vec<Token>, text: String, mode: Quoting, Ghost(run): Ghost<Seq<Glyph>>)
    requires
        text@ == word_text(mode, run),
    ensures
        lexemes(final(tokens)@) == continued(lexemes(old(tokens)@), word(mode, run)),
{
    if !text.as_str().is_empty() {
        proof {
            lemma_continued_one(lexemes(old(tokens)@), Lexeme::Word(text@, mode));
        }
        let ghost token = Token::Word(text, mode);
        tokens.push(Token::Word(text, mode));
        assert(lexemes(tokens@) =~= lexemes(old(tokens)@).push(token@));
    } else {
        proof {
            lemma_continued_one(lexemes(old(tokens)@), Lexeme::Whitespace);
        }
    }
}

/// Puts a token behind `tokens`, unless it were a second white space token in a
/// row.
fn push_token(tokens: &mut Vec<Token>, token: Token)
    ensures
        lexemes(final(tokens)@) == continued(lexemes(old(tokens)@), seq![token@]),
{
    proof {
        lemma_continued_one(lexemes(old(tokens)@), token@);
    }
    let repeated: bool = match token {
        Token::Whitespace => tokens.len() > 0 && matches!(
            tokens[tokens.len() - 1],
            Token::Whitespace
        ),
        _ => false,
    };
    if !repeated {
        tokens.push(token);
        assert(lexemes(tokens@) =~= lexemes(old(tokens)@).push(token@));
    }
}

/// A word and the delimiter behind it, put behind other tokens.
proof fn lemma_delimited(tokens: Seq<Lexeme>, mode: Quoting, run: Seq<Glyph>, rest: Seq<Glyph>)
    requires
        all_within(mode, run),
        rest.len() > 0,
        !within(mode, rest[0]),
    ensures
        continued(tokens, lex(mode, run + rest)) == continued(
            continued(continued(tokens, word(mode, run)), delimiter(mode, rest).0),
            lex(delimiter(mode, rest).1, seq![] + rest.skip(delimiter(mode, rest).2)),
        ),
{
    let (found, next, len) = delimiter(mode, rest);
    lemma_lex_delimiter(mode, run, rest);
    lemma_continued_add(tokens, word(mode, run) + found, lex(next, rest.skip(len)));
    lemma_continued_add(tokens, word(mode, run), found);
    assert(seq![] + rest.skip(len) =~= rest.skip(len));
}

/// A word among the tokens makes an argument.
proof fn lemma_arguments_nonempty(tokens: Seq<Lexeme>, vars: Seq<(String, String)>, i: int)
    requires
        0 <= i < tokens.len(),
        tokens[i] is Word,
    ensures
        arguments(tokens, vars).len() > 0,
    decreases tokens.len(),
{
    if i < tokens.len() - 1 {
        assert(tokens.drop_last()[i] == tokens[i]);
        lemma_arguments_nonempty(tokens.drop_last(), vars, i);
    }
}

impl Parser {
    /// The pattern that finds references to variables.
    pub closed spec fn variable_pattern(&self) -> Seq<char> {
        pattern_of(self.variable_regex)
    }

    #[verifier::type_invariant]
    spec fn finds_references(&self) -> bool {
        self.variable_pattern() == reference_pattern()
    }

    /// A parser of command lines.
    pub fn new() -> (r: Self)
        ensures
            r.variable_pattern() == reference_pattern(),
    {
        let variable_regex = compile(r"\$([a-zA-Z0-9_]+|\$|!)").unwrap();
        Self { variable_regex }
    }

    /// Makes a command of the tokens of a line.
    ///
    /// Its arguments are the words among them, with the variables in those that
    /// did not stand between single quotes replaced by their values in `vars`.
    pub fn parse(&self, tokens: Vec<Token>, vars: &Vec<(String, String)>) -> (r: Option<Command>)
        requires
            tokens@.len() == 0 || has_word(lexemes(tokens@)),
        ensures
            match r {
                Some(command) => parsed(lexemes(tokens@), vars@) == Some(command@),
                None => parsed(lexemes(tokens@), vars@) is None,
            },
            r matches Some(command) ==> command.wf(),
    {
        if tokens.len() == 0 {
            return None;
        }
        let args = self.expand_words(&tokens, vars);
        proof {
            let i = choose|i: int|
                0 <= i < lexemes(tokens@).len() && #[trigger] lexemes(tokens@)[i] is Word;
            lemma_arguments_nonempty(lexemes(tokens@), vars@, i);
        }
        let name = args[0].clone();
        assert(name@ == texts(args@)[0]);
        if name == "exit".to_owned() {
            Some(Command::Builtin(BuiltinCommand::Exit))
        } else if name == "cd".to_owned() {
            Some(Command::Builtin(BuiltinCommand::Cd(args)))
        } else {
            Some(Command::External(ExternalCommand::new(name, args)))
        }
    }

    /// The arguments that `tokens` stand for.
    fn expand_words(&self, tokens: &Vec<Token>, vars: &Vec<(String, String)>) -> (r: Vec<String>)
        ensures
            texts(r@) == arguments(lexemes(tokens@), vars@),
    {
        proof {
            use_type_invariant(&*self);
        }
        let mut args: Vec<String> = Vec::new();
        let mut i: usize = 0;
        assert(texts(args@) =~= seq![]);
        assert(lexemes(tokens@).take(0) =~= seq![]);
        while i < tokens.len()
            invariant
                i <= tokens@.len(),
                self.variable_pattern() == reference_pattern(),
                texts(args@) == arguments(lexemes(tokens@).take(i as int), vars@),
            decreases tokens@.len() - i,
        {
            let ghost upto = lexemes(tokens@).take(i + 1);
            assert(upto.drop_last() =~= lexemes(tokens@).take(i as int));
            assert(upto.last() == tokens@[i as int]@);
            let ghost before = args@;
            match &tokens[i] {
                Token::Word(text, Quoting::SingleQuoted) => {
                    args.push(text.clone());
                    assert(texts(args@) =~= texts(before).push(text@));
                },
                Token::Word(text, _) => {
                    let value = replace_references(&self.variable_regex, text.as_str(), vars);
                    let ghost expansion = value@;
                    args.push(value);
                    assert(texts(args@) =~= texts(before).push(expansion));
                },
                _ => {},
            }
            i = i + 1;
        }
        assert(lexemes(tokens@).take(i as int) =~= lexemes(tokens@));
        args
    }

    /// Cuts a command line into tokens.
    pub fn tokenize(&self, input: &str) -> (tokens: Vec<Token>)
        ensures
            lexemes(tokens@) == tokens_of(input@),
    {
        let chars = characters(input);
        let mut tokens: Vec<Token> = Vec::new();
        let mut current = String::new();
        let mut mode = Quoting::Unquoted;
        let mut i: usize = 0;
        let ghost mut run: Seq<Glyph> = seq![];
        proof {
            assert(chars@.skip(0) =~= input@);
            assert(run + glyphs(input@) =~= glyphs(input@));
            assert(lexemes(tokens@) =~= seq![]);
            assert(chars_of(run) =~= seq![]);
        }
        while i < chars.len()
            invariant
                i <= chars@.len(),
                gathered(mode, run, current@),
                tokens_of(input@) == continued(
                    lexemes(tokens@),
                    lex(mode, run + glyphs(chars@.skip(i as int))),
                ),
            decreases chars@.len() - i,
        {
            // A word does not start with white space.
            if mode == Quoting::Unquoted {
                proof {
                    lemma_gathered_text(run, current@);
                }
                if is_blank(current.as_str()) {
                    current = String::new();
                }
            }
            let c = chars[i];
            let next = if i + 1 < chars.len() {
                Some(chars[i + 1])
            } else {
                None
            };
            let ghost here = glyphs(chars@.skip(i as int));
            let ghost behind = glyphs(chars@.skip(i + 1));
            proof {
                lemma_glyphs_step(chars@, i as int);
                if c != '\\' {
                    assert(here.skip(1) =~= behind);
                    if !within(mode, Glyph::Plain(c)) {
                        lemma_delimited(lexemes(tokens@), mode, run, here);
                    }
                }
            }
            if mode == Quoting::Unquoted && is_whitespace(c) {
                push_word(&mut tokens, current, mode, Ghost(run));
                current = String::new();
                push_token(&mut tokens, Token::Whitespace);
                i = i + 1;
                proof {
                    run = seq![];
                    assert(chars_of(run) =~= seq![]);
                }
            } else if c == '\'' && mode != Quoting::DoubleQuoted {
                push_word(&mut tokens, current, mode, Ghost(run));
                current = String::new();
                proof {
                    lemma_continued_one(lexemes(tokens@), Lexeme::Whitespace);
                    run = seq![];
                    assert(chars_of(run) =~= seq![]);
                }
                mode = if mode == Quoting::SingleQuoted {
                    Quoting::Unquoted
                } else {
                    Quoting::SingleQuoted
                };
                i = i + 1;
            } else if c == '"' && mode != Quoting::SingleQuoted {
                push_word(&mut tokens, current, mode, Ghost(run));
                current = String::new();
                proof {
                    lemma_continued_one(lexemes(tokens@), Lexeme::Whitespace);
                    run = seq![];
                    assert(chars_of(run) =~= seq![]);
                }
                mode = if mode == Quoting::DoubleQuoted {
                    Quoting::Unquoted
                } else {
                    Quoting::DoubleQuoted
                };
                i = i + 1;
            } else if mode == Quoting::Unquoted && (c == '&' || c == '|') {
                push_word(&mut tokens, current, mode, Ghost(run));
                current = String::new();
                let doubled: bool = next == Some(c);
                push_token(
                    &mut tokens,
                    Token::Operator(
                        if c == '&' {
                            if doubled {
                                Operator::And
                            } else {
                                Operator::Andpercent
                            }
                        } else {
                            if doubled {
                                Operator::Or
                            } else {
                                Operator::Pipe
                            }
                        },
                    ),
                );
                proof {
                    if next is Some {
                        lemma_glyphs_step(chars@, i + 1);
                    }
                    if doubled {
                        assert(here.skip(2) =~= glyphs(chars@.skip(i + 2)));
                    }
                    run = seq![];
                    assert(chars_of(run) =~= seq![]);
                }
                i = if doubled {
                    i + 2
                } else {
                    i + 1
                };
            } else if mode == Quoting::Unquoted && c == ';' {
                push_word(&mut tokens, current, mode, Ghost(run));
                current = String::new();
                push_token(&mut tokens, Token::Operator(Operator::Semicolon));
                i = i + 1;
                proof {
                    run = seq![];
                    assert(chars_of(run) =~= seq![]);
                }
            } else if c == '\\' {
                match next {
                    Some(escaped) => {
                        let e = unescape(escaped);
                        proof {
                            let x = Glyph::Escaped(e);
                            lemma_gathered_push(mode, run, current@, x);
                            assert(run.push(x) + glyphs(chars@.skip(i + 2)) =~= run + here);
                            run = run.push(x);
                        }
                        current.push(e);
                        i = i + 2;
                    },
                    None => {
                        i = i + 1;
                    },
                }
            } else {
                proof {
                    let x = Glyph::Plain(c);
                    lemma_gathered_push(mode, run, current@, x);
                    assert(run.push(x) + behind =~= run + here);
                    run = run.push(x);
                }
                current.push(c);
                i = i + 1;
            }
        }
        proof {
            assert(run + glyphs(chars@.skip(i as int)) =~= run);
            lemma_lex_end(mode, run);
            lemma_continued_one(lexemes(tokens@), Lexeme::Whitespace);
        }
        // The text of a quote that was opened and not closed is dropped.
        if mode == Quoting::Unquoted {
            proof {
                lemma_gathered_text(run, current@);
            }
            if !is_blank(current.as_str()) {
                push_word(&mut tokens, current, mode, Ghost(run));
            }
        }
        tokens
    }
}

/// What cutting a line gives are the tokens of that line, of any line.
pub proof fn law_tokenize(parser: &Parser, input: &str, tokens: Vec<Token>)
    requires
        call_ensures(Parser::tokenize, (parser, input), tokens),
    ensures
        lexemes(tokens@) == tokens_of(input@),
        call_requires(Parser::tokenize, (parser, input)),
{
}

/// What making a command of tokens gives. No tokens make none. Of others the first
/// argument decides: `exit` ends the shell, `cd` changes the directory and is given
/// all of the arguments, and any other is the name of a program that is given all
/// of them. It can be done with no tokens, and with any that have a word among
/// them.
pub proof fn law_parse(
    parser: &Parser,
    tokens: Vec<Token>,
    vars: &Vec<(String, String)>,
    r: Option<Command>,
    i: int,
)
    requires
        call_ensures(Parser::parse, (parser, tokens, vars), r),
        tokens@.len() == 0 || has_word(lexemes(tokens@)),
    ensures
        call_requires(Parser::parse, (parser, tokens, vars)),
        tokens@.len() == 0 <==> r is None,
        tokens@.len() > 0 ==> {
            let args = arguments(lexemes(tokens@), vars@);
            &&& args.len() > 0
            &&& r matches Some(command)
            &&& command.wf()
            &&& if args[0] == seq!['e', 'x', 'i', 't'] {
                command == Command::Builtin(BuiltinCommand::Exit)
            } else if args[0] == seq!['c', 'd'] {
                &&& command matches Command::Builtin(BuiltinCommand::Cd(words))
                &&& words@.len() == args.len()
                &&& 0 <= i < args.len() ==> words@[i]@ == args[i]
            } else {
                &&& command matches Command::External(external)
                &&& external.cmd@ == args[0]
                &&& external.args@.len() == args.len()
                &&& 0 <= i < args.len() ==> external.args@[i]@ == args[i]
            }
        },
{
    reveal_strlit("exit");
    reveal_strlit("cd");
    assert("exit"@ =~= seq!['e', 'x', 'i', 't']);
    assert("cd"@ =~= seq!['c', 'd']);
    if tokens@.len() > 0 {
        let j = choose|j: int|
            0 <= j < lexemes(tokens@).len() && #[trigger] lexemes(tokens@)[j] is Word;
        lemma_arguments_nonempty(lexemes(tokens@), vars@, j);
        match r->0 {
            Command::Builtin(BuiltinCommand::Cd(words)) => {
                assert(texts(words@).len() == words@.len());
                assert(0 <= i < words@.len() ==> texts(words@)[i] == words@[i]@);
            },
            Command::External(external) => {
                assert(texts(external.args@).len() == external.args@.len());
                assert(0 <= i < external.args@.len() ==> texts(external.args@)[i]
                    == external.args@[i]@);
            },
            _ => {},
        }
    }
}

/// A new parser finds references to variables.
pub proof fn law_new_parser(parser: Parser)
    requires
        call_ensures(Parser::new, (), parser),
    ensures
        parser.variable_pattern() == reference_pattern(),
        call_requires(Parser::new, ()),
{
}

} // verus!
