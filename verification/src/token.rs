//! The tokens of a command line.
use vstd::prelude::*;

verus! {

/// How a word was written: bare, or between quotes of either kind.
#[derive(Debug, Clone, Copy, PartialEq, Eq, Structural)]
pub enum Quoting {
    Unquoted,
    SingleQuoted,
    DoubleQuoted,
}

/// The operators between commands.
#[derive(Debug, Clone, Copy, PartialEq, Eq, Structural)]
pub enum Operator {
    /// `&&`
    And,
    /// `||`
    Or,
    /// `|`
    Pipe,
    /// `&`
    Andpercent,
    /// `;`
    Semicolon,
}

/// One token of a command line.
#[derive(Debug, PartialEq, Eq)]
pub enum Token {
    Word(String, Quoting),
    Operator(Operator),
    Whitespace,
}

/// The mathematical value of a token.
pub enum Lexeme {
    Word(Seq<char>, Quoting),
    Operator(Operator),
    Whitespace,
}

impl View for Token {
    type V = Lexeme;

    open spec fn view(&self) -> Lexeme {
        match self {
            Token::Word(text, quoting) => Lexeme::Word(text@, *quoting),
            Token::Operator(op) => Lexeme::Operator(*op),
            Token::Whitespace => Lexeme::Whitespace,
        }
    }
}

/// The mathematical values of `tokens`, in order.
pub open spec fn lexemes(tokens: Seq<Token>) -> Seq<Lexeme> {
    tokens.map_values(|t: Token| t@)
}

/// The value of a token keeps all of it: the text of a word and how it was
/// written, or which operator it is. Tokens keep their number and their order.
pub proof fn law_lexemes(tokens: Seq<Token>, i: int)
    ensures
        lexemes(tokens).len() == tokens.len(),
        0 <= i < tokens.len() ==> match tokens[i] {
            Token::Word(text, quoting) => lexemes(tokens)[i] == Lexeme::Word(text@, quoting),
            Token::Operator(op) => lexemes(tokens)[i] == Lexeme::Operator(op),
            Token::Whitespace => lexemes(tokens)[i] == Lexeme::Whitespace,
        },
{
}

} // verus!
