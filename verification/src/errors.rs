//! The ways in which a text can fail to be an expression.

use vstd::prelude::*;

verus! {

/// A violation of bracket balance.
#[derive(Debug, Clone, Copy, PartialEq, Eq, Structural)]
pub enum ParenError {
    /// A bracket was opened and never closed.
    UnmatchedOpen,
    /// A bracket was closed that had not been opened.
    UnmatchedClose,
}

/// Why a text is not an expression.
#[derive(Debug, Clone, Copy, PartialEq, Eq, Structural)]
pub enum SyntaxError {
    /// A bracket was opened and never closed.
    UnmatchedOpen,
    /// A bracket was closed that had not been opened.
    UnmatchedClose,
    /// A bracket that runs to the end of the text is preceded by a single
    /// character other than `-`.
    InvalidOperatorBeforeBracket,
    /// A constant with text directly behind it, or operators where an operand
    /// should stand.
    InvalidSyntax,
    /// An operand that is not a number.
    InvalidNumber,
}

impl ParenError {
    /// The syntax error that stands for this bracket error.
    pub open spec fn as_syntax(self) -> SyntaxError {
        match self {
            ParenError::UnmatchedOpen => SyntaxError::UnmatchedOpen,
            ParenError::UnmatchedClose => SyntaxError::UnmatchedClose,
        }
    }

    /// Widens a bracket error to a syntax error of the same kind.
    pub fn to_syntax_error(self) -> (e: SyntaxError)
        ensures
            e == self.as_syntax(),
    {
        match self {
            ParenError::UnmatchedOpen => SyntaxError::UnmatchedOpen,
            ParenError::UnmatchedClose => SyntaxError::UnmatchedClose,
        }
    }

    /// The error in words.
    pub fn message(self) -> (text: &'static str)
        ensures
            text@ == self.as_syntax().text(),
    {
        self.to_syntax_error().message()
    }
}

impl SyntaxError {
    /// The error in words.
    pub open spec fn text(self) -> Seq<char> {
        match self {
            SyntaxError::UnmatchedOpen => "Open bracket not closed"@,
            SyntaxError::UnmatchedClose => "Close bracket found without open brackets"@,
            SyntaxError::InvalidOperatorBeforeBracket => "Invalid operator in front of bracket"@,
            SyntaxError::InvalidSyntax => "Invalid syntax"@,
            SyntaxError::InvalidNumber => "Incorrect number"@,
        }
    }

    /// The error in words.
    pub fn message(self) -> (text: &'static str)
        ensures
            text@ == self.text(),
    {
        match self {
            SyntaxError::UnmatchedOpen => "Open bracket not closed",
            SyntaxError::UnmatchedClose => "Close bracket found without open brackets",
            SyntaxError::InvalidOperatorBeforeBracket => "Invalid operator in front of bracket",
            SyntaxError::InvalidSyntax => "Invalid syntax",
            SyntaxError::InvalidNumber => "Incorrect number",
        }
    }
}

} // verus!
