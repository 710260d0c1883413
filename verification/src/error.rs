//! Lexical faults.

use vstd::prelude::*;
use vstd::string::*;
use crate::text::{decimal, push_decimal};

verus! {

/// Why scanning stopped, and on which line.
#[derive(Debug)]
pub struct Error {
    /// What went wrong, for a person to read.
    pub message: String,
    /// Where in the line it went wrong; empty when the line alone is known.
    pub location: String,
    /// The line, counted from one, on which the fault was found.
    pub line: usize,
}

/// A fault as a mathematical value.
pub struct ErrorModel {
    pub message: Seq<char>,
    pub location: Seq<char>,
    pub line: nat,
}

impl ErrorModel {
    /// The diagnostic shown for the fault: `[line N] Error WHERE: MESSAGE`,
    /// with the line in decimal.
    pub open spec fn rendering(self) -> Seq<char> {
        "[line "@ + decimal(self.line) + "] Error "@ + self.location + ": "@ + self.message
    }
}

impl View for Error {
    type V = ErrorModel;

    open spec fn view(&self) -> ErrorModel {
        ErrorModel { message: self.message@, location: self.location@, line: self.line as nat }
    }
}

/// The fault of a code point that begins no token and is no white space.
pub open spec fn unexpected_character(line: nat) -> ErrorModel {
    ErrorModel { message: "Unexpected character."@, location: Seq::empty(), line }
}

/// The fault of a string literal that is still open where the text ends.
pub open spec fn unterminated_string(line: nat) -> ErrorModel {
    ErrorModel { message: "Unterminated string"@, location: Seq::empty(), line }
}

/// The fault of a block comment that is still open where the text ends.
pub open spec fn unbalanced_comment(line: nat) -> ErrorModel {
    ErrorModel {
        message: "Unbalanced block comment: missing closing */"@,
        location: Seq::empty(),
        line,
    }
}

impl Error {
    pub fn new(message: String, location: String, line: usize) -> (error: Error)
        ensures
            error == (Error { message, location, line }),
    {
        Error { message, location, line }
    }

    /// Renders the fault as `[line N] Error WHERE: MESSAGE`.
    pub fn to_string(&self) -> (s: String)
        ensures
            s@ == self@.rendering(),
    {
        let mut s = "[line ".to_owned();
        push_decimal(&mut s, self.line);
        s.append("] Error ");
        s.append(self.location.as_str());
        s.append(": ");
        s.append(self.message.as_str());
        s
    }
}

} // verus!
