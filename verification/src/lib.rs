//! A lexical scanner for a small dynamically-typed scripting language.
//!
//! The scanner turns source text into classified tokens and reports lexical
//! faults with the line on which they were found. It scans until the text is
//! exhausted or the first fault is found: a text either gives all its tokens,
//! ended by an end-of-file token, or one fault and no token.
//!
//! What the scanner produces is defined mathematically in [`grammar`], over
//! sequences of code points; the executable scanner in [`scanner`] is proved to
//! compute exactly that, and [`laws`] proves what holds of every scan.

pub mod error;
pub mod grammar;
pub mod laws;
pub mod scanner;
pub mod text;
pub mod token;
pub use crate::error::Error;

use vstd::prelude::*;
use vstd::string::*;
use crate::grammar::lex;
use crate::scanner::Scanner;
use crate::token::token_models;

verus! {

/// Scans `source` and renders each token on a line of its own, in order: what
/// a listing of the tokens of `source` shows. A text that does not scan gives
/// its fault and no line.
pub fn listing(source: &str) -> (result: Result<Vec<String>, Error>)
    requires
        source@.len() < usize::MAX,
    ensures
        match result {
            Ok(lines) => {
                &&& lex(source@) matches Ok(tokens)
                &&& lines@.len() == tokens.len()
                &&& forall|i: int| 0 <= i < tokens.len() ==> lines@[i]@ == tokens[i].rendering()
            },
            Err(error) => lex(source@) == Err::<Seq<crate::token::TokenModel>, _>(error@),
        },
{
    let mut scanner = Scanner::new(source.to_owned());
    let tokens = scanner.scan_tokens()?;
    let mut lines: Vec<String> = Vec::new();
    let mut i: usize = 0;
    while i < tokens.len()
        invariant
            i <= tokens@.len(),
            lines@.len() == i,
            forall|j: int| 0 <= j < i ==> lines@[j]@ == token_models(tokens@)[j].rendering(),
        decreases tokens@.len() - i,
    {
        lines.push(tokens[i].to_string());
        i += 1;
    }
    Ok(lines)
}

} // verus!
