//! What scanning means.
//!
//! The lexical grammar is given as functions on a sequence of code points:
//! [`step`] says what the scanner does at one position, [`scan_from`] follows
//! the steps to the end of the text, and [`lex`] is the scan of a whole text.
//! Positions are code-point indices and lines are counted from one.

use vstd::prelude::*;
use crate::error::{unbalanced_comment, unexpected_character, unterminated_string, ErrorModel};
use crate::text::{alpha, alphanumeric, code_point_at, digit};
use crate::token::{keyword_kind, TokenModel, TokenType};

verus! {

/// The number of line feeds in `s`.
pub open spec fn newlines(s: Seq<char>) -> nat
    decreases s.len(),
{
    if s.len() == 0 {
        0
    } else {
        newlines(s.drop_last()) + if s.last() == '\n' {
            1nat
        } else {
            0nat
        }
    }
}

/// The kinds of code point that the scanner reads in runs.
pub enum CharClass {
    /// A decimal digit.
    Digit,
    /// A letter, a digit or an underscore.
    Word,
    /// Anything that does not end a line.
    LineBody,
    /// Anything that does not close a string literal.
    StringBody,
}

impl CharClass {
    /// Whether `c` is of this class.
    pub open spec fn holds(self, c: char) -> bool {
        match self {
            CharClass::Digit => digit(c),
            CharClass::Word => alphanumeric(c),
            CharClass::LineBody => c != '\n',
            CharClass::StringBody => c != '"',
        }
    }
}

/// Where the longest run of code points of `class` that begins at `pos` ends:
/// the first position at or behind `pos` that holds a code point outside
/// `class`, or the end of the text.
pub open spec fn run_end(src: Seq<char>, pos: int, class: CharClass) -> int
    decreases src.len() - pos,
{
    if 0 <= pos < src.len() && class.holds(src[pos]) {
        run_end(src, pos + 1, class)
    } else {
        pos
    }
}

/// Where a block comment closes, read from `pos` inside the comment with
/// `depth` comments open: the position behind the `*/` that brings the depth
/// to zero. Every `/*` on the way opens one more comment and every `*/` closes
/// one; both are read as pairs, left to right. `None` where the text ends with
/// a comment still open.
pub open spec fn comment_end(src: Seq<char>, pos: int, depth: nat) -> Option<int>
    decreases src.len() - pos,
{
    if pos < 0 || pos >= src.len() {
        None
    } else if src[pos] == '/' && code_point_at(src, pos + 1) == '*' {
        comment_end(src, pos + 2, depth + 1)
    } else if src[pos] == '*' && code_point_at(src, pos + 1) == '/' {
        if depth <= 1 {
            Some(pos + 2)
        } else {
            comment_end(src, pos + 2, (depth - 1) as nat)
        }
    } else {
        comment_end(src, pos + 1, depth)
    }
}

/// What one step of the scanner hands on.
pub enum Yield {
    /// A token to append to the output.
    Token(TokenModel),
    /// Nothing: white space or a comment was passed over.
    Nothing,
    /// A fault, which ends the scan.
    Fault(ErrorModel),
}

/// One step of the scanner: what it yields, where the cursor stands behind it
/// and which line that position is on.
pub struct Step {
    pub yields: Yield,
    pub next: int,
    pub line: nat,
}

/// The step that reads `src[pos..next]` as one token on a single line.
pub open spec fn emit(
    src: Seq<char>,
    pos: int,
    next: int,
    kind: TokenType,
    literal: Seq<char>,
    line: nat,
) -> Step {
    Step {
        yields: Yield::Token(TokenModel { kind, lexeme: src.subrange(pos, next), literal, line }),
        next,
        line,
    }
}

/// The step that passes over the text up to `next` and ends on `line`.
pub open spec fn skip(next: int, line: nat) -> Step {
    Step { yields: Yield::Nothing, next, line }
}

/// The step that stops at `next` with `error`, on the line of the error.
pub open spec fn fail(error: ErrorModel, next: int) -> Step {
    Step { yields: Yield::Fault(error), next, line: error.line }
}

/// The token kind of a code point that is a token by itself wherever it stands.
pub open spec fn punctuation(c: char) -> Option<TokenType> {
    if c == '(' {
        Some(TokenType::LeftParen)
    } else if c == ')' {
        Some(TokenType::RightParen)
    } else if c == '{' {
        Some(TokenType::LeftBrace)
    } else if c == '}' {
        Some(TokenType::RightBrace)
    } else if c == ',' {
        Some(TokenType::Comma)
    } else if c == '.' {
        Some(TokenType::Dot)
    } else if c == '-' {
        Some(TokenType::Minus)
    } else if c == '+' {
        Some(TokenType::Plus)
    } else if c == ';' {
        Some(TokenType::Semicolon)
    } else if c == '*' {
        Some(TokenType::Star)
    } else {
        None
    }
}

/// For a code point that begins an operator of one or two characters: the
/// kind it has alone, and the kind it has with `=` behind it.
pub open spec fn operator(c: char) -> Option<(TokenType, TokenType)> {
    if c == '!' {
        Some((TokenType::Bang, TokenType::BangEqual))
    } else if c == '=' {
        Some((TokenType::Equal, TokenType::EqualEqual))
    } else if c == '<' {
        Some((TokenType::Less, TokenType::LessEqual))
    } else if c == '>' {
        Some((TokenType::Greater, TokenType::GreaterEqual))
    } else {
        None
    }
}

/// Whether `c` is white space that stays on the line.
pub open spec fn blank(c: char) -> bool {
    c == ' ' || c == '\r' || c == '\t'
}

/// The step at an operator character: the two-character operator where `=`
/// follows, else the one-character operator.
pub open spec fn operator_step(
    src: Seq<char>,
    pos: int,
    line: nat,
    kinds: (TokenType, TokenType),
) -> Step {
    if code_point_at(src, pos + 1) == '=' {
        emit(src, pos, pos + 2, kinds.1, Seq::empty(), line)
    } else {
        emit(src, pos, pos + 1, kinds.0, Seq::empty(), line)
    }
}

/// The step at a `/`: a line comment up to the end of the line, a block
/// comment up to where it closes, or the division sign.
pub open spec fn slash_step(src: Seq<char>, pos: int, line: nat) -> Step {
    let after = code_point_at(src, pos + 1);
    if after == '/' {
        skip(run_end(src, pos + 2, CharClass::LineBody), line)
    } else if after == '*' {
        match comment_end(src, pos + 2, 1) {
            Some(end) => skip(end, line + newlines(src.subrange(pos + 2, end))),
            None => fail(
                unbalanced_comment(line + newlines(src.subrange(pos + 2, src.len() as int))),
                src.len() as int,
            ),
        }
    } else {
        emit(src, pos, pos + 1, TokenType::Slash, Seq::empty(), line)
    }
}

/// The step at an opening `"`: the string literal up to the next `"`, whose
/// literal is the text between the two. The token is on the line of the opening
/// quote; the scan goes on from the line of the closing one.
pub open spec fn string_step(src: Seq<char>, pos: int, line: nat) -> Step {
    let close = run_end(src, pos + 1, CharClass::StringBody);
    let last_line = line + newlines(src.subrange(pos + 1, close));
    if close >= src.len() {
        fail(unterminated_string(last_line), src.len() as int)
    } else {
        Step {
            yields: Yield::Token(
                TokenModel {
                    kind: TokenType::String,
                    lexeme: src.subrange(pos, close + 1),
                    literal: src.subrange(pos + 1, close),
                    line,
                },
            ),
            next: close + 1,
            line: last_line,
        }
    }
}

/// Where the number that begins at `pos` ends: behind its digits, and behind
/// the `.` and the digits of a fraction where a digit follows the `.`.
pub open spec fn number_end(src: Seq<char>, pos: int) -> int {
    let whole = run_end(src, pos, CharClass::Digit);
    if code_point_at(src, whole) == '.' && digit(code_point_at(src, whole + 1)) {
        run_end(src, whole + 1, CharClass::Digit)
    } else {
        whole
    }
}

/// The step at a digit: a number, whose literal is its own text.
pub open spec fn number_step(src: Seq<char>, pos: int, line: nat) -> Step {
    let end = number_end(src, pos);
    emit(src, pos, end, TokenType::Number, src.subrange(pos, end), line)
}

/// The step at a letter or an underscore: the longest word from there, as a
/// keyword where it spells one, else as an identifier whose literal is the
/// word.
pub open spec fn word_step(src: Seq<char>, pos: int, line: nat) -> Step {
    let end = run_end(src, pos, CharClass::Word);
    let word = src.subrange(pos, end);
    match keyword_kind(word) {
        Some(kind) => emit(src, pos, end, kind, Seq::empty(), line),
        None => emit(src, pos, end, TokenType::Identifier, word, line),
    }
}

/// The step of the scanner at `pos`, a position inside `src`, on `line`.
pub open spec fn step(src: Seq<char>, pos: int, line: nat) -> Step
    recommends
        0 <= pos < src.len(),
{
    let c = src[pos];
    if let Some(kind) = punctuation(c) {
        emit(src, pos, pos + 1, kind, Seq::empty(), line)
    } else if let Some(kinds) = operator(c) {
        operator_step(src, pos, line, kinds)
    } else if c == '/' {
        slash_step(src, pos, line)
    } else if blank(c) {
        skip(pos + 1, line)
    } else if c == '\n' {
        skip(pos + 1, line + 1)
    } else if c == '"' {
        string_step(src, pos, line)
    } else if digit(c) {
        number_step(src, pos, line)
    } else if alpha(c) {
        word_step(src, pos, line)
    } else {
        fail(unexpected_character(line), pos + 1)
    }
}

/// The token that ends every successful scan.
pub open spec fn eof(line: nat) -> TokenModel {
    TokenModel { kind: TokenType::Eof, lexeme: Seq::empty(), literal: Seq::empty(), line }
}

/// How a scan ends.
pub struct Outcome {
    /// The tokens read, in order; with the end-of-file token last where the
    /// scan reached the end of the text.
    pub tokens: Seq<TokenModel>,
    /// The fault that stopped the scan, if one did.
    pub fault: Option<ErrorModel>,
    /// Where the cursor stands at the end.
    pub end: int,
    /// The line that position is on.
    pub line: nat,
}

/// The scan of `src` from `pos` on `line`: step by step up to the end of the
/// text or to the first fault.
pub open spec fn scan_from(src: Seq<char>, pos: int, line: nat) -> Outcome
    decreases src.len() - pos,
    via scan_from_terminates
{
    if pos < 0 || pos >= src.len() {
        Outcome { tokens: seq![eof(line)], fault: None, end: pos, line }
    } else {
        let s = step(src, pos, line);
        match s.yields {
            Yield::Token(token) => {
                let rest = scan_from(src, s.next, s.line);
                Outcome { tokens: seq![token] + rest.tokens, ..rest }
            },
            Yield::Nothing => scan_from(src, s.next, s.line),
            Yield::Fault(error) => Outcome {
                tokens: Seq::empty(),
                fault: Some(error),
                end: s.next,
                line: s.line,
            },
        }
    }
}

#[via_fn]
proof fn scan_from_terminates(src: Seq<char>, pos: int, line: nat) {
    if 0 <= pos < src.len() {
        lemma_step_advances(src, pos, line);
    }
}

/// Where each token of the scan from `pos` begins, in order. The end-of-file
/// token begins at the end of the text.
pub open spec fn token_starts(src: Seq<char>, pos: int, line: nat) -> Seq<int>
    decreases src.len() - pos,
    via token_starts_terminates
{
    if pos < 0 || pos >= src.len() {
        seq![pos]
    } else {
        let s = step(src, pos, line);
        match s.yields {
            Yield::Token(_) => seq![pos] + token_starts(src, s.next, s.line),
            Yield::Nothing => token_starts(src, s.next, s.line),
            Yield::Fault(_) => Seq::empty(),
        }
    }
}

#[via_fn]
proof fn token_starts_terminates(src: Seq<char>, pos: int, line: nat) {
    if 0 <= pos < src.len() {
        lemma_step_advances(src, pos, line);
    }
}

/// Where the lexeme that the scan from `pos` reads last begins: the position
/// of its last step, or `start` where it takes no step.
pub open spec fn last_lexeme_start(src: Seq<char>, pos: int, line: nat, start: int) -> int
    decreases src.len() - pos,
    via last_lexeme_start_terminates
{
    if pos < 0 || pos >= src.len() {
        start
    } else {
        let s = step(src, pos, line);
        if s.yields is Fault {
            pos
        } else {
            last_lexeme_start(src, s.next, s.line, pos)
        }
    }
}

#[via_fn]
proof fn last_lexeme_start_terminates(src: Seq<char>, pos: int, line: nat, start: int) {
    if 0 <= pos < src.len() {
        lemma_step_advances(src, pos, line);
    }
}

/// The result of scanning the whole of `src`: its tokens, ended by the
/// end-of-file token, or the first fault. No token is handed out beside a
/// fault.
pub open spec fn lex(src: Seq<char>) -> Result<Seq<TokenModel>, ErrorModel> {
    let outcome = scan_from(src, 0, 1);
    match outcome.fault {
        None => Ok(outcome.tokens),
        Some(error) => Err(error),
    }
}

/// A run ends at or behind its start and inside the text, every code point in
/// it is of the class, and the one behind it, if any, is not.
pub proof fn lemma_run_end(src: Seq<char>, pos: int, class: CharClass)
    requires
        0 <= pos <= src.len(),
    ensures
        pos <= run_end(src, pos, class) <= src.len(),
        forall|i: int| pos <= i < run_end(src, pos, class) ==> class.holds(#[trigger] src[i]),
        run_end(src, pos, class) < src.len() ==> !class.holds(src[run_end(src, pos, class)]),
    decreases src.len() - pos,
{
    if pos < src.len() && class.holds(src[pos]) {
        lemma_run_end(src, pos + 1, class);
    }
}

/// A comment that closes does so behind its reading position and inside the
/// text.
pub proof fn lemma_comment_end(src: Seq<char>, pos: int, depth: nat)
    requires
        0 <= pos <= src.len(),
    ensures
        comment_end(src, pos, depth) matches Some(end) ==> pos + 2 <= end <= src.len(),
    decreases src.len() - pos,
{
    if pos < src.len() {
        if src[pos] == '/' && code_point_at(src, pos + 1) == '*' {
            lemma_comment_end(src, pos + 2, depth + 1);
        } else if src[pos] == '*' && code_point_at(src, pos + 1) == '/' {
            if depth > 1 {
                lemma_comment_end(src, pos + 2, (depth - 1) as nat);
            }
        } else {
            lemma_comment_end(src, pos + 1, depth);
        }
    }
}

/// Every step moves the cursor forward and keeps it inside the text.
pub proof fn lemma_step_advances(src: Seq<char>, pos: int, line: nat)
    requires
        0 <= pos < src.len(),
    ensures
        pos < step(src, pos, line).next <= src.len(),
{
    let c = src[pos];
    if c == '/' {
        lemma_run_end(src, pos + 1, CharClass::LineBody);
        if pos + 2 <= src.len() {
            lemma_run_end(src, pos + 2, CharClass::LineBody);
            lemma_comment_end(src, pos + 2, 1);
        }
    } else if c == '"' {
        lemma_run_end(src, pos + 1, CharClass::StringBody);
    } else if digit(c) {
        lemma_run_end(src, pos + 1, CharClass::Digit);
        let whole = run_end(src, pos, CharClass::Digit);
        if whole + 1 <= src.len() {
            lemma_run_end(src, whole + 1, CharClass::Digit);
        }
    } else if alpha(c) {
        lemma_run_end(src, pos + 1, CharClass::Word);
    }
}

/// Growing a range by one code point grows its line feeds by that code point.
pub proof fn lemma_newlines_extend(src: Seq<char>, from: int, to: int)
    requires
        0 <= from <= to < src.len(),
    ensures
        newlines(src.subrange(from, to + 1)) == newlines(src.subrange(from, to)) + if src[to]
            == '\n' {
            1nat
        } else {
            0nat
        },
{
    assert(src.subrange(from, to + 1).drop_last() =~= src.subrange(from, to));
}

/// A text has no more line feeds than code points.
pub proof fn lemma_newlines_bound(s: Seq<char>)
    ensures
        newlines(s) <= s.len(),
    decreases s.len(),
{
    if s.len() > 0 {
        lemma_newlines_bound(s.drop_last());
    }
}

/// The line feeds of a range are those of its two parts.
pub proof fn lemma_newlines_split(src: Seq<char>, from: int, mid: int, to: int)
    requires
        0 <= from <= mid <= to <= src.len(),
    ensures
        newlines(src.subrange(from, to)) == newlines(src.subrange(from, mid)) + newlines(
            src.subrange(mid, to),
        ),
    decreases to - mid,
{
    if mid == to {
        assert(src.subrange(mid, to) =~= Seq::empty());
    } else {
        lemma_newlines_split(src, from, mid, to - 1);
        lemma_newlines_extend(src, from, to - 1);
        lemma_newlines_extend(src, mid, to - 1);
    }
}

/// A range without a line feed counts none.
pub proof fn lemma_no_newlines(src: Seq<char>, from: int, to: int)
    requires
        0 <= from <= to <= src.len(),
        forall|i: int| from <= i < to ==> src[i] != '\n',
    ensures
        newlines(src.subrange(from, to)) == 0,
    decreases to - from,
{
    if from == to {
        assert(src.subrange(from, to) =~= Seq::empty());
    } else {
        lemma_no_newlines(src, from, to - 1);
        lemma_newlines_extend(src, from, to - 1);
    }
}

/// A run ends at `end` if every code point from `pos` up to `end` is of the
/// class and the one at `end`, if there is one, is not.
pub proof fn lemma_run_end_is(src: Seq<char>, pos: int, class: CharClass, end: int)
    requires
        0 <= pos <= end <= src.len(),
        forall|i: int| pos <= i < end ==> class.holds(#[trigger] src[i]),
        end < src.len() ==> !class.holds(src[end]),
    ensures
        run_end(src, pos, class) == end,
    decreases end - pos,
{
    if pos < end {
        lemma_run_end_is(src, pos + 1, class, end);
    }
}

} // verus!
