//! General properties of scanning, proved of the grammar.

use vstd::prelude::*;
use crate::error::unbalanced_comment;
use crate::grammar::{
    blank, comment_end, emit, eof, lemma_comment_end, lemma_newlines_extend,
    lemma_newlines_split, lemma_no_newlines, lemma_run_end, lemma_run_end_is,
    lemma_step_advances, lex, newlines, operator, run_end, scan_from, skip, step,
    token_starts,
    CharClass, Outcome, Step, Yield,
};
use crate::text::{alpha, alphanumeric, code_point_at, digit};
use crate::token::{keyword_kind, TokenModel, TokenType};

verus! {

/// The line counter counts line feeds: the line behind a step is the line
/// before it plus the line feeds among the code points that the step read.
pub proof fn lemma_step_counts_lines(src: Seq<char>, pos: int, line: nat)
    requires
        0 <= pos < src.len(),
    ensures
        step(src, pos, line).line == line + newlines(
            src.subrange(pos, step(src, pos, line).next),
        ),
{
    let c = src[pos];
    let next = step(src, pos, line).next;
    lemma_step_advances(src, pos, line);
    lemma_newlines_split(src, pos, pos + 1, next);
    lemma_newlines_extend(src, pos, pos);
    assert(src.subrange(pos, pos) =~= Seq::empty());
    if operator(c) is Some {
        lemma_no_newlines(src, pos + 1, next);
    } else if c == '/' {
        if code_point_at(src, pos + 1) == '/' {
            lemma_run_end(src, pos + 2, CharClass::LineBody);
            lemma_no_newlines(src, pos + 1, next);
        } else if code_point_at(src, pos + 1) == '*' {
            lemma_comment_end(src, pos + 2, 1);
            lemma_newlines_split(src, pos + 1, pos + 2, next);
            lemma_newlines_extend(src, pos + 1, pos + 1);
            assert(src.subrange(pos + 1, pos + 1) =~= Seq::empty());
        } else {
            lemma_no_newlines(src, pos + 1, next);
        }
    } else if c == '"' {
        let close = run_end(src, pos + 1, CharClass::StringBody);
        lemma_run_end(src, pos + 1, CharClass::StringBody);
        if close < src.len() {
            lemma_newlines_extend(src, pos + 1, close);
        }
    } else if digit(c) {
        let whole = run_end(src, pos, CharClass::Digit);
        lemma_run_end(src, pos + 1, CharClass::Digit);
        if whole + 1 <= src.len() {
            lemma_run_end(src, whole + 1, CharClass::Digit);
        }
        lemma_no_newlines(src, pos + 1, next);
    } else if alpha(c) {
        lemma_run_end(src, pos + 1, CharClass::Word);
        lemma_no_newlines(src, pos + 1, next);
    } else {
        lemma_no_newlines(src, pos + 1, next);
    }
}

/// A scan ends inside the text, on the line it began on plus the line feeds
/// it read; a scan without a fault ends at the end of the text.
pub proof fn lemma_scan_counts_lines(src: Seq<char>, pos: int, line: nat)
    requires
        0 <= pos <= src.len(),
    ensures
        pos <= scan_from(src, pos, line).end <= src.len(),
        scan_from(src, pos, line).line == line + newlines(
            src.subrange(pos, scan_from(src, pos, line).end),
        ),
        scan_from(src, pos, line).fault is None ==> scan_from(src, pos, line).end == src.len(),
    decreases src.len() - pos,
{
    if pos < src.len() {
        let s = step(src, pos, line);
        lemma_step_advances(src, pos, line);
        lemma_step_counts_lines(src, pos, line);
        if !(s.yields is Fault) {
            lemma_scan_counts_lines(src, s.next, s.line);
            lemma_newlines_split(src, pos, s.next, scan_from(src, pos, line).end);
        }
    } else {
        assert(src.subrange(pos, pos) =~= Seq::empty());
    }
}

/// A successful scan ends with the end-of-file token, on the line that the
/// scan ends on, and holds that token nowhere else.
pub proof fn lemma_eof_is_last(src: Seq<char>, pos: int, line: nat)
    requires
        0 <= pos <= src.len(),
    ensures
        ({
            let outcome = scan_from(src, pos, line);
            outcome.fault is None ==> {
                &&& outcome.tokens.len() >= 1
                &&& outcome.tokens.last() == eof(outcome.line)
                &&& forall|i: int|
                    0 <= i < outcome.tokens.len() - 1 ==> (#[trigger] outcome.tokens[i]).kind
                        != TokenType::Eof
            }
        }),
    decreases src.len() - pos,
{
    if pos < src.len() {
        let s = step(src, pos, line);
        lemma_step_advances(src, pos, line);
        if !(s.yields is Fault) {
            lemma_eof_is_last(src, s.next, s.line);
            lemma_step_kind(src, pos, line);
        }
    }
}

/// No step yields the end-of-file token, and every token that a step yields
/// is the text that the step read.
pub proof fn lemma_step_kind(src: Seq<char>, pos: int, line: nat)
    requires
        0 <= pos < src.len(),
    ensures
        step(src, pos, line).yields matches Yield::Token(token) ==> {
            &&& token.kind != TokenType::Eof
            &&& token.lexeme == src.subrange(pos, step(src, pos, line).next)
            &&& token.line == line
        },
{
}

/// Whether `token` is the text of `src` that begins at `at`, on the line that
/// `at` lies on when `pos` lies on `line`.
pub open spec fn stands_at(
    token: TokenModel,
    at: int,
    src: Seq<char>,
    pos: int,
    line: nat,
) -> bool {
    &&& pos <= at
    &&& at + token.lexeme.len() <= src.len()
    &&& token.lexeme == src.subrange(at, at + token.lexeme.len())
    &&& token.line == line + newlines(src.subrange(pos, at))
    &&& token.kind != TokenType::Eof ==> token.lexeme.len() > 0
}

/// The tokens of a scan are pieces of the text, in the order of the text and
/// without overlap, and each is on the line that its first code point lies
/// on: the line the scan began on plus the line feeds before the token. Every
/// token but the end-of-file token holds at least one code point.
pub proof fn lemma_tokens_lie_in_the_text(src: Seq<char>, pos: int, line: nat)
    requires
        0 <= pos <= src.len(),
    ensures
        token_starts(src, pos, line).len() == scan_from(src, pos, line).tokens.len(),
        forall|i: int|
            0 <= i < scan_from(src, pos, line).tokens.len() ==> stands_at(
                #[trigger] scan_from(src, pos, line).tokens[i],
                token_starts(src, pos, line)[i],
                src,
                pos,
                line,
            ),
        forall|i: int|
            0 <= i && i + 1 < scan_from(src, pos, line).tokens.len() ==> token_starts(
                src,
                pos,
                line,
            )[i] + (#[trigger] scan_from(src, pos, line).tokens[i]).lexeme.len() <= token_starts(
                src,
                pos,
                line,
            )[i + 1],
    decreases src.len() - pos,
{
    let tokens = scan_from(src, pos, line).tokens;
    let starts = token_starts(src, pos, line);
    if pos < src.len() {
        let s = step(src, pos, line);
        lemma_step_advances(src, pos, line);
        lemma_step_counts_lines(src, pos, line);
        if !(s.yields is Fault) {
            let rest = scan_from(src, s.next, s.line).tokens;
            let rest_starts = token_starts(src, s.next, s.line);
            lemma_tokens_lie_in_the_text(src, s.next, s.line);
            let shift: int = if s.yields is Token { 1 } else { 0 };
            assert(src.subrange(pos, pos) =~= Seq::empty());
            assert forall|i: int| 0 <= i < tokens.len() implies stands_at(
                #[trigger] tokens[i],
                starts[i],
                src,
                pos,
                line,
            ) by {
                if i >= shift {
                    assert(stands_at(rest[i - shift], rest_starts[i - shift], src, s.next, s.line));
                    lemma_newlines_split(src, pos, s.next, rest_starts[i - shift]);
                }
            }
            assert forall|i: int| 0 <= i && i + 1 < tokens.len() implies starts[i] + (
            #[trigger] tokens[i]).lexeme.len() <= starts[i + 1] by {
                if i >= shift {
                    assert(stands_at(rest[i - shift], rest_starts[i - shift], src, s.next, s.line));
                } else {
                    assert(stands_at(rest[0], rest_starts[0], src, s.next, s.line));
                }
            }
        }
    } else {
        assert(src.subrange(pos, pos) =~= Seq::empty());
        assert(tokens[0].lexeme =~= src.subrange(pos, pos + 0));
    }
}

/// A fault is reported on the line that the scan stops on.
pub proof fn lemma_fault_is_on_the_last_line(src: Seq<char>, pos: int, line: nat)
    requires
        0 <= pos <= src.len(),
    ensures
        scan_from(src, pos, line).fault matches Some(fault) ==> fault.line == scan_from(
            src,
            pos,
            line,
        ).line,
    decreases src.len() - pos,
{
    if pos < src.len() {
        let s = step(src, pos, line);
        lemma_step_advances(src, pos, line);
        if !(s.yields is Fault) {
            lemma_fault_is_on_the_last_line(src, s.next, s.line);
        }
    }
}

/// Whether `src` holds nothing but white space and comments from `pos` on.
pub open spec fn only_trivia(src: Seq<char>, pos: int) -> bool
    decreases src.len() - pos,
    via only_trivia_terminates
{
    if pos < 0 || pos >= src.len() {
        true
    } else if blank(src[pos]) || src[pos] == '\n' {
        only_trivia(src, pos + 1)
    } else if src[pos] == '/' && code_point_at(src, pos + 1) == '/' {
        only_trivia(src, run_end(src, pos + 2, CharClass::LineBody))
    } else if src[pos] == '/' && code_point_at(src, pos + 1) == '*' {
        match comment_end(src, pos + 2, 1) {
            Some(end) => only_trivia(src, end),
            None => false,
        }
    } else {
        false
    }
}

#[via_fn]
proof fn only_trivia_terminates(src: Seq<char>, pos: int) {
    if 0 <= pos && pos + 2 <= src.len() {
        lemma_run_end(src, pos + 2, CharClass::LineBody);
        lemma_comment_end(src, pos + 2, 1);
    }
}

/// White space and comments yield no token: where the text holds nothing else
/// from `pos` on, the scan from there gives the end-of-file token alone, on the
/// line reached by counting the line feeds up to the end.
pub proof fn lemma_trivia_scans_to_eof(src: Seq<char>, pos: int, line: nat)
    requires
        0 <= pos <= src.len(),
        only_trivia(src, pos),
    ensures
        scan_from(src, pos, line) == (Outcome {
            tokens: seq![eof(line + newlines(src.subrange(pos, src.len() as int)))],
            fault: None,
            end: src.len() as int,
            line: line + newlines(src.subrange(pos, src.len() as int)),
        }),
    decreases src.len() - pos,
{
    if pos < src.len() {
        let s = step(src, pos, line);
        lemma_step_advances(src, pos, line);
        lemma_step_counts_lines(src, pos, line);
        lemma_trivia_scans_to_eof(src, s.next, s.line);
        lemma_newlines_split(src, pos, s.next, src.len() as int);
    } else {
        assert(src.subrange(pos, src.len() as int) =~= Seq::empty());
    }
}

/// White space is trivia.
pub proof fn lemma_white_space_is_trivia(src: Seq<char>, pos: int)
    requires
        0 <= pos,
        forall|i: int| pos <= i < src.len() ==> blank(src[i]) || src[i] == '\n',
    ensures
        only_trivia(src, pos),
    decreases src.len() - pos,
{
    if pos < src.len() {
        lemma_white_space_is_trivia(src, pos + 1);
    }
}

/// A text of spaces, tabs, carriage returns and line feeds alone scans to
/// exactly one token, the end-of-file token, on the line behind its last line
/// feed.
pub proof fn lemma_white_space_lexes_to_eof(src: Seq<char>)
    requires
        forall|i: int| 0 <= i < src.len() ==> blank(src[i]) || src[i] == '\n',
    ensures
        lex(src) == Ok::<Seq<TokenModel>, crate::error::ErrorModel>(seq![eof(1 + newlines(src))]),
{
    lemma_white_space_is_trivia(src, 0);
    lemma_trivia_lexes_to_eof(src);
}

/// A text of white space and comments alone scans to exactly one token, the
/// end-of-file token.
pub proof fn lemma_trivia_lexes_to_eof(src: Seq<char>)
    requires
        only_trivia(src, 0),
    ensures
        lex(src) == Ok::<Seq<TokenModel>, crate::error::ErrorModel>(seq![eof(1 + newlines(src))]),
{
    lemma_trivia_scans_to_eof(src, 0, 1);
    assert(src.subrange(0, src.len() as int) =~= src);
}

/// A line comment runs from `//` to the end of its line and yields no token.
/// The line feed that ends the line is not part of it.
pub proof fn lemma_line_comment_is_skipped(src: Seq<char>, pos: int, line: nat, end: int)
    requires
        0 <= pos,
        pos + 2 <= end <= src.len(),
        src[pos] == '/',
        src[pos + 1] == '/',
        forall|i: int| pos + 2 <= i < end ==> src[i] != '\n',
        end < src.len() ==> src[end] == '\n',
    ensures
        step(src, pos, line) == skip(end, line),
        scan_from(src, pos, line) == scan_from(src, end, line),
{
    lemma_run_end_is(src, pos + 2, CharClass::LineBody, end);
}

/// A block comment that closes yields no token: the scan goes on behind it,
/// with the line feeds inside the comment added to the line counter. Comments
/// nested in it are part of it.
pub proof fn lemma_closed_comment_is_skipped(src: Seq<char>, pos: int, line: nat, end: int)
    requires
        0 <= pos,
        pos + 1 < src.len(),
        src[pos] == '/',
        src[pos + 1] == '*',
        comment_end(src, pos + 2, 1) == Some(end),
    ensures
        pos + 4 <= end <= src.len(),
        step(src, pos, line) == (Step {
            yields: Yield::Nothing,
            next: end,
            line: line + newlines(src.subrange(pos, end)),
        }),
        scan_from(src, pos, line) == scan_from(src, end, line + newlines(src.subrange(pos, end))),
{
    lemma_comment_end(src, pos + 2, 1);
    lemma_step_counts_lines(src, pos, line);
}

/// A comment in which a `/*` opens a comment that closes again goes on behind
/// that inner comment as if it had not been there, at any depth.
pub proof fn lemma_nested_comment_is_skipped(
    src: Seq<char>,
    pos: int,
    inner: nat,
    outer: nat,
    end: int,
)
    requires
        0 <= pos <= src.len(),
        inner >= 1,
        outer >= 1,
        comment_end(src, pos, inner) == Some(end),
    ensures
        comment_end(src, pos, inner + outer) == comment_end(src, end, outer),
    decreases src.len() - pos,
{
    if src[pos] == '/' && code_point_at(src, pos + 1) == '*' {
        lemma_nested_comment_is_skipped(src, pos + 2, inner + 1, outer, end);
    } else if src[pos] == '*' && code_point_at(src, pos + 1) == '/' {
        if inner > 1 {
            lemma_nested_comment_is_skipped(src, pos + 2, (inner - 1) as nat, outer, end);
        }
    } else {
        lemma_nested_comment_is_skipped(src, pos + 1, inner, outer, end);
    }
}

/// Whether no `*/` stands in `src` at or behind `pos`.
pub open spec fn no_closer_from(src: Seq<char>, pos: int) -> bool {
    forall|i: int|
        pos <= i && i + 1 < src.len() ==> !(src[i] == '*' && #[trigger] src[i + 1] == '/')
}

/// Without a `*/` no comment closes, however deep.
pub proof fn lemma_no_closer_no_end(src: Seq<char>, pos: int, depth: nat)
    requires
        0 <= pos,
        no_closer_from(src, pos),
    ensures
        comment_end(src, pos, depth) is None,
    decreases src.len() - pos,
{
    if pos < src.len() {
        if src[pos] == '/' && code_point_at(src, pos + 1) == '*' {
            lemma_no_closer_no_end(src, pos + 2, depth + 1);
        } else if src[pos] == '*' && code_point_at(src, pos + 1) == '/' {
            assert(src[pos + 1] == '/');
        } else {
            lemma_no_closer_no_end(src, pos + 1, depth);
        }
    }
}

/// A block comment that never closes is a fault: the scan stops at the end of
/// the text with the fault of an unbalanced comment, on the line reached
/// there, and yields no token.
pub proof fn lemma_open_comment_fails(src: Seq<char>, pos: int, line: nat)
    requires
        0 <= pos,
        pos + 1 < src.len(),
        src[pos] == '/',
        src[pos + 1] == '*',
        comment_end(src, pos + 2, 1) is None,
    ensures
        scan_from(src, pos, line) == (Outcome {
            tokens: Seq::empty(),
            fault: Some(unbalanced_comment(line + newlines(src.subrange(pos, src.len() as int)))),
            end: src.len() as int,
            line: line + newlines(src.subrange(pos, src.len() as int)),
        }),
{
    lemma_step_counts_lines(src, pos, line);
}

/// A `/*` with no `*/` behind it makes the scan fail with the fault of an
/// unbalanced comment.
pub proof fn lemma_comment_without_closer_fails(src: Seq<char>, pos: int, line: nat)
    requires
        0 <= pos,
        pos + 1 < src.len(),
        src[pos] == '/',
        src[pos + 1] == '*',
        no_closer_from(src, pos + 2),
    ensures
        scan_from(src, pos, line).fault == Some(
            unbalanced_comment(line + newlines(src.subrange(pos, src.len() as int))),
        ),
        scan_from(src, pos, line).tokens == Seq::<TokenModel>::empty(),
{
    lemma_no_closer_no_end(src, pos + 2, 1);
    lemma_open_comment_fails(src, pos, line);
}

/// A text that begins with `/*` and holds no `*/` behind it does not scan: it
/// fails with the fault of an unbalanced comment, on its last line.
pub proof fn lemma_text_of_an_open_comment_fails(src: Seq<char>)
    requires
        src.len() >= 2,
        src[0] == '/',
        src[1] == '*',
        no_closer_from(src, 2),
    ensures
        lex(src) == Err::<Seq<TokenModel>, _>(unbalanced_comment(1 + newlines(src))),
{
    lemma_comment_without_closer_fails(src, 0, 1);
    assert(src.subrange(0, src.len() as int) =~= src);
}

/// A string literal runs from its opening quote to the next quote, over as
/// many lines as lie between them. Its literal is exactly the text between the
/// two quotes, the token is on the line of the opening quote, and the line
/// counter behind it has grown by the line feeds between the quotes.
pub proof fn lemma_string_literal(src: Seq<char>, pos: int, line: nat, close: int)
    requires
        0 <= pos < close < src.len(),
        src[pos] == '"',
        src[close] == '"',
        forall|i: int| pos < i < close ==> src[i] != '"',
    ensures
        step(src, pos, line) == (Step {
            yields: Yield::Token(
                TokenModel {
                    kind: TokenType::String,
                    lexeme: src.subrange(pos, close + 1),
                    literal: src.subrange(pos + 1, close),
                    line,
                },
            ),
            next: close + 1,
            line: line + newlines(src.subrange(pos + 1, close)),
        }),
{
    lemma_run_end_is(src, pos + 1, CharClass::StringBody, close);
}

/// A string literal without a closing quote is a fault, found on the line
/// that the text ends on.
pub proof fn lemma_open_string_fails(src: Seq<char>, pos: int, line: nat)
    requires
        0 <= pos < src.len(),
        src[pos] == '"',
        forall|i: int| pos < i < src.len() ==> src[i] != '"',
    ensures
        scan_from(src, pos, line) == (Outcome {
            tokens: Seq::empty(),
            fault: Some(
                crate::error::unterminated_string(
                    line + newlines(src.subrange(pos, src.len() as int)),
                ),
            ),
            end: src.len() as int,
            line: line + newlines(src.subrange(pos, src.len() as int)),
        }),
{
    lemma_run_end_is(src, pos + 1, CharClass::StringBody, src.len() as int);
    lemma_step_counts_lines(src, pos, line);
}

/// Maximal munch: where `=` follows one of `!`, `=`, `<`, `>`, the two are one
/// token of two characters, never two tokens; where anything else follows, or
/// nothing, the first is a token of one character.
pub proof fn lemma_maximal_munch(src: Seq<char>, pos: int, line: nat)
    requires
        0 <= pos < src.len(),
        operator(src[pos]) is Some,
    ensures
        ({
            let kinds = operator(src[pos])->Some_0;
            if pos + 1 < src.len() && src[pos + 1] == '=' {
                step(src, pos, line) == emit(src, pos, pos + 2, kinds.1, Seq::empty(), line)
            } else {
                step(src, pos, line) == emit(src, pos, pos + 1, kinds.0, Seq::empty(), line)
            }
        }),
{
}

/// A word is read whole: from a letter or an underscore the token takes every
/// letter, digit and underscore up to the first code point that is none. It
/// is a keyword where the whole word spells one, else an identifier whose
/// literal is the word.
pub proof fn lemma_word_is_read_whole(src: Seq<char>, pos: int, line: nat, end: int)
    requires
        0 <= pos < end <= src.len(),
        alpha(src[pos]),
        forall|i: int| pos <= i < end ==> alphanumeric(#[trigger] src[i]),
        end < src.len() ==> !alphanumeric(src[end]),
    ensures
        ({
            let word = src.subrange(pos, end);
            step(src, pos, line) == match keyword_kind(word) {
                Some(kind) => emit(src, pos, end, kind, Seq::empty(), line),
                None => emit(src, pos, end, TokenType::Identifier, word, line),
            }
        }),
{
    lemma_run_end_is(src, pos, CharClass::Word, end);
}

/// No reserved word begins another: a reserved word with more behind it is
/// no reserved word.
pub proof fn lemma_keyword_with_more_is_none(word: Seq<char>, more: Seq<char>)
    requires
        keyword_kind(word) is Some,
        more.len() > 0,
    ensures
        keyword_kind(word + more) is None,
        alpha(word[0]),
{
    reveal_strlit("and");
    reveal_strlit("class");
    reveal_strlit("else");
    reveal_strlit("false");
    reveal_strlit("fun");
    reveal_strlit("for");
    reveal_strlit("if");
    reveal_strlit("nil");
    reveal_strlit("or");
    reveal_strlit("print");
    reveal_strlit("return");
    reveal_strlit("super");
    reveal_strlit("this");
    reveal_strlit("true");
    reveal_strlit("var");
    reveal_strlit("while");
    let longer = word + more;
    assert(longer.len() == word.len() + more.len());
    assert(longer[0] == word[0]);
    assert(longer[1] == word[1]);
}

/// Keyword precedence: a word that begins with a reserved word and goes on is
/// one identifier, whose literal is the whole word; it is not the keyword with
/// the rest behind it.
pub proof fn lemma_longer_word_is_an_identifier(
    src: Seq<char>,
    pos: int,
    line: nat,
    mid: int,
    end: int,
)
    requires
        0 <= pos < mid < end <= src.len(),
        keyword_kind(src.subrange(pos, mid)) is Some,
        forall|i: int| pos <= i < end ==> alphanumeric(#[trigger] src[i]),
        end < src.len() ==> !alphanumeric(src[end]),
    ensures
        step(src, pos, line) == emit(
            src,
            pos,
            end,
            TokenType::Identifier,
            src.subrange(pos, end),
            line,
        ),
{
    lemma_keyword_with_more_is_none(src.subrange(pos, mid), src.subrange(mid, end));
    assert(src.subrange(pos, mid) + src.subrange(mid, end) =~= src.subrange(pos, end));
    assert(src.subrange(pos, mid)[0] == src[pos]);
    lemma_word_is_read_whole(src, pos, line, end);
}

/// A number without a fraction is its digits: it ends before the first code
/// point that is no digit, also where that is a `.` with no digit behind it.
pub proof fn lemma_whole_number(src: Seq<char>, pos: int, line: nat, end: int)
    requires
        0 <= pos < end <= src.len(),
        forall|i: int| pos <= i < end ==> digit(#[trigger] src[i]),
        end < src.len() ==> !digit(src[end]),
        !(code_point_at(src, end) == '.' && digit(code_point_at(src, end + 1))),
    ensures
        step(src, pos, line) == emit(
            src,
            pos,
            end,
            TokenType::Number,
            src.subrange(pos, end),
            line,
        ),
{
    lemma_run_end_is(src, pos, CharClass::Digit, end);
}

/// A number with a fraction is its digits, the `.` and the digits behind it,
/// up to the first code point that is no digit. A second `.` is no part of it.
pub proof fn lemma_fractional_number(src: Seq<char>, pos: int, line: nat, dot: int, end: int)
    requires
        0 <= pos < dot,
        dot + 1 < end <= src.len(),
        src[dot] == '.',
        forall|i: int| pos <= i < end && i != dot ==> digit(#[trigger] src[i]),
        end < src.len() ==> !digit(src[end]),
    ensures
        step(src, pos, line) == emit(
            src,
            pos,
            end,
            TokenType::Number,
            src.subrange(pos, end),
            line,
        ),
{
    lemma_run_end_is(src, pos, CharClass::Digit, dot);
    lemma_run_end_is(src, dot + 1, CharClass::Digit, end);
}

} // verus!
