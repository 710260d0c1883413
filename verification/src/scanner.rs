//! The scanner: one pass over the source text, token by token.

use vstd::prelude::*;
use vstd::string::*;
use crate::error::Error;
use crate::grammar::{
    comment_end, last_lexeme_start, lemma_newlines_bound, lemma_newlines_extend,
    lemma_newlines_split, lemma_step_advances, newlines, number_step, run_end, scan_from,
    slash_step, step, string_step, word_step, CharClass, Step, Yield,
};
use crate::laws::lemma_scan_counts_lines;
use crate::text::{
    alpha, code_point_at, code_points, digit, is_alpha, is_alphanumeric, is_digit, substring,
};
use crate::token::{keyword, token_models, TokenModel};
pub use crate::token::{Token, TokenType};

verus! {

/// The state of one scan.
pub struct Scanner {
    /// The text being scanned.
    source: String,
    /// The code points of `source`, for reading by position.
    chars: Vec<char>,
    /// The tokens read so far.
    tokens: Vec<Token>,
    /// Where the lexeme being read begins.
    start: usize,
    /// The read cursor: the next code point to look at.
    current: usize,
    /// The line the cursor is on, counted from one.
    line: usize,
}

/// A scanner as a mathematical value.
pub struct ScannerModel {
    pub source: Seq<char>,
    pub tokens: Seq<TokenModel>,
    pub start: nat,
    pub current: nat,
    pub line: nat,
}

impl ScannerModel {
    /// The scanner that has read nothing of `source` yet.
    pub open spec fn fresh(source: Seq<char>) -> ScannerModel {
        ScannerModel { source, tokens: Seq::empty(), start: 0, current: 0, line: 1 }
    }

    /// The invariant of a scanner between scans: the lexeme read last lies
    /// before the cursor, the cursor lies inside the text, and the line counter
    /// is one more than the number of line feeds before the cursor. The text
    /// is short enough for its lines to be counted in a `usize`.
    pub open spec fn wf(self) -> bool {
        &&& self.source.len() < usize::MAX
        &&& self.start <= self.current <= self.source.len()
        &&& self.line == 1 + newlines(self.source.take(self.current as int))
    }
}

impl View for Scanner {
    type V = ScannerModel;

    closed spec fn view(&self) -> ScannerModel {
        ScannerModel {
            source: self.source@,
            tokens: token_models(self.tokens@),
            start: self.start as nat,
            current: self.current as nat,
            line: self.line as nat,
        }
    }
}

impl Scanner {
    /// The invariant of the scanner between scans: that of its model.
    pub closed spec fn wf(&self) -> bool {
        &&& self.chars@ == self.source@
        &&& self@.wf()
    }

    /// The invariant of the scanner within a scan: the lexeme under
    /// construction lies before the cursor, the cursor lies inside the text,
    /// and the line counter has counted no more line feeds than code points
    /// were read.
    spec fn steady(&self) -> bool {
        &&& self.chars@ == self.source@
        &&& self.chars@.len() < usize::MAX
        &&& self.start <= self.current <= self.chars@.len()
        &&& 1 <= self.line <= self.current + 1
    }

    /// What the invariant says of the model.
    pub proof fn lemma_wf(&self)
        requires
            self.wf(),
        ensures
            self@.wf(),
    {
    }

    /// The text and the start of the lexeme are those of `before`.
    spec fn same_lexeme_start(&self, before: &Scanner) -> bool {
        &&& self.source == before.source
        &&& self.chars == before.chars
        &&& self.start == before.start
    }

    /// This scanner is `before` with the step `s` taken and reported as `r`.
    spec fn follows(&self, before: &Scanner, s: Step, r: Result<(), Error>) -> bool {
        &&& self.steady()
        &&& self.same_lexeme_start(before)
        &&& self.current == s.next
        &&& self.line == s.line
        &&& match s.yields {
            Yield::Token(token) => r is Ok && token_models(self.tokens@) == token_models(
                before.tokens@,
            ).push(token),
            Yield::Nothing => r is Ok && self.tokens == before.tokens,
            Yield::Fault(fault) => r matches Err(error) && error@ == fault && self.tokens
                == before.tokens,
        }
    }

    /// A scanner at the beginning of `source`, on line one, with no token read.
    pub fn new(source: String) -> (scanner: Scanner)
        requires
            source@.len() < usize::MAX,
        ensures
            scanner.wf(),
            scanner@ == ScannerModel::fresh(source@),
    {
        let chars = code_points(source.as_str());
        let scanner = Scanner { source, chars, tokens: Vec::new(), start: 0, current: 0, line: 1 };
        assert(token_models(scanner.tokens@) =~= Seq::empty());
        assert(scanner.source@.take(0) =~= Seq::empty());
        scanner
    }

    /// Scans from the cursor to the end of the text, or to the first fault.
    ///
    /// On success the tokens read are appended to those read before, the
    /// end-of-file token last, and all of them are handed out. On a fault the
    /// fault alone is handed out. Either way the scanner stands where the scan
    /// of [`scan_from`] ends.
    pub fn scan_tokens(&mut self) -> (result: Result<&Vec<Token>, Error>)
        requires
            old(self).wf(),
        ensures
            final(self).wf(),
            final(self)@.source == old(self)@.source,
            ({
                let outcome = scan_from(
                    old(self)@.source,
                    old(self)@.current as int,
                    old(self)@.line,
                );
                &&& final(self)@.tokens == old(self)@.tokens + outcome.tokens
                &&& final(self)@.current == outcome.end
                &&& final(self)@.line == outcome.line
                &&& final(self)@.start == last_lexeme_start(
                    old(self)@.source,
                    old(self)@.current as int,
                    old(self)@.line,
                    old(self)@.start as int,
                )
                &&& match result {
                    Ok(tokens) => {
                        &&& outcome.fault is None
                        &&& token_models(tokens@) == final(self)@.tokens
                    },
                    Err(error) => outcome.fault == Some(error@),
                }
            }),
    {
        proof {
            let src = self.chars@;
            let end = scan_from(src, self.current as int, self.line as nat).end;
            lemma_newlines_bound(src.take(self.current as int));
            lemma_scan_counts_lines(src, self.current as int, self.line as nat);
            lemma_newlines_split(src, 0, self.current as int, end);
        }
        while !self.is_at_end()
            invariant
                self.steady(),
                self.source == old(self).source,
                self.chars == old(self).chars,
                ({
                    let whole = scan_from(
                        self.chars@,
                        old(self).current as int,
                        old(self).line as nat,
                    );
                    whole.line == 1 + newlines(self.chars@.take(whole.end))
                }),
                ({
                    let whole = scan_from(
                        self.chars@,
                        old(self).current as int,
                        old(self).line as nat,
                    );
                    let rest = scan_from(self.chars@, self.current as int, self.line as nat);
                    &&& token_models(old(self).tokens@) + whole.tokens == token_models(
                        self.tokens@,
                    ) + rest.tokens
                    &&& whole.fault == rest.fault
                    &&& whole.end == rest.end
                    &&& whole.line == rest.line
                }),
                last_lexeme_start(
                    self.chars@,
                    old(self).current as int,
                    old(self).line as nat,
                    old(self).start as int,
                ) == last_lexeme_start(
                    self.chars@,
                    self.current as int,
                    self.line as nat,
                    self.start as int,
                ),
            decreases self.chars@.len() - self.current,
        {
            // We are at the beginning of the next lexeme.
            self.start = self.current;
            let ghost before = *self;
            proof {
                lemma_step_advances(self.chars@, self.current as int, self.line as nat);
            }
            self.scan_token()?;
            assert(token_models(before.tokens@) + scan_from(
                before.chars@,
                before.current as int,
                before.line as nat,
            ).tokens =~= token_models(self.tokens@) + scan_from(
                self.chars@,
                self.current as int,
                self.line as nat,
            ).tokens);
        }
        self.tokens.push(Token::new(TokenType::Eof, String::new(), String::new(), self.line));
        assert(token_models(self.tokens@) =~= token_models(old(self).tokens@) + scan_from(
            self.chars@,
            old(self).current as int,
            old(self).line as nat,
        ).tokens);
        Ok(&self.tokens)
    }

    /// Takes one step at the cursor: reads one token, passes over white space
    /// or a comment, or finds a fault.
    fn scan_token(&mut self) -> (r: Result<(), Error>)
        requires
            old(self).steady(),
            old(self).start == old(self).current,
            old(self).current < old(self).chars@.len(),
        ensures
            final(self).follows(
                old(self),
                step(old(self).chars@, old(self).current as int, old(self).line as nat),
                r,
            ),
    {
        let c = self.advance();
        match c {
            '(' => {
                self.add_token(TokenType::LeftParen);
            },
            ')' => {
                self.add_token(TokenType::RightParen);
            },
            '{' => {
                self.add_token(TokenType::LeftBrace);
            },
            '}' => {
                self.add_token(TokenType::RightBrace);
            },
            ',' => {
                self.add_token(TokenType::Comma);
            },
            '.' => {
                self.add_token(TokenType::Dot);
            },
            '-' => {
                self.add_token(TokenType::Minus);
            },
            '+' => {
                self.add_token(TokenType::Plus);
            },
            ';' => {
                self.add_token(TokenType::Semicolon);
            },
            '*' => {
                self.add_token(TokenType::Star);
            },
            '!' => {
                let kind = if self.advance_if_equal('=') {
                    TokenType::BangEqual
                } else {
                    TokenType::Bang
                };
                self.add_token(kind);
            },
            '=' => {
                let kind = if self.advance_if_equal('=') {
                    TokenType::EqualEqual
                } else {
                    TokenType::Equal
                };
                self.add_token(kind);
            },
            '<' => {
                let kind = if self.advance_if_equal('=') {
                    TokenType::LessEqual
                } else {
                    TokenType::Less
                };
                self.add_token(kind);
            },
            '>' => {
                let kind = if self.advance_if_equal('=') {
                    TokenType::GreaterEqual
                } else {
                    TokenType::Greater
                };
                self.add_token(kind);
            },
            '/' => {
                if self.advance_if_equal('/') {
                    // A line comment goes up to the end of the line.
                    while self.peek() != '\n' && !self.is_at_end()
                        invariant
                            self.steady(),
                            self.same_lexeme_start(old(self)),
                            self.tokens == old(self).tokens,
                            self.line == old(self).line,
                            self.start + 2 <= self.current,
                            run_end(self.chars@, self.current as int, CharClass::LineBody)
                                == run_end(self.chars@, self.start + 2, CharClass::LineBody),
                        decreases self.chars@.len() - self.current,
                    {
                        self.advance();
                    }
                } else if self.advance_if_equal('*') {
                    self.read_block_comment()?;
                } else {
                    self.add_token(TokenType::Slash);
                }
            },
            ' ' | '\r' | '\t' => {},  // Ignore whitespace.
            '"' => {
                self.read_string()?;
            },
            '\n' => {
                self.line += 1;
            },
            _ => {
                if is_digit(c) {
                    self.read_number()?;
                } else if is_alpha(c) {
                    self.read_identifier()?;
                } else {
                    return Err(
                        Error::new("Unexpected character.".to_owned(), String::new(), self.line),
                    );
                }
            },
        };
        Ok(())
    }

    /// Reads a block comment to where it closes. The opening `/*` has been
    /// read. Comments nest: each `/*` inside must be closed by a `*/` of its
    /// own.
    fn read_block_comment(&mut self) -> (r: Result<(), Error>)
        requires
            old(self).steady(),
            old(self).start + 2 == old(self).current,
            old(self).chars@[old(self).start as int] == '/',
            old(self).chars@[old(self).start + 1] == '*',
        ensures
            final(self).follows(
                old(self),
                slash_step(old(self).chars@, old(self).start as int, old(self).line as nat),
                r,
            ),
    {
        let mut nesting_layer: usize = 1;
        loop
            invariant
                self.steady(),
                self.same_lexeme_start(old(self)),
                self.tokens == old(self).tokens,
                self.start + 2 <= self.current,
                self.chars@[self.start + 1] == '*',
                1 <= nesting_layer <= self.current,
                comment_end(self.chars@, self.current as int, nesting_layer as nat) == comment_end(
                    self.chars@,
                    self.start + 2,
                    1,
                ),
                self.line == old(self).line + newlines(
                    self.chars@.subrange(self.start + 2, self.current as int),
                ),
            decreases self.chars@.len() - self.current,
        {
            if self.is_at_end() {
                return Err(
                    Error::new(
                        "Unbalanced block comment: missing closing */".to_owned(),
                        String::new(),
                        self.line,
                    ),
                );
            } else if self.peek() == '/' && self.peek_next() == '*' {
                proof {
                    lemma_newlines_extend(self.chars@, self.start + 2, self.current as int);
                    lemma_newlines_extend(self.chars@, self.start + 2, self.current + 1);
                }
                self.advance();  // Consume nested /
                self.advance();  // Consume nested *
                nesting_layer += 1;
            } else if self.peek() == '*' && self.peek_next() == '/' {
                proof {
                    lemma_newlines_extend(self.chars@, self.start + 2, self.current as int);
                    lemma_newlines_extend(self.chars@, self.start + 2, self.current + 1);
                }
                self.advance();  // Consume closing *
                self.advance();  // Consume closing /
                if nesting_layer == 1 {
                    return Ok(());
                }
                nesting_layer -= 1;
            } else {
                proof {
                    lemma_newlines_extend(self.chars@, self.start + 2, self.current as int);
                }
                if self.advance() == '\n' {
                    self.line += 1;
                }
            }
        }
    }

    /// Reads a number. Its first digit has been read.
    fn read_number(&mut self) -> (r: Result<(), Error>)
        requires
            old(self).steady(),
            old(self).start + 1 == old(self).current,
            digit(old(self).chars@[old(self).start as int]),
        ensures
            final(self).follows(
                old(self),
                number_step(old(self).chars@, old(self).start as int, old(self).line as nat),
                r,
            ),
    {
        while is_digit(self.peek())
            invariant
                self.steady(),
                self.same_lexeme_start(old(self)),
                self.tokens == old(self).tokens,
                self.line == old(self).line,
                self.start < self.current,
                run_end(self.chars@, self.current as int, CharClass::Digit) == run_end(
                    self.chars@,
                    self.start as int,
                    CharClass::Digit,
                ),
            decreases self.chars@.len() - self.current,
        {
            self.advance();
        }
        // Look for a fractional part.
        if self.peek() == '.' && is_digit(self.peek_next()) {
            let ghost whole = self.current;
            // Consume the "."
            self.advance();
            while is_digit(self.peek())
                invariant
                    self.steady(),
                    self.same_lexeme_start(old(self)),
                    self.tokens == old(self).tokens,
                    self.line == old(self).line,
                    self.start < self.current,
                    run_end(self.chars@, self.current as int, CharClass::Digit) == run_end(
                        self.chars@,
                        whole + 1,
                        CharClass::Digit,
                    ),
                decreases self.chars@.len() - self.current,
            {
                self.advance();
            }
        }
        let text = substring(&self.source, self.start, self.current);
        self.add_token_literal(TokenType::Number, text);
        Ok(())
    }

    /// Reads an identifier or a keyword. Its first character has been read.
    fn read_identifier(&mut self) -> (r: Result<(), Error>)
        requires
            old(self).steady(),
            old(self).start + 1 == old(self).current,
            alpha(old(self).chars@[old(self).start as int]),
        ensures
            final(self).follows(
                old(self),
                word_step(old(self).chars@, old(self).start as int, old(self).line as nat),
                r,
            ),
    {
        while is_alphanumeric(self.peek())
            invariant
                self.steady(),
                self.same_lexeme_start(old(self)),
                self.tokens == old(self).tokens,
                self.line == old(self).line,
                self.start < self.current,
                run_end(self.chars@, self.current as int, CharClass::Word) == run_end(
                    self.chars@,
                    self.start as int,
                    CharClass::Word,
                ),
            decreases self.chars@.len() - self.current,
        {
            self.advance();
        }
        let text = substring(&self.source, self.start, self.current);
        let t = match keyword(text.as_str()) {
            Some(t) => t,
            None => TokenType::Identifier,
        };
        if t == TokenType::Identifier {
            self.add_token_literal(t, text);
        } else {
            self.add_token(t);
        }
        Ok(())
    }

    /// Reads a string literal up to its closing quote. The opening quote has
    /// been read. The literal may run over several lines.
    fn read_string(&mut self) -> (r: Result<(), Error>)
        requires
            old(self).steady(),
            old(self).start + 1 == old(self).current,
            old(self).line <= old(self).current,
        ensures
            final(self).follows(
                old(self),
                string_step(old(self).chars@, old(self).start as int, old(self).line as nat),
                r,
            ),
    {
        // The token is on the line of its opening quote, so the lines of the
        // body are added to the counter once the token has been made.
        let mut lines: usize = 0;
        while self.peek() != '"' && !self.is_at_end()
            invariant
                self.steady(),
                self.same_lexeme_start(old(self)),
                self.tokens == old(self).tokens,
                self.line == old(self).line,
                self.start < self.current,
                self.line + lines <= self.current,
                lines == newlines(self.chars@.subrange(self.start + 1, self.current as int)),
                run_end(self.chars@, self.current as int, CharClass::StringBody) == run_end(
                    self.chars@,
                    self.start + 1,
                    CharClass::StringBody,
                ),
            decreases self.chars@.len() - self.current,
        {
            proof {
                lemma_newlines_extend(self.chars@, self.start + 1, self.current as int);
            }
            if self.peek() == '\n' {
                lines += 1;
            }
            self.advance();
        }

        if self.is_at_end() {
            // Unterminated string.
            self.line += lines;
            Err(Error::new("Unterminated string".to_owned(), String::new(), self.line))
        } else {
            // The closing ".
            self.advance();
            let literal = substring(&self.source, self.start + 1, self.current - 1);
            self.add_token_literal(TokenType::String, literal);
            self.line += lines;
            Ok(())
        }
    }

    /// Appends a token without a literal for the lexeme that has been read.
    fn add_token(&mut self, kind: TokenType)
        requires
            old(self).steady(),
        ensures
            final(self).steady(),
            final(self).same_lexeme_start(old(self)),
            final(self).current == old(self).current,
            final(self).line == old(self).line,
            token_models(final(self).tokens@) == token_models(old(self).tokens@).push(
                TokenModel {
                    kind,
                    lexeme: old(self).chars@.subrange(
                        old(self).start as int,
                        old(self).current as int,
                    ),
                    literal: Seq::empty(),
                    line: old(self).line as nat,
                },
            ),
    {
        self.add_token_literal(kind, String::new());
    }

    /// Appends a token with `literal` for the lexeme that has been read.
    fn add_token_literal(&mut self, kind: TokenType, literal: String)
        requires
            old(self).steady(),
        ensures
            final(self).steady(),
            final(self).same_lexeme_start(old(self)),
            final(self).current == old(self).current,
            final(self).line == old(self).line,
            token_models(final(self).tokens@) == token_models(old(self).tokens@).push(
                TokenModel {
                    kind,
                    lexeme: old(self).chars@.subrange(
                        old(self).start as int,
                        old(self).current as int,
                    ),
                    literal: literal@,
                    line: old(self).line as nat,
                },
            ),
    {
        let lexeme = substring(&self.source, self.start, self.current);
        assert(lexeme@ =~= self.chars@.subrange(self.start as int, self.current as int));
        let token = Token::new(kind, lexeme, literal, self.line);
        self.tokens.push(token);
        assert(token_models(self.tokens@) =~= token_models(old(self).tokens@).push(token@));
    }

    /// Whether the cursor stands behind the last code point.
    fn is_at_end(&self) -> (r: bool)
        requires
            self.steady(),
        ensures
            r == (self.current >= self.chars@.len()),
    {
        self.current >= self.chars.len()
    }

    /// Reads the code point at the cursor and moves the cursor behind it.
    fn advance(&mut self) -> (c: char)
        requires
            old(self).steady(),
            old(self).current < old(self).chars@.len(),
        ensures
            final(self).steady(),
            final(self).same_lexeme_start(old(self)),
            final(self).tokens == old(self).tokens,
            final(self).line == old(self).line,
            final(self).current == old(self).current + 1,
            c == old(self).chars@[old(self).current as int],
    {
        self.current += 1;
        self.chars[self.current - 1]
    }

    /// Reads the code point at the cursor if it is `c`, and says whether it
    /// did. NUL is never read this way.
    fn advance_if_equal(&mut self, c: char) -> (r: bool)
        requires
            old(self).steady(),
        ensures
            final(self).steady(),
            final(self).same_lexeme_start(old(self)),
            final(self).tokens == old(self).tokens,
            final(self).line == old(self).line,
            r == (c != '\0' && code_point_at(old(self).chars@, old(self).current as int) == c),
            final(self).current == if r {
                old(self).current + 1
            } else {
                old(self).current as int
            },
    {
        let p = self.peek();
        if p == '\0' || p != c {
            false
        } else {
            self.advance();
            true
        }
    }

    /// The code point at the cursor; NUL at the end of the text.
    fn peek(&self) -> (c: char)
        requires
            self.steady(),
        ensures
            c == code_point_at(self.chars@, self.current as int),
    {
        if self.is_at_end() {
            '\0'
        } else {
            self.chars[self.current]
        }
    }

    /// The code point behind the one at the cursor; NUL where there is none.
    fn peek_next(&self) -> (c: char)
        requires
            self.steady(),
        ensures
            c == code_point_at(self.chars@, self.current + 1),
    {
        if self.current + 1 >= self.chars.len() {
            '\0'
        } else {
            self.chars[self.current + 1]
        }
    }

    /// The text being scanned.
    pub fn source(&self) -> (source: &String)
        ensures
            source@ == self@.source,
    {
        &self.source
    }

    /// The tokens read so far.
    pub fn tokens(&self) -> (tokens: &Vec<Token>)
        ensures
            token_models(tokens@) == self@.tokens,
    {
        &self.tokens
    }

    /// Where the lexeme being read begins.
    pub fn start(&self) -> (start: usize)
        ensures
            start == self@.start,
    {
        self.start
    }

    /// The position of the cursor.
    pub fn current(&self) -> (current: usize)
        ensures
            current == self@.current,
    {
        self.current
    }

    /// The line the cursor is on.
    pub fn line(&self) -> (line: usize)
        ensures
            line == self@.line,
    {
        self.line
    }
}

/// Scanning depends on the text alone: two scanners that each stand at the
/// beginning of the same text end with the same tokens, the same fault, the
/// same position and the same line.
pub proof fn lemma_rescan_is_identical(first: ScannerModel, second: ScannerModel)
    requires
        first == ScannerModel::fresh(first.source),
        second == ScannerModel::fresh(second.source),
        first.source == second.source,
    ensures
        scan_from(first.source, first.current as int, first.line) == scan_from(
            second.source,
            second.current as int,
            second.line,
        ),
        first.tokens + scan_from(first.source, first.current as int, first.line).tokens
            == second.tokens + scan_from(second.source, second.current as int, second.line).tokens,
        scan_from(first.source, first.current as int, first.line) == scan_from(first.source, 0, 1),
{
}

} // verus!
