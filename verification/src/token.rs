//! Tokens: what the scanner emits.

use vstd::prelude::*;
use vstd::string::*;
use crate::text::same_text;

verus! {

/// The lexical category of a token. Every token has exactly one.
#[derive(Debug, Copy, Clone, PartialEq, Eq, Structural)]
pub enum TokenType {
    // Single-character tokens.
    LeftParen,
    RightParen,
    LeftBrace,
    RightBrace,
    Comma,
    Dot,
    Minus,
    Plus,
    Semicolon,
    Slash,
    Star,
    // One or two character tokens.
    Bang,
    BangEqual,
    Equal,
    EqualEqual,
    Greater,
    GreaterEqual,
    Less,
    LessEqual,
    // Literals.
    Identifier,
    String,
    Number,
    // Keywords.
    And,
    Class,
    Else,
    False,
    Fun,
    For,
    If,
    Nil,
    Or,
    Print,
    Return,
    Super,
    This,
    True,
    Var,
    While,
    // End of file.
    Eof,
}

impl TokenType {
    /// The name of the category as it is written in this enumeration.
    pub open spec fn name_text(self) -> Seq<char> {
        match self {
            TokenType::LeftParen => "LeftParen"@,
            TokenType::RightParen => "RightParen"@,
            TokenType::LeftBrace => "LeftBrace"@,
            TokenType::RightBrace => "RightBrace"@,
            TokenType::Comma => "Comma"@,
            TokenType::Dot => "Dot"@,
            TokenType::Minus => "Minus"@,
            TokenType::Plus => "Plus"@,
            TokenType::Semicolon => "Semicolon"@,
            TokenType::Slash => "Slash"@,
            TokenType::Star => "Star"@,
            TokenType::Bang => "Bang"@,
            TokenType::BangEqual => "BangEqual"@,
            TokenType::Equal => "Equal"@,
            TokenType::EqualEqual => "EqualEqual"@,
            TokenType::Greater => "Greater"@,
            TokenType::GreaterEqual => "GreaterEqual"@,
            TokenType::Less => "Less"@,
            TokenType::LessEqual => "LessEqual"@,
            TokenType::Identifier => "Identifier"@,
            TokenType::String => "String"@,
            TokenType::Number => "Number"@,
            TokenType::And => "And"@,
            TokenType::Class => "Class"@,
            TokenType::Else => "Else"@,
            TokenType::False => "False"@,
            TokenType::Fun => "Fun"@,
            TokenType::For => "For"@,
            TokenType::If => "If"@,
            TokenType::Nil => "Nil"@,
            TokenType::Or => "Or"@,
            TokenType::Print => "Print"@,
            TokenType::Return => "Return"@,
            TokenType::Super => "Super"@,
            TokenType::This => "This"@,
            TokenType::True => "True"@,
            TokenType::Var => "Var"@,
            TokenType::While => "While"@,
            TokenType::Eof => "Eof"@,
        }
    }

    /// The name of the category, as static text.
    pub fn name(self) -> (s: &'static str)
        ensures
            s@ == self.name_text(),
    {
        match self {
            TokenType::LeftParen => "LeftParen",
            TokenType::RightParen => "RightParen",
            TokenType::LeftBrace => "LeftBrace",
            TokenType::RightBrace => "RightBrace",
            TokenType::Comma => "Comma",
            TokenType::Dot => "Dot",
            TokenType::Minus => "Minus",
            TokenType::Plus => "Plus",
            TokenType::Semicolon => "Semicolon",
            TokenType::Slash => "Slash",
            TokenType::Star => "Star",
            TokenType::Bang => "Bang",
            TokenType::BangEqual => "BangEqual",
            TokenType::Equal => "Equal",
            TokenType::EqualEqual => "EqualEqual",
            TokenType::Greater => "Greater",
            TokenType::GreaterEqual => "GreaterEqual",
            TokenType::Less => "Less",
            TokenType::LessEqual => "LessEqual",
            TokenType::Identifier => "Identifier",
            TokenType::String => "String",
            TokenType::Number => "Number",
            TokenType::And => "And",
            TokenType::Class => "Class",
            TokenType::Else => "Else",
            TokenType::False => "False",
            TokenType::Fun => "Fun",
            TokenType::For => "For",
            TokenType::If => "If",
            TokenType::Nil => "Nil",
            TokenType::Or => "Or",
            TokenType::Print => "Print",
            TokenType::Return => "Return",
            TokenType::Super => "Super",
            TokenType::This => "This",
            TokenType::True => "True",
            TokenType::Var => "Var",
            TokenType::While => "While",
            TokenType::Eof => "Eof",
        }
    }
}

/// The reserved word that `text` spells, if it spells one. The match is exact
/// and case-sensitive: a longer or shorter word is no keyword.
pub open spec fn keyword_kind(text: Seq<char>) -> Option<TokenType> {
    if text == "and"@ {
        Some(TokenType::And)
    } else if text == "class"@ {
        Some(TokenType::Class)
    } else if text == "else"@ {
        Some(TokenType::Else)
    } else if text == "false"@ {
        Some(TokenType::False)
    } else if text == "fun"@ {
        Some(TokenType::Fun)
    } else if text == "for"@ {
        Some(TokenType::For)
    } else if text == "if"@ {
        Some(TokenType::If)
    } else if text == "nil"@ {
        Some(TokenType::Nil)
    } else if text == "or"@ {
        Some(TokenType::Or)
    } else if text == "print"@ {
        Some(TokenType::Print)
    } else if text == "return"@ {
        Some(TokenType::Return)
    } else if text == "super"@ {
        Some(TokenType::Super)
    } else if text == "this"@ {
        Some(TokenType::This)
    } else if text == "true"@ {
        Some(TokenType::True)
    } else if text == "var"@ {
        Some(TokenType::Var)
    } else if text == "while"@ {
        Some(TokenType::While)
    } else {
        None
    }
}

/// Looks `text` up among the sixteen reserved words.
pub fn keyword(text: &str) -> (kind: Option<TokenType>)
    ensures
        kind == keyword_kind(text@),
{
    if same_text(text, "and") {
        Some(TokenType::And)
    } else if same_text(text, "class") {
        Some(TokenType::Class)
    } else if same_text(text, "else") {
        Some(TokenType::Else)
    } else if same_text(text, "false") {
        Some(TokenType::False)
    } else if same_text(text, "fun") {
        Some(TokenType::Fun)
    } else if same_text(text, "for") {
        Some(TokenType::For)
    } else if same_text(text, "if") {
        Some(TokenType::If)
    } else if same_text(text, "nil") {
        Some(TokenType::Nil)
    } else if same_text(text, "or") {
        Some(TokenType::Or)
    } else if same_text(text, "print") {
        Some(TokenType::Print)
    } else if same_text(text, "return") {
        Some(TokenType::Return)
    } else if same_text(text, "super") {
        Some(TokenType::Super)
    } else if same_text(text, "this") {
        Some(TokenType::This)
    } else if same_text(text, "true") {
        Some(TokenType::True)
    } else if same_text(text, "var") {
        Some(TokenType::Var)
    } else if same_text(text, "while") {
        Some(TokenType::While)
    } else {
        None
    }
}

/// One token of the source text.
#[derive(Debug)]
pub struct Token {
    /// The lexical category.
    pub kind: TokenType,
    /// The exact source text that the token was read from.
    pub lexeme: String,
    /// The text a later stage works with: the body of a string, the digits of
    /// a number, the name of an identifier; empty for every other token.
    pub literal: String,
    /// The line, counted from one, on which the token starts.
    pub line: usize,
}

/// A token as a mathematical value.
pub struct TokenModel {
    pub kind: TokenType,
    pub lexeme: Seq<char>,
    pub literal: Seq<char>,
    pub line: nat,
}

impl TokenModel {
    /// The text shown for the token in a listing: the name of its category, a
    /// space and its literal.
    pub open spec fn rendering(self) -> Seq<char> {
        self.kind.name_text() + " "@ + self.literal
    }
}

impl View for Token {
    type V = TokenModel;

    open spec fn view(&self) -> TokenModel {
        TokenModel {
            kind: self.kind,
            lexeme: self.lexeme@,
            literal: self.literal@,
            line: self.line as nat,
        }
    }
}

/// The models of a sequence of tokens, in order.
pub open spec fn token_models(tokens: Seq<Token>) -> Seq<TokenModel> {
    tokens.map_values(|t: Token| t@)
}

impl Token {
    pub fn new(kind: TokenType, lexeme: String, literal: String, line: usize) -> (token: Token)
        ensures
            token == (Token { kind, lexeme, literal, line }),
    {
        Token { kind, lexeme, literal, line }
    }

    /// Renders the token as the name of its category, a space and its literal.
    pub fn to_string(&self) -> (s: String)
        ensures
            s@ == self@.rendering(),
    {
        let mut s = self.kind.name().to_owned();
        s.append(" ");
        s.append(self.literal.as_str());
        s
    }
}

} // verus!
