use rlox::scanner::{Token, TokenType};
use rlox::token::keyword;

const ALL_KINDS: [TokenType; 39] = [
    TokenType::LeftParen,
    TokenType::RightParen,
    TokenType::LeftBrace,
    TokenType::RightBrace,
    TokenType::Comma,
    TokenType::Dot,
    TokenType::Minus,
    TokenType::Plus,
    TokenType::Semicolon,
    TokenType::Slash,
    TokenType::Star,
    TokenType::Bang,
    TokenType::BangEqual,
    TokenType::Equal,
    TokenType::EqualEqual,
    TokenType::Greater,
    TokenType::GreaterEqual,
    TokenType::Less,
    TokenType::LessEqual,
    TokenType::Identifier,
    TokenType::String,
    TokenType::Number,
    TokenType::And,
    TokenType::Class,
    TokenType::Else,
    TokenType::False,
    TokenType::Fun,
    TokenType::For,
    TokenType::If,
    TokenType::Nil,
    TokenType::Or,
    TokenType::Print,
    TokenType::Return,
    TokenType::Super,
    TokenType::This,
    TokenType::True,
    TokenType::Var,
    TokenType::While,
    TokenType::Eof,
];

// Token tests
#[test]
fn test_token_constructor() {
    let t = Token::new(TokenType::Equal, "asdf".to_owned(), "==".to_owned(), 23);
    assert_eq!(t.kind, TokenType::Equal);
    assert_eq!(t.lexeme, "asdf".to_owned());
    assert_eq!(t.literal, "==".to_owned());
    assert_eq!(t.line, 23);
}

#[test]
fn test_token_to_string() {
    let t = Token::new(TokenType::Equal, "asdf".to_owned(), "==".to_owned(), 23);
    assert_eq!(t.to_string(), String::from("Equal =="));
}

#[test]
fn token_to_string_with_empty_literal_keeps_the_space() {
    let t = Token::new(TokenType::Semicolon, ";".to_owned(), String::new(), 1);
    assert_eq!(t.to_string(), "Semicolon ");
    let t = Token::new(TokenType::Eof, String::new(), String::new(), 9);
    assert_eq!(t.to_string(), "Eof ");
}

#[test]
fn token_to_string_shows_the_literal_not_the_lexeme() {
    let t = Token::new(TokenType::String, "\"a b\"".to_owned(), "a b".to_owned(), 1);
    assert_eq!(t.to_string(), "String a b");
    let t = Token::new(TokenType::Number, "1.50".to_owned(), "1.50".to_owned(), 1);
    assert_eq!(t.to_string(), "Number 1.50");
    let t = Token::new(TokenType::Identifier, "héllo".to_owned(), "wörld".to_owned(), 1);
    assert_eq!(t.to_string(), "Identifier wörld");
}

#[test]
fn kind_names_are_the_variant_names() {
    for kind in ALL_KINDS {
        assert_eq!(kind.name(), format!("{:?}", kind));
    }
    assert_eq!(TokenType::LeftParen.name(), "LeftParen");
    assert_eq!(TokenType::GreaterEqual.name(), "GreaterEqual");
    assert_eq!(TokenType::Eof.name(), "Eof");
}

#[test]
fn kinds_are_distinct() {
    for (i, a) in ALL_KINDS.iter().enumerate() {
        for (j, b) in ALL_KINDS.iter().enumerate() {
            assert_eq!(a == b, i == j);
        }
    }
}

#[test]
fn every_reserved_word_is_a_keyword() {
    assert_eq!(keyword("and"), Some(TokenType::And));
    assert_eq!(keyword("class"), Some(TokenType::Class));
    assert_eq!(keyword("else"), Some(TokenType::Else));
    assert_eq!(keyword("false"), Some(TokenType::False));
    assert_eq!(keyword("fun"), Some(TokenType::Fun));
    assert_eq!(keyword("for"), Some(TokenType::For));
    assert_eq!(keyword("if"), Some(TokenType::If));
    assert_eq!(keyword("nil"), Some(TokenType::Nil));
    assert_eq!(keyword("or"), Some(TokenType::Or));
    assert_eq!(keyword("print"), Some(TokenType::Print));
    assert_eq!(keyword("return"), Some(TokenType::Return));
    assert_eq!(keyword("super"), Some(TokenType::Super));
    assert_eq!(keyword("this"), Some(TokenType::This));
    assert_eq!(keyword("true"), Some(TokenType::True));
    assert_eq!(keyword("var"), Some(TokenType::Var));
    assert_eq!(keyword("while"), Some(TokenType::While));
}

#[test]
fn keywords_match_exactly() {
    assert_eq!(keyword(""), None);
    assert_eq!(keyword("classic"), None);
    assert_eq!(keyword("clas"), None);
    assert_eq!(keyword("Class"), None);
    assert_eq!(keyword("CLASS"), None);
    assert_eq!(keyword("nil "), None);
    assert_eq!(keyword(" nil"), None);
    assert_eq!(keyword("fo"), None);
    assert_eq!(keyword("form"), None);
    assert_eq!(keyword("orr"), None);
    assert_eq!(keyword("_if"), None);
    assert_eq!(keyword("x"), None);
    assert_eq!(keyword("identifier"), None);
    assert_eq!(keyword("eof"), None);
}
