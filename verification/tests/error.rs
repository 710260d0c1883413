use rlox::Error;

#[test]
fn error_new_keeps_its_arguments() {
    let e = Error::new("Unterminated string".to_owned(), " at end".to_owned(), 7);
    assert_eq!(e.message, "Unterminated string");
    assert_eq!(e.location, " at end");
    assert_eq!(e.line, 7);
}

#[test]
fn error_to_string_with_empty_location() {
    let e = Error::new("Unexpected character.".to_owned(), String::new(), 3);
    assert_eq!(e.to_string(), "[line 3] Error : Unexpected character.");
}

#[test]
fn error_to_string_with_location() {
    let e = Error::new("Expect expression.".to_owned(), "at 'x'".to_owned(), 12);
    assert_eq!(e.to_string(), "[line 12] Error at 'x': Expect expression.");
}

#[test]
fn error_to_string_writes_the_line_in_decimal() {
    let e = Error::new("m".to_owned(), "w".to_owned(), 0);
    assert_eq!(e.to_string(), "[line 0] Error w: m");
    let e = Error::new("m".to_owned(), "w".to_owned(), 9);
    assert_eq!(e.to_string(), "[line 9] Error w: m");
    let e = Error::new("m".to_owned(), "w".to_owned(), 10);
    assert_eq!(e.to_string(), "[line 10] Error w: m");
    let e = Error::new("m".to_owned(), "w".to_owned(), 1001);
    assert_eq!(e.to_string(), "[line 1001] Error w: m");
    let e = Error::new("m".to_owned(), "w".to_owned(), usize::MAX);
    assert_eq!(e.to_string(), format!("[line {}] Error w: m", usize::MAX));
}

#[test]
fn error_to_string_keeps_other_scripts() {
    let e = Error::new("schließende \" fehlt".to_owned(), "→".to_owned(), 2);
    assert_eq!(e.to_string(), "[line 2] Error →: schließende \" fehlt");
}
