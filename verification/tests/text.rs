use rlox::text::{
    char_at, code_points, is_alpha, is_alphanumeric, is_digit, push_decimal, same_text, str_len,
    substring,
};

// Helper function tests.
#[test]
fn test_str_len() {
    let s1 = String::from("Hello world!");
    assert_eq!(str_len(&s1), 12);
    let s2 = String::from("this is a test");
    assert_eq!(str_len(&s2), 14);
}

#[test]
fn test_char_at() {
    let s = String::from("this is a test");
    assert_eq!(char_at(&s, 1), 'h'); // valid
    assert_eq!(char_at(&s, 5), 'i'); // valid
    assert_eq!(char_at(&s, 8), 'a'); // valid
    assert_eq!(char_at(&s, 20), '\0'); // pos > s.len()
}

#[test]
fn test_substring() {
    let s = String::from("this is a test");
    assert_eq!(substring(&s, 0, 4), "this".to_owned()); // valid
    assert_eq!(substring(&s, 6, 12), "s a te".to_owned()); // valid
    assert_eq!(substring(&s, 8, 20), "a test".to_owned()); // end > s.len()
    assert_eq!(substring(&s, 25, 27), "".to_owned()); // start > s.len()
    assert_eq!(substring(&s, 5, 3), "".to_owned()); // start > end
}

#[test]
fn test_is_digit() {
    assert!(is_digit('0'));
    assert!(is_digit('4'));
    assert!(is_digit('9'));
    assert!(!is_digit('a'));
    assert!(!is_digit('$'));
}

#[test]
fn test_is_alpha() {
    assert!(is_alpha('s'));
    assert!(is_alpha('f'));
    assert!(is_alpha('a'));
    assert!(is_alpha('_'));
    assert!(!is_alpha('^'));
    assert!(!is_alpha('9'));
}

#[test]
fn test_is_alphanumeric() {
    assert!(is_alphanumeric('4'));
    assert!(is_alphanumeric('b'));
    assert!(is_alphanumeric('x'));
    assert!(is_alphanumeric('_'));
    assert!(!is_alphanumeric('%'));
    assert!(!is_alphanumeric('+'));
}

#[test]
fn str_len_counts_code_points_not_bytes() {
    assert_eq!(str_len(&String::new()), 0);
    let s = String::from("héllo → wörld");
    assert_eq!(s.len(), 17);
    assert_eq!(str_len(&s), 13);
}

#[test]
fn char_at_indexes_by_code_point() {
    let s = String::from("a→é!");
    assert_eq!(char_at(&s, 0), 'a');
    assert_eq!(char_at(&s, 1), '→');
    assert_eq!(char_at(&s, 2), 'é');
    assert_eq!(char_at(&s, 3), '!');
    assert_eq!(char_at(&s, 4), '\0');
    assert_eq!(char_at(&String::new(), 0), '\0');
    assert_eq!(char_at(&s, usize::MAX), '\0');
}

#[test]
fn substring_edges() {
    let s = String::from("this is a test");
    assert_eq!(substring(&s, 0, 0), "");
    assert_eq!(substring(&s, 3, 3), "");
    assert_eq!(substring(&s, 0, 14), "this is a test");
    assert_eq!(substring(&s, 0, usize::MAX), "this is a test");
    assert_eq!(substring(&s, 13, 14), "t");
    assert_eq!(substring(&s, 14, 14), ""); // start at the end
    assert_eq!(substring(&s, 14, 20), "");
    assert_eq!(substring(&String::new(), 0, 0), "");
    assert_eq!(substring(&String::new(), 0, 5), "");
}

#[test]
fn substring_cuts_at_code_points() {
    let s = String::from("a→éb");
    assert_eq!(substring(&s, 1, 3), "→é");
    assert_eq!(substring(&s, 2, 9), "éb");
    assert_eq!(substring(&s, 0, 1), "a");
}

#[test]
fn digit_class_is_ascii_only() {
    for c in '0'..='9' {
        assert!(is_digit(c));
        assert!(is_alphanumeric(c));
        assert!(!is_alpha(c));
    }
    assert!(!is_digit('/')); // the code point before '0'
    assert!(!is_digit(':')); // the code point behind '9'
    assert!(!is_digit('٣')); // a digit of another script
    assert!(!is_digit('\0'));
}

#[test]
fn alpha_class_is_ascii_letters_and_underscore() {
    for c in 'a'..='z' {
        assert!(is_alpha(c));
    }
    for c in 'A'..='Z' {
        assert!(is_alpha(c));
    }
    assert!(is_alpha('_'));
    assert!(!is_alpha('`')); // before 'a'
    assert!(!is_alpha('{')); // behind 'z'
    assert!(!is_alpha('@')); // before 'A'
    assert!(!is_alpha('[')); // behind 'Z'
    assert!(!is_alpha('é'));
    assert!(!is_alpha(' '));
    assert!(!is_alpha('\0'));
    assert!(!is_alphanumeric('é'));
    assert!(!is_alphanumeric('-'));
}

#[test]
fn same_text_compares_code_points() {
    assert!(same_text("", ""));
    assert!(same_text("nil", "nil"));
    assert!(same_text("héllo", "héllo"));
    assert!(!same_text("nil", "nil "));
    assert!(!same_text("nil", "ni"));
    assert!(!same_text("nil", "nib"));
    assert!(!same_text("Nil", "nil"));
    assert!(!same_text("", "a"));
    // Same number of bytes, another number of code points.
    assert!(!same_text("é", "ab"));
}

#[test]
fn code_points_are_in_order() {
    assert_eq!(code_points(""), Vec::<char>::new());
    assert_eq!(code_points("a→é\n"), vec!['a', '→', 'é', '\n']);
}

#[test]
fn push_decimal_writes_the_numeral() {
    let mut s = String::new();
    push_decimal(&mut s, 0);
    assert_eq!(s, "0");
    let mut s = String::from("n=");
    push_decimal(&mut s, 7);
    assert_eq!(s, "n=7");
    let mut s = String::new();
    push_decimal(&mut s, 10);
    assert_eq!(s, "10");
    let mut s = String::new();
    push_decimal(&mut s, 1234567890);
    assert_eq!(s, "1234567890");
    let mut s = String::new();
    push_decimal(&mut s, 100200);
    assert_eq!(s, "100200");
    let mut s = String::new();
    push_decimal(&mut s, usize::MAX);
    assert_eq!(s, format!("{}", usize::MAX));
}
