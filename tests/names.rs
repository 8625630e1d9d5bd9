use sandbox::names::{valid_name, validate_names, NameError};

#[test]
fn letters_and_dots_are_valid() {
    assert!(valid_name("a"));
    assert!(valid_name("main.py"));
    assert!(valid_name("Makefile"));
    assert!(valid_name("a.b.c."));
}

#[test]
fn bad_names_are_rejected() {
    assert!(!valid_name(""));
    assert!(!valid_name(".hidden"));
    assert!(!valid_name("."));
    assert!(!valid_name(".."));
    assert!(!valid_name("a/b"));
    assert!(!valid_name("/etc"));
    assert!(!valid_name("file1"));
    assert!(!valid_name("a b"));
    assert!(!valid_name("a_b"));
    assert!(!valid_name("caf\u{e9}"));
}

#[test]
fn first_bad_name_rejects_the_set() {
    let names = vec!["a".to_string(), "b1".to_string(), "../c".to_string()];
    assert_eq!(validate_names(&names), Err(NameError { index: 1 }));
    let ok = vec!["a".to_string(), "c".to_string()];
    assert_eq!(validate_names(&ok), Ok(()));
    assert_eq!(validate_names(&Vec::new()), Ok(()));
}
