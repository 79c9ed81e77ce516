use field_init_plan::text::{append_decimal, copy_opt_text, same_text};

fn numeral(n: usize) -> String {
    let mut out = String::new();
    append_decimal(&mut out, n);
    out
}

#[test]
fn numerals_of_single_digits() {
    assert_eq!(numeral(0), "0");
    assert_eq!(numeral(7), "7");
    assert_eq!(numeral(9), "9");
}

#[test]
fn numerals_of_longer_numbers() {
    assert_eq!(numeral(10), "10");
    assert_eq!(numeral(11), "11");
    assert_eq!(numeral(100), "100");
    assert_eq!(numeral(1234567890), "1234567890");
    assert_eq!(numeral(usize::MAX), usize::MAX.to_string());
}

#[test]
fn numeral_is_appended_to_what_is_there() {
    let mut out = String::from("field");
    append_decimal(&mut out, 42);
    assert_eq!(out, "field42");
    append_decimal(&mut out, 0);
    assert_eq!(out, "field420");
}

#[test]
fn same_text_compares_characters() {
    assert!(same_text("default", "default"));
    assert!(same_text("", ""));
    assert!(!same_text("default", "Default"));
    assert!(!same_text("default", "default "));
    assert!(!same_text("value", "fn_name"));
}

#[test]
fn copy_of_optional_text_is_equal() {
    assert_eq!(copy_opt_text(&Some("name".to_string())), Some("name".to_string()));
    assert_eq!(copy_opt_text(&None), None);
}
