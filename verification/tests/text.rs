use gb_forever::text::{
    clone_opt_text, clone_opt_texts, clone_texts, decimal_string, push_decimal, str_eq,
};

#[test]
fn str_eq_compares_text() {
    assert!(str_eq("", ""));
    assert!(str_eq("active", "active"));
    assert!(str_eq("grüße 🎮", "grüße 🎮"));
    assert!(!str_eq("active", "Active"));
    assert!(!str_eq("active", "activ"));
    assert!(!str_eq("activ", "active"));
    assert!(!str_eq("", " "));
    assert!(!str_eq("é", "e\u{301}"));
}

#[test]
fn decimal_notation() {
    assert_eq!(decimal_string(0), "0");
    assert_eq!(decimal_string(7), "7");
    assert_eq!(decimal_string(10), "10");
    assert_eq!(decimal_string(10_000), "10000");
    assert_eq!(decimal_string(1_234_567_890), "1234567890");
    assert_eq!(decimal_string(u64::MAX), "18446744073709551615");
    let mut out = "n=".to_string();
    push_decimal(&mut out, 405);
    push_decimal(&mut out, 0);
    assert_eq!(out, "n=4050");
}

#[test]
fn copies_hold_the_same_text() {
    assert_eq!(clone_opt_text(&None), None);
    assert_eq!(clone_opt_text(&Some("x".to_string())), Some("x".to_string()));
    let list = vec!["a".to_string(), String::new(), "c d".to_string()];
    assert_eq!(clone_texts(&list), list);
    assert_eq!(clone_texts(&Vec::new()), Vec::<String>::new());
    assert_eq!(clone_opt_texts(&Some(list.clone())), Some(list));
    assert_eq!(clone_opt_texts(&None), None);
}
