use gobol::table::Table;
use gobol::text::{int_to_string, join_strings, last_segment, replace_text, str_contains, str_ends_with, text_before};

#[test]
fn integers_in_decimal() {
    assert_eq!(int_to_string(0), "0");
    assert_eq!(int_to_string(-42), "-42");
    assert_eq!(int_to_string(i64::MIN), "-9223372036854775808");
}

#[test]
fn text_helpers() {
    assert_eq!(replace_text("a::b::c", "::", "_"), "a_b_c");
    assert_eq!(join_strings(&vec!["x".to_string(), "y".to_string()], ", "), "x, y");
    assert_eq!(last_segment("std::io::print"), "print");
    assert_eq!(last_segment("print"), "print");
    assert!(str_contains("x86_64-pc-windows-msvc", "windows"));
    assert!(str_ends_with("thumbv7em-none", "-none"));
    assert_eq!(text_before("aarch64-unknown-none", b'-'), "aarch64");
    assert_eq!(text_before("Vec<T>", b'<'), "Vec");
}

#[test]
fn tables_keep_the_last_value() {
    let mut t: Table<i32> = Table::new();
    t.insert("a".to_string(), 1);
    t.insert("b".to_string(), 2);
    t.insert("a".to_string(), 3);
    assert_eq!(t.get("a"), Some(&3));
    assert_eq!(t.get("b"), Some(&2));
    assert!(!t.contains_key("c"));
    t.clear();
    assert_eq!(t.get("a"), None);
}
