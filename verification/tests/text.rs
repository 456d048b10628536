use vesktop_voice_overlay::text::{compare_str, push_decimal, str_eq, Order};

#[test]
fn strings_compare_by_bytes() {
    assert_eq!(compare_str("a", "b"), Order::Less);
    assert_eq!(compare_str("B", "a"), Order::Less);
    assert_eq!(compare_str("ab", "a"), Order::Greater);
    assert_eq!(compare_str("é", "z"), Order::Greater);
    assert_eq!(compare_str("same", "same"), Order::Equal);
    assert!(str_eq("x", "x"));
    assert!(!str_eq("x", "xy"));
}

#[test]
fn decimal_rendering() {
    let mut s = String::from("n=");
    push_decimal(&mut s, 0);
    assert_eq!(s, "n=0");
    let mut s = String::new();
    push_decimal(&mut s, 9070);
    assert_eq!(s, "9070");
    let mut s = String::new();
    push_decimal(&mut s, usize::MAX);
    assert_eq!(s, usize::MAX.to_string());
}
