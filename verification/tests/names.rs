use tiptop::names::{numbered, push_decimal};

#[test]
fn numbers_in_decimal() {
    assert_eq!(numbered("s", 0), "s0");
    assert_eq!(numbered("rr", 1234567890), "rr1234567890");
    assert_eq!(numbered("", usize::MAX), format!("{}", usize::MAX));
}

#[test]
fn appends_digits() {
    let mut text = String::from("y");
    push_decimal(&mut text, 100);
    push_decimal(&mut text, 9);
    assert_eq!(text, "y1009");
}
