use minicompiler::decimal::{i32_text, usize_text};

#[test]
fn decimal_notation() {
    assert_eq!(i32_text(0), "0");
    assert_eq!(i32_text(9), "9");
    assert_eq!(i32_text(10), "10");
    assert_eq!(i32_text(-305), "-305");
    assert_eq!(i32_text(i32::MIN), "-2147483648");
    assert_eq!(usize_text(0), "0");
    assert_eq!(usize_text(1234567), "1234567");
}
