use quicksample::text::{push_decimal, push_padded};

#[test]
fn numerals() {
    for n in [0u64, 7, 10, 99, 100, 1234567890, u64::MAX] {
        let mut text = "x".to_string();
        push_decimal(&mut text, n);
        assert_eq!(text, format!("x{n}"));
        for width in [0, 1, 2, 3, 7, 30] {
            let mut text = "y".to_string();
            push_padded(&mut text, n, width);
            assert_eq!(text, format!("y{n:0width$}"));
        }
    }
}
