use xyio::text::append_decimal;
use xyio::text::push_bytes;
use xyio::text::push_decimal;
use xyio::text::push_text;
use xyio::text::same_bytes;

#[test]
fn decimals_are_written_without_leading_zeros() {
    for n in [0, 7, 10, 15, 999, 1000, usize::MAX] {
        let mut buf = b"n=".to_vec();
        push_decimal(&mut buf, n);
        assert_eq!(format!("n={}", n).into_bytes(), buf);

        let mut text = String::from("n=");
        append_decimal(&mut text, n);
        assert_eq!(format!("n={}", n), text);
    }
}

#[test]
fn bytes_are_appended() {
    let mut buf = vec![1];
    push_bytes(&mut buf, &[2, 3]);
    push_text(&mut buf, "A\r\n");
    assert_eq!(vec![1, 2, 3, 65, 13, 10], buf);
}

#[test]
fn bytes_are_compared() {
    assert!(same_bytes(b"Close", b"Close"));
    assert!(!same_bytes(b"Close", b"close"));
    assert!(!same_bytes(b"Close", b"Clos"));
    assert!(same_bytes(b"", b""));
}
