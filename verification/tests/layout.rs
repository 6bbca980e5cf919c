use thermal_printer::blocks::Span;
use thermal_printer::layout::{alt_placeholder, bullet, code_lines, join_spans};
use thermal_printer::text::decimal_string;

#[test]
fn bullets() {
    assert_eq!(bullet(true, 3), "3. ");
    assert_eq!(bullet(true, 120), "120. ");
    assert_eq!(bullet(false, 7), "• ");
}

#[test]
fn decimals() {
    assert_eq!(decimal_string(0), "0");
    assert_eq!(decimal_string(9), "9");
    assert_eq!(decimal_string(10), "10");
    assert_eq!(decimal_string(18446744073709551615), "18446744073709551615");
}

#[test]
fn alt_text() {
    assert_eq!(alt_placeholder("a cat"), "[a cat]");
}

#[test]
fn code_block_lines() {
    assert_eq!(code_lines("a\r\nb\n\nc  \n\n "), vec!["a", "b", "", "c"]);
    assert!(code_lines(" \n ").is_empty());
    assert_eq!(code_lines("x\ry"), vec!["x\ry"]);
}

#[test]
fn span_byte_ranges() {
    let spans = vec![
        Span::new("é ".to_string(), false, false, false),
        Span::new("b".to_string(), true, false, false),
    ];
    let (text, ranges) = join_spans(&spans);
    assert_eq!(text, "é b");
    assert_eq!(ranges, vec![(0, 3), (3, 4)]);
}
