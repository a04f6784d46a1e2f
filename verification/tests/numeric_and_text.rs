//! Decimal parsing and rendering, and splitting program text into rows.

use avrc::numeric::{format_u32, parse_u32_digits};
use avrc::text::grid_from_text;

fn chars(s: &str) -> Vec<char> {
    s.chars().collect()
}

#[test]
fn parse_plain_decimal() {
    assert_eq!(parse_u32_digits(&chars("42")), Some(42));
    assert_eq!(parse_u32_digits(&chars("0")), Some(0));
    assert_eq!(parse_u32_digits(&chars("007")), Some(7));
}

#[test]
fn parse_rejects_empty_buffer() {
    assert_eq!(parse_u32_digits(&chars("")), None);
}

#[test]
fn parse_at_the_32_bit_boundary() {
    assert_eq!(parse_u32_digits(&chars("4294967295")), Some(u32::MAX));
    assert_eq!(parse_u32_digits(&chars("4294967296")), None);
    assert_eq!(parse_u32_digits(&chars("99999999999999999999")), None);
}

#[test]
fn format_round_trips() {
    for n in [0u32, 1, 9, 10, 42, 1000000, 4294967295] {
        let text = format_u32(n);
        assert_eq!(text.iter().collect::<String>(), n.to_string());
        assert_eq!(parse_u32_digits(&text), Some(n));
    }
}

#[test]
fn split_simple_rows() {
    let g = grid_from_text(&chars("ab\ncd"));
    assert_eq!(g, vec![chars("ab"), chars("cd")]);
}

#[test]
fn split_drops_carriage_return_before_line_feed() {
    let g = grid_from_text(&chars("ab\r\ncd\n"));
    assert_eq!(g, vec![chars("ab"), chars("cd")]);
}

#[test]
fn split_keeps_empty_interior_rows() {
    let g = grid_from_text(&chars("a\n\nb"));
    assert_eq!(g, vec![chars("a"), chars(""), chars("b")]);
}

#[test]
fn split_edge_shapes() {
    assert_eq!(grid_from_text(&chars("")), Vec::<Vec<char>>::new());
    assert_eq!(grid_from_text(&chars("\n")), vec![chars("")]);
    // A carriage return not followed by a line feed is an ordinary cell.
    assert_eq!(grid_from_text(&chars("x\r")), vec![chars("x\r")]);
}
