use gobol::error::ErrorFormatter;
use gobol::token::{Token, TokenType};

#[test]
fn plain_header_with_and_without_position() {
    let f = ErrorFormatter::new("main.gbl", "var x = 1\nvar y = x +\n");
    assert_eq!(f.format_header_plain(2, 4, "error", "oops"), "main.gbl:2:5: error: oops");
    assert_eq!(f.format_header_plain(0, 4, "warning", "w"), "main.gbl: warning: w");
}

#[test]
fn coloured_header() {
    let f = ErrorFormatter::new("a.gbl", "x\n");
    assert_eq!(
        f.format_header(1, 0, "error", "m"),
        "\u{1b}[1ma.gbl:1:1: \u{1b}[31merror\u{1b}[0m\u{1b}[1m: m\u{1b}[0m"
    );
}

#[test]
fn plain_snippet_underlines_the_span() {
    let f = ErrorFormatter::new("main.gbl", "var x = 1\nvar y = x +\n");
    assert_eq!(f.format_snippet_plain(2, 8, 3), "  2 | var y = x +\n              ^~~\n");
    assert_eq!(f.format_snippet_plain(3, 0, 1), "");
    assert_eq!(f.format_snippet_plain(1, 0, 0), "  1 | var x = 1\n      ^\n");
}

#[test]
fn full_error_joins_header_and_snippet() {
    let f = ErrorFormatter::new("m.gbl", "abc\n");
    assert_eq!(f.format_error(1, 1, 1, "error", "bad", false), "m.gbl:1:2: error: bad\n  1 | abc\n       ^\n");
    assert_eq!(f.format_error(0, 1, 1, "error", "bad", false), "m.gbl: error: bad");
    let t = Token::with_pos(TokenType::Identifier, "abc".to_string(), 1, 0);
    assert_eq!(f.format_error_at(&t, 2, "error", "e"), f.format_error(1, 0, 2, "error", "e", true));
}

#[test]
fn notes() {
    let f = ErrorFormatter::new("m.gbl", "");
    assert_eq!(f.format_note("hint", false), "  = note: hint");
    assert_eq!(f.format_note("hint", true), "  \u{1b}[36m= note:\u{1b}[0m hint");
}
