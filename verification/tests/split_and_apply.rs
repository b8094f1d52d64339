use tailglow::config::NumberConfig;
use tailglow::highlight::HighlightResult;
use tailglow::highlighters::number::NumberHighlighter;
use tailglow::highlighters::Highlighter;
use tailglow::split_and_apply::apply_only_to_unhighlighted;
use tailglow::style::{Color, Style};

fn number_highlighter() -> Highlighter {
    Highlighter::Number(NumberHighlighter::new(NumberConfig {
        style: Style::new().fg(Color::Cyan),
    }))
}

fn contains_sub(hay: &[u8], needle: &[u8]) -> bool {
    hay.windows(needle.len()).any(|w| w == needle)
}

fn bytes_of(r: &HighlightResult, input: &[u8]) -> Vec<u8> {
    match r {
        HighlightResult::Unchanged => input.to_vec(),
        HighlightResult::Highlighted(v) => v.clone(),
    }
}

#[test]
fn no_escapes_no_match() {
    let h = number_highlighter();
    let input = "hello world";
    let result = apply_only_to_unhighlighted(input.as_bytes(), &h);
    assert!(matches!(result, HighlightResult::Unchanged));
    assert_eq!(bytes_of(&result, input.as_bytes()), input.as_bytes());
}

#[test]
fn no_escapes_with_match() {
    let h = number_highlighter();
    let input = "count 42 end";
    let result = apply_only_to_unhighlighted(input.as_bytes(), &h);
    assert!(matches!(result, HighlightResult::Highlighted(_)));
    let out = bytes_of(&result, input.as_bytes());
    assert!(contains_sub(&out, b"\x1b["));
    assert!(contains_sub(&out, b"42"));
}

#[test]
fn skips_already_highlighted_region() {
    let h = number_highlighter();
    let input = "before \x1b[31m99\x1b[0m after";
    let result = apply_only_to_unhighlighted(input.as_bytes(), &h);
    // 99 is inside an escape — it must not be re-highlighted, and
    // "before" and "after" hold no numbers, so nothing changes
    assert!(matches!(result, HighlightResult::Unchanged));
}

#[test]
fn highlights_outside_escapes() {
    let h = number_highlighter();
    let input = "val 7 \x1b[31mred\x1b[0m end";
    let result = apply_only_to_unhighlighted(input.as_bytes(), &h);
    assert!(matches!(result, HighlightResult::Highlighted(_)));
    let out = bytes_of(&result, input.as_bytes());
    // the "7" outside the escape is highlighted
    assert!(contains_sub(&out, b"7"));
    // the escape region is preserved verbatim
    assert!(contains_sub(&out, b"\x1b[31mred\x1b[0m"));
}

#[test]
fn escape_at_start() {
    let h = number_highlighter();
    let input = "\x1b[31mred\x1b[0m 42 end";
    let result = apply_only_to_unhighlighted(input.as_bytes(), &h);
    assert!(matches!(result, HighlightResult::Highlighted(_)));
    let out = bytes_of(&result, input.as_bytes());
    assert!(out.starts_with(b"\x1b[31mred\x1b[0m"));
}

#[test]
fn escape_at_end() {
    let h = number_highlighter();
    let input = "hello \x1b[31m99\x1b[0m";
    let result = apply_only_to_unhighlighted(input.as_bytes(), &h);
    assert!(matches!(result, HighlightResult::Unchanged));
}

#[test]
fn unclosed_escape() {
    let h = number_highlighter();
    let input = "ok \x1b[31mforever red 42";
    let result = apply_only_to_unhighlighted(input.as_bytes(), &h);
    // "ok " has no number, and everything after the escape start is
    // treated as highlighted
    assert!(matches!(result, HighlightResult::Unchanged));
}

#[test]
fn multiple_escapes() {
    let h = number_highlighter();
    let input = "a \x1b[31mx\x1b[0m 5 \x1b[32my\x1b[0m b";
    let result = apply_only_to_unhighlighted(input.as_bytes(), &h);
    assert!(matches!(result, HighlightResult::Highlighted(_)));
    let out = bytes_of(&result, input.as_bytes());
    assert!(contains_sub(&out, b"\x1b[31mx\x1b[0m"));
    assert!(contains_sub(&out, b"\x1b[32my\x1b[0m"));
}

#[test]
fn empty_input() {
    let h = number_highlighter();
    let result = apply_only_to_unhighlighted(b"", &h);
    assert!(matches!(result, HighlightResult::Unchanged));
    assert_eq!(bytes_of(&result, b""), b"");
}

#[test]
fn wrapped_apply_twice_equals_once() {
    // idempotence of the escape-aware wrapper, on concrete lines
    let h = number_highlighter();
    for input in ["count 42 end", "a 1 b 22 c", "x\x1b[31m5\x1b[0my 7", "no digits at all"] {
        let once = apply_only_to_unhighlighted(input.as_bytes(), &h);
        let once_bytes = bytes_of(&once, input.as_bytes());
        let twice = apply_only_to_unhighlighted(&once_bytes, &h);
        assert!(matches!(twice, HighlightResult::Unchanged));
        assert_eq!(bytes_of(&twice, &once_bytes), once_bytes);
    }
}
