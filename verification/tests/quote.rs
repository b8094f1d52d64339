use tailglow::config::QuotesConfig;
use tailglow::highlight::HighlightResult;
use tailglow::highlighters::quote::QuoteHighlighter;
use tailglow::style::{Color, Style};

fn convert_escape_codes(out: Vec<u8>) -> String {
    String::from_utf8(out)
        .unwrap()
        .replace("\x1b[31m", "[red]")
        .replace("\x1b[32m", "[green]")
        .replace("\x1b[33m", "[yellow]")
        .replace("\x1b[34m", "[blue]")
        .replace("\x1b[35m", "[magenta]")
        .replace("\x1b[36m", "[cyan]")
        .replace("\x1b[37m", "[white]")
        .replace("\x1b[0m", "[reset]")
}

fn convert_highlight_codes(s: &str) -> String {
    s.replace("[red]", "\x1b[31m").replace("[yellow]", "\x1b[33m").replace("[reset]", "\x1b[0m")
}

fn bytes_of(r: HighlightResult, input: &[u8]) -> Vec<u8> {
    match r {
        HighlightResult::Unchanged => input.to_vec(),
        HighlightResult::Highlighted(v) => v,
    }
}

fn yellow_quotes() -> QuoteHighlighter {
    QuoteHighlighter::new(QuotesConfig {
        quotes_token: b'"',
        style: Style::new().fg(Color::Yellow),
    })
}

#[test]
fn test_multiple() {
    let highlighter = yellow_quotes();

    let cases = vec![
        (
            r#"Lorem ipsum "dolor" sit amet"#,
            r#"Lorem ipsum [yellow]"dolor"[reset] sit amet"#,
        ),
        (
            r#"Lorem ipsum dolor sit amet, consectetur adipiscing elit"#,
            r#"Lorem ipsum dolor sit amet, consectetur adipiscing elit"#,
        ),
    ];

    for (input, expected) in cases {
        let actual = highlighter.apply(input.as_bytes());
        let actual = bytes_of(actual, input.as_bytes());
        assert_eq!(expected, convert_escape_codes(actual));
    }
}

#[test]
fn test_no_overwrite() {
    let highlighter = yellow_quotes();

    let input = convert_highlight_codes(r#"Hello "abc [red]def[reset] ghi" World"#);
    let expected = r#"Hello [yellow]"abc [red]def[reset][yellow] ghi"[reset] World"#;

    let actual = highlighter.apply(input.as_bytes());
    let actual = bytes_of(actual, input.as_bytes());

    assert_eq!(convert_escape_codes(actual), expected);
}

#[test]
fn test_odd_number_of_highlight_tokens() {
    let highlighter = yellow_quotes();

    let input = r#"Hello "abc def ghi World"#;
    let expected = r#"Hello "abc def ghi World"#;

    let actual = highlighter.apply(input.as_bytes());
    assert!(matches!(actual, HighlightResult::Unchanged));
    let actual = bytes_of(actual, input.as_bytes());

    assert_eq!(convert_escape_codes(actual), expected);
}

#[test]
fn quote_color_is_exact_ansi_prefix() {
    // the construction-time color is the exact start code of the style
    let highlighter = yellow_quotes();
    assert_eq!(highlighter.color, b"\x1b[33m".to_vec());

    let bold = QuoteHighlighter::new(QuotesConfig {
        quotes_token: b'"',
        style: Style::new().fg(Color::Blue).bold(),
    });
    assert_eq!(bold.color, b"\x1b[1;34m".to_vec());

    let plain = QuoteHighlighter::new(QuotesConfig { quotes_token: b'"', style: Style::new() });
    assert_eq!(plain.color, Vec::<u8>::new());
}
