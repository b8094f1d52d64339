use tailglow::config::UrlConfig;
use tailglow::highlight::HighlightResult;
use tailglow::highlighters::url::{count_unbalanced_trailing_parens, UrlHighlighter};
use tailglow::style::{Color, Style};

fn convert_escape_codes(out: Vec<u8>) -> String {
    String::from_utf8(out)
        .unwrap()
        .replace("\x1b[31m", "[red]")
        .replace("\x1b[32m", "[green]")
        .replace("\x1b[33m", "[yellow]")
        .replace("\x1b[34m", "[blue]")
        .replace("\x1b[35m", "[magenta]")
        .replace("\x1b[36m", "[cyan]")
        .replace("\x1b[37m", "[white]")
        .replace("\x1b[0m", "[reset]")
}

fn bytes_of(r: HighlightResult, input: &[u8]) -> Vec<u8> {
    match r {
        HighlightResult::Unchanged => input.to_vec(),
        HighlightResult::Highlighted(v) => v,
    }
}

fn make_highlighter() -> UrlHighlighter {
    UrlHighlighter::new(UrlConfig {
        http: Style::new().fg(Color::Yellow),
        https: Style::new().fg(Color::White),
        host: Style::new().fg(Color::Green),
        path: Style::new().fg(Color::Blue),
        query_params_key: Style::new().fg(Color::Magenta),
        query_params_value: Style::new().fg(Color::Cyan),
        symbols: Style::new().fg(Color::Red),
    })
}

fn apply(h: &UrlHighlighter, input: &str) -> String {
    let r = h.apply(input.as_bytes());
    convert_escape_codes(bytes_of(r, input.as_bytes()))
}

#[test]
fn test_url_highlighter() {
    let highlighter = make_highlighter();

    let cases = vec![
        (
            "https://www.openai.com/docs/api?apikey=abc123",
            "[white]https[reset]://[green]www.openai.com[reset][blue]/docs/api[reset][red]?[reset][magenta]apikey[reset][red]=[reset][cyan]abc123[reset]",
        ),
        (
            "https://api.example.org/api/v1/users?name=JohnDoe",
            "[white]https[reset]://[green]api.example.org[reset][blue]/api/v1/users[reset][red]?[reset][magenta]name[reset][red]=[reset][cyan]JohnDoe[reset]",
        ),
        (
            "http://example.com/path/to/resource?param1=value1&param2=value2",
            "[yellow]http[reset]://[green]example.com[reset][blue]/path/to/resource[reset][red]?[reset][magenta]param1[reset][red]=[reset][cyan]value1[reset][red]&[reset][magenta]param2[reset][red]=[reset][cyan]value2[reset]",
        ),
    ];

    for (input, expected) in cases {
        assert_eq!(expected, apply(&highlighter, input));
    }
}

#[test]
fn test_url_with_balanced_parens_in_path() {
    let highlighter = make_highlighter();

    let input = "https://en.wikipedia.org/wiki/Foo_(bar)";
    let expected = "[white]https[reset]://[green]en.wikipedia.org[reset][blue]/wiki/Foo_(bar)[reset]";

    assert_eq!(expected, apply(&highlighter, input));
}

#[test]
fn test_url_wrapped_in_parens() {
    let highlighter = make_highlighter();

    let input = "(https://example.com/path)";
    let expected = "([white]https[reset]://[green]example.com[reset][blue]/path[reset])";

    assert_eq!(expected, apply(&highlighter, input));
}

#[test]
fn test_url_with_balanced_parens_wrapped_in_parens() {
    let highlighter = make_highlighter();

    let input = "(https://en.wikipedia.org/wiki/Foo_(bar))";
    let expected = "([white]https[reset]://[green]en.wikipedia.org[reset][blue]/wiki/Foo_(bar)[reset])";

    assert_eq!(expected, apply(&highlighter, input));
}

#[test]
fn test_url_with_query_wrapped_in_parens() {
    let highlighter = make_highlighter();

    let input = "(https://example.com/path?key=value)";
    let expected = "([white]https[reset]://[green]example.com[reset][blue]/path[reset][red]?[reset][magenta]key[reset][red]=[reset][cyan]value[reset])";

    assert_eq!(expected, apply(&highlighter, input));
}

#[test]
fn test_url_not_wrapped_no_parens() {
    let highlighter = make_highlighter();

    let input = "https://example.com/path";
    let expected = "[white]https[reset]://[green]example.com[reset][blue]/path[reset]";

    assert_eq!(expected, apply(&highlighter, input));
}

#[test]
fn test_url_single_quote_not_included() {
    let highlighter = make_highlighter();

    let input = "'https://example.com/path'";
    let expected = "'[white]https[reset]://[green]example.com[reset][blue]/path[reset]'";

    assert_eq!(expected, apply(&highlighter, input));
}

#[test]
fn test_multiple_parenthesized_urls_on_one_line() {
    let highlighter = make_highlighter();

    let input = "(https://a.com) and (https://b.com)";
    let expected = "([white]https[reset]://[green]a.com[reset][blue][reset]) and ([white]https[reset]://[green]b.com[reset][blue][reset])";

    assert_eq!(expected, apply(&highlighter, input));
}

#[test]
fn test_url_with_parens_in_query_string() {
    let highlighter = make_highlighter();

    let input = "https://example.com/api?filter=(name)";
    let expected = "[white]https[reset]://[green]example.com[reset][blue]/api[reset][red]?[reset][magenta]filter[reset][red]=[reset][cyan][reset](name)";

    assert_eq!(expected, apply(&highlighter, input));
}

#[test]
fn test_url_double_wrapped_in_parens() {
    let highlighter = make_highlighter();

    let input = "((https://example.com))";
    let expected = "(([white]https[reset]://[green]example.com[reset][blue][reset]))";

    assert_eq!(expected, apply(&highlighter, input));
}

#[test]
fn test_url_with_nested_parens_in_path() {
    let highlighter = make_highlighter();

    let input = "https://en.wikipedia.org/wiki/Foo_(bar_(baz))";
    let expected = "[white]https[reset]://[green]en.wikipedia.org[reset][blue]/wiki/Foo_(bar_(baz))[reset]";

    assert_eq!(expected, apply(&highlighter, input));
}

#[test]
fn test_count_unbalanced_trailing_parens() {
    assert_eq!(count_unbalanced_trailing_parens("no parens".as_bytes()), 0);
    assert_eq!(count_unbalanced_trailing_parens("/wiki/Foo_(bar)".as_bytes()), 0);
    assert_eq!(count_unbalanced_trailing_parens("https://example.com)".as_bytes()), 1);
    assert_eq!(count_unbalanced_trailing_parens("https://example.com))".as_bytes()), 2);
    assert_eq!(count_unbalanced_trailing_parens("/wiki/Foo_(bar))".as_bytes()), 1);
    assert_eq!(count_unbalanced_trailing_parens("/a_(b)_(c))".as_bytes()), 1);
}

#[test]
fn paren_trim_reappends_original_trailing_text() {
    // re-appending the excluded `)` bytes reproduces the match exactly
    for input in ["/wiki/Foo_(bar))", "https://example.com))", "/a_(b)_(c))", "x)))"] {
        let t = count_unbalanced_trailing_parens(input.as_bytes());
        let mut rebuilt = input.as_bytes()[..input.len() - t].to_vec();
        rebuilt.extend(std::iter::repeat(b')').take(t));
        assert_eq!(rebuilt, input.as_bytes());
    }
}
