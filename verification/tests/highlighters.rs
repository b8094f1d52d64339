use tailglow::config::{IpV6Config, KeyValueConfig, PointerConfig, UnixProcessConfig, UuidConfig};
use tailglow::highlight::HighlightResult;
use tailglow::highlighters::ip_v6::IpV6Highlighter;
use tailglow::highlighters::key_value::KeyValueHighlighter;
use tailglow::highlighters::pointer::PointerHighlighter;
use tailglow::highlighters::unix_process::UnixProcessHighlighter;
use tailglow::highlighters::uuid::UuidHighlighter;
use tailglow::style::{Color, Style};

fn convert_escape_codes(out: Vec<u8>) -> String {
    String::from_utf8(out)
        .unwrap()
        .replace("\x1b[31m", "[red]")
        .replace("\x1b[32m", "[green]")
        .replace("\x1b[33m", "[yellow]")
        .replace("\x1b[34m", "[blue]")
        .replace("\x1b[35m", "[magenta]")
        .replace("\x1b[36m", "[cyan]")
        .replace("\x1b[37m", "[white]")
        .replace("\x1b[0m", "[reset]")
}

fn bytes_of(r: HighlightResult, input: &[u8]) -> Vec<u8> {
    match r {
        HighlightResult::Unchanged => input.to_vec(),
        HighlightResult::Highlighted(v) => v,
    }
}

#[test]
fn test_ip_v6_highlighter() {
    let highlighter = IpV6Highlighter::new(IpV6Config {
        number: Style::new().fg(Color::Blue),
        letter: Style::new().fg(Color::Yellow),
        separator: Style::new().fg(Color::Red),
    });

    let cases = vec![
        (
            "2001:db8:0:0:0:ff00:42:8329",
            "[blue]2[reset][blue]0[reset][blue]0[reset][blue]1[reset][red]:[reset][yellow]d[reset][yellow]b[reset][blue]8[reset][red]:[reset][blue]0[reset][red]:[reset][blue]0[reset][red]:[reset][blue]0[reset][red]:[reset][yellow]f[reset][yellow]f[reset][blue]0[reset][blue]0[reset][red]:[reset][blue]4[reset][blue]2[reset][red]:[reset][blue]8[reset][blue]3[reset][blue]2[reset][blue]9[reset]",
        ),
        (
            "2001:db8::ff00:42:8329",
            "[blue]2[reset][blue]0[reset][blue]0[reset][blue]1[reset][red]:[reset][yellow]d[reset][yellow]b[reset][blue]8[reset][red]:[reset][red]:[reset][yellow]f[reset][yellow]f[reset][blue]0[reset][blue]0[reset][red]:[reset][blue]4[reset][blue]2[reset][red]:[reset][blue]8[reset][blue]3[reset][blue]2[reset][blue]9[reset]",
        ),
        ("::1", "[red]:[reset][red]:[reset][blue]1[reset]"),
        (
            "2001:db8:85a3::8a2e:192.0.2.33",
            "[blue]2[reset][blue]0[reset][blue]0[reset][blue]1[reset][red]:[reset][yellow]d[reset][yellow]b[reset][blue]8[reset][red]:[reset][blue]8[reset][blue]5[reset][yellow]a[reset][blue]3[reset][red]:[reset][red]:[reset][blue]8[reset][yellow]a[reset][blue]2[reset][yellow]e[reset][red]:[reset][blue]1[reset][blue]9[reset][blue]2[reset][red].[reset][blue]0[reset][red].[reset][blue]2[reset][red].[reset][blue]3[reset][blue]3[reset]",
        ),
        (
            "::ffff:127.0.0.1",
            "[red]:[reset][red]:[reset][yellow]f[reset][yellow]f[reset][yellow]f[reset][yellow]f[reset][red]:[reset][blue]1[reset][blue]2[reset][blue]7[reset][red].[reset][blue]0[reset][red].[reset][blue]0[reset][red].[reset][blue]1[reset]",
        ),
        (
            "fe80::/10",
            "[yellow]f[reset][yellow]e[reset][blue]8[reset][blue]0[reset][red]:[reset][red]:[reset][red]/[reset][blue]10[reset]",
        ),
        ("Not ipv4: 192.168.0.1", "Not ipv4: 192.168.0.1"),
        ("11:47:39:850", "11:47:39:850"),
        ("123/234/345/456", "123/234/345/456"),
    ];

    for (input, expected) in cases {
        let actual = highlighter.apply(input.as_bytes());
        let actual = bytes_of(actual, input.as_bytes());
        assert_eq!(expected, convert_escape_codes(actual));
    }
}

#[test]
fn test_number_highlighter() {
    let highlighter = KeyValueHighlighter::new(KeyValueConfig {
        key: Style::new().fg(Color::Red),
        separator: Style::new().fg(Color::Yellow),
    });

    let cases = vec![
        ("Entry key=value", "Entry [red]key[reset][yellow]=[reset]value"),
        ("No numbers here!", "No numbers here!"),
    ];

    for (input, expected) in cases {
        let actual = highlighter.apply(input.as_bytes());
        let actual = bytes_of(actual, input.as_bytes());
        assert_eq!(expected, convert_escape_codes(actual));
    }
}

#[test]
fn test_pointer_highlighter() {
    let highlighter = PointerHighlighter::new(PointerConfig {
        number: Style::new().fg(Color::Blue),
        letter: Style::new().fg(Color::Magenta),
        separator: Style::new().fg(Color::Green),
        separator_token: "\u{2022}".as_bytes().to_vec(),
        x: Style::new().fg(Color::Red),
    });

    let cases = vec![
        (
            "0x8c2a0aeb",
            "[blue]0[reset][red]x[reset][blue]8[reset][magenta]c[reset][blue]2[reset][magenta]a[reset][blue]0[reset][magenta]a[reset][magenta]e[reset][magenta]b[reset]",
        ),
        (
            "0xd7b3b2f446e2c21b",
            "[blue]0[reset][red]x[reset][magenta]d[reset][blue]7[reset][magenta]b[reset][blue]3[reset][magenta]b[reset][blue]2[reset][magenta]f[reset][blue]4[reset][green]\u{2022}[reset][blue]4[reset][blue]6[reset][magenta]e[reset][blue]2[reset][magenta]c[reset][blue]2[reset][blue]1[reset][magenta]b[reset]",
        ),
        ("No numbers here!", "No numbers here!"),
    ];

    for (input, expected) in cases {
        let actual = highlighter.apply(input.as_bytes());
        let actual = bytes_of(actual, input.as_bytes());
        assert_eq!(expected, convert_escape_codes(actual));
    }
}

#[test]
fn test_unix_process_highlighter() {
    let highlighter = UnixProcessHighlighter::new(UnixProcessConfig {
        name: Style::new().fg(Color::Magenta),
        id: Style::new().fg(Color::Green),
        bracket: Style::new().fg(Color::Blue),
    });

    let cases = vec![
        (
            "process[1]",
            "[magenta]process[reset][blue][[reset][green]1[reset][blue]][reset]",
        ),
        (
            "postfix/postscreen[1894]: CONNECT from [192.168.1.22]:12345 to [127.0.0.1]:25",
            "[magenta]postfix/postscreen[reset][blue][[reset][green]1894[reset][blue]][reset]: CONNECT from [192.168.1.22]:12345 to [127.0.0.1]:25",
        ),
        ("No process here!", "No process here!"),
    ];

    for (input, expected) in cases {
        let actual = highlighter.apply(input.as_bytes());
        let actual = bytes_of(actual, input.as_bytes());
        assert_eq!(expected, convert_escape_codes(actual));
    }
}

#[test]
fn test_uuid_highlighter() {
    let highlighter = UuidHighlighter::new(UuidConfig {
        number: Style::new().fg(Color::Cyan),
        letter: Style::new().fg(Color::Yellow),
        dash: Style::new().fg(Color::Red),
    });

    let cases = vec![
        (
            "The UUID is 123e4567-e89b-12d3-a456-426614174000.",
            "The UUID is [cyan]1[reset][cyan]2[reset][cyan]3[reset][yellow]e[reset][cyan]4[reset][cyan]5[reset][cyan]6[reset][cyan]7[reset][red]-[reset][yellow]e[reset][cyan]8[reset][cyan]9[reset][yellow]b[reset][red]-[reset][cyan]1[reset][cyan]2[reset][yellow]d[reset][cyan]3[reset][red]-[reset][yellow]a[reset][cyan]4[reset][cyan]5[reset][cyan]6[reset][red]-[reset][cyan]4[reset][cyan]2[reset][cyan]6[reset][cyan]6[reset][cyan]1[reset][cyan]4[reset][cyan]1[reset][cyan]7[reset][cyan]4[reset][cyan]0[reset][cyan]0[reset][cyan]0[reset].",
        ),
        (
            "Another UUID is f47ac10b-58cc-4372-a567-0e02b2c3d479.",
            "Another UUID is [yellow]f[reset][cyan]4[reset][cyan]7[reset][yellow]a[reset][yellow]c[reset][cyan]1[reset][cyan]0[reset][yellow]b[reset][red]-[reset][cyan]5[reset][cyan]8[reset][yellow]c[reset][yellow]c[reset][red]-[reset][cyan]4[reset][cyan]3[reset][cyan]7[reset][cyan]2[reset][red]-[reset][yellow]a[reset][cyan]5[reset][cyan]6[reset][cyan]7[reset][red]-[reset][cyan]0[reset][yellow]e[reset][cyan]0[reset][cyan]2[reset][yellow]b[reset][cyan]2[reset][yellow]c[reset][cyan]3[reset][yellow]d[reset][cyan]4[reset][cyan]7[reset][cyan]9[reset].",
        ),
        ("No UUID here!", "No UUID here!"),
    ];

    for (input, expected) in cases {
        let actual = highlighter.apply(input.as_bytes());
        let actual = bytes_of(actual, input.as_bytes());
        assert_eq!(expected, convert_escape_codes(actual));
    }
}
