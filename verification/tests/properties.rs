use tailglow::config::{
    IpV6Config, KeyValueConfig, NumberConfig, PointerConfig, QuotesConfig, UnixProcessConfig,
    UrlConfig, UuidConfig,
};
use tailglow::highlight::HighlightResult;
use tailglow::highlighters::ip_v6::{is_strict_ipv6, IpV6Highlighter};
use tailglow::highlighters::key_value::KeyValueHighlighter;
use tailglow::highlighters::number::NumberHighlighter;
use tailglow::highlighters::pointer::PointerHighlighter;
use tailglow::highlighters::quote::QuoteHighlighter;
use tailglow::highlighters::unix_process::UnixProcessHighlighter;
use tailglow::highlighters::Highlighter;
use tailglow::io_control::{
    complete_line, detects_truncation, get_io_and_presenter, split_lines, Config, FileInfo,
    FileReader, Input, Output, PresenterImpl, ReadStep, Reader, Writer,
};
use tailglow::pipeline::HighlightPipeline;
use tailglow::style::{Color, Style};

fn bytes_of(r: &HighlightResult, input: &[u8]) -> Vec<u8> {
    match r {
        HighlightResult::Unchanged => input.to_vec(),
        HighlightResult::Highlighted(v) => v.clone(),
    }
}

fn sample_pipeline() -> HighlightPipeline {
    let mut p = HighlightPipeline::new();
    p.push_stage(
        Highlighter::Uuid(tailglow::highlighters::uuid::UuidHighlighter::new(UuidConfig {
            number: Style::new().fg(Color::Cyan),
            letter: Style::new().fg(Color::Yellow),
            dash: Style::new().fg(Color::Red),
        })),
        true,
    );
    p.push_stage(
        Highlighter::IpV6(IpV6Highlighter::new(IpV6Config {
            number: Style::new().fg(Color::Blue),
            letter: Style::new().fg(Color::Yellow),
            separator: Style::new().fg(Color::Red),
        })),
        true,
    );
    p.push_stage(
        Highlighter::Pointer(PointerHighlighter::new(PointerConfig {
            number: Style::new().fg(Color::Blue),
            letter: Style::new().fg(Color::Magenta),
            separator: Style::new().fg(Color::Green),
            separator_token: "\u{2022}".as_bytes().to_vec(),
            x: Style::new().fg(Color::Red),
        })),
        true,
    );
    p.push_stage(
        Highlighter::UnixProcess(UnixProcessHighlighter::new(UnixProcessConfig {
            name: Style::new().fg(Color::Magenta),
            id: Style::new().fg(Color::Green),
            bracket: Style::new().fg(Color::Blue),
        })),
        true,
    );
    p.push_stage(
        Highlighter::Url(tailglow::highlighters::url::UrlHighlighter::new(UrlConfig {
            http: Style::new().fg(Color::Yellow),
            https: Style::new().fg(Color::White),
            host: Style::new().fg(Color::Green),
            path: Style::new().fg(Color::Blue),
            query_params_key: Style::new().fg(Color::Magenta),
            query_params_value: Style::new().fg(Color::Cyan),
            symbols: Style::new().fg(Color::Red),
        })),
        true,
    );
    p.push_stage(
        Highlighter::KeyValue(KeyValueHighlighter::new(KeyValueConfig {
            key: Style::new().fg(Color::Red),
            separator: Style::new().fg(Color::Yellow),
        })),
        true,
    );
    p.push_stage(
        Highlighter::Number(NumberHighlighter::new(NumberConfig {
            style: Style::new().fg(Color::Cyan),
        })),
        true,
    );
    p.push_stage(
        Highlighter::Quote(QuoteHighlighter::new(QuotesConfig {
            quotes_token: b'"',
            style: Style::new().fg(Color::Yellow),
        })),
        true,
    );
    p
}

#[test]
fn wrapped_pipeline_applied_twice_equals_once() {
    // idempotence of the escape-aware wrapper over a whole pipeline
    let p = sample_pipeline();
    let lines = [
        "2001:db8::ff00:42:8329 seen at 0x8c2a0aeb by process[42]",
        "GET https://example.com/Foo_(bar)) count=7 \"quoted 99\"",
        "The UUID is 123e4567-e89b-12d3-a456-426614174000.",
        "plain text with nothing to color",
    ];
    for line in lines {
        let once = p.apply(line.as_bytes());
        let once_bytes = bytes_of(&once, line.as_bytes());
        let twice = p.apply(&once_bytes);
        assert_eq!(bytes_of(&twice, &once_bytes), once_bytes);
    }
}

#[test]
fn passthrough_returns_the_exact_input_without_allocating() {
    // a line with none of a highlighter's trigger tokens passes through as
    // `Unchanged`: the identity, not merely an equal copy
    let ipv6 = IpV6Highlighter::new(IpV6Config {
        number: Style::new().fg(Color::Blue),
        letter: Style::new().fg(Color::Yellow),
        separator: Style::new().fg(Color::Red),
    });
    assert!(matches!(ipv6.apply(b"no colon here 1.2.3.4"), HighlightResult::Unchanged));

    let kv = KeyValueHighlighter::new(KeyValueConfig {
        key: Style::new().fg(Color::Red),
        separator: Style::new().fg(Color::Yellow),
    });
    assert!(matches!(kv.apply(b"no equals sign"), HighlightResult::Unchanged));

    let ptr = PointerHighlighter::new(PointerConfig {
        number: Style::new().fg(Color::Blue),
        letter: Style::new().fg(Color::Magenta),
        separator: Style::new().fg(Color::Green),
        separator_token: b"-".to_vec(),
        x: Style::new().fg(Color::Red),
    });
    assert!(matches!(ptr.apply(b"0b101 and 0o17 only"), HighlightResult::Unchanged));

    let proc = UnixProcessHighlighter::new(UnixProcessConfig {
        name: Style::new().fg(Color::Magenta),
        id: Style::new().fg(Color::Green),
        bracket: Style::new().fg(Color::Blue),
    });
    assert!(matches!(proc.apply(b"no bracket 123"), HighlightResult::Unchanged));

    let num = NumberHighlighter::new(NumberConfig { style: Style::new().fg(Color::Cyan) });
    assert!(matches!(num.apply(b"letters only"), HighlightResult::Unchanged));
}

#[test]
fn strict_ipv6_validation_round_trip() {
    // accepted shapes
    for s in [
        "2001:db8:0:0:0:ff00:42:8329",
        "2001:db8::ff00:42:8329",
        "::1",
        "::",
        "fe80::",
        "1:2:3:4:5:6:7:8",
        "1:2:3:4:5:6:7::",
        "::ffff:127.0.0.1",
        "2001:db8:85a3::8a2e:192.0.2.33",
        "1:2:3:4:5:6:1.2.3.4",
    ] {
        assert!(is_strict_ipv6(s.as_bytes()), "{s} should validate");
    }
    // rejected shapes
    for s in [
        "",
        ":",
        "11:47:39:850",
        "192.168.0.1",
        "1:2:3:4:5:6:7:8:9",
        "1:2:3:4:5:6:7::8",
        "1::2::3",
        "12345::",
        "::ffff:127.00.0.1",
        "::ffff:256.0.0.1",
        "1.2.3.4::",
        "123",
    ] {
        assert!(!is_strict_ipv6(s.as_bytes()), "{s} should not validate");
    }

    // a candidate accepted by strict parsing is colored; an equally shaped
    // candidate rejected by it comes back with zero styling codes inserted
    let ipv6 = IpV6Highlighter::new(IpV6Config {
        number: Style::new().fg(Color::Blue),
        letter: Style::new().fg(Color::Yellow),
        separator: Style::new().fg(Color::Red),
    });
    let accepted = ipv6.apply(b"::1");
    let accepted = bytes_of(&accepted, b"::1");
    assert!(accepted.windows(2).any(|w| w == b"\x1b["));
    let rejected = ipv6.apply(b"11:47:39:850");
    let rejected = bytes_of(&rejected, b"11:47:39:850");
    assert_eq!(rejected, b"11:47:39:850");
}

#[test]
fn quote_parity_scenarios() {
    let q = QuoteHighlighter::new(QuotesConfig {
        quotes_token: b'"',
        style: Style::new().fg(Color::Yellow),
    });
    // even, nonzero count: every byte between the quotes is wrapped in the
    // quote styling
    let out = q.apply(b"say \"hi\" now");
    let out = bytes_of(&out, b"say \"hi\" now");
    assert_eq!(out, b"say \x1b[33m\"hi\"\x1b[0m now".to_vec());
    // odd count: output equals input exactly
    let odd = q.apply(b"say \"hi now");
    assert!(matches!(odd, HighlightResult::Unchanged));
    // embedded color: reset is followed by re-assertion of the quote color
    let input = b"\"a \x1b[31mr\x1b[0m b\"".to_vec();
    let out = q.apply(&input);
    let out = bytes_of(&out, &input);
    assert_eq!(out, b"\x1b[33m\"a \x1b[31mr\x1b[0m\x1b[33m b\"\x1b[0m".to_vec());
}

#[test]
fn process_scenario() {
    let proc = UnixProcessHighlighter::new(UnixProcessConfig {
        name: Style::new().fg(Color::Magenta),
        id: Style::new().fg(Color::Green),
        bracket: Style::new().fg(Color::Blue),
    });
    let out = proc.apply(b"process[1]");
    let out = bytes_of(&out, b"process[1]");
    assert_eq!(
        out,
        b"\x1b[35mprocess\x1b[0m\x1b[34m[\x1b[0m\x1b[32m1\x1b[0m\x1b[34m]\x1b[0m".to_vec()
    );
}

#[test]
fn io_plan_follows_configuration() {
    let (io, presenter) = get_io_and_presenter(Config {
        input: Input::File(FileInfo { path: "app.log".to_string(), line_count: 12 }),
        output: Output::Less,
        follow: true,
        start_at_end: false,
    });
    assert!(matches!(io.reader, Reader::Linemux { .. }));
    if let Reader::Linemux { path, line_count, start_at_end } = io.reader {
        assert_eq!(path, "app.log");
        assert_eq!(line_count, 12);
        assert!(!start_at_end);
    }
    assert!(matches!(io.writer, Writer::TempFile));
    assert!(matches!(presenter.presenter, PresenterImpl::Less { follow: true }));

    let (io, presenter) = get_io_and_presenter(Config {
        input: Input::Stdin,
        output: Output::Stdout,
        follow: false,
        start_at_end: false,
    });
    assert!(matches!(io.reader, Reader::Stdin));
    assert!(matches!(io.writer, Writer::Stdout));
    assert!(matches!(presenter.presenter, PresenterImpl::NoPresenter));

    let (io, presenter) = get_io_and_presenter(Config {
        input: Input::Command("journalctl -f".to_string()),
        output: Output::CustomPager("bat".to_string()),
        follow: false,
        start_at_end: true,
    });
    assert!(matches!(io.reader, Reader::Command { .. }));
    assert!(matches!(io.writer, Writer::TempFile));
    assert!(matches!(presenter.presenter, PresenterImpl::CustomPager { .. }));
}

#[test]
fn file_reader_event_order() {
    let mut r = FileReader::new(vec!["line1".to_string(), "line2".to_string()], false);
    match r.advance() {
        ReadStep::DeliverLines(lines) => assert_eq!(lines, vec!["line1", "line2"]),
        _ => panic!("expected the initial lines first"),
    }
    assert!(matches!(r.advance(), ReadStep::DeliverStarted));
    assert!(matches!(r.advance(), ReadStep::AwaitLine));
    assert!(matches!(r.advance(), ReadStep::AwaitLine));

    let mut once = FileReader::new(vec!["only_line".to_string()], true);
    assert!(matches!(once.advance(), ReadStep::DeliverLines(_)));
    assert!(matches!(once.advance(), ReadStep::DeliverStarted));
    assert!(matches!(once.advance(), ReadStep::DeliverEnded));
}

#[test]
fn line_splitting_rules() {
    let lines = split_lines(b"line1\nline2\nline3\n");
    assert_eq!(lines, vec![b"line1".to_vec(), b"line2".to_vec(), b"line3".to_vec()]);

    // empty file: no lines
    assert_eq!(split_lines(b""), Vec::<Vec<u8>>::new());

    // no trailing newline: the final fragment is a line of its own
    assert_eq!(split_lines(b"line1\nline2"), vec![b"line1".to_vec(), b"line2".to_vec()]);

    // carriage returns before newlines are stripped
    assert_eq!(split_lines(b"line1\r\nline2\r\n"), vec![b"line1".to_vec(), b"line2".to_vec()]);

    // an empty line between newlines is kept
    assert_eq!(split_lines(b"a\n\nb"), vec![b"a".to_vec(), b"".to_vec(), b"b".to_vec()]);
}

#[test]
fn complete_line_extraction() {
    assert_eq!(complete_line(&b"partial".to_vec()), None);
    assert_eq!(complete_line(&b"".to_vec()), None);
    assert_eq!(complete_line(&b"done\n".to_vec()), Some(b"done".to_vec()));
    assert_eq!(complete_line(&b"done\r\n".to_vec()), Some(b"done".to_vec()));
}

#[test]
fn truncation_rule() {
    assert!(detects_truncation(10, 20));
    assert!(!detects_truncation(20, 20));
    assert!(!detects_truncation(30, 20));
}

#[test]
fn pipeline_zero_copy_on_plain_lines() {
    let p = sample_pipeline();
    let r = p.apply(b"plain words only");
    assert!(matches!(r, HighlightResult::Unchanged));
}

#[test]
fn bold_styles_render_with_attribute_code() {
    let num = NumberHighlighter::new(NumberConfig {
        style: Style::new().fg(Color::Cyan).bold(),
    });
    let out = num.apply(b"n 42");
    let out = bytes_of(&out, b"n 42");
    assert_eq!(out, b"n \x1b[1;36m42\x1b[0m".to_vec());
}
