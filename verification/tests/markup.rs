use dle_bot::markup::{read_tokens, Span};
use dle_bot::text::is_space;
use regex::Regex;

fn spans(line: &str) -> Vec<(bool, usize, usize)> {
    let chars: Vec<char> = line.chars().collect();
    read_tokens(&chars)
        .iter()
        .map(|span| (span.open, span.from, span.to))
        .collect()
}

fn pattern_spans(line: &str) -> Vec<(bool, usize, usize)> {
    let re = Regex::new(r#"(?P<open><tspan\s.+?>)|(?P<close></tspan>)"#).unwrap();
    re.captures_iter(line)
        .map(|capture| {
            let whole = capture.get(0).unwrap();
            (
                capture.name("open").is_some(),
                line[..whole.start()].chars().count(),
                line[..whole.end()].chars().count(),
            )
        })
        .collect()
}

#[test]
fn opening_and_closing_markers_are_read() {
    assert_eq!(spans("<tspan a>x</tspan>"), [(true, 0, 9), (false, 10, 18)]);
    assert_eq!(spans("</tspan></tspan>"), [(false, 0, 8), (false, 8, 16)]);
    assert_eq!(spans("plain text"), []);
    assert_eq!(spans(""), []);
}

#[test]
fn span_holds_its_place() {
    let chars: Vec<char> = "a<tspan b>".chars().collect();
    assert_eq!(read_tokens(&chars), [Span { open: true, from: 1, to: 10 }]);
}

#[test]
fn opening_marker_needs_white_space_and_an_attribute() {
    assert_eq!(spans("<tspan>"), []);
    assert_eq!(spans("<tspan "), []);
    assert_eq!(spans("<tspan a"), []);
    assert_eq!(spans("<tspan  >"), [(true, 0, 9)]);
    assert_eq!(spans("<tspan >>"), [(true, 0, 9)]);
    assert_eq!(spans("<tspan\ta=\"1\">"), [(true, 0, 13)]);
    assert_eq!(spans("<tspan\u{a0}b>c"), [(true, 0, 9)]);
}

#[test]
fn opening_marker_ends_on_its_line() {
    assert_eq!(spans("<tspan a\n>"), []);
    assert_eq!(spans("<tspan \n>"), []);
    assert_eq!(spans("<tspan a>\n<tspan b>"), [(true, 0, 9), (true, 10, 19)]);
}

#[test]
fn marker_begins_only_behind_the_marker_before() {
    assert_eq!(spans("<tspan x<tspan y>z</tspan>"), [(true, 0, 17), (false, 18, 26)]);
    assert_eq!(spans("<tspan </tspan>"), [(true, 0, 15)]);
    assert_eq!(spans("</tspa</tspan>"), [(false, 6, 14)]);
    assert_eq!(spans("< /tspan>"), []);
}

#[test]
fn places_count_characters() {
    assert_eq!(spans("<tspan a=\"ñ\">ü</tspan>"), [(true, 0, 13), (false, 14, 22)]);
}

#[test]
fn markers_are_those_of_the_pattern() {
    let lines = [
        "<tspan a>x</tspan>",
        "<tspan >>",
        "<tspan\ta=\"1\">",
        "<tspan>",
        "<tspan ",
        "<tspan a",
        "<tspan a\n>",
        "<tspan \n>",
        "<tspan  >",
        "<tspan x<tspan y>z</tspan>",
        "</tspan></tspan>",
        "< /tspan>",
        "<tspan\u{a0}b>c",
        "<tspan\u{2003}b>c",
        "<tspan\u{200b}b>c",
        "<tspan\u{3000}b>c",
        "<tspan\u{85}b>c",
        "<tspan\rb>c",
        "<tspan\u{b}b>\u{c}c",
        "</tspa</tspan>",
        "<tspan a=\"ñ\">ü</tspan>",
        "<tspan a>\n<tspan b>",
        "<tspan </tspan>",
        "<<tspan a>>",
        "<tspan\n a>",
        "<tspan style=\"font-style:italic\">verbum </tspan>",
        "Del lat. <tspan style=\"font-weight:bold\">caro</tspan> y <tspan text-decoration=\"underline\">x",
        "<TSPAN a></TSPAN>",
        "<tspan a></tspan",
    ];
    for line in lines {
        assert_eq!(spans(line), pattern_spans(line), "{:?}", line);
    }
}

#[test]
fn white_space_is_what_unicode_says() {
    for c in ['\t', '\n', '\u{b}', '\u{c}', '\r', ' ', '\u{85}', '\u{a0}', '\u{1680}', '\u{2000}',
        '\u{200a}', '\u{2028}', '\u{2029}', '\u{202f}', '\u{205f}', '\u{3000}']
    {
        assert!(is_space(c), "{:?}", c);
    }
    for c in ['a', '<', '>', '\u{8}', '\u{e}', '\u{1f}', '!', '\u{84}', '\u{86}', '\u{9f}',
        '\u{a1}', '\u{180e}', '\u{1fff}', '\u{200b}', '\u{2027}', '\u{202a}', '\u{2060}',
        '\u{3001}', '\u{feff}']
    {
        assert!(!is_space(c), "{:?}", c);
    }
    for n in 0..0x3100u32 {
        if let Some(c) = char::from_u32(n) {
            assert_eq!(is_space(c), c.is_whitespace(), "{:?}", c);
        }
    }
}
