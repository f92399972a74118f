use dle_bot::edit::replace;
use dle_bot::svg::convert_html_tags_to_svg;

#[test]
fn every_emphasis_tag_becomes_a_span() {
    assert_eq!(
        convert_html_tags_to_svg(
            "<i>a</i> <em>b</em> <b>c</b> <strong>d</strong> <u>e</u> <ins>f</ins> <a>g</a> <I>h</I>"
        ),
        "<tspan style=\"font-style:italic\">a</tspan> <tspan style=\"font-style:italic\">b</tspan> \
         <tspan style=\"font-weight:bold\">c</tspan> <tspan style=\"font-weight:bold\">d</tspan> \
         <tspan text-decoration=\"underline\">e</tspan> <tspan text-decoration=\"underline\">f</tspan> \
         <a>g</a> <I>h</I>"
    );
}

#[test]
fn text_without_tags_is_kept() {
    assert_eq!(convert_html_tags_to_svg(""), "");
    assert_eq!(convert_html_tags_to_svg("murciélago < 3 > 2"), "murciélago < 3 > 2");
}

#[test]
fn replace_takes_occurrences_from_the_left_without_overlap() {
    assert_eq!(replace("aaa", "aa", "b"), "ba");
    assert_eq!(replace("aaaa", "aa", "b"), "bb");
    assert_eq!(replace("abcabc", "bc", ""), "aa");
    assert_eq!(replace("abc", "abcd", "x"), "abc");
    assert_eq!(replace("abc", "c", "cc"), "abcc");
    assert_eq!(replace("", "a", "b"), "");
    assert_eq!(replace("ñañ", "ñ", "n"), "nan");
}

#[test]
fn replace_of_nothing_puts_the_text_around_every_character() {
    assert_eq!(replace("ab", "", "-"), "-a-b-");
    assert_eq!(replace("", "", "-"), "-");
}

#[test]
fn replace_is_what_std_does() {
    let texts = ["", "a", "<i>x</i>", "aXbXXc", "XXX", "abXab", "ñXñ"];
    let patterns = ["", "X", "XX", "ab", "<i>", "ñ", "abXab"];
    for text in texts {
        for pattern in patterns {
            assert_eq!(replace(text, pattern, "--"), text.replace(pattern, "--"));
        }
    }
}
