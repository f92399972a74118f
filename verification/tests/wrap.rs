use dle_bot::wrap::{split_by_whitespace, LineScan};

#[test]
fn wrap_breaks_behind_the_last_space() {
    assert_eq!(
        split_by_whitespace("aaa bbb ccc ddd", 7),
        ["aaa ", "bbb ", "ccc ddd"]
    );
    assert_eq!(
        split_by_whitespace("uno dos tres cuatro cinco", 9),
        ["uno dos ", "tres ", "cuatro ", "cinco"]
    );
}

#[test]
fn short_text_is_one_line() {
    assert_eq!(split_by_whitespace("", 3), [""]);
    assert_eq!(split_by_whitespace("abc", 3), ["abc"]);
    assert_eq!(split_by_whitespace("ab cd", 100), ["ab cd"]);
}

#[test]
fn markers_take_no_room() {
    assert_eq!(
        split_by_whitespace("<b>uno dos</b> tres <i>cuatro</i> cinco", 8),
        ["<b>uno dos</b> ", "tres ", "", "", "<i>cuatro</i> ", "cinco"]
    );
}

#[test]
fn space_inside_a_marker_ends_no_line() {
    assert_eq!(
        split_by_whitespace("uno <a href=\"x y\">dos tres</a> cuatro", 7),
        ["uno ", "<a href=\"x y\">dos ", "tres</a> ", "cuatro"]
    );
}

#[test]
fn closing_bracket_alone_is_shown() {
    assert_eq!(
        split_by_whitespace("a > b c d e f", 4),
        ["a > ", "b c ", "d e ", "f"]
    );
}

#[test]
fn text_without_a_space_is_left_in_the_last_line() {
    assert_eq!(split_by_whitespace("abcd", 3), ["a", "bcd"]);
    assert_eq!(
        split_by_whitespace("aaaaaaaaaa", 3),
        ["a", "", "", "", "", "", "", "aaaaaaaaa"]
    );
}

#[test]
fn text_that_begins_with_a_space() {
    assert_eq!(
        split_by_whitespace(" hola mundo", 4),
        [" ", "", "hola ", "", "mundo"]
    );
}

#[test]
fn width_counts_characters_not_bytes() {
    assert_eq!(split_by_whitespace("ñu ñu ñu ñu", 5), ["ñu ", "ñu ", "ñu ñu"]);
}

#[test]
fn lines_read_back_to_back_are_the_text() {
    let text = "Del lat. <i>verbum</i> 'palabra', y este del gr. <b>λόγος</b> lógos; cf. <u>verbo</u>.";
    for width in 1..40 {
        assert_eq!(split_by_whitespace(text, width).concat(), text);
    }
}

#[test]
fn lines_of_plain_text_show_the_text() {
    let text = "en un lugar de la Mancha, de cuyo nombre no quiero acordarme";
    for width in 1..30 {
        let shown: String = split_by_whitespace(text, width)
            .concat()
            .chars()
            .filter(|c| *c != '<' && *c != '>')
            .collect();
        assert_eq!(shown, text);
    }
}

#[test]
fn scan_flushes_on_the_character_past_the_width() {
    let mut scan = LineScan::new();
    assert_eq!(scan.feed(0, 'a', 2), None);
    assert_eq!(scan.feed(1, ' ', 2), None);
    assert_eq!(scan.feed(2, 'b', 2), Some((0, 2)));
    assert_eq!(scan.cursor, 2);
    assert_eq!(scan.last_space_pos, 1);
    assert_eq!(scan.count, 1);
    assert!(!scan.open);
    assert_eq!(scan.feed(3, '<', 2), None);
    assert!(scan.open);
    assert_eq!(scan.feed(4, 'i', 2), None);
    assert_eq!(scan.count, 1);
    assert_eq!(scan.feed(5, '>', 2), None);
    assert!(!scan.open);
}
