use dle_bot::segment::smart_split;

#[test]
fn test_smart_split() {
    let text = "This is a normal string. \
    With some lines too long. And other no so, now I'm going to keep writing because this is important.";
    assert_eq!(
        smart_split(text, 50),
        [
            "This is a normal string.",
            " With some lines too long.",
            " And other no so, now I'm going to keep writing ",
            "because this is important."
        ]
    );
}

#[test]
fn short_text_is_one_chunk() {
    assert_eq!(smart_split("abc", 5), ["abc"]);
    assert_eq!(smart_split("", 5), [""]);
}

#[test]
fn text_of_the_limit_is_cut_and_leaves_an_empty_tail() {
    assert_eq!(smart_split("abcde", 5), ["abcde", ""]);
    assert_eq!(smart_split("aaaa ", 5), ["aaaa ", ""]);
}

#[test]
fn text_without_a_break_is_cut_one_character_behind_the_window() {
    assert_eq!(smart_split("abcdefghi", 3), ["abcd", "efgh", "i"]);
    assert_eq!(smart_split("abcdefghij", 5), ["abcdef", "ghij"]);
    assert_eq!(smart_split("abcdefghijk", 4), ["abcde", "fghij", "k"]);
    assert_eq!(smart_split("abcdef", 3), ["abcd", "ef"]);
}

#[test]
fn hard_cut_takes_the_window_alone_where_the_text_ends_with_it() {
    assert_eq!(smart_split("abcdefg", 3), ["abcd", "efg", ""]);
    assert_eq!(smart_split("ñandúes", 3), ["ñand", "úes", ""]);
    assert_eq!(smart_split("ab", 1), ["ab", ""]);
    assert_eq!(smart_split("a", 1), ["a", ""]);
}

#[test]
fn line_feed_comes_before_sentence_and_sentence_before_space() {
    assert_eq!(smart_split("x. y\nz w", 7), ["x. y\n", "z w"]);
    assert_eq!(smart_split("a\nb c. d e", 6), ["a\n", "b c.", " d e"]);
    assert_eq!(smart_split("Hola. Mundo cruel", 9), ["Hola.", " Mundo ", "cruel"]);
    assert_eq!(smart_split("uno dos tres cuatro", 8), ["uno dos ", "tres ", "cuatro"]);
}

#[test]
fn full_stop_at_the_end_of_the_window_is_no_sentence_end() {
    // The space behind the stop is the first character outside the window:
    // the first chunk ends with the stop at index 3, not with that at 10.
    assert_eq!(smart_split("abc. defgh. ij", 11), ["abc.", " defgh. ij"]);
    // Without another break the cut is hard, and takes that space with it.
    assert_eq!(smart_split("abc. def", 4), ["abc. ", "def"]);
}

#[test]
fn limit_of_one_cuts_behind_every_space_or_second_character() {
    assert_eq!(smart_split("a b", 1), ["a ", "b", ""]);
    assert_eq!(smart_split(" ab", 1), [" ", "ab", ""]);
}

#[test]
fn limit_counts_characters_not_bytes() {
    assert_eq!(
        smart_split("ñandú come maíz en el río", 10),
        ["ñandú ", "come maíz ", "en el río"]
    );
}

#[test]
fn chunks_read_back_to_back_are_the_text() {
    let text = "Del lat. verbum.\n1. m. Palabra. 2. m. Gram. Clase de palabras cuyos elementos \
                pueden tener variación de persona, número, tiempo, modo y aspecto.";
    for limit in 1..60 {
        let chunks = smart_split(text, limit);
        assert_eq!(chunks.concat(), text);
    }
}

#[test]
fn every_chunk_but_the_last_is_within_the_limit_and_one() {
    let text = "Del lat. verbum.\n1. m. Palabra. 2. m. Gram. Clase de palabras cuyos elementos \
                pueden tener variación de persona, número, tiempo, modo y aspecto.";
    for limit in 1..60 {
        let chunks = smart_split(text, limit);
        let (last, others) = chunks.split_last().unwrap();
        for chunk in others {
            let n = chunk.chars().count();
            assert!(1 <= n && n <= limit + 1);
            let window: String = chunk.chars().take(limit).collect();
            if n == limit + 1 {
                assert!(!window.contains('\n') && !window.contains(' '));
            }
        }
        assert!(last.chars().count() < limit);
    }
}
