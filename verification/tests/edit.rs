use dle_bot::edit::{cut_line, replace_first, trim, trim_start};
use dle_bot::text::{chars_of, same_text, slice, stands_at};

#[test]
fn replace_first_takes_the_leftmost_occurrence_only() {
    assert_eq!(replace_first("a-b-c", "-", "+"), "a+b-c");
    assert_eq!(replace_first("aaa", "aa", "b"), "ba");
    assert_eq!(replace_first("abc", "c", ""), "ab");
    assert_eq!(replace_first("abc", "x", "y"), "abc");
    assert_eq!(replace_first("abc", "abcd", "y"), "abc");
    assert_eq!(replace_first("", "a", "b"), "");
    assert_eq!(replace_first("ñandú ñandú", "ñandú", "x"), "x ñandú");
}

#[test]
fn replace_first_of_nothing_puts_the_text_in_front() {
    assert_eq!(replace_first("abc", "", "x"), "xabc");
    assert_eq!(replace_first("", "", "x"), "x");
}

#[test]
fn replace_first_is_what_std_does() {
    let texts = ["", "a", "<i>x</i>", "aXbXXc", "XXX", "abXab", "ñXñ"];
    let patterns = ["", "X", "XX", "ab", "<i>", "ñ", "abXab"];
    for text in texts {
        for pattern in patterns {
            assert_eq!(replace_first(text, pattern, "--"), text.replacen(pattern, "--", 1));
        }
    }
}

#[test]
fn trim_drops_white_space_at_both_ends() {
    assert_eq!(trim("  a b \n"), "a b");
    assert_eq!(trim("a"), "a");
    assert_eq!(trim(""), "");
    assert_eq!(trim(" \t\r\n"), "");
    assert_eq!(trim("\u{a0}ñ\u{3000}"), "ñ");
    assert_eq!(trim("\u{200b}a"), "\u{200b}a");
}

#[test]
fn trim_start_drops_white_space_at_the_head_only() {
    assert_eq!(trim_start("  a b \n"), "a b \n");
    assert_eq!(trim_start("a "), "a ");
    assert_eq!(trim_start(" \n "), "");
    assert_eq!(trim_start(""), "");
}

#[test]
fn trim_is_what_std_does() {
    for text in ["", " ", "a", " a", "a ", "\n\ta b\u{2003}", "\u{85}x\u{feff}", "  ñ  ñ  "] {
        assert_eq!(trim(text), text.trim());
        assert_eq!(trim_start(text), text.trim_start());
    }
}

#[test]
fn cut_line_cuts_at_the_first_line_feed() {
    assert_eq!(cut_line("uno\ndos\ntres"), ("uno", Some("dos\ntres")));
    assert_eq!(cut_line("uno"), ("uno", None));
    assert_eq!(cut_line(""), ("", None));
    assert_eq!(cut_line("\n"), ("", Some("")));
    assert_eq!(cut_line("ñ\nú"), ("ñ", Some("ú")));
}

#[test]
fn slice_counts_characters() {
    assert_eq!(slice("ñandú", 1, 4), "and");
    assert_eq!(slice("ñandú", 0, 5), "ñandú");
    assert_eq!(slice("ñandú", 5, 5), "");
    assert_eq!(chars_of("ñu"), ['ñ', 'u']);
}

#[test]
fn stands_at_looks_at_one_place() {
    let chars = chars_of("abcabc");
    assert!(stands_at(&chars, &chars_of("bc"), 1));
    assert!(stands_at(&chars, &chars_of("bc"), 4));
    assert!(!stands_at(&chars, &chars_of("bc"), 0));
    assert!(!stands_at(&chars, &chars_of("bc"), 5));
    assert!(stands_at(&chars, &chars_of(""), 6));
    assert!(!stands_at(&chars, &chars_of(""), 7));
}

#[test]
fn same_text_compares_characters() {
    assert!(same_text("", ""));
    assert!(same_text("ñu", "ñu"));
    assert!(!same_text("ñu", "nu"));
    assert!(!same_text("a", "ab"));
    assert!(!same_text("ab", "a"));
}
