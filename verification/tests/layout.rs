use dle_bot::layout::{
    background_color, font_color, heading, lines_of_picture, BG_COLORS_LENGTH,
    MAX_CHARACTERS_IN_LINE,
};

#[test]
fn heading_is_the_name_and_the_second_line() {
    let found = heading("verbo\nDel lat. verbum.\n1. m. palabra.").unwrap();
    assert_eq!(found.lemma, "verbo");
    assert_eq!(found.etymology, "Del lat. verbum.");
}

#[test]
fn heading_passes_over_an_empty_second_line() {
    let found = heading("  \n palabra \n\n Del lat. <i>parabola</i>. \n1. f. Unidad").unwrap();
    assert_eq!(found.lemma, "palabra");
    assert_eq!(found.etymology, "Del lat. <i>parabola</i>.");
}

#[test]
fn heading_takes_the_third_line_as_it_is_when_the_second_is_empty() {
    let found = heading("palabra\n \n\nresto").unwrap();
    assert_eq!(found.etymology, "");
}

#[test]
fn heading_turns_the_tags_of_the_name_into_spans() {
    let found = heading("<b>verbo</b>\nDel lat.").unwrap();
    assert_eq!(found.lemma, "<tspan style=\"font-weight:bold\">verbo</tspan>");
}

#[test]
fn heading_needs_its_lines() {
    assert!(heading("").is_none());
    assert!(heading("verbo").is_none());
    assert!(heading("verbo\n").is_none());
    assert!(heading("verbo\n  ").is_none());
    assert!(heading("verbo\n\n").is_some());
}

#[test]
fn picture_has_lines_of_eighty_characters() {
    assert_eq!(MAX_CHARACTERS_IN_LINE, 80);
    let text = "Del lat. <i>parabola</i> 'comparación', 'proverbio', y este del gr. <b>παραβολή parabolḗ que cruza la línea</b> y sigue.";
    assert_eq!(
        lines_of_picture(text),
        [
            "Del lat. <tspan style=\"font-style:italic\">parabola</tspan> 'comparación', 'proverbio', y este del gr. <tspan style=\"font-weight:bold\">παραβολή parabolḗ </tspan>",
            "<tspan style=\"font-weight:bold\">que cruza la línea</tspan> y sigue."
        ]
    );
}

#[test]
fn short_text_is_one_line_of_a_picture() {
    assert_eq!(lines_of_picture("Del lat. <i>verbum</i>."), ["Del lat. <tspan style=\"font-style:italic\">verbum</tspan>."]);
    assert_eq!(lines_of_picture(""), [""]);
}

#[test]
fn backgrounds_are_eight_of_each_kind() {
    assert_eq!(BG_COLORS_LENGTH, 8);
    let light = ["#f9b5b5", "#9cf2dc", "#9becf2", "#6ab6e9", "#cabff9", "#dbb3ef", "#f2cdea", "#f99daf"];
    let dark = ["#602323", "#187f65", "#1a5055", "#1a4563", "#312569", "#5b3171", "#633057", "#652e39"];
    for index in 0..BG_COLORS_LENGTH {
        assert_eq!(background_color(false, index), light[index]);
        assert_eq!(background_color(true, index), dark[index]);
    }
    assert_eq!(font_color(true), "#ffffff");
    assert_eq!(font_color(false), "#000000");
}
