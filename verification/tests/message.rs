use dle_bot::message::{
    corrected_messages, deep_link, definition_messages, inline_parts, link, picture_caption,
    similar_words, word_of_the_day_message, DESUBS_CALLBACK_DATA, MAX_MASSAGE_LENGTH,
    MAX_WOTD_LENGTH, SUBS_CALLBACK_DATA,
};

#[test]
fn constants_are_those_of_the_transport() {
    assert_eq!(MAX_MASSAGE_LENGTH, 4096);
    assert_eq!(MAX_WOTD_LENGTH, 400);
    assert_eq!(SUBS_CALLBACK_DATA, "__subs");
    assert_eq!(DESUBS_CALLBACK_DATA, "__desubs");
}

#[test]
fn deep_link_carries_the_encoded_word() {
    assert_eq!(
        deep_link("dle_bot", "verbo"),
        "<a href=\"https://t.me/dle_bot?start=dmVyYm8\">verbo</a>"
    );
    assert_eq!(
        link("dle_bot", "ñandú", "<tspan>ñandú</tspan>"),
        "<a href=\"https://t.me/dle_bot?start=w7FhbmTDug\"><tspan>ñandú</tspan></a>"
    );
}

#[test]
fn short_definition_is_one_message_with_a_link() {
    assert_eq!(
        definition_messages("verbo\nDel lat. verbum.\n1. m. palabra.", "verbo", "dle_bot"),
        ["<a href=\"https://t.me/dle_bot?start=dmVyYm8\">verbo</a>\nDel lat. verbum.\n1. m. palabra."]
    );
}

#[test]
fn definition_without_its_word_is_sent_as_it_is() {
    assert_eq!(definition_messages("Del lat. verbum.", "verbo", "dle_bot"), ["Del lat. verbum."]);
}

#[test]
fn long_definition_is_cut_and_only_the_first_message_has_the_link() {
    let definition = format!("verbo\nDel lat. verbum.\n{}", "verbo ".repeat(800));
    let messages = definition_messages(&definition, "verbo", "dle_bot");
    assert_eq!(messages.len(), 3);
    assert_eq!(
        messages[0],
        "<a href=\"https://t.me/dle_bot?start=dmVyYm8\">verbo</a>\nDel lat. verbum.\n"
    );
    assert_eq!(messages[1], "verbo ".repeat(682));
    assert_eq!(messages[2], format!("{}", "verbo ".repeat(118)));
}

#[test]
fn corrected_message_has_its_head_and_no_white_space_around_the_chunk() {
    assert_eq!(
        corrected_messages(" verbo\nDel lat. verbum.\n"),
        ["😌 ¡Ahora sí!\n\nverbo\nDel lat. verbum."]
    );
    let definition = format!("verbo\n{}", "palabra ".repeat(600));
    let messages = corrected_messages(&definition);
    assert_eq!(messages.len(), 3);
    assert_eq!(messages[0], "😌 ¡Ahora sí!\n\nverbo");
    assert_eq!(messages[1], format!("😌 ¡Ahora sí!\n\n{}", "palabra ".repeat(512).trim()));
    assert_eq!(messages[2], format!("😌 ¡Ahora sí!\n\n{}", "palabra ".repeat(88).trim()));
}

#[test]
fn inline_parts_name_the_word_on_every_part() {
    let definition = format!("verbo\n{}", "palabra ".repeat(600));
    let parts = inline_parts(&definition, "verbo", "dle_bot");
    assert_eq!(parts.len(), 3);
    assert_eq!(parts[0].description, "verbo\n");
    assert_eq!(parts[0].text, "<a href=\"https://t.me/dle_bot?start=dmVyYm8\">verbo</a>\n");
    assert_eq!(parts[1].description, format!("verbo\n{}", "palabra ".repeat(512)));
    assert_eq!(
        parts[1].text,
        format!(
            "<a href=\"https://t.me/dle_bot?start=dmVyYm8\">verbo</a>\n{}",
            "palabra ".repeat(512)
        )
    );
    assert_eq!(parts[2].description, format!("verbo\n{}", "palabra ".repeat(88)));
}

#[test]
fn similar_words_are_listed_as_links() {
    assert_eq!(similar_words(&vec![], "dle_bot"), "");
    assert_eq!(
        similar_words(&vec!["casa".to_string()], "dle_bot"),
        "Estas son algunas entradas parecidas:\n\n— <a href=\"https://t.me/dle_bot?start=Y2FzYQ\">casa</a>"
    );
    assert_eq!(
        similar_words(&vec!["casa".to_string(), "caso".to_string()], "dle_bot"),
        "Estas son algunas entradas parecidas:\n\n— <a href=\"https://t.me/dle_bot?start=Y2FzYQ\">casa</a>\n— <a href=\"https://t.me/dle_bot?start=Y2Fzbw\">caso</a>"
    );
}

#[test]
fn word_of_the_day_has_its_head() {
    assert_eq!(
        word_of_the_day_message("\n verbo\nDel lat. verbum. \n"),
        "📖 Palabra del día\n\n verbo\nDel lat. verbum."
    );
}

#[test]
fn caption_links_the_name_and_tags_the_word_of_the_day() {
    assert_eq!(
        picture_caption(" verbo\nDel lat. verbum.\n", "dle_bot", "verbo", "verbo", true),
        "📖 #PalabraDelDía | <a href=\"https://t.me/dle_bot?start=dmVyYm8\">verbo</a>\nDel lat. verbum."
    );
    assert_eq!(
        picture_caption(" verbo\nDel lat. verbum.\n", "dle_bot", "verbo", "verbo", false),
        " <a href=\"https://t.me/dle_bot?start=dmVyYm8\">verbo</a>\nDel lat. verbum."
    );
}
