//! The texts that are sent: a definition cut into messages, with a link that
//! starts the bot at the word, and the short notes around them.

use vstd::prelude::*;
use vstd::string::*;
use vstd::utf8::encode_utf8;
use crate::encoding::{base64_encode, url_safe_no_pad};
use crate::edit::{replace_first, replaced_first, trim, trimmed};
use crate::segment::{segments, smart_split};
use crate::text::{owned_views, views};

verus! {

/// The limit for which a definition is cut into messages: a message holds
/// no more characters than this and one.
pub const MAX_MASSAGE_LENGTH: usize = 4096;

/// The most characters of a word of the day.
pub const MAX_WOTD_LENGTH: usize = 400;

/// What the button that subscribes sends back.
pub const SUBS_CALLBACK_DATA: &'static str = "__subs";

/// What the button that ends a subscription sends back.
pub const DESUBS_CALLBACK_DATA: &'static str = "__desubs";

/// The link that starts the bot `username` at `word` and shows `label`: the
/// encoding of the word is the start parameter.
pub open spec fn link_text(username: Seq<char>, word: Seq<char>, label: Seq<char>) -> Seq<char> {
    "<a href=\"https://t.me/"@ + username + "?start="@ + url_safe_no_pad(encode_utf8(word))
        + "\">"@ + label + "</a>"@
}

/// The link that starts the bot `username` at the word `lemma` and shows the
/// word.
pub open spec fn deep_link_text(username: Seq<char>, lemma: Seq<char>) -> Seq<char> {
    link_text(username, lemma, lemma)
}

/// What stands in front of the word of the day under its picture.
pub open spec fn picture_tag() -> Seq<char> {
    "📖 #PalabraDelDía |"@
}

/// What stands under the picture of a word: `definition`, with the leftmost
/// `label` turned into the link that starts the bot `username` at `word`, and
/// without the white space around it; in front of it a space, and the tag
/// where the word is the word of the day.
pub open spec fn caption_text(
    definition: Seq<char>,
    username: Seq<char>,
    word: Seq<char>,
    label: Seq<char>,
    of_the_day: bool,
) -> Seq<char> {
    let linked = replaced_first(definition, label, link_text(username, word, label));
    if of_the_day {
        picture_tag() + seq![' '] + trimmed(linked)
    } else {
        seq![' '] + trimmed(linked)
    }
}

/// The link that starts the bot `username` at `word` and shows `label`.
pub fn link(username: &str, word: &str, label: &str) -> (link: String)
    ensures
        link@ == link_text(username@, word@, label@),
{
    let code = base64_encode(String::from_str(word));
    let mut link = String::from_str("<a href=\"https://t.me/");
    link.append(username);
    link.append("?start=");
    link.append(code.as_str());
    link.append("\">");
    link.append(label);
    link.append("</a>");
    link
}

/// The link that starts the bot `username` at the word `lemma`.
pub fn deep_link(username: &str, lemma: &str) -> (link: String)
    ensures
        link@ == deep_link_text(username@, lemma@),
{
    link(username, lemma, lemma)
}

/// What stands under the picture of a word.
pub fn picture_caption(
    definition: &str,
    username: &str,
    word: &str,
    label: &str,
    of_the_day: bool,
) -> (caption: String)
    ensures
        caption@ == caption_text(definition@, username@, word@, label@, of_the_day),
{
    let target = link(username, word, label);
    let linked = replace_first(definition, label, target.as_str());
    let mut caption = String::new();
    if of_the_day {
        caption.append("📖 #PalabraDelDía |");
    }
    proof {
        reveal_strlit(" ");
        assert(" "@ =~= seq![' ']);
    }
    caption.append(" ");
    caption.append(trim(linked.as_str()));
    caption
}

/// The messages that show `definition`: its chunks, the first of them with
/// the leftmost `lemma` turned into the link that starts the bot at it.
pub open spec fn definition_texts(
    definition: Seq<char>,
    lemma: Seq<char>,
    username: Seq<char>,
) -> Seq<Seq<char>> {
    let chunks = segments(definition, MAX_MASSAGE_LENGTH as nat);
    Seq::new(
        chunks.len(),
        |i: int|
            if i == 0 {
                replaced_first(chunks[0], lemma, deep_link_text(username, lemma))
            } else {
                chunks[i]
            },
    )
}

/// The head of a message that answers an edited one.
pub open spec fn corrected_head() -> Seq<char> {
    "😌 ¡Ahora sí!\n\n"@
}

/// The messages that show `definition` in answer to an edited message: each
/// chunk without the white space around it, behind the head.
pub open spec fn corrected_texts(definition: Seq<char>) -> Seq<Seq<char>> {
    let chunks = segments(definition, MAX_MASSAGE_LENGTH as nat);
    Seq::new(chunks.len(), |i: int| corrected_head() + trimmed(chunks[i]))
}

/// The head of the word of the day.
pub open spec fn word_of_the_day_head() -> Seq<char> {
    "📖 Palabra del día\n\n "@
}

/// The head of a list of similar words.
pub open spec fn similar_head() -> Seq<char> {
    "Estas son algunas entradas parecidas:\n\n— "@
}

/// What stands between two similar words.
pub open spec fn similar_separator() -> Seq<char> {
    "\n— "@
}

/// The links to the first `n` of `words`, each behind a separator but the
/// first.
pub open spec fn similar_links(words: Seq<Seq<char>>, username: Seq<char>, n: nat) -> Seq<char>
    decreases n,
{
    if n == 0 {
        Seq::empty()
    } else if n == 1 {
        deep_link_text(username, words[0])
    } else {
        similar_links(words, username, (n - 1) as nat) + similar_separator() + deep_link_text(
            username,
            words[n - 1],
        )
    }
}

/// The note that lists `words` as similar ones, each as a link; nothing where
/// there are none.
pub open spec fn similar_text(words: Seq<Seq<char>>, username: Seq<char>) -> Seq<char> {
    if words.len() == 0 {
        Seq::empty()
    } else {
        similar_head() + similar_links(words, username, words.len())
    }
}

/// One part of a definition as an answer to an inline query.
pub struct InlinePart {
    /// What is shown of the part in the list of answers.
    pub description: String,
    /// What is sent when the part is chosen.
    pub text: String,
}

/// What is shown of part `i` of `definition` in the list of answers: the
/// chunk, behind the word and a line feed where it is not the first.
pub open spec fn inline_description(definition: Seq<char>, lemma: Seq<char>, i: int) -> Seq<char> {
    let chunks = segments(definition, MAX_MASSAGE_LENGTH as nat);
    if i == 0 {
        chunks[0]
    } else {
        lemma + seq!['\n'] + chunks[i]
    }
}

/// The messages that show `definition`, one for each of its chunks.
pub fn definition_messages(definition: &str, lemma: &str, username: &str) -> (messages: Vec<
    String,
>)
    ensures
        owned_views(messages@) == definition_texts(definition@, lemma@, username@),
{
    let chunks = smart_split(definition, MAX_MASSAGE_LENGTH);
    let mut messages: Vec<String> = Vec::new();
    let mut i: usize = 0;
    while i < chunks.len()
        invariant
            i <= chunks.len(),
            views(chunks@) == segments(definition@, MAX_MASSAGE_LENGTH as nat),
            messages.len() == i,
            forall|k: int|
                0 <= k < i ==> (#[trigger] messages@[k])@ == definition_texts(
                    definition@,
                    lemma@,
                    username@,
                )[k],
        decreases chunks.len() - i,
    {
        proof {
            assert(views(chunks@)[i as int] == chunks@[i as int]@);
        }
        let message = if i == 0 {
            let link = deep_link(username, lemma);
            replace_first(chunks[i], lemma, link.as_str())
        } else {
            String::from_str(chunks[i])
        };
        messages.push(message);
        i = i + 1;
    }
    proof {
        assert(owned_views(messages@) =~= definition_texts(definition@, lemma@, username@));
    }
    messages
}

/// The messages that show `definition` in answer to an edited message.
pub fn corrected_messages(definition: &str) -> (messages: Vec<String>)
    ensures
        owned_views(messages@) == corrected_texts(definition@),
{
    let chunks = smart_split(definition, MAX_MASSAGE_LENGTH);
    let mut messages: Vec<String> = Vec::new();
    let mut i: usize = 0;
    while i < chunks.len()
        invariant
            i <= chunks.len(),
            views(chunks@) == segments(definition@, MAX_MASSAGE_LENGTH as nat),
            messages.len() == i,
            forall|k: int|
                0 <= k < i ==> (#[trigger] messages@[k])@ == corrected_texts(definition@)[k],
        decreases chunks.len() - i,
    {
        proof {
            assert(views(chunks@)[i as int] == chunks@[i as int]@);
        }
        let mut message = String::from_str("😌 ¡Ahora sí!\n\n");
        message.append(trim(chunks[i]));
        messages.push(message);
        i = i + 1;
    }
    proof {
        assert(owned_views(messages@) =~= corrected_texts(definition@));
    }
    messages
}

/// The parts of `definition` as answers to an inline query, one for each of
/// its chunks: what is sent is what is shown, with the leftmost `lemma`
/// turned into the link that starts the bot at it.
pub fn inline_parts(definition: &str, lemma: &str, username: &str) -> (parts: Vec<InlinePart>)
    ensures
        parts.len() == segments(definition@, MAX_MASSAGE_LENGTH as nat).len(),
        forall|i: int|
            0 <= i < parts.len() ==> (#[trigger] parts[i]).description@ == inline_description(
                definition@,
                lemma@,
                i,
            ),
        forall|i: int|
            0 <= i < parts.len() ==> (#[trigger] parts[i]).text@ == replaced_first(
                inline_description(definition@, lemma@, i),
                lemma@,
                deep_link_text(username@, lemma@),
            ),
{
    let chunks = smart_split(definition, MAX_MASSAGE_LENGTH);
    let mut parts: Vec<InlinePart> = Vec::new();
    let mut i: usize = 0;
    proof {
        assert(views(chunks@).len() == chunks@.len());
    }
    while i < chunks.len()
        invariant
            i <= chunks.len(),
            views(chunks@) == segments(definition@, MAX_MASSAGE_LENGTH as nat),
            parts.len() == i,
            forall|k: int|
                0 <= k < i ==> (#[trigger] parts[k]).description@ == inline_description(
                    definition@,
                    lemma@,
                    k,
                ),
            forall|k: int|
                0 <= k < i ==> (#[trigger] parts[k]).text@ == replaced_first(
                    inline_description(definition@, lemma@, k),
                    lemma@,
                    deep_link_text(username@, lemma@),
                ),
        decreases chunks.len() - i,
    {
        proof {
            assert(views(chunks@)[i as int] == chunks@[i as int]@);
        }
        let description = if i == 0 {
            String::from_str(chunks[i])
        } else {
            let mut description = String::from_str(lemma);
            proof {
                reveal_strlit("\n");
                assert("\n"@ =~= seq!['\n']);
            }
            description.append("\n");
            description.append(chunks[i]);
            description
        };
        let link = deep_link(username, lemma);
        let text = replace_first(description.as_str(), lemma, link.as_str());
        parts.push(InlinePart { description, text });
        i = i + 1;
    }
    parts
}

/// The note that lists `words` as similar ones.
pub fn similar_words(words: &Vec<String>, username: &str) -> (note: String)
    ensures
        note@ == similar_text(owned_views(words@), username@),
{
    let mut note = String::new();
    if words.len() == 0 {
        return note;
    }
    note.append("Estas son algunas entradas parecidas:\n\n— ");
    let ghost texts = owned_views(words@);
    let mut i: usize = 0;
    while i < words.len()
        invariant
            i <= words.len(),
            texts == owned_views(words@),
            note@ == similar_head() + similar_links(texts, username@, i as nat),
        decreases words.len() - i,
    {
        let ghost before = note@;
        if i > 0 {
            note.append("\n— ");
        }
        let link = deep_link(username, words[i].as_str());
        note.append(link.as_str());
        proof {
            assert(texts[i as int] == words@[i as int]@);
            if i > 0 {
                assert(similar_head() + similar_links(texts, username@, i as nat)
                    + similar_separator() + link@ =~= similar_head() + (similar_links(
                    texts,
                    username@,
                    i as nat,
                ) + similar_separator() + link@));
            } else {
                assert(similar_head() + similar_links(texts, username@, 0) + link@
                    =~= similar_head() + link@);
            }
        }
        i = i + 1;
    }
    note
}

/// The word of the day as a message: `definition` without the white space
/// around it, behind the head.
pub fn word_of_the_day_message(definition: &str) -> (message: String)
    ensures
        message@ == word_of_the_day_head() + trimmed(definition@),
{
    let mut message = String::from_str("📖 Palabra del día\n\n ");
    message.append(trim(definition));
    message
}

} // verus!
