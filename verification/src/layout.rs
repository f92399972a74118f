//! The text of a picture of a word: its name, and the lines of its etymology.

use vstd::prelude::*;
use vstd::string::*;
use crate::edit::{
    after_first_line, cut_line, first_line, trim, trim_start, trimmed, trimmed_start,
};
use crate::rebalance::{fix_tags, rebalanced};
use crate::svg::{convert_html_tags_to_svg, svg_markup};
use crate::text::{owned_views, views};
use crate::wrap::{split_by_whitespace, wrapped};

verus! {

/// The most characters that are shown in one line of a picture.
pub const MAX_CHARACTERS_IN_LINE: usize = 80;

/// The lines of a picture for `text`: its lines for the width of a picture,
/// each with its emphasis tags as spans, and what a line leaves open closed
/// at its end and opened again on the next.
pub open spec fn picture_lines(text: Seq<char>) -> Seq<Seq<char>> {
    rebalanced(
        wrapped(text, MAX_CHARACTERS_IN_LINE as nat).map_values(|line: Seq<char>| svg_markup(line)),
    )
}

/// The name and the etymology of a word, as they stand at the head of its
/// definition.
pub struct Heading<'a> {
    /// The name of the word, with its emphasis tags as spans.
    pub lemma: String,
    /// The etymology of the word.
    pub etymology: &'a str,
}

/// The name and the etymology at the head of `definition`, where it has them.
///
/// White space at the head of the definition is passed over. The name is the
/// first line. The etymology is the second line, or the third where the
/// second is empty; there is none where the line is missing. White space
/// around each of them is dropped.
pub open spec fn heading_of(definition: Seq<char>) -> Option<(Seq<char>, Seq<char>)> {
    let body = trimmed_start(definition);
    let lemma = svg_markup(trimmed(first_line(body)));
    match after_first_line(body) {
        None => None,
        Some(second) => if trimmed(first_line(second)).len() > 0 {
            Some((lemma, trimmed(first_line(second))))
        } else {
            match after_first_line(second) {
                None => None,
                Some(third) => Some((lemma, trimmed(first_line(third)))),
            }
        },
    }
}

/// The name and the etymology at the head of `definition`, where it has them.
pub fn heading<'a>(definition: &'a str) -> (found: Option<Heading<'a>>)
    ensures
        found is Some <==> heading_of(definition@) is Some,
        found matches Some(h) ==> Some((h.lemma@, h.etymology@)) == heading_of(definition@),
{
    let body = trim_start(definition);
    let (first, rest) = cut_line(body);
    let lemma = convert_html_tags_to_svg(trim(first));
    match rest {
        None => None,
        Some(second) => {
            let (line, rest) = cut_line(second);
            let etymology = trim(line);
            if etymology.unicode_len() > 0 {
                Some(Heading { lemma, etymology })
            } else {
                match rest {
                    None => None,
                    Some(third) => {
                        let (line, _) = cut_line(third);
                        Some(Heading { lemma, etymology: trim(line) })
                    },
                }
            }
        },
    }
}

/// The lines of a picture for `text`.
pub fn lines_of_picture(text: &str) -> (lines: Vec<String>)
    ensures
        owned_views(lines@) == picture_lines(text@),
{
    let wrapped_lines = split_by_whitespace(text, MAX_CHARACTERS_IN_LINE);
    let mut lines: Vec<String> = Vec::new();
    let mut i: usize = 0;
    let ghost marked = wrapped(text@, MAX_CHARACTERS_IN_LINE as nat).map_values(
        |line: Seq<char>| svg_markup(line),
    );
    while i < wrapped_lines.len()
        invariant
            i <= wrapped_lines.len(),
            views(wrapped_lines@) == wrapped(text@, MAX_CHARACTERS_IN_LINE as nat),
            marked == wrapped(text@, MAX_CHARACTERS_IN_LINE as nat).map_values(
                |line: Seq<char>| svg_markup(line),
            ),
            lines.len() == i,
            forall|k: int| 0 <= k < i ==> (#[trigger] lines@[k])@ == marked[k],
        decreases wrapped_lines.len() - i,
    {
        proof {
            assert(views(wrapped_lines@)[i as int] == wrapped_lines@[i as int]@);
        }
        lines.push(convert_html_tags_to_svg(wrapped_lines[i]));
        i = i + 1;
    }
    proof {
        assert(views(wrapped_lines@).len() == wrapped_lines@.len());
        assert(owned_views(lines@) =~= marked);
    }
    fix_tags(lines.as_mut_slice());
    lines
}

/// How many backgrounds there are of each kind.
pub const BG_COLORS_LENGTH: usize = 8;

/// The colour of background `index` of the light or of the dark kind.
pub open spec fn palette(dark: bool, index: int) -> Seq<char> {
    if dark {
        if index == 0 {
            "#602323"@
        } else if index == 1 {
            "#187f65"@
        } else if index == 2 {
            "#1a5055"@
        } else if index == 3 {
            "#1a4563"@
        } else if index == 4 {
            "#312569"@
        } else if index == 5 {
            "#5b3171"@
        } else if index == 6 {
            "#633057"@
        } else {
            "#652e39"@
        }
    } else {
        if index == 0 {
            "#f9b5b5"@
        } else if index == 1 {
            "#9cf2dc"@
        } else if index == 2 {
            "#9becf2"@
        } else if index == 3 {
            "#6ab6e9"@
        } else if index == 4 {
            "#cabff9"@
        } else if index == 5 {
            "#dbb3ef"@
        } else if index == 6 {
            "#f2cdea"@
        } else {
            "#f99daf"@
        }
    }
}

/// The colour of background `index` of the light or of the dark kind.
pub fn background_color(dark: bool, index: usize) -> (color: &'static str)
    requires
        index < BG_COLORS_LENGTH,
    ensures
        color@ == palette(dark, index as int),
{
    if dark {
        if index == 0 {
            "#602323"
        } else if index == 1 {
            "#187f65"
        } else if index == 2 {
            "#1a5055"
        } else if index == 3 {
            "#1a4563"
        } else if index == 4 {
            "#312569"
        } else if index == 5 {
            "#5b3171"
        } else if index == 6 {
            "#633057"
        } else {
            "#652e39"
        }
    } else {
        if index == 0 {
            "#f9b5b5"
        } else if index == 1 {
            "#9cf2dc"
        } else if index == 2 {
            "#9becf2"
        } else if index == 3 {
            "#6ab6e9"
        } else if index == 4 {
            "#cabff9"
        } else if index == 5 {
            "#dbb3ef"
        } else if index == 6 {
            "#f2cdea"
        } else {
            "#f99daf"
        }
    }
}

/// The colour of the text on a background of the light or of the dark kind:
/// white on dark, black on light.
pub fn font_color(dark: bool) -> (color: &'static str)
    ensures
        color@ == if dark {
            "#ffffff"@
        } else {
            "#000000"@
        },
{
    if dark {
        "#ffffff"
    } else {
        "#000000"
    }
}

} // verus!
