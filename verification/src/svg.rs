//! Emphasis tags as styled spans of a drawing.

use vstd::prelude::*;
use crate::edit::{replace, replaced};

verus! {

/// The span that stands for italic text.
pub open spec fn italic_span() -> Seq<char> {
    "<tspan style=\"font-style:italic\">"@
}

/// The span that stands for bold text.
pub open spec fn bold_span() -> Seq<char> {
    "<tspan style=\"font-weight:bold\">"@
}

/// The span that stands for underlined text.
pub open spec fn underline_span() -> Seq<char> {
    "<tspan text-decoration=\"underline\">"@
}

/// The end of a span.
pub open spec fn span_end() -> Seq<char> {
    "</tspan>"@
}

/// `text` with its emphasis tags replaced by spans: first the opening tags
/// `<i>`, `<em>`, `<b>`, `<strong>`, `<u>` and `<ins>`, one after the other,
/// then the closing ones.
pub open spec fn svg_markup(text: Seq<char>) -> Seq<char> {
    let opened = replaced(
        replaced(
            replaced(
                replaced(
                    replaced(replaced(text, "<i>"@, italic_span()), "<em>"@, italic_span()),
                    "<b>"@,
                    bold_span(),
                ),
                "<strong>"@,
                bold_span(),
            ),
            "<u>"@,
            underline_span(),
        ),
        "<ins>"@,
        underline_span(),
    );
    replaced(
        replaced(
            replaced(
                replaced(
                    replaced(replaced(opened, "</i>"@, span_end()), "</em>"@, span_end()),
                    "</b>"@,
                    span_end(),
                ),
                "</strong>"@,
                span_end(),
            ),
            "</u>"@,
            span_end(),
        ),
        "</ins>"@,
        span_end(),
    )
}

/// Replaces the emphasis tags of `text` by spans: `<i>` and `<em>` by the
/// italic span, `<b>` and `<strong>` by the bold one, `<u>` and `<ins>` by the
/// underlined one, and each of their closing tags by the end of a span.
pub fn convert_html_tags_to_svg(text: &str) -> (svg: String)
    ensures
        svg@ == svg_markup(text@),
{
    let svg = replace(text, "<i>", "<tspan style=\"font-style:italic\">");
    let svg = replace(svg.as_str(), "<em>", "<tspan style=\"font-style:italic\">");
    let svg = replace(svg.as_str(), "<b>", "<tspan style=\"font-weight:bold\">");
    let svg = replace(svg.as_str(), "<strong>", "<tspan style=\"font-weight:bold\">");
    let svg = replace(svg.as_str(), "<u>", "<tspan text-decoration=\"underline\">");
    let svg = replace(svg.as_str(), "<ins>", "<tspan text-decoration=\"underline\">");
    let svg = replace(svg.as_str(), "</i>", "</tspan>");
    let svg = replace(svg.as_str(), "</em>", "</tspan>");
    let svg = replace(svg.as_str(), "</b>", "</tspan>");
    let svg = replace(svg.as_str(), "</strong>", "</tspan>");
    let svg = replace(svg.as_str(), "</u>", "</tspan>");
    replace(svg.as_str(), "</ins>", "</tspan>")
}

} // verus!
