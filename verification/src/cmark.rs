//! Markdown-to-HTML conversion, used as an optional content transform for
//! fields holding Markdown text. The conversion itself is done by an
//! outside library; the engine only splices its output in unescaped.

use vstd::prelude::*;

verus! {

/// What the Markdown converter produces for a source text: a pure function
/// of the characters alone.
pub uninterp spec fn markdown_html(s: Seq<char>) -> Seq<char>;

/// Relies on pulldown_cmark's `Parser::new_ext` and `html::push_html`
/// (with tables enabled): the HTML appended to the output is a function of
/// the Markdown source text alone.
#[verifier::external_body]
pub fn encode(source: &str, output: &mut String)
    ensures
        final(output)@ == old(output)@ + markdown_html(source@),
{
    let parser = pulldown_cmark::Parser::new_ext(source, pulldown_cmark::Options::ENABLE_TABLES);
    pulldown_cmark::html::push_html(output, parser);
}

} // verus!
