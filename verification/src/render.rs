//! The Markdown renderer, and what it is told.

use vstd::prelude::*;

verus! {

/// What the renderer writes.
#[derive(Clone, Copy, Debug, PartialEq, Eq)]
pub enum Format {
    /// HTML.
    Html,
    /// Markdown again, in a canonical form.
    CommonMark,
    /// The document's structure, as XML.
    Xml,
}

/// How the renderer is to work.
#[derive(Clone, Copy, Debug, PartialEq, Eq)]
pub struct RenderOptions {
    /// Turn quotes, dashes and dots into typographic punctuation.
    pub smart: bool,
    /// Keep raw HTML and dangerous links out of the output.
    pub safe: bool,
    /// Write a soft line break of the input as a hard one.
    pub hardbreaks: bool,
    /// Note with each element where in the source it stood.
    pub sourcepos: bool,
    /// The column at which CommonMark output is wrapped; 0 for no wrapping.
    pub columns: usize,
}

impl Default for RenderOptions {
    /// Nothing switched on, and no wrapping.
    fn default() -> (options: RenderOptions)
        ensures
            options == (RenderOptions {
                smart: false,
                safe: false,
                hardbreaks: false,
                sourcepos: false,
                columns: 0,
            }),
    {
        RenderOptions { smart: false, safe: false, hardbreaks: false, sourcepos: false, columns: 0 }
    }
}

/// The HTML that `comrak::markdown_to_html` writes for `text`, with the five
/// options set as given and every other option at its default.
pub uninterp spec fn html_of(
    text: Seq<char>,
    smart: bool,
    raw_html: bool,
    hardbreaks: bool,
    sourcepos: bool,
    width: nat,
) -> Seq<char>;

/// The CommonMark that `comrak::markdown_to_commonmark` writes for `text`.
pub uninterp spec fn commonmark_of(
    text: Seq<char>,
    smart: bool,
    raw_html: bool,
    hardbreaks: bool,
    sourcepos: bool,
    width: nat,
) -> Seq<char>;

/// The XML that `comrak::markdown_to_commonmark_xml` writes for `text`.
pub uninterp spec fn xml_of(
    text: Seq<char>,
    smart: bool,
    raw_html: bool,
    hardbreaks: bool,
    sourcepos: bool,
    width: nat,
) -> Seq<char>;

/// `comrak::markdown_to_html`, with `parse.smart`, `render.unsafe_`,
/// `render.hardbreaks`, `render.sourcepos` and `render.width` set from the
/// arguments. The renderer reads nothing but its arguments, so its output is
/// named after them; the contract claims no more.
#[verifier::external_body]
fn markdown_to_html(
    text: &str,
    smart: bool,
    raw_html: bool,
    hardbreaks: bool,
    sourcepos: bool,
    width: usize,
) -> (out: String)
    ensures
        out@ == html_of(text@, smart, raw_html, hardbreaks, sourcepos, width as nat),
{
    let mut options = comrak::Options::default();
    options.parse.smart = smart;
    options.render.unsafe_ = raw_html;
    options.render.hardbreaks = hardbreaks;
    options.render.sourcepos = sourcepos;
    options.render.width = width;
    comrak::markdown_to_html(text, &options)
}

/// `comrak::markdown_to_commonmark`, with the same five options set from the
/// arguments. Its output is named after them; the contract claims no more.
#[verifier::external_body]
fn markdown_to_commonmark(
    text: &str,
    smart: bool,
    raw_html: bool,
    hardbreaks: bool,
    sourcepos: bool,
    width: usize,
) -> (out: String)
    ensures
        out@ == commonmark_of(text@, smart, raw_html, hardbreaks, sourcepos, width as nat),
{
    let mut options = comrak::Options::default();
    options.parse.smart = smart;
    options.render.unsafe_ = raw_html;
    options.render.hardbreaks = hardbreaks;
    options.render.sourcepos = sourcepos;
    options.render.width = width;
    comrak::markdown_to_commonmark(text, &options)
}

/// `comrak::markdown_to_commonmark_xml`, with the same five options set from
/// the arguments. Its output is named after them; the contract claims no
/// more.
#[verifier::external_body]
fn markdown_to_commonmark_xml(
    text: &str,
    smart: bool,
    raw_html: bool,
    hardbreaks: bool,
    sourcepos: bool,
    width: usize,
) -> (out: String)
    ensures
        out@ == xml_of(text@, smart, raw_html, hardbreaks, sourcepos, width as nat),
{
    let mut options = comrak::Options::default();
    options.parse.smart = smart;
    options.render.unsafe_ = raw_html;
    options.render.hardbreaks = hardbreaks;
    options.render.sourcepos = sourcepos;
    options.render.width = width;
    comrak::markdown_to_commonmark_xml(text, &options)
}

/// What the renderer writes for `text` in `format` under `options`. Raw HTML
/// is let through exactly when `safe` is off.
pub open spec fn rendering(text: Seq<char>, format: Format, options: RenderOptions) -> Seq<char> {
    match format {
        Format::Html => html_of(
            text,
            options.smart,
            !options.safe,
            options.hardbreaks,
            options.sourcepos,
            options.columns as nat,
        ),
        Format::CommonMark => commonmark_of(
            text,
            options.smart,
            !options.safe,
            options.hardbreaks,
            options.sourcepos,
            options.columns as nat,
        ),
        Format::Xml => xml_of(
            text,
            options.smart,
            !options.safe,
            options.hardbreaks,
            options.sourcepos,
            options.columns as nat,
        ),
    }
}

/// Renders the Markdown `text` in `format` under `options`.
pub fn render(text: &str, format: Format, options: &RenderOptions) -> (out: String)
    ensures
        out@ == rendering(text@, format, *options),
{
    let raw_html = !options.safe;
    match format {
        Format::Html => markdown_to_html(
            text,
            options.smart,
            raw_html,
            options.hardbreaks,
            options.sourcepos,
            options.columns,
        ),
        Format::CommonMark => markdown_to_commonmark(
            text,
            options.smart,
            raw_html,
            options.hardbreaks,
            options.sourcepos,
            options.columns,
        ),
        Format::Xml => markdown_to_commonmark_xml(
            text,
            options.smart,
            raw_html,
            options.hardbreaks,
            options.sourcepos,
            options.columns,
        ),
    }
}

} // verus!
