//! Rendering page bodies to HTML and minifying style sheets, through the
//! `comrak` and `lightningcss` crates.
use vstd::prelude::*;
use lightningcss::stylesheet::{MinifyOptions, ParserOptions, PrinterOptions, StyleSheet};

verus! {

/// The HTML that `comrak::markdown_to_html` renders from the Markdown text `md`,
/// with the footnote, strikethrough and multi-line block quote extensions set
/// as given and every other option at its default.
pub uninterp spec fn markdown_html(
    md: Seq<char>,
    footnotes: bool,
    strikethrough: bool,
    multiline_block_quotes: bool,
) -> Seq<char>;

/// `comrak::markdown_to_html` with default options but for the three
/// extensions given. Its result depends on its arguments alone; it is named,
/// not described.
#[verifier::external_body]
fn comrak_markdown_to_html(
    md: &str,
    footnotes: bool,
    strikethrough: bool,
    multiline_block_quotes: bool,
) -> (html: String)
    ensures
        html@ == markdown_html(md@, footnotes, strikethrough, multiline_block_quotes),
{
    let mut options = comrak::Options::default();
    options.extension.footnotes = footnotes;
    options.extension.strikethrough = strikethrough;
    options.extension.multiline_block_quotes = multiline_block_quotes;
    comrak::markdown_to_html(md, &options)
}

/// The HTML of a page body written in Markdown, with footnotes, strikethrough
/// and multi-line block quotes.
pub fn page_html(content: &str) -> (html: String)
    ensures
        html@ == markdown_html(content@, true, true, true),
{
    comrak_markdown_to_html(content, true, true, true)
}

/// Whether `lightningcss` parses `code` as a style sheet.
pub uninterp spec fn css_parses(code: Seq<char>) -> bool;

/// The code that `lightningcss` prints for the style sheet `code` after
/// parsing it with the default parser options, minifying it with the default
/// minify options and printing it with `minify` as given and the other printer
/// options at their defaults; none where one of the three steps fails.
pub uninterp spec fn minified_css(code: Seq<char>, minify: bool) -> Option<Seq<char>>;

/// What can go wrong when a style sheet is minified; each holds the message.
pub enum CssError {
    Parse(String),
    Minify(String),
    Print(String),
}

/// `StyleSheet::parse`, then `StyleSheet::minify`, then `StyleSheet::to_css`
/// on the one sheet, each failure handed back as its message under the step
/// that failed. The parse fails exactly where the text does not parse; the
/// printed code, and whether the later steps succeed, are named, not described.
#[verifier::external_body]
fn css_minify_text(code: &str, minify: bool) -> (res: Result<String, CssError>)
    ensures
        res matches Err(CssError::Parse(_)) <==> !css_parses(code@),
        res is Ok <==> minified_css(code@, minify) is Some,
        res matches Ok(t) ==> minified_css(code@, minify) == Some(t@),
{
    let mut sheet = match StyleSheet::parse(code, ParserOptions::default()) {
        Ok(s) => s,
        Err(e) => return Err(CssError::Parse(e.to_string())),
    };
    if let Err(e) = sheet.minify(MinifyOptions::default()) {
        return Err(CssError::Minify(e.to_string()));
    }
    match sheet.to_css(PrinterOptions { minify, ..Default::default() }) {
        Ok(printed) => Ok(printed.code),
        Err(e) => Err(CssError::Print(e.to_string())),
    }
}

/// The style sheet `css`, parsed, minified and printed without white space.
/// A text that does not parse is refused with `Parse`, and only such a text;
/// otherwise the result is the minified code where there is one.
pub fn minify_css(css: &str) -> (res: Result<String, CssError>)
    ensures
        res matches Err(CssError::Parse(_)) <==> !css_parses(css@),
        res is Ok <==> minified_css(css@, true) is Some,
        res matches Ok(t) ==> minified_css(css@, true) == Some(t@),
{
    css_minify_text(css, true)
}

} // verus!
