use vstd::prelude::*;

verus! {

/// The HTML that pulldown-cmark writes for the Markdown text `text`, with
/// the strikethrough extension enabled and every other extension off.
pub uninterp spec fn markdown_html(text: Seq<char>) -> Seq<char>;

/// `pulldown_cmark::html::push_html` over `Parser::new_ext(text, options)`
/// with only `Options::ENABLE_STRIKETHROUGH` set, into an empty string. The
/// rendering is a function of the text alone; what it is, is not stated
/// here but named.
#[verifier::external_body]
pub(crate) fn push_markdown_html(text: &str) -> (html: String)
    ensures
        html@ == markdown_html(text@),
{
    let mut options = pulldown_cmark::Options::empty();
    options.insert(pulldown_cmark::Options::ENABLE_STRIKETHROUGH);
    let parser = pulldown_cmark::Parser::new_ext(text, options);
    let mut html = String::new();
    pulldown_cmark::html::push_html(&mut html, parser);
    html
}

} // verus!
