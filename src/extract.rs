//! Main-content extraction: cleaned HTML and markdown text out of a raw page.

use vstd::prelude::*;

verus! {

/// What the extractor found in a page.
#[derive(Debug, Clone)]
pub struct Extraction {
    /// The cleaned HTML subtree of the main content.
    pub html: String,
    /// The main content as markdown text.
    pub text: String,
}

/// Why the extractor gave no content.
#[derive(Debug, Clone, Copy, PartialEq, Eq, Structural)]
pub enum ExtractionError {
    /// The page URL handed to the extractor is not absolute.
    BadDocumentUrl,
    /// No main-content node could be identified.
    GrabFailed,
    /// The page has more elements than the extractor agrees to parse: found, allowed.
    TooManyElements(usize, usize),
}

/// What the readability extractor yields for a page with the given HTML and URL:
/// the cleaned HTML and the markdown text, or the reason it found none.
pub uninterp spec fn readability_of(html: Seq<char>, url: Seq<char>) -> Result<(Seq<char>, Seq<char>), ExtractionError>;

/// The plain-value view of an extraction result.
pub open spec fn extraction_view(r: Result<Extraction, ExtractionError>) -> Result<(Seq<char>, Seq<char>), ExtractionError> {
    match r {
        Ok(e) => Ok((e.html@, e.text@)),
        Err(e) => Err(e),
    }
}

/// Relies on dom_smoothie's `Readability::new` (fails on a URL that is not absolute)
/// and `Readability::parse` with markdown text output: the outcome depends on the
/// HTML and the URL alone.
#[verifier::external_body]
fn readability(html: String, url: &str) -> (r: Result<(String, String), ExtractionError>)
    ensures
        match r {
            Ok(p) => readability_of(html@, url@) == Ok::<(Seq<char>, Seq<char>), ExtractionError>((p.0@, p.1@)),
            Err(e) => readability_of(html@, url@) == Err::<(Seq<char>, Seq<char>), ExtractionError>(e),
        },
{
    let cfg = dom_smoothie::Config { text_mode: dom_smoothie::TextMode::Markdown, ..Default::default() };
    let parsed = match dom_smoothie::Readability::new(html, Some(url), Some(cfg)) {
        Ok(mut reader) => reader.parse(),
        Err(e) => Err(e),
    };
    match parsed {
        Ok(article) => Ok((article.content.to_string(), article.text_content.to_string())),
        Err(dom_smoothie::ReadabilityError::BadDocumentURL) => Err(ExtractionError::BadDocumentUrl),
        Err(dom_smoothie::ReadabilityError::GrabFailed) => Err(ExtractionError::GrabFailed),
        Err(dom_smoothie::ReadabilityError::TooManyElements(n, m)) => Err(ExtractionError::TooManyElements(n, m)),
    }
}

/// Extracts the main content of a page. CPU-bound and synchronous: callers that
/// multiplex network I/O run it on a context of its own.
pub fn extract_article(html: String, url: &str) -> (r: Result<Extraction, ExtractionError>)
    ensures
        extraction_view(r) == readability_of(html@, url@),
{
    match readability(html, url) {
        Ok((html, text)) => Ok(Extraction { html, text }),
        Err(e) => Err(e),
    }
}

} // verus!
