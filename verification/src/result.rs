//! The terminal record of one URL.

use vstd::prelude::*;
use vstd::string::*;
use crate::extract::{PageFields, PageFieldsView};
use crate::text::{opt_view, strs_view};

verus! {

/// What became of one URL: the page's fields and status, or the reason why
/// no response was ever had.
#[derive(Debug)]
pub struct ScrapeResult {
    /// The URL asked for.
    pub url: String,
    /// Contents of the page's title; empty where absent.
    pub title: String,
    /// The page's meta description.
    pub description: Option<String>,
    /// Contents of the page's first paragraph.
    pub first_paragraph: Option<String>,
    /// Hyperlink targets that look absolute, in the order in which the
    /// selector engine yields the hyperlinks.
    pub links: Vec<String>,
    /// HTTP status of the response; 0 where no response was had.
    pub status_code: u16,
    /// Elapsed time of the last attempt, in milliseconds.
    pub fetch_time_ms: u128,
    /// Why no response was had; `None` on success.
    pub error: Option<String>,
}

/// `ScrapeResult` over character sequences.
pub struct ScrapeResultView {
    pub url: Seq<char>,
    pub title: Seq<char>,
    pub description: Option<Seq<char>>,
    pub first_paragraph: Option<Seq<char>>,
    pub links: Seq<Seq<char>>,
    pub status_code: u16,
    pub fetch_time_ms: u128,
    pub error: Option<Seq<char>>,
}

impl View for ScrapeResult {
    type V = ScrapeResultView;

    open spec fn view(&self) -> ScrapeResultView {
        ScrapeResultView {
            url: self.url@,
            title: self.title@,
            description: opt_view(self.description),
            first_paragraph: opt_view(self.first_paragraph),
            links: strs_view(self.links@),
            status_code: self.status_code,
            fetch_time_ms: self.fetch_time_ms,
            error: opt_view(self.error),
        }
    }
}

/// The words that open every failure message.
pub open spec fn failure_prefix() -> Seq<char> {
    "Failed to scrape: "@
}

impl ScrapeResultView {
    /// A record that carries an error carries nothing else: status 0 and no
    /// content.
    pub open spec fn wf(self) -> bool {
        self.error is Some ==> {
            &&& self.status_code == 0
            &&& self.title.len() == 0
            &&& self.description is None
            &&& self.first_paragraph is None
            &&& self.links.len() == 0
        }
    }

    /// The record of a response with the given status and fields.
    pub open spec fn success(url: Seq<char>, status_code: u16, fetch_time_ms: u128, fields: PageFieldsView) -> ScrapeResultView {
        ScrapeResultView {
            url,
            title: fields.title,
            description: fields.description,
            first_paragraph: fields.first_paragraph,
            links: fields.links,
            status_code,
            fetch_time_ms,
            error: None,
        }
    }

    /// The record of a URL for which every attempt failed, the last one for
    /// the reason `cause`.
    pub open spec fn failure(url: Seq<char>, fetch_time_ms: u128, cause: Seq<char>) -> ScrapeResultView {
        ScrapeResultView {
            url,
            title: Seq::empty(),
            description: None,
            first_paragraph: None,
            links: Seq::empty(),
            status_code: 0,
            fetch_time_ms,
            error: Some(failure_prefix() + cause),
        }
    }
}

impl ScrapeResult {
    /// Records a response: its status, the time it took and the fields read
    /// from its body. Any status counts, an HTTP error status too.
    pub fn success(url: String, status_code: u16, fetch_time_ms: u128, fields: PageFields) -> (r: ScrapeResult)
        ensures
            r@ == ScrapeResultView::success(url@, status_code, fetch_time_ms, fields@),
            r@.wf(),
    {
        ScrapeResult {
            url,
            title: fields.title,
            description: fields.description,
            first_paragraph: fields.first_paragraph,
            links: fields.links,
            status_code,
            fetch_time_ms,
            error: None,
        }
    }

    /// Records that no response was had: status 0, no content, and a message
    /// that names the cause.
    pub fn failure(url: String, fetch_time_ms: u128, cause: &str) -> (r: ScrapeResult)
        ensures
            r@ == ScrapeResultView::failure(url@, fetch_time_ms, cause@),
            r@.wf(),
            r@.error is Some && r@.error->0.len() > 0,
    {
        let message = String::from_str("Failed to scrape: ").concat(cause);
        let links: Vec<String> = Vec::new();
        proof {
            reveal_strlit("Failed to scrape: ");
            assert(strs_view(links@) =~= Seq::<Seq<char>>::empty());
        }
        ScrapeResult {
            url,
            title: String::new(),
            description: None,
            first_paragraph: None,
            links,
            status_code: 0,
            fetch_time_ms,
            error: Some(message),
        }
    }

    /// Whether a response was had.
    pub fn is_success(&self) -> (r: bool)
        ensures
            r == (self@.error is None),
    {
        self.error.is_none()
    }

    /// How many links the record carries.
    pub fn link_count(&self) -> (r: usize)
        ensures
            r == self@.links.len(),
    {
        self.links.len()
    }
}

} // verus!
