//! One crawl request from fetch to outcome, as decisions on the events that the
//! network and the extractor produce.

use vstd::prelude::*;
use crate::extract::{Extraction, ExtractionError, readability_of, extraction_view};

verus! {

/// The label the crawler sends with every request.
pub const USER_AGENT: &'static str = "reading_addiction/0.1.0 bot";

/// A request to crawl one URL.
#[derive(Debug, Clone)]
pub struct WorkItem {
    pub url: String,
}

/// A page that was fetched and whose main content was extracted.
#[derive(Debug, Clone)]
pub struct CrawledArticle {
    /// HTTP status code of the response.
    pub status: u16,
    pub url: String,
    /// Cleaned HTML of the main content.
    pub html: String,
    /// Main content as markdown text.
    pub markdown: String,
}

/// The stage at which crawling one request failed.
#[derive(Debug, Clone, Copy, PartialEq, Eq, Structural)]
pub enum FailureReason {
    /// Connecting, TLS, a timeout or another transport error.
    Transport,
    /// The response body could not be read as text.
    Decode,
    /// The extractor found no main content.
    Extraction,
    /// The extractor crashed.
    ExtractionPanic,
}

impl FailureReason {
    /// A short name for reports.
    pub fn name(&self) -> (r: &'static str)
        ensures
            *self == FailureReason::Transport ==> r@ == "transport-error"@,
            *self == FailureReason::Decode ==> r@ == "decode-error"@,
            *self == FailureReason::Extraction ==> r@ == "extraction-error"@,
            *self == FailureReason::ExtractionPanic ==> r@ == "extraction-panic"@,
    {
        match self {
            FailureReason::Transport => "transport-error",
            FailureReason::Decode => "decode-error",
            FailureReason::Extraction => "extraction-error",
            FailureReason::ExtractionPanic => "extraction-panic",
        }
    }
}

/// The single result of crawling one request.
#[derive(Debug, Clone)]
pub enum CrawlOutcome {
    Success(CrawledArticle),
    Failure { url: String, reason: FailureReason },
}

impl CrawlOutcome {
    /// The URL the outcome is about.
    pub open spec fn url_view(&self) -> Seq<char> {
        match self {
            CrawlOutcome::Success(a) => a.url@,
            CrawlOutcome::Failure { url, .. } => url@,
        }
    }

    pub fn url(&self) -> (r: &String)
        ensures
            r@ == self.url_view(),
    {
        match self {
            CrawlOutcome::Success(a) => &a.url,
            CrawlOutcome::Failure { url, .. } => url,
        }
    }
}

/// Where one request stands between the worker's suspension points.
#[derive(Debug, Clone, Copy, PartialEq, Eq, Structural)]
pub enum Stage {
    /// The GET was sent; the response head is awaited.
    AwaitingResponse,
    /// The response head came with this status; the body is awaited.
    AwaitingBody { status: u16 },
    /// The body was handed to the extractor; its result is awaited.
    AwaitingExtraction { status: u16 },
}

/// What the outside world reports back to a request in progress.
#[derive(Debug)]
pub enum WorkerEvent {
    /// The server answered with this status.
    Responded { status: u16 },
    /// No response: the transport failed.
    Unreachable,
    /// The body was read as text.
    BodyRead { html: String },
    /// The body could not be read as text.
    BodyUnreadable,
    /// The extractor returned.
    Extracted(Result<Extraction, ExtractionError>),
    /// The extractor crashed on its isolated context.
    ExtractionPanicked,
}

/// A request in progress.
#[derive(Debug)]
pub struct ItemTask {
    pub url: String,
    pub stage: Stage,
}

/// What the worker does next for a request.
#[derive(Debug)]
pub enum Next {
    /// Read the response body, then report `BodyRead` or `BodyUnreadable`.
    ReadBody(ItemTask),
    /// Run the extractor on this HTML and the task's URL, isolated, then report
    /// `Extracted` or `ExtractionPanicked`.
    Extract(ItemTask, String),
    /// The request is done: hand this outcome on.
    Emit(CrawlOutcome),
}

/// Whether an event is one that a request at this stage waits for.
pub open spec fn stage_expects(stage: Stage, event: WorkerEvent) -> bool {
    match stage {
        Stage::AwaitingResponse => event is Responded || event is Unreachable,
        Stage::AwaitingBody { .. } => event is BodyRead || event is BodyUnreadable,
        Stage::AwaitingExtraction { .. } => event is Extracted || event is ExtractionPanicked,
    }
}

/// The outcome for a page whose response carried `status` and whose extraction gave `r`.
pub open spec fn extracted_outcome(url: String, status: u16, r: Result<Extraction, ExtractionError>) -> CrawlOutcome {
    match r {
        Ok(e) => CrawlOutcome::Success(CrawledArticle { status, url, html: e.html, markdown: e.text }),
        Err(_) => CrawlOutcome::Failure { url, reason: FailureReason::Extraction },
    }
}

/// The decision for a request on an event it waits for.
pub open spec fn next_of(task: ItemTask, event: WorkerEvent) -> Next {
    match (task.stage, event) {
        (Stage::AwaitingResponse, WorkerEvent::Responded { status }) =>
            Next::ReadBody(ItemTask { url: task.url, stage: Stage::AwaitingBody { status } }),
        (Stage::AwaitingBody { status }, WorkerEvent::BodyRead { html }) =>
            Next::Extract(ItemTask { url: task.url, stage: Stage::AwaitingExtraction { status } }, html),
        (Stage::AwaitingExtraction { status }, WorkerEvent::Extracted(r)) =>
            Next::Emit(extracted_outcome(task.url, status, r)),
        (Stage::AwaitingExtraction { .. }, WorkerEvent::ExtractionPanicked) =>
            Next::Emit(CrawlOutcome::Failure { url: task.url, reason: FailureReason::ExtractionPanic }),
        (Stage::AwaitingBody { .. }, _) =>
            Next::Emit(CrawlOutcome::Failure { url: task.url, reason: FailureReason::Decode }),
        (_, _) =>
            Next::Emit(CrawlOutcome::Failure { url: task.url, reason: FailureReason::Transport }),
    }
}

impl ItemTask {
    /// Starts a request: the caller sends the GET for `item.url`, then reports
    /// `Responded` or `Unreachable`.
    pub fn new(item: WorkItem) -> (r: ItemTask)
        ensures
            r.url == item.url,
            r.stage == Stage::AwaitingResponse,
    {
        ItemTask { url: item.url, stage: Stage::AwaitingResponse }
    }

    /// Whether this request waits for `event` now.
    pub fn expects(&self, event: &WorkerEvent) -> (r: bool)
        ensures
            r == stage_expects(self.stage, *event),
    {
        match (self.stage, event) {
            (Stage::AwaitingResponse, WorkerEvent::Responded { .. }) => true,
            (Stage::AwaitingResponse, WorkerEvent::Unreachable) => true,
            (Stage::AwaitingBody { .. }, WorkerEvent::BodyRead { .. }) => true,
            (Stage::AwaitingBody { .. }, WorkerEvent::BodyUnreadable) => true,
            (Stage::AwaitingExtraction { .. }, WorkerEvent::Extracted(_)) => true,
            (Stage::AwaitingExtraction { .. }, WorkerEvent::ExtractionPanicked) => true,
            _ => false,
        }
    }

    /// Advances the request on the event it waited for. A failing stage ends the
    /// request with a failure that names the stage; no stage is retried.
    pub fn step(self, event: WorkerEvent) -> (r: Next)
        requires
            stage_expects(self.stage, event),
        ensures
            r == next_of(self, event),
    {
        match (self.stage, event) {
            (Stage::AwaitingResponse, WorkerEvent::Responded { status }) =>
                Next::ReadBody(ItemTask { url: self.url, stage: Stage::AwaitingBody { status } }),
            (Stage::AwaitingBody { status }, WorkerEvent::BodyRead { html }) =>
                Next::Extract(ItemTask { url: self.url, stage: Stage::AwaitingExtraction { status } }, html),
            (Stage::AwaitingExtraction { status }, WorkerEvent::Extracted(r)) =>
                Next::Emit(classify_extraction(self.url, status, r)),
            (Stage::AwaitingExtraction { .. }, _) =>
                Next::Emit(CrawlOutcome::Failure { url: self.url, reason: FailureReason::ExtractionPanic }),
            (Stage::AwaitingBody { .. }, _) =>
                Next::Emit(CrawlOutcome::Failure { url: self.url, reason: FailureReason::Decode }),
            (Stage::AwaitingResponse, _) =>
                Next::Emit(CrawlOutcome::Failure { url: self.url, reason: FailureReason::Transport }),
        }
    }
}

/// The outcome for a page whose response carried `status`, given what the
/// extractor returned for it.
pub fn classify_extraction(url: String, status: u16, r: Result<Extraction, ExtractionError>) -> (o: CrawlOutcome)
    ensures
        o == extracted_outcome(url, status, r),
{
    match r {
        Ok(e) => CrawlOutcome::Success(CrawledArticle { status, url, html: e.html, markdown: e.text }),
        Err(_) => CrawlOutcome::Failure { url, reason: FailureReason::Extraction },
    }
}

/// Extraction of a page is a function of its HTML and URL: a page on which the
/// extractor finds no content is classified as an extraction failure on every
/// run, with the same reason.
pub proof fn lemma_extraction_failure_is_stable(
    html: Seq<char>,
    url: String,
    status: u16,
    first: Result<Extraction, ExtractionError>,
    second: Result<Extraction, ExtractionError>,
)
    requires
        readability_of(html, url@) is Err,
        extraction_view(first) == readability_of(html, url@),
        extraction_view(second) == readability_of(html, url@),
    ensures
        first == second,
        extracted_outcome(url, status, first) == (CrawlOutcome::Failure { url, reason: FailureReason::Extraction }),
        extracted_outcome(url, status, second) == extracted_outcome(url, status, first),
{
}

/// Every decision keeps the request's URL: a request that goes on stays on its
/// URL, and the one outcome it ends with is for that URL.
pub proof fn lemma_step_keeps_url(task: ItemTask, event: WorkerEvent)
    requires
        stage_expects(task.stage, event),
    ensures
        match next_of(task, event) {
            Next::ReadBody(t) => t.url == task.url,
            Next::Extract(t, _) => t.url == task.url,
            Next::Emit(o) => o.url_view() == task.url@,
        },
{
}

/// How many collected outcomes succeeded, and how many failed for each reason.
#[derive(Debug, Clone, Copy, PartialEq, Eq, Structural, Default)]
pub struct CrawlTally {
    pub succeeded: usize,
    pub transport: usize,
    pub decode: usize,
    pub extraction: usize,
    pub panicked: usize,
}

/// One more, where it fits.
pub open spec fn bump(n: usize) -> usize {
    if n < usize::MAX { (n + 1) as usize } else { n }
}

/// The tally after counting one more outcome.
pub open spec fn tally_after(t: CrawlTally, o: CrawlOutcome) -> CrawlTally {
    match o {
        CrawlOutcome::Success(_) => CrawlTally { succeeded: bump(t.succeeded), ..t },
        CrawlOutcome::Failure { reason, .. } => match reason {
            FailureReason::Transport => CrawlTally { transport: bump(t.transport), ..t },
            FailureReason::Decode => CrawlTally { decode: bump(t.decode), ..t },
            FailureReason::Extraction => CrawlTally { extraction: bump(t.extraction), ..t },
            FailureReason::ExtractionPanic => CrawlTally { panicked: bump(t.panicked), ..t },
        },
    }
}

impl CrawlTally {
    /// An empty tally.
    pub fn new() -> (r: CrawlTally)
        ensures
            r == (CrawlTally { succeeded: 0, transport: 0, decode: 0, extraction: 0, panicked: 0 }),
    {
        CrawlTally { succeeded: 0, transport: 0, decode: 0, extraction: 0, panicked: 0 }
    }

    /// Counts one collected outcome under its kind; a count stops at `usize::MAX`.
    pub fn record(&mut self, o: &CrawlOutcome)
        ensures
            *final(self) == tally_after(*old(self), *o),
    {
        match o {
            CrawlOutcome::Success(_) => {
                if self.succeeded < usize::MAX {
                    self.succeeded = self.succeeded + 1;
                }
            },
            CrawlOutcome::Failure { reason, .. } => match reason {
                FailureReason::Transport => {
                    if self.transport < usize::MAX {
                        self.transport = self.transport + 1;
                    }
                },
                FailureReason::Decode => {
                    if self.decode < usize::MAX {
                        self.decode = self.decode + 1;
                    }
                },
                FailureReason::Extraction => {
                    if self.extraction < usize::MAX {
                        self.extraction = self.extraction + 1;
                    }
                },
                FailureReason::ExtractionPanic => {
                    if self.panicked < usize::MAX {
                        self.panicked = self.panicked + 1;
                    }
                },
            },
        }
    }
}

} // verus!
