use reading_addiction::extract::{extract_article, ExtractionError};
use reading_addiction::pipeline::{crawl_all, Action, Pipeline};
use reading_addiction::worker::{
    classify_extraction, CrawlOutcome, CrawlTally, FailureReason, ItemTask, Next, WorkItem, WorkerEvent,
};

fn article_html(topic: &str) -> String {
    let mut body = String::new();
    for i in 0..8 {
        body.push_str(&format!(
            "<p>Paragraph {i} about {topic}. Readers who follow this long discussion of {topic} \
             will find that every sentence here carries real content, with commas, clauses, and \
             enough words to count as the main body of an article rather than navigation.</p>"
        ));
    }
    format!(
        "<html><head><title>{topic}</title><style>.x {{ color: red; }}</style></head><body>\
         <nav><a href=\"/\">Home</a> <a href=\"/about\">About</a></nav>\
         <article><h1>{topic}</h1>{body}</article>\
         <script>var tracking = 'SCRIPT_MARKER';</script>\
         <footer>Copyright</footer></body></html>"
    )
}

const STUB: &str = "<html><head><meta http-equiv=\"refresh\" content=\"0; url=https://elsewhere.example/\"></head><body></body></html>";

/// What a fake network answers for one URL.
enum Page {
    Html(String),
    Unreachable,
    Undecodable,
}

/// Crawls one request through the worker's decisions against a fake network.
fn crawl_one(item: WorkItem, page: &Page) -> CrawlOutcome {
    let mut task = ItemTask::new(item);
    let mut event = match page {
        Page::Unreachable => WorkerEvent::Unreachable,
        _ => WorkerEvent::Responded { status: 200 },
    };
    loop {
        assert!(task.expects(&event));
        match task.step(event) {
            Next::ReadBody(t) => {
                event = match page {
                    Page::Html(h) => WorkerEvent::BodyRead { html: h.clone() },
                    _ => WorkerEvent::BodyUnreadable,
                };
                task = t;
            }
            Next::Extract(t, html) => {
                event = WorkerEvent::Extracted(extract_article(html, &t.url));
                task = t;
            }
            Next::Emit(o) => return o,
        }
    }
}

/// Runs the coordinator to the end; fetches complete, oldest first, only when
/// nothing else can move. Returns the collected outcomes and the most fetches
/// and queued requests seen at once.
fn run(
    urls: &[String],
    workers: usize,
    capacity: usize,
    mut fetch: impl FnMut(WorkItem) -> CrawlOutcome,
) -> (Vec<CrawlOutcome>, usize, usize) {
    let items: Vec<WorkItem> = urls.iter().map(|u| WorkItem { url: u.clone() }).collect();
    let mut p = Pipeline::new(items, workers, capacity, capacity);
    let mut in_flight: Vec<(usize, CrawlOutcome)> = Vec::new();
    let mut collected = Vec::new();
    let (mut most_fetching, mut most_queued) = (0, 0);
    let mut steps = 0usize;
    loop {
        steps += 1;
        assert!(steps <= 5 * urls.len() + 2 * urls.len() + 1, "the run must end");
        most_fetching = most_fetching.max(p.fetches_in_flight());
        most_queued = most_queued.max(p.queued());
        assert!(p.buffered_results() <= capacity);
        match p.next_action() {
            Action::Fetch { worker, item } => in_flight.push((worker, fetch(item))),
            Action::Collect(o) => collected.push(o),
            Action::Advanced => {}
            Action::Wait => {
                assert!(!in_flight.is_empty());
                let (w, o) = in_flight.remove(0);
                assert!(p.complete(w, o));
            }
            Action::Done => break,
        }
    }
    assert!(in_flight.is_empty());
    (collected, most_fetching, most_queued)
}

fn urls(n: usize) -> Vec<String> {
    (0..n).map(|i| format!("https://site{i}.example/post")).collect()
}

fn sorted_urls(outcomes: &[CrawlOutcome]) -> Vec<String> {
    let mut v: Vec<String> = outcomes.iter().map(|o| o.url().clone()).collect();
    v.sort();
    v
}

#[test]
fn article_page_is_extracted() {
    let url = "https://news.example/story";
    let e = extract_article(article_html("gardening"), url).expect("article content");
    assert!(e.text.contains("Paragraph 3 about gardening"));
    assert!(!e.text.contains("SCRIPT_MARKER"));
    assert!(!e.text.contains("color: red"));
    assert!(!e.html.is_empty());
}

#[test]
fn stub_page_has_no_content_every_time() {
    let url = "https://news.example/moved";
    let first = extract_article(STUB.to_string(), url);
    let second = extract_article(STUB.to_string(), url);
    assert!(matches!(first, Err(ExtractionError::GrabFailed)));
    assert!(matches!(second, Err(ExtractionError::GrabFailed)));
    match classify_extraction(url.to_string(), 200, first) {
        CrawlOutcome::Failure { reason, .. } => assert_eq!(reason, FailureReason::Extraction),
        other => panic!("unexpected {other:?}"),
    }
}

#[test]
fn relative_page_url_is_refused() {
    assert!(matches!(
        extract_article(article_html("x"), "/relative"),
        Err(ExtractionError::BadDocumentUrl)
    ));
}

#[test]
fn each_failing_stage_is_named() {
    let item = || WorkItem { url: "https://a.example/".to_string() };
    let o = crawl_one(item(), &Page::Unreachable);
    assert!(matches!(o, CrawlOutcome::Failure { reason: FailureReason::Transport, .. }));
    let o = crawl_one(item(), &Page::Undecodable);
    assert!(matches!(o, CrawlOutcome::Failure { reason: FailureReason::Decode, .. }));
    let o = crawl_one(item(), &Page::Html(STUB.to_string()));
    assert!(matches!(o, CrawlOutcome::Failure { reason: FailureReason::Extraction, .. }));
    assert_eq!(o.url(), "https://a.example/");
}

#[test]
fn crashed_extraction_is_a_typed_failure() {
    let task = ItemTask::new(WorkItem { url: "https://a.example/".to_string() });
    let Next::ReadBody(task) = task.step(WorkerEvent::Responded { status: 200 }) else { panic!() };
    let Next::Extract(task, _) = task.step(WorkerEvent::BodyRead { html: "<p>x</p>".to_string() }) else { panic!() };
    assert!(!task.expects(&WorkerEvent::Unreachable));
    match task.step(WorkerEvent::ExtractionPanicked) {
        Next::Emit(CrawlOutcome::Failure { url, reason }) => {
            assert_eq!(url, "https://a.example/");
            assert_eq!(reason, FailureReason::ExtractionPanic);
        }
        other => panic!("unexpected {other:?}"),
    }
}

#[test]
fn crash_does_not_stop_later_items() {
    let list = urls(6);
    let crashing = list[1].clone();
    let (out, _, _) = run(&list, 2, 2, |item| {
        if item.url == crashing {
            CrawlOutcome::Failure { url: item.url, reason: FailureReason::ExtractionPanic }
        } else {
            let status = 200;
            CrawlOutcome::Success(reading_addiction::worker::CrawledArticle {
                status,
                url: item.url,
                html: "<p>x</p>".to_string(),
                markdown: "x".to_string(),
            })
        }
    });
    assert_eq!(out.len(), 6);
    let panics = out
        .iter()
        .filter(|o| matches!(o, CrawlOutcome::Failure { reason: FailureReason::ExtractionPanic, .. }))
        .count();
    assert_eq!(panics, 1);
    assert_eq!(sorted_urls(&out), { let mut l = list.clone(); l.sort(); l });
}

#[test]
fn five_articles_all_persisted() {
    let list = urls(5);
    let mut persisted = Vec::new();
    let (out, _, _) = run(&list, 16, 64, |item| crawl_one(item, &Page::Html(article_html("trees"))));
    for o in &out {
        if let CrawlOutcome::Success(a) = o {
            assert_eq!(a.status, 200);
            persisted.push(a.url.clone());
        }
    }
    persisted.sort();
    let mut expected = list.clone();
    expected.sort();
    assert_eq!(persisted, expected);
}

#[test]
fn two_unreachable_hosts_of_five() {
    let list = urls(5);
    let down = [list[1].clone(), list[3].clone()];
    let (out, _, _) = run(&list, 16, 64, |item| {
        let page = if down.contains(&item.url) { Page::Unreachable } else { Page::Html(article_html("rivers")) };
        crawl_one(item, &page)
    });
    let successes = out.iter().filter(|o| matches!(o, CrawlOutcome::Success(_))).count();
    let transport = out
        .iter()
        .filter(|o| matches!(o, CrawlOutcome::Failure { reason: FailureReason::Transport, .. }))
        .count();
    assert_eq!(successes, 3);
    assert_eq!(transport, 2);
}

#[test]
fn stub_page_is_not_persisted() {
    let list = urls(1);
    let (out, _, _) = run(&list, 16, 64, |item| crawl_one(item, &Page::Html(STUB.to_string())));
    assert_eq!(out.len(), 1);
    assert!(matches!(out[0], CrawlOutcome::Failure { reason: FailureReason::Extraction, .. }));
}

#[test]
fn two_hundred_candidates_complete() {
    let list = urls(200);
    let (out, most_fetching, most_queued) = run(&list, 16, 64, |item| crawl_one(item, &Page::Unreachable));
    assert_eq!(out.len(), 200);
    assert!(most_fetching <= 16);
    assert_eq!(most_fetching, 16);
    assert!(most_queued <= 64);
    let mut expected = list.clone();
    expected.sort();
    assert_eq!(sorted_urls(&out), expected);
}

#[test]
fn ten_times_capacity_completes() {
    let capacity = 4;
    let list = urls(10 * capacity);
    let (out, most_fetching, most_queued) = run(&list, 3, capacity, |item| crawl_one(item, &Page::Unreachable));
    assert_eq!(out.len(), 40);
    assert!(most_fetching <= 3);
    assert!(most_queued <= capacity);
}

#[test]
fn empty_run_is_done_at_once() {
    let mut p = Pipeline::new(Vec::new(), 4, 8, 8);
    assert!(matches!(p.next_action(), Action::Done));
}

#[test]
fn duplicate_candidates_each_get_an_outcome() {
    let list = vec!["https://same.example/".to_string(); 3];
    let (out, _, _) = run(&list, 2, 1, |item| crawl_one(item, &Page::Undecodable));
    assert_eq!(out.len(), 3);
    assert!(out.iter().all(|o| o.url() == "https://same.example/"));
}

#[test]
fn result_channel_backpressure_blocks_workers() {
    // One result slot and fetches that finish together: outcomes wait with
    // their workers until the collector drains the channel.
    let list = urls(4);
    let items: Vec<WorkItem> = list.iter().map(|u| WorkItem { url: u.clone() }).collect();
    let mut p = Pipeline::new(items, 4, 4, 1);
    let mut fetched = Vec::new();
    loop {
        match p.next_action() {
            Action::Fetch { worker, item } => fetched.push((worker, item)),
            Action::Advanced => {}
            Action::Wait => break,
            other => panic!("unexpected {other:?}"),
        }
    }
    assert_eq!(fetched.len(), 4);
    assert_eq!(p.fetches_in_flight(), 4);
    for (w, item) in fetched {
        assert!(p.complete(w, CrawlOutcome::Failure { url: item.url, reason: FailureReason::Decode }));
        assert!(p.buffered_results() <= 1);
    }
    let mut collected = 0;
    loop {
        match p.next_action() {
            Action::Collect(_) => collected += 1,
            Action::Advanced => assert!(p.buffered_results() <= 1),
            Action::Done => break,
            other => panic!("unexpected {other:?}"),
        }
    }
    assert_eq!(collected, 4);
}

#[test]
fn completion_for_the_wrong_url_is_refused() {
    let mut p = Pipeline::new(vec![WorkItem { url: "https://a.example/".to_string() }], 1, 1, 1);
    assert!(matches!(p.next_action(), Action::Advanced));
    let Action::Fetch { worker, .. } = p.next_action() else { panic!() };
    let wrong = CrawlOutcome::Failure { url: "https://b.example/".to_string(), reason: FailureReason::Decode };
    assert!(!p.complete(worker, wrong));
    let idle = CrawlOutcome::Failure { url: "https://a.example/".to_string(), reason: FailureReason::Decode };
    assert!(!p.complete(worker + 1, idle.clone()));
    assert!(p.complete(worker, idle.clone()));
    assert!(!p.complete(worker, idle));
}

#[test]
fn synchronous_run_yields_one_outcome_per_candidate() {
    let list = urls(25);
    let items: Vec<WorkItem> = list.iter().map(|u| WorkItem { url: u.clone() }).collect();
    let out = crawl_all(items, 3, 2, 2, |item| crawl_one(item, &Page::Undecodable));
    assert_eq!(out.len(), 25);
    let mut expected = list.clone();
    expected.sort();
    assert_eq!(sorted_urls(&out), expected);
    assert!(crawl_all(Vec::new(), 1, 1, 1, |item| crawl_one(item, &Page::Unreachable)).is_empty());
}

#[test]
fn tally_counts_by_reason() {
    let mut tally = CrawlTally::new();
    let fail = |reason| CrawlOutcome::Failure { url: "https://a.example/".to_string(), reason };
    tally.record(&fail(FailureReason::Transport));
    tally.record(&fail(FailureReason::Transport));
    tally.record(&fail(FailureReason::ExtractionPanic));
    tally.record(&crawl_one(WorkItem { url: "https://b.example/".to_string() }, &Page::Html(article_html("bees"))));
    assert_eq!(tally.transport, 2);
    assert_eq!(tally.panicked, 1);
    assert_eq!(tally.succeeded, 1);
    assert_eq!(tally.decode + tally.extraction, 0);
    assert_eq!(FailureReason::Decode.name(), "decode-error");
    assert_eq!(FailureReason::ExtractionPanic.name(), "extraction-panic");
}
