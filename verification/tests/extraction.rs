use harvest::extract::{
    absolute_links, extract_all_links, extract_fields, extract_first, first_attr, looks_absolute, parseable,
    SelectorKind, MAX_DOCUMENT_BYTES,
};
use harvest::report::BatchReport;
use harvest::result::ScrapeResult;
use harvest::task::{should_retry, FetchOutcome, Step, Task, TaskPhase};
use harvest::text::{same_text, starts_with};

#[test]
fn first_match_of_each_kind() {
    let doc = "<html><head><title>One</title><title>Two</title>\
<meta name=\"keywords\" content=\"k\"><meta name=\"description\" content=\"Desc\">\
</head><body><div><p>alpha</p></div><p>beta</p></body></html>";
    assert_eq!(extract_first(doc, SelectorKind::TitleTag).as_deref(), Some("One"));
    assert_eq!(extract_first(doc, SelectorKind::MetaDescription).as_deref(), Some("Desc"));
    assert_eq!(extract_first(doc, SelectorKind::FirstParagraph).as_deref(), Some("alpha"));
}

#[test]
fn absent_fields_are_empty_or_none() {
    let doc = "<html><body><h1>No title here</h1></body></html>";
    assert_eq!(extract_first(doc, SelectorKind::TitleTag), None);
    assert_eq!(extract_first(doc, SelectorKind::MetaDescription), None);
    assert_eq!(extract_first(doc, SelectorKind::FirstParagraph), None);
    assert!(extract_all_links(doc).is_empty());
    let fields = extract_fields(doc);
    assert_eq!(fields.title, "");
    assert_eq!(fields.description, None);
    assert_eq!(fields.first_paragraph, None);
    assert!(fields.links.is_empty());
    let empty = extract_fields("");
    assert_eq!(empty.title, "");
    assert!(empty.links.is_empty());
}

#[test]
fn description_without_content_is_none() {
    let doc = "<html><head><meta name=\"description\"><meta name=\"description\" content=\"late\"></head></html>";
    assert_eq!(extract_first(doc, SelectorKind::MetaDescription), None);
}

#[test]
fn links_keep_only_absolute_targets_in_order() {
    let doc = "<a href=\"https://x.org/1\">1</a><a href=\"/local\">2</a><a>3</a>\
<a href=\"mailto:me@x.org\">4</a><a href=\"http://x.org/5\">5</a><a href=\"httpfoo\">6</a><a href=\"HTTP://UP\">7</a>";
    assert_eq!(
        extract_all_links(doc),
        vec!["https://x.org/1".to_string(), "http://x.org/5".to_string(), "httpfoo".to_string()]
    );
}

#[test]
fn absolute_links_filters_present_targets() {
    let matched = vec![
        Some("http://a".to_string()),
        None,
        Some("ftp://b".to_string()),
        Some("htt".to_string()),
        Some("http".to_string()),
        Some("".to_string()),
    ];
    assert_eq!(absolute_links(matched), vec!["http://a".to_string(), "http".to_string()]);
    assert!(absolute_links(Vec::new()).is_empty());
}

#[test]
fn first_attr_takes_the_first_match() {
    assert_eq!(first_attr(None), None);
    assert_eq!(first_attr(Some(vec![])), None);
    assert_eq!(first_attr(Some(vec![None, Some("x".to_string())])), None);
    assert_eq!(first_attr(Some(vec![Some("y".to_string()), None])), Some("y".to_string()));
}

#[test]
fn prefix_tests() {
    assert!(looks_absolute("http://x"));
    assert!(looks_absolute("https://x"));
    assert!(looks_absolute("http"));
    assert!(!looks_absolute("htt"));
    assert!(!looks_absolute(""));
    assert!(!looks_absolute(" http://x"));
    assert!(!looks_absolute("Http://x"));
    assert!(starts_with("héllo", "hé"));
    assert!(starts_with("abc", ""));
    assert!(!starts_with("ab", "abc"));
    assert!(same_text("abc", "abc"));
    assert!(!same_text("abc", "abd"));
}

#[test]
fn full_extraction() {
    let doc = "<title>T &amp; U</title><p>para</p><a href=\"http://l\">l</a>";
    let fields = extract_fields(doc);
    assert_eq!(fields.title, "T &amp; U");
    assert_eq!(fields.description, None);
    assert_eq!(fields.first_paragraph.as_deref(), Some("para"));
    assert_eq!(fields.links, vec!["http://l".to_string()]);
}

#[test]
fn retry_rule() {
    assert!(should_retry(0, 1));
    assert!(should_retry(2, 3));
    assert!(!should_retry(3, 3));
    assert!(!should_retry(0, 0));
    assert!(!should_retry(5, 3));
}

#[test]
fn task_steps() {
    let mut task = Task::new("u".to_string());
    assert_eq!(task.url(), "u");
    assert_eq!(task.attempt(), 0);
    assert_eq!(task.phase(), TaskPhase::Ready);
    // Not fetching yet: an outcome is ignored.
    let early = task.on_fetched(1, FetchOutcome::Failed { cause: "x".to_string(), elapsed_ms: 1 });
    assert!(matches!(early, Step::Ignored));
    assert!(!task.end_delay());
    assert!(!task.begin_delay());
    assert!(task.begin_fetch());
    assert!(!task.begin_fetch());
    let first = task.on_fetched(1, FetchOutcome::Failed { cause: "x".to_string(), elapsed_ms: 1 });
    assert!(matches!(first, Step::Retry));
    assert_eq!(task.attempt(), 1);
    assert_eq!(task.phase(), TaskPhase::RetryDue);
    assert!(task.begin_delay());
    assert_eq!(task.phase(), TaskPhase::Sleeping);
    assert!(task.end_delay());
    assert_eq!(task.phase(), TaskPhase::Ready);
    assert!(task.begin_fetch());
    let second = task.on_fetched(1, FetchOutcome::Failed { cause: "y".to_string(), elapsed_ms: 2 });
    match second {
        Step::Finished(record) => {
            assert_eq!(record.url, "u");
            assert_eq!(record.status_code, 0);
            assert_eq!(record.fetch_time_ms, 2);
            assert_eq!(record.error.as_deref(), Some("Failed to scrape: y"));
        }
        other => panic!("unexpected {:?}", other),
    }
    assert_eq!(task.phase(), TaskPhase::Done);
    assert_eq!(task.attempt(), 1);
}

#[test]
fn task_response_finishes_at_once() {
    let mut task = Task::new("u".to_string());
    assert!(task.begin_fetch());
    let step = task.on_fetched(
        3,
        FetchOutcome::Response { status_code: 404, body: "<title>Gone</title>".to_string(), elapsed_ms: 8 },
    );
    match step {
        Step::Finished(record) => {
            assert_eq!(record.status_code, 404);
            assert_eq!(record.title, "Gone");
            assert_eq!(record.error, None);
            assert!(record.is_success());
            assert_eq!(record.link_count(), 0);
        }
        other => panic!("unexpected {:?}", other),
    }
    assert_eq!(task.attempt(), 0);
}

#[test]
fn report_counts() {
    let fields = extract_fields("<a href=\"http://1\"></a><a href=\"http://2\"></a>");
    let good = ScrapeResult::success("g".to_string(), 200, 5, fields);
    let bad = ScrapeResult::failure("b".to_string(), 6, "refused");
    let also = ScrapeResult::success("h".to_string(), 404, 7, extract_fields("<a href=\"https://3\"></a>"));
    assert!(good.is_success());
    assert!(!bad.is_success());
    assert_eq!(bad.error.as_deref(), Some("Failed to scrape: refused"));
    let report = BatchReport::from_results(vec![good, bad, also]);
    assert_eq!(report.len(), 3);
    assert!(!report.is_empty());
    assert_eq!(report.success_count(), 2);
    assert_eq!(report.failure_count(), 1);
    assert_eq!(report.success_count() + report.failure_count(), report.len());
    assert_eq!(report.total_links(), 3);
    assert_eq!(report.results().len(), 3);
    assert!(report.get(3).is_none());
    assert_eq!(report.get(1).unwrap().url, "b");
    let back = report.into_results();
    assert_eq!(back[2].status_code, 404);
}

#[test]
fn documents_up_to_the_bound_are_parseable() {
    assert_eq!(MAX_DOCUMENT_BYTES, 268_435_456);
    assert!(parseable(""));
    assert!(parseable("<title>t</title>"));
    let at_the_bound = "a".repeat(MAX_DOCUMENT_BYTES);
    assert!(parseable(&at_the_bound));
    let mut over = at_the_bound;
    over.push('a');
    assert!(!parseable(&over));
}

#[test]
fn the_bound_counts_bytes_not_characters() {
    // Each of these characters takes three bytes.
    let chars = MAX_DOCUMENT_BYTES / 3 + 1;
    let body = "\u{20ac}".repeat(chars);
    assert!(body.chars().count() < MAX_DOCUMENT_BYTES);
    assert!(!parseable(&body));
}

#[test]
fn oversize_body_is_a_failed_attempt() {
    let body = "a".repeat(MAX_DOCUMENT_BYTES + 1);
    let mut task = Task::new("u".to_string());
    assert!(task.begin_fetch());
    let first = task.on_fetched(1, FetchOutcome::Response { status_code: 200, body: body.clone(), elapsed_ms: 4 });
    assert!(matches!(first, Step::Retry));
    assert_eq!(task.attempt(), 1);
    assert_eq!(task.phase(), TaskPhase::RetryDue);
    assert!(task.begin_delay());
    assert!(task.end_delay());
    assert!(task.begin_fetch());
    let second = task.on_fetched(1, FetchOutcome::Response { status_code: 200, body, elapsed_ms: 5 });
    match second {
        Step::Finished(record) => {
            assert_eq!(record.status_code, 0);
            assert_eq!(record.fetch_time_ms, 5);
            assert_eq!(record.error.as_deref(), Some("Failed to scrape: response body too large to parse"));
            assert_eq!(record.title, "");
            assert!(record.links.is_empty());
        }
        other => panic!("unexpected {:?}", other),
    }
    assert_eq!(task.phase(), TaskPhase::Done);
}
