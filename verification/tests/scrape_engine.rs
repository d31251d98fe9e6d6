use harvest::batch::{Batch, Command, Event};
use harvest::config::{ConfigError, ScraperConfig};
use harvest::report::BatchReport;
use harvest::task::{FetchOutcome, TaskPhase};

const PAGE: &str = "<html><head><title>Hello</title>\
<meta name=\"description\" content=\"A test page\"></head>\
<body><p>First <b>bold</b></p><p>Second</p>\
<a href=\"http://example.com/a\">a</a><a href=\"/relative\">r</a>\
<a name=\"anchor\">n</a><a href=\"https://example.com/b\">b</a></body></html>";

fn config(limit: usize, retries: u32) -> ScraperConfig {
    ScraperConfig { concurrency_limit: limit, timeout_ms: 5_000, max_retries: retries, retry_delay_ms: 100 }
}

fn urls(names: &[&str]) -> Vec<String> {
    names.iter().map(|s| s.to_string()).collect()
}

fn ok(status: u16, elapsed: u128) -> FetchOutcome {
    FetchOutcome::Response { status_code: status, body: PAGE.to_string(), elapsed_ms: elapsed }
}

fn fail(cause: &str, elapsed: u128) -> FetchOutcome {
    FetchOutcome::Failed { cause: cause.to_string(), elapsed_ms: elapsed }
}

/// Runs a batch to its end. `script(url, n)` is the outcome of the n-th fetch
/// (from 1) of `url`. Fetches and pauses end in the order they were started.
/// Returns the report, the number of fetches started per task and the most
/// fetches seen in flight.
fn drive(
    names: &[&str],
    cfg: ScraperConfig,
    script: &dyn Fn(&str, u32) -> FetchOutcome,
) -> (BatchReport, Vec<u32>, usize) {
    let mut batch = Batch::new(urls(names), cfg).expect("valid configuration");
    let mut fetches = vec![0u32; names.len()];
    let mut running: std::collections::VecDeque<Event> = std::collections::VecDeque::new();
    let mut open_fetches = 0usize;
    let mut peak = 0usize;
    loop {
        match batch.next_command() {
            Command::Fetch { task, url, timeout_ms } => {
                assert_eq!(url, names[task]);
                assert_eq!(timeout_ms, cfg.timeout_ms);
                fetches[task] += 1;
                open_fetches += 1;
                peak = peak.max(open_fetches);
                assert!(open_fetches <= cfg.concurrency_limit);
                assert_eq!(batch.in_flight(), open_fetches);
                running.push_back(Event::Fetched { task, outcome: script(&url, fetches[task]) });
            }
            Command::Sleep { task, delay_ms } => {
                assert_eq!(delay_ms, cfg.retry_delay_ms);
                running.push_back(Event::DelayElapsed { task });
            }
            Command::Wait => {
                let event = running.pop_front().expect("something is running");
                if matches!(event, Event::Fetched { .. }) {
                    open_fetches -= 1;
                }
                assert!(batch.handle(event));
            }
            Command::Finished => break,
        }
    }
    assert!(running.is_empty());
    assert!(batch.is_finished());
    (batch.into_report().expect("finished"), fetches, peak)
}

#[test]
fn report_has_one_record_per_url_duplicates_too() {
    let names = ["u1", "u2", "u1", "u1", "u3"];
    let (report, fetches, _) = drive(&names, config(2, 1), &|_, _| ok(200, 5));
    assert_eq!(report.len(), names.len());
    for (i, name) in names.iter().enumerate() {
        assert_eq!(report.get(i).unwrap().url, *name);
    }
    assert_eq!(fetches, vec![1, 1, 1, 1, 1]);
}

#[test]
fn attempts_are_one_plus_the_failures_up_to_the_retries() {
    for max_retries in 0u32..4 {
        for k in 0u32..6 {
            let (report, fetches, _) = drive(&["u"], config(1, max_retries), &|_, n| {
                if n <= k { fail("timeout", 7) } else { ok(200, 9) }
            });
            assert_eq!(fetches[0], 1 + k.min(max_retries));
            assert!(fetches[0] <= max_retries + 1);
            let record = report.get(0).unwrap();
            assert_eq!(record.error.is_none(), k <= max_retries);
        }
    }
}

#[test]
fn fetches_in_flight_never_exceed_the_limit() {
    let names: Vec<String> = (0..25).map(|i| format!("u{}", i)).collect();
    let refs: Vec<&str> = names.iter().map(|s| s.as_str()).collect();
    for limit in 1usize..5 {
        let (report, _, peak) = drive(&refs, config(limit, 2), &|url, n| {
            if url.ends_with('3') && n < 3 { fail("reset", 1) } else { ok(200, 1) }
        });
        assert_eq!(report.len(), 25);
        assert_eq!(peak, limit);
    }
}

#[test]
fn http_error_status_is_a_terminal_success() {
    let (report, fetches, _) = drive(&["u"], config(2, 3), &|_, _| ok(500, 42));
    assert_eq!(fetches, vec![1]);
    let record = report.get(0).unwrap();
    assert_eq!(record.status_code, 500);
    assert_eq!(record.error, None);
    assert_eq!(record.fetch_time_ms, 42);
    assert_eq!(record.title, "Hello");
    assert_eq!(record.description.as_deref(), Some("A test page"));
    assert_eq!(record.first_paragraph.as_deref(), Some("First <b>bold</b>"));
    assert_eq!(record.links, vec!["http://example.com/a".to_string(), "https://example.com/b".to_string()]);
    assert_eq!(report.success_count(), 1);
    assert_eq!(report.failure_count(), 0);
}

#[test]
fn constant_timeout_gives_up_after_max_retries() {
    let (report, fetches, _) = drive(&["u"], config(2, 3), &|_, n| fail("timed out", 100 + n as u128));
    assert_eq!(fetches, vec![4]);
    let record = report.get(0).unwrap();
    assert_eq!(record.status_code, 0);
    assert_eq!(record.error.as_deref(), Some("Failed to scrape: timed out"));
    assert_eq!(record.fetch_time_ms, 104);
    assert_eq!(record.title, "");
    assert_eq!(record.description, None);
    assert_eq!(record.first_paragraph, None);
    assert!(record.links.is_empty());
    assert_eq!(report.success_count(), 0);
    assert_eq!(report.failure_count(), 1);
    assert_eq!(report.total_links(), 0);
}

#[test]
fn scenario_b_fails_twice_then_succeeds() {
    let cfg = config(2, 2);
    let mut batch = Batch::new(urls(&["a", "b", "c"]), cfg).unwrap();
    // Two slots: a and b start, c has to wait.
    assert!(matches!(batch.next_command(), Command::Fetch { task: 0, .. }));
    assert!(matches!(batch.next_command(), Command::Fetch { task: 1, .. }));
    assert!(matches!(batch.next_command(), Command::Wait));
    assert_eq!(batch.in_flight(), 2);
    // b fails: it owes a pause and holds no slot, so c starts at once.
    assert!(batch.handle(Event::Fetched { task: 1, outcome: fail("reset", 11) }));
    assert_eq!(batch.in_flight(), 1);
    match batch.next_command() {
        Command::Sleep { task, delay_ms } => {
            assert_eq!(task, 1);
            assert_eq!(delay_ms, 100);
        }
        other => panic!("unexpected {:?}", other),
    }
    assert!(matches!(batch.next_command(), Command::Fetch { task: 2, .. }));
    assert!(matches!(batch.next_command(), Command::Wait));
    // a and c finish while b is still asleep.
    assert!(batch.handle(Event::Fetched { task: 0, outcome: ok(200, 20) }));
    assert!(batch.handle(Event::Fetched { task: 2, outcome: ok(200, 30) }));
    assert_eq!(batch.phase_of(0), Some(TaskPhase::Done));
    assert_eq!(batch.phase_of(2), Some(TaskPhase::Done));
    assert_eq!(batch.phase_of(1), Some(TaskPhase::Sleeping));
    assert_eq!(batch.in_flight(), 0);
    assert!(matches!(batch.next_command(), Command::Wait));
    assert!(!batch.is_finished());
    // b: second attempt fails, third succeeds.
    assert!(batch.handle(Event::DelayElapsed { task: 1 }));
    assert!(matches!(batch.next_command(), Command::Fetch { task: 1, .. }));
    assert!(batch.handle(Event::Fetched { task: 1, outcome: fail("reset", 12) }));
    assert!(matches!(batch.next_command(), Command::Sleep { task: 1, delay_ms: 100 }));
    assert!(batch.handle(Event::DelayElapsed { task: 1 }));
    assert!(matches!(batch.next_command(), Command::Fetch { task: 1, .. }));
    assert_eq!(batch.fetches_started(1), Some(3));
    assert!(batch.handle(Event::Fetched { task: 1, outcome: ok(200, 13) }));
    assert!(matches!(batch.next_command(), Command::Finished));
    let report = batch.into_report().unwrap();
    assert_eq!(report.len(), 3);
    let b = report.get(1).unwrap();
    assert_eq!(b.url, "b");
    assert_eq!(b.error, None);
    assert_eq!(b.fetch_time_ms, 13);
    assert_eq!(report.get(0).unwrap().fetch_time_ms, 20);
    assert_eq!(report.get(2).unwrap().fetch_time_ms, 30);
    assert_eq!(report.success_count(), 3);
    assert_eq!(report.total_links(), 6);
}

#[test]
fn empty_input_finishes_without_a_fetch() {
    let mut batch = Batch::new(Vec::new(), config(2, 2)).unwrap();
    assert_eq!(batch.len(), 0);
    assert!(batch.is_finished());
    assert!(matches!(batch.next_command(), Command::Finished));
    let report = batch.into_report().unwrap();
    assert!(report.is_empty());
    assert_eq!(report.len(), 0);
    assert_eq!(report.success_count(), 0);
    assert_eq!(report.failure_count(), 0);
    assert_eq!(report.total_links(), 0);
}

#[test]
fn zero_concurrency_is_refused() {
    let cfg = config(0, 2);
    assert_eq!(cfg.validate(), Err(ConfigError::ZeroConcurrency));
    assert!(matches!(Batch::new(urls(&["a"]), cfg), Err(ConfigError::ZeroConcurrency)));
    assert!(matches!(Batch::new(Vec::new(), cfg), Err(ConfigError::ZeroConcurrency)));
    assert_eq!(config(1, 0).validate(), Ok(()));
}

#[test]
fn default_configuration() {
    let cfg = ScraperConfig::default();
    assert_eq!(cfg.concurrency_limit, 10);
    assert_eq!(cfg.timeout_ms, 30_000);
    assert_eq!(cfg.max_retries, 3);
    assert_eq!(cfg.retry_delay_ms, 500);
    assert_eq!(cfg.validate(), Ok(()));
}

#[test]
fn events_out_of_turn_change_nothing() {
    let mut batch = Batch::new(urls(&["a"]), config(1, 1)).unwrap();
    assert!(!batch.handle(Event::Fetched { task: 0, outcome: ok(200, 1) }));
    assert!(!batch.handle(Event::DelayElapsed { task: 0 }));
    assert!(!batch.handle(Event::DelayElapsed { task: 7 }));
    assert!(!batch.handle(Event::Fetched { task: 7, outcome: ok(200, 1) }));
    assert_eq!(batch.phase_of(0), Some(TaskPhase::Ready));
    assert_eq!(batch.phase_of(7), None);
    assert_eq!(batch.fetches_started(0), Some(0));
    assert!(batch.into_report().is_none());
}

#[test]
fn unfinished_batch_gives_no_report() {
    let mut batch = Batch::new(urls(&["a", "b"]), config(1, 0)).unwrap();
    assert!(matches!(batch.next_command(), Command::Fetch { task: 0, .. }));
    assert!(matches!(batch.next_command(), Command::Wait));
    assert!(batch.handle(Event::Fetched { task: 0, outcome: fail("dns", 3) }));
    assert_eq!(batch.phase_of(0), Some(TaskPhase::Done));
    assert!(!batch.is_finished());
    assert!(batch.into_report().is_none());
}
