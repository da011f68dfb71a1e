use bulk_delete::config::{ConfigError, Settings};
use bulk_delete::deleter::Dispatch;
use bulk_delete::exchange::{Cause, Method, Reply, Verdict};
use bulk_delete::lister::{Fatal, ListReply};
use bulk_delete::model::DecodeError;
use bulk_delete::run::{Action, Event, Run};

fn settings(delete_url: Option<&str>) -> Settings {
    Settings {
        base_url: Some(String::from("https://x/list")),
        query: Some(String::from("?q=1")),
        api_token: Some(String::from("tok")),
        delete_url: delete_url.map(String::from),
    }
}

fn response(status: u16, body: &str) -> Event {
    Event::Listed(ListReply::Response { status, body: String::from(body) })
}

fn listing_run(limit: usize, delete_url: Option<&str>) -> Run {
    let (run, action) = Run::new(limit).step(Event::Start(settings(delete_url)));
    assert!(matches!(action, Action::Fetch(_)));
    run
}

fn urls(batch: &[Dispatch]) -> Vec<(usize, &str)> {
    batch.iter().map(|d| (d.index, d.request.url.as_str())).collect()
}

#[test]
fn missing_base_url_ends_the_run_before_any_request() {
    let mut s = settings(None);
    s.base_url = None;
    let (run, action) = Run::new(10).step(Event::Start(s));
    assert!(matches!(run, Run::Done));
    assert!(matches!(action, Action::Abort(Fatal::Config(ConfigError::MissingBaseUrl))));
    let (run, action) = run.step(response(200, "{\"items\":[{\"id\":\"a\"}],\"total\":1}"));
    assert!(matches!(run, Run::Done));
    assert!(matches!(action, Action::Ignore));
}

#[test]
fn missing_query_or_token_ends_the_run() {
    let mut s = settings(None);
    s.query = None;
    let (_, action) = Run::new(10).step(Event::Start(s));
    assert!(matches!(action, Action::Abort(Fatal::Config(ConfigError::MissingQuery))));
    let mut s = settings(None);
    s.api_token = None;
    let (_, action) = Run::new(10).step(Event::Start(s));
    assert!(matches!(action, Action::Abort(Fatal::Config(ConfigError::MissingToken))));
}

#[test]
fn start_asks_for_the_list_request() {
    let (run, action) = Run::new(10).step(Event::Start(settings(None)));
    assert!(matches!(run, Run::Listing { limit: 10, .. }));
    match action {
        Action::Fetch(request) => {
            assert_eq!(request.method, Method::Get);
            assert_eq!(request.url, "https://x/list?q=1");
            assert_eq!(request.authorization, "Bearer tok");
        }
        other => panic!("unexpected action {:?}", other),
    }
}

#[test]
fn malformed_list_address_ends_the_run() {
    let mut s = settings(None);
    s.base_url = Some(String::from("no address"));
    let (run, action) = Run::new(10).step(Event::Start(s));
    assert!(matches!(run, Run::Done));
    assert!(matches!(action, Action::Abort(Fatal::Decode(DecodeError::ListAddress))));
}

#[test]
fn two_items_one_deleted_one_missing() {
    let run = listing_run(10, Some("https://x/r/"));
    let (run, action) = run.step(response(200, "{\"items\":[{\"id\":\"a\"},{\"id\":\"b\"}],\"total\":2}"));
    match &action {
        Action::Launch { advisory, batch } => {
            assert_eq!(*advisory, None);
            assert_eq!(urls(batch), vec![(0, "https://x/r/a"), (1, "https://x/r/b")]);
            assert!(batch.iter().all(|d| d.request.method == Method::Delete));
            assert!(batch.iter().all(|d| d.request.authorization == "Bearer tok"));
        }
        other => panic!("unexpected action {:?}", other),
    }
    let (run, action) = run.step(Event::Deleted { index: 1, reply: Reply::Status(404) });
    assert!(matches!(run, Run::Deleting(_)));
    assert!(matches!(&action, Action::Launch { advisory: None, batch } if batch.is_empty()));
    let (run, action) = run.step(Event::Deleted { index: 0, reply: Reply::Status(204) });
    assert!(matches!(run, Run::Reporting));
    match action {
        Action::Report { advisory, report } => {
            assert_eq!(advisory, None);
            assert_eq!(report.attempted(), 2);
            assert_eq!(report.outcomes[0].id, "a");
            assert_eq!(report.outcomes[0].url, "https://x/r/a");
            assert_eq!(report.outcomes[0].verdict, Verdict::Succeeded);
            assert_eq!(report.outcomes[1].id, "b");
            assert_eq!(report.outcomes[1].url, "https://x/r/b");
            assert_eq!(report.outcomes[1].verdict, Verdict::Failed(Cause::Status(404)));
            assert_eq!(report.failures(), vec![1]);
        }
        other => panic!("unexpected action {:?}", other),
    }
    let (run, action) = run.step(Event::Reported);
    assert!(matches!(run, Run::Done));
    assert!(matches!(action, Action::Exit));
}

#[test]
fn deleting_what_is_gone_is_a_recorded_failure() {
    let run = listing_run(1, None);
    let (run, _) = run.step(response(200, "{\"items\":[{\"id\":\"a\"},{\"id\":\"b\"}],\"total\":2}"));
    let (run, action) = run.step(Event::Deleted { index: 0, reply: Reply::Status(404) });
    match &action {
        Action::Launch { batch, .. } => assert_eq!(urls(batch), vec![(1, "https://x/list/b")]),
        other => panic!("unexpected action {:?}", other),
    }
    let (_, action) = run.step(Event::Deleted {
        index: 1,
        reply: Reply::Failed(String::from("connection reset")),
    });
    match action {
        Action::Report { report, .. } => {
            assert_eq!(report.failures(), vec![0, 1]);
            assert_eq!(
                report.outcomes[1].verdict,
                Verdict::Failed(Cause::Transport(String::from("connection reset")))
            );
        }
        other => panic!("unexpected action {:?}", other),
    }
}

#[test]
fn list_status_that_is_no_success_is_advisory() {
    let run = listing_run(10, None);
    let (run, action) = run.step(response(500, "{\"items\":[{\"uuid\":\"u\"}],\"total\":1}"));
    assert!(matches!(run, Run::Deleting(_)));
    match &action {
        Action::Launch { advisory, batch } => {
            assert_eq!(*advisory, Some(500));
            assert_eq!(urls(batch), vec![(0, "https://x/list/u")]);
        }
        other => panic!("unexpected action {:?}", other),
    }
}

#[test]
fn empty_listing_is_reported_at_once() {
    let run = listing_run(10, None);
    let (run, action) = run.step(response(404, "{\"items\":[],\"total\":0}"));
    assert!(matches!(run, Run::Reporting));
    match action {
        Action::Report { advisory, report } => {
            assert_eq!(advisory, Some(404));
            assert_eq!(report.attempted(), 0);
        }
        other => panic!("unexpected action {:?}", other),
    }
}

#[test]
fn list_failures_end_the_run() {
    let (run, action) = listing_run(10, None).step(Event::Listed(ListReply::Failed(String::from("refused"))));
    assert!(matches!(run, Run::Done));
    assert!(matches!(action, Action::Abort(Fatal::Transport(reason)) if reason == "refused"));
    let (run, action) = listing_run(10, None).step(response(200, "not json"));
    assert!(matches!(run, Run::Done));
    assert!(matches!(action, Action::Abort(Fatal::Decode(DecodeError::Syntax))));
    let (_, action) = listing_run(10, None).step(response(200, "{\"items\":[{}],\"total\":1}"));
    assert!(matches!(action, Action::Abort(Fatal::Decode(DecodeError::Identifier(0)))));
}

#[test]
fn malformed_delete_address_ends_the_run_before_any_deletion() {
    let run = listing_run(10, Some("nowhere"));
    let (run, action) = run.step(response(200, "{\"items\":[{\"id\":\"a\"}],\"total\":1}"));
    assert!(matches!(run, Run::Done));
    assert!(matches!(action, Action::Abort(Fatal::Decode(DecodeError::DeleteAddress(0)))));
}

#[test]
fn events_of_another_phase_change_nothing() {
    let (run, action) = Run::new(3).step(Event::Reported);
    assert!(matches!(run, Run::Idle { limit: 3 }));
    assert!(matches!(action, Action::Ignore));
    let (run, action) = listing_run(3, None).step(Event::Deleted { index: 0, reply: Reply::Status(200) });
    assert!(matches!(run, Run::Listing { limit: 3, .. }));
    assert!(matches!(action, Action::Ignore));
    let (run, _) = run.step(response(200, "{\"items\":[{\"id\":\"a\"},{\"id\":\"b\"}],\"total\":2}"));
    let (run, action) = run.step(Event::Deleted { index: 7, reply: Reply::Status(200) });
    assert!(matches!(action, Action::Ignore));
    let (run, action) = run.step(Event::Start(settings(None)));
    assert!(matches!(run, Run::Deleting(_)));
    assert!(matches!(action, Action::Ignore));
}

#[test]
fn every_listed_item_gets_one_request_and_one_outcome() {
    let ids: Vec<String> = (0..37).map(|i| format!("{{\"id\":\"r{}\"}}", i)).collect();
    let body = format!("{{\"items\":[{}],\"total\":37}}", ids.join(","));
    let (mut run, mut action) = listing_run(5, Some("https://x/r")).step(response(200, &body));
    let mut sent: Vec<usize> = Vec::new();
    let mut in_flight: Vec<usize> = Vec::new();
    let report = loop {
        match action {
            Action::Launch { batch, .. } => {
                sent.extend(batch.iter().map(|d| d.index));
                in_flight.extend(batch.iter().map(|d| d.index));
                assert!(in_flight.len() <= 5);
                let index = in_flight.pop().unwrap();
                let status = if index % 3 == 0 { 404 } else { 204 };
                let next = run.step(Event::Deleted { index, reply: Reply::Status(status) });
                run = next.0;
                action = next.1;
            }
            Action::Report { report, .. } => break report,
            other => panic!("unexpected action {:?}", other),
        }
    };
    sent.sort();
    assert_eq!(sent, (0..37).collect::<Vec<usize>>());
    assert_eq!(report.attempted(), 37);
    assert_eq!(report.failures(), (0..37).filter(|i| i % 3 == 0).collect::<Vec<usize>>());
    for (i, outcome) in report.outcomes.iter().enumerate() {
        assert_eq!(outcome.id, format!("r{}", i));
        assert_eq!(outcome.url, format!("https://x/r/r{}", i));
    }
}
