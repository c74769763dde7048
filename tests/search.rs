use imdb_id::search::{classify, reading_pause};
use imdb_id::{get_results, FanOut, MediaType, RequestError, RequestOutcome, SearchError, SearchResult, Year};

fn result(id: &str) -> SearchResult {
    SearchResult {
        title: format!("title {id}"),
        year: Year::new(2000, 2000),
        imdb_id: id.to_string(),
        media_type: MediaType::movie(),
    }
}

fn page(ids: &[&str]) -> RequestOutcome {
    RequestOutcome::Results(ids.iter().map(|id| result(id)).collect())
}

fn recoverable() -> RequestOutcome {
    let json_error = serde_json::from_str::<serde_json::Value>("{").unwrap_err();
    RequestOutcome::Failure(RequestError::Deserialisation(json_error, "{".to_string()))
}

fn fatal(msg: &str) -> RequestOutcome {
    RequestOutcome::Failure(RequestError::Omdb(msg.to_string()))
}

fn ids(results: &[SearchResult]) -> Vec<String> {
    results.iter().map(|r| r.imdb_id.clone()).collect()
}

#[test]
fn merge_takes_rank_zero_of_every_page_first() {
    let out = get_results(vec![page(&["a", "b", "c"]), page(&["x", "y"])]).unwrap();
    assert_eq!(ids(&out), vec!["a", "x", "b", "y", "c"]);
}

#[test]
fn merge_of_three_pages_keeps_page_order_on_ties() {
    let out = get_results(vec![page(&["a1", "a2"]), page(&["b1"]), page(&["c1", "c2", "c3"])]).unwrap();
    assert_eq!(ids(&out), vec!["a1", "b1", "c1", "a2", "c2", "c3"]);
}

#[test]
fn repeated_id_keeps_the_earlier_page() {
    let first = RequestOutcome::Results(vec![SearchResult { title: "first".to_string(), ..result("tt1") }, result("a")]);
    let second = RequestOutcome::Results(vec![SearchResult { title: "second".to_string(), ..result("tt1") }, result("b")]);
    let out = get_results(vec![first, second]).unwrap();
    assert_eq!(ids(&out), vec!["tt1", "a", "b"]);
    assert_eq!(out[0].title, "first");
}

#[test]
fn all_not_found_means_no_matches() {
    let out = get_results(vec![
        RequestOutcome::EmptyNotFound,
        RequestOutcome::EmptyNotFound,
        RequestOutcome::EmptyNotFound,
    ]);
    assert!(matches!(out, Err(SearchError::NoMatches)));
}

#[test]
fn only_recoverable_failures_report_the_last() {
    let out = get_results(vec![recoverable(), recoverable()]);
    assert!(matches!(out, Err(SearchError::AllFailed(RequestError::Deserialisation(_, _)))));
    let mixed = get_results(vec![recoverable(), RequestOutcome::EmptyNotFound]);
    assert!(matches!(mixed, Err(SearchError::NoMatches)));
}

#[test]
fn fatal_failure_short_circuits() {
    let out = get_results(vec![
        page(&["a"]),
        fatal("Request limit reached!"),
        page(&["b"]),
        page(&["c"]),
        page(&["d"]),
    ]);
    match out {
        Err(SearchError::Fatal(RequestError::Omdb(msg))) => assert_eq!(msg, "Request limit reached!"),
        other => panic!("unexpected outcome {other:?}"),
    }
}

#[test]
fn two_kinds_two_years_all_succeed() {
    let out = get_results(vec![page(&["m90"]), page(&["s90"]), page(&["m91"]), page(&["s91"])]).unwrap();
    assert_eq!(ids(&out), vec!["m90", "s90", "m91", "s91"]);
}

#[test]
fn recoverable_failures_are_skipped() {
    let out = get_results(vec![recoverable(), page(&["a", "b"]), RequestOutcome::EmptyNotFound, page(&["c"])]).unwrap();
    assert_eq!(ids(&out), vec!["a", "c", "b"]);
}

#[test]
fn fan_out_state_machine() {
    let mut fan = FanOut::new();
    assert!(fan.record(recoverable()).is_ok());
    assert!(fan.record(page(&["a"])).is_ok());
    assert!(fan.record(recoverable()).is_ok());
    assert_eq!(fan.warnings, 2);
    assert_eq!(fan.reading_time_ms(), 400);
    assert!(matches!(fan.record(fatal("Invalid API key!")), Err(RequestError::Omdb(_))));
    assert_eq!(fan.pages.len(), 1);
    let out = fan.finish().unwrap();
    assert_eq!(ids(&out), vec!["a"]);
    assert!(matches!(FanOut::new().finish(), Err(SearchError::NoMatches)));
}

#[test]
fn reading_pause_rules() {
    assert_eq!(reading_pause(true, 3, 400), 400);
    assert_eq!(reading_pause(false, 3, 400), 0);
    assert_eq!(reading_pause(true, 0, 400), 0);
}

#[test]
fn classify_responses() {
    assert!(matches!(classify(Err(RequestError::Omdb("Movie not found!".to_string()))), RequestOutcome::EmptyNotFound));
    assert!(matches!(classify(Err(RequestError::Omdb("Too many results.".to_string()))), RequestOutcome::Failure(RequestError::Omdb(_))));
    assert!(matches!(classify(Ok(vec![result("a")])), RequestOutcome::Results(v) if v.len() == 1));
}
