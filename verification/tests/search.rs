use window_switcher::matcher::Matcher;
use window_switcher::model::{Candidate, WindowRecord};
use window_switcher::rank::{get_matches, rank_candidates};
use window_switcher::select::records_of_fetch;

fn record(title: &str, class: &str, addr: &[u8]) -> WindowRecord {
    WindowRecord {
        address: addr.to_vec(),
        title: title.to_string(),
        class: class.to_string(),
    }
}

fn candidate(title: &str, score: i128, id: u64) -> Candidate {
    Candidate { title: title.to_string(), score, id }
}

#[test]
fn only_matching_window_is_returned() {
    let matcher = Matcher::new();
    let windows = vec![
        record("Firefox", "firefox", b"0x1"),
        record("Terminal", "kitty", b"0x2"),
    ];
    let results = get_matches(&matcher, "fire", &windows, 3);
    assert_eq!(results.len(), 1);
    assert_eq!(results[0].title, "Firefox");
    assert_eq!(results[0].id, 1);
}

#[test]
fn no_matching_window_yields_empty() {
    let matcher = Matcher::new();
    let windows = vec![
        record("Firefox", "firefox", b"0x1"),
        record("Terminal", "kitty", b"0x2"),
    ];
    let results = get_matches(&matcher, "zzqqy", &windows, 10);
    assert_eq!(results.len(), 0);
}

#[test]
fn empty_query_scores_zero_everywhere() {
    let matcher = Matcher::new();
    let windows = vec![record("Firefox", "firefox", b"0x1")];
    let results = get_matches(&matcher, "", &windows, 10);
    assert_eq!(results.len(), 0);
}

#[test]
fn search_is_deterministic() {
    let matcher = Matcher::new();
    let windows = vec![
        record("Firefox", "firefox", b"0x1"),
        record("Files", "nautilus", b"0x2"),
        record("Office", "libreoffice", b"0x3"),
    ];
    let first = get_matches(&matcher, "fi", &windows, 3);
    let second = get_matches(&matcher, "fi", &windows, 3);
    assert_eq!(first.len(), second.len());
    for (a, b) in first.iter().zip(second.iter()) {
        assert_eq!(a.title, b.title);
        assert_eq!(a.id, b.id);
    }
}

#[test]
fn lowest_score_survives_truncation() {
    let entries = vec![
        candidate("five", 5, 10),
        candidate("ten", 10, 20),
        candidate("two", 2, 30),
    ];
    let results = rank_candidates(entries, 1);
    assert_eq!(results.len(), 1);
    assert_eq!(results[0].title, "two");
    assert_eq!(results[0].id, 30);
}

#[test]
fn results_sorted_ascending_by_score() {
    let entries = vec![
        candidate("five", 5, 10),
        candidate("ten", 10, 20),
        candidate("two", 2, 30),
    ];
    let results = rank_candidates(entries, 3);
    let titles: Vec<&str> = results.iter().map(|r| r.title.as_str()).collect();
    assert_eq!(titles, vec!["two", "five", "ten"]);
}

#[test]
fn equal_scores_keep_fetch_order() {
    let entries = vec![
        candidate("first", 7, 1),
        candidate("second", 7, 2),
        candidate("third", 3, 3),
    ];
    let results = rank_candidates(entries, 3);
    let titles: Vec<&str> = results.iter().map(|r| r.title.as_str()).collect();
    assert_eq!(titles, vec!["third", "first", "second"]);
}

#[test]
fn truncation_respects_max_entries() {
    let entries = vec![
        candidate("a", 1, 1),
        candidate("b", 2, 2),
        candidate("c", 3, 3),
        candidate("d", 4, 4),
    ];
    let results = rank_candidates(entries, 2);
    assert_eq!(results.len(), 2);
    let results_all = rank_candidates(
        vec![candidate("a", 1, 1), candidate("b", 2, 2)],
        10,
    );
    assert_eq!(results_all.len(), 2);
}

#[test]
fn failed_fetch_degrades_to_empty_results() {
    let matcher = Matcher::new();
    let windows = records_of_fetch(Err("connection refused".to_string()));
    assert_eq!(windows.len(), 0);
    let results = get_matches(&matcher, "fire", &windows, 3);
    assert_eq!(results.len(), 0);
}

#[test]
fn successful_fetch_keeps_records() {
    let fetched = vec![record("Firefox", "firefox", b"0x1")];
    let windows = records_of_fetch(Ok(fetched));
    assert_eq!(windows.len(), 1);
    assert_eq!(windows[0].title, "Firefox");
}
