use window_switcher::model::WindowRecord;
use window_switcher::select::{
    find_client, outcome_of_dispatch, plan_focus, records_of_fetch, FocusPlan, Outcome,
};
use window_switcher::{Config, DEFAULT_MAX_ENTRIES};

fn record(title: &str, class: &str, addr: &[u8]) -> WindowRecord {
    WindowRecord {
        address: addr.to_vec(),
        title: title.to_string(),
        class: class.to_string(),
    }
}

#[test]
fn finds_first_record_with_identifier() {
    let windows = vec![
        record("Firefox", "firefox", b"0x1"),
        record("Terminal", "kitty", b"0x2"),
        record("Terminal 2", "kitty", b"0x2"),
    ];
    assert_eq!(find_client(&windows, 2), Some(1));
    assert_eq!(find_client(&windows, 1), Some(0));
}

#[test]
fn unknown_identifier_is_not_found() {
    let windows = vec![
        record("Firefox", "firefox", b"0x1"),
        record("Terminal", "kitty", b"0x2"),
    ];
    assert_eq!(find_client(&windows, 99), None);
}

#[test]
fn unknown_identifier_plans_no_dispatch() {
    let windows = vec![record("Firefox", "firefox", b"0x1")];
    let plan = plan_focus(&windows, 42);
    assert!(matches!(plan, FocusPlan::NotFound));
}

#[test]
fn closed_window_since_search_is_not_found() {
    let at_search = vec![
        record("Firefox", "firefox", b"0x1"),
        record("Terminal", "kitty", b"0x2"),
    ];
    let selected = find_client(&at_search, 2);
    assert_eq!(selected, Some(1));
    let at_select = vec![record("Firefox", "firefox", b"0x1")];
    let plan = plan_focus(&at_select, 2);
    assert!(matches!(plan, FocusPlan::NotFound));
}

#[test]
fn known_identifier_plans_dispatch_of_its_address() {
    let windows = vec![
        record("Firefox", "firefox", b"0x1"),
        record("Terminal", "kitty", b"0x2"),
    ];
    match plan_focus(&windows, 2) {
        FocusPlan::Dispatch(addr) => assert_eq!(addr, b"0x2".to_vec()),
        FocusPlan::NotFound => panic!("expected a dispatch plan"),
    }
}

#[test]
fn empty_snapshot_is_not_found() {
    let windows = records_of_fetch(Err("manager unreachable".to_string()));
    let plan = plan_focus(&windows, 1);
    assert!(matches!(plan, FocusPlan::NotFound));
}

#[test]
fn successful_dispatch_is_focused() {
    let outcome = outcome_of_dispatch(Ok(()));
    assert!(matches!(outcome, Outcome::Focused));
}

#[test]
fn failed_dispatch_reports_reason() {
    let outcome = outcome_of_dispatch(Err("window gone".to_string()));
    match outcome {
        Outcome::DispatchFailed(reason) => assert_eq!(reason, "window gone"),
        _ => panic!("expected a dispatch failure"),
    }
}

#[test]
fn default_configuration_allows_three_results() {
    let config = Config::default();
    assert_eq!(config.max_entries, 3);
    assert_eq!(DEFAULT_MAX_ENTRIES, 3);
}

#[test]
fn absent_or_unparsable_configuration_falls_back() {
    let config = Config::from_parse(None);
    assert_eq!(config.max_entries, 3);
    let config = Config::from_parse(Some(Config { max_entries: 7 }));
    assert_eq!(config.max_entries, 7);
}
