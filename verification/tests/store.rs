use dstat::models::DstatLog;
use dstat::store::{LogStore, StoreError};

fn sample(time: i32, name: &str, rps: i32) -> DstatLog {
    DstatLog { time, server_name: name.to_string(), rps }
}

#[test]
fn append_then_read_back() {
    let mut store = LogStore::new();
    store.append(sample(1_000, "edge1", 500)).unwrap();
    let window = store.recent_for("edge1", 60);
    assert_eq!(window.len(), 1);
    assert_eq!(window[0].time, 1_000);
    assert_eq!(window[0].server_name, "edge1");
    assert_eq!(window[0].rps, 500);
}

#[test]
fn recent_window_is_most_recent_first() {
    let mut store = LogStore::new();
    // Out-of-order arrival: the window must still come back time-descending.
    store.append(sample(1_001, "edge1", 10)).unwrap();
    store.append(sample(1_003, "edge1", 30)).unwrap();
    store.append(sample(1_002, "edge1", 20)).unwrap();
    store.append(sample(1_004, "edge2", 99)).unwrap();
    let window = store.recent_for("edge1", 60);
    let times: Vec<i32> = window.iter().map(|l| l.time).collect();
    assert_eq!(times, vec![1_003, 1_002, 1_001]);
    let rates: Vec<i32> = window.iter().map(|l| l.rps).collect();
    assert_eq!(rates, vec![30, 20, 10]);
}

#[test]
fn recent_window_honors_limit() {
    let mut store = LogStore::new();
    store.append(sample(1_001, "edge1", 10)).unwrap();
    store.append(sample(1_002, "edge1", 20)).unwrap();
    store.append(sample(1_003, "edge1", 30)).unwrap();
    let window = store.recent_for("edge1", 2);
    let times: Vec<i32> = window.iter().map(|l| l.time).collect();
    assert_eq!(times, vec![1_003, 1_002]);
}

#[test]
fn silent_server_yields_empty_window() {
    let mut store = LogStore::new();
    store.append(sample(1_000, "edge1", 500)).unwrap();
    assert!(store.recent_for("edge2", 60).is_empty());
    assert!(store.latest_for("edge2").is_none());
    let empty = LogStore::new();
    assert!(empty.recent_for("edge1", 60).is_empty());
}

#[test]
fn colliding_time_is_a_conflict() {
    let mut store = LogStore::new();
    store.append(sample(1_000, "edge1", 500)).unwrap();
    // The table is keyed by time alone: a second row in the same second
    // collides even when it comes from another server.
    let err = store.append(sample(1_000, "edge2", 7)).unwrap_err();
    assert!(matches!(err, StoreError::Conflict));
    // The failed insert left the log unchanged.
    assert_eq!(store.recent_for("edge1", 60).len(), 1);
    assert!(store.recent_for("edge2", 60).is_empty());
}

#[test]
fn latest_for_picks_the_newest_sample() {
    let mut store = LogStore::new();
    store.append(sample(1_002, "edge1", 20)).unwrap();
    store.append(sample(1_001, "edge1", 10)).unwrap();
    let latest = store.latest_for("edge1").unwrap();
    assert_eq!(latest.time, 1_002);
    assert_eq!(latest.rps, 20);
}

#[test]
fn all_latest_per_server_maps_each_reporter_once() {
    let mut store = LogStore::new();
    store.append(sample(1_001, "edge1", 10)).unwrap();
    store.append(sample(1_002, "edge2", 40)).unwrap();
    store.append(sample(1_003, "edge1", 30)).unwrap();
    let latests = store.all_latest_per_server();
    assert_eq!(latests.len(), 2);
    let mut found = latests
        .iter()
        .map(|l| (l.server_name.clone(), l.time, l.rps))
        .collect::<Vec<_>>();
    found.sort();
    assert_eq!(
        found,
        vec![("edge1".to_string(), 1_003, 30), ("edge2".to_string(), 1_002, 40)]
    );
}

#[test]
fn all_latest_per_server_of_empty_log_is_empty() {
    let store = LogStore::new();
    assert!(store.all_latest_per_server().is_empty());
}
