use dstat::ingest::{submit_report, IngestError};
use dstat::models::{DstatLog, DstatServer};
use dstat::query::{dashboard_target, fleet_status, rate_for};
use dstat::store::{LogStore, StoreError};

const SECRET: &str = "correct-secret";

fn server(id: &str, name: &str) -> DstatServer {
    DstatServer {
        server_id: id.to_string(),
        category: "edge".to_string(),
        server_name: name.to_string(),
        url: format!("https://{}.example", name),
    }
}

fn sample(time: i32, name: &str, rps: i32) -> DstatLog {
    DstatLog { time, server_name: name.to_string(), rps }
}

#[test]
fn accepted_report_is_read_back_until_stale() {
    let mut store = LogStore::new();
    submit_report(&mut store, SECRET, "edge1", 500, "correct-secret", 1_000).unwrap();
    assert_eq!(rate_for(&store, "edge1", 1_001), 500);
    assert_eq!(rate_for(&store, "edge1", 1_010), 0);
}

#[test]
fn wrong_secret_is_rejected_before_any_write() {
    let mut store = LogStore::new();
    let err = submit_report(&mut store, SECRET, "edge1", 500, "wrong-secret", 1_000).unwrap_err();
    assert!(matches!(err, IngestError::Unauthorized));
    assert!(store.recent_for("edge1", 60).is_empty());
    assert_eq!(rate_for(&store, "edge1", 1_000), 0);
}

#[test]
fn wrong_secret_leaves_prior_rows_alone() {
    let mut store = LogStore::new();
    submit_report(&mut store, SECRET, "edge1", 500, SECRET, 1_000).unwrap();
    let err = submit_report(&mut store, SECRET, "edge1", 900, "guess", 1_001).unwrap_err();
    assert!(matches!(err, IngestError::Unauthorized));
    let window = store.recent_for("edge1", 60);
    assert_eq!(window.len(), 1);
    assert_eq!(window[0].rps, 500);
}

#[test]
fn colliding_report_surfaces_as_storage_conflict() {
    let mut store = LogStore::new();
    submit_report(&mut store, SECRET, "edge1", 500, SECRET, 1_000).unwrap();
    let err = submit_report(&mut store, SECRET, "edge2", 7, SECRET, 1_000).unwrap_err();
    assert!(matches!(err, IngestError::Storage(StoreError::Conflict)));
    assert!(store.recent_for("edge2", 60).is_empty());
}

#[test]
fn fleet_status_covers_silent_servers_without_error() {
    let catalog = vec![server("id1", "edge1"), server("id2", "edge2")];
    let mut store = LogStore::new();
    store.append(sample(1_000, "edge1", 500)).unwrap();
    let statuses = fleet_status(&catalog, &store, 1_001);
    assert_eq!(statuses.len(), 2);
    assert_eq!(statuses[0].0, "edge1");
    assert!(statuses[0].1);
    assert_eq!(statuses[1].0, "edge2");
    assert!(!statuses[1].1);
}

#[test]
fn fleet_status_marks_stale_reporters_offline() {
    let catalog = vec![server("id1", "edge1")];
    let mut store = LogStore::new();
    store.append(sample(1_000, "edge1", 500)).unwrap();
    let statuses = fleet_status(&catalog, &store, 1_010);
    assert_eq!(statuses.len(), 1);
    assert!(!statuses[0].1);
}

#[test]
fn fleet_status_of_empty_catalog_is_empty() {
    let store = LogStore::new();
    let statuses = fleet_status(&Vec::new(), &store, 1_000);
    assert!(statuses.is_empty());
}

#[test]
fn default_dashboard_target_is_the_first_entry() {
    let catalog = vec![server("id1", "edge1"), server("id2", "edge2")];
    let first = dashboard_target(&catalog, None).unwrap();
    assert_eq!(first.server_name, "edge1");
    assert_eq!(first.server_id, "id1");
    // Deterministic for a fixed catalog snapshot.
    let again = dashboard_target(&catalog, None).unwrap();
    assert_eq!(again.server_name, first.server_name);
    assert_eq!(again.url, first.url);
}

#[test]
fn requested_dashboard_target_matches_by_name() {
    let catalog = vec![server("id1", "edge1"), server("id2", "edge2")];
    let hit = dashboard_target(&catalog, Some("edge2")).unwrap();
    assert_eq!(hit.server_id, "id2");
    assert_eq!(hit.url, "https://edge2.example");
}

#[test]
fn unknown_dashboard_target_is_not_found() {
    let catalog = vec![server("id1", "edge1"), server("id2", "edge2")];
    assert!(dashboard_target(&catalog, Some("missing")).is_err());
    assert!(dashboard_target(&Vec::new(), None).is_err());
}
