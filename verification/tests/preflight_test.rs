use bd_watcher::model::{Component, Issue, Snapshot, Status, Timestamp};
use bd_watcher::preflight::{
    check_snapshot, classify_failure, classify_lowered, poll_interval, Preflight,
};

fn root(kind: &str) -> Issue {
    Issue {
        id: "ep-1".to_string(),
        title: "Root".to_string(),
        description: String::new(),
        status: Status::Open,
        priority: 1,
        issue_type: kind.to_string(),
        owner: None,
        created_at: Timestamp { secs: 0, nanos: 0 },
        updated_at: Timestamp { secs: 0, nanos: 0 },
        external_ref: None,
    }
}

fn snapshot_of(kind: &str) -> Snapshot {
    let r = root(kind);
    Snapshot {
        components: vec![Component { root: r.clone(), issues: vec![r], dependencies: Vec::new() }],
        fetched_at: Timestamp { secs: 0, nanos: 0 },
    }
}

#[test]
fn poll_interval_is_at_least_one_second() {
    assert_eq!(poll_interval(0), 1);
    assert_eq!(poll_interval(1), 1);
    assert_eq!(poll_interval(30), 30);
}

#[test]
fn focusing_an_epic_is_ready() {
    assert_eq!(check_snapshot(true, &snapshot_of("epic")), Preflight::Ready);
}

#[test]
fn focusing_a_task_is_refused_with_its_type() {
    assert_eq!(
        check_snapshot(true, &snapshot_of("task")),
        Preflight::NotAnEpic { kind: "task".to_string() }
    );
}

#[test]
fn unfocused_or_empty_snapshots_are_ready() {
    assert_eq!(check_snapshot(false, &snapshot_of("task")), Preflight::Ready);
    let empty = Snapshot { components: Vec::new(), fetched_at: Timestamp { secs: 0, nanos: 0 } };
    assert_eq!(check_snapshot(true, &empty), Preflight::Ready);
}

#[test]
fn failures_are_classified_by_message() {
    assert_eq!(
        classify_failure(false, "Error: No beads database found in /tmp"),
        Preflight::NoDatabase
    );
    assert_eq!(classify_failure(true, "issue ep-9 NOT FOUND"), Preflight::EpicNotFound);
    assert_eq!(classify_failure(false, "issue ep-9 not found"), Preflight::Failed);
    assert_eq!(classify_failure(true, "permission denied"), Preflight::Failed);
    assert_eq!(classify_lowered(true, "not found"), Preflight::EpicNotFound);
}
