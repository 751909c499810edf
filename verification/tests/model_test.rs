use bd_watcher::model::{ActivityEvent, Component, Issue, Snapshot, Status, StatusCounts, Timestamp};

fn issue(id: &str, status: Status, issue_type: &str) -> Issue {
    Issue {
        id: id.to_string(),
        title: id.to_string(),
        description: String::new(),
        status,
        priority: 0,
        issue_type: issue_type.to_string(),
        owner: None,
        created_at: Timestamp { secs: 0, nanos: 0 },
        updated_at: Timestamp { secs: 0, nanos: 0 },
        external_ref: None,
    }
}

#[test]
fn total_counts_excludes_each_components_root() {
    let root_a = issue("ep-a", Status::Open, "epic");
    let root_b = issue("ep-b", Status::Open, "epic");
    let comp_a = Component {
        root: root_a.clone(),
        issues: vec![
            root_a,
            issue("ep-a.1", Status::Closed, "task"),
            issue("ep-a.2", Status::Open, "task"),
        ],
        dependencies: Vec::new(),
    };
    let comp_b = Component {
        root: root_b.clone(),
        issues: vec![root_b, issue("ep-b.1", Status::InProgress, "task")],
        dependencies: Vec::new(),
    };
    let snap = Snapshot {
        components: vec![comp_a, comp_b],
        fetched_at: Timestamp { secs: 0, nanos: 0 },
    };
    let c = snap.total_counts();
    // Three real sub-beads across two epics; neither root is counted.
    assert_eq!(c.total(), 3);
    assert_eq!(c.closed, 1);
    assert_eq!(c.open, 1);
    assert_eq!(c.in_progress, 1);
}

#[test]
fn total_counts_counts_shared_ids_once_and_other_roots_as_work() {
    let root_a = issue("ep-a", Status::Open, "epic");
    let root_b = issue("ep-b", Status::Open, "epic");
    // "x" occurs in both components; "ep-a" is a sub-bead of component b.
    let comp_a = Component {
        root: root_a.clone(),
        issues: vec![root_a.clone(), issue("x", Status::Blocked, "task")],
        dependencies: Vec::new(),
    };
    let comp_b = Component {
        root: root_b.clone(),
        issues: vec![root_b, issue("x", Status::Closed, "task"), root_a],
        dependencies: Vec::new(),
    };
    let snap = Snapshot {
        components: vec![comp_a, comp_b],
        fetched_at: Timestamp { secs: 0, nanos: 0 },
    };
    let c = snap.total_counts();
    assert_eq!(c.total(), 2);
    assert_eq!(c.blocked, 1);
    assert_eq!(c.closed, 0);
    assert_eq!(c.open, 1);
    assert_eq!(snap.all_issues().len(), 5);
}

#[test]
fn status_icons_and_labels() {
    assert_eq!(Status::Open.icon(), "\u{25cb}");
    assert_eq!(Status::InProgress.icon(), "\u{25d0}");
    assert_eq!(Status::Blocked.icon(), "\u{25cf}");
    assert_eq!(Status::Closed.icon(), "\u{2713}");
    assert_eq!(Status::Deferred.icon(), "\u{2744}");
    assert_eq!(Status::Open.label(), "open");
    assert_eq!(Status::InProgress.label(), "in_progress");
    assert_eq!(Status::Blocked.label(), "blocked");
    assert_eq!(Status::Closed.label(), "closed");
    assert_eq!(Status::Deferred.label(), "deferred");
}

#[test]
fn add_raises_one_tally_and_the_total() {
    let mut c = StatusCounts::default();
    assert_eq!(c.total(), 0);
    c.add(Status::Deferred);
    c.add(Status::Deferred);
    c.add(Status::Open);
    assert_eq!(c.deferred, 2);
    assert_eq!(c.open, 1);
    assert_eq!(c.closed, 0);
    assert_eq!(c.total(), 3);
}

#[test]
fn activity_event_at() {
    let t = Timestamp { secs: 42, nanos: 7 };
    let e = ActivityEvent::Removed { id: "a".to_string(), at: t };
    assert_eq!(e.at(), t);
    let e = ActivityEvent::Added {
        id: "a".to_string(),
        title: "A".to_string(),
        status: Status::Open,
        at: t,
    };
    assert_eq!(e.at(), t);
    let e = ActivityEvent::StatusChange {
        id: "a".to_string(),
        title: "A".to_string(),
        from: Status::Open,
        to: Status::Closed,
        at: t,
    };
    assert_eq!(e.at(), t);
}
