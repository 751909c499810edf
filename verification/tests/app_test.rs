use std::path::PathBuf;

use bd_watcher::app::{App, FocusedPane, Key, KeyAction, View, ACTIVITY_CAP};
use bd_watcher::gh::GhRepo;
use bd_watcher::model::{
    ActivityEvent, Component, DepType, Dependency, Issue, Snapshot, Status, Timestamp,
};
use bd_watcher::theme::{self, ThemeName};

fn issue(id: &str, status: Status, issue_type: &str) -> Issue {
    Issue {
        id: id.to_string(),
        title: id.to_string(),
        description: String::new(),
        status,
        priority: 0,
        issue_type: issue_type.to_string(),
        owner: None,
        created_at: Timestamp { secs: 0, nanos: 0 },
        updated_at: Timestamp { secs: 0, nanos: 0 },
        external_ref: None,
    }
}

fn now() -> Timestamp {
    Timestamp { secs: 1_700_000_000, nanos: 0 }
}

fn app_with_focused_epic(children: &[&str]) -> App {
    let root = issue("ep", Status::Open, "epic");
    let mut issues = vec![root.clone()];
    for id in children {
        issues.push(issue(id, Status::Open, "task"));
    }
    // Simple chain of dependencies so compute_layers sees the
    // children in Layer 0, Layer 1, ... matching the given order.
    let mut deps: Vec<Dependency> = Vec::new();
    for window in children.windows(2) {
        deps.push(Dependency {
            issue_id: window[1].to_string(),
            depends_on_id: window[0].to_string(),
            dep_type: DepType::Blocks,
        });
    }
    let snap = Snapshot {
        components: vec![Component {
            root,
            issues,
            dependencies: deps,
        }],
        fetched_at: now(),
    };
    let mut app = App::new(
        theme::resolve(Some(ThemeName::Default), None),
        PathBuf::from("/tmp"),
        Some("ep".to_string()),
        5,
    );
    app.apply_snapshot(snap, Vec::new());
    app
}

#[test]
fn move_sub_selection_clamps_at_both_ends() {
    let mut app = app_with_focused_epic(&["ep.1", "ep.2", "ep.3"]);
    assert_eq!(app.selected_sub, 0);

    app.move_sub_selection(-1); // can't go below 0
    assert_eq!(app.selected_sub, 0);

    app.move_sub_selection(1);
    assert_eq!(app.selected_sub, 1);
    app.move_sub_selection(1);
    assert_eq!(app.selected_sub, 2);

    app.move_sub_selection(1); // can't go past last
    assert_eq!(app.selected_sub, 2);
}

#[test]
fn jump_first_and_last_sub_work() {
    let mut app = app_with_focused_epic(&["ep.1", "ep.2", "ep.3"]);
    app.jump_last_sub();
    assert_eq!(app.selected_sub, 2);
    app.jump_first_sub();
    assert_eq!(app.selected_sub, 0);
}

#[test]
fn selected_sub_bead_returns_correct_issue() {
    let mut app = app_with_focused_epic(&["ep.a", "ep.b"]);
    app.jump_last_sub();
    let sel = app.selected_sub_bead().expect("has selection");
    assert_eq!(sel.id, "ep.b");
}

#[test]
fn apply_snapshot_clamps_out_of_range_selection() {
    let mut app = app_with_focused_epic(&["ep.1", "ep.2", "ep.3"]);
    app.jump_last_sub();
    assert_eq!(app.selected_sub, 2);

    // New snapshot with only one child — selection must clamp.
    let root = issue("ep", Status::Open, "epic");
    let snap = Snapshot {
        components: vec![Component {
            root: root.clone(),
            issues: vec![root, issue("ep.1", Status::Open, "task")],
            dependencies: Vec::new(),
        }],
        fetched_at: now(),
    };
    app.apply_snapshot(snap, Vec::new());
    assert_eq!(app.selected_sub, 0);
}

#[test]
fn move_sub_selection_noop_when_no_focus() {
    let mut app = App::new(
        theme::resolve(Some(ThemeName::Default), None),
        PathBuf::from("/tmp"),
        None,
        5,
    );
    app.move_sub_selection(1);
    assert_eq!(app.selected_sub, 0);
}

fn all_epics_app(ids: &[(&str, &str)]) -> App {
    let mut comps = Vec::new();
    for (id, title) in ids {
        let mut root = issue(id, Status::Open, "epic");
        root.title = title.to_string();
        comps.push(Component {
            root: root.clone(),
            issues: vec![root],
            dependencies: Vec::new(),
        });
    }
    let mut app = App::new(
        theme::resolve(None, None),
        PathBuf::from("/tmp"),
        None,
        5,
    );
    app.apply_snapshot(
        Snapshot {
            components: comps,
            fetched_at: now(),
        },
        Vec::new(),
    );
    app
}

#[test]
fn filter_matches_id_or_title_ignoring_case() {
    let mut app = all_epics_app(&[("ab-1", "Alpha"), ("cd-2", "Beta"), ("ef-3", "gamma ALPHA")]);
    let snap = app.snapshot.clone().unwrap();
    assert_eq!(app.filtered_epic_indices(&snap), vec![0, 1, 2]);
    app.filter = "ALP".to_string();
    assert_eq!(app.filtered_epic_indices(&snap), vec![0, 2]);
    app.filter = "CD".to_string();
    assert_eq!(app.filtered_epic_indices(&snap), vec![1]);
    app.filter = "zzz".to_string();
    assert_eq!(app.filtered_epic_indices(&snap), Vec::<usize>::new());
}

#[test]
fn epic_selection_moves_within_filtered_list() {
    let mut app = all_epics_app(&[("a", "x"), ("b", "y"), ("c", "x")]);
    app.move_selection(1);
    assert_eq!(app.selected_epic, 1);
    app.filter = "x".to_string();
    // 1 is filtered out: counts as position 0, moving down gives index 2
    app.move_selection(1);
    assert_eq!(app.selected_epic, 2);
    app.move_selection(1);
    assert_eq!(app.selected_epic, 2);
    app.jump_to_top();
    assert_eq!(app.selected_epic, 0);
    app.jump_to_bottom();
    assert_eq!(app.selected_epic, 2);
    assert_eq!(app.selected_epic_id(), Some("c".to_string()));
    app.filter = "y".to_string();
    assert_eq!(app.selected_epic_id(), None);
}

#[test]
fn apply_snapshot_logs_only_status_changes_and_caps_the_log() {
    let mut app = all_epics_app(&[("a", "x")]);
    app.apply_error("boom".to_string());
    assert!(app.last_error.is_some());
    let mut events = Vec::new();
    for i in 0..(ACTIVITY_CAP + 5) {
        events.push(ActivityEvent::StatusChange {
            id: format!("i{i}"),
            title: String::new(),
            from: Status::Open,
            to: Status::Closed,
            at: now(),
        });
        events.push(ActivityEvent::Added {
            id: format!("n{i}"),
            title: String::new(),
            status: Status::Open,
            at: now(),
        });
    }
    let snap = app.snapshot.clone().unwrap();
    app.apply_snapshot(snap, events);
    assert!(app.last_error.is_none());
    assert_eq!(app.activity.len(), ACTIVITY_CAP);
    match app.activity.front().unwrap() {
        ActivityEvent::StatusChange { id, .. } => assert_eq!(id, "i5"),
        other => panic!("unexpected {other:?}"),
    }
    match app.activity.back().unwrap() {
        ActivityEvent::StatusChange { id, .. } => assert_eq!(id, "i104"),
        other => panic!("unexpected {other:?}"),
    }
}

#[test]
fn apply_snapshot_clamps_epic_selection() {
    let mut app = all_epics_app(&[("a", "x"), ("b", "y"), ("c", "z")]);
    app.jump_to_bottom();
    assert_eq!(app.selected_epic, 2);
    let snap = Snapshot {
        components: vec![Component {
            root: issue("a", Status::Open, "epic"),
            issues: Vec::new(),
            dependencies: Vec::new(),
        }],
        fetched_at: now(),
    };
    app.apply_snapshot(snap, Vec::new());
    assert_eq!(app.selected_epic, 0);
    let empty = Snapshot {
        components: Vec::new(),
        fetched_at: now(),
    };
    app.apply_snapshot(empty, Vec::new());
    assert_eq!(app.selected_epic, 0);
}

#[test]
fn toast_is_shown_only_while_fresh() {
    let mut app = all_epics_app(&[("a", "x")]);
    assert_eq!(app.active_toast(), None);
    app.set_toast("copied a".to_string());
    assert_eq!(app.active_toast(), Some("copied a"));
    assert_eq!(app.toast_at_age(1_999_999_999), Some("copied a"));
    assert_eq!(app.toast_at_age(2_000_000_000), None);
}

#[test]
fn keys_in_all_epics_view() {
    let mut app = all_epics_app(&[("a", "x"), ("b", "y"), ("c", "z")]);
    assert!(matches!(app.handle_key(Key::Char('j'), false), KeyAction::Nothing));
    assert_eq!(app.selected_epic, 1);
    app.handle_key(Key::Char('G'), false);
    assert_eq!(app.selected_epic, 2);
    // gg chord
    app.handle_key(Key::Char('g'), false);
    assert!(app.pending_g);
    assert_eq!(app.selected_epic, 2);
    app.handle_key(Key::Char('g'), false);
    assert!(!app.pending_g);
    assert_eq!(app.selected_epic, 0);
    // any other key disarms the chord
    app.handle_key(Key::Char('g'), false);
    app.handle_key(Key::Char('k'), false);
    app.handle_key(Key::Char('g'), false);
    assert!(app.pending_g);
    assert_eq!(app.selected_epic, 0);
    assert!(matches!(app.handle_key(Key::Char('r'), false), KeyAction::Refresh));
    match app.handle_key(Key::Char('y'), false) {
        KeyAction::Copy(id) => assert_eq!(id, "a"),
        _ => panic!("expected a copy"),
    }
    app.copy_finished("a", Ok(()));
    assert_eq!(app.active_toast(), Some("copied a"));
    app.copy_finished("a", Err("xclip: not found".to_string()));
    assert_eq!(app.active_toast(), Some("copy failed: xclip: not found"));
    assert!(!app.should_quit);
    app.handle_key(Key::Char('q'), false);
    assert!(app.should_quit);
}

#[test]
fn filter_view_editing() {
    let mut app = all_epics_app(&[("a", "x"), ("b", "y")]);
    app.handle_key(Key::Char('/'), false);
    assert_eq!(app.view, View::Filter);
    app.handle_key(Key::Char('y'), false);
    app.handle_key(Key::Char('z'), false);
    assert_eq!(app.filter, "yz");
    app.handle_key(Key::Backspace, false);
    assert_eq!(app.filter, "y");
    app.handle_key(Key::Enter, false);
    assert_eq!(app.view, View::Main);
    assert_eq!(app.filter, "y");
    app.handle_key(Key::Char('/'), false);
    assert_eq!(app.filter, "");
    app.handle_key(Key::Char('q'), false);
    assert_eq!(app.filter, "q");
    assert!(!app.should_quit);
    app.handle_key(Key::Esc, false);
    assert_eq!(app.view, View::Main);
    assert_eq!(app.filter, "");
    app.handle_key(Key::Char('c'), true);
    assert!(app.should_quit);
}

#[test]
fn keys_in_focused_view_and_detail_popup() {
    let mut app = app_with_focused_epic(&["ep.1", "ep.2", "ep.3"]);
    app.handle_key(Key::Down, false);
    app.handle_key(Key::Char('j'), false);
    assert_eq!(app.selected_sub, 2);
    app.handle_key(Key::Home, false);
    assert_eq!(app.selected_sub, 0);
    app.handle_key(Key::End, false);
    assert_eq!(app.selected_sub, 2);
    app.handle_key(Key::Char('g'), false);
    app.handle_key(Key::Char('g'), false);
    assert_eq!(app.selected_sub, 0);
    match app.handle_key(Key::Char('y'), false) {
        KeyAction::Copy(id) => assert_eq!(id, "ep.1"),
        _ => panic!("expected a copy"),
    }
    app.handle_key(Key::Enter, false);
    assert_eq!(app.view, View::BeadDetail);
    app.handle_key(Key::Char('j'), false);
    assert_eq!(app.selected_sub, 0);
    app.handle_key(Key::Esc, false);
    assert_eq!(app.view, View::Main);
}

#[test]
fn v_opens_pr_or_explains_why_not() {
    let mut app = app_with_focused_epic(&["ep.1"]);
    assert!(matches!(app.handle_key(Key::Char('v'), false), KeyAction::Nothing));
    assert_eq!(app.active_toast(), Some("no PR for this bead"));

    if let Some(snap) = app.snapshot.as_mut() {
        snap.components[0].issues[1].external_ref = Some("gh-196".to_string());
    }
    assert!(matches!(app.handle_key(Key::Char('v'), false), KeyAction::Nothing));
    assert_eq!(app.active_toast(), Some("no github.com origin on this repo"));

    app.gh_repo = Some(GhRepo {
        owner: "zhongdai".to_string(),
        name: "bd-watcher".to_string(),
    });
    match app.handle_key(Key::Char('v'), false) {
        KeyAction::OpenPr { url, pr } => {
            assert_eq!(url, "https://github.com/zhongdai/bd-watcher/pull/196");
            assert_eq!(pr, 196);
        }
        _ => panic!("expected to open a PR"),
    }
    app.pr_opened(196, Ok(()));
    assert_eq!(app.active_toast(), Some("opened PR #196"));
    app.pr_opened(196, Err("no opener".to_string()));
    assert_eq!(app.active_toast(), Some("open failed: no opener"));
}

#[test]
fn epic_moves_never_leave_the_filtered_epics() {
    let mut app = all_epics_app(&[("a", "x"), ("b", "y"), ("c", "x"), ("d", "y"), ("e", "x")]);
    app.filter = "x".to_string();
    let snap = app.snapshot.clone().unwrap();
    let shown = app.filtered_epic_indices(&snap);
    for delta in [1isize, 1, -3, 5, -1, 2] {
        app.move_selection(delta);
        assert!(shown.contains(&app.selected_epic));
    }
    app.jump_to_top();
    assert!(shown.contains(&app.selected_epic));
    app.jump_to_bottom();
    assert!(shown.contains(&app.selected_epic));
}

#[test]
fn sub_moves_stay_on_a_sub_bead() {
    let mut app = app_with_focused_epic(&["ep.1", "ep.2", "ep.3"]);
    for delta in [5isize, -7, 1, 1, 1, -1] {
        app.move_sub_selection(delta);
        assert!(app.selected_sub < app.focused_sub_order_len());
        assert!(app.selected_sub_bead().is_some());
    }
}

#[test]
fn tv_keys_only_quit() {
    let mut app = all_epics_app(&[("a", "x"), ("b", "y")]);
    for k in [Key::Down, Key::Char('j'), Key::Char('/'), Key::Char('r'), Key::Char('y'), Key::Enter] {
        assert!(matches!(app.handle_tv_key(k, false), KeyAction::Nothing));
        assert_eq!(app.selected_epic, 0);
        assert_eq!(app.view, View::Main);
        assert!(!app.should_quit);
    }
    app.handle_tv_key(Key::Char('q'), false);
    assert!(app.should_quit);
    let mut app = all_epics_app(&[("a", "x")]);
    app.handle_tv_key(Key::Char('c'), true);
    assert!(app.should_quit);
}

#[test]
fn sub_moves_wrap_the_selection_as_a_signed_number() {
    let mut app = app_with_focused_epic(&["ep.1", "ep.2", "ep.3"]);
    // usize::MAX counts as -1: one down lands on the first sub-bead.
    app.selected_sub = usize::MAX;
    assert!(app.key_step_fits(Key::Down, false));
    app.handle_key(Key::Down, false);
    assert_eq!(app.selected_sub, 0);
    app.selected_sub = isize::MAX as usize;
    assert!(!app.key_step_fits(Key::Char('j'), false));
    assert!(app.key_step_fits(Key::Up, false));
    app.selected_sub = 1usize << 63;
    assert!(!app.key_step_fits(Key::Up, false));
    assert!(app.key_step_fits(Key::Char('q'), false));
}

fn log_changes(app: &mut App, n: usize) {
    let mut events = Vec::new();
    for i in 0..n {
        events.push(ActivityEvent::StatusChange {
            id: format!("c{i}"),
            title: String::new(),
            from: Status::Open,
            to: Status::Closed,
            at: now(),
        });
    }
    let snap = app.snapshot.clone().unwrap();
    app.apply_snapshot(snap, events);
}

fn shown_ids(app: &App, rows: usize) -> Vec<String> {
    app.visible_activity(rows)
        .into_iter()
        .map(|e| match e {
            ActivityEvent::StatusChange { id, .. } => id.clone(),
            other => panic!("unexpected {other:?}"),
        })
        .collect()
}

#[test]
fn tab_hands_the_keys_to_the_activity_pane() {
    let mut app = app_with_focused_epic(&["ep.1", "ep.2", "ep.3"]);
    log_changes(&mut app, 5);
    assert_eq!(app.focused_pane, FocusedPane::Tasks);
    app.handle_key(Key::Tab, false);
    assert_eq!(app.focused_pane, FocusedPane::Activity);
    // Arrow keys now scroll the log and leave the sub-bead selection.
    app.handle_key(Key::Up, false);
    app.handle_key(Key::Char('k'), false);
    assert_eq!(app.activity_scroll, 2);
    assert_eq!(app.selected_sub, 0);
    app.handle_key(Key::Down, false);
    assert_eq!(app.activity_scroll, 1);
    app.handle_key(Key::PageUp, false);
    assert_eq!(app.activity_scroll, 4);
    app.handle_key(Key::PageDown, false);
    assert_eq!(app.activity_scroll, 0);
    app.handle_key(Key::End, false);
    assert_eq!(app.activity_scroll, 4);
    app.handle_key(Key::Char('g'), false);
    app.handle_key(Key::Char('g'), false);
    assert_eq!(app.activity_scroll, 0);
    app.handle_key(Key::Char('G'), false);
    assert_eq!(app.activity_scroll, 4);
    app.handle_key(Key::Home, false);
    assert_eq!(app.activity_scroll, 0);
    // Enter still opens the selected sub-bead.
    app.handle_key(Key::Enter, false);
    assert_eq!(app.view, View::BeadDetail);
    app.handle_key(Key::Esc, false);
    app.handle_key(Key::Tab, false);
    assert_eq!(app.focused_pane, FocusedPane::Tasks);
    app.handle_key(Key::Down, false);
    assert_eq!(app.selected_sub, 1);
}

#[test]
fn visible_activity_lists_newest_first_from_the_scroll() {
    let mut app = app_with_focused_epic(&["ep.1"]);
    assert!(app.visible_activity(3).is_empty());
    log_changes(&mut app, 5);
    assert_eq!(shown_ids(&app, 3), vec!["c4", "c3", "c2"]);
    app.activity_scroll = 3;
    assert_eq!(shown_ids(&app, 3), vec!["c1", "c0"]);
    // Scrolled past the end: the oldest stays on screen.
    app.activity_scroll = 50;
    assert_eq!(shown_ids(&app, 3), vec!["c0"]);
    app.activity_scroll = 0;
    assert_eq!(shown_ids(&app, 0), Vec::<String>::new());
}

#[test]
fn detail_popup_scrolls_its_description() {
    let mut app = app_with_focused_epic(&["ep.1", "ep.2"]);
    app.handle_key(Key::Enter, false);
    assert_eq!(app.view, View::BeadDetail);
    assert_eq!(app.popup_scroll, 0);
    app.handle_key(Key::Up, false);
    assert_eq!(app.popup_scroll, 0);
    app.handle_key(Key::Char('j'), false);
    app.handle_key(Key::Down, false);
    assert_eq!(app.popup_scroll, 2);
    app.handle_key(Key::PageDown, false);
    assert_eq!(app.popup_scroll, 12);
    app.handle_key(Key::PageUp, false);
    app.handle_key(Key::Char('k'), false);
    assert_eq!(app.popup_scroll, 1);
    app.handle_key(Key::Home, false);
    assert_eq!(app.popup_scroll, 0);
    assert_eq!(app.selected_sub, 0);
    app.popup_scroll = u16::MAX;
    app.scroll_popup(5);
    assert_eq!(app.popup_scroll, u16::MAX);
    // Reopening starts at the top again.
    app.handle_key(Key::Char('q'), false);
    assert_eq!(app.view, View::Main);
    app.handle_key(Key::Enter, false);
    assert_eq!(app.popup_scroll, 0);
}

#[test]
fn push_activity_drops_the_oldest_only_when_full() {
    let mut app = all_epics_app(&[("a", "x")]);
    for i in 0..(ACTIVITY_CAP + 3) {
        app.push_activity(ActivityEvent::Removed { id: format!("r{i}"), at: now() });
        assert!(app.activity.len() <= ACTIVITY_CAP);
        assert_eq!(app.activity.len(), (i + 1).min(ACTIVITY_CAP));
    }
    assert!(matches!(app.activity.front().unwrap(), ActivityEvent::Removed { id, .. } if id == "r3"));
    assert!(matches!(app.activity.back().unwrap(), ActivityEvent::Removed { id, .. } if id == "r102"));
}

#[test]
fn empty_filter_shows_every_epic() {
    let app = all_epics_app(&[("a", "x"), ("b", "y"), ("c", "z")]);
    let snap = app.snapshot.clone().unwrap();
    assert_eq!(app.filtered_epic_indices(&snap), vec![0, 1, 2]);
}
