use bd_watcher::text::is_whitespace;
use bd_watcher::ui::panels::{fits_dashboard, popup_fits};
use bd_watcher::ui::widgets::Area;
use bd_watcher::model::{ActivityEvent, Component, DepType, Dependency, Issue, Status, Timestamp};
use bd_watcher::text::join;
use bd_watcher::ui::panels::{
    activity_cells, activity_title, child_rows, dag_rows, description_lines, issue_meta, popup_offset, dag_title, epic_cells, error_banner, header_title, selected_row, dag_title_width, epic_title, status_count_text, status_text, task_cells,
    DagRow,
};

fn issue(id: &str, title: &str) -> Issue {
    Issue {
        id: id.to_string(),
        title: title.to_string(),
        description: String::new(),
        status: Status::Open,
        priority: 2,
        issue_type: "task".to_string(),
        owner: None,
        created_at: Timestamp { secs: 0, nanos: 0 },
        updated_at: Timestamp { secs: 0, nanos: 0 },
        external_ref: None,
    }
}

fn dep(from: &str, to: &str, dep_type: DepType) -> Dependency {
    Dependency {
        issue_id: from.to_string(),
        depends_on_id: to.to_string(),
        dep_type,
    }
}

/// ep with children: a (no deps), c (no deps), b (after a).
fn layered() -> Component {
    let root = issue("ep", "Epic");
    Component {
        root: root.clone(),
        issues: vec![root, issue("ep.c", "C"), issue("ep.b", "B"), issue("ep.a", "A")],
        dependencies: vec![
            dep("ep.b", "ep.a", DepType::Blocks),
            dep("ep.a", "ep", DepType::ParentChild),
        ],
    }
}

#[test]
fn dag_rows_lists_layers_with_dividers() {
    let comp = layered();
    // Layer 0: ep.a (3), ep.c (1) by id; layer 1: ep.b (2).
    assert_eq!(
        dag_rows(&comp, 0),
        vec![
            DagRow::Layer(0),
            DagRow::Task { issue: 3, selected: true },
            DagRow::Task { issue: 1, selected: false },
            DagRow::Layer(1),
            DagRow::Task { issue: 2, selected: false },
        ]
    );
}

#[test]
fn dag_rows_highlights_selected_sub_bead() {
    let comp = layered();
    let rows = dag_rows(&comp, 2);
    assert_eq!(rows[4], DagRow::Task { issue: 2, selected: true });
    assert_eq!(rows.iter().filter(|r| matches!(r, DagRow::Task { selected: true, .. })).count(), 1);
}

#[test]
fn dag_rows_selection_past_end_highlights_nothing() {
    let comp = layered();
    let rows = dag_rows(&comp, 3);
    assert!(rows.iter().all(|r| !matches!(r, DagRow::Task { selected: true, .. })));
    assert_eq!(rows.len(), 5);
}

#[test]
fn dag_rows_without_sub_beads_says_so() {
    let root = issue("ep", "Epic");
    let comp = Component { root: root.clone(), issues: vec![root], dependencies: Vec::new() };
    assert_eq!(dag_rows(&comp, 0), vec![DagRow::NoSubTasks]);
}

#[test]
fn task_cells_pads_and_labels() {
    let comp = layered();
    let mut b = comp.issues[2].clone();
    b.external_ref = Some("gh-42".to_string());
    b.issue_type = "feature-request".to_string();
    let cells = task_cells(&comp, &b, 12);
    assert_eq!(cells.id, format!("{:<16}", "ep.b"));
    assert_eq!(cells.pr, "  #42     ");
    assert_eq!(cells.kind, "featur\u{2026} ");
    assert_eq!(cells.title, format!("{:<12}", "B"));
    assert_eq!(cells.deps, ".a");
}

#[test]
fn task_cells_without_deps_is_empty() {
    let comp = layered();
    let cells = task_cells(&comp, &comp.issues[3], 10);
    assert_eq!(cells.deps, "");
    assert_eq!(cells.pr, " ".repeat(10));
}

#[test]
fn dag_title_width_reserves_the_other_columns() {
    assert_eq!(dag_title_width(100), 40);
    assert_eq!(dag_title_width(65), 10);
    assert_eq!(dag_title_width(0), 10);
}

#[test]
fn titles_are_formatted() {
    assert_eq!(epic_title("ep-1", "Big epic", 60), " ep-1 \u{b7} Big epic ");
    assert_eq!(epic_title("ep-1", "Big epic", 4), " ep-1 \u{b7} Big\u{2026} ");
    assert_eq!(dag_title("ep-1", "Big epic", 60, 3, 10), " ep-1 \u{b7} Big epic \u{b7} 3/10 done ");
}

#[test]
fn status_texts() {
    assert_eq!(status_text(Status::Closed), "\u{2713} closed");
    assert_eq!(status_count_text(Status::InProgress, 7), "\u{25d0} in_progress 7");
}

#[test]
fn join_puts_separator_between() {
    assert_eq!(join(&vec![], ", "), "");
    assert_eq!(join(&vec!["a".to_string()], ", "), "a");
    assert_eq!(join(&vec!["a".to_string(), "b".to_string(), "c".to_string()], ", "), "a, b, c");
}

#[test]
fn activity_cells_for_each_event() {
    let at = Timestamp { secs: 0, nanos: 0 };
    let change = ActivityEvent::StatusChange {
        id: "ep.a".to_string(),
        title: "Do it".to_string(),
        from: Status::Open,
        to: Status::Closed,
        at,
    };
    let c = activity_cells(&change);
    assert_eq!(c.marker, " \u{2713} ");
    assert_eq!(c.id, format!(" {:<14}", "ep.a"));
    assert_eq!(c.change, "open \u{2192} closed  ");
    assert_eq!(c.title, "Do it");

    let added = ActivityEvent::Added {
        id: "ep.b".to_string(),
        title: "x".repeat(70),
        status: Status::Blocked,
        at,
    };
    let c = activity_cells(&added);
    assert_eq!(c.marker, " + ");
    assert_eq!(c.change, "added (blocked)  ");
    assert_eq!(c.title.chars().count(), 60);
    assert!(c.title.ends_with('\u{2026}'));

    let removed = ActivityEvent::Removed { id: "ep.c".to_string(), at };
    let c = activity_cells(&removed);
    assert_eq!(c.marker, " \u{2212} ");
    assert_eq!(c.id, format!(" {:<14}", "ep.c"));
    assert_eq!(c.change, "removed");
    assert_eq!(c.title, "");
}

#[test]
fn epic_cells_pad_cut_and_tally() {
    let mut comp = layered();
    comp.root.title = "t".repeat(50);
    let cells = epic_cells(&comp, 3, 12);
    assert_eq!(cells.id, format!(" {:<18}", "ep"));
    assert_eq!(cells.title, format!("{}\u{2026} ", "t".repeat(47)));
    assert_eq!(cells.tally, "  3/12");
}

#[test]
fn selected_row_is_the_position_among_shown_epics() {
    assert_eq!(selected_row(&vec![0, 2, 4], 4), 2);
    assert_eq!(selected_row(&vec![0, 2, 4], 3), 0);
    assert_eq!(selected_row(&vec![], 3), 0);
}

#[test]
fn header_and_error_banner_text() {
    assert_eq!(
        header_title("/repo", 5, "14:32:07"),
        " bd-watcher \u{b7} repo: /repo \u{b7} every 5s \u{b7} 14:32:07 "
    );
    assert_eq!(
        error_banner("14:31:00", 30, "boom"),
        " \u{26a0} last refresh failed at 14:31:00 \u{2014} retrying in 30s \u{b7} boom"
    );
}

#[test]
fn child_rows_list_sub_beads_with_blockers() {
    let mut comp = layered();
    comp.issues[1].title = "x".repeat(40);
    comp.dependencies.push(dep("ep.b", "ep.c", DepType::Blocks));
    comp.dependencies.push(dep("ep.b", "ep.z", DepType::Related));
    let rows = child_rows(&comp, 35);
    assert_eq!(rows.iter().map(|r| r.issue).collect::<Vec<_>>(), vec![1, 2, 3]);
    assert_eq!(rows[0].id, format!("{:<14}", "ep.c"));
    assert_eq!(rows[0].title, format!("{}\u{2026}", "x".repeat(14)));
    assert_eq!(rows[0].blocked_by, "");
    assert_eq!(rows[1].blocked_by, "ep.a, ep.c");
    // Narrow panels still leave ten characters for a title.
    assert_eq!(child_rows(&comp, 12)[0].title.chars().count(), 10);
}

#[test]
fn activity_title_marks_focus() {
    assert_eq!(activity_title(7, false), " Activity (last 7) ");
    assert_eq!(activity_title(7, true), " Activity (last 7) \u{b7} focus ");
}

#[test]
fn popup_offset_keeps_the_last_line_on_screen() {
    assert_eq!(popup_offset(0, 50, 10), 0);
    assert_eq!(popup_offset(5, 50, 10), 5);
    assert_eq!(popup_offset(60, 50, 10), 40);
    assert_eq!(popup_offset(3, 5, 10), 0);
    assert_eq!(popup_offset(9, 5, 0), 4);
}

#[test]
fn issue_meta_shows_dashes_for_missing_fields() {
    let mut i = issue("ep.a", "A");
    i.priority = -3;
    let m = issue_meta(&i);
    assert_eq!(m.status, "\u{25cb} open");
    assert_eq!(m.priority, "-3");
    assert_eq!(m.kind, "task");
    assert_eq!(m.owner, "\u{2014}");
    assert_eq!(m.external, "\u{2014}");
    i.priority = i32::MIN;
    i.owner = Some("zed".to_string());
    i.external_ref = Some("gh-7".to_string());
    let m = issue_meta(&i);
    assert_eq!(m.priority, i32::MIN.to_string());
    assert_eq!(m.owner, "zed");
    assert_eq!(m.external, "gh-7");
}

#[test]
fn description_lines_split_like_str_lines() {
    for text in [
        "",
        "one",
        "one\n",
        "one\ntwo",
        "a\r\nb\r\n",
        "\n",
        "\n\nx",
        "keeps\r lone\rreturns\r",
        "tail\r",
    ] {
        let expected: Vec<String> = text.lines().map(|l| l.to_string()).collect();
        assert_eq!(description_lines(text), expected, "{text:?}");
    }
}

#[test]
fn size_checks() {
    assert!(fits_dashboard(80, 24));
    assert!(!fits_dashboard(79, 24));
    assert!(!fits_dashboard(80, 23));
    assert!(popup_fits(Area { x: 0, y: 0, width: 40, height: 10 }));
    assert!(!popup_fits(Area { x: 0, y: 0, width: 39, height: 50 }));
}

#[test]
fn whitespace_matches_std_for_every_char() {
    for u in 0u32..=0x10ffff {
        if let Some(c) = char::from_u32(u) {
            assert_eq!(is_whitespace(c), c.is_whitespace(), "{u:#x}");
        }
    }
}
