use bd_watcher::model::{Component, DepType, Dependency, Issue, Status, StatusCounts, Timestamp};
use bd_watcher::ui::widgets::{
    blocked_by_ids, centered_rect, child_indices, compute_layers, counts_for, dependency_labels,
    pr_cell, pr_number, progress_bar, scroll_offset, short_id, status_color, truncate,
    visual_sub_order, filled_width, Area, PR_CELL_WIDTH,
};
use bd_watcher::theme::{Color, ThemeName};

fn issue(id: &str, status: Status, issue_type: &str) -> Issue {
    Issue {
        id: id.to_string(),
        title: id.to_string(),
        description: String::new(),
        status,
        priority: 0,
        issue_type: issue_type.to_string(),
        owner: None,
        created_at: Timestamp { secs: 0, nanos: 0 },
        updated_at: Timestamp { secs: 0, nanos: 0 },
        external_ref: None,
    }
}

fn dep(from: &str, to: &str, dep_type: DepType) -> Dependency {
    Dependency {
        issue_id: from.to_string(),
        depends_on_id: to.to_string(),
        dep_type,
    }
}

#[test]
fn counts_for_excludes_root_epic() {
    let root = issue("ep-1", Status::Open, "epic");
    let children = vec![
        issue("ep-1.a", Status::Closed, "task"),
        issue("ep-1.b", Status::InProgress, "task"),
        issue("ep-1.c", Status::Open, "task"),
    ];
    let mut issues = vec![root.clone()];
    issues.extend(children);
    let comp = Component {
        root,
        issues,
        dependencies: Vec::<Dependency>::new(),
    };
    let counts = counts_for(&comp);
    // Root epic is not counted — total equals the three children.
    assert_eq!(counts.total(), 3);
    assert_eq!(counts.closed, 1);
    assert_eq!(counts.in_progress, 1);
    assert_eq!(counts.open, 1);
}

#[test]
fn counts_for_counts_each_id_once() {
    let root = issue("ep", Status::Open, "epic");
    let comp = Component {
        root: root.clone(),
        issues: vec![
            root,
            issue("a", Status::Blocked, "task"),
            issue("a", Status::Closed, "task"),
            issue("b", Status::Deferred, "task"),
        ],
        dependencies: Vec::new(),
    };
    let c = counts_for(&comp);
    assert_eq!(c.total(), 2);
    assert_eq!(c.blocked, 1);
    assert_eq!(c.closed, 0);
    assert_eq!(c.deferred, 1);
}

#[test]
fn pr_number_parses_gh_ref() {
    assert_eq!(pr_number(Some("gh-196")), Some(196));
    assert_eq!(pr_number(Some("gh-1")), Some(1));
    assert_eq!(pr_number(Some("gh-99999")), Some(99999));
}

#[test]
fn pr_number_rejects_non_gh_refs() {
    assert_eq!(pr_number(Some("jira-SEL-1")), None);
    assert_eq!(pr_number(Some("linear-ABC-42")), None);
    assert_eq!(pr_number(Some("#196")), None);
}

#[test]
fn pr_number_rejects_malformed() {
    assert_eq!(pr_number(Some("gh-")), None);
    assert_eq!(pr_number(Some("gh-abc")), None);
    assert_eq!(pr_number(Some("gh-1.2")), None);
    assert_eq!(pr_number(Some("gh--1")), None);
    assert_eq!(pr_number(Some("")), None);
}

#[test]
fn pr_number_handles_none() {
    assert_eq!(pr_number(None), None);
}

#[test]
fn pr_cell_pads_to_fixed_width() {
    assert_eq!(pr_cell(Some("gh-196")).len(), PR_CELL_WIDTH);
    assert_eq!(pr_cell(Some("gh-1")).len(), PR_CELL_WIDTH);
    assert_eq!(pr_cell(Some("gh-99999")).len(), PR_CELL_WIDTH);
    assert_eq!(pr_cell(None).len(), PR_CELL_WIDTH);
    assert_eq!(pr_cell(Some("jira-1")).len(), PR_CELL_WIDTH);
}

#[test]
fn pr_cell_renders_visible_number_when_present() {
    assert!(pr_cell(Some("gh-196")).contains("#196"));
}

#[test]
fn pr_cell_is_blank_when_absent_or_non_gh() {
    assert_eq!(pr_cell(None), " ".repeat(PR_CELL_WIDTH));
    assert_eq!(pr_cell(Some("jira-SEL-1")), " ".repeat(PR_CELL_WIDTH));
}

#[test]
fn pr_cell_leaves_gap_for_five_digit_prs() {
    // A 5-digit PR like gh-10006 should still leave at least one
    // trailing space so the next column doesn't butt up against it.
    let cell = pr_cell(Some("gh-10006"));
    assert!(cell.contains("#10006"));
    assert!(cell.ends_with(' '), "expected trailing space, got {cell:?}");
}

#[test]
fn pr_cell_exact_text_and_cap_past_seven_digits() {
    assert_eq!(pr_cell(Some("gh-196")), "  #196    ");
    assert_eq!(pr_cell(Some("gh-1234567")), "  #1234567");
    assert_eq!(pr_cell(Some("gh-12345678")), "  #123456\u{2026}");
    assert_eq!(pr_cell(Some("gh-12345678")).chars().count(), PR_CELL_WIDTH);
    assert_eq!(pr_cell(Some("gh-4294967295")).chars().count(), PR_CELL_WIDTH);
}

#[test]
fn progress_bar_fills_then_empties() {
    assert_eq!(progress_bar(3, 5), "\u{2593}\u{2593}\u{2593}\u{2591}\u{2591}");
    assert_eq!(progress_bar(0, 2), "\u{2591}\u{2591}");
    assert_eq!(progress_bar(4, 2), "\u{2593}\u{2593}\u{2593}\u{2593}");
    assert_eq!(progress_bar(0, 0), "");
}

#[test]
fn scroll_offset_keeps_selection_visible() {
    assert_eq!(scroll_offset(0, 3, 0, 10), 0);
    assert_eq!(scroll_offset(5, 3, 30, 10), 0);
    // 9 lines: 3 epics visible; one epic of context above the selection.
    assert_eq!(scroll_offset(5, 3, 9, 10), 12);
    // clamps at the bottom
    assert_eq!(scroll_offset(9, 3, 9, 10), 21);
    assert_eq!(scroll_offset(0, 3, 9, 10), 0);
    // fewer lines than one epic still shows one
    assert_eq!(scroll_offset(4, 3, 2, 10), 12);
    // two epics fit: the one above the selection stays in view
    assert_eq!(scroll_offset(5, 3, 6, 10), 12);
    assert_eq!(scroll_offset(0, 3, 6, 10), 0);
    assert_eq!(scroll_offset(9, 3, 6, 10), 24);
}

#[test]
fn truncate_adds_ellipsis_when_cut() {
    assert_eq!(truncate("hello", 10), "hello");
    assert_eq!(truncate("hello", 5), "hello");
    assert_eq!(truncate("hello", 4), "hel\u{2026}");
    assert_eq!(truncate("hello", 1), "\u{2026}");
    assert_eq!(truncate("hello", 0), "\u{2026}");
    assert_eq!(truncate("h\u{e9}llo", 3), "h\u{e9}\u{2026}");
}

#[test]
fn short_id_strips_root_prefix() {
    assert_eq!(short_id("sel3-42wn.10", "sel3-42wn"), ".10");
    assert_eq!(short_id("other.1", "sel3-42wn"), "other.1");
    assert_eq!(short_id("sel3-42wn", "sel3-42wn"), "sel3-42wn");
    assert_eq!(short_id("sel3-42wn.", "sel3-42wn"), ".");
}

#[test]
fn status_color_follows_theme() {
    let t = ThemeName::Default.theme();
    assert_eq!(status_color(&t, Status::Open), Color::Gray);
    assert_eq!(status_color(&t, Status::InProgress), Color::Yellow);
    assert_eq!(status_color(&t, Status::Blocked), Color::Red);
    assert_eq!(status_color(&t, Status::Closed), Color::Green);
    assert_eq!(status_color(&t, Status::Deferred), Color::Blue);
}

fn layered_component() -> Component {
    let root = issue("ep", Status::Open, "epic");
    Component {
        root: root.clone(),
        issues: vec![
            root,
            issue("ep.c", Status::Open, "task"),
            issue("ep.a", Status::Open, "task"),
            issue("ep.b", Status::Open, "task"),
            issue("ep.d", Status::Open, "task"),
        ],
        dependencies: vec![
            // c waits on a, b waits on c (Blocks / ParentChild order layers)
            dep("ep.c", "ep.a", DepType::Blocks),
            dep("ep.b", "ep.c", DepType::ParentChild),
            // Related does not order; root edges are ignored
            dep("ep.d", "ep.b", DepType::Related),
            dep("ep.d", "ep", DepType::Blocks),
            dep("ep", "ep.a", DepType::Blocks),
        ],
    }
}

#[test]
fn compute_layers_groups_by_dependency_depth() {
    let comp = layered_component();
    let layers = compute_layers(&comp);
    // layer 0: a (2) and d (4), sorted by id; layer 1: c (1); layer 2: b (3)
    assert_eq!(layers, vec![vec![2, 4], vec![1], vec![3]]);
    assert_eq!(visual_sub_order(&comp), vec![2, 4, 1, 3]);
}

#[test]
fn compute_layers_leaves_out_cycles() {
    let root = issue("ep", Status::Open, "epic");
    let comp = Component {
        root: root.clone(),
        issues: vec![
            root,
            issue("x", Status::Open, "task"),
            issue("y", Status::Open, "task"),
            issue("z", Status::Open, "task"),
        ],
        dependencies: vec![
            dep("x", "y", DepType::Blocks),
            dep("y", "x", DepType::Blocks),
            dep("z", "x", DepType::Blocks),
        ],
    };
    assert_eq!(compute_layers(&comp), vec![Vec::<usize>::new()]);
    assert_eq!(visual_sub_order(&comp), Vec::<usize>::new());
}

#[test]
fn compute_layers_of_empty_component_has_one_empty_layer() {
    let root = issue("ep", Status::Open, "epic");
    let comp = Component {
        root,
        issues: Vec::new(),
        dependencies: Vec::new(),
    };
    assert_eq!(compute_layers(&comp), vec![Vec::<usize>::new()]);
}

#[test]
fn dependency_labels_and_blockers() {
    let comp = layered_component();
    assert_eq!(dependency_labels(&comp, "ep.c"), vec![".a".to_string()]);
    assert_eq!(dependency_labels(&comp, "ep.b"), vec![".c".to_string()]);
    assert_eq!(dependency_labels(&comp, "ep.d"), Vec::<String>::new());
    assert_eq!(blocked_by_ids(&comp, "ep.c"), vec!["ep.a".to_string()]);
    assert_eq!(blocked_by_ids(&comp, "ep.b"), Vec::<String>::new());
    assert_eq!(blocked_by_ids(&comp, "ep.d"), vec!["ep".to_string()]);
    assert_eq!(child_indices(&comp), vec![1, 2, 3, 4]);
}

#[test]
fn centered_rect_is_centered() {
    let area = Area { x: 0, y: 0, width: 100, height: 50 };
    let r = centered_rect(area, 70, 80);
    assert_eq!(r, Area { x: 15, y: 5, width: 70, height: 40 });
    let big = Area { x: 2, y: 3, width: 1000, height: 1000 };
    // 1000 * 70 saturates at 65535 before dividing
    assert_eq!(centered_rect(big, 70, 80), Area { x: 174, y: 175, width: 655, height: 655 });
}

#[test]
fn visual_sub_order_lists_each_layered_sub_bead_once() {
    // Duplicate ids: the later "q" stands for the id; the root and the
    // cycle members stay out.
    let root = issue("ep", Status::Open, "epic");
    let comp = Component {
        root: root.clone(),
        issues: vec![
            root,
            issue("q", Status::Open, "task"),
            issue("p", Status::Open, "task"),
            issue("q", Status::Closed, "task"),
            issue("x", Status::Open, "task"),
            issue("y", Status::Open, "task"),
        ],
        dependencies: vec![
            dep("p", "q", DepType::Blocks),
            dep("x", "y", DepType::ParentChild),
            dep("y", "x", DepType::Blocks),
        ],
    };
    let order = visual_sub_order(&comp);
    // Layer 0: q (1) and q (3) in position order; layer 1: p (2).
    assert_eq!(order, vec![1, 3, 2]);
    let mut sorted = order.clone();
    sorted.sort();
    sorted.dedup();
    assert_eq!(sorted.len(), order.len());
}

#[test]
fn filled_width_rounds_the_closed_share() {
    let mut c = StatusCounts::zero();
    assert_eq!(filled_width(&c, 20), 0);
    c.closed = 1;
    c.open = 2;
    // 20 * 1/3 = 6.67 -> 7; 100 * 1/3 = 33.3 -> 33
    assert_eq!(filled_width(&c, 20), 7);
    assert_eq!(filled_width(&c, 100), 33);
    c.open = 39;
    // 20 * 1/40 = 0.5 rounds up
    assert_eq!(filled_width(&c, 20), 1);
    c.open = 0;
    assert_eq!(filled_width(&c, 20), 20);
    c.closed = usize::MAX / 2;
    c.open = usize::MAX / 2;
    assert_eq!(filled_width(&c, 100), 50);
}
