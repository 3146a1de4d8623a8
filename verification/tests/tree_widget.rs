use fnug::tui::app::CommandStatus;
use fnug::tui::tree_widget::{build_prefix, render_node_text, NodeKind, TreeWidget, VisibleNode};

#[allow(clippy::too_many_arguments)]
fn group_node(
    id: &str,
    name: &str,
    depth: usize,
    is_last: bool,
    ancestors: Vec<bool>,
    expanded: bool,
    selected: u16,
    total: u16,
) -> VisibleNode {
    VisibleNode {
        id: id.to_string(),
        depth,
        is_last_sibling: is_last,
        ancestor_is_last: ancestors,
        kind: NodeKind::Group {
            name: name.to_string(),
            expanded,
            success: 0,
            running: 0,
            failure: 0,
            selected,
            total,
        },
    }
}

fn cmd_node(
    id: &str,
    name: &str,
    depth: usize,
    is_last: bool,
    ancestors: Vec<bool>,
    selected: bool,
    status: CommandStatus,
) -> VisibleNode {
    VisibleNode {
        id: id.to_string(),
        depth,
        is_last_sibling: is_last,
        ancestor_is_last: ancestors,
        kind: NodeKind::Command {
            name: name.to_string(),
            selected,
            status,
            duration: None,
        },
    }
}

#[test]
fn test_command_status_icons() {
    let success = cmd_node("s", "test", 1, false, vec![], false, CommandStatus::Success);
    assert!(render_node_text(&success).ends_with(" ✔"));

    let failure = cmd_node(
        "f",
        "test",
        1,
        false,
        vec![],
        false,
        CommandStatus::Failure(1),
    );
    assert!(render_node_text(&failure).ends_with(" ✘"));

    let running = cmd_node("r", "test", 1, false, vec![], false, CommandStatus::Running);
    assert!(render_node_text(&running).ends_with(" ⧗"));
}

#[test]
fn test_collapsed_group() {
    let node = group_node("r", "rust", 1, false, vec![], false, 4, 4);
    assert_eq!(render_node_text(&node), "├─▶ rust (4/4)");
}

#[test]
fn test_full_tree_alignment() {
    let nodes = vec![
        group_node("root", "fnug", 0, true, vec![], true, 4, 10),
        group_node("rust", "rust", 1, false, vec![], true, 4, 4),
        cmd_node(
            "fmt",
            "fmt",
            2,
            false,
            vec![false],
            true,
            CommandStatus::Success,
        ),
        cmd_node(
            "cwd",
            "cwd",
            2,
            true,
            vec![false],
            true,
            CommandStatus::Success,
        ),
        group_node("debug", "debug", 1, true, vec![], true, 0, 6),
        group_node("na", "nested-auto", 2, false, vec![true], true, 0, 2),
        cmd_node(
            "ta",
            "test-auto",
            3,
            false,
            vec![true, false],
            false,
            CommandStatus::Pending,
        ),
        cmd_node(
            "tna",
            "test-not-auto",
            3,
            true,
            vec![true, false],
            false,
            CommandStatus::Pending,
        ),
        group_node("ne", "not-expanded", 2, false, vec![true], true, 0, 1),
        cmd_node(
            "tne",
            "test-not-expanded",
            3,
            true,
            vec![true, false],
            false,
            CommandStatus::Pending,
        ),
        cmd_node(
            "htop",
            "htop",
            2,
            false,
            vec![true],
            false,
            CommandStatus::Pending,
        ),
        cmd_node(
            "rec",
            "recursive?!",
            2,
            false,
            vec![true],
            false,
            CommandStatus::Pending,
        ),
        cmd_node(
            "long",
            "A very long",
            2,
            true,
            vec![true],
            false,
            CommandStatus::Pending,
        ),
    ];

    let lines: Vec<String> = nodes.iter().map(render_node_text).collect();
    let expected = vec![
        "▼ fnug (4/10)",
        "├─▼ rust (4/4)",
        "│ ├─● fmt ✔",
        "│ └─● cwd ✔",
        "└─▼ debug (0/6)",
        "  ├─▼ nested-auto (0/2)",
        "  │ ├─○ test-auto",
        "  │ └─○ test-not-auto",
        "  ├─▼ not-expanded (0/1)",
        "  │ └─○ test-not-expanded",
        "  ├─○ htop",
        "  ├─○ recursive?!",
        "  └─○ A very long",
    ];
    assert_eq!(lines, expected);
}

#[test]
fn test_other_status_marks_and_duration() {
    let error = cmd_node("e", "test", 1, true, vec![], true, CommandStatus::Error("x".to_string()));
    assert_eq!(render_node_text(&error), "└─● test ⚠");
    let waiting = cmd_node("w", "test", 1, true, vec![], false, CommandStatus::WaitingForDeps);
    assert_eq!(render_node_text(&waiting), "└─○ test ◌");
    let timed = VisibleNode {
        id: "t".to_string(),
        depth: 0,
        is_last_sibling: true,
        ancestor_is_last: vec![],
        kind: NodeKind::Command {
            name: "t".to_string(),
            selected: false,
            status: CommandStatus::Success,
            duration: Some(" (12ms)".to_string()),
        },
    };
    assert_eq!(render_node_text(&timed), "○ t ✔ (12ms)");
    assert_eq!(build_prefix(&timed), "");
}

#[test]
fn test_tree_widget_window() {
    let nodes = vec![
        group_node("a", "a", 0, true, vec![], true, 0, 0),
        group_node("b", "b", 1, true, vec![], true, 0, 0),
        group_node("c", "c", 1, true, vec![], true, 0, 0),
    ];
    let widget = TreeWidget::new(&nodes, 1, 1, Some(2));
    assert_eq!(widget.window(10), (1, 2));
    assert_eq!(widget.window(1), (1, 1));
    assert!(widget.is_highlighted(1));
    assert!(widget.is_hovered(2));
    assert!(!widget.is_hovered(1));
    let beyond = TreeWidget::new(&nodes, 0, 7, None);
    assert_eq!(beyond.window(4), (3, 0));
}
