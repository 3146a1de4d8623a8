use fnug::commands::command::Command;
use fnug::commands::group::CommandGroup;
use fnug::tui::app::CommandStatus;
use fnug::tui::tree_state::{
    collect_inactive_groups, count_commands, count_status, find_command_in_group,
    find_group_in_group, matches_filter, visible_nodes, CommandDisplay, StatusCounts, TreeContext,
};
use fnug::tui::tree_widget::render_node_text;

fn cmd(id: &str, name: &str) -> Command {
    Command {
        id: id.to_string(),
        name: name.to_string(),
        ..Default::default()
    }
}

fn group(id: &str, name: &str, children: Vec<CommandGroup>, commands: Vec<Command>) -> CommandGroup {
    CommandGroup {
        id: id.to_string(),
        name: name.to_string(),
        children,
        commands,
        ..Default::default()
    }
}

fn make_test_tree() -> CommandGroup {
    let nested_auto = group(
        "nested-auto",
        "nested-auto",
        vec![],
        vec![
            cmd("test-auto", "test-auto"),
            cmd("test-not-auto", "test-not-auto"),
        ],
    );
    let not_expanded = group(
        "not-expanded",
        "not-expanded",
        vec![],
        vec![cmd("test-not-expanded", "test-not-expanded")],
    );
    let debug = group(
        "debug",
        "debug",
        vec![nested_auto, not_expanded],
        vec![cmd("htop", "htop"), cmd("recursive", "recursive")],
    );
    let rust = group(
        "rust",
        "rust",
        vec![],
        vec![cmd("fmt", "fmt"), cmd("clippy", "clippy")],
    );
    group("root", "fnug", vec![rust, debug], vec![])
}

fn render(config: &CommandGroup, expanded: &Vec<(String, bool)>, shown: &Vec<CommandDisplay>, filter: Option<&str>) -> Vec<String> {
    let ctx = TreeContext { expanded, commands: shown, filter };
    visible_nodes(config, &ctx).iter().map(render_node_text).collect()
}

#[test]
fn test_flatten_group_renders_correct_tree() {
    let config = make_test_tree();
    let lines = render(&config, &vec![], &vec![], None);
    let expected = vec![
        "▼ fnug (0/7)",
        "├─▼ rust (0/2)",
        "│ ├─○ fmt",
        "│ └─○ clippy",
        "└─▼ debug (0/5)",
        "  ├─▼ nested-auto (0/2)",
        "  │ ├─○ test-auto",
        "  │ └─○ test-not-auto",
        "  ├─▼ not-expanded (0/1)",
        "  │ └─○ test-not-expanded",
        "  ├─○ htop",
        "  └─○ recursive",
    ];
    assert_eq!(lines, expected);
}

#[test]
fn test_app_creation() {
    let config = group(
        "root",
        "root",
        vec![group("g1", "group1", vec![], vec![cmd("cmd1", "cmd1"), cmd("cmd2", "cmd2")])],
        vec![cmd("cmd3", "cmd3")],
    );
    let expanded = vec![];
    let shown = vec![];
    let ctx = TreeContext { expanded: &expanded, commands: &shown, filter: None };
    let nodes = visible_nodes(&config, &ctx);
    assert_eq!(nodes.len(), 5);
    let ids: Vec<&str> = nodes.iter().map(|n| n.id.as_str()).collect();
    assert_eq!(ids, vec!["root", "g1", "cmd1", "cmd2", "cmd3"]);
}

#[test]
fn test_collapsed_groups_hide_their_rows() {
    let config = make_test_tree();
    let expanded = vec![("debug".to_string(), false)];
    let shown = vec![
        CommandDisplay {
            id: "fmt".to_string(),
            selected: true,
            status: CommandStatus::Success,
            duration: Some(" (1m 2s)".to_string()),
        },
        CommandDisplay {
            id: "htop".to_string(),
            selected: true,
            status: CommandStatus::Running,
            duration: None,
        },
    ];
    let lines = render(&config, &expanded, &shown, None);
    let expected = vec![
        "▼ fnug (2/7)",
        "├─▼ rust (1/2)",
        "│ ├─● fmt ✔ (1m 2s)",
        "│ └─○ clippy",
        "└─▶ debug (1/5)",
    ];
    assert_eq!(lines, expected);
}

#[test]
fn test_filter_shows_matches_and_expands() {
    let config = make_test_tree();
    let expanded = vec![("debug".to_string(), false)];
    let lines = render(&config, &expanded, &vec![], Some("HTOP"));
    let expected = vec!["▼ fnug (0/7)", "└─▼ debug (0/5)", "  └─○ htop"];
    assert_eq!(lines, expected);
    let none = render(&config, &expanded, &vec![], Some("zzz"));
    assert!(none.is_empty());
    assert!(matches_filter(&config, "Clippy"));
    assert!(!matches_filter(&config, "cargo"));
}

#[test]
fn test_counts_over_the_tree() {
    let config = make_test_tree();
    assert_eq!(count_commands(&config), 7);
    let shown = vec![
        CommandDisplay { id: "fmt".to_string(), selected: true, status: CommandStatus::Success, duration: None },
        CommandDisplay { id: "clippy".to_string(), selected: false, status: CommandStatus::Failure(2), duration: None },
        CommandDisplay { id: "htop".to_string(), selected: true, status: CommandStatus::Running, duration: None },
        CommandDisplay { id: "recursive".to_string(), selected: false, status: CommandStatus::Error("x".to_string()), duration: None },
        CommandDisplay { id: "test-auto".to_string(), selected: true, status: CommandStatus::WaitingForDeps, duration: None },
    ];
    let expanded = vec![];
    let ctx = TreeContext { expanded: &expanded, commands: &shown, filter: None };
    assert_eq!(
        count_status(&config, &ctx),
        StatusCounts { success: 1, running: 2, failure: 2, selected: 3 }
    );
    let mut a = StatusCounts { success: 65535, running: 1, failure: 2, selected: 3 };
    a.merge(&StatusCounts { success: 2, running: 1, failure: 0, selected: 4 });
    assert_eq!(a, StatusCounts { success: 1, running: 2, failure: 2, selected: 7 });
}

#[test]
fn test_find_command_and_group() {
    let config = make_test_tree();
    assert_eq!(find_command_in_group(&config, "htop").unwrap().name, "htop");
    assert!(find_command_in_group(&config, "nope").is_none());
    assert_eq!(find_group_in_group(&config, "nested-auto").unwrap().commands.len(), 2);
    assert_eq!(find_group_in_group(&config, "root").unwrap().name, "fnug");
    assert!(find_group_in_group(&config, "htop").is_none());
}

#[test]
fn test_groups_without_selection_are_inactive() {
    let config = make_test_tree();
    let shown = vec![CommandDisplay {
        id: "test-auto".to_string(),
        selected: true,
        status: CommandStatus::Pending,
        duration: None,
    }];
    let expanded = vec![];
    let ctx = TreeContext { expanded: &expanded, commands: &shown, filter: None };
    let mut out = Vec::new();
    collect_inactive_groups(&config, &ctx, &mut out);
    assert_eq!(out, vec!["rust", "not-expanded"]);
}
