use fnug::check::{CheckResult, Verdict};
use fnug::cli::{outcome, prompt_text, should_prompt, CheckArgs, CheckOutcome, InitHooksArgs};
use fnug::commands::auto::Auto;
use fnug::commands::command::Command;
use fnug::commands::group::CommandGroup;
use fnug::init_hooks::{hook_contents, hook_plan, run, InitHooksError, HOOK_MODE};
use fnug::mcp::{find_target, list_lints, skipped_note, verdict_label, ListLintsParams};
use fnug::text::{
    contains, decimal, eq_ignore_ascii_case, is_blank, join_with, pad_left, str_contains,
};
use fnug::tui::app::{
    ensure_cursor_visible, CommandStatus, Focus, MouseState, SearchState,
};
use fnug::tui::event::{translate_key_event, KeyCode, KeyEvent};
use fnug::tui::log_state::{enabled, level_color, Level, LevelColor, LogBuffer, LogEntry};
use fnug::tui::toolbar::{
    build_toolbar_line, get_shortcuts, CursorKind, SearchKind, Shortcut, ToolbarAction,
    ToolbarCache, ToolbarInput, ToolbarRegion,
};

#[test]
fn test_search_state_transitions() {
    let mut s = SearchState::default();
    assert_eq!(s.query(), None);
    assert!(!s.has_query());
    s.push_char('x');
    assert_eq!(s.query(), None);
    let mut s = SearchState::Editing(String::new());
    assert!(s.is_editing());
    assert!(!s.is_filtering());
    s.push_char('a');
    s.push_char('é');
    s.push_char('b');
    assert_eq!(s.query(), Some("aéb"));
    s.pop_char();
    assert_eq!(s.query(), Some("aé"));
    s.accept();
    assert!(s.is_filtering());
    assert!(s.has_query());
    assert_eq!(s.query(), Some("aé"));
    s.push_char('z');
    s.pop_char();
    assert_eq!(s.query(), Some("aé"));
    s.resume_editing();
    assert!(s.is_editing());
    s.pop_char();
    s.pop_char();
    s.pop_char();
    assert_eq!(s.query(), Some(""));
    assert_eq!(s.clone().query(), Some(""));
}

#[test]
fn test_double_click_needs_same_row_and_speed() {
    let mut m = MouseState::default();
    assert!(!m.is_double_click(100, 3, false));
    m.last_click = Some((100, 3));
    assert!(m.is_double_click(499, 3, false));
    assert!(!m.is_double_click(500, 3, false));
    assert!(!m.is_double_click(200, 4, false));
    assert!(!m.is_double_click(200, 3, true));
}

#[test]
fn test_ensure_cursor_visible_values() {
    assert_eq!(ensure_cursor_visible(3, 5, 10), 3);
    assert_eq!(ensure_cursor_visible(20, 5, 10), 11);
    assert_eq!(ensure_cursor_visible(14, 5, 10), 5);
    assert_eq!(ensure_cursor_visible(15, 5, 10), 6);
    assert_eq!(ensure_cursor_visible(20, 5, 0), 5);
}

#[test]
fn test_status_predicates() {
    assert!(CommandStatus::Running.is_running());
    assert!(!CommandStatus::Success.is_running());
    assert!(CommandStatus::Error("x".to_string()).has_finished());
    assert!(!CommandStatus::WaitingForDeps.has_finished());
    assert_eq!(CommandStatus::Failure(2).clone(), CommandStatus::Failure(2));
}

fn tree_input() -> ToolbarInput {
    ToolbarInput {
        fullscreen: false,
        focus: Focus::Tree,
        cursor: CursorKind::Nothing,
        selected_count: 0,
        terminal_available: false,
        search: SearchKind::Inactive,
        show_logs: false,
    }
}

fn keys(list: &Vec<Shortcut>) -> Vec<(String, String)> {
    list.iter().map(|s| (s.key.to_string(), s.desc.clone())).collect()
}

fn pairs(list: &[(&str, &str)]) -> Vec<(String, String)> {
    list.iter().map(|(k, d)| (k.to_string(), d.to_string())).collect()
}

#[test]
fn test_toolbar_shortcuts_by_state() {
    let mut input = tree_input();
    assert_eq!(
        keys(&get_shortcuts(&input)),
        pairs(&[("G", "Git select"), ("^R", "Fullscreen"), ("/", "Search"), ("L", "Logs"), ("Q", "Quit")])
    );
    input.selected_count = 12;
    input.cursor = CursorKind::Command { selected: true, running: true };
    input.terminal_available = true;
    input.search = SearchKind::Active;
    input.show_logs = true;
    assert_eq!(
        keys(&get_shortcuts(&input)),
        pairs(&[
            ("ENTER", "Run selected (12)"),
            ("SPACE", "Deselect"),
            ("R", "Run"),
            ("S", "Stop"),
            ("C", "Clear"),
            ("G", "Git select"),
            ("^R", "Fullscreen"),
            ("TAB", "Terminal"),
            ("/", "Edit filter"),
            ("ESC", "Clear filter"),
            ("L", "Hide logs"),
            ("Q", "Quit"),
        ])
    );
    input.cursor = CursorKind::Group { expanded: false };
    input.search = SearchKind::Editing;
    let list = get_shortcuts(&input);
    assert_eq!(list[1].desc, "Expand");
    assert_eq!(list[1].action, ToolbarAction::ToggleSpace);
    assert_eq!(list[5].desc, "Clear");
    assert_eq!(list[6].action, ToolbarAction::AcceptSearch);
    input.focus = Focus::Terminal;
    assert_eq!(
        keys(&get_shortcuts(&input)),
        pairs(&[("ESC", "Back to tree"), ("^R", "Fullscreen"), ("^C", "Quit")])
    );
    input.fullscreen = true;
    assert_eq!(
        keys(&get_shortcuts(&input)),
        pairs(&[("^R", "Exit fullscreen"), ("ESC", "Back to tree"), ("^C", "Quit")])
    );
}

#[test]
fn test_toolbar_layout_regions() {
    let shortcuts = vec![
        Shortcut::new("G", "Git select", ToolbarAction::GitSelect),
        Shortcut::new("^R", "Fullscreen", ToolbarAction::ToggleFullscreen),
        Shortcut::new("Q", "Quit", ToolbarAction::Quit),
    ];
    assert_eq!(shortcuts[0].width(), 14);
    let layout = build_toolbar_line(&shortcuts, 80);
    assert_eq!(layout.shown, 3);
    assert_eq!(
        layout.regions,
        vec![
            ToolbarRegion { x_start: 0, x_end: 14, action: ToolbarAction::GitSelect },
            ToolbarRegion { x_start: 16, x_end: 31, action: ToolbarAction::ToggleFullscreen },
            ToolbarRegion { x_start: 33, x_end: 41, action: ToolbarAction::Quit },
        ]
    );
    assert_eq!(layout.padding, 39);
    let narrow = build_toolbar_line(&shortcuts, 31);
    assert_eq!(narrow.shown, 2);
    assert_eq!(narrow.padding, 0);
    let tiny = build_toolbar_line(&shortcuts, 13);
    assert_eq!(tiny.shown, 0);
    assert_eq!(tiny.padding, 13);
    let cache = ToolbarCache { regions: layout.regions, y: 5, hover: None };
    assert_eq!(cache.hit(0), Some(0));
    assert_eq!(cache.hit(14), None);
    assert_eq!(cache.hit(30), Some(1));
    assert_eq!(cache.hit(41), None);
    assert_eq!(ToolbarCache::default().y, u16::MAX);
}

fn key(code: KeyCode) -> KeyEvent {
    KeyEvent::plain(code)
}

#[test]
fn test_key_translation() {
    assert_eq!(translate_key_event(&key(KeyCode::Char('a')), false), Some(b"a".to_vec()));
    assert_eq!(translate_key_event(&key(KeyCode::Char('é')), false), Some("é".as_bytes().to_vec()));
    let ctrl = |c| KeyEvent { code: KeyCode::Char(c), control: true, alt: false };
    assert_eq!(translate_key_event(&ctrl('a'), false), Some(vec![1]));
    assert_eq!(translate_key_event(&ctrl('z'), false), Some(vec![26]));
    assert_eq!(translate_key_event(&ctrl('A'), false), None);
    assert_eq!(translate_key_event(&ctrl('1'), false), None);
    let alt = KeyEvent { code: KeyCode::Char('x'), control: false, alt: true };
    assert_eq!(translate_key_event(&alt, false), Some(vec![0x1b, b'x']));
    assert_eq!(translate_key_event(&key(KeyCode::Enter), false), Some(vec![b'\r']));
    assert_eq!(translate_key_event(&key(KeyCode::Backspace), false), Some(vec![0x7f]));
    assert_eq!(translate_key_event(&key(KeyCode::Tab), false), Some(vec![b'\t']));
    assert_eq!(translate_key_event(&key(KeyCode::BackTab), false), Some(b"\x1b[Z".to_vec()));
    assert_eq!(translate_key_event(&key(KeyCode::Esc), false), Some(vec![0x1b]));
    assert_eq!(translate_key_event(&key(KeyCode::Up), false), Some(b"\x1b[A".to_vec()));
    assert_eq!(translate_key_event(&key(KeyCode::Up), true), Some(b"\x1bOA".to_vec()));
    assert_eq!(translate_key_event(&key(KeyCode::Down), true), Some(b"\x1bOB".to_vec()));
    assert_eq!(translate_key_event(&key(KeyCode::Right), false), Some(b"\x1b[C".to_vec()));
    assert_eq!(translate_key_event(&key(KeyCode::Left), true), Some(b"\x1bOD".to_vec()));
    assert_eq!(translate_key_event(&key(KeyCode::Home), true), Some(b"\x1b[H".to_vec()));
    assert_eq!(translate_key_event(&key(KeyCode::End), false), Some(b"\x1b[F".to_vec()));
    assert_eq!(translate_key_event(&key(KeyCode::PageUp), false), Some(b"\x1b[5~".to_vec()));
    assert_eq!(translate_key_event(&key(KeyCode::PageDown), false), Some(b"\x1b[6~".to_vec()));
    assert_eq!(translate_key_event(&key(KeyCode::Insert), false), Some(b"\x1b[2~".to_vec()));
    assert_eq!(translate_key_event(&key(KeyCode::Delete), false), Some(b"\x1b[3~".to_vec()));
    let f: Vec<Option<Vec<u8>>> = (0..=13).map(|n| translate_key_event(&key(KeyCode::F(n)), false)).collect();
    let want: Vec<Option<Vec<u8>>> = vec![
        None,
        Some(b"\x1bOP".to_vec()),
        Some(b"\x1bOQ".to_vec()),
        Some(b"\x1bOR".to_vec()),
        Some(b"\x1bOS".to_vec()),
        Some(b"\x1b[15~".to_vec()),
        Some(b"\x1b[17~".to_vec()),
        Some(b"\x1b[18~".to_vec()),
        Some(b"\x1b[19~".to_vec()),
        Some(b"\x1b[20~".to_vec()),
        Some(b"\x1b[21~".to_vec()),
        Some(b"\x1b[23~".to_vec()),
        Some(b"\x1b[24~".to_vec()),
        None,
    ];
    assert_eq!(f, want);
    assert_eq!(translate_key_event(&key(KeyCode::Other), false), None);
}

fn entry(n: u64) -> LogEntry {
    LogEntry { level: Level::Info, target: "t".to_string(), message: n.to_string(), timestamp: n }
}

#[test]
fn test_log_buffer_keeps_the_newest_thousand() {
    let mut buffer = LogBuffer::new();
    assert!(buffer.is_empty());
    for n in 0..1003 {
        buffer.push(entry(n));
    }
    assert_eq!(buffer.len(), 1000);
    assert_eq!(buffer.entries[0].timestamp, 3);
    assert_eq!(buffer.entries[999].message, "1002");
    assert_eq!(buffer.entries[0].clone().message, "3");
    assert_eq!(level_color(Level::Error), LevelColor::Red);
    assert_eq!(level_color(Level::Warn), LevelColor::Yellow);
    assert_eq!(level_color(Level::Info), LevelColor::Blue);
    assert_eq!(level_color(Level::Trace), LevelColor::DarkGray);
    assert!(enabled(Level::Warn, Level::Info));
    assert!(!enabled(Level::Debug, Level::Info));
}

fn lint_cmd(id: &str, name: &str, auto: Auto) -> Command {
    Command { id: id.to_string(), name: name.to_string(), cmd: "x".to_string(), auto, ..Default::default() }
}

fn lint_tree() -> CommandGroup {
    CommandGroup {
        id: "root".to_string(),
        name: "Project".to_string(),
        commands: vec![lint_cmd("fmt", "Format", Auto { git: Some(true), ..Default::default() })],
        children: vec![CommandGroup {
            id: "t".to_string(),
            name: "Tests".to_string(),
            commands: vec![
                lint_cmd("unit", "Unit", Auto { always: Some(true), ..Default::default() }),
                lint_cmd("slow", "Slow", Auto::default()),
            ],
            children: vec![CommandGroup {
                id: "e".to_string(),
                name: "E2E".to_string(),
                commands: vec![lint_cmd("web", "Web", Auto { watch: Some(true), ..Default::default() })],
                ..Default::default()
            }],
            ..Default::default()
        }],
        ..Default::default()
    }
}

fn params(group: Option<&str>, auto_type: Option<&str>, name: Option<&str>) -> ListLintsParams {
    ListLintsParams {
        group: group.map(String::from),
        auto_type: auto_type.map(String::from),
        name: name.map(String::from),
    }
}

#[test]
fn test_list_lints_paths_and_filters() {
    let tree = lint_tree();
    let selected = vec![lint_cmd("unit", "Unit", Auto::default())];
    let all = list_lints(&tree, &selected, &params(None, None, None));
    let rows: Vec<(&str, &str, bool)> =
        all.iter().map(|l| (l.id.as_str(), l.group.as_str(), l.selected)).collect();
    assert_eq!(
        rows,
        vec![
            ("fmt", "Project", false),
            ("unit", "Project > Tests", true),
            ("slow", "Project > Tests", false),
            ("web", "Project > Tests > E2E", false),
        ]
    );
    let ids = |p: ListLintsParams| -> Vec<String> {
        list_lints(&tree, &selected, &p).iter().map(|l| l.id.clone()).collect()
    };
    assert_eq!(ids(params(Some("tests"), None, None)), vec!["unit", "slow", "web"]);
    assert_eq!(ids(params(None, Some("GIT"), None)), vec!["fmt"]);
    assert_eq!(ids(params(None, Some("watch"), None)), vec!["web"]);
    assert_eq!(ids(params(None, Some("always"), None)), vec!["unit"]);
    assert_eq!(ids(params(None, Some("none"), None)), vec!["slow"]);
    assert_eq!(ids(params(None, Some("other"), None)).len(), 4);
    assert_eq!(ids(params(None, None, Some("W"))), vec!["slow", "web"]);
    assert_eq!(ids(params(Some("e2e"), Some("watch"), Some("web"))), vec!["web"]);
    assert_eq!(all[0].auto_rules.git, Some(true));
}

#[test]
fn test_find_target_by_id_or_name() {
    let all = vec![lint_cmd("a", "Build", Auto::default()), lint_cmd("build", "Other", Auto::default())];
    assert_eq!(find_target(&all, "build"), Ok(0));
    assert_eq!(find_target(&all, "other"), Ok(1));
    assert_eq!(find_target(&all, "a"), Ok(0));
    assert_eq!(find_target(&all, "zzz"), Err("Command not found: zzz".to_string()));
    assert_eq!(verdict_label(Verdict::Passed), "passed");
    assert_eq!(verdict_label(Verdict::Failed), "failed");
    assert_eq!(verdict_label(Verdict::Skipped), "skipped");
    assert_eq!(skipped_note(), "Skipped: dependency failed");
}

#[test]
fn test_init_hooks_creates_hook() {
    let plan = hook_plan("/repo/.git/");
    assert_eq!(plan.hooks_dir, "/repo/.git/hooks");
    assert_eq!(plan.hook_path, "/repo/.git/hooks/pre-commit");
    assert!(run(&plan, false, false).is_ok());
    assert!(hook_contents().contains("fnug check --fail-fast"));
    assert!(hook_contents().starts_with("#!/bin/sh\n"));
    assert!(HOOK_MODE & 0o111 != 0);
}

#[test]
fn test_init_hooks_refuses_overwrite() {
    let plan = hook_plan("/repo/.git");
    let result = run(&plan, true, false);
    assert!(result.is_err());
    let e = result.unwrap_err();
    assert!(e.message().contains("already exists"));
    assert!(matches!(e, InitHooksError::HookExists(p) if p == "/repo/.git/hooks/pre-commit"));
}

#[test]
fn test_init_hooks_force_overwrites() {
    let plan = hook_plan("/repo/.git");
    assert!(run(&plan, true, true).is_ok());
    assert_eq!(
        InitHooksError::NoRepo("x".to_string()).message(),
        "git repository not found: x"
    );
    assert_eq!(InitHooksError::Io("x".to_string()).message(), "failed to write hook: x");
}

fn result(exit_code: i32) -> CheckResult {
    CheckResult { exit_code, selected_ids: vec!["a".to_string()], failed_ids: vec![] }
}

#[test]
fn test_check_outcome_decisions() {
    let args = CheckArgs { fail_fast: false, no_tui: false, mute_success: false };
    assert!(should_prompt(&args, 1, true, true));
    assert!(!should_prompt(&args, 0, true, true));
    assert!(!should_prompt(&args, 1, false, true));
    assert!(!should_prompt(&CheckArgs { no_tui: true, ..args }, 1, true, true));
    assert_eq!(prompt_text(), "Open TUI to investigate? [y/N] ");
    assert!(matches!(outcome(result(0), Some("y")), CheckOutcome::Done(0)));
    assert!(matches!(outcome(result(1), Some("Y")), CheckOutcome::OpenTui(_)));
    assert!(matches!(outcome(result(1), Some("n")), CheckOutcome::Done(1)));
    assert!(matches!(outcome(result(1), None), CheckOutcome::Done(1)));
    assert!(InitHooksArgs { force: true }.force);
}

#[test]
fn test_text_helpers() {
    assert_eq!(decimal(0), "0");
    assert_eq!(decimal(907), "907");
    assert_eq!(decimal(u64::MAX), "18446744073709551615");
    assert!(is_blank(" \t\n"));
    assert!(is_blank(""));
    assert!(!is_blank(" x "));
    assert!(str_contains("hello world", "o w"));
    assert!(str_contains("abc", ""));
    assert!(!str_contains("abc", "abcd"));
    assert!(!str_contains("ababa", "bb"));
    assert!(contains(&vec!['a', 'a', 'b'], &vec!['a', 'b']));
    assert!(eq_ignore_ascii_case("Hello", "hELLO"));
    assert!(!eq_ignore_ascii_case("Hello", "Hell"));
    assert!(!eq_ignore_ascii_case("é", "É"));
    assert_eq!(join_with(&vec!["a".to_string(), "b".to_string(), "c".to_string()], ", "), "a, b, c");
    assert_eq!(join_with(&vec![], ", "), "");
    assert_eq!(pad_left("7", 3), "  7");
    assert_eq!(pad_left("1234", 3), "1234");
}

#[test]
fn test_blank_follows_the_white_space_property() {
    let listed = |n: u32| {
        (0x09..=0x0D).contains(&n)
            || n == 0x20
            || n == 0x85
            || n == 0xA0
            || n == 0x1680
            || (0x2000..=0x200A).contains(&n)
            || n == 0x2028
            || n == 0x2029
            || n == 0x202F
            || n == 0x205F
            || n == 0x3000
    };
    let mut text = String::new();
    for n in 0..=0x10FFFFu32 {
        if let Some(c) = char::from_u32(n) {
            text.clear();
            text.push(c);
            assert_eq!(is_blank(&text), listed(n), "U+{n:04X}");
        }
    }
    assert!(is_blank(""));
    assert!(is_blank("  \t\n"));
    assert!(!is_blank("root"));
    assert!(!is_blank(" a "));
}
