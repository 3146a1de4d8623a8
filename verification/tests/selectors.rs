use fnug::commands::auto::Auto;
use fnug::commands::command::Command;
use fnug::selectors::always::AlwaysSelector;
use fnug::selectors::{get_selected_commands, paths_to_scan};
use fnug::selectors::git::{
    changed_entries, command_has_changes, unique_repos, watched_paths, GitScan, GitSelector,
};
use fnug::selectors::watch::{
    changed_paths, commands_for_paths, path_lookup_table, triggered_commands, watch_commands,
    EventKind, WatchError, WatchEvent,
};
use fnug::selectors::SelectorError;

fn make_cmd(id: &str, always: Option<bool>) -> Command {
    Command {
        id: id.to_string(),
        name: id.to_string(),
        auto: Auto {
            always,
            ..Default::default()
        },
        ..Default::default()
    }
}

fn git_cmd(id: &str, paths: Vec<&str>, patterns: Vec<&str>) -> Command {
    Command {
        id: id.to_string(),
        name: id.to_string(),
        auto: Auto {
            git: Some(true),
            path: paths.into_iter().map(String::from).collect(),
            regex: patterns.into_iter().map(String::from).collect(),
            ..Default::default()
        },
        ..Default::default()
    }
}

fn scan_with(changes: Vec<&str>) -> GitScan {
    GitScan {
        repos: vec![("/repo".to_string(), "/repo".to_string())],
        changes: vec![("/repo".to_string(), changes.into_iter().map(String::from).collect())],
    }
}

#[test]
fn test_always_true_is_selected() {
    let commands = vec![make_cmd("a", Some(true)), make_cmd("b", Some(false))];
    let (selected, other) = AlwaysSelector::split_active_commands(commands).unwrap();
    assert_eq!(selected.len(), 1);
    assert_eq!(selected[0].id, "a");
    assert_eq!(other.len(), 1);
    assert_eq!(other[0].id, "b");
}

#[test]
fn test_git_selector_picks_matching_changes() {
    let fmt = git_cmd("fmt", vec!["/repo"], vec![".*\\.rs$"]);
    let selected = get_selected_commands(vec![fmt.clone()], &scan_with(vec!["src/main.rs"])).unwrap();
    assert_eq!(selected.len(), 1);
    assert_eq!(selected[0].id, "fmt");
    let selected = get_selected_commands(vec![fmt], &scan_with(vec!["README.md"])).unwrap();
    assert!(selected.is_empty());
}

#[test]
fn test_git_selector_needs_change_under_watched_path() {
    let cmd = git_cmd("docs", vec!["/repo/docs"], vec![".*\\.md$"]);
    let scan = GitScan {
        repos: vec![("/repo/docs".to_string(), "/repo".to_string())],
        changes: vec![("/repo".to_string(), vec!["README.md".to_string(), "docsy/a.md".to_string()])],
    };
    assert!(!command_has_changes(&cmd, &scan));
    let scan = GitScan {
        repos: vec![("/repo/docs".to_string(), "/repo".to_string())],
        changes: vec![("/repo".to_string(), vec!["docs/a.md".to_string()])],
    };
    assert!(command_has_changes(&cmd, &scan));
}

#[test]
fn test_selection_order_is_always_then_git() {
    let mut both = git_cmd("both", vec!["/repo"], vec![".*"]);
    both.auto.always = Some(true);
    let commands = vec![
        git_cmd("g1", vec!["/repo"], vec![".*\\.rs$"]),
        make_cmd("a1", Some(true)),
        git_cmd("g2", vec!["/repo"], vec![".*\\.toml$"]),
        both,
        make_cmd("plain", None),
        git_cmd("g3", vec!["/elsewhere"], vec![".*"]),
    ];
    let selected = get_selected_commands(commands.clone(), &scan_with(vec!["a.rs", "b.toml"])).unwrap();
    let ids: Vec<&str> = selected.iter().map(|c| c.id.as_str()).collect();
    assert_eq!(ids, vec!["a1", "both", "g1", "g2"]);
    let (with_git, rest) = GitSelector::split_active_commands(commands, &scan_with(vec!["a.rs"])).unwrap();
    let ids: Vec<&str> = with_git.iter().map(|c| c.id.as_str()).collect();
    assert_eq!(ids, vec!["g1", "both"]);
    let ids: Vec<&str> = rest.iter().map(|c| c.id.as_str()).collect();
    assert_eq!(ids, vec!["g2", "g3", "a1", "plain"]);
}

#[test]
fn test_paths_and_repositories_to_scan() {
    let commands = vec![
        git_cmd("a", vec!["/r/x", "/r/y"], vec![]),
        make_cmd("skip", Some(true)),
        git_cmd("b", vec!["/r/y", "/s"], vec![]),
    ];
    assert_eq!(watched_paths(&commands), vec!["/r/x", "/r/y", "/s"]);
    let repos = vec![
        ("/r/x".to_string(), "/r".to_string()),
        ("/r/y".to_string(), "/r".to_string()),
        ("/s".to_string(), "/s".to_string()),
    ];
    assert_eq!(unique_repos(&repos), vec!["/r", "/s"]);
}

#[test]
fn test_selector_error_message() {
    assert_eq!(
        SelectorError::Git("boom".to_string()).message(),
        "Git operation failed: boom"
    );
}

fn create_test_command(name: &str, paths: Vec<&str>, patterns: Vec<&str>) -> Command {
    Command {
        id: name.to_string(),
        name: name.to_string(),
        cmd: "test".to_string(),
        cwd: String::new(),
        auto: Auto {
            watch: Some(true),
            path: paths.into_iter().map(String::from).collect(),
            regex: patterns.into_iter().map(String::from).collect(),
            git: None,
            always: None,
        },
        ..Default::default()
    }
}

fn create_path_map(commands: Vec<Command>) -> Vec<(String, Vec<Command>)> {
    path_lookup_table(commands)
}

#[test]
fn watch_test_commands_for_paths_basic_match() {
    let cmd = create_test_command("test1", vec!["src"], vec![r".*\.rs$"]);
    let path_map = create_path_map(vec![cmd]);

    let changed_paths = vec!["src/main.rs".to_string()];
    let matching_commands = commands_for_paths(&changed_paths, &path_map);

    assert_eq!(matching_commands.len(), 1);
    assert_eq!(matching_commands[0].name, "test1");
}

#[test]
fn watch_test_commands_for_paths_no_match() {
    let cmd = create_test_command("test1", vec!["src"], vec![r".*\.rs$"]);
    let path_map = create_path_map(vec![cmd]);

    let changed_paths = vec!["src/main.txt".to_string()];
    let matching_commands = commands_for_paths(&changed_paths, &path_map);

    assert_eq!(matching_commands.len(), 0);
}

#[test]
fn watch_test_commands_for_paths_multiple_commands() {
    let cmd1 = create_test_command("test1", vec!["src"], vec![r".*\.rs$"]);
    let cmd2 = create_test_command("test2", vec!["src"], vec![r".*\.rs$"]);
    let path_map = create_path_map(vec![cmd1, cmd2]);

    let changed_paths = vec!["src/main.rs".to_string()];
    let matching_commands = commands_for_paths(&changed_paths, &path_map);

    assert_eq!(matching_commands.len(), 2);
}

#[test]
fn watch_test_commands_for_paths_multiple_patterns() {
    let cmd = create_test_command("test1", vec!["src"], vec![r".*\.rs$", r".*\.toml$"]);
    let path_map = create_path_map(vec![cmd]);

    let changed_paths = vec![
        "src/main.rs".to_string(),
        "src/Cargo.toml".to_string(),
        "src/README.md".to_string(),
    ];
    let matching_commands = commands_for_paths(&changed_paths, &path_map);

    assert_eq!(matching_commands.len(), 2);
}

#[test]
fn test_triggered_commands_are_deduplicated() {
    let a = create_test_command("a", vec!["src", "lib"], vec![r".*\.rs$"]);
    let b = create_test_command("b", vec!["lib"], vec![r".*\.rs$"]);
    let table = path_lookup_table(vec![a, b]);
    let keys: Vec<&str> = table.iter().map(|(k, _)| k.as_str()).collect();
    assert_eq!(keys, vec!["src", "lib"]);
    let changed = vec!["lib/x.rs".to_string(), "src/y.rs".to_string(), "lib/z.rs".to_string()];
    assert_eq!(commands_for_paths(&changed, &table).len(), 5);
    let hit = triggered_commands(&changed, &table);
    let ids: Vec<&str> = hit.iter().map(|c| c.id.as_str()).collect();
    assert_eq!(ids, vec!["a", "b"]);
}

#[test]
fn test_path_prefix_counts_whole_components() {
    let cmd = create_test_command("a", vec!["src"], vec![".*"]);
    let table = path_lookup_table(vec![cmd]);
    assert_eq!(commands_for_paths(&vec!["srcx/main.rs".to_string()], &table).len(), 0);
    assert_eq!(commands_for_paths(&vec!["src".to_string()], &table).len(), 1);
}

#[test]
fn test_watch_plan_needs_a_watchable_command() {
    let idle = make_cmd("idle", None);
    assert!(matches!(watch_commands(vec![idle]), Err(WatchError::NoWatchableCommands)));
    assert_eq!(WatchError::NoWatchableCommands.message(), "No watchable commands found");
    let plan = watch_commands(vec![create_test_command("a", vec!["/x", "/y"], vec![])]).unwrap();
    assert_eq!(plan.paths, vec!["/x", "/y"]);
    assert_eq!(plan.table.len(), 2);
}

#[test]
fn test_only_changes_count_as_events() {
    let events = vec![
        WatchEvent { kind: EventKind::Access, paths: vec!["a".to_string()] },
        WatchEvent { kind: EventKind::Create, paths: vec!["b".to_string(), "c".to_string()] },
        WatchEvent { kind: EventKind::Other, paths: vec!["d".to_string()] },
        WatchEvent { kind: EventKind::Modify, paths: vec!["e".to_string()] },
        WatchEvent { kind: EventKind::Any, paths: vec!["f".to_string()] },
        WatchEvent { kind: EventKind::Remove, paths: vec!["g".to_string()] },
    ];
    assert_eq!(changed_paths(&events), vec!["b", "c", "e", "g"]);
}

#[test]
fn test_paths_of_always_commands_are_not_scanned() {
    let mut both = git_cmd("both", vec!["/outside/any/repo"], vec![".*"]);
    both.auto.always = Some(true);
    let commands = vec![
        both,
        git_cmd("one", vec!["/repo/a", "/repo/b"], vec![".*"]),
        make_cmd("plain", None),
        git_cmd("two", vec!["/repo/b", "/repo/c"], vec![".*"]),
    ];
    assert_eq!(paths_to_scan(&commands), vec!["/repo/a", "/repo/b", "/repo/c"]);
    assert_eq!(
        watched_paths(&commands),
        vec!["/outside/any/repo", "/repo/a", "/repo/b", "/repo/c"]
    );
    assert_eq!(paths_to_scan(&vec![]), Vec::<String>::new());
}

#[test]
fn test_ignored_entries_are_no_changes() {
    let entry = |path: &str, ignored: bool| (path.to_string(), ignored);
    let entries = vec![
        entry("src/main.rs", false),
        entry("target/debug/app", true),
        entry("README.md", false),
        entry("node_modules/x.js", true),
        entry("src/main.rs", false),
    ];
    assert_eq!(changed_entries(&entries), vec!["src/main.rs", "README.md", "src/main.rs"]);
    assert_eq!(changed_entries(&vec![entry("a", true)]), Vec::<String>::new());
    assert_eq!(changed_entries(&vec![]), Vec::<String>::new());
}

#[test]
fn test_auto_refuses_a_pattern_that_cannot_be_built() {
    let result = Auto::new(Some(true), None, vec![], vec![r"\w{1000}".to_string()], None);
    assert!(result.is_err());
}
