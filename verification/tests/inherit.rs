use fnug::commands::auto::Auto;
use fnug::commands::command::Command;
use fnug::commands::env::{env_set, merge_env};
use fnug::commands::group::CommandGroup;
use fnug::commands::inherit::{InheritError, Inheritance, PathTable};
use fnug::config_file::ConfigError;
use fnug::path::{inherit_path, is_absolute, join};

fn table(paths: &[&str]) -> PathTable {
    let mut t = PathTable::new();
    for p in paths {
        t.record(p.to_string(), Some(p.to_string()));
    }
    t
}

#[test]
fn inherit_test_basic_cwd_inheritance() {
    let root = "/work/root".to_string();
    let disk = table(&["/work/root"]);

    let mut group = CommandGroup {
        id: "1".to_string(),
        name: "parent".to_string(),
        auto: Auto::default(),
        cwd: root.clone(),
        commands: vec![Command {
            id: "2".to_string(),
            name: "child".to_string(),
            cmd: "echo test".to_string(),
            cwd: String::new(),
            auto: Auto::default(),
            ..Default::default()
        }],
        children: vec![],
        ..Default::default()
    };

    group.inherit(&Inheritance::from(root.clone()), &disk).unwrap();
    assert_eq!(group.commands[0].cwd, root);
}

#[test]
fn inherit_test_relative_path_resolution() {
    let root = "/work/root".to_string();
    let disk = table(&["/work/root", "/work/root/subdir"]);

    let mut group = CommandGroup {
        id: "1".to_string(),
        name: "parent".to_string(),
        auto: Auto::default(),
        cwd: root.clone(),
        commands: vec![Command {
            id: "2".to_string(),
            name: "child".to_string(),
            cmd: "echo test".to_string(),
            cwd: "subdir".to_string(),
            auto: Auto::default(),
            ..Default::default()
        }],
        children: vec![],
        ..Default::default()
    };

    group.inherit(&Inheritance::from(root.clone()), &disk).unwrap();
    assert_eq!(group.commands[0].cwd, "/work/root/subdir");
}

#[test]
fn inherit_test_auto_settings_inheritance() {
    let root = "/work/root".to_string();
    let disk = table(&["/work/root"]);

    let parent_auto = Auto {
        watch: Some(true),
        git: Some(true),
        path: vec![],
        regex: vec![],
        always: Some(false),
    };
    let mut group = CommandGroup {
        id: "1".to_string(),
        name: "parent".to_string(),
        auto: parent_auto,
        cwd: root.clone(),
        commands: vec![Command {
            id: "2".to_string(),
            name: "child".to_string(),
            cmd: "echo test".to_string(),
            cwd: String::new(),
            auto: Auto::default(),
            ..Default::default()
        }],
        children: vec![],
        ..Default::default()
    };

    group.inherit(&Inheritance::default(), &disk).unwrap();
    assert!(group.commands[0].auto.watch.unwrap());
    assert!(group.commands[0].auto.git.unwrap());
}

#[test]
fn inherit_test_nested_inheritance() {
    let root = "/work/root".to_string();
    let disk = table(&["/work/root", "/work/root/subdir"]);

    let parent_auto = Auto {
        watch: Some(true),
        git: Some(true),
        path: vec![root.clone()],
        regex: vec![],
        always: Some(false),
    };

    let child_group = CommandGroup {
        id: "2".to_string(),
        name: "child_group".to_string(),
        auto: Auto::default(),
        cwd: "subdir".to_string(),
        commands: vec![Command {
            id: "3".to_string(),
            name: "command".to_string(),
            cmd: "echo test".to_string(),
            cwd: String::new(),
            auto: Auto::default(),
            ..Default::default()
        }],
        children: vec![],
        ..Default::default()
    };

    let mut parent_group = CommandGroup {
        id: "1".to_string(),
        name: "parent".to_string(),
        auto: parent_auto,
        cwd: root.clone(),
        commands: vec![],
        children: vec![child_group],
        ..Default::default()
    };

    parent_group.inherit(&Inheritance::from(root.clone()), &disk).unwrap();
    assert_eq!(parent_group.children[0].commands[0].cwd, "/work/root/subdir");
    assert!(parent_group.children[0].commands[0].auto.watch.unwrap());
    assert!(parent_group.children[0].commands[0].auto.git.unwrap());
}

#[test]
fn inherit_test_no_base_path() {
    let root = "/work/root".to_string();
    let mut disk = table(&["/work/root", "/work/root/subdir"]);
    disk.record("/work/root/./subdir".to_string(), Some("/work/root/subdir".to_string()));

    let parent_auto = Auto {
        watch: Some(true),
        git: Some(true),
        path: vec![],
        regex: vec![],
        always: Some(false),
    };

    let mut group = CommandGroup {
        id: "1".to_string(),
        name: "parent".to_string(),
        auto: parent_auto,
        cwd: String::new(),
        commands: vec![Command {
            id: "2".to_string(),
            name: "child".to_string(),
            cmd: "echo test".to_string(),
            cwd: "./subdir".to_string(),
            auto: Auto::default(),
            ..Default::default()
        }],
        children: vec![],
        ..Default::default()
    };

    group.inherit(&Inheritance::from(root.clone()), &disk).unwrap();
    assert_eq!(group.commands[0].cwd, join(&root, "subdir"));
    assert_eq!(group.commands[0].auto.path, vec!["/work/root/subdir".to_string()]);
}

#[test]
fn test_auto_invalid_regex() {
    let result = Auto::new(
        Some(true),
        Some(false),
        vec![],
        vec!["[invalid".to_string()],
        Some(false),
    );
    assert!(result.is_err());
}

#[test]
fn test_auto_valid_regex() {
    let result = Auto::new(
        Some(true),
        Some(false),
        vec![],
        vec![".*\\.rs$".to_string()],
        Some(false),
    );
    assert!(result.is_ok());
}

#[test]
fn test_auto_path_validation() {
    let auto = Auto::new(
        Some(true),
        Some(false),
        vec!["/nonexistent/path".to_string()],
        vec![],
        Some(false),
    );
    assert!(auto.is_ok());

    let auto = Auto::new(Some(true), Some(false), vec![String::new()], vec![], Some(false));
    assert!(auto.is_ok());
}

#[test]
fn inherit_test_nested_invalid_auto_inheritance() {
    let root = "/work/root".to_string();
    let disk = table(&["/work/root"]);

    let parent_auto = Auto::create(
        Some(true),
        Some(true),
        vec![],
        vec![".*\\.rs$".to_string()],
        Some(false),
    )
    .unwrap();
    let child_auto = Auto::create(
        Some(true),
        Some(true),
        vec![],
        vec!["[invalid".to_string()],
        Some(false),
    );
    assert!(child_auto.is_err());

    let mut parent_group = CommandGroup {
        id: "1".to_string(),
        name: "parent".to_string(),
        auto: parent_auto,
        cwd: root.clone(),
        commands: vec![],
        children: vec![],
        ..Default::default()
    };

    parent_group.inherit(&Inheritance::from(root.clone()), &disk).unwrap();
    assert_eq!(parent_group.cwd, root);
}

#[test]
fn test_empty_auto_path_should_inherit_parent_command_path() {
    let root = "/work/root".to_string();
    let disk = table(&["/work/root", "/work/root/subdir"]);

    let mut command = Command {
        id: "2".to_string(),
        name: "child".to_string(),
        cmd: "echo test".to_string(),
        cwd: "subdir".to_string(),
        auto: Auto {
            watch: Some(true),
            git: Some(true),
            path: vec![],
            regex: vec![],
            always: Some(false),
        },
        ..Default::default()
    };

    command.inherit(&Inheritance::from(root.clone()), &disk).unwrap();

    assert_eq!(command.auto.path, vec!["/work/root/subdir".to_string()]);
}

#[test]
fn test_empty_auto_path_should_inherit_parent_command_path_unless_parent_auto_has_path() {
    let root = "/work/root".to_string();
    let disk = table(&["/work/root", "/work/root/subdir"]);

    let watched = || Auto {
        watch: Some(true),
        git: Some(true),
        path: vec![],
        regex: vec![],
        always: Some(false),
    };
    let child = || Command {
        id: "2".to_string(),
        name: "child".to_string(),
        cmd: "echo test".to_string(),
        cwd: "subdir".to_string(),
        auto: watched(),
        ..Default::default()
    };

    let mut group = CommandGroup {
        id: "1".to_string(),
        name: "parent".to_string(),
        auto: watched(),
        cwd: root.clone(),
        commands: vec![child()],
        children: vec![],
        ..Default::default()
    };

    group.inherit(&Inheritance::from(root.clone()), &disk).unwrap();
    assert_eq!(group.commands[0].auto.path, vec!["/work/root/subdir".to_string()]);

    let mut group = CommandGroup {
        id: "1".to_string(),
        name: "parent".to_string(),
        auto: Auto {
            watch: Some(true),
            git: Some(true),
            path: vec![root.clone()],
            regex: vec![],
            always: Some(false),
        },
        cwd: root.clone(),
        commands: vec![child()],
        children: vec![],
        ..Default::default()
    };

    group.inherit(&Inheritance::from(root.clone()), &disk).unwrap();
    assert_eq!(group.commands[0].auto.path, vec![root]);
}

#[test]
fn test_always_inherits_without_watch_or_git() {
    let root = "/work/root".to_string();
    let disk = table(&["/work/root"]);

    let mut group = CommandGroup {
        id: "1".to_string(),
        name: "parent".to_string(),
        auto: Auto {
            always: Some(true),
            ..Default::default()
        },
        cwd: root.clone(),
        commands: vec![Command {
            id: "2".to_string(),
            name: "child".to_string(),
            cmd: "echo test".to_string(),
            cwd: String::new(),
            auto: Auto::default(),
            ..Default::default()
        }],
        children: vec![],
        ..Default::default()
    };

    group.inherit(&Inheritance::from(root), &disk).unwrap();
    assert_eq!(group.commands[0].auto.always, Some(true));
}

#[test]
fn test_inert_parent_hands_down_no_empty_switches() {
    let root = "/work/root".to_string();
    let disk = table(&["/work/root"]);
    let mut group = CommandGroup {
        id: "1".to_string(),
        name: "parent".to_string(),
        auto: Auto { watch: Some(false), ..Default::default() },
        cwd: root.clone(),
        commands: vec![Command {
            id: "2".to_string(),
            name: "child".to_string(),
            cmd: "echo test".to_string(),
            ..Default::default()
        }],
        ..Default::default()
    };
    group.inherit(&Inheritance::from(root), &disk).unwrap();
    assert_eq!(group.commands[0].auto.watch, None);
    assert_eq!(group.commands[0].auto.git, None);
    assert_eq!(group.commands[0].auto.always, None);
    assert_eq!(group.auto.watch, Some(false));
}

#[test]
fn test_watch_without_path_watches_own_cwd() {
    let root = "/work/root".to_string();
    let mut disk = table(&["/work/root", "/real/place"]);
    disk.record("/work/root/link".to_string(), Some("/real/place".to_string()));
    let mut command = Command {
        id: "c".to_string(),
        name: "c".to_string(),
        cmd: "true".to_string(),
        cwd: "link".to_string(),
        auto: Auto { watch: Some(true), ..Default::default() },
        ..Default::default()
    };
    command.inherit(&Inheritance::from(root), &disk).unwrap();
    assert_eq!(command.cwd, "/real/place");
    assert_eq!(command.auto.path, vec!["/real/place".to_string()]);
}

#[test]
fn test_unknown_path_is_asked_for() {
    let root = "/work/root".to_string();
    let disk = table(&["/work/root"]);
    let mut command = Command {
        id: "c".to_string(),
        name: "c".to_string(),
        cmd: "true".to_string(),
        cwd: "sub".to_string(),
        ..Default::default()
    };
    match command.inherit(&Inheritance::from(root), &disk) {
        Err(InheritError::Unresolved(path)) => assert_eq!(path, "/work/root/sub"),
        other => panic!("expected a path to resolve, got {other:?}"),
    }
    assert_eq!(command.cwd, "sub");
}

#[test]
fn test_missing_directory_is_reported_with_dotted_entry() {
    let root = "/work/root".to_string();
    let mut disk = table(&["/work/root"]);
    disk.record("/work/root/gone".to_string(), None);
    let mut group = CommandGroup {
        id: "g".to_string(),
        name: "top".to_string(),
        cwd: root.clone(),
        commands: vec![Command {
            id: "c".to_string(),
            name: "leaf".to_string(),
            cmd: "true".to_string(),
            cwd: "gone".to_string(),
            ..Default::default()
        }],
        ..Default::default()
    };
    match group.inherit(&Inheritance::from(root), &disk) {
        Err(InheritError::Failed(ConfigError::DirectoryNotFound { entry, path })) => {
            assert_eq!(entry, "top.leaf");
            assert_eq!(path, "/work/root/gone");
        }
        other => panic!("expected a missing directory, got {other:?}"),
    }
}

#[test]
fn test_environment_is_merged_downwards() {
    let root = "/work/root".to_string();
    let disk = table(&["/work/root"]);
    let mut group = CommandGroup {
        id: "g".to_string(),
        name: "top".to_string(),
        cwd: root.clone(),
        env: vec![("A".to_string(), "1".to_string()), ("B".to_string(), "2".to_string())],
        commands: vec![Command {
            id: "c".to_string(),
            name: "leaf".to_string(),
            cmd: "true".to_string(),
            env: vec![("B".to_string(), "3".to_string()), ("C".to_string(), "4".to_string())],
            ..Default::default()
        }],
        ..Default::default()
    };
    group.inherit(&Inheritance::from(root), &disk).unwrap();
    assert_eq!(
        group.commands[0].env,
        vec![
            ("A".to_string(), "1".to_string()),
            ("B".to_string(), "3".to_string()),
            ("C".to_string(), "4".to_string()),
        ]
    );
}

#[test]
fn test_inheritance_twice_changes_nothing() {
    let root = "/work/root".to_string();
    let disk = table(&["/work/root", "/work/root/subdir"]);
    let mut group = CommandGroup {
        id: "g".to_string(),
        name: "top".to_string(),
        cwd: root.clone(),
        auto: Auto { git: Some(true), regex: vec!["x".to_string()], ..Default::default() },
        commands: vec![Command {
            id: "c".to_string(),
            name: "leaf".to_string(),
            cmd: "true".to_string(),
            cwd: "subdir".to_string(),
            ..Default::default()
        }],
        ..Default::default()
    };
    group.inherit(&Inheritance::from(root.clone()), &disk).unwrap();
    let once_cwd = group.commands[0].cwd.clone();
    let once_path = group.commands[0].auto.path.clone();
    let once_git = group.commands[0].auto.git;
    let once_regex = group.commands[0].auto.regex.clone();
    group.inherit(&Inheritance::from(root), &disk).unwrap();
    assert_eq!(group.commands[0].cwd, once_cwd);
    assert_eq!(group.commands[0].auto.path, once_path);
    assert_eq!(group.commands[0].auto.git, once_git);
    assert_eq!(group.commands[0].auto.regex, once_regex);
}

#[test]
fn test_inherit_path_cases() {
    assert_eq!(inherit_path("/a", String::new()), "/a");
    assert_eq!(inherit_path("/a", "b".to_string()), "/a/b");
    assert_eq!(inherit_path("/a/", "b".to_string()), "/a/b");
    assert_eq!(inherit_path("/a", "/c".to_string()), "/c");
    assert_eq!(inherit_path("", "b".to_string()), "b");
    assert_eq!(join("/a", ""), "/a/");
    assert!(is_absolute("/a"));
    assert!(!is_absolute("a"));
    assert!(!is_absolute(""));
}

#[test]
fn test_working_directory_becomes_canonical() {
    let mut disk = table(&["/srv/project", "/srv/project/tools"]);
    disk.record("rel".to_string(), Some("/srv/project".to_string()));
    disk.record("/srv/project/../project/tools".to_string(), Some("/srv/project/tools".to_string()));
    let mut group = CommandGroup {
        id: "g".to_string(),
        name: "g".to_string(),
        commands: vec![Command {
            id: "c".to_string(),
            name: "c".to_string(),
            cmd: "true".to_string(),
            cwd: "../project/tools".to_string(),
            ..Default::default()
        }],
        ..Default::default()
    };
    group.inherit(&Inheritance::from("rel".to_string()), &disk).unwrap();
    assert_eq!(group.cwd, "/srv/project");
    assert_eq!(group.commands[0].cwd, "/srv/project/tools");
    assert_eq!(group.commands[0].auto.path, vec!["/srv/project/tools".to_string()]);
    assert!(is_absolute(&group.commands[0].cwd));
}

#[test]
fn test_missing_working_directory_is_reported_as_it_was_asked() {
    let mut disk = table(&["/srv/project"]);
    disk.record("/srv/project/gone".to_string(), None);
    let mut command = Command {
        id: "c".to_string(),
        name: "lint".to_string(),
        cmd: "true".to_string(),
        cwd: "gone".to_string(),
        ..Default::default()
    };
    match command.inherit(&Inheritance::from("/srv/project".to_string()), &disk) {
        Err(InheritError::Failed(ConfigError::DirectoryNotFound { path, entry })) => {
            assert_eq!(path, "/srv/project/gone");
            assert_eq!(entry, "lint");
        }
        other => panic!("expected a missing directory, got {other:?}"),
    }
}

#[test]
fn test_unnamed_root_directory_is_the_directory_of_the_process() {
    let mut disk = table(&["/home/me/project"]);
    disk.record(".".to_string(), Some("/home/me/project".to_string()));
    let mut group = CommandGroup {
        id: "g".to_string(),
        name: "g".to_string(),
        auto: Auto { always: Some(true), ..Default::default() },
        commands: vec![Command {
            id: "c".to_string(),
            name: "c".to_string(),
            cmd: "true".to_string(),
            ..Default::default()
        }],
        ..Default::default()
    };
    group.inherit(&Inheritance::from(String::new()), &disk).unwrap();
    assert_eq!(group.cwd, "/home/me/project");
    assert_eq!(group.commands[0].cwd, "/home/me/project");
    assert!(is_absolute(&group.commands[0].cwd));
    assert_eq!(group.auto.path, vec!["/home/me/project".to_string()]);
    assert_eq!(group.commands[0].auto.path, vec!["/home/me/project".to_string()]);
}

#[test]
fn test_unnamed_root_directory_is_asked_for() {
    let disk = PathTable::new();
    let mut command = Command {
        id: "c".to_string(),
        name: "c".to_string(),
        cmd: "true".to_string(),
        ..Default::default()
    };
    match command.inherit(&Inheritance::from(String::new()), &disk) {
        Err(InheritError::Unresolved(path)) => assert_eq!(path, "."),
        other => panic!("expected a path to resolve, got {other:?}"),
    }
}

#[test]
fn test_inheriting_twice_changes_nothing() {
    let mut disk = table(&["/srv/project", "/srv/project/tools", "/srv/project/src"]);
    disk.record("/srv/project/./src".to_string(), Some("/srv/project/src".to_string()));
    let build = || CommandGroup {
        id: "g".to_string(),
        name: "g".to_string(),
        auto: Auto {
            watch: Some(true),
            path: vec!["./src".to_string()],
            regex: vec![".*".to_string()],
            ..Default::default()
        },
        env: vec![("A".to_string(), "1".to_string()), ("B".to_string(), "2".to_string())],
        commands: vec![Command {
            id: "c".to_string(),
            name: "c".to_string(),
            cmd: "true".to_string(),
            cwd: "tools".to_string(),
            env: vec![("B".to_string(), "3".to_string()), ("C".to_string(), "4".to_string())],
            ..Default::default()
        }],
        children: vec![CommandGroup {
            id: "h".to_string(),
            name: "h".to_string(),
            env: vec![("A".to_string(), "9".to_string())],
            commands: vec![Command {
                id: "d".to_string(),
                name: "d".to_string(),
                cmd: "true".to_string(),
                ..Default::default()
            }],
            ..Default::default()
        }],
        ..Default::default()
    };
    let root = Inheritance::from("/srv/project".to_string());
    let mut once = build();
    once.inherit(&root, &disk).unwrap();
    let mut twice = build();
    twice.inherit(&root, &disk).unwrap();
    twice.inherit(&root, &disk).unwrap();
    let show = |g: &CommandGroup| format!("{g:?}");
    assert_eq!(show(&once), show(&twice));
    assert_eq!(
        once.commands[0].env,
        vec![
            ("A".to_string(), "1".to_string()),
            ("B".to_string(), "3".to_string()),
            ("C".to_string(), "4".to_string()),
        ]
    );
    assert_eq!(once.children[0].commands[0].env[0], ("A".to_string(), "9".to_string()));
    assert_eq!(once.commands[0].cwd, "/srv/project/tools");
}

#[test]
fn test_table_refuses_what_would_make_it_unsound() {
    let mut disk = PathTable::new();
    assert!(disk.record("gone".to_string(), None));
    assert!(!disk.record("a".to_string(), Some("relative/form".to_string())));
    assert!(!disk.record("b".to_string(), Some("gone".to_string())));
    assert!(disk.record("link".to_string(), Some("/real".to_string())));
    assert!(disk.record("/other".to_string(), Some("/real".to_string())));
    assert!(!disk.record("c".to_string(), Some("link".to_string())));
    assert!(disk.record("/missing".to_string(), None));
    assert!(!disk.record("again".to_string(), Some("/missing".to_string())));

    // What was refused is still unknown, and a canonical form is known as itself.
    let named = |cwd: &str| Command {
        id: "c".to_string(),
        name: "c".to_string(),
        cmd: "true".to_string(),
        cwd: cwd.to_string(),
        ..Default::default()
    };
    let frame = Inheritance::from(String::new());
    for refused in ["a", "b", "c", "again"] {
        match named(refused).inherit(&frame, &disk) {
            Err(InheritError::Unresolved(path)) => assert_eq!(path, refused),
            other => panic!("expected a path to resolve, got {other:?}"),
        }
    }
    let mut linked = named("link");
    linked.inherit(&frame, &disk).unwrap();
    assert_eq!(linked.cwd, "/real");
    assert_eq!(linked.auto.path, vec!["/real".to_string()]);
    let mut direct = named("/real");
    direct.inherit(&frame, &disk).unwrap();
    assert_eq!(direct.cwd, "/real");
}

#[test]
fn test_merging_keeps_each_variable_once() {
    let pair = |k: &str, v: &str| (k.to_string(), v.to_string());
    let base = vec![pair("A", "1"), pair("B", "2")];
    let over = vec![pair("B", "3"), pair("C", "4"), pair("B", "5"), pair("C", "6")];
    let merged = merge_env(&base, &over);
    assert_eq!(merged, vec![pair("A", "1"), pair("B", "5"), pair("C", "6")]);
    assert_eq!(merge_env(&base, &merged), merged);
    let mut env = merged.clone();
    env_set(&mut env, "A".to_string(), "7".to_string());
    env_set(&mut env, "D".to_string(), "8".to_string());
    assert_eq!(env, vec![pair("A", "7"), pair("B", "5"), pair("C", "6"), pair("D", "8")]);
}
