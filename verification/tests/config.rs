use fnug::commands::command::Command;
use fnug::commands::group::CommandGroup;
use fnug::commands::inherit::{InheritError, PathTable};
use fnug::config_file::{
    parse_regexes, Config, ConfigAuto, ConfigCommand, ConfigCommandGroup, ConfigError,
    ConfigFormat,
};
use fnug::pattern::{check_pattern, matches_any};
use fnug::selectors::get_selected_commands;
use fnug::selectors::git::GitScan;
use fnug::validate::{
    check_empty_groups, validate_dependencies, validate_tree, validate_version,
};
use fnug::{load_config, settle_tree};

fn make_cmd(id: &str) -> Command {
    Command {
        id: id.to_string(),
        name: id.to_string(),
        cmd: "echo test".to_string(),
        ..Default::default()
    }
}

fn make_group(id: &str, children: Vec<CommandGroup>, commands: Vec<Command>) -> CommandGroup {
    CommandGroup {
        id: id.to_string(),
        name: id.to_string(),
        children,
        commands,
        ..Default::default()
    }
}

fn written_command(id: &str, name: &str, cmd: &str) -> ConfigCommand {
    ConfigCommand {
        id: Some(id.to_string()),
        name: name.to_string(),
        cwd: None,
        cmd: cmd.to_string(),
        auto: None,
        env: None,
        depends_on: None,
        scrollback: None,
    }
}

fn written_root(id: &str, commands: Vec<ConfigCommand>, children: Vec<ConfigCommandGroup>) -> Config {
    Config {
        fnug_version: "0.0.27".to_string(),
        root: ConfigCommandGroup {
            id: Some(id.to_string()),
            name: "root".to_string(),
            auto: None,
            cwd: None,
            commands: Some(commands),
            children: Some(children),
            env: None,
        },
    }
}

fn disk() -> PathTable {
    let mut t = PathTable::new();
    t.record("/work".to_string(), Some("/work".to_string()));
    t.record("/work/./".to_string(), Some("/work".to_string()));
    t
}

fn config_error(r: Result<CommandGroup, InheritError>) -> ConfigError {
    match r {
        Err(InheritError::Failed(e)) => e,
        other => panic!("expected a configuration error, got {other:?}"),
    }
}

#[test]
fn test_regex_error_preserves_pattern() {
    let result = parse_regexes(vec!["[invalid".to_string()]);
    match result {
        Err(ConfigError::Regex { pattern, .. }) => {
            assert_eq!(pattern, "[invalid");
        }
        other => panic!("Expected ConfigError::Regex, got: {other:?}"),
    }
}

#[test]
fn test_first_bad_pattern_is_reported() {
    let result = parse_regexes(vec!["ok".to_string(), "(".to_string(), "[".to_string()]);
    match result {
        Err(ConfigError::Regex { pattern, message }) => {
            assert_eq!(pattern, "(");
            assert!(!message.is_empty());
        }
        other => panic!("Expected ConfigError::Regex, got: {other:?}"),
    }
    assert_eq!(
        parse_regexes(vec!["a+".to_string(), "b*".to_string()]).unwrap(),
        vec!["a+".to_string(), "b*".to_string()]
    );
}

#[test]
fn test_duplicate_id_detection() {
    let config = make_group(
        "root",
        vec![make_group("dup", vec![], vec![make_cmd("dup")])],
        vec![],
    );
    let result = validate_tree(&config);
    assert!(result.is_err());
    match result.unwrap_err() {
        ConfigError::DuplicateId(id) => assert_eq!(id, "dup"),
        other => panic!("Expected DuplicateId, got: {other:?}"),
    }
}

#[test]
fn test_unique_ids_pass() {
    let config = make_group(
        "root",
        vec![make_group("group1", vec![], vec![make_cmd("cmd1")])],
        vec![make_cmd("cmd2")],
    );
    assert!(validate_tree(&config).is_ok());
}

#[test]
fn test_load_config_minimal() {
    let parsed = written_root("root", vec![written_command("test-cmd", "test", "echo hello")], vec![]);
    let config = load_config(&parsed, "/work", &disk()).unwrap();
    assert_eq!(config.name, "root");
    assert_eq!(config.commands.len(), 1);
    assert_eq!(config.commands[0].name, "test");
    assert_eq!(config.cwd, "/work");
    assert_eq!(config.commands[0].cwd, "/work");
}

#[test]
fn test_load_config_inheritance() {
    let mut parsed = written_root(
        "root",
        vec![],
        vec![ConfigCommandGroup {
            id: Some("child-group".to_string()),
            name: "child".to_string(),
            auto: None,
            cwd: None,
            commands: Some(vec![written_command("test-cmd", "test", "echo hello")]),
            children: None,
            env: None,
        }],
    );
    parsed.root.auto = Some(ConfigAuto {
        watch: None,
        git: Some(true),
        path: Some(vec!["./".to_string()]),
        regex: None,
        always: None,
    });
    let config = load_config(&parsed, "/work", &disk()).unwrap();
    let child = &config.children[0];
    assert_eq!(child.auto.git, Some(true));
    assert_eq!(child.commands[0].auto.git, Some(true));
    assert_eq!(child.commands[0].auto.path, vec!["/work".to_string()]);
}

#[test]
fn test_load_config_duplicate_ids() {
    let parsed = written_root(
        "dup",
        vec![],
        vec![ConfigCommandGroup {
            id: Some("dup".to_string()),
            name: "child".to_string(),
            auto: None,
            cwd: None,
            commands: Some(vec![written_command("test-cmd", "test", "echo hello")]),
            children: None,
            env: None,
        }],
    );
    let result = load_config(&parsed, "/work", &disk());
    assert!(result.is_err());
    match config_error(result) {
        ConfigError::DuplicateId(id) => assert_eq!(id, "dup"),
        other => panic!("Expected DuplicateId, got: {other:?}"),
    }
}

#[test]
fn test_load_config_invalid_regex() {
    let mut cmd = written_command("test-cmd", "test", "echo hello");
    cmd.auto = Some(ConfigAuto {
        watch: None,
        git: Some(true),
        path: Some(vec!["./".to_string()]),
        regex: Some(vec!["[invalid".to_string()]),
        always: None,
    });
    let parsed = written_root("root", vec![cmd], vec![]);
    let result = load_config(&parsed, "/work", &disk());
    assert!(result.is_err());
    match config_error(result) {
        ConfigError::Regex { pattern, .. } => assert_eq!(pattern, "[invalid"),
        other => panic!("Expected Regex error, got: {other:?}"),
    }
}

#[test]
fn test_always_selector_integration() {
    let mut always = written_command("always-cmd", "always-cmd", "echo always");
    always.auto = Some(ConfigAuto {
        watch: None,
        git: None,
        path: None,
        regex: None,
        always: Some(true),
    });
    let parsed = written_root(
        "root",
        vec![always, written_command("not-always", "not-always", "echo not")],
        vec![],
    );
    let config = load_config(&parsed, "/work", &disk()).unwrap();
    let all_commands: Vec<_> = config.all_commands().into_iter().cloned().collect();
    let scan = GitScan { repos: vec![], changes: vec![] };
    let selected = get_selected_commands(all_commands, &scan).unwrap();
    assert_eq!(selected.len(), 1);
    assert_eq!(selected[0].id, "always-cmd");
}

#[test]
fn test_config_empty_name_rejected() {
    let parsed = written_root("root", vec![written_command("empty-name", "  ", "echo hello")], vec![]);
    let result = load_config(&parsed, "/work", &disk());
    assert!(result.is_err());
    match config_error(result) {
        ConfigError::Validation(msg) => {
            assert!(msg.contains("empty name"), "got: {msg}");
            assert_eq!(msg, "Command with id 'empty-name' has an empty name");
        }
        other => panic!("Expected Validation error, got: {other:?}"),
    }
}

#[test]
fn test_config_empty_cmd_rejected() {
    let parsed = written_root("root", vec![written_command("test-cmd", "test", "")], vec![]);
    let result = load_config(&parsed, "/work", &disk());
    assert!(result.is_err());
    match config_error(result) {
        ConfigError::Validation(msg) => {
            assert!(msg.contains("empty cmd"), "got: {msg}");
            assert_eq!(msg, "Command 'test' has an empty cmd string");
        }
        other => panic!("Expected Validation error, got: {other:?}"),
    }
}

#[test]
fn test_group_with_blank_name_rejected() {
    let config = CommandGroup {
        id: "g".to_string(),
        name: " \t".to_string(),
        ..Default::default()
    };
    match validate_tree(&config) {
        Err(ConfigError::Validation(msg)) => assert_eq!(msg, "Group with id 'g' has an empty name"),
        other => panic!("Expected Validation error, got: {other:?}"),
    }
}

#[test]
fn test_root_only_config_loads_and_selects_nothing() {
    let parsed = written_root("root", vec![], vec![]);
    let config = load_config(&parsed, "/work", &disk()).unwrap();
    assert!(config.all_commands().is_empty());
    let scan = GitScan { repos: vec![], changes: vec![] };
    assert!(get_selected_commands(vec![], &scan).unwrap().is_empty());
    let run = fnug::check::plan(&config, &scan, false).unwrap();
    assert_eq!(run.result().exit_code, 0);
    assert_eq!(check_empty_groups(&config), vec!["root".to_string()]);
}

#[test]
fn test_missing_identifiers_are_synthesized() {
    let mut a = written_command("x", "a", "true");
    a.id = None;
    let mut b = written_command("x", "b", "true");
    b.id = None;
    let parsed = written_root("root", vec![a, b], vec![]);
    let config = load_config(&parsed, "/work", &disk()).unwrap();
    assert_eq!(config.commands[0].id.len(), 36);
    assert_ne!(config.commands[0].id, config.commands[1].id);
}

#[test]
fn test_unknown_dependency_rejected() {
    let mut a = make_cmd("a");
    a.depends_on = vec!["ghost".to_string()];
    let config = make_group("root", vec![], vec![a]);
    match validate_dependencies(&config) {
        Err(ConfigError::Validation(msg)) => {
            assert_eq!(msg, "Command 'a' depends on 'ghost' which does not exist");
        }
        other => panic!("Expected Validation error, got: {other:?}"),
    }
}

#[test]
fn test_dependency_cycle_rejected() {
    let mut a = make_cmd("a");
    a.depends_on = vec!["b".to_string()];
    let mut b = make_cmd("b");
    b.depends_on = vec!["c".to_string()];
    let mut c = make_cmd("c");
    c.depends_on = vec!["a".to_string()];
    let config = make_group("root", vec![], vec![a, b, c]);
    match validate_dependencies(&config) {
        Err(ConfigError::Validation(msg)) => {
            assert_eq!(msg, "Circular dependency detected involving 'a'");
        }
        other => panic!("Expected Validation error, got: {other:?}"),
    }
    match settle_tree(config, "/work", &disk()) {
        Err(InheritError::Failed(ConfigError::Validation(msg))) => {
            assert!(msg.starts_with("Circular dependency detected"));
        }
        other => panic!("Expected Validation error, got: {other:?}"),
    }
}

#[test]
fn test_self_dependency_rejected_and_chain_accepted() {
    let mut a = make_cmd("a");
    a.depends_on = vec!["a".to_string()];
    assert!(validate_dependencies(&make_group("root", vec![], vec![a])).is_err());
    let mut b = make_cmd("b");
    b.depends_on = vec!["c".to_string()];
    let mut c = make_cmd("c");
    c.depends_on = vec!["d".to_string()];
    let d = make_cmd("d");
    let mut e = make_cmd("e");
    e.depends_on = vec!["d".to_string(), "b".to_string()];
    assert!(validate_dependencies(&make_group("root", vec![], vec![b, c, d, e])).is_ok());
}

#[test]
fn test_version_mismatch_is_a_warning() {
    assert_eq!(validate_version("0.0.27", "0.0.27"), None);
    assert_eq!(
        validate_version("0.0.26", "0.0.27"),
        Some("Config fnug_version '0.0.26' differs from binary version '0.0.27'".to_string())
    );
}

#[test]
fn test_config_candidates_walk_to_the_root() {
    assert_eq!(
        Config::candidates("/a/b"),
        vec![
            "/a/b/.fnug.json",
            "/a/b/.fnug.yaml",
            "/a/b/.fnug.yml",
            "/a/.fnug.json",
            "/a/.fnug.yaml",
            "/a/.fnug.yml",
            "/.fnug.json",
            "/.fnug.yaml",
            "/.fnug.yml",
        ]
    );
    let candidates = Config::candidates("/a");
    let found = Config::find_config(
        &candidates,
        &vec![false, false, false, false, true, true],
        "/a",
    );
    assert_eq!(found.unwrap(), "/.fnug.yaml");
    match Config::find_config(&candidates, &vec![false; 6], "/a") {
        Err(ConfigError::ConfigNotFound(p)) => assert_eq!(p, "/a"),
        other => panic!("Expected ConfigNotFound, got: {other:?}"),
    }
}

#[test]
fn test_config_format_by_extension() {
    assert_eq!(Config::format_for("/x/.fnug.json"), ConfigFormat::Json);
    assert_eq!(Config::format_for("/x/.fnug.yaml"), ConfigFormat::Yaml);
    assert_eq!(Config::format_for("/x/.fnug.yml"), ConfigFormat::Yaml);
    assert_eq!(Config::format_for("/x/config"), ConfigFormat::Yaml);
}

#[test]
fn test_pattern_that_cannot_be_built_is_refused_at_load() {
    let too_big = r"\w{1000}".to_string();
    assert!(check_pattern("a+").is_ok());
    assert!(check_pattern("(").is_err());
    assert!(check_pattern(&too_big).is_err());
    match parse_regexes(vec![".*".to_string(), too_big.clone(), "(".to_string()]) {
        Err(ConfigError::Regex { pattern, message }) => {
            assert_eq!(pattern, too_big);
            assert!(!message.is_empty());
        }
        other => panic!("Expected ConfigError::Regex, got: {other:?}"),
    }
}

#[test]
fn test_matching_goes_by_the_built_regex() {
    let patterns = |list: &[&str]| list.iter().map(|p| p.to_string()).collect::<Vec<String>>();
    assert!(matches_any(&patterns(&[r".*\.rs$"]), "src/main.rs"));
    assert!(!matches_any(&patterns(&[r".*\.rs$"]), "README.md"));
    assert!(matches_any(&patterns(&[r"^docs/", r"\.md$"]), "README.md"));
    assert!(!matches_any(&patterns(&[]), "README.md"));
    // A source from which no regex can be built matches nothing, and the
    // patterns behind it are still asked.
    assert!(!matches_any(&patterns(&[r"\w{1000}", "("]), "README.md"));
    assert!(matches_any(&patterns(&[r"\w{1000}", "READ"]), "README.md"));
}
