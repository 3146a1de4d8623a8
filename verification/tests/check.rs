use fnug::check::{
    expand_dependencies, format_duration, plan, plan_selected, progress_prefix, summary_line,
    topo_sort, working_dir, CheckError, CheckRun, CheckStep, Style, Verdict,
};
use fnug::commands::auto::Auto;
use fnug::commands::command::Command;
use fnug::commands::group::CommandGroup;
use fnug::selectors::git::GitScan;
use fnug::selectors::SelectorError;

fn cmd(id: &str, deps: Vec<&str>) -> Command {
    Command {
        id: id.to_string(),
        name: id.to_string(),
        cmd: "true".to_string(),
        auto: Auto { always: Some(true), ..Default::default() },
        depends_on: deps.into_iter().map(String::from).collect(),
        ..Default::default()
    }
}

fn root(commands: Vec<Command>) -> CommandGroup {
    CommandGroup {
        id: "root".to_string(),
        name: "root".to_string(),
        commands,
        ..Default::default()
    }
}

fn no_scan() -> GitScan {
    GitScan { repos: vec![], changes: vec![] }
}

/// Runs the whole check, with `fails` naming the commands whose shell
/// string would fail, and gives the exit code and what was executed.
fn run_check(config: &CommandGroup, fails: &[&str], fail_fast: bool) -> (i32, Vec<String>, CheckRun) {
    let mut run = plan(config, &no_scan(), fail_fast).unwrap();
    let mut executed = Vec::new();
    loop {
        match run.next_step() {
            CheckStep::Finished => break,
            CheckStep::Skip(_) => run.record(false),
            CheckStep::Run(i) => {
                let id = run.ordered()[i].id.clone();
                let ok = !fails.contains(&id.as_str());
                executed.push(id);
                run.record(ok);
            }
        }
    }
    (run.result().exit_code, executed, run)
}

#[test]
fn test_check_passing_commands() {
    let config = root(vec![cmd("pass1", vec![]), cmd("pass2", vec![])]);
    let (code, executed, run) = run_check(&config, &[], false);
    assert_eq!(code, 0);
    assert_eq!(executed, vec!["pass1", "pass2"]);
    assert_eq!(run.counts(), (2, 0, 0));
}

#[test]
fn test_check_failing_command() {
    let config = root(vec![cmd("fail1", vec![])]);
    let (code, _, run) = run_check(&config, &["fail1"], false);
    assert_eq!(code, 1);
    assert_eq!(run.result().failed_ids, vec!["fail1"]);
}

#[test]
fn test_check_dependency_ordering() {
    let config = root(vec![cmd("reader", vec!["writer"]), cmd("writer", vec![])]);
    let (code, executed, _) = run_check(&config, &[], false);
    assert_eq!(code, 0);
    assert_eq!(executed, vec!["writer", "reader"]);
}

#[test]
fn test_check_dependency_failure_skips() {
    let config = root(vec![cmd("depender", vec!["failing-dep"]), cmd("failing-dep", vec![])]);
    let (code, executed, run) = run_check(&config, &["failing-dep"], false);
    assert_eq!(code, 1);
    assert_eq!(executed, vec!["failing-dep"]);
    assert_eq!(run.log(), &vec![Verdict::Failed, Verdict::Skipped]);
    assert_eq!(run.counts(), (0, 1, 1));
    assert_eq!(run.result().failed_ids, vec!["failing-dep", "depender"]);
}

#[test]
fn test_check_no_commands_selected() {
    let mut idle = cmd("no-auto", vec![]);
    idle.auto = Auto::default();
    let config = root(vec![idle]);
    let (code, executed, run) = run_check(&config, &[], false);
    assert_eq!(code, 0);
    assert!(executed.is_empty());
    assert!(run.result().selected_ids.is_empty());
}

#[test]
fn test_check_fail_fast() {
    let config = root(vec![cmd("aaa-fail", vec![]), cmd("zzz-marker", vec![])]);
    let (code, executed, run) = run_check(&config, &["aaa-fail"], true);
    assert_eq!(code, 1);
    assert_eq!(executed, vec!["aaa-fail"]);
    assert_eq!(run.next_step(), CheckStep::Finished);
    assert_eq!(run.log().len(), 1);
}

#[test]
fn test_check_two_commands_pass_then_fail() {
    let config = root(vec![cmd("a", vec![]), cmd("b", vec![])]);
    let (code, executed, run) = run_check(&config, &["b"], false);
    assert_eq!(code, 1);
    assert_eq!(executed, vec!["a", "b"]);
    assert_eq!(run.log(), &vec![Verdict::Passed, Verdict::Failed]);
}

#[test]
fn test_failure_spreads_to_transitive_dependents() {
    let config = root(vec![
        cmd("top", vec!["mid"]),
        cmd("mid", vec!["base"]),
        cmd("base", vec![]),
        cmd("free", vec![]),
    ]);
    let (code, executed, run) = run_check(&config, &["base"], false);
    assert_eq!(code, 1);
    assert_eq!(executed, vec!["base", "free"]);
    let order: Vec<&str> = run.ordered().iter().map(|c| c.id.as_str()).collect();
    assert_eq!(order, vec!["base", "free", "mid", "top"]);
    assert_eq!(
        run.log(),
        &vec![Verdict::Failed, Verdict::Passed, Verdict::Skipped, Verdict::Skipped]
    );
}

#[test]
fn test_dependencies_are_pulled_into_the_run() {
    let mut dep = cmd("dep", vec![]);
    dep.auto = Auto::default();
    let mut far = cmd("far", vec![]);
    far.auto = Auto::default();
    let config = root(vec![cmd("main", vec!["dep"]), dep, far]);
    let run = plan(&config, &no_scan(), false).unwrap();
    let order: Vec<&str> = run.ordered().iter().map(|c| c.id.as_str()).collect();
    assert_eq!(order, vec!["dep", "main"]);
    assert_eq!(run.result().selected_ids, vec!["dep", "main"]);
}

#[test]
fn test_expand_dependencies_keeps_order_of_all() {
    let all = vec![cmd("a", vec!["c"]), cmd("b", vec![]), cmd("c", vec!["d"]), cmd("d", vec![])];
    let selected = vec![&all[0]];
    let expanded = expand_dependencies(&selected, &all);
    let ids: Vec<&str> = expanded.iter().map(|c| c.id.as_str()).collect();
    assert_eq!(ids, vec!["a", "c", "d"]);
}

#[test]
fn test_topo_sort_is_stable_and_respects_edges() {
    let all = vec![
        cmd("e", vec!["a", "d"]),
        cmd("a", vec![]),
        cmd("b", vec!["a"]),
        cmd("c", vec![]),
        cmd("d", vec!["c", "b"]),
    ];
    let refs: Vec<&Command> = all.iter().collect();
    let ordered = topo_sort(&refs);
    let ids: Vec<&str> = ordered.iter().map(|c| c.id.as_str()).collect();
    assert_eq!(ids, vec!["a", "c", "b", "d", "e"]);
}

#[test]
fn test_topo_sort_leaves_cycles_out() {
    let all = vec![cmd("x", vec!["y"]), cmd("y", vec!["x"]), cmd("z", vec![]), cmd("w", vec!["x"])];
    let refs: Vec<&Command> = all.iter().collect();
    let ids: Vec<String> = topo_sort(&refs).iter().map(|c| c.id.clone()).collect();
    assert_eq!(ids, vec!["z"]);
}

#[test]
fn test_plan_selected_for_one_command() {
    let all = vec![cmd("a", vec!["b"]), cmd("b", vec![]), cmd("c", vec![])];
    let selected = vec![&all[0]];
    let run = plan_selected(&selected, &all, false);
    let order: Vec<&str> = run.ordered().iter().map(|c| c.id.as_str()).collect();
    assert_eq!(order, vec!["b", "a"]);
}

#[test]
fn test_record_on_finished_run_changes_nothing() {
    let mut run = CheckRun::new(vec![cmd("a", vec![])], false);
    run.record(true);
    run.record(false);
    assert_eq!(run.log(), &vec![Verdict::Passed]);
    assert_eq!(run.result().exit_code, 0);
}

#[test]
fn test_format_duration_values() {
    assert_eq!(format_duration(0, 0), "0.0s");
    assert_eq!(format_duration(3, 250), "3.2s");
    assert_eq!(format_duration(59, 999), "59.9s");
    assert_eq!(format_duration(60, 0), "1m 0.0s");
    assert_eq!(format_duration(125, 480), "2m 5.4s");
}

#[test]
fn test_progress_prefix_is_right_aligned() {
    assert_eq!(progress_prefix(1, 3), "[1/3]");
    assert_eq!(progress_prefix(7, 12), "[ 7/12]");
    assert_eq!(progress_prefix(12, 12), "[12/12]");
    assert_eq!(progress_prefix(5, 100), "[  5/100]");
}

#[test]
fn test_style_wraps_only_with_colour() {
    let plain = Style::new(false);
    assert_eq!(plain.green("PASS"), "PASS");
    let sty = Style::new(true);
    assert_eq!(sty.green("PASS"), "\x1b[32mPASS\x1b[0m");
    assert_eq!(sty.red("FAIL"), "\x1b[31mFAIL\x1b[0m");
    assert_eq!(sty.yellow("SKIP"), "\x1b[33mSKIP\x1b[0m");
    assert_eq!(sty.bold("x"), "\x1b[1mx\x1b[0m");
    assert_eq!(sty.dim("x"), "\x1b[2mx\x1b[0m");
    assert_eq!(sty.style("35", "x"), "\x1b[35mx\x1b[0m");
}

#[test]
fn test_summary_line_text() {
    let plain = Style::new(false);
    assert_eq!(
        summary_line(&plain, 2, 1, 1, 4, 3, 250),
        "4 commands: 2 passed, 1 failed, 1 skipped (3.2s)"
    );
    assert_eq!(summary_line(&plain, 2, 0, 0, 2, 61, 0), "2 commands: 2 passed (1m 1.0s)");
    let sty = Style::new(true);
    assert_eq!(
        summary_line(&sty, 1, 1, 0, 2, 0, 0),
        "\x1b[1m2 commands:\x1b[0m \x1b[32m1 passed\x1b[0m\x1b[2m, \x1b[0m\x1b[31m1 failed\x1b[0m \x1b[2m(0.0s)\x1b[0m"
    );
}

#[test]
fn test_working_dir_falls_back() {
    let mut c = cmd("a", vec![]);
    assert_eq!(working_dir(&c, "/base"), "/base");
    c.cwd = "/own".to_string();
    assert_eq!(working_dir(&c, "/base"), "/own");
}

#[test]
fn test_check_error_message() {
    let e = CheckError::Selector(SelectorError::Git("no repo".to_string()));
    assert_eq!(e.message(), "selector error: Git operation failed: no repo");
}

#[test]
fn test_plan_of_a_sound_tree_leaves_nothing_out() {
    let mut deep = cmd("deep", vec![]);
    deep.auto = Auto::default();
    let mut mid = cmd("mid", vec!["deep"]);
    mid.auto = Auto::default();
    let mut idle = cmd("idle", vec!["deep"]);
    idle.auto = Auto::default();
    let child = CommandGroup {
        id: "child".to_string(),
        name: "child".to_string(),
        commands: vec![mid, deep],
        ..Default::default()
    };
    let mut config = root(vec![cmd("top", vec!["mid"]), idle, cmd("solo", vec![])]);
    config.children = vec![child];
    let run = plan(&config, &no_scan(), false).unwrap();
    let order: Vec<&str> = run.ordered().iter().map(|c| c.id.as_str()).collect();
    assert_eq!(order, vec!["solo", "deep", "mid", "top"]);
}

#[test]
fn test_result_names_each_command_once() {
    let config = root(vec![cmd("a", vec![]), cmd("b", vec!["a"]), cmd("c", vec!["b", "a"])]);
    let (code, executed, run) = run_check(&config, &["a"], false);
    assert_eq!(code, 1);
    assert_eq!(executed, vec!["a"]);
    let result = run.result();
    assert_eq!(result.selected_ids, vec!["a", "b", "c"]);
    assert_eq!(result.failed_ids, vec!["a", "b", "c"]);
    assert_eq!(run.log(), &vec![Verdict::Failed, Verdict::Skipped, Verdict::Skipped]);
}
