use fnug::commands::command::Command;
use fnug::scheduler::{Scheduler, SchedulerAction};
use fnug::tui::app::CommandStatus;
use fnug::tui::session::{
    first_failed_row, DepLabel, TerminalPane, PLACEHOLDER, WAITING_BULLET, WAITING_HEADING,
};
use fnug::tui::tree_widget::{NodeKind, VisibleNode};

fn command(id: &str, deps: Vec<&str>) -> Command {
    Command {
        id: id.to_string(),
        name: format!("{id}-name"),
        cmd: "true".to_string(),
        depends_on: deps.into_iter().map(String::from).collect(),
        ..Default::default()
    }
}

fn scheduler_of(commands: &Vec<Command>) -> Scheduler {
    let refs: Vec<&Command> = commands.iter().collect();
    Scheduler::new(&refs)
}

fn strings(items: &[&str]) -> Vec<String> {
    items.iter().map(|s| s.to_string()).collect()
}

#[test]
fn test_pane_shows_placeholder_terminal_waiting_and_error() {
    let commands =
        vec![command("top", vec!["a", "b", "c"]), command("a", vec![]), command("b", vec![]), command("c", vec!["a"])];
    let mut s = scheduler_of(&commands);
    assert!(matches!(s.pane(), TerminalPane::Placeholder));

    s.start(1, true);
    assert!(matches!(s.pane(), TerminalPane::Terminal(1)));

    s.process_exited(1, 0);
    s.start(2, false);
    s.process_exited(2, 3);
    s.start(0, true);
    match s.pane() {
        TerminalPane::Waiting(lines) => {
            let shown: Vec<(String, DepLabel)> =
                lines.into_iter().map(|l| (l.name, l.label)).collect();
            assert_eq!(
                shown,
                vec![("b-name".to_string(), DepLabel::Running), ("c-name".to_string(), DepLabel::Running)]
            );
        }
        other => panic!("unexpected pane {other:?}"),
    }

    s.spawn_failed(2, "no shell");
    match s.pane() {
        TerminalPane::Waiting(lines) => {
            let shown: Vec<(String, DepLabel)> =
                lines.into_iter().map(|l| (l.name, l.label)).collect();
            assert_eq!(
                shown,
                vec![("b-name".to_string(), DepLabel::Pending), ("c-name".to_string(), DepLabel::Running)]
            );
        }
        other => panic!("unexpected pane {other:?}"),
    }
    s.process_exited(3, 1);
    match s.pane() {
        TerminalPane::Error(message) => assert_eq!(message, "Dependency 'c-name' failed"),
        other => panic!("unexpected pane {other:?}"),
    }
}

#[test]
fn test_pane_labels_each_dependency() {
    let commands = vec![
        command("top", vec!["run", "wait", "fail"]),
        command("run", vec![]),
        command("wait", vec!["run"]),
        command("fail", vec![]),
    ];
    let mut s = scheduler_of(&commands);
    s.start(3, false);
    s.process_exited(3, 1);
    s.start(0, true);
    match s.pane() {
        TerminalPane::Waiting(lines) => {
            let shown: Vec<(String, DepLabel)> =
                lines.into_iter().map(|l| (l.name, l.label)).collect();
            assert_eq!(
                shown,
                vec![
                    ("run-name".to_string(), DepLabel::Running),
                    ("wait-name".to_string(), DepLabel::Pending),
                    ("fail-name".to_string(), DepLabel::Running),
                ]
            );
        }
        other => panic!("unexpected pane {other:?}"),
    }
    assert_eq!(DepLabel::Running.text(), "running");
    assert_eq!(DepLabel::Done.text(), "done");
    assert_eq!(DepLabel::Failed.text(), "failed");
    assert_eq!(DepLabel::Pending.text(), "pending");
    assert_eq!(WAITING_HEADING, " ❱ Waiting for dependencies:");
    assert_eq!(WAITING_BULLET, "   ◌ ");
    assert_eq!(PLACEHOLDER, "No command running. Press 'r' to run a command.");
}

#[test]
fn test_pane_shows_finished_dependencies_as_done_or_failed() {
    let commands = vec![
        command("top", vec!["ok", "bad", "never"]),
        command("ok", vec![]),
        command("bad", vec![]),
        command("never", vec![]),
    ];
    let mut s = scheduler_of(&commands);
    s.start(0, true);
    s.process_exited(2, 1);
    // The failure of a dependency ends the wait with an error.
    assert!(matches!(s.pane(), TerminalPane::Error(_)));
    let mut s = scheduler_of(&commands);
    s.start(0, true);
    let before = match s.pane() {
        TerminalPane::Waiting(lines) => lines.len(),
        other => panic!("unexpected pane {other:?}"),
    };
    assert_eq!(before, 3);
    s.process_exited(1, 0);
    match s.pane() {
        TerminalPane::Waiting(lines) => {
            let shown: Vec<(String, DepLabel)> =
                lines.into_iter().map(|l| (l.name, l.label)).collect();
            assert_eq!(
                shown,
                vec![
                    ("bad-name".to_string(), DepLabel::Running),
                    ("never-name".to_string(), DepLabel::Running),
                ]
            );
        }
        other => panic!("unexpected pane {other:?}"),
    }
}

#[test]
fn test_toggle_all_selects_unless_all_are_selected() {
    let commands = vec![command("a", vec![]), command("b", vec![]), command("c", vec![])];
    let mut s = scheduler_of(&commands);
    s.select(0, true);
    assert!(s.toggle_all(&vec![0, 1]));
    assert!(s.is_selected(0) && s.is_selected(1) && !s.is_selected(2));
    assert!(!s.toggle_all(&vec![0, 1]));
    assert!(!s.is_selected(0) && !s.is_selected(1) && !s.is_selected(2));
    s.select(2, true);
    assert!(!s.toggle_all(&vec![]));
    assert!(s.is_selected(2));
}

#[test]
fn test_run_selected_shows_the_cursor_or_the_first() {
    let commands = vec![command("a", vec![]), command("b", vec![]), command("c", vec![])];
    let mut s = scheduler_of(&commands);
    s.select(1, true);
    s.select(2, true);
    assert_eq!(
        s.run_selected_at(Some(2)),
        vec![SchedulerAction::Spawn(1), SchedulerAction::Spawn(2)]
    );
    assert_eq!(s.active(), Some(2));

    let mut s = scheduler_of(&commands);
    s.select(1, true);
    s.select(2, true);
    s.run_selected_at(Some(0));
    assert_eq!(s.active(), Some(1));

    let mut s = scheduler_of(&commands);
    s.select(2, true);
    s.run_selected_at(None);
    assert_eq!(s.active(), Some(2));

    let mut s = scheduler_of(&commands);
    s.start(0, true);
    assert_eq!(s.run_selected_at(Some(1)), vec![]);
    assert_eq!(s.active(), Some(0));
}

#[test]
fn test_select_failed_marks_only_what_failed() {
    let commands =
        vec![command("a", vec![]), command("b", vec![]), command("c", vec![]), command("d", vec![])];
    let mut s = scheduler_of(&commands);
    s.select(0, true);
    s.select(3, true);
    s.select_failed(&strings(&["a", "b", "c", "gone"]), &strings(&["b", "gone"]));
    assert!(!s.is_selected(0));
    assert!(s.is_selected(1));
    assert!(!s.is_selected(2));
    assert!(s.is_selected(3));
}

fn row(id: &str) -> VisibleNode {
    VisibleNode {
        id: id.to_string(),
        depth: 1,
        is_last_sibling: false,
        ancestor_is_last: vec![],
        kind: NodeKind::Command {
            name: id.to_string(),
            selected: false,
            status: CommandStatus::Pending,
            duration: None,
        },
    }
}

#[test]
fn test_first_failed_row() {
    let nodes = vec![row("root"), row("a"), row("b"), row("c")];
    assert_eq!(first_failed_row(&nodes, &strings(&["c", "b"])), Some(2));
    assert_eq!(first_failed_row(&nodes, &strings(&["zzz"])), None);
    assert_eq!(first_failed_row(&nodes, &strings(&[])), None);
    assert_eq!(first_failed_row(&vec![], &strings(&["a"])), None);
}

#[test]
fn test_start_shown_leaves_the_last_one_active() {
    let commands = vec![command("a", vec![]), command("b", vec!["a"]), command("c", vec![])];
    let mut s = scheduler_of(&commands);
    assert_eq!(
        s.start_shown(&vec![1, 2]),
        vec![SchedulerAction::Spawn(0), SchedulerAction::Spawn(2)]
    );
    assert_eq!(s.active(), Some(2));
    assert_eq!(s.status_of(1), CommandStatus::WaitingForDeps);
}

#[test]
fn test_pane_shows_why_a_spawn_failed() {
    let commands = vec![command("a", vec![])];
    let mut s = scheduler_of(&commands);
    s.start(0, true);
    s.spawn_failed(0, "no shell");
    match s.pane() {
        TerminalPane::Error(message) => assert_eq!(message, "Failed to start 'a-name': no shell"),
        other => panic!("unexpected pane {other:?}"),
    }
    s.clear(0);
    assert!(matches!(s.pane(), TerminalPane::Placeholder));
    assert_eq!(s.status_of(0), CommandStatus::Pending);
}

#[test]
fn test_watcher_triggered_selects_and_starts() {
    let commands = vec![command("a", vec![]), command("b", vec![]), command("c", vec![])];
    let mut s = scheduler_of(&commands);
    assert_eq!(
        s.watcher_triggered(&strings(&["c", "nope", "a"])),
        vec![SchedulerAction::Spawn(2), SchedulerAction::Spawn(0)]
    );
    assert!(s.is_selected(0) && !s.is_selected(1) && s.is_selected(2));
    assert_eq!(s.active(), None);
    s.deselect_all();
    assert!(!s.is_selected(0) && !s.is_selected(1) && !s.is_selected(2));
    assert_eq!(s.status_of(0), CommandStatus::Running);
}

#[test]
fn test_reloaded_keeps_what_is_still_there() {
    let commands = vec![
        command("a", vec![]),
        command("b", vec!["a", "gone"]),
        command("gone", vec![]),
        command("bad", vec![]),
    ];
    let mut s = scheduler_of(&commands);
    s.select(0, true);
    s.start(1, true);
    s.start(3, false);
    s.process_error(3, "boom".to_string());
    assert_eq!(s.status_of(1), CommandStatus::WaitingForDeps);

    let next = vec![command("new", vec![]), command("bad", vec![]), command("b", vec!["a"]), command("a", vec![])];
    let refs: Vec<&Command> = next.iter().collect();
    let (t, moves) = s.reloaded(&refs);
    assert_eq!(moves, vec![Some(3), Some(2), None, Some(1)]);
    assert_eq!(t.len(), 4);
    assert_eq!(t.id_at(0), "new");
    assert_eq!(t.name_at(2), "b-name");
    assert_eq!(t.status_of(0), CommandStatus::Pending);
    assert_eq!(t.status_of(1), CommandStatus::Error("boom".to_string()));
    assert_eq!(t.status_of(2), CommandStatus::WaitingForDeps);
    assert_eq!(t.status_of(3), CommandStatus::Running);
    assert_eq!(t.waiting_for(2), Some(&vec![3]));
    assert_eq!(t.waiting_for(0), None);
    assert!(t.is_selected(3));
    assert!(!t.is_selected(0) && !t.is_selected(1) && !t.is_selected(2));
    assert_eq!(t.active(), Some(2));
    assert!(t.has_instance(3) && !t.has_instance(0));
    assert_eq!(t.instance_status(3), Some(&CommandStatus::Running));
    assert_eq!(t.error_at(1), Some(&"boom".to_string()));

    let mut s = scheduler_of(&commands);
    s.start(2, true);
    let (t, _) = s.reloaded(&refs);
    assert_eq!(t.active(), None);
}

#[test]
fn test_reloading_the_same_commands_changes_nothing() {
    let commands = vec![command("a", vec![]), command("b", vec!["a", "c"]), command("c", vec![])];
    let mut s = scheduler_of(&commands);
    s.select(2, true);
    s.start(1, true);
    s.process_exited(0, 0);
    s.process_error(2, "boom".to_string());
    let refs: Vec<&Command> = commands.iter().collect();
    let (t, moves) = s.reloaded(&refs);
    assert_eq!(moves, vec![Some(0), Some(1), Some(2)]);
    for i in 0..3 {
        assert_eq!(t.status_of(i), s.status_of(i));
        assert_eq!(t.is_selected(i), s.is_selected(i));
        assert_eq!(t.waiting_for(i), s.waiting_for(i));
        assert_eq!(t.error_at(i), s.error_at(i));
        assert_eq!(t.instance_status(i), s.instance_status(i));
    }
    assert_eq!(t.active(), s.active());
}
