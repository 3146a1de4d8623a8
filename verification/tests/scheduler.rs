use fnug::commands::command::Command;
use fnug::scheduler::{Scheduler, SchedulerAction};
use fnug::tui::app::CommandStatus;

fn cmd(id: &str, deps: Vec<&str>) -> Command {
    Command {
        id: id.to_string(),
        name: format!("{id}-name"),
        cmd: "true".to_string(),
        depends_on: deps.into_iter().map(String::from).collect(),
        ..Default::default()
    }
}

fn scheduler(commands: &Vec<Command>) -> Scheduler {
    let refs: Vec<&Command> = commands.iter().collect();
    Scheduler::new(&refs)
}

#[test]
fn test_start_without_dependencies_spawns() {
    let commands = vec![cmd("a", vec![])];
    let mut s = scheduler(&commands);
    assert_eq!(s.status_of(0), CommandStatus::Pending);
    assert_eq!(s.start_command("a", true), vec![SchedulerAction::Spawn(0)]);
    assert_eq!(s.status_of(0), CommandStatus::Running);
    assert_eq!(s.active(), Some(0));
    assert_eq!(s.start_command("unknown", true), vec![]);
}

#[test]
fn test_restart_kills_the_old_process() {
    let commands = vec![cmd("a", vec![])];
    let mut s = scheduler(&commands);
    s.start(0, false);
    assert_eq!(s.start(0, false), vec![SchedulerAction::Kill(0), SchedulerAction::Spawn(0)]);
    assert_eq!(s.active(), None);
}

#[test]
fn test_start_waits_for_dependencies_and_chains() {
    let commands = vec![cmd("top", vec!["mid"]), cmd("mid", vec!["base"]), cmd("base", vec![])];
    let mut s = scheduler(&commands);
    assert_eq!(s.start(0, true), vec![SchedulerAction::Spawn(2)]);
    assert_eq!(s.status_of(0), CommandStatus::WaitingForDeps);
    assert_eq!(s.status_of(1), CommandStatus::WaitingForDeps);
    assert_eq!(s.status_of(2), CommandStatus::Running);
    assert_eq!(s.active(), Some(0));
    s.select(2, true);
    assert_eq!(s.process_exited(2, 0), vec![SchedulerAction::Spawn(1)]);
    assert!(!s.is_selected(2));
    assert_eq!(s.status_of(2), CommandStatus::Success);
    assert_eq!(s.status_of(1), CommandStatus::Running);
    assert_eq!(s.process_exited(1, 0), vec![SchedulerAction::Spawn(0)]);
    assert_eq!(s.status_of(0), CommandStatus::Running);
    assert_eq!(s.process_exited(0, 0), vec![]);
    assert_eq!(s.status_of(0), CommandStatus::Success);
}

#[test]
fn test_failure_marks_every_waiting_dependent() {
    let commands = vec![
        cmd("top", vec!["mid"]),
        cmd("mid", vec!["base"]),
        cmd("base", vec![]),
        cmd("other", vec![]),
    ];
    let mut s = scheduler(&commands);
    s.start(0, false);
    s.start(3, false);
    assert_eq!(s.process_exited(2, 3), vec![]);
    assert_eq!(s.status_of(2), CommandStatus::Failure(3));
    assert_eq!(
        s.status_of(1),
        CommandStatus::Error("Dependency 'base-name' failed".to_string())
    );
    assert_eq!(
        s.status_of(0),
        CommandStatus::Error("Dependency 'base-name' failed".to_string())
    );
    assert_eq!(s.status_of(3), CommandStatus::Running);
}

#[test]
fn test_process_error_is_recorded_and_spreads() {
    let commands = vec![cmd("a", vec!["b"]), cmd("b", vec![])];
    let mut s = scheduler(&commands);
    s.start(0, false);
    s.process_error(1, "wait broke".to_string());
    assert_eq!(s.status_of(1), CommandStatus::Error("wait broke".to_string()));
    assert_eq!(s.status_of(0), CommandStatus::Error("Dependency 'b-name' failed".to_string()));
}

#[test]
fn test_spawn_failure_is_recorded() {
    let commands = vec![cmd("a", vec![])];
    let mut s = scheduler(&commands);
    s.start(0, true);
    s.spawn_failed(0, "no pty");
    assert_eq!(
        s.status_of(0),
        CommandStatus::Error("Failed to start 'a-name': no pty".to_string())
    );
    assert_eq!(s.stop(0), None);
}

#[test]
fn test_clear_then_start_is_like_a_fresh_start() {
    let commands = vec![cmd("a", vec![]), cmd("b", vec![])];
    let mut fresh = scheduler(&commands);
    let fresh_actions = fresh.start(0, true);
    let mut used = scheduler(&commands);
    used.start(0, true);
    used.process_exited(0, 1);
    assert_eq!(used.stop(0), Some(SchedulerAction::Kill(0)));
    assert_eq!(used.clear(0), Some(SchedulerAction::Clear(0)));
    assert_eq!(used.status_of(0), CommandStatus::Pending);
    assert_eq!(used.clear(0), None);
    assert_eq!(used.start(0, true), fresh_actions);
    assert_eq!(used.status_of(0), fresh.status_of(0));
    assert_eq!(used.process_exited(0, 0), fresh.process_exited(0, 0));
    assert_eq!(used.status_of(0), fresh.status_of(0));
}

#[test]
fn test_run_selected_and_groups() {
    let commands = vec![cmd("a", vec![]), cmd("b", vec![]), cmd("c", vec![])];
    let mut s = scheduler(&commands);
    s.select(2, true);
    s.select(0, true);
    assert_eq!(s.selected_positions(), vec![0, 2]);
    assert_eq!(s.run_selected(), vec![SchedulerAction::Spawn(0), SchedulerAction::Spawn(2)]);
    assert_eq!(s.active(), None);
    s.update_active(1);
    assert_eq!(s.active(), None);
    s.update_active(2);
    assert_eq!(s.active(), Some(2));
    let list = s.positions_of(&vec!["b".to_string(), "zzz".to_string(), "a".to_string()]);
    assert_eq!(list, vec![1, 0]);
    assert_eq!(
        s.start_each(&list, true),
        vec![SchedulerAction::Spawn(1), SchedulerAction::Kill(0), SchedulerAction::Spawn(0)]
    );
    assert_eq!(s.active(), Some(1));
    assert_eq!(
        s.shutdown(),
        vec![SchedulerAction::Kill(0), SchedulerAction::Kill(1), SchedulerAction::Kill(2)]
    );
    assert_eq!(s.status_of(0), CommandStatus::Pending);
    assert_eq!(s.len(), 3);
    assert_eq!(s.id_at(1), "b");
    assert_eq!(s.position("c"), Some(2));
}

#[test]
fn test_satisfied_dependency_is_not_started_again() {
    let commands = vec![cmd("a", vec!["b"]), cmd("b", vec![])];
    let mut s = scheduler(&commands);
    s.start(1, false);
    s.process_exited(1, 0);
    assert_eq!(s.start(0, false), vec![SchedulerAction::Spawn(0)]);
}

#[test]
fn test_restart_after_an_error_is_a_fresh_start() {
    let commands = vec![cmd("a", vec![])];
    let mut s = scheduler(&commands);
    s.start_command("a", true);
    s.process_error(0, "boom".to_string());
    assert_eq!(s.status_of(0), CommandStatus::Error("boom".to_string()));
    assert_eq!(s.clear(0), Some(SchedulerAction::Clear(0)));
    assert_eq!(s.status_of(0), CommandStatus::Pending);
    assert_eq!(s.error_at(0), None);
    assert_eq!(s.start_command("a", true), vec![SchedulerAction::Spawn(0)]);
    assert_eq!(s.status_of(0), CommandStatus::Running);
    assert_eq!(s.process_exited(0, 0), vec![]);
    assert_eq!(s.status_of(0), CommandStatus::Success);

    let mut fresh = scheduler(&commands);
    assert_eq!(fresh.start_command("a", true), vec![SchedulerAction::Spawn(0)]);
    assert_eq!(fresh.status_of(0), CommandStatus::Running);
    fresh.process_exited(0, 0);
    assert_eq!(fresh.status_of(0), s.status_of(0));
}

#[test]
fn test_restart_after_a_failed_spawn_is_a_fresh_start() {
    let commands = vec![cmd("a", vec![])];
    let mut s = scheduler(&commands);
    s.start(0, true);
    s.spawn_failed(0, "no shell");
    assert_eq!(
        s.status_of(0),
        CommandStatus::Error("Failed to start 'a-name': no shell".to_string())
    );
    assert_eq!(s.clear(0), None);
    assert_eq!(s.status_of(0), CommandStatus::Pending);
    assert_eq!(s.start(0, true), vec![SchedulerAction::Spawn(0)]);
    assert_eq!(s.status_of(0), CommandStatus::Running);
    s.process_exited(0, 7);
    assert_eq!(s.status_of(0), CommandStatus::Failure(7));
}

#[test]
fn test_start_forgets_the_error_of_an_earlier_run() {
    let commands = vec![cmd("top", vec!["base"]), cmd("base", vec![])];
    let mut s = scheduler(&commands);
    s.start(0, true);
    s.process_exited(1, 2);
    assert_eq!(
        s.status_of(0),
        CommandStatus::Error("Dependency 'base-name' failed".to_string())
    );
    assert_eq!(s.start(0, true), vec![SchedulerAction::Kill(1), SchedulerAction::Spawn(1)]);
    assert_eq!(s.status_of(0), CommandStatus::WaitingForDeps);
    assert_eq!(s.status_of(1), CommandStatus::Running);
    assert_eq!(s.process_exited(1, 0), vec![SchedulerAction::Spawn(0)]);
    assert_eq!(s.status_of(0), CommandStatus::Running);

    let commands = vec![cmd("a", vec![])];
    let mut s = scheduler(&commands);
    s.start(0, false);
    s.process_error(0, "boom".to_string());
    assert_eq!(s.start(0, false), vec![SchedulerAction::Kill(0), SchedulerAction::Spawn(0)]);
    assert_eq!(s.status_of(0), CommandStatus::Running);
}
