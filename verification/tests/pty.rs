use fnug::commands::command::Command;
use fnug::pty::command::{child_environment, shell_arguments, shell_program};
use fnug::pty::messages::{
    format_failure_message, format_start_message, format_success_message, render_arrow,
    render_error, render_success,
};
use fnug::pty::terminal::{
    apply_update, click_update, default_scrollback_size, mouse_scroll_update, pty_action,
    scroll_position, scrollback_for, DirtyFlag, ParserCall, ProcessError, PtyAction, PtyUpdate,
    TerminalSize, TerminalUpdate,
};
use fnug::theme::accent_rgb;

#[test]
fn test_render_marks_use_outside_escape_codes() {
    assert_eq!(render_arrow(), "\x1b[38;2;207;106;76m❱\x1b[0m");
    assert_eq!(render_success(), "\x1b[32m✓\x1b[0m");
    assert_eq!(render_error(), "\x1b[31m✘\x1b[0m");
    assert_eq!(accent_rgb(), (207, 106, 76));
}

#[test]
fn test_format_start_message_bytes() {
    let expected = "\x1b[38;2;207;106;76m❱\x1b[0m cargo test\r\n\r\n";
    assert_eq!(format_start_message("cargo test"), expected.as_bytes().to_vec());
}

#[test]
fn test_format_success_message_bytes() {
    let expected = "\r\n\x1b[38;2;207;106;76m❱\x1b[0m Command succeeded \x1b[32m✓\x1b[0m\r\n";
    assert_eq!(format_success_message(), expected.as_bytes().to_vec());
}

#[test]
fn test_format_failure_message_bytes() {
    let expected =
        "\r\n\x1b[38;2;207;106;76m❱\x1b[0m Command failed \x1b[31m✘\x1b[0m (exit code 127)\r\n";
    assert_eq!(format_failure_message(127), expected.as_bytes().to_vec());
    assert!(String::from_utf8(format_failure_message(0)).unwrap().contains("(exit code 0)"));
}

#[test]
fn test_terminal_size_has_a_minimum() {
    let size = TerminalSize::new(80, 24);
    assert_eq!((size.cols, size.rows), (80, 24));
    assert_eq!(TerminalSize::for_area(0, 1), TerminalSize::new(2, 2));
    assert_eq!(TerminalSize::for_area(120, 40), TerminalSize::new(120, 40));
}

#[test]
fn test_scrollback_defaults() {
    assert_eq!(default_scrollback_size(), 3500);
    let mut c = Command::default();
    assert_eq!(scrollback_for(&c), 3500);
    c.scrollback = Some(10);
    assert_eq!(scrollback_for(&c), 10);
}

#[test]
fn test_scroll_position_saturates() {
    assert_eq!(scroll_position(10, 3), 7);
    assert_eq!(scroll_position(10, -3), 13);
    assert_eq!(scroll_position(2, 5), 0);
    assert_eq!(scroll_position(usize::MAX - 1, -5), usize::MAX);
    assert_eq!(scroll_position(0, isize::MIN), (isize::MAX as usize) + 1);
    assert_eq!(scroll_position(7, 0), 7);
}

#[test]
fn test_updates_become_parser_calls() {
    assert!(matches!(
        apply_update(TerminalUpdate::Process(vec![1, 2]), 0),
        ParserCall::Process(b) if b == vec![1, 2]
    ));
    assert!(matches!(
        apply_update(TerminalUpdate::Echo(vec![3]), 0),
        ParserCall::Process(b) if b == vec![3]
    ));
    assert!(matches!(
        apply_update(TerminalUpdate::Resize(TerminalSize::new(80, 24)), 0),
        ParserCall::SetSize { rows: 24, cols: 80 }
    ));
    assert!(matches!(apply_update(TerminalUpdate::Scroll(-5), 2), ParserCall::SetScrollback(7)));
    assert!(matches!(apply_update(TerminalUpdate::Scroll(5), 0), ParserCall::Nothing));
    assert!(matches!(apply_update(TerminalUpdate::SetScroll(9), 2), ParserCall::SetScrollback(9)));
    assert!(matches!(apply_update(TerminalUpdate::Clear, 2), ParserCall::Clear));
}

#[test]
fn test_mouse_events_are_sgr_encoded() {
    match pty_action(PtyUpdate::MouseClick(4, 9)) {
        PtyAction::Report(bytes) => assert_eq!(bytes, b"\x1b[<0;5;10M\x1b[<0;5;10m".to_vec()),
        other => panic!("expected a write, got {other:?}"),
    }
    match pty_action(PtyUpdate::MouseScroll { up: true, x: 0, y: 0 }) {
        PtyAction::Report(bytes) => assert_eq!(bytes, b"\x1b[<64;1;1M".to_vec()),
        other => panic!("expected a write, got {other:?}"),
    }
    match pty_action(PtyUpdate::MouseScroll { up: false, x: 65535, y: 2 }) {
        PtyAction::Report(bytes) => assert_eq!(bytes, b"\x1b[<65;65536;3M".to_vec()),
        other => panic!("expected a write, got {other:?}"),
    }
    assert!(matches!(pty_action(PtyUpdate::KillProcess), PtyAction::Kill));
    assert!(matches!(
        pty_action(PtyUpdate::Write(vec![7])),
        PtyAction::Write(b) if b == vec![7]
    ));
    assert!(matches!(
        pty_action(PtyUpdate::Resize(TerminalSize::new(3, 4))),
        PtyAction::Resize(s) if s == TerminalSize::new(3, 4)
    ));
}

#[test]
fn test_mouse_is_forwarded_only_when_reporting_is_on() {
    assert!(click_update(false, 1, 2).is_none());
    assert!(matches!(click_update(true, 1, 2), Some(PtyUpdate::MouseClick(1, 2))));
    assert!(mouse_scroll_update(false, true, 1, 2).is_none());
    assert!(matches!(
        mouse_scroll_update(true, false, 1, 2),
        Some(PtyUpdate::MouseScroll { up: false, x: 1, y: 2 })
    ));
}

#[test]
fn test_dirty_flag_follows_output_and_clear() {
    let mut flag = DirtyFlag::new();
    assert!(!flag.is_dirty());
    flag.mark();
    assert!(flag.is_dirty());
    flag.mark();
    assert!(flag.is_dirty());
    flag.clear_dirty();
    assert!(!flag.is_dirty());
    flag.clear_dirty();
    flag.mark();
    assert!(flag.is_dirty());
}

#[test]
fn test_process_error_messages() {
    assert_eq!(ProcessError::WriterDisconnected.message(), "Writer disconnected");
    assert_eq!(
        ProcessError::UpdateChannelDisconnected.message(),
        "Update channel disconnected"
    );
    assert_eq!(ProcessError::PtyError("x".to_string()).message(), "Unable to open PTY: x");
    assert_eq!(ProcessError::Process("y".to_string()).message(), "Process error: y");
    assert!(ProcessError::WriterDisconnected.is_disconnect());
    assert!(!ProcessError::Process("y".to_string()).is_disconnect());
}

#[test]
fn test_child_environment_overlay() {
    let parent = vec![
        ("PATH".to_string(), "/bin".to_string()),
        ("TERM".to_string(), "dumb".to_string()),
    ];
    let mut c = Command::default();
    c.cmd = "make".to_string();
    c.env = vec![("PATH".to_string(), "/opt".to_string()), ("X".to_string(), "1".to_string())];
    assert_eq!(
        child_environment(&parent, &c),
        vec![
            ("PATH".to_string(), "/opt".to_string()),
            ("TERM".to_string(), "xterm-256color".to_string()),
            ("X".to_string(), "1".to_string()),
        ]
    );
    assert_eq!(child_environment(&vec![], &Command::default()), vec![("TERM".to_string(), "xterm-256color".to_string())]);
    assert_eq!(shell_program(), "sh");
    assert_eq!(shell_arguments(&c), vec!["-c", "make"]);
}
