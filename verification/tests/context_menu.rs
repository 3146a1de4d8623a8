use fnug::tui::app::CommandStatus;
use fnug::tui::context_menu::{
    build_command_menu, build_group_menu, build_terminal_menu, compute_area, ContextMenu,
    ContextMenuAction, ContextMenuItem, ContextMenuTarget, Rect,
};

#[test]
fn test_build_group_menu_collapsed() {
    let items = build_group_menu(false, 0, 4);
    assert_eq!(items[0].label, "Expand");
    assert_eq!(items[1].label, "Select all");
    assert_eq!(items[2].label, "Run group");
    assert!(!items[3].enabled);
}

#[test]
fn test_build_group_menu_expanded_all_selected() {
    let items = build_group_menu(true, 4, 4);
    assert_eq!(items[0].label, "Collapse");
    assert_eq!(items[1].label, "Deselect all");
    assert!(items[3].enabled);
}

#[test]
fn test_build_command_menu_not_running() {
    let items = build_command_menu(false, &CommandStatus::Pending);
    assert_eq!(items[0].label, "Select");
    assert!(items[1].label == "Run" && items[1].enabled);
    assert!(!items[2].enabled);
    assert!(!items[3].enabled);
}

#[test]
fn test_build_command_menu_running() {
    let items = build_command_menu(true, &CommandStatus::Running);
    assert_eq!(items[0].label, "Deselect");
    assert!(!items[1].enabled);
    assert!(items[2].label == "Restart" && items[2].enabled);
    assert!(items[3].label == "Stop" && items[3].enabled);
}

#[test]
fn test_build_command_menu_finished() {
    let items = build_command_menu(false, &CommandStatus::Failure(1));
    assert!(items[1].label == "Run" && items[1].enabled);
    assert!(items[2].label == "Restart" && items[2].enabled);
    assert!(!items[3].enabled);
}

#[test]
fn test_build_terminal_menu_no_process() {
    let items = build_terminal_menu(false, false, None);
    assert_eq!(items[0].label, "Run");
    assert!(items[0].enabled);
    assert_eq!(items[1].label, "Clear");
    assert!(!items[1].enabled);
}

#[test]
fn test_build_terminal_menu_with_scrollback() {
    let items = build_terminal_menu(true, true, Some(&CommandStatus::Running));
    assert!(items[0].label == "Scroll to top" && items[0].enabled);
    assert!(items[1].label == "Scroll to bottom" && items[1].enabled);
    assert_eq!(items[2].label, "Restart");
    assert!(items[3].label == "Stop" && items[3].enabled);
}

#[test]
fn test_build_terminal_menu_not_scrolled() {
    let items = build_terminal_menu(true, false, Some(&CommandStatus::Success));
    assert!(items[0].enabled);
    assert!(!items[1].enabled);
    assert!(!items[3].enabled);
}

#[test]
fn test_compute_area_fits() {
    let items = build_terminal_menu(true, false, Some(&CommandStatus::Running));
    let area = compute_area(&items, 10, 10, Rect::new(0, 0, 80, 24));
    assert_eq!(area.x, 10);
    assert_eq!(area.y, 10);
}

#[test]
fn test_compute_area_flips() {
    let items = build_terminal_menu(true, false, Some(&CommandStatus::Running));
    let area = compute_area(&items, 75, 22, Rect::new(0, 0, 80, 24));
    assert!(area.x < 75 || area.y < 22);
}

#[test]
fn test_compute_area_exact_values() {
    // Widest item is "Scroll to bottom" (16 cells), so the menu is 20 wide
    // and, with five items, 7 high.
    let items = build_terminal_menu(true, false, Some(&CommandStatus::Running));
    let area = compute_area(&items, 10, 10, Rect::new(0, 0, 80, 24));
    assert_eq!(area, Rect::new(10, 10, 20, 7));
    let flipped = compute_area(&items, 75, 22, Rect::new(0, 0, 80, 24));
    assert_eq!(flipped, Rect::new(55, 15, 20, 7));
}

#[test]
fn test_compute_area_narrow_menu_has_minimum_width() {
    let items = build_terminal_menu(false, false, None);
    let area = compute_area(&items, 0, 0, Rect::new(0, 0, 80, 24));
    assert_eq!(area, Rect::new(0, 0, 12, 4));
}

#[test]
fn test_compute_area_is_clipped_to_the_screen() {
    let items = build_terminal_menu(false, false, None);
    let area = compute_area(&items, 5, 1, Rect::new(0, 0, 10, 3));
    assert_eq!(area, Rect::new(0, 0, 10, 3));
}

#[test]
fn test_cursor_navigation() {
    let items = vec![
        ContextMenuItem {
            label: "A",
            hint: "",
            action: ContextMenuAction::Run,
            enabled: true,
        },
        ContextMenuItem {
            label: "B",
            hint: "",
            action: ContextMenuAction::Stop,
            enabled: false,
        },
        ContextMenuItem {
            label: "C",
            hint: "",
            action: ContextMenuAction::Clear,
            enabled: true,
        },
    ];
    let mut menu = ContextMenu {
        target: ContextMenuTarget::Terminal,
        items,
        cursor: 0,
        area: Rect::default(),
    };

    menu.cursor_down();
    assert_eq!(menu.cursor, 2);

    menu.cursor_up();
    assert_eq!(menu.cursor, 0);
}

#[test]
fn test_cursor_stays_where_nothing_is_enabled() {
    let items = vec![
        ContextMenuItem { label: "A", hint: "", action: ContextMenuAction::Run, enabled: true },
        ContextMenuItem { label: "B", hint: "", action: ContextMenuAction::Stop, enabled: false },
    ];
    let mut menu = ContextMenu {
        target: ContextMenuTarget::Terminal,
        items,
        cursor: 0,
        area: Rect::default(),
    };
    menu.cursor_down();
    assert_eq!(menu.cursor, 0);
    menu.cursor_up();
    assert_eq!(menu.cursor, 0);
    assert_eq!(menu.selected_action(), Some(ContextMenuAction::Run));
    menu.cursor = 1;
    assert_eq!(menu.selected_action(), None);
}

#[test]
fn test_rect_edges() {
    let r = Rect::new(3, 4, 10, 2);
    assert_eq!(r.right(), 13);
    assert_eq!(r.bottom(), 6);
    assert!(r.contains(3, 4));
    assert!(r.contains(12, 5));
    assert!(!r.contains(13, 5));
    assert!(!r.contains(12, 6));
    assert_eq!(Rect::new(65000, 0, 1000, 1).right(), u16::MAX);
}
