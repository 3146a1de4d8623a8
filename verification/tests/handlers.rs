use fnug::pty::terminal::Output;
use fnug::tui::app::{CommandStatus, Focus, MouseState};
use fnug::tui::context_menu::{
    build_terminal_menu, ContextMenu, ContextMenuAction, ContextMenuTarget, Rect,
};
use fnug::tui::event::{KeyCode, KeyEvent};
use fnug::tui::key_handler::{clamp_cursor, handle_key, toolbar_effect, KeyContext, KeyEffect};
use fnug::tui::mouse_handler::{
    handle_mouse, hover_after, menu_for_node, menu_for_terminal, wheel_fallback, MouseButton,
    MouseContext, MouseEffect, MouseEvent, MouseKind, WHEEL_LINES,
};
use fnug::tui::toolbar::{CursorKind, SearchKind, ToolbarAction, ToolbarCache, ToolbarRegion};
use fnug::tui::tree_widget::{NodeKind, VisibleNode};

fn ctx() -> KeyContext {
    KeyContext {
        focus: Focus::Tree,
        search: SearchKind::Inactive,
        cursor: 1,
        node_count: 3,
        node: CursorKind::Command { selected: false, running: false },
        has_active_terminal: false,
        active_has_process: false,
        interactive: false,
    }
}

fn press(c: char) -> KeyEvent {
    KeyEvent::plain(KeyCode::Char(c))
}

#[test]
fn test_global_keys_come_first() {
    let ctrl = |c| KeyEvent { code: KeyCode::Char(c), control: true, alt: false };
    let mut c = ctx();
    c.focus = Focus::Terminal;
    c.has_active_terminal = true;
    c.active_has_process = true;
    assert_eq!(handle_key(&c, ctrl('c')), KeyEffect::Quit);
    assert_eq!(handle_key(&c, ctrl('r')), KeyEffect::ToggleFullscreen);
    assert_eq!(handle_key(&c, KeyEvent::plain(KeyCode::Esc)), KeyEffect::Focus(Focus::Tree));
    assert_eq!(handle_key(&c, press('q')), KeyEffect::Forward);
    assert_eq!(handle_key(&c, ctrl('x')), KeyEffect::Forward);
    c.active_has_process = false;
    assert_eq!(handle_key(&c, press('q')), KeyEffect::Quit);
}

#[test]
fn test_tree_navigation_keys() {
    let c = ctx();
    assert_eq!(handle_key(&c, press('j')), KeyEffect::MoveCursor(2));
    assert_eq!(handle_key(&c, KeyEvent::plain(KeyCode::Up)), KeyEffect::MoveCursor(0));
    let mut last = ctx();
    last.cursor = 2;
    assert_eq!(handle_key(&last, KeyEvent::plain(KeyCode::Down)), KeyEffect::Nothing);
    let mut first = ctx();
    first.cursor = 0;
    assert_eq!(handle_key(&first, press('k')), KeyEffect::Nothing);
    assert_eq!(handle_key(&c, press('l')), KeyEffect::SetSelected(true));
    assert_eq!(handle_key(&c, press('h')), KeyEffect::Nothing);
    assert_eq!(handle_key(&c, press(' ')), KeyEffect::Toggle);
    assert_eq!(handle_key(&c, press('g')), KeyEffect::GitSelect);
    assert_eq!(handle_key(&c, KeyEvent::plain(KeyCode::Enter)), KeyEffect::RunSelected);
    assert_eq!(handle_key(&c, press('r')), KeyEffect::RunCommand);
    assert_eq!(handle_key(&c, press('s')), KeyEffect::StopCommand);
    assert_eq!(handle_key(&c, press('c')), KeyEffect::ClearCommand);
    assert_eq!(handle_key(&c, press('/')), KeyEffect::StartSearch);
    assert_eq!(handle_key(&c, press('L')), KeyEffect::ToggleLogs);
    assert_eq!(handle_key(&c, press('x')), KeyEffect::Nothing);
    assert_eq!(handle_key(&c, KeyEvent::plain(KeyCode::Tab)), KeyEffect::Nothing);
    let mut group = ctx();
    group.node = CursorKind::Group { expanded: true };
    assert_eq!(handle_key(&group, KeyEvent::plain(KeyCode::Left)), KeyEffect::SetExpanded(false));
    assert_eq!(handle_key(&group, KeyEvent::plain(KeyCode::Right)), KeyEffect::Nothing);
    assert_eq!(handle_key(&group, press('r')), KeyEffect::RunGroup);
    assert_eq!(handle_key(&group, press('s')), KeyEffect::Nothing);
    let mut tab = ctx();
    tab.has_active_terminal = true;
    tab.interactive = true;
    assert_eq!(handle_key(&tab, KeyEvent::plain(KeyCode::Tab)), KeyEffect::Focus(Focus::Terminal));
}

#[test]
fn test_search_keys() {
    let mut c = ctx();
    c.search = SearchKind::Editing;
    assert_eq!(handle_key(&c, press('q')), KeyEffect::PushSearch('q'));
    assert_eq!(handle_key(&c, KeyEvent::plain(KeyCode::Backspace)), KeyEffect::PopSearch);
    assert_eq!(handle_key(&c, KeyEvent::plain(KeyCode::Enter)), KeyEffect::AcceptSearch);
    assert_eq!(handle_key(&c, KeyEvent::plain(KeyCode::Esc)), KeyEffect::ClearSearch);
    assert_eq!(handle_key(&c, KeyEvent::plain(KeyCode::Down)), KeyEffect::MoveCursor(2));
    assert_eq!(handle_key(&c, KeyEvent::plain(KeyCode::Left)), KeyEffect::Nothing);
    c.search = SearchKind::Active;
    assert_eq!(handle_key(&c, press('/')), KeyEffect::ResumeSearch);
    assert_eq!(handle_key(&c, KeyEvent::plain(KeyCode::Esc)), KeyEffect::ClearSearch);
    assert_eq!(handle_key(&c, press('q')), KeyEffect::Quit);
    assert_eq!(clamp_cursor(5, 3), 2);
    assert_eq!(clamp_cursor(1, 3), 1);
    assert_eq!(clamp_cursor(4, 0), 0);
}

#[test]
fn test_toolbar_actions_as_effects() {
    let c = ctx();
    assert_eq!(toolbar_effect(ToolbarAction::Run, &c), KeyEffect::RunCommand);
    assert_eq!(toolbar_effect(ToolbarAction::BackToTree, &c), KeyEffect::BackToTree);
    assert_eq!(toolbar_effect(ToolbarAction::FocusTerminal, &c), KeyEffect::Nothing);
    assert_eq!(toolbar_effect(ToolbarAction::Search, &c), KeyEffect::StartSearch);
    assert_eq!(toolbar_effect(ToolbarAction::Quit, &c), KeyEffect::Quit);
}

fn node(id: &str, depth: usize, trail: Vec<bool>, kind: NodeKind) -> VisibleNode {
    VisibleNode { id: id.to_string(), depth, is_last_sibling: false, ancestor_is_last: trail, kind }
}

fn nodes() -> Vec<VisibleNode> {
    vec![
        node(
            "root",
            0,
            vec![],
            NodeKind::Group {
                name: "root".to_string(),
                expanded: true,
                success: 0,
                running: 0,
                failure: 0,
                selected: 1,
                total: 2,
            },
        ),
        node(
            "a",
            1,
            vec![],
            NodeKind::Command {
                name: "a".to_string(),
                selected: true,
                status: CommandStatus::Running,
                duration: None,
            },
        ),
        node(
            "b",
            2,
            vec![true],
            NodeKind::Command {
                name: "b".to_string(),
                selected: false,
                status: CommandStatus::Pending,
                duration: None,
            },
        ),
    ]
}

struct Fixture {
    nodes: Vec<VisibleNode>,
    toolbar: ToolbarCache,
    mouse: MouseState,
    menu: Option<ContextMenu>,
}

fn fixture() -> Fixture {
    Fixture {
        nodes: nodes(),
        toolbar: ToolbarCache {
            regions: vec![ToolbarRegion { x_start: 0, x_end: 10, action: ToolbarAction::Quit }],
            y: 23,
            hover: None,
        },
        mouse: MouseState::default(),
        menu: None,
    }
}

fn mouse_ctx(f: &Fixture) -> MouseContext<'_> {
    MouseContext {
        menu: f.menu.as_ref(),
        toolbar: &f.toolbar,
        nodes: &f.nodes,
        tree_area: Rect::new(0, 0, 30, 23),
        terminal_area: Rect::new(31, 0, 49, 23),
        tree_scroll: 0,
        log_scroll: 0,
        show_logs: false,
        mouse: &f.mouse,
        now: 1000,
        has_active_terminal: true,
        active_has_process: true,
        has_scrollback: true,
        interactive: false,
    }
}

fn at(kind: MouseKind, column: u16, row: u16) -> MouseEvent {
    MouseEvent { kind, column, row }
}

#[test]
fn test_mouse_on_tree() {
    let mut f = fixture();
    let left = MouseKind::Down(MouseButton::Left);
    assert_eq!(
        handle_mouse(&mouse_ctx(&f), at(left, 10, 1)),
        MouseEffect::TreeClick { row: 1, toggle: false }
    );
    assert_eq!(
        handle_mouse(&mouse_ctx(&f), at(left, 2, 1)),
        MouseEffect::TreeClick { row: 1, toggle: true }
    );
    assert_eq!(
        handle_mouse(&mouse_ctx(&f), at(left, 4, 2)),
        MouseEffect::TreeClick { row: 2, toggle: true }
    );
    assert_eq!(handle_mouse(&mouse_ctx(&f), at(left, 4, 9)), MouseEffect::FocusTree);
    f.mouse.last_click = Some((700, 1));
    assert_eq!(handle_mouse(&mouse_ctx(&f), at(left, 10, 1)), MouseEffect::StartCommand { row: 1 });
    assert_eq!(
        handle_mouse(&mouse_ctx(&f), at(left, 3, 1)),
        MouseEffect::TreeClick { row: 1, toggle: true }
    );
    f.mouse.last_click = Some((900, 0));
    assert_eq!(
        handle_mouse(&mouse_ctx(&f), at(left, 10, 0)),
        MouseEffect::SetExpanded { row: 0, expanded: false }
    );
    f.mouse.last_click = Some((100, 1));
    assert_eq!(
        handle_mouse(&mouse_ctx(&f), at(left, 10, 1)),
        MouseEffect::TreeClick { row: 1, toggle: false }
    );
    assert_eq!(handle_mouse(&mouse_ctx(&f), at(MouseKind::Moved, 3, 2)), MouseEffect::Hover(Some(2)));
    assert_eq!(handle_mouse(&mouse_ctx(&f), at(MouseKind::Moved, 3, 7)), MouseEffect::Hover(None));
    assert_eq!(handle_mouse(&mouse_ctx(&f), at(MouseKind::Moved, 40, 1)), MouseEffect::Hover(None));
    assert_eq!(handle_mouse(&mouse_ctx(&f), at(MouseKind::ScrollUp, 3, 1)), MouseEffect::TreeScroll(0));
    assert_eq!(
        handle_mouse(&mouse_ctx(&f), at(MouseKind::ScrollDown, 3, 1)),
        MouseEffect::TreeScroll(2)
    );
    assert_eq!(
        handle_mouse(&mouse_ctx(&f), at(MouseKind::Down(MouseButton::Right), 3, 2)),
        MouseEffect::OpenTreeMenu { row: 2 }
    );
    assert_eq!(
        handle_mouse(&mouse_ctx(&f), at(MouseKind::Down(MouseButton::Right), 3, 5)),
        MouseEffect::Nothing
    );
}

#[test]
fn test_mouse_on_terminal_and_border() {
    let mut f = fixture();
    let left = MouseKind::Down(MouseButton::Left);
    assert_eq!(handle_mouse(&mouse_ctx(&f), at(left, 30, 5)), MouseEffect::StartResize);
    assert_eq!(
        handle_mouse(&mouse_ctx(&f), at(left, 79, 5)),
        MouseEffect::ScrollbarGrab { row: 5, focus: false }
    );
    assert_eq!(handle_mouse(&mouse_ctx(&f), at(left, 50, 5)), MouseEffect::Nothing);
    let mut interactive = mouse_ctx(&f);
    interactive.interactive = true;
    assert_eq!(
        handle_mouse(&interactive, at(left, 50, 5)),
        MouseEffect::TerminalClick { x: 19, y: 5, forward: true }
    );
    assert_eq!(
        handle_mouse(&mouse_ctx(&f), at(MouseKind::ScrollUp, 50, 5)),
        MouseEffect::TerminalWheel { up: true, x: 19, y: 5 }
    );
    let mut logs = mouse_ctx(&f);
    logs.show_logs = true;
    logs.log_scroll = 3;
    assert_eq!(handle_mouse(&logs, at(MouseKind::ScrollUp, 50, 5)), MouseEffect::LogScroll(8));
    assert_eq!(handle_mouse(&logs, at(MouseKind::ScrollDown, 50, 5)), MouseEffect::LogScroll(0));
    assert_eq!(
        handle_mouse(&mouse_ctx(&f), at(MouseKind::Down(MouseButton::Right), 50, 5)),
        MouseEffect::OpenTerminalMenu
    );
    assert_eq!(
        handle_mouse(&mouse_ctx(&f), at(MouseKind::Up(MouseButton::Left), 50, 5)),
        MouseEffect::Release
    );
    let drag = MouseKind::Drag(MouseButton::Left);
    assert_eq!(handle_mouse(&mouse_ctx(&f), at(drag, 50, 5)), MouseEffect::Nothing);
    f.mouse.resizing = true;
    assert_eq!(handle_mouse(&mouse_ctx(&f), at(drag, 50, 5)), MouseEffect::Resize(50));
    assert_eq!(handle_mouse(&mouse_ctx(&f), at(drag, 3, 5)), MouseEffect::Resize(10));
    assert_eq!(handle_mouse(&mouse_ctx(&f), at(drag, 79, 5)), MouseEffect::Resize(70));
    f.mouse.resizing = false;
    f.mouse.scrollbar_dragging = true;
    assert_eq!(handle_mouse(&mouse_ctx(&f), at(drag, 79, 9)), MouseEffect::ScrollbarDrag { row: 9 });
}

#[test]
fn test_mouse_on_toolbar_and_menu() {
    let mut f = fixture();
    let left = MouseKind::Down(MouseButton::Left);
    assert_eq!(
        handle_mouse(&mouse_ctx(&f), at(left, 3, 23)),
        MouseEffect::Toolbar(ToolbarAction::Quit)
    );
    assert_eq!(handle_mouse(&mouse_ctx(&f), at(left, 13, 23)), MouseEffect::Nothing);
    assert_eq!(
        handle_mouse(&mouse_ctx(&f), at(MouseKind::Moved, 3, 24)),
        MouseEffect::ToolbarHover(Some(0))
    );
    assert_eq!(
        handle_mouse(&mouse_ctx(&f), at(MouseKind::Moved, 30, 23)),
        MouseEffect::ToolbarHover(None)
    );
    f.menu = Some(ContextMenu {
        target: ContextMenuTarget::Terminal,
        items: build_terminal_menu(true, false, Some(&CommandStatus::Success)),
        cursor: 0,
        area: Rect::new(10, 10, 20, 7),
    });
    assert_eq!(
        handle_mouse(&mouse_ctx(&f), at(left, 12, 13)),
        MouseEffect::MenuPick { row: Some(2) }
    );
    assert_eq!(handle_mouse(&mouse_ctx(&f), at(left, 12, 16)), MouseEffect::MenuPick { row: None });
    assert_eq!(handle_mouse(&mouse_ctx(&f), at(left, 5, 5)), MouseEffect::MenuClose);
    assert_eq!(handle_mouse(&mouse_ctx(&f), at(MouseKind::Moved, 12, 13)), MouseEffect::MenuHover(2));
    assert_eq!(handle_mouse(&mouse_ctx(&f), at(MouseKind::Moved, 12, 12)), MouseEffect::Nothing);
    assert_eq!(handle_mouse(&mouse_ctx(&f), at(MouseKind::ScrollDown, 3, 3)), MouseEffect::MenuClose);
    assert_eq!(
        handle_mouse(&mouse_ctx(&f), at(MouseKind::Up(MouseButton::Left), 3, 3)),
        MouseEffect::Nothing
    );
}

#[test]
fn test_menus_open_where_clicked() {
    let list = nodes();
    let tree = Rect::new(0, 0, 30, 23);
    let terminal = Rect::new(31, 0, 49, 23);
    let menu = menu_for_node(&list[1], 5, 1, &tree, &terminal);
    assert_eq!(menu.cursor, 0);
    assert_eq!(menu.items.len(), 5);
    assert_eq!(menu.items[0].label, "Deselect");
    assert_eq!(menu.items[3].action, ContextMenuAction::Stop);
    assert!(menu.items[3].enabled);
    assert_eq!(menu.area, Rect::new(5, 1, 19, 7));
    assert!(matches!(menu.target, ContextMenuTarget::Command { ref id, selected: true, .. } if id == "a"));
    let group = menu_for_node(&list[0], 70, 22, &tree, &terminal);
    assert_eq!(group.items[0].label, "Collapse");
    assert_eq!(group.area, Rect::new(49, 16, 21, 6));
    let pane = menu_for_terminal(false, false, None, 40, 2, &tree, &terminal);
    assert_eq!(pane.items.len(), 2);
    assert!(matches!(pane.target, ContextMenuTarget::Terminal));
    assert_eq!(pane.area, Rect::new(40, 2, 12, 4));
}

#[test]
fn test_output_scroll_state() {
    let mut out = Output::default();
    assert_eq!(out.scroll_state(), (false, false));
    out.scrollback_size = 10;
    out.scrollback_position = 2;
    assert_eq!(out.scroll_state(), (true, true));
}

#[test]
fn test_toolbar_hover_follows_the_pointer() {
    let mut f = fixture();
    f.toolbar.hover = Some(0);
    let left = MouseKind::Down(MouseButton::Left);
    let right = MouseKind::Down(MouseButton::Right);
    assert_eq!(hover_after(&mouse_ctx(&f), at(MouseKind::Moved, 3, 23)), Some(0));
    assert_eq!(hover_after(&mouse_ctx(&f), at(MouseKind::Moved, 30, 23)), None);
    assert_eq!(hover_after(&mouse_ctx(&f), at(left, 30, 23)), Some(0));
    assert_eq!(hover_after(&mouse_ctx(&f), at(right, 3, 24)), Some(0));
    assert_eq!(hover_after(&mouse_ctx(&f), at(MouseKind::Moved, 3, 5)), None);
    assert_eq!(hover_after(&mouse_ctx(&f), at(left, 3, 5)), None);
    f.menu = Some(ContextMenu {
        target: ContextMenuTarget::Terminal,
        items: build_terminal_menu(true, false, Some(&CommandStatus::Success)),
        cursor: 0,
        area: Rect::new(10, 10, 20, 7),
    });
    assert_eq!(hover_after(&mouse_ctx(&f), at(MouseKind::Moved, 3, 5)), Some(0));
    assert_eq!(hover_after(&mouse_ctx(&f), at(MouseKind::Moved, 30, 23)), Some(0));
}

#[test]
fn test_wheel_falls_back_to_scrolling_five_lines() {
    assert_eq!(WHEEL_LINES, 5);
    assert_eq!(wheel_fallback(true, false), Some(-5));
    assert_eq!(wheel_fallback(false, false), Some(5));
    assert_eq!(wheel_fallback(true, true), None);
    assert_eq!(wheel_fallback(false, true), None);
}
