use fnug::theme::Tone;
use fnug::tui::app::CommandStatus;
use fnug::tui::context_menu::{
    build_command_menu, build_group_menu, compute_area, ContextMenu, ContextMenuTarget, HintStyle,
    ItemStyle, Rect,
};
use fnug::tui::log_state::Level;
use fnug::tui::render::{
    arrange, arrange_fullscreen, cell_char, column_constraints, cursor_cell, drawn_cells,
    level_label, log_constraints, log_header, log_layout, log_scrollbar, log_window,
    outer_constraints, pane_layout, scrollbar_position, tree_constraints, Constraint, LogWindow,
    PaneLayout, NO_LOGS,
};
use fnug::tui::tree_state::set_expanded;
use fnug::tui::tree_widget::{render_node_text, styled_node, NodeKind, TreeWidget, VisibleNode};

fn rect(x: u16, y: u16, width: u16, height: u16) -> Rect {
    Rect::new(x, y, width, height)
}

#[test]
fn test_pane_layout_splits_tree_separator_and_terminal() {
    let layout = pane_layout(rect(0, 0, 100, 30), 30, false, false);
    assert_eq!(layout.toolbar, rect(0, 29, 100, 1));
    assert_eq!(layout.tree, rect(0, 0, 30, 29));
    assert_eq!(layout.separator, rect(30, 0, 1, 29));
    assert_eq!(layout.terminal, rect(31, 0, 69, 29));
    assert_eq!(layout.search, None);
    assert_eq!(layout.tree_rows, rect(0, 0, 30, 29));
}

#[test]
fn test_pane_layout_with_search_bar() {
    let layout = pane_layout(rect(0, 0, 100, 30), 30, false, true);
    assert_eq!(layout.search, Some(rect(0, 0, 30, 1)));
    assert_eq!(layout.tree_rows, rect(0, 1, 30, 28));
    assert_eq!(layout.terminal, rect(31, 0, 69, 29));
}

#[test]
fn test_pane_layout_fullscreen_gives_all_to_the_terminal() {
    let layout = pane_layout(rect(0, 0, 100, 30), 30, true, true);
    assert_eq!(layout.terminal, rect(0, 0, 100, 29));
    assert_eq!(layout.toolbar, rect(0, 29, 100, 1));
    assert_eq!(layout.tree, rect(0, 0, 0, 0));
    assert_eq!(layout.search, None);
}

#[test]
fn test_pane_layout_leaves_twenty_columns_for_the_terminal() {
    let layout = pane_layout(rect(0, 0, 26, 10), 30, false, false);
    assert_eq!(layout.tree.width + layout.separator.width + layout.terminal.width, 26);
    assert_eq!(layout.separator.width, 1);
    assert_eq!(layout.tree.height, 9);
    assert_eq!(layout.terminal.height, 9);
}

#[test]
fn test_layout_constraints() {
    assert_eq!(outer_constraints(), vec![Constraint::Min(3), Constraint::Length(1)]);
    assert_eq!(
        column_constraints(100, 30),
        vec![Constraint::Length(30), Constraint::Length(1), Constraint::Min(20)]
    );
    assert_eq!(
        column_constraints(26, 30),
        vec![Constraint::Length(6), Constraint::Length(1), Constraint::Min(20)]
    );
    assert_eq!(
        column_constraints(10, 30),
        vec![Constraint::Length(0), Constraint::Length(1), Constraint::Min(20)]
    );
    assert_eq!(tree_constraints(false), vec![Constraint::Min(1)]);
    assert_eq!(tree_constraints(true), vec![Constraint::Length(1), Constraint::Min(1)]);
    assert_eq!(log_constraints(), vec![Constraint::Length(1), Constraint::Min(1)]);
}

#[test]
fn test_arrange_puts_the_parts_in_their_places() {
    let outer = vec![rect(0, 0, 100, 29), rect(0, 29, 100, 1)];
    let columns = vec![rect(0, 0, 30, 29), rect(30, 0, 1, 29), rect(31, 0, 69, 29)];
    assert_eq!(
        arrange(&outer, &columns, &vec![rect(0, 0, 30, 1), rect(0, 1, 30, 28)], true),
        PaneLayout {
            toolbar: rect(0, 29, 100, 1),
            tree: rect(0, 0, 30, 29),
            search: Some(rect(0, 0, 30, 1)),
            tree_rows: rect(0, 1, 30, 28),
            separator: rect(30, 0, 1, 29),
            terminal: rect(31, 0, 69, 29),
        }
    );
    assert_eq!(
        arrange(&outer, &columns, &vec![rect(0, 0, 30, 29)], false),
        PaneLayout {
            toolbar: rect(0, 29, 100, 1),
            tree: rect(0, 0, 30, 29),
            search: None,
            tree_rows: rect(0, 0, 30, 29),
            separator: rect(30, 0, 1, 29),
            terminal: rect(31, 0, 69, 29),
        }
    );
    assert_eq!(
        arrange_fullscreen(&outer),
        PaneLayout {
            toolbar: rect(0, 29, 100, 1),
            tree: rect(0, 0, 0, 0),
            search: None,
            tree_rows: rect(0, 0, 0, 0),
            separator: rect(0, 0, 0, 0),
            terminal: rect(0, 0, 100, 29),
        }
    );
}

#[test]
fn test_log_layout_has_a_header_row() {
    let (header, content) = log_layout(rect(31, 0, 69, 29));
    assert_eq!(header, rect(31, 0, 69, 1));
    assert_eq!(content, rect(31, 1, 69, 28));
}

#[test]
fn test_log_window_follows_the_newest_entries() {
    assert_eq!(
        log_window(100, 10, 0),
        LogWindow { start: 90, end: 100, max_scroll: 90, scroll: 0 }
    );
    assert_eq!(
        log_window(100, 10, 25),
        LogWindow { start: 65, end: 75, max_scroll: 90, scroll: 25 }
    );
    assert_eq!(
        log_window(100, 10, 500),
        LogWindow { start: 0, end: 10, max_scroll: 90, scroll: 90 }
    );
    assert_eq!(log_window(5, 10, 3), LogWindow { start: 0, end: 5, max_scroll: 0, scroll: 0 });
    assert_eq!(log_window(0, 0, 0), LogWindow { start: 0, end: 0, max_scroll: 0, scroll: 0 });
}

#[test]
fn test_log_scrollbar_only_where_entries_do_not_fit() {
    assert_eq!(log_scrollbar(5, 10, 0), None);
    assert_eq!(log_scrollbar(10, 10, 0), None);
    assert_eq!(log_scrollbar(100, 10, 0), Some((90, 90)));
    assert_eq!(log_scrollbar(100, 10, 25), Some((90, 65)));
    assert_eq!(log_scrollbar(100, 10, 500), Some((90, 0)));
}

#[test]
fn test_log_header_and_labels() {
    assert_eq!(log_header(0), " Logs (0) ");
    assert_eq!(log_header(1234), " Logs (1234) ");
    assert_eq!(NO_LOGS, "No log messages yet.");
    assert_eq!(level_label(Level::Error), "ERROR");
    assert_eq!(level_label(Level::Warn), "WARN ");
    assert_eq!(level_label(Level::Info), "INFO ");
    assert_eq!(level_label(Level::Debug), "DEBUG");
    assert_eq!(level_label(Level::Trace), "TRACE");
}

#[test]
fn test_scrollbar_position_counts_from_the_top() {
    assert_eq!(scrollbar_position(100, 0), 100);
    assert_eq!(scrollbar_position(100, 40), 60);
    assert_eq!(scrollbar_position(100, 100), 0);
    assert_eq!(scrollbar_position(10, 11), 0);
}

#[test]
fn test_terminal_cells() {
    assert_eq!(drawn_cells(&rect(0, 0, 80, 24), 30, 100), (24, 80));
    assert_eq!(drawn_cells(&rect(0, 0, 80, 24), 10, 40), (10, 40));
    assert_eq!(cell_char(""), ' ');
    assert_eq!(cell_char("a"), 'a');
    assert_eq!(cell_char("é\u{301}"), 'é');
    assert_eq!(cursor_cell(&rect(31, 2, 69, 27), false, 3, 4), Some((35, 5)));
    assert_eq!(cursor_cell(&rect(31, 2, 69, 27), true, 3, 4), None);
    assert_eq!(cursor_cell(&rect(31, 2, 69, 27), false, 27, 4), None);
    assert_eq!(cursor_cell(&rect(31, 2, 69, 27), false, 3, 69), None);
    assert_eq!(cursor_cell(&rect(31, 2, 69, 27), false, 26, 68), Some((99, 28)));
}

fn group_row(success: u16, running: u16, failure: u16) -> VisibleNode {
    VisibleNode {
        id: "g".to_string(),
        depth: 1,
        is_last_sibling: false,
        ancestor_is_last: vec![],
        kind: NodeKind::Group {
            name: "backend".to_string(),
            expanded: true,
            success,
            running,
            failure,
            selected: 1,
            total: 3,
        },
    }
}

fn command_row(selected: bool, status: CommandStatus, duration: Option<&str>) -> VisibleNode {
    VisibleNode {
        id: "c".to_string(),
        depth: 2,
        is_last_sibling: true,
        ancestor_is_last: vec![false, true],
        kind: NodeKind::Command {
            name: "lint".to_string(),
            selected,
            status,
            duration: duration.map(String::from),
        },
    }
}

fn parts(node: &VisibleNode, highlighted: bool, hovered: bool) -> Vec<(String, Tone, bool)> {
    styled_node(node, highlighted, hovered)
        .into_iter()
        .map(|s| (s.text, s.tone, s.underlined))
        .collect()
}

fn part(text: &str, tone: Tone, underlined: bool) -> (String, Tone, bool) {
    (text.to_string(), tone, underlined)
}

#[test]
fn test_group_row_spans_with_counts() {
    assert_eq!(
        parts(&group_row(2, 0, 1), false, false),
        vec![
            part("├─", Tone::Tree, false),
            part("▼ ", Tone::Plain, false),
            part("backend", Tone::Plain, false),
            part(" [", Tone::Dim, false),
            part("2", Tone::Success, false),
            part("|", Tone::Dim, false),
            part("1", Tone::Failure, false),
            part("]", Tone::Dim, false),
            part(" (1/3)", Tone::Dim, false),
        ]
    );
    assert_eq!(
        parts(&group_row(0, 4, 0), true, false),
        vec![
            part("├─", Tone::Tree, false),
            part("▼ ", Tone::Accent, true),
            part("backend", Tone::Accent, true),
            part(" [", Tone::Dim, false),
            part("4", Tone::Running, false),
            part("]", Tone::Dim, false),
            part(" (1/3)", Tone::Dim, false),
        ]
    );
    assert_eq!(
        parts(&group_row(1, 2, 3), false, true),
        vec![
            part("├─", Tone::Tree, false),
            part("▼ ", Tone::White, false),
            part("backend", Tone::White, false),
            part(" [", Tone::Dim, false),
            part("1", Tone::Success, false),
            part("|", Tone::Dim, false),
            part("2", Tone::Running, false),
            part("|", Tone::Dim, false),
            part("3", Tone::Failure, false),
            part("]", Tone::Dim, false),
            part(" (1/3)", Tone::Dim, false),
        ]
    );
    assert_eq!(
        parts(&group_row(0, 0, 0), false, false),
        vec![
            part("├─", Tone::Tree, false),
            part("▼ ", Tone::Plain, false),
            part("backend", Tone::Plain, false),
            part(" (1/3)", Tone::Dim, false),
        ]
    );
}

#[test]
fn test_command_row_spans() {
    assert_eq!(
        parts(&command_row(true, CommandStatus::Failure(2), Some(" (12ms)")), true, false),
        vec![
            part("│ ", Tone::Tree, false),
            part("  ", Tone::Tree, false),
            part("└─", Tone::Tree, false),
            part("● ", Tone::Accent, true),
            part("lint", Tone::Accent, true),
            part(" ✘", Tone::Failure, false),
            part(" (12ms)", Tone::Dim, false),
        ]
    );
    assert_eq!(
        parts(&command_row(false, CommandStatus::Pending, None), false, true),
        vec![
            part("│ ", Tone::Tree, false),
            part("  ", Tone::Tree, false),
            part("└─", Tone::Tree, false),
            part("○ ", Tone::Dim, false),
            part("lint", Tone::White, false),
        ]
    );
    assert_eq!(
        parts(&command_row(false, CommandStatus::WaitingForDeps, None), false, false)[5],
        part(" ◌", Tone::Running, false)
    );
    assert_eq!(
        parts(&command_row(false, CommandStatus::Error("x".to_string()), None), false, false)[5],
        part(" ⚠", Tone::Failure, false)
    );
    assert_eq!(
        parts(&command_row(false, CommandStatus::Success, None), false, false)[5],
        part(" ✔", Tone::Success, false)
    );
    assert_eq!(
        parts(&command_row(false, CommandStatus::Running, None), false, false)[5],
        part(" ⧗", Tone::Running, false)
    );
}

#[test]
fn test_spans_read_as_the_plain_text() {
    let rows = vec![
        command_row(true, CommandStatus::Running, Some(" (1m 3s)")),
        command_row(false, CommandStatus::Pending, None),
        group_row(0, 0, 0),
    ];
    for row in &rows {
        for (highlighted, hovered) in [(false, false), (true, false), (false, true)] {
            let text: String =
                styled_node(row, highlighted, hovered).into_iter().map(|s| s.text).collect();
            assert_eq!(text, render_node_text(row));
        }
    }
}

#[test]
fn test_widget_row_knows_cursor_and_pointer() {
    let nodes = vec![
        command_row(false, CommandStatus::Pending, None),
        command_row(false, CommandStatus::Pending, None),
        command_row(false, CommandStatus::Pending, None),
    ];
    let widget = TreeWidget::new(&nodes, 1, 0, Some(2));
    let name = |i: usize| {
        let row = widget.row(i);
        (row[4].tone, row[4].underlined)
    };
    assert_eq!(name(0), (Tone::Plain, false));
    assert_eq!(name(1), (Tone::Accent, true));
    assert_eq!(name(2), (Tone::White, false));
    let on_cursor = TreeWidget::new(&nodes, 2, 0, Some(2));
    let row = on_cursor.row(2);
    assert_eq!((row[4].tone, row[4].underlined), (Tone::Accent, true));
}

fn menu(items_for_group: bool, cursor: usize, area: Rect) -> ContextMenu {
    let items = if items_for_group {
        build_group_menu(true, 0, 4)
    } else {
        build_command_menu(false, &CommandStatus::Pending)
    };
    ContextMenu { target: ContextMenuTarget::Terminal, items, cursor, area }
}

#[test]
fn test_menu_rows_pad_the_hint_to_the_right_edge() {
    let screen = rect(0, 0, 80, 24);
    let items = build_group_menu(true, 0, 4);
    let area = compute_area(&items, 5, 5, screen);
    let m = menu(true, 1, area);
    let rows = m.rows(&area);
    assert_eq!(rows.len(), m.items.len());
    let inner = usize::from(area.width) - 2;
    for (row, item) in rows.iter().zip(m.items.iter()) {
        assert_eq!(row.label, item.label);
        assert_eq!(row.hint, item.hint);
        if item.hint.is_empty() {
            assert_eq!(row.padding, 0);
        } else {
            assert_eq!(
                1 + item.label.len() + usize::from(row.padding) + item.hint.len() + 1,
                inner
            );
        }
    }
    assert_eq!(rows[1].style, ItemStyle::Selected);
    assert_eq!(rows[1].hint_style, HintStyle::Selected);
    assert_eq!(rows[0].style, ItemStyle::Normal);
    assert_eq!(rows[0].hint_style, HintStyle::Dim);
    let disabled = m.items.iter().position(|i| !i.enabled).unwrap();
    assert_eq!(rows[disabled].style, ItemStyle::Disabled);
    assert_eq!(rows[disabled].hint_style, HintStyle::Dim);
    let on_disabled = menu(true, disabled, area);
    let rows = on_disabled.rows(&area);
    assert_eq!(rows[disabled].style, ItemStyle::Disabled);
    assert_eq!(rows[disabled].hint_style, HintStyle::Dim);
}

#[test]
fn test_menu_rows_stop_at_the_lower_border() {
    let m = menu(false, 0, rect(0, 0, 20, 4));
    assert!(m.items.len() > 2);
    assert_eq!(m.rows(&rect(0, 0, 20, 4)).len(), 2);
    assert_eq!(m.rows(&rect(0, 0, 20, 2)).len(), 0);
    assert_eq!(m.rows(&rect(0, 0, 20, 1)).len(), 0);
    let narrow = m.rows(&rect(0, 0, 3, 10));
    assert_eq!(narrow.len(), m.items.len());
    assert!(narrow.iter().all(|r| r.padding == 0));
}

#[test]
fn test_menu_shown_area_is_cut_to_the_screen() {
    let m = menu(false, 0, rect(10, 5, 20, 8));
    assert_eq!(m.shown_area(&rect(0, 0, 80, 24)), Some(rect(10, 5, 20, 8)));
    assert_eq!(m.shown_area(&rect(0, 0, 25, 10)), Some(rect(10, 5, 15, 5)));
    assert_eq!(m.shown_area(&rect(12, 7, 80, 24)), Some(rect(12, 7, 20, 8)));
    assert_eq!(m.shown_area(&rect(0, 0, 10, 24)), None);
    assert_eq!(m.shown_area(&rect(0, 0, 80, 5)), None);
}

#[test]
fn test_set_expanded_updates_or_appends() {
    let mut list: Vec<(String, bool)> = vec![("a".to_string(), true), ("b".to_string(), true)];
    set_expanded(&mut list, "b", false);
    assert_eq!(list, vec![("a".to_string(), true), ("b".to_string(), false)]);
    set_expanded(&mut list, "c", false);
    assert_eq!(
        list,
        vec![("a".to_string(), true), ("b".to_string(), false), ("c".to_string(), false)]
    );
    set_expanded(&mut list, "a", true);
    assert_eq!(list.len(), 3);
    assert_eq!(list[0], ("a".to_string(), true));
}
