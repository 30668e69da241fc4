use coda::dispatch::Front;
use coda::document::Document;
use coda::model::buffer::TextBuffer;
use coda::model::position::Position;
use coda::mouse::{ClickState, MouseButton, MouseEffect, MouseInput, MouseKind};
use coda::overlay::inspector::InspectorOverlay;
use coda::overlay::palette::CommandPalette;
use coda::overlay::palette_box::{palette_rows, PaletteItem, TextStyle};
use coda::overlay::prompt::PromptOverlay;
use coda::overlay::search::SearchOverlay;
use coda::session::{poll_timeout_ms, QuitGuard, SaveConflictGuard};
use coda::workspace::Workspace;

fn front(texts: &[&str]) -> Front {
    let documents = texts
        .iter()
        .enumerate()
        .map(|(i, text)| {
            Document::from_buffer(
                Some(format!("file{i}.txt").into_bytes()),
                TextBuffer::from_bytes(text.as_bytes()).unwrap().0,
            )
        })
        .collect();
    Front {
        workspace: Workspace {
            documents,
            active: 0,
            close_guard: QuitGuard::default(),
            message: String::new(),
        },
        palette: CommandPalette::default(),
        search: SearchOverlay::default(),
        prompt: PromptOverlay::default(),
        inspector: InspectorOverlay::default(),
        clipboard: String::new(),
        pending_terminal_write: Vec::new(),
        quit_guard: QuitGuard::default(),
        save_conflict_guard: SaveConflictGuard::default(),
        wrap: false,
    }
}

fn event(kind: MouseKind, column: u16, row: u16) -> MouseInput {
    MouseInput { kind, column, row, shift: false }
}

fn press() -> MouseKind {
    MouseKind::Press(MouseButton::Left)
}

fn pos(line: usize, grapheme: usize) -> Position {
    Position { line, grapheme }
}

fn selection(f: &Front) -> Option<(Position, Position)> {
    let editor = &f.workspace.documents[f.workspace.active].editor;
    editor.selection.map(|s| (s.anchor, s.head))
}

fn cursor(f: &Front) -> Position {
    f.workspace.documents[f.workspace.active].editor.cursor
}

#[test]
fn clicks_place_the_cursor_then_select_word_then_line() {
    let mut f = front(&["hello world\nsecond"]);
    let mut clicks = ClickState::new();
    let at = Some(pos(0, 1));
    let effect = f.mouse(&mut clicks, event(press(), 3, 3), at, 1000, 80);
    assert_eq!(effect, MouseEffect::FollowCursor);
    assert_eq!(cursor(&f), pos(0, 1));
    assert_eq!(selection(&f), None);
    assert_eq!(clicks.drag_anchor, Some(pos(0, 1)));

    f.mouse(&mut clicks, event(press(), 3, 3), at, 1200, 80);
    assert_eq!(selection(&f), Some((pos(0, 0), pos(0, 5))));
    assert_eq!(clicks.drag_anchor, Some(pos(0, 0)));

    f.mouse(&mut clicks, event(press(), 3, 3), at, 1400, 80);
    assert_eq!(selection(&f), Some((pos(0, 0), pos(1, 0))));

    f.mouse(&mut clicks, event(press(), 3, 3), at, 1500, 80);
    assert_eq!(selection(&f), None);
    assert_eq!(cursor(&f), pos(0, 1));
    assert_eq!(clicks.last_click, Some((1500, pos(0, 1), 1)));
}

#[test]
fn slow_or_moved_clicks_start_counting_again() {
    let mut f = front(&["hello world"]);
    let mut clicks = ClickState::new();
    f.mouse(&mut clicks, event(press(), 3, 3), Some(pos(0, 1)), 1000, 80);
    f.mouse(&mut clicks, event(press(), 3, 3), Some(pos(0, 1)), 1501, 80);
    assert_eq!(selection(&f), None);
    assert_eq!(clicks.last_click, Some((1501, pos(0, 1), 1)));
    f.mouse(&mut clicks, event(press(), 4, 3), Some(pos(0, 2)), 1600, 80);
    assert_eq!(selection(&f), None);
    assert_eq!(cursor(&f), pos(0, 2));
    f.mouse(&mut clicks, event(press(), 4, 3), Some(pos(0, 2)), 2100, 80);
    assert_eq!(selection(&f), Some((pos(0, 0), pos(0, 5))));
}

#[test]
fn dragging_selects_from_the_click_and_release_ends_it() {
    let mut f = front(&["alpha\nbeta"]);
    let mut clicks = ClickState::new();
    f.mouse(&mut clicks, event(press(), 3, 3), Some(pos(0, 2)), 10, 80);
    let effect = f.mouse(&mut clicks, event(MouseKind::Drag(MouseButton::Left), 5, 4), Some(pos(1, 3)), 20, 80);
    assert_eq!(effect, MouseEffect::FollowCursor);
    assert_eq!(selection(&f), Some((pos(0, 2), pos(1, 3))));
    assert_eq!(cursor(&f), pos(1, 3));
    let effect = f.mouse(&mut clicks, event(MouseKind::Release(MouseButton::Left), 5, 4), Some(pos(1, 3)), 30, 80);
    assert_eq!(effect, MouseEffect::Nothing);
    assert_eq!(clicks.drag_anchor, None);
    f.mouse(&mut clicks, event(MouseKind::Drag(MouseButton::Left), 2, 3), Some(pos(0, 0)), 40, 80);
    assert_eq!(selection(&f), Some((pos(0, 2), pos(1, 3))));
}

#[test]
fn the_wheel_scrolls_and_shift_or_overlays_leave_events_alone() {
    let mut f = front(&["text"]);
    let mut clicks = ClickState::new();
    assert_eq!(f.mouse(&mut clicks, event(MouseKind::WheelUp, 1, 3), None, 0, 80), MouseEffect::ScrollLines(-3));
    assert_eq!(f.mouse(&mut clicks, event(MouseKind::WheelDown, 1, 3), None, 0, 80), MouseEffect::ScrollLines(3));
    assert_eq!(f.mouse(&mut clicks, event(MouseKind::WheelLeft, 1, 3), None, 0, 80), MouseEffect::ScrollColumns(-3));
    assert_eq!(f.mouse(&mut clicks, event(MouseKind::WheelRight, 1, 3), None, 0, 80), MouseEffect::ScrollColumns(3));

    let shifted = MouseInput { kind: press(), column: 3, row: 3, shift: true };
    assert_eq!(f.mouse(&mut clicks, shifted, Some(pos(0, 2)), 0, 80), MouseEffect::Nothing);
    assert_eq!(cursor(&f), pos(0, 0));

    f.palette.visible = true;
    assert_eq!(f.mouse(&mut clicks, event(press(), 3, 3), Some(pos(0, 2)), 0, 80), MouseEffect::Nothing);
    assert_eq!(cursor(&f), pos(0, 0));
    assert!(clicks.last_click.is_none());

    f.palette.visible = false;
    assert_eq!(f.mouse(&mut clicks, event(MouseKind::Press(MouseButton::Right), 3, 3), Some(pos(0, 2)), 0, 80), MouseEffect::Nothing);
    assert_eq!(cursor(&f), pos(0, 0));
}

#[test]
fn clicking_a_tab_switches_to_it() {
    let mut f = front(&["one", "two"]);
    f.workspace.close_guard.warned = true;
    f.search.visible = true;
    let mut clicks = ClickState::new();
    // Tabs "1:file0.txt" (columns 0-10) and "2:file1.txt" (from column 13).
    let effect = f.mouse(&mut clicks, event(press(), 15, 1), None, 0, 80);
    assert_eq!(effect, MouseEffect::Nothing);
    assert_eq!(f.workspace.active, 1);
    assert!(!f.search.visible);
    assert!(!f.workspace.close_guard.warned);
    f.mouse(&mut clicks, event(press(), 12, 1), None, 0, 80);
    assert_eq!(f.workspace.active, 1);
    f.mouse(&mut clicks, event(press(), 1, 1), None, 0, 80);
    assert_eq!(f.workspace.active, 0);
}

fn item(name: &str, binding: Option<&str>, undelivered: bool, lost: Option<&str>) -> PaletteItem {
    PaletteItem {
        name: name.to_string(),
        binding: binding.map(str::to_string),
        undelivered,
        lost: lost.map(str::to_string),
    }
}

#[test]
fn the_palette_box_lists_items_with_their_keys() {
    let palette = CommandPalette { visible: true, query: "sa".to_string(), selected: 0 };
    let items = vec![
        item("file.save", Some("Ctrl+S"), false, None),
        item("file.save_as", Some("Ctrl+Shift+S"), true, None),
        item("edit.select_all", Some("Ctrl+A"), false, Some("Cmd+A")),
        item("view.toggle_wrap", None, false, None),
    ];
    let rows = palette_rows(&palette, &items, 40, 20);
    let top = format!("╭ Command Palette {}╮", "─".repeat(17));
    assert_eq!(rows[0], (2, 1, top, TextStyle::Dim));
    assert_eq!(rows[1], (2, 2, format!("│{}│", " ".repeat(34)), TextStyle::Dim));
    let bottom = format!("╰ 4/4 {}╯", "─".repeat(29));
    assert_eq!(rows[6], (2, 7, bottom, TextStyle::Dim));
    assert_eq!(rows[7], (4, 2, "> sa".to_string(), TextStyle::Normal));
    let first = format!("{:<32}", "file.save");
    assert_eq!(rows[8], (4, 3, first, TextStyle::Reverse));
    assert_eq!(rows[9], (4, 4, format!("{:<32}", "file.save_as"), TextStyle::Normal));
    assert_eq!(rows[10], (4, 5, format!("{:<32}", "edit.select_all"), TextStyle::Normal));
    assert_eq!(rows[11], (4, 6, format!("{:<32}", "view.toggle_wrap"), TextStyle::Normal));
    assert_eq!(rows.len(), 12);
}

#[test]
fn undelivered_keys_are_dimmed_on_a_wide_screen() {
    let palette = CommandPalette { visible: true, query: String::new(), selected: 1 };
    let items = vec![
        item("file.save_as", Some("Ctrl+Shift+S"), true, None),
        item("edit.select_all", Some("Ctrl+A"), false, Some("Cmd+A")),
        item("edit.copy", Some("Ctrl+C"), false, Some("Cmd+C")),
    ];
    let rows = palette_rows(&palette, &items, 80, 20);
    // 6 box lines and the query line come first.
    let line = format!("{:<72}", format!("{:<32}Ctrl+Shift+S  ✗ undelivered", "file.save_as"));
    assert_eq!(rows[7], (4, 3, line.clone(), TextStyle::Normal));
    assert_eq!(rows[8], (36, 3, line.chars().skip(32).collect::<String>(), TextStyle::Dim));
    let selected = format!("{:<72}", format!("{:<32}Ctrl+A  ✗ Cmd+A undelivered", "edit.select_all"));
    assert_eq!(rows[9], (4, 4, selected, TextStyle::Reverse));
    let third = format!("{:<72}", format!("{:<32}Ctrl+C  ✗ Cmd+C undelivered", "edit.copy"));
    assert_eq!(rows[10], (4, 5, third.clone(), TextStyle::Normal));
    assert_eq!(rows[11], (42, 5, third.chars().skip(38).collect::<String>(), TextStyle::Dim));
    assert_eq!(rows.len(), 12);
}

#[test]
fn the_palette_box_is_not_drawn_when_hidden_or_too_small() {
    let items = vec![item("file.save", Some("Ctrl+S"), false, None)];
    let hidden = CommandPalette { visible: false, query: String::new(), selected: 0 };
    assert!(palette_rows(&hidden, &items, 80, 24).is_empty());
    let shown = CommandPalette { visible: true, query: String::new(), selected: 0 };
    assert!(palette_rows(&shown, &items, 11, 24).is_empty());
    assert!(palette_rows(&shown, &items, 80, 5).is_empty());
    assert_eq!(palette_rows(&shown, &items, 12, 6).len(), 6);
}

#[test]
fn the_palette_box_scrolls_to_keep_the_selection_visible() {
    let items: Vec<PaletteItem> = (0..15).map(|i| item(&format!("action.{i}"), None, false, None)).collect();
    let palette = CommandPalette { visible: true, query: String::new(), selected: 12 };
    // Height 12 leaves 6 item rows; the window ends at the selection.
    let rows = palette_rows(&palette, &items, 40, 12);
    assert_eq!(rows.len(), 9 + 1 + 6);
    assert_eq!(rows[8], (2, 9, format!("╰ 6/15 {}╯", "─".repeat(28)), TextStyle::Dim));
    assert_eq!(rows[10].2.trim_end(), "action.7");
    assert_eq!(rows[15], (4, 8, format!("{:<32}", "action.12"), TextStyle::Reverse));
}

#[test]
fn poll_timeout_counts_down_the_sequence_timeout() {
    assert_eq!(poll_timeout_ms(None, 1000), 100);
    assert_eq!(poll_timeout_ms(Some(0), 1000), 1000);
    assert_eq!(poll_timeout_ms(Some(400), 1000), 600);
    assert_eq!(poll_timeout_ms(Some(1000), 1000), 0);
    assert_eq!(poll_timeout_ms(Some(5000), 1000), 0);
    assert_eq!(poll_timeout_ms(Some(0), u64::MAX), i32::MAX);
}
