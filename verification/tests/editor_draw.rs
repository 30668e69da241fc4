use coda::model::buffer::TextBuffer;
use coda::model::editor::EditorCore;
use coda::model::position::Position;
use coda::overlay::palette_box::TextStyle;
use coda::view::{EditorView, StatusLine};
use unicode_width::UnicodeWidthChar;

/// A grid of terminal cells that draw commands are applied to.
struct Screen {
    width: u16,
    cells: Vec<Vec<String>>,
    styles: Vec<Vec<TextStyle>>,
}

impl Screen {
    fn new(width: u16, height: u16) -> Self {
        Screen {
            width,
            cells: vec![vec![" ".to_string(); usize::from(width)]; usize::from(height)],
            styles: vec![vec![TextStyle::Normal; usize::from(width)]; usize::from(height)],
        }
    }

    fn put_str(&mut self, x: u16, y: u16, text: &str, style: TextStyle) {
        if usize::from(y) >= self.cells.len() {
            return;
        }
        let row = &mut self.cells[usize::from(y)];
        let styles = &mut self.styles[usize::from(y)];
        let mut x = usize::from(x);
        for c in text.chars() {
            let w = c.width().unwrap_or(0);
            if w == 0 {
                continue;
            }
            if x + w > usize::from(self.width) {
                break;
            }
            row[x] = c.to_string();
            styles[x] = style;
            if w == 2 {
                row[x + 1] = String::new();
            }
            x += w;
        }
    }

    fn draw(&mut self, commands: &[(u16, u16, String, TextStyle)]) {
        for (x, y, text, style) in commands {
            self.put_str(*x, *y, text, *style);
        }
    }

    fn cell(&self, x: u16, y: u16) -> &str {
        &self.cells[usize::from(y)][usize::from(x)]
    }
}

fn row_text(screen: &Screen, y: u16) -> String {
    (0..screen.width).map(|x| screen.cell(x, y).to_string()).collect::<String>().trim_end().to_string()
}

fn view_with(text: &str, cursor: Position) -> (EditorCore, EditorView) {
    let (buffer, _) = TextBuffer::from_bytes(text.as_bytes()).unwrap();
    let mut editor = EditorCore::new(buffer);
    editor.cursor = cursor;
    (editor, EditorView::default())
}

/// Draws the editor area on `screen` and returns where the cursor goes.
fn draw(editor: &EditorCore, view: &mut EditorView, screen: &mut Screen, wrap: bool) -> Option<(u16, u16)> {
    let height = screen.cells.len() as u16;
    let status = StatusLine { filename: "test", modified: false, message: "", pending: "" };
    let (commands, cursor) = view.draw(editor, screen.width, height, &status, 0, wrap);
    screen.draw(&commands);
    cursor
}

#[test]
fn wrap_on_draws_continuation_rows_and_positions_cursor() {
    // screen 10 wide, gutter "  1 " = 4 cells -> 6 text cells per row
    let (editor, mut view) = view_with("abcdefghij\n", Position::new(0, 8));
    let mut screen = Screen::new(10, 4);

    let cursor = draw(&editor, &mut view, &mut screen, true);

    assert_eq!(row_text(&screen, 0), "  1 abcdef");
    assert_eq!(row_text(&screen, 1), "    ghij");
    // cursor grapheme 8 -> segment 1, x=2 -> screen (gutter 4 + 2, row 1)
    assert_eq!(cursor, Some((6, 1)));
}

#[test]
fn wrap_on_scrolls_by_visual_rows_within_one_logical_line() {
    // 6 text cells per row; 30 chars -> 5 segments; viewport shows 3 rows
    let (editor, mut view) = view_with(&format!("{}\n", "abcdef".repeat(5)), Position::new(0, 29));
    let mut screen = Screen::new(10, 4);

    let cursor = draw(&editor, &mut view, &mut screen, true);

    // cursor segment = 4; top must have advanced to segment 2 of line 0
    assert_eq!(view.top_line, 0);
    assert_eq!(view.top_segment, 2);
    assert_eq!(view.left_col, 0, "wrap mode never scrolls horizontally");
    assert_eq!(cursor, Some((4 + 5, 2)));
}

#[test]
fn wrap_off_scrolls_horizontally_to_follow_cursor() {
    let (editor, mut view) = view_with("abcdefghijklmno\n", Position::new(0, 14));
    let mut screen = Screen::new(10, 3);

    draw(&editor, &mut view, &mut screen, false);

    assert!(view.left_col > 0, "cursor past viewport must scroll");
    assert_eq!(view.top_segment, 0, "wrap-off never uses top_segment");
}

#[test]
fn truncation_marker_only_when_line_is_cut() {
    // 6 text cells per row (10 - gutter 4)
    let (editor, mut view) = view_with("abcdefgh\nxy\n", Position::new(1, 0));
    let mut screen = Screen::new(10, 4);

    draw(&editor, &mut view, &mut screen, false);

    let long_row = row_text(&screen, 0);
    let short_row = row_text(&screen, 1);
    assert!(long_row.ends_with("…"), "cut line must end with the marker: {long_row:?}");
    assert!(!short_row.contains("…"), "fitting line must not show a marker: {short_row:?}");
}

#[test]
fn truncation_marker_on_left_edge_while_scrolled() {
    let (editor, mut view) = view_with("abcdefghijklmno\n", Position::new(0, 14));
    let mut screen = Screen::new(10, 3);

    draw(&editor, &mut view, &mut screen, false);

    let row = row_text(&screen, 0);
    assert!(view.left_col > 0);
    // gutter is 4 cells; the first text cell shows the left marker
    assert_eq!(screen.cell(4, 0), "…");
    assert!(row.starts_with("  1 …"), "{row:?}");
}

#[test]
fn the_status_bar_and_selection_are_drawn_in_reverse() {
    let (mut editor, mut view) = view_with("ab\tc\n", Position::new(0, 1));
    editor.select_range(Position::new(0, 1), Position::new(0, 2));
    let mut screen = Screen::new(20, 3);
    let status = StatusLine { filename: "notes.txt", modified: true, message: "saved", pending: "Ctrl+K" };
    let (commands, cursor) = view.draw(&editor, 20, 3, &status, 0, false);
    screen.draw(&commands);
    assert_eq!(row_text(&screen, 0), "  1 ab    c");
    assert_eq!(screen.styles[0][5], TextStyle::Reverse);
    assert_eq!(screen.styles[0][4], TextStyle::Normal);
    assert_eq!(row_text(&screen, 2), "notes.txt [+] | Ln 1");
    let last = commands.last().unwrap();
    assert_eq!(last.2, "notes.txt [+] | Ln 1,Col 3 | saved | Ctrl+K");
    assert_eq!(last.3, TextStyle::Reverse);
    assert_eq!(cursor, Some((6, 0)));
}
