use coda::overlay::info::InfoOverlay;
use coda::overlay::palette_box::TextStyle;
use coda::overlay::prompt::{PromptOverlay, PromptPurpose};
use coda::overlay::search::{SearchFocus, SearchOverlay};
use coda::overlay::warnings::WarningsOverlay;
use coda::session::{tab_bar_rows, TabItem};
use unicode_width::UnicodeWidthChar;

/// A grid of terminal cells that draw commands are applied to.
struct Screen {
    width: u16,
    cells: Vec<Vec<String>>,
    styles: Vec<Vec<TextStyle>>,
}

impl Screen {
    fn new(width: u16, height: u16) -> Self {
        Screen {
            width,
            cells: vec![vec![" ".to_string(); usize::from(width)]; usize::from(height)],
            styles: vec![vec![TextStyle::Normal; usize::from(width)]; usize::from(height)],
        }
    }

    fn put_str(&mut self, x: u16, y: u16, text: &str, style: TextStyle) {
        if usize::from(y) >= self.cells.len() {
            return;
        }
        let row = &mut self.cells[usize::from(y)];
        let styles = &mut self.styles[usize::from(y)];
        let mut x = usize::from(x);
        for c in text.chars() {
            let w = c.width().unwrap_or(0);
            if w == 0 {
                continue;
            }
            if x + w > usize::from(self.width) {
                break;
            }
            row[x] = c.to_string();
            styles[x] = style;
            if w == 2 {
                row[x + 1] = String::new();
            }
            x += w;
        }
    }

    fn draw(&mut self, commands: &[(u16, u16, String, TextStyle)]) {
        for (x, y, text, style) in commands {
            self.put_str(*x, *y, text, *style);
        }
    }

    fn cell(&self, x: u16, y: u16) -> &str {
        &self.cells[usize::from(y)][usize::from(x)]
    }
}

fn row_text(screen: &Screen, y: u16) -> String {
    (0..screen.width).map(|x| screen.cell(x, y).to_string()).collect()
}

fn draw_warnings(screen: &mut Screen, overlay: &WarningsOverlay, width: u16, height: u16) {
    screen.draw(&overlay.rows(width, height));
}

fn draw_info(screen: &mut Screen, overlay: &InfoOverlay, width: u16, height: u16) {
    screen.draw(&overlay.draw_rows(width, height));
}

#[test]
fn panel_lists_warnings_above_the_status_bar() {
    let mut overlay = WarningsOverlay::default();
    overlay.set_startup_warnings(vec![
        "bindings.json: invalid bindings.json: trailing comma".to_string(),
        "config.toml: expected value; using default settings".to_string(),
    ]);
    assert!(overlay.visible, "startup warnings open the panel");

    let mut screen = Screen::new(80, 24);
    draw_warnings(&mut screen, &overlay, 80, 24);

    // 2 body rows + 2 borders, bottom border on row 22 (status bar = 23).
    assert!(row_text(&screen, 19).contains("2 config warning(s)"));
    assert!(row_text(&screen, 20).contains("trailing comma"));
    assert!(row_text(&screen, 21).contains("config.toml"));
    assert!(row_text(&screen, 22).contains("press any key to dismiss"));
    assert_eq!(row_text(&screen, 23).trim(), "", "status bar row untouched");
}

#[test]
fn long_warnings_wrap_instead_of_truncating() {
    let mut overlay = WarningsOverlay::default();
    let long = format!("bindings.json: {}", "x".repeat(100));
    overlay.set_startup_warnings(vec![long]);

    let mut screen = Screen::new(80, 24);
    draw_warnings(&mut screen, &overlay, 80, 24);

    // 80-wide screen → box 76 wide → 72 inner columns: 115 chars wrap to
    // two body rows (20/21), bottom border lands on row 22.
    assert!(row_text(&screen, 20).contains("bindings.json:"));
    assert!(row_text(&screen, 21).contains("xxx"));
    assert!(row_text(&screen, 22).contains("press any key"));
}

#[test]
fn warnings_fullwidth_text_stays_inside_the_box_border() {
    let mut overlay = WarningsOverlay::default();
    overlay.set_startup_warnings(vec![format!("設定{}", "全".repeat(60))]);

    let mut screen = Screen::new(40, 24);
    draw_warnings(&mut screen, &overlay, 40, 24);

    // Box is 36 wide starting at x=2: the right border must survive on
    // every body row (display-width wrapping, not char-count clipping).
    for y in 20..=21 {
        let row = row_text(&screen, y);
        assert_eq!(row.trim_end().chars().last(), Some('│'), "right border intact on row {y}: {row:?}");
    }
}

#[test]
fn warnings_narrowest_drawable_screen_keeps_borders_intact() {
    let mut overlay = WarningsOverlay::default();
    // Enough rows to overflow max_rows=1 on a 6-row screen, forcing the
    // "… N more" marker into a 4-column body (12-wide screen, box 8).
    overlay.set_startup_warnings((0..5).map(|i| format!("warning {i}")).collect());

    let mut screen = Screen::new(12, 6);
    draw_warnings(&mut screen, &overlay, 12, 6);

    // Geometry on 12x6: box x 2..=9, rows 2..=4 (status bar = row 5),
    // single body row 3 with 4 inner columns at x 4..=7.
    let body_row = row_text(&screen, 3);
    assert!(body_row.contains('…'), "shortened marker fits the 4-column body: {body_row:?}");
    assert_eq!(screen.cell(9, 3), "│", "right border intact next to the marker");
    assert_eq!(screen.cell(10, 3), " ", "nothing drawn past the border");
}

#[test]
fn no_warnings_keeps_the_panel_hidden_and_reopen_reports_it() {
    let mut overlay = WarningsOverlay::default();
    overlay.set_startup_warnings(Vec::new());
    assert!(!overlay.visible);
    assert!(!overlay.reopen(), "nothing to show");

    let mut screen = Screen::new(80, 24);
    draw_warnings(&mut screen, &overlay, 80, 24);
    assert_eq!(row_text(&screen, 22).trim(), "");
}

#[test]
fn warnings_undrawable_screen_neither_draws_nor_blocks_input() {
    let mut overlay = WarningsOverlay::default();
    overlay.set_startup_warnings(vec!["broken".to_string()]);

    assert!(overlay.blocks_input(80, 24));
    assert!(!overlay.blocks_input(80, 5), "an invisible panel must not swallow keys");
    assert!(!overlay.blocks_input(11, 24));

    let mut tiny = Screen::new(80, 5);
    draw_warnings(&mut tiny, &overlay, 80, 5); // must not panic or underflow
    assert!(overlay.rows(80, 5).is_empty());

    overlay.close();
    assert!(!overlay.blocks_input(80, 24));
    assert!(overlay.reopen(), "warnings are retained after dismissal");
}

#[test]
fn panel_lists_both_sections_above_the_status_bar() {
    let mut overlay = InfoOverlay::default();
    overlay.set_startup(
        vec!["bindings.json: invalid bindings.json: trailing comma".to_string()],
        vec!["Ghostty intercepts 1 binding(s):".to_string()],
        false,
    );
    assert!(overlay.visible, "startup problems open the panel");

    let mut screen = Screen::new(80, 24);
    draw_info(&mut screen, &overlay, 80, 24);

    // 3 body rows (config, blank separator, env) + 2 borders → box top at
    // row 18, bottom border on row 22 (status bar = 23, untouched).
    assert!(row_text(&screen, 18).contains("coda info"));
    assert!(row_text(&screen, 19).contains("trailing comma"));
    assert!(
        row_text(&screen, 20).chars().all(|c| c == ' ' || c == '│'),
        "blank separator row between the sections"
    );
    assert!(row_text(&screen, 21).contains("Ghostty intercepts"));
    assert!(row_text(&screen, 22).contains("press any key to dismiss"));
    assert_eq!(row_text(&screen, 23).trim(), "", "status bar row untouched");
}

#[test]
fn empty_sections_keep_the_panel_hidden_and_reopen_reports_it() {
    let mut overlay = InfoOverlay::default();
    overlay.set_startup(Vec::new(), Vec::new(), false);
    assert!(!overlay.visible);
    assert!(!overlay.reopen(), "nothing to show");

    let mut screen = Screen::new(80, 24);
    draw_info(&mut screen, &overlay, 80, 24);
    assert_eq!(row_text(&screen, 22).trim(), "");
}

#[test]
fn long_lines_wrap_instead_of_truncating() {
    let mut overlay = InfoOverlay::default();
    let long = format!("bindings.json: {}", "x".repeat(100));
    overlay.set_startup(vec![long], Vec::new(), false);

    let mut screen = Screen::new(80, 24);
    draw_info(&mut screen, &overlay, 80, 24);

    // 80-wide screen → box 76 wide → 72 inner columns: 115 chars wrap to
    // two body rows (20/21), bottom border lands on row 22.
    assert!(row_text(&screen, 20).contains("bindings.json:"));
    assert!(row_text(&screen, 21).contains("xxx"));
    assert!(row_text(&screen, 22).contains("press any key"));
}

#[test]
fn info_fullwidth_text_stays_inside_the_box_border() {
    let mut overlay = InfoOverlay::default();
    overlay.set_startup(vec![format!("設定{}", "全".repeat(60))], Vec::new(), false);

    let mut screen = Screen::new(40, 24);
    draw_info(&mut screen, &overlay, 40, 24);

    for y in 20..=21 {
        let row = row_text(&screen, y);
        assert_eq!(row.trim_end().chars().last(), Some('│'), "right border intact on row {y}: {row:?}");
    }
}

#[test]
fn info_narrowest_drawable_screen_keeps_borders_intact() {
    let mut overlay = InfoOverlay::default();
    overlay.set_startup((0..5).map(|i| format!("warning {i}")).collect(), Vec::new(), false);

    let mut screen = Screen::new(12, 6);
    draw_info(&mut screen, &overlay, 12, 6);

    // Geometry on 12x6: box x 2..=9, rows 2..=4 (status bar = row 5),
    // single body row 3 with 4 inner columns at x 4..=7 (max_rows=1 →
    // raw window, no markers; scrolling reaches the rest).
    let body_row = row_text(&screen, 3);
    assert!(body_row.contains("warn"), "first wrapped row fits the 4-column body: {body_row:?}");
    assert_eq!(screen.cell(9, 3), "│", "right border intact next to the marker");
    assert_eq!(screen.cell(10, 3), " ", "nothing drawn past the border");
}

#[test]
fn info_undrawable_screen_neither_draws_nor_blocks_input() {
    let mut overlay = InfoOverlay::default();
    overlay.set_startup(vec!["broken".to_string()], Vec::new(), false);

    assert!(overlay.blocks_input(80, 24));
    assert!(!overlay.blocks_input(80, 5), "an invisible panel must not swallow keys");
    assert!(!overlay.blocks_input(11, 24));

    let mut tiny = Screen::new(80, 5);
    draw_info(&mut tiny, &overlay, 80, 5); // must not panic or underflow
    assert!(overlay.draw_rows(80, 5).is_empty());
}

#[test]
fn info_footer_tells_how_to_scroll_when_rows_are_hidden() {
    let mut overlay = InfoOverlay::default();
    overlay.set_startup((0..30).map(|i| format!("warning {i}")).collect(), Vec::new(), false);
    let rows = overlay.draw_rows(80, 24);
    // 19 body rows: the box spans rows 2..=22.
    assert_eq!(rows[0].1, 2);
    assert!(rows[20].2.contains("↑/↓ scroll"));
    assert_eq!(rows[20].1, 22);
}

#[test]
fn prompt_bar_shows_label_and_input_and_places_the_cursor() {
    let mut prompt = PromptOverlay::default();
    prompt.open(PromptPurpose::SaveAs, "Save As:", "/tmp/a.txt");
    let (rows, cursor) = prompt.rows(30, 10);
    assert_eq!(
        rows,
        vec![
            (0, 0, format!("{:<30}", "Save As: /tmp/a.txt"), TextStyle::Dim),
            (0, 0, "Save As:".to_string(), TextStyle::Normal),
        ]
    );
    assert_eq!(cursor, Some((19, 0)));
    let (rows, cursor) = prompt.rows(10, 10);
    assert_eq!(rows[0].2, "Save As: /");
    assert_eq!(cursor, Some((9, 0)));
    prompt.visible = false;
    assert_eq!(prompt.rows(30, 10), (Vec::new(), None));
}

#[test]
fn search_bar_shows_query_mode_counter_and_replace_row() {
    let mut search = SearchOverlay::default();
    search.visible = true;
    search.query = "foo".to_string();
    let (rows, cursor) = search.rows(40, 10);
    assert_eq!(
        rows,
        vec![
            (0, 0, format!("{:<40}", "Find: foo [Aa:off] no matches"), TextStyle::Dim),
            (0, 0, "Find:".to_string(), TextStyle::Normal),
        ]
    );
    assert_eq!(cursor, Some((9, 0)));

    search.case_sensitive = true;
    search.replace_mode = true;
    search.replace_text = "bar".to_string();
    search.focus = SearchFocus::Replace;
    search.matches = vec![Default::default(); 3];
    search.current = Some(1);
    let (rows, cursor) = search.rows(40, 10);
    assert_eq!(
        rows,
        vec![
            (0, 0, format!("{:<40}", "Find: foo [Aa:on] 2/3"), TextStyle::Dim),
            (0, 1, format!("{:<40}", "Replace: bar"), TextStyle::Dim),
            (0, 1, "Replace:".to_string(), TextStyle::Normal),
        ]
    );
    assert_eq!(cursor, Some((12, 1)));

    // One row only: no Replace row and no cursor on it.
    let (rows, cursor) = search.rows(40, 1);
    assert_eq!(rows.len(), 1);
    assert_eq!(cursor, None);
}

#[test]
fn tab_bar_marks_active_modified_and_truncates() {
    let mut screen = Screen::new(25, 1);
    screen.draw(&tab_bar_rows(
        &[
            TabItem { label: "1:main.rs".to_string(), active: true },
            TabItem { label: "2:notes.md [+]".to_string(), active: false },
        ],
        25,
        1,
    ));

    assert_eq!(row_text(&screen, 0), "1:main.rs  2:notes.md [+]");
    assert_eq!(screen.styles[0][0], TextStyle::Reverse);
    assert_ne!(screen.styles[0][11], TextStyle::Reverse);

    let mut narrow = Screen::new(20, 1);
    narrow.draw(&tab_bar_rows(&[TabItem { label: "1:very-long-file-name.rs".to_string(), active: true }], 20, 1));
    assert_eq!(row_text(&narrow, 0), "1:very-long-file-na…");
}

#[test]
fn tab_bar_stops_when_the_bar_is_full_and_needs_a_row() {
    let tabs = vec![
        TabItem { label: "1:a".to_string(), active: false },
        TabItem { label: "2:b".to_string(), active: true },
    ];
    assert!(tab_bar_rows(&tabs, 10, 0).is_empty());
    let rows = tab_bar_rows(&tabs, 4, 1);
    assert_eq!(
        rows,
        vec![(0, 0, "1:a".to_string(), TextStyle::Normal), (3, 0, "  ".to_string(), TextStyle::Normal)]
    );
}
