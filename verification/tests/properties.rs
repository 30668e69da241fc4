use coda::cli::Command;
use coda::document::{file_name, Document, SaveError};
use coda::model::buffer::{LineEnding, TextBuffer};
use coda::model::editor::EditorCore;
use coda::model::position::Position;
use coda::model::search::find_matches;
use coda::overlay::info::{geometry, InfoOverlay};
use coda::overlay::search::SearchOverlay;
use coda::overlay::inspector::hex_bytes;
use coda::overlay::palette::{scroll_offset, CommandPalette};
use coda::overlay::warnings::{body_rows, WarningsOverlay};
use coda::overlay::wrap::wrap_row;
use coda::session::{ellipsize, tab_index_at_column, SaveConflictGuard, TabItem};
use coda::settings::{settings_from_parts, settings_from_toml, WrapValue};
use coda::text::{add_signed, decimal_string, split_at_char, str_equals};
use coda::theme::ThemeChoice;
use coda::view::{display_col_for_grapheme, grapheme_display_width, is_selected, EditorView};

fn editor(text: &str) -> EditorCore {
    EditorCore::new(TextBuffer::from_bytes(text.as_bytes()).unwrap().0)
}

fn text(editor: &EditorCore) -> String {
    String::from_utf8(editor.buffer.to_bytes()).unwrap()
}

#[test]
fn load_then_save_gives_back_the_bytes_for_each_line_ending() {
    for input in [&b"x\r\ny"[..], b"x\ny\n", b"\n", b"\r\n\r\n"] {
        let (buffer, info) = TextBuffer::from_bytes(input).unwrap();
        assert!(!info.mixed_line_endings);
        assert_eq!(buffer.to_bytes(), input);
    }
    let (buffer, _) = TextBuffer::from_bytes(b"a\r\nb").unwrap();
    assert_eq!(buffer.line_ending(), LineEnding::CrLf);
    assert!(!buffer.trailing_newline());
}

#[test]
fn typing_then_undo_restores_buffer_and_cursor_and_redo_types_again() {
    let mut editor = editor("ab\ncd");
    editor.cursor = Position::new(1, 1);
    editor.commit_group();
    editor.insert_text("X\nY");
    assert_eq!(text(&editor), "ab\ncX\nYd");
    let after = editor.cursor;
    assert!(editor.undo());
    assert_eq!(text(&editor), "ab\ncd");
    assert_eq!(editor.cursor, Position::new(1, 1));
    assert!(editor.redo());
    assert_eq!(text(&editor), "ab\ncX\nYd");
    assert_eq!(editor.cursor, after);
}

#[test]
fn recorded_delete_then_undo_restores_buffer() {
    let mut editor = editor("hello world");
    editor.cursor = Position::new(0, 11);
    editor.delete_word_left();
    assert_eq!(text(&editor), "hello ");
    assert!(editor.undo());
    assert_eq!(text(&editor), "hello world");
    assert!(editor.redo());
    assert_eq!(text(&editor), "hello ");
}

#[test]
fn combining_mark_typed_after_a_letter_merges_into_its_cluster() {
    // The typed mark joins the cluster before it: the line still has one
    // grapheme, while the cursor counts the mark as a grapheme of its own.
    let mut editor = editor("e");
    editor.cursor = Position::new(0, 1);
    editor.insert_text("\u{301}");
    assert_eq!(editor.buffer.grapheme_count(0), 1);
    assert_eq!(editor.cursor, Position::new(0, 2));
    assert_eq!(editor.buffer.clamp_position(editor.cursor), Position::new(0, 1));
}

#[test]
fn a_new_edit_after_undo_clears_redo() {
    let mut editor = editor("");
    editor.insert_text("a");
    assert!(editor.undo());
    editor.insert_text("b");
    assert!(!editor.redo());
}

#[test]
fn move_then_undo_then_redo_round_trips() {
    let mut editor = editor("one\ntwo\nthree");
    editor.cursor = Position::new(2, 2);
    editor.move_lines_up();
    assert_eq!(text(&editor), "one\nthree\ntwo");
    assert!(editor.undo());
    assert_eq!(text(&editor), "one\ntwo\nthree");
    assert_eq!(editor.cursor, Position::new(2, 2));
    assert!(editor.redo());
    assert_eq!(text(&editor), "one\nthree\ntwo");
}

#[test]
fn indent_then_outdent_round_trips_one_line() {
    let mut editor = editor("x");
    editor.indent();
    assert_eq!(text(&editor), "    x");
    assert_eq!(editor.cursor, Position::new(0, 4));
    editor.outdent();
    assert_eq!(text(&editor), "x");
    assert_eq!(editor.cursor, Position::new(0, 0));
}

#[test]
fn matches_are_ordered_and_disjoint() {
    let matches = find_matches(
        &TextBuffer::from_bytes(b"aaaa\naa").unwrap().0,
        "aa",
        true,
    );
    assert_eq!(
        matches,
        vec![
            (Position::new(0, 0), Position::new(0, 2)),
            (Position::new(0, 2), Position::new(0, 4)),
            (Position::new(1, 0), Position::new(1, 2)),
        ]
    );
    for pair in matches.windows(2) {
        assert!(pair[0].1 <= pair[1].0);
    }
}

#[test]
fn case_insensitive_search_lowercases_both_sides() {
    let buffer = TextBuffer::from_bytes("ÀB àb".as_bytes()).unwrap().0;
    assert_eq!(find_matches(&buffer, "àB", false).len(), 2);
    assert_eq!(find_matches(&buffer, "àB", true).len(), 0);
}

#[test]
fn queries_with_line_breaks_find_nothing() {
    let buffer = TextBuffer::from_bytes(b"a\nb").unwrap().0;
    assert!(find_matches(&buffer, "a\nb", true).is_empty());
    assert!(find_matches(&buffer, "", true).is_empty());
}

#[test]
fn wrap_rows_concatenate_back_to_the_line() {
    let line = "e\u{301}xtra 👨‍👩‍👧 wide 全角 text";
    let rows = wrap_row(line, 5);
    assert_eq!(rows.concat(), line);
    assert!(rows.len() > 1);
}

#[test]
fn body_rows_never_exceed_the_row_budget() {
    let lines: Vec<String> = (0..5).map(|i| format!("warning {i}")).collect();
    let rows = body_rows(&lines, 4, 1);
    assert_eq!(rows, vec!["… 15"]);
    assert_eq!(body_rows(&lines, 72, 3).len(), 3);
}

#[test]
fn scroll_offset_keeps_every_selection_on_screen() {
    for count in 1..40usize {
        for rows in 1..12usize {
            for selected in 0..count {
                let offset = scroll_offset(selected, count, rows);
                assert!(offset <= selected && selected < offset + rows);
            }
        }
    }
}

#[test]
fn move_selection_wraps_in_both_directions() {
    let mut palette = CommandPalette::default();
    palette.move_selection(-1, 5);
    assert_eq!(palette.selected, 4);
    palette.move_selection(3, 5);
    assert_eq!(palette.selected, 2);
    palette.move_selection(isize::MIN, 5);
    assert_eq!(palette.selected, 4);
    palette.move_selection(7, 0);
    assert_eq!(palette.selected, 0);
    palette.selected = 100;
    palette.move_selection(1, 3);
    assert_eq!(palette.selected, 0);
}

#[test]
fn ellipsize_cuts_with_a_trailing_ellipsis() {
    assert_eq!(ellipsize("abcdef", 0), "");
    assert_eq!(ellipsize("abcdef", 1), "…");
    assert_eq!(ellipsize("abcdef", 4), "abc…");
    assert_eq!(ellipsize("abc", 3), "abc");
}

#[test]
fn tab_hit_testing_follows_the_drawn_layout() {
    let tabs = vec![
        TabItem { label: "1:main.rs".to_string(), active: true },
        TabItem { label: "2:notes.md [+]".to_string(), active: false },
    ];
    assert_eq!(tab_index_at_column(&tabs, 0, 25), Some(0));
    assert_eq!(tab_index_at_column(&tabs, 8, 25), Some(0));
    assert_eq!(tab_index_at_column(&tabs, 9, 25), None);
    assert_eq!(tab_index_at_column(&tabs, 11, 25), Some(1));
    assert_eq!(tab_index_at_column(&tabs, 24, 25), Some(1));
    assert_eq!(tab_index_at_column(&tabs, 11, 11), None);
}

#[test]
fn save_conflict_guard_warns_then_forces() {
    let mut guard = SaveConflictGuard::default();
    assert!(!guard.should_force());
    guard.warn();
    assert!(guard.should_force());
    guard.reset();
    assert!(!guard.should_force());
}

#[test]
fn hex_bytes_and_decimals_have_exact_text() {
    assert_eq!(hex_bytes(&[0x1b, 0x5b, 0xff]), "0x1b 0x5b 0xff");
    assert_eq!(hex_bytes(&[]), "");
    assert_eq!(decimal_string(0), "0");
    assert_eq!(decimal_string(1090), "1090");
    assert_eq!(decimal_string(usize::MAX), usize::MAX.to_string());
}

#[test]
fn signed_addition_saturates_at_both_ends() {
    assert_eq!(add_signed(5, -7), 0);
    assert_eq!(add_signed(5, 7), 12);
    assert_eq!(add_signed(usize::MAX - 1, 5), usize::MAX);
    assert_eq!(add_signed(usize::MAX, isize::MIN), usize::MAX - isize::MAX as usize - 1);
}

#[test]
fn split_and_equality_follow_std() {
    assert_eq!(split_at_char("a\n\nb\n", '\n'), vec!["a", "", "b", ""]);
    assert_eq!(split_at_char("", '\n'), vec![""]);
    assert!(str_equals("日本", "日本"));
    assert!(!str_equals("日本", "日"));
}

#[test]
fn panel_geometry_on_small_and_large_screens() {
    assert_eq!(geometry(80, 24), (72, 19));
    assert_eq!(geometry(12, 6), (4, 1));
    assert_eq!(geometry(200, 100), (192, 20));
    assert_eq!(geometry(0, 0), (1, 1));
}

#[test]
fn cell_widths_of_graphemes() {
    assert_eq!(grapheme_display_width("\t"), 4);
    assert_eq!(grapheme_display_width("あ"), 2);
    assert_eq!(grapheme_display_width("a"), 1);
    assert_eq!(grapheme_display_width("\u{200b}"), 1);
    assert_eq!(display_col_for_grapheme("a\tあb", 3), 7);
    assert_eq!(display_col_for_grapheme("ab", 99), 2);
}

#[test]
fn selection_membership_is_half_open() {
    let range = Some((Position::new(0, 2), Position::new(1, 1)));
    assert!(!is_selected(range, 0, 1));
    assert!(is_selected(range, 0, 2));
    assert!(is_selected(range, 1, 0));
    assert!(!is_selected(range, 1, 1));
    assert!(!is_selected(None, 0, 0));
}

#[test]
fn viewport_follows_the_cursor_without_wrap() {
    let mut editor = editor("a\nb\nc\nd\ne\nabcdefghij");
    editor.cursor = Position::new(5, 9);
    let mut view = EditorView::default();
    view.ensure_cursor_visible(&editor, 3, 4);
    assert_eq!(view.top_line, 3);
    assert_eq!(view.left_col, 6);
    editor.cursor = Position::new(0, 0);
    view.ensure_cursor_visible(&editor, 3, 4);
    assert_eq!((view.top_line, view.left_col), (0, 0));
    assert_eq!(EditorView::gutter_width(&editor), 4);
    assert_eq!(view.cursor_screen_position(&editor), Some((4, 0)));
}

#[test]
fn viewport_follows_the_cursor_in_visual_rows_with_wrap() {
    let mut editor = editor("abcdefghij\nx");
    editor.cursor = Position::new(0, 9);
    let mut view = EditorView::default();
    view.ensure_cursor_visible_wrapped(&editor, 2, 4);
    assert_eq!((view.top_line, view.top_segment), (0, 1));
    assert_eq!(view.cursor_screen_position_wrapped(&editor, 4), Some((5, 1)));
    editor.cursor = Position::new(1, 0);
    view.ensure_cursor_visible_wrapped(&editor, 2, 4);
    assert_eq!((view.top_line, view.top_segment), (0, 2));
    editor.cursor = Position::new(0, 0);
    assert_eq!(view.cursor_screen_position_wrapped(&editor, 4), None);
}

#[test]
fn theme_names_parse_exactly() {
    assert_eq!(ThemeChoice::parse("dark"), Some(ThemeChoice::Dark));
    assert_eq!(ThemeChoice::parse("light"), Some(ThemeChoice::Light));
    assert_eq!(ThemeChoice::parse("Light"), None);
    assert_eq!(ThemeChoice::default(), ThemeChoice::Dark);
}

#[test]
fn settings_read_theme_and_wrap_from_toml() {
    let mut warnings = Vec::new();
    assert_eq!(
        settings_from_toml("config.toml", "[appearance]\ntheme = \"light\"\n[editor]\nwrap = true\n", &mut warnings),
        (ThemeChoice::Light, true)
    );
    assert!(warnings.is_empty());

    assert_eq!(settings_from_toml("config.toml", "", &mut warnings), (ThemeChoice::Dark, false));
    assert!(warnings.is_empty());

    assert_eq!(settings_from_toml("config.toml", "[appearance\n", &mut warnings), (ThemeChoice::Dark, false));
    assert_eq!(warnings.len(), 1);
    assert!(warnings[0].starts_with("config.toml: "));
    assert!(warnings[0].ends_with("; using default settings"));

    warnings.clear();
    assert_eq!(
        settings_from_toml("config.toml", "[appearance]\ntheme = \"blue\"\n[editor]\nwrap = \"yes\"\n", &mut warnings),
        (ThemeChoice::Dark, false)
    );
    assert_eq!(
        warnings,
        vec![
            "config.toml: unsupported appearance.theme=\"blue\"; using default dark theme".to_string(),
            "config.toml: editor.wrap must be true or false, got \"yes\"; using wrap = false".to_string(),
        ]
    );
}

#[test]
fn settings_from_parts_reports_each_broken_part() {
    let mut warnings = Vec::new();
    assert_eq!(
        settings_from_parts("c", Err("bad".to_string()), &mut warnings),
        (ThemeChoice::Dark, false)
    );
    assert_eq!(warnings, vec!["c: bad; using default settings".to_string()]);
    warnings.clear();
    assert_eq!(
        settings_from_parts("c", Ok((Some("dark".to_string()), WrapValue::Flag(true))), &mut warnings),
        (ThemeChoice::Dark, true)
    );
    assert!(warnings.is_empty());
    assert_eq!(
        settings_from_parts("c", Ok((None, WrapValue::Other("1".to_string()))), &mut warnings),
        (ThemeChoice::Dark, false)
    );
    assert_eq!(warnings, vec!["c: editor.wrap must be true or false, got 1; using wrap = false".to_string()]);
}

#[test]
fn command_messages_are_exact() {
    let args = |values: &[&str]| values.iter().map(|v| v.as_bytes().to_vec()).collect::<Vec<_>>();
    assert_eq!(
        Command::parse(args(&["+x"])),
        Command::InvalidUsage(
            "invalid line number in +x (expected +N with N >= 1; use `--` before file names starting with '+')"
                .to_string()
        )
    );
    assert_eq!(
        Command::parse(args(&["+1", "+2"])),
        Command::InvalidUsage("multiple +N arguments; pass a single line number".to_string())
    );
    assert_eq!(
        Command::parse(args(&["++7", "f"])),
        Command::OpenFiles { paths: args(&["f"]), line: Some(7) }
    );
    assert_eq!(
        Command::parse(args(&["+99999999999999999999999"])),
        Command::InvalidUsage(
            "invalid line number in +99999999999999999999999 (expected +N with N >= 1; use `--` before file names starting with '+')"
                .to_string()
        )
    );
    assert_eq!(
        Command::parse(args(&["keymap"])),
        Command::InvalidUsage(
            "usage: coda keymap import vscode <path> [--dry-run] [--print-report] [--cmd=keep|ctrl|both]\n       coda keymap verify"
                .to_string()
        )
    );
    assert_eq!(
        Command::parse(args(&["keymap", "import", "vscode"])),
        Command::InvalidUsage("missing path: coda keymap import vscode <path>".to_string())
    );
    assert_eq!(
        Command::parse(args(&["keymap", "import", "vscode", "k.json", "--nope"])),
        Command::InvalidUsage("unknown keymap import flag: --nope".to_string())
    );
    assert_eq!(
        Command::parse(vec![b"keymap".to_vec(), b"import".to_vec(), b"vscode".to_vec(), b"k".to_vec(), vec![0x2d, 0xff]]),
        Command::InvalidUsage("unknown keymap import flag: -\u{fffd}".to_string())
    );
    assert_eq!(
        Command::parse(vec![vec![0xff, 0x2b]]),
        Command::OpenFiles { paths: vec![vec![0xff, 0x2b]], line: None }
    );
}

#[test]
fn file_names_follow_std_path_rules() {
    let name = |p: &str| file_name(p.as_bytes()).map(|n| String::from_utf8(n).unwrap());
    assert_eq!(name("a/b.txt"), Some("b.txt".to_string()));
    assert_eq!(name("foo.txt/."), Some("foo.txt".to_string()));
    assert_eq!(name("foo.txt/.//"), Some("foo.txt".to_string()));
    assert_eq!(name("foo.txt/.."), None);
    assert_eq!(name("/"), None);
    assert_eq!(name("."), None);
    assert_eq!(name("./a"), Some("a".to_string()));
    assert_eq!(name(""), None);
    for p in ["a/b.txt", "foo.txt/.", "x/..", "/", ".", "./a", "", "a//b/", "..a", "/.x"] {
        let expected = std::path::Path::new(p)
            .file_name()
            .map(|n| n.to_str().unwrap().to_string());
        assert_eq!(name(p), expected, "{p}");
    }
}

#[test]
fn save_checks_readonly_path_and_conflicts() {
    let (buffer, _) = TextBuffer::from_bytes(b"base").unwrap();
    let mut document = Document::from_buffer(Some(b"dir/notes.md".to_vec()), buffer);
    assert_eq!(document.display_name(), "notes.md");
    assert!(document.save_check(false, Some(5)).is_ok());
    document.saved_mtime = Some(1);
    assert!(matches!(document.save_check(false, Some(5)), Err(SaveError::Conflict)));
    assert!(document.save_check(true, Some(5)).is_ok());
    assert!(document.save_check(false, None).is_ok());
    document.editor.insert_text("!");
    assert!(document.is_modified());
    document.mark_saved(7);
    assert!(!document.is_modified());
    assert_eq!(document.saved_mtime, Some(7));
    document.readonly = true;
    let error = document.save_check(true, Some(7)).unwrap_err();
    assert!(matches!(error, SaveError::Readonly));
    assert_eq!(error.message(), "read-only buffer (large file)");
    assert_eq!(
        SaveError::Conflict.message(),
        "file changed on disk; save again to overwrite"
    );
    let unnamed = Document::from_buffer(Some(vec![0x66, 0xff]), TextBuffer::default());
    assert_eq!(unnamed.display_name(), "[No Name]");
}

#[test]
fn forward_deletions_and_whole_buffer_selection() {
    let mut editor = editor("ab cd");
    editor.set_cursor_position(Position::new(0, 0));
    editor.delete_forward();
    assert_eq!(text(&editor), "b cd");
    editor.delete_word_right();
    assert_eq!(text(&editor), " cd");
    editor.select_all();
    assert_eq!(
        editor.selection.unwrap().range(),
        (Position::new(0, 0), Position::new(0, 3))
    );
    editor.set_cursor_position(Position::new(7, 7));
    assert_eq!(editor.cursor, Position::new(0, 3));
    assert!(editor.selection.is_none());
}

#[test]
fn search_overlay_moves_from_the_cursor_both_ways() {
    let mut editor = editor("x a x a x");
    editor.cursor = Position::new(0, 3);
    let mut overlay = SearchOverlay::default();
    overlay.query = "x".to_string();
    overlay.next_from_cursor(&mut editor);
    assert_eq!(overlay.current, Some(1));
    editor.cursor = Position::new(0, 3);
    overlay.previous_from_cursor(&mut editor);
    assert_eq!(overlay.current, Some(0));
    overlay.replace_text = "y".to_string();
    overlay.replace_all(&mut editor);
    assert_eq!(text(&editor), "y a y a y");
    assert_eq!(overlay.match_count(), 0);
    assert!(editor.undo());
    assert_eq!(text(&editor), "x a x a x");
}

#[test]
fn palette_query_editing_resets_the_selection() {
    let mut palette = CommandPalette::default();
    palette.open();
    palette.push_text("sa");
    palette.push_char('v');
    palette.selected = 2;
    palette.backspace();
    assert_eq!(palette.query, "sa");
    assert_eq!(palette.selected, 0);
    palette.close();
    assert!(!palette.visible);
    assert!(palette.query.is_empty());
}

#[test]
fn info_panel_scrolls_within_its_content() {
    let mut overlay = InfoOverlay::default();
    overlay.set_startup((0..30).map(|i| format!("w{i}")).collect(), Vec::new(), false);
    assert_eq!(overlay.page_rows(80, 24), 19);
    assert_eq!(overlay.page_rows(80, 5), 0);
    overlay.scroll_by(5, 80, 24);
    assert_eq!(overlay.scroll, 5);
    overlay.scroll_by(100, 80, 24);
    assert_eq!(overlay.scroll, 11);
    overlay.scroll_by(-100, 80, 24);
    assert_eq!(overlay.scroll, 0);
    overlay.scroll_by(3, 80, 5);
    assert_eq!(overlay.scroll, 0);
    assert!(overlay.blocks_input(80, 24));
}

#[test]
fn warnings_panel_opens_only_with_warnings() {
    let mut overlay = WarningsOverlay::default();
    overlay.set_startup_warnings(vec!["broken".to_string()]);
    assert!(overlay.visible);
    assert!(overlay.blocks_input(80, 24));
    assert!(!overlay.blocks_input(80, 5));
    assert!(!overlay.blocks_input(11, 24));
    overlay.close();
    assert!(!overlay.blocks_input(80, 24));
    assert!(overlay.reopen());
    overlay.set_startup_warnings(Vec::new());
    assert!(!overlay.visible);
    assert!(!overlay.reopen());
}

#[test]
fn top_level_keys_outside_the_tables_are_not_settings() {
    let mut warnings = Vec::new();
    assert_eq!(
        settings_from_toml("config.toml", "theme = \"light\"\nwrap = true\nappearance = 3\n[editor]\nwrap = false\n", &mut warnings),
        (ThemeChoice::Dark, false)
    );
    assert!(warnings.is_empty());
}
