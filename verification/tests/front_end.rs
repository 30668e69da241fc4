use coda::cli::{CmdStrategy, Command, ImportOptions};
use coda::clipboard::{base64_encode, osc52_copy_sequence};
use coda::document::{Document, SaveError};
use coda::key::{Key, KeyEvent, Modifiers};
use coda::model::buffer::TextBuffer;
use coda::model::editor::EditorCore;
use coda::model::position::Position;
use coda::overlay::info::{visible_rows, InfoOverlay};
use coda::overlay::inspector::{format_paste_record, is_close_key, InspectorOverlay};
use coda::overlay::palette::{scroll_offset, CommandPalette};
use coda::overlay::prompt::{PromptOutcome, PromptOverlay, PromptPurpose};
use coda::overlay::search::{SearchFocus, SearchOverlay};
use coda::overlay::warnings::body_rows;
use coda::overlay::wrap::{wrap_row, wrapped_rows};
use coda::session::{format_intercept_warning, QuitDecision, QuitGuard};
use coda::view::{cursor_visual_position, wrap_segments};

fn borrowed(lines: &[String]) -> Vec<&str> {
    lines.iter().map(String::as_str).collect()
}

fn args(values: &[&str]) -> Vec<Vec<u8>> {
    values.iter().map(|value| value.as_bytes().to_vec()).collect()
}

fn search_editor(text: &str) -> EditorCore {
    EditorCore::new(TextBuffer::from_bytes(text.as_bytes()).unwrap().0)
}

#[test]
fn base64_rfc4648_vectors_and_utf8_bytes() {
    let cases = [
        (b"".as_slice(), ""),
        (b"f".as_slice(), "Zg=="),
        (b"fo".as_slice(), "Zm8="),
        (b"foo".as_slice(), "Zm9v"),
        ("日本語".as_bytes(), "5pel5pys6Kqe"),
    ];

    for (input, expected) in cases {
        assert_eq!(base64_encode(input), expected);
    }
}

#[test]
fn osc52_output_format_wraps_base64_payload() {
    assert_eq!(osc52_copy_sequence("foo").unwrap(), b"\x1b]52;c;Zm9v\x07");
}

#[test]
fn quit_guard_requires_second_quit_when_modified() {
    let mut guard = QuitGuard::default();
    assert_eq!(guard.request_quit(true), QuitDecision::Continue);
    assert_eq!(guard.request_quit(true), QuitDecision::Quit);
}

#[test]
fn quit_guard_allows_immediate_quit_when_clean() {
    let mut guard = QuitGuard::default();
    assert_eq!(guard.request_quit(false), QuitDecision::Quit);
}

#[test]
fn format_intercept_warning_is_none_for_empty_list() {
    assert_eq!(format_intercept_warning(&[]), None);
}

#[test]
fn format_intercept_warning_lists_up_to_three_examples_without_truncation() {
    let affected = vec![
        "Cmd+A".to_string(),
        "Cmd+F".to_string(),
        "Cmd+W".to_string(),
    ];
    assert_eq!(
        format_intercept_warning(&affected),
        Some(
            "Ghostty intercepts 3 bindings: Cmd+A, Cmd+F, Cmd+W — run inspector.open for details"
                .to_string()
        )
    );
}

#[test]
fn format_intercept_warning_truncates_beyond_three_examples() {
    let affected = vec![
        "Cmd+A".to_string(),
        "Cmd+F".to_string(),
        "Cmd+W".to_string(),
        "Cmd+C".to_string(),
    ];
    assert_eq!(
        format_intercept_warning(&affected),
        Some(
            "Ghostty intercepts 4 bindings: Cmd+A, Cmd+F, Cmd+W, … — run inspector.open for details"
                .to_string()
        )
    );
}

#[test]
fn clear_query_removes_input_and_resets_selection() {
    let mut palette = CommandPalette {
        visible: true,
        query: "save".to_string(),
        selected: 3,
    };
    palette.clear_query();
    assert!(palette.query.is_empty());
    assert_eq!(palette.selected, 0);
}

#[test]
fn scroll_offset_keeps_selection_visible() {
    let cases = [
        ("fits entirely", 5, 6, 10, 0),
        ("top of long list", 0, 30, 8, 0),
        ("selection at window edge", 7, 30, 8, 0),
        ("selection scrolls window", 12, 30, 8, 5),
        ("selection at end pins to max offset", 29, 30, 8, 22),
    ];
    for (name, selected, count, rows, expected) in cases {
        assert_eq!(scroll_offset(selected, count, rows), expected, "{name}");
    }
}

fn key(inner: Key) -> KeyEvent {
    KeyEvent::plain(inner)
}

#[test]
fn open_prefills_input_and_sets_purpose_and_label() {
    let mut prompt = PromptOverlay::default();
    prompt.open(PromptPurpose::SaveAs, "Save As:", "/tmp/existing.txt");

    assert!(prompt.visible);
    assert_eq!(prompt.purpose, Some(PromptPurpose::SaveAs));
    assert_eq!(prompt.label, "Save As:");
    assert_eq!(prompt.input, "/tmp/existing.txt");
}

#[test]
fn typing_and_backspace_edit_the_input_and_stay_open() {
    let mut prompt = PromptOverlay::default();
    prompt.open(PromptPurpose::SaveAs, "Save As:", "");

    assert_eq!(
        prompt.handle_key(&key(Key::Char('a'))),
        PromptOutcome::Continue
    );
    assert_eq!(
        prompt.handle_key(&key(Key::Char('b'))),
        PromptOutcome::Continue
    );
    assert_eq!(prompt.input, "ab");

    assert_eq!(
        prompt.handle_key(&key(Key::Backspace)),
        PromptOutcome::Continue
    );
    assert_eq!(prompt.input, "a");
    assert!(prompt.visible, "backspace must not close the overlay");
}

#[test]
fn esc_reports_cancel_without_mutating_input() {
    let mut prompt = PromptOverlay::default();
    prompt.open(PromptPurpose::SaveAs, "Save As:", "draft.txt");

    assert_eq!(prompt.handle_key(&key(Key::Esc)), PromptOutcome::Cancel);
    assert_eq!(
        prompt.input, "draft.txt",
        "the overlay itself does not clear input on Cancel; the caller closes it"
    );
}

#[test]
fn enter_reports_submit_without_mutating_input() {
    let mut prompt = PromptOverlay::default();
    prompt.open(PromptPurpose::SaveAs, "Save As:", "draft.txt");

    assert_eq!(prompt.handle_key(&key(Key::Enter)), PromptOutcome::Submit);
    assert_eq!(prompt.input, "draft.txt");
}

#[test]
fn close_clears_all_state() {
    let mut prompt = PromptOverlay::default();
    prompt.open(PromptPurpose::SaveAs, "Save As:", "draft.txt");
    prompt.close();

    assert!(!prompt.visible);
    assert_eq!(prompt.purpose, None);
    assert!(prompt.input.is_empty());
    assert!(prompt.label.is_empty());
}

#[test]
fn paste_text_appends_to_input() {
    let mut prompt = PromptOverlay::default();
    prompt.open(PromptPurpose::SaveAs, "Save As:", "a");
    prompt.paste_text("bc");
    assert_eq!(prompt.input, "abc");
}

#[test]
fn overlay_input_backspace_tab_and_case_toggle_update_state() {
    let mut editor = search_editor("Foo foo");
    let mut overlay = SearchOverlay::default();
    overlay.open(true, &mut editor);

    assert!(overlay.handle_key(&KeyEvent::plain(Key::Char('f')), &mut editor));
    assert!(overlay.handle_key(&KeyEvent::plain(Key::Char('o')), &mut editor));
    assert_eq!(overlay.query, "fo");
    assert_eq!(overlay.match_count(), 2);

    assert!(overlay.handle_key(&KeyEvent::plain(Key::Tab), &mut editor));
    assert_eq!(overlay.focus, SearchFocus::Replace);
    assert!(overlay.handle_key(&KeyEvent::plain(Key::Char('x')), &mut editor));
    assert_eq!(overlay.replace_text, "x");
    assert!(overlay.handle_key(&KeyEvent::plain(Key::Backspace), &mut editor));
    assert!(overlay.replace_text.is_empty());

    assert!(overlay.handle_key(
        &KeyEvent::new(Key::Char('c'), Modifiers::alt()),
        &mut editor
    ));
    assert!(overlay.case_sensitive);
    assert_eq!(overlay.match_count(), 1);
}

#[test]
fn query_change_selects_first_match_at_or_after_cursor() {
    let mut editor = search_editor("foo bar foo");
    editor.cursor = Position::new(0, 4);
    let mut overlay = SearchOverlay::default();
    overlay.open(false, &mut editor);
    for character in "foo".chars() {
        overlay.handle_key(&KeyEvent::plain(Key::Char(character)), &mut editor);
    }
    assert_eq!(overlay.current, Some(1));
    assert_eq!(
        editor.selection.unwrap().range(),
        (Position::new(0, 8), Position::new(0, 11))
    );
}

#[test]
fn context_flags_reflect_visibility_and_replace_mode() {
    let mut editor = search_editor("abc");
    let mut overlay = SearchOverlay::default();
    assert_eq!(overlay.context_flags(), (false, false));
    overlay.open(true, &mut editor);
    assert_eq!(overlay.context_flags(), (true, true));
    overlay.close();
    assert_eq!(overlay.context_flags(), (false, false));
}

#[test]
fn format_paste_record_hides_content() {
    assert_eq!(
        format_paste_record(42),
        vec!["paste (42 bytes)".to_string()]
    );
}

#[test]
fn is_close_key_matches_only_unmodified_esc() {
    assert!(is_close_key(&KeyEvent::plain(Key::Esc)));
    assert!(!is_close_key(&KeyEvent::new(Key::Esc, Modifiers::alt())));
    assert!(!is_close_key(&KeyEvent::plain(Key::Char('a'))));
}

#[test]
fn overlay_paste_record_hides_bytes_and_clears_pending_raw() {
    let mut overlay = InspectorOverlay::default();
    overlay.open();
    overlay.push_raw(b"\x1b[200~secret\x1b[201~");

    overlay.record_paste(6);

    assert_eq!(overlay.records.len(), 1);
    assert_eq!(overlay.records[0].raw, Vec::<u8>::new());
    assert_eq!(
        overlay.records[0].lines,
        vec!["paste (6 bytes)".to_string()]
    );
}

#[test]
fn warnings_overflowing_rows_end_in_an_explicit_more_marker() {
    let lines: Vec<String> = (0..30).map(|i| format!("warning {i}")).collect();
    let rows = body_rows(&lines, 72, 20);

    assert_eq!(rows.len(), 20);
    assert_eq!(rows[18], "warning 18");
    assert_eq!(rows[19], "… 11 more line(s)");
}

#[test]
fn warnings_multiline_warnings_split_before_wrapping() {
    let lines = vec!["config.toml: expected value\n  |\n3 | wrap =\n  |        ^".to_string()];
    let rows = body_rows(&lines, 72, 20);

    assert_eq!(rows.len(), 4);
    assert_eq!(rows[0], "config.toml: expected value");
    assert_eq!(rows[2], "3 | wrap =");
}

#[test]
fn warnings_wrap_row_splits_by_display_width_and_keeps_every_grapheme() {
    let rows = wrap_row(&"あ".repeat(10), 8);
    assert_eq!(rows, vec!["ああああ", "ああああ", "ああ"]);
    assert_eq!(rows.concat(), "あ".repeat(10), "no grapheme dropped");

    assert_eq!(wrap_row("", 8), vec![""], "empty line keeps one row");
}

#[test]
fn config_problems_always_open_even_when_environment_is_acknowledged() {
    let mut overlay = InfoOverlay::default();
    overlay.set_startup(
        vec!["config.toml: broken".to_string()],
        vec!["terminal: cannot query".to_string()],
        true,
    );
    assert!(overlay.visible, "config problems nag until fixed");
}

#[test]
fn acknowledged_environment_alone_stays_silent_but_info_show_reopens() {
    let mut overlay = InfoOverlay::default();
    overlay.set_startup(Vec::new(), vec!["terminal: cannot query".to_string()], true);
    assert!(!overlay.visible, "acknowledged facts do not nag");

    assert!(overlay.reopen(), "info.show shows the full panel anyway");
    assert_eq!(
        overlay.dismiss(),
        None,
        "re-dismissing an acknowledged section persists nothing"
    );
}

#[test]
fn first_dismissal_yields_the_environment_lines_exactly_once() {
    let mut overlay = InfoOverlay::default();
    let env = vec!["Ghostty intercepts 2 binding(s):".to_string()];
    overlay.set_startup(Vec::new(), env.clone(), false);
    assert!(overlay.visible);

    assert_eq!(overlay.dismiss(), Some(env), "first dismissal acknowledges");
    assert!(!overlay.visible);
    assert!(overlay.reopen());
    assert_eq!(overlay.dismiss(), None, "second dismissal is a no-op");
}

#[test]
fn info_overflowing_rows_end_in_an_explicit_more_marker() {
    let lines: Vec<String> = (0..30).map(|i| format!("warning {i}")).collect();
    let rows = visible_rows(wrapped_rows(&borrowed(&lines), 72), 0, 20);

    assert_eq!(rows.len(), 20);
    assert_eq!(rows[18], "warning 18");
    assert_eq!(rows[19], "… 11 more line(s)");
}

#[test]
fn scrolling_reaches_every_row_with_edge_markers() {
    let lines: Vec<String> = (0..30).map(|i| format!("warning {i}")).collect();
    let all = wrapped_rows(&borrowed(&lines), 72);

    let mid = visible_rows(all.clone(), 5, 20);
    assert_eq!(mid[0], "… 6 line(s) above");
    assert_eq!(mid[1], "warning 6");
    assert_eq!(mid[19], "… 6 more line(s)");

    let end = visible_rows(all, 999, 20);
    assert_eq!(end[19], "warning 29", "last row readable at max scroll");
    assert_eq!(end[0], "… 11 line(s) above");
}

#[test]
fn tiny_row_budget_skips_markers_so_content_stays_reachable() {
    let lines: Vec<String> = (0..4).map(|i| format!("w{i}")).collect();
    let all = wrapped_rows(&borrowed(&lines), 72);

    assert_eq!(visible_rows(all.clone(), 0, 1), vec!["w0"]);
    assert_eq!(visible_rows(all, 3, 1), vec!["w3"]);
}

#[test]
fn info_multiline_warnings_split_before_wrapping() {
    let lines = vec!["config.toml: expected value\n  |\n3 | wrap =\n  |        ^".to_string()];
    let rows = wrapped_rows(&borrowed(&lines), 72);

    assert_eq!(rows.len(), 4);
    assert_eq!(rows[0], "config.toml: expected value");
    assert_eq!(rows[2], "3 | wrap =");
}

#[test]
fn info_wrap_row_splits_by_display_width_and_keeps_every_grapheme() {
    let rows = wrap_row(&"あ".repeat(10), 8);
    assert_eq!(rows, vec!["ああああ", "ああああ", "ああ"]);
    assert_eq!(rows.concat(), "あ".repeat(10), "no grapheme dropped");

    assert_eq!(wrap_row("", 8), vec![""], "empty line keeps one row");
}

#[test]
fn wrap_segments_split_by_display_width() {
    type Case = (&'static str, usize, &'static [(usize, usize)]);
    let cases: &[Case] = &[
        ("", 4, &[(0, 0)]),
        ("abcd", 4, &[(0, 4)]),
        ("abcde", 4, &[(0, 4), (4, 5)]),
        ("abcdefghij", 4, &[(0, 4), (4, 8), (8, 10)]),
        ("あいうえお", 4, &[(0, 2), (2, 4), (4, 5)]),
        ("aあいb", 4, &[(0, 2), (2, 4)]),
        ("🙂🙂🙂", 4, &[(0, 2), (2, 3)]),
        ("\tab", 4, &[(0, 1), (1, 3)]),
        ("あ", 1, &[(0, 1)]),
    ];
    for (line, cols, expected) in cases {
        assert_eq!(
            wrap_segments(line, *cols),
            *expected,
            "line={line:?} cols={cols}"
        );
    }
}

#[test]
fn cursor_visual_position_maps_grapheme_to_segment_and_x() {
    let cases: &[(usize, (usize, usize))] = &[
        (0, (0, 0)),
        (3, (0, 3)),
        (4, (1, 0)),
        (7, (1, 3)),
        (8, (2, 0)),
        (10, (2, 2)),
    ];
    for (grapheme, expected) in cases {
        assert_eq!(
            cursor_visual_position("abcdefghij", *grapheme, 4),
            *expected,
            "grapheme={grapheme}"
        );
    }
}

#[test]
fn parse_inspect_key_subcommand() {
    assert_eq!(Command::parse(args(&["inspect-key"])), Command::InspectKey);
}

#[test]
fn parse_no_args_as_open_without_paths() {
    assert_eq!(
        Command::parse(args(&[])),
        Command::OpenFiles {
            paths: vec![],
            line: None,
        }
    );
}

#[test]
fn parse_help_flags_as_help_command() {
    assert_eq!(Command::parse(args(&["--help"])), Command::Help);
    assert_eq!(Command::parse(args(&["-h"])), Command::Help);
}

#[test]
fn parse_version_flags_as_version_command() {
    assert_eq!(Command::parse(args(&["--version"])), Command::Version);
    assert_eq!(Command::parse(args(&["-V"])), Command::Version);
}

#[test]
fn parse_paths_as_editor_open() {
    assert_eq!(
        Command::parse(args(&["a.txt", "b.txt"])),
        Command::OpenFiles {
            paths: args(&["a.txt", "b.txt"]),
            line: None,
        }
    );
}

#[test]
fn parse_plus_line_argument_table_driven() {
    let cases: &[(&[&str], &[&str], Option<usize>)] = &[
        (&["+10", "a.txt"], &["a.txt"], Some(10)),
        (&["a.txt", "+10"], &["a.txt"], Some(10)),
        (&["+10"], &[], Some(10)),
        (&["+5", "--", "+10"], &["+10"], Some(5)),
        (&["--", "+10"], &["+10"], None),
        (&["--"], &[], None),
    ];

    for (values, expected_paths, expected_line) in cases {
        assert_eq!(
            Command::parse(args(values)),
            Command::OpenFiles {
                paths: args(expected_paths),
                line: *expected_line,
            },
            "{values:?}"
        );
    }
}

#[test]
fn parse_plus_line_rejects_malformed_and_duplicate() {
    let cases: &[&[&str]] = &[
        &["+0", "a.txt"],
        &["+abc", "a.txt"],
        &["+", "a.txt"],
        &["+1", "+2", "a.txt"],
    ];

    for values in cases {
        assert!(
            matches!(Command::parse(args(values)), Command::InvalidUsage(_)),
            "{values:?}"
        );
    }
}

#[test]
fn parse_keymap_verify_subcommand() {
    assert_eq!(
        Command::parse(args(&["keymap", "verify"])),
        Command::KeymapVerify
    );
    assert!(matches!(
        Command::parse(args(&["keymap", "verify", "--fast"])),
        Command::InvalidUsage(_)
    ));
}

#[test]
fn parse_vscode_import_subcommand() {
    assert_eq!(
        Command::parse(args(&[
            "keymap",
            "import",
            "vscode",
            "keys.json",
            "--dry-run",
            "--replace",
            "--print-report",
        ])),
        Command::KeymapImportVscode(ImportOptions {
            path: b"keys.json".to_vec(),
            dry_run: true,
            print_report: true,
            cmd: CmdStrategy::Keep,
        })
    );
}

#[test]
fn parse_cmd_flag_values_table_driven() {
    let cases: &[(Option<&str>, CmdStrategy)] = &[
        (None, CmdStrategy::Keep),
        (Some("--cmd=keep"), CmdStrategy::Keep),
        (Some("--cmd=ctrl"), CmdStrategy::Ctrl),
        (Some("--cmd=both"), CmdStrategy::Both),
    ];

    for (flag, expected) in cases {
        let mut values = args(&["keymap", "import", "vscode", "keys.json"]);
        if let Some(flag) = flag {
            values.push(flag.as_bytes().to_vec());
        }

        assert_eq!(
            Command::parse(values),
            Command::KeymapImportVscode(ImportOptions {
                path: b"keys.json".to_vec(),
                dry_run: false,
                print_report: false,
                cmd: *expected,
            }),
            "{flag:?}"
        );
    }
}

#[test]
fn parse_cmd_flag_rejects_invalid_value() {
    let result = Command::parse(args(&["keymap", "import", "vscode", "keys.json", "--cmd=meta"]));
    match result {
        Command::InvalidUsage(message) => {
            assert!(message.contains("--cmd"), "{message}");
            assert!(message.contains("meta"), "{message}");
        }
        other => panic!("expected InvalidUsage, got {other:?}"),
    }
}

#[test]
fn parse_cmd_flag_rejects_missing_value() {
    let result = Command::parse(args(&["keymap", "import", "vscode", "keys.json", "--cmd"]));
    match result {
        Command::InvalidUsage(message) => {
            assert!(message.contains("--cmd"), "{message}");
        }
        other => panic!("expected InvalidUsage, got {other:?}"),
    }
}

#[test]
fn unnamed_document_has_no_name_and_reports_no_path_on_save() {
    let mut document = Document::unnamed();

    assert_eq!(document.display_name(), "[No Name]");
    assert!(!document.is_modified());

    document.editor.insert_text("draft");
    let error = document.save_check(false, None).unwrap_err();

    assert!(matches!(error, SaveError::NoPath));
    assert_eq!(error.message(), "save as: no path set");
}

