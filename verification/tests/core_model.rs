use coda::model::buffer::{LineEnding, LoadError, TextBuffer};
use coda::model::editor::{EditorCore, Motion};
use coda::model::movement::{down, left, right, up, word_left, word_right};
use coda::model::position::Position;
use coda::model::search::{find_matches, next_match_from, previous_match_from};
use coda::model::selection::Selection;

fn buffer(text: &str) -> TextBuffer {
    TextBuffer::from_bytes(text.as_bytes()).unwrap().0
}

fn editor(text: &str) -> EditorCore {
    EditorCore::new(TextBuffer::from_bytes(text.as_bytes()).unwrap().0)
}

fn text(editor: &EditorCore) -> String {
    String::from_utf8(editor.buffer.to_bytes()).unwrap()
}

#[test]
fn round_trip_preserves_loaded_bytes() {
    let cases: &[(&str, &[u8])] = &[
        ("lf with trailing newline", b"alpha\nbeta\n"),
        ("lf without trailing newline", b"alpha\nbeta"),
        ("crlf with trailing newline", b"alpha\r\nbeta\r\n"),
        ("empty file", b""),
        ("unicode graphemes", "日本語\n👨‍👩‍👧‍👦 café\n".as_bytes()),
    ];

    for (name, input) in cases {
        let (buffer, _info) = TextBuffer::from_bytes(input).unwrap_or_else(|error| {
            panic!("case {name:?} should load successfully, got {error:?}")
        });
        assert_eq!(buffer.to_bytes(), *input, "case {name}");
    }
}

#[test]
fn load_reports_mixed_line_endings_and_rejects_invalid_utf8() {
    enum Expected {
        Loaded {
            line_ending: LineEnding,
            mixed_line_endings: bool,
        },
        Error(LoadError),
    }

    let cases: &[(&str, &[u8], Expected)] = &[
        (
            "crlf majority with lf minority",
            b"a\r\nb\r\nc\n",
            Expected::Loaded {
                line_ending: LineEnding::CrLf,
                mixed_line_endings: true,
            },
        ),
        (
            "invalid utf8",
            &[0xff, 0xfe, b'a'],
            Expected::Error(LoadError::InvalidUtf8),
        ),
    ];

    for (name, input, expected) in cases {
        match expected {
            Expected::Loaded {
                line_ending,
                mixed_line_endings,
            } => {
                let (buffer, info) = TextBuffer::from_bytes(input).unwrap_or_else(|error| {
                    panic!("case {name:?} should load successfully, got {error:?}")
                });
                assert_eq!(buffer.line_ending(), *line_ending, "case {name}");
                assert_eq!(info.mixed_line_endings, *mixed_line_endings, "case {name}");
            }
            Expected::Error(error) => {
                assert_eq!(TextBuffer::from_bytes(input), Err(*error), "case {name}");
            }
        }
    }
}

#[test]
fn editing_operations_are_grapheme_based_and_round_trippable() {
    enum EditCase {
        Insert {
            initial: &'static [u8],
            pos: Position,
            text: &'static str,
            expected_lines: Vec<&'static str>,
            expected_cursor: Position,
        },
        Delete {
            initial: &'static [u8],
            start: Position,
            end: Position,
            expected_deleted: &'static str,
            expected_lines: Vec<&'static str>,
        },
        DeleteThenInsertUndo {
            initial: &'static [u8],
            start: Position,
            end: Position,
        },
        Clamp {
            initial: &'static [u8],
            pos: Position,
            expected: Position,
        },
    }

    let cases = vec![
        (
            "ascii insert",
            EditCase::Insert {
                initial: b"abc",
                pos: Position::new(0, 1),
                text: "XY",
                expected_lines: vec!["aXYbc"],
                expected_cursor: Position::new(0, 3),
            },
        ),
        (
            "ascii delete",
            EditCase::Delete {
                initial: b"aXYbc",
                start: Position::new(0, 1),
                end: Position::new(0, 3),
                expected_deleted: "XY",
                expected_lines: vec!["abc"],
            },
        ),
        (
            "insert between unicode graphemes",
            EditCase::Insert {
                initial: "あa👍".as_bytes(),
                pos: Position::new(0, 1),
                text: "Z",
                expected_lines: vec!["あZa👍"],
                expected_cursor: Position::new(0, 2),
            },
        ),
        (
            "delete zwj emoji as one grapheme",
            EditCase::Delete {
                initial: "a👨‍👩‍👧‍👦b".as_bytes(),
                start: Position::new(0, 1),
                end: Position::new(0, 2),
                expected_deleted: "👨‍👩‍👧‍👦",
                expected_lines: vec!["ab"],
            },
        ),
        (
            "insert text containing newlines splits lines",
            EditCase::Insert {
                initial: b"abcd",
                pos: Position::new(0, 2),
                text: "X\nY\nZ",
                expected_lines: vec!["abX", "Y", "Zcd"],
                expected_cursor: Position::new(2, 1),
            },
        ),
        (
            "delete across lines joins remainder",
            EditCase::Delete {
                initial: b"alpha\nbeta\ngamma",
                start: Position::new(0, 2),
                end: Position::new(2, 2),
                expected_deleted: "pha\nbeta\nga",
                expected_lines: vec!["almma"],
            },
        ),
        (
            "delete then insert restores original logical text",
            EditCase::DeleteThenInsertUndo {
                initial: b"alpha\nbeta\ngamma",
                start: Position::new(0, 2),
                end: Position::new(2, 2),
            },
        ),
        (
            "clamp position past line end and last line",
            EditCase::Clamp {
                initial: "a\nあ👍".as_bytes(),
                pos: Position::new(99, 99),
                expected: Position::new(1, 2),
            },
        ),
    ];

    for (name, case) in cases {
        match case {
            EditCase::Insert {
                initial,
                pos,
                text,
                expected_lines,
                expected_cursor,
            } => {
                let (mut buffer, _info) = TextBuffer::from_bytes(initial).unwrap();
                let cursor = buffer.insert(pos, text);
                assert_eq!(cursor, expected_cursor, "case {name}");
                assert_lines(&buffer, &expected_lines, name);
            }
            EditCase::Delete {
                initial,
                start,
                end,
                expected_deleted,
                expected_lines,
            } => {
                let (mut buffer, _info) = TextBuffer::from_bytes(initial).unwrap();
                let deleted = buffer.delete_range(start, end);
                assert_eq!(deleted, expected_deleted, "case {name}");
                assert_lines(&buffer, &expected_lines, name);
            }
            EditCase::DeleteThenInsertUndo {
                initial,
                start,
                end,
            } => {
                let (mut buffer, _info) = TextBuffer::from_bytes(initial).unwrap();
                let before = buffer.clone();
                let deleted = buffer.delete_range(start, end);
                let cursor = buffer.insert(start, &deleted);
                assert_eq!(buffer, before, "case {name}");
                assert_eq!(cursor, end, "case {name}");
            }
            EditCase::Clamp {
                initial,
                pos,
                expected,
            } => {
                let (buffer, _info) = TextBuffer::from_bytes(initial).unwrap();
                assert_eq!(buffer.clamp_position(pos), expected, "case {name}");
            }
        }
    }
}

fn assert_lines(buffer: &TextBuffer, expected: &[&str], case_name: &str) {
    let actual = (0..buffer.line_count())
        .map(|index| buffer.line(index).expect("line should exist"))
        .collect::<Vec<_>>();
    assert_eq!(actual, expected, "case {case_name}");
}

#[test]
fn horizontal_edges_cross_lines_and_clamp_at_buffer_edges() {
    enum Case {
        Left(Position, Position),
        Right(Position, Position),
    }
    let buffer = buffer("ab\nc");
    let cases = [
        (
            "left at buffer start",
            Case::Left(Position::new(0, 0), Position::new(0, 0)),
        ),
        (
            "left crosses line",
            Case::Left(Position::new(1, 0), Position::new(0, 2)),
        ),
        (
            "right crosses line",
            Case::Right(Position::new(0, 2), Position::new(1, 0)),
        ),
        (
            "right at buffer end",
            Case::Right(Position::new(1, 1), Position::new(1, 1)),
        ),
    ];

    for (name, case) in cases {
        let actual = match case {
            Case::Left(pos, _) => left(&buffer, pos),
            Case::Right(pos, _) => right(&buffer, pos),
        };
        let expected = match case {
            Case::Left(_, expected) | Case::Right(_, expected) => expected,
        };
        assert_eq!(actual, expected, "case {name}");
    }
}

#[test]
fn vertical_movement_preserves_preferred_grapheme_across_short_lines() {
    let buffer = buffer("abcdef\nx\nabcdef");
    let cases = [
        (
            "down clamps to short line",
            Position::new(0, 5),
            Position::new(1, 1),
        ),
        (
            "down restores on long line",
            Position::new(1, 1),
            Position::new(2, 5),
        ),
        (
            "up restores on long line",
            Position::new(1, 1),
            Position::new(0, 5),
        ),
    ];

    for (name, input, expected) in cases {
        let actual = if name.starts_with("up") {
            up(&buffer, input, 5)
        } else {
            down(&buffer, input, 5)
        };
        assert_eq!(actual, expected, "case {name}");
    }
}

#[test]
fn word_right_moves_to_word_ends_and_across_line_end() {
    let buffer = buffer("foo  bar\nbaz");
    let cases = [
        ("first word end", Position::new(0, 0), Position::new(0, 3)),
        ("second word end", Position::new(0, 3), Position::new(0, 8)),
        (
            "line end to next line start",
            Position::new(0, 8),
            Position::new(1, 0),
        ),
    ];

    for (name, input, expected) in cases {
        assert_eq!(word_right(&buffer, input), expected, "case {name}");
    }
}

#[test]
fn word_left_moves_to_word_starts_and_across_line_start() {
    let buffer = buffer("foo\nfoo  bar");
    let cases = [
        (
            "second word start",
            Position::new(1, 8),
            Position::new(1, 5),
        ),
        (
            "mid-word to its own start, not the previous word",
            Position::new(1, 7),
            Position::new(1, 5),
        ),
        ("first word start", Position::new(1, 5), Position::new(1, 0)),
        (
            "line start to previous line end",
            Position::new(1, 0),
            Position::new(0, 3),
        ),
    ];

    for (name, input, expected) in cases {
        assert_eq!(word_left(&buffer, input), expected, "case {name}");
    }
}

#[test]
fn japanese_word_right_is_monotonic_and_does_not_panic() {
    let buffer = buffer("これはtestです");
    let mut pos = Position::new(0, 0);
    let mut seen = vec![pos];

    for _ in 0..10 {
        let next = word_right(&buffer, pos);
        assert!(next >= pos, "word_right must be monotonic");
        seen.push(next);
        if next == pos {
            break;
        }
        pos = next;
    }

    assert_eq!(
        seen.last().copied(),
        Some(Position::new(0, buffer.grapheme_count(0)))
    );
}

#[test]
fn overlapping_candidates_yield_non_overlapping_matches() {
    let (buffer, _) = TextBuffer::from_bytes(b"aaa").unwrap();
    let matches = find_matches(&buffer, "aa", true);
    assert_eq!(
        matches,
        vec![(Position::new(0, 0), Position::new(0, 2))]
    );
}


#[test]
fn finds_multiple_matches_across_lines_in_grapheme_positions() {
    let matches = find_matches(&buffer("one two one\none"), "one", true);
    assert_eq!(
        matches,
        vec![
            (Position::new(0, 0), Position::new(0, 3)),
            (Position::new(0, 8), Position::new(0, 11)),
            (Position::new(1, 0), Position::new(1, 3)),
        ]
    );
}

#[test]
fn case_sensitivity_changes_match_count() {
    let buffer = buffer("Foo foo");
    assert_eq!(find_matches(&buffer, "foo", true).len(), 1);
    assert_eq!(find_matches(&buffer, "foo", false).len(), 2);
}

#[test]
fn unicode_grapheme_positions_do_not_split_clusters() {
    let buffer = buffer("あ👍あ\nが が");
    assert_eq!(
        find_matches(&buffer, "👍", true),
        vec![(Position::new(0, 1), Position::new(0, 2))]
    );
    assert!(
        find_matches(&buffer, "か", true).is_empty(),
        "a decomposed voiced kana grapheme must not be split"
    );
}

#[test]
fn next_and_previous_wrap_around() {
    let matches = find_matches(&buffer("a b a"), "a", true);
    assert_eq!(next_match_from(&matches, Position::new(0, 1)), Some(1));
    assert_eq!(next_match_from(&matches, Position::new(0, 5)), Some(0));
    assert_eq!(previous_match_from(&matches, Position::new(0, 4)), Some(0));
    assert_eq!(previous_match_from(&matches, Position::new(0, 0)), Some(1));
}

#[test]
fn extending_selection_keeps_anchor_and_normalizes_range() {
    let mut cases = [
        (
            "forward",
            Position::new(0, 1),
            Motion::Right,
            (Position::new(0, 1), Position::new(0, 2)),
        ),
        (
            "reverse",
            Position::new(0, 1),
            Motion::Left,
            (Position::new(0, 0), Position::new(0, 1)),
        ),
    ];

    for (name, cursor, motion, expected_range) in &mut cases {
        let mut editor = editor("abc");
        editor.cursor = *cursor;
        editor.move_cursor(*motion, true);
        assert_eq!(editor.selection.unwrap().anchor, *cursor, "case {name}");
        assert_eq!(
            editor.selection.unwrap().range(),
            *expected_range,
            "case {name}"
        );
    }
}

#[test]
fn non_extending_left_right_collapse_selection_to_range_edges() {
    let cases = [
        ("left collapses to start", Motion::Left, Position::new(0, 1)),
        ("right collapses to end", Motion::Right, Position::new(0, 3)),
    ];

    for (name, motion, expected) in cases {
        let mut editor = editor("abcd");
        editor.selection = Some(Selection::new(Position::new(0, 3), Position::new(0, 1)));
        editor.cursor = Position::new(0, 1);
        editor.move_cursor(motion, false);
        assert_eq!(editor.cursor, expected, "case {name}");
        assert!(editor.selection.is_none(), "case {name}");
    }
}

#[test]
fn editing_and_undo_are_table_driven() {
    enum Case {
        ConsecutiveInsertOneUndo,
        NewlineBreaksGroup,
        ConsecutiveBackspaceOneUndo,
        SelectionReplacementAtomic,
        UndoRedoRoundTrip,
        NewEditClearsRedo,
        BackspaceAtLineStartRoundTrip,
        DeleteLineKeepsFinalEmptyLine,
        DeleteLastLineRemovesItEntirely,
        DeleteWordLeft,
    }

    let cases = [
        ("consecutive insert groups", Case::ConsecutiveInsertOneUndo),
        ("newline breaks group", Case::NewlineBreaksGroup),
        (
            "consecutive backspace groups",
            Case::ConsecutiveBackspaceOneUndo,
        ),
        (
            "selection replacement atomic",
            Case::SelectionReplacementAtomic,
        ),
        ("undo redo round trip", Case::UndoRedoRoundTrip),
        ("new edit clears redo", Case::NewEditClearsRedo),
        (
            "backspace line join undo",
            Case::BackspaceAtLineStartRoundTrip,
        ),
        (
            "delete_line final empty",
            Case::DeleteLineKeepsFinalEmptyLine,
        ),
        (
            "delete_line last line removed",
            Case::DeleteLastLineRemovesItEntirely,
        ),
        ("delete_word_left foo bar", Case::DeleteWordLeft),
    ];

    for (name, case) in cases {
        match case {
            Case::ConsecutiveInsertOneUndo => {
                let mut editor = editor("");
                editor.insert_text("a");
                editor.insert_text("b");
                editor.insert_text("c");
                assert_eq!(text(&editor), "abc", "case {name}");
                assert!(editor.undo(), "case {name}");
                assert_eq!(text(&editor), "", "case {name}");
                assert_eq!(editor.cursor, Position::new(0, 0), "case {name}");
            }
            Case::NewlineBreaksGroup => {
                let mut editor = editor("");
                editor.insert_text("a");
                editor.insert_text("\n");
                editor.insert_text("b");
                assert!(editor.undo(), "case {name}");
                assert_eq!(text(&editor), "a\n", "case {name}");
            }
            Case::ConsecutiveBackspaceOneUndo => {
                let mut editor = editor("abc");
                editor.cursor = Position::new(0, 3);
                editor.backspace();
                editor.backspace();
                editor.backspace();
                assert_eq!(text(&editor), "", "case {name}");
                assert!(editor.undo(), "case {name}");
                assert_eq!(text(&editor), "abc", "case {name}");
                assert_eq!(editor.cursor, Position::new(0, 3), "case {name}");
            }
            Case::SelectionReplacementAtomic => {
                let mut editor = editor("abc");
                editor.selection =
                    Some(Selection::new(Position::new(0, 1), Position::new(0, 2)));
                editor.cursor = Position::new(0, 2);
                editor.insert_text("X");
                assert_eq!(text(&editor), "aXc", "case {name}");
                assert!(editor.undo(), "case {name}");
                assert_eq!(text(&editor), "abc", "case {name}");
                assert_eq!(editor.cursor, Position::new(0, 2), "case {name}");
            }
            Case::UndoRedoRoundTrip => {
                let mut editor = editor("a");
                editor.cursor = Position::new(0, 1);
                editor.insert_text("b");
                let after = (text(&editor), editor.cursor);
                assert!(editor.undo(), "case {name}");
                assert_eq!(
                    (text(&editor), editor.cursor),
                    ("a".to_string(), Position::new(0, 1)),
                    "case {name}"
                );
                assert!(editor.redo(), "case {name}");
                assert_eq!((text(&editor), editor.cursor), after, "case {name}");
            }
            Case::NewEditClearsRedo => {
                let mut editor = editor("");
                editor.insert_text("a");
                assert!(editor.undo(), "case {name}");
                editor.insert_text("b");
                assert!(!editor.redo(), "case {name}");
                assert_eq!(text(&editor), "b", "case {name}");
            }
            Case::BackspaceAtLineStartRoundTrip => {
                let mut editor = editor("a\nb");
                editor.cursor = Position::new(1, 0);
                editor.backspace();
                assert_eq!(text(&editor), "ab", "case {name}");
                assert_eq!(editor.cursor, Position::new(0, 1), "case {name}");
                assert!(editor.undo(), "case {name}");
                assert_eq!(text(&editor), "a\nb", "case {name}");
                assert_eq!(editor.cursor, Position::new(1, 0), "case {name}");
            }
            Case::DeleteLineKeepsFinalEmptyLine => {
                let mut editor = editor("abc");
                editor.cursor = Position::new(0, 1);
                editor.delete_line();
                assert_eq!(editor.buffer.line_count(), 1, "case {name}");
                assert_eq!(text(&editor), "", "case {name}");
            }
            Case::DeleteLastLineRemovesItEntirely => {
                let mut editor = editor("a\nb\nc");
                editor.cursor = Position::new(2, 1);
                editor.delete_line();
                assert_eq!(text(&editor), "a\nb", "case {name}");
                assert_eq!(editor.cursor, Position::new(1, 0), "case {name}");
                assert!(editor.undo(), "case {name}");
                assert_eq!(text(&editor), "a\nb\nc", "case {name}");
            }
            Case::DeleteWordLeft => {
                let mut editor = editor("foo bar");
                editor.cursor = Position::new(0, 7);
                editor.delete_word_left();
                assert_eq!(text(&editor), "foo ", "case {name}");
                assert_eq!(editor.cursor, Position::new(0, 4), "case {name}");
            }
        }
    }
}

#[test]
fn line_actions_are_table_driven() {
    enum Case {
        MoveDownMiddle,
        MoveUpMiddle,
        MoveSelectionBlockDown,
        MoveAtEdgesNoop,
        MoveAcrossFinalLine,
        InsertLineAfter,
        InsertLineBefore,
        DeleteToLineStart,
        DeleteToLineStartAtStartNoop,
    }

    let cases = [
        ("move down middle", Case::MoveDownMiddle),
        ("move up middle", Case::MoveUpMiddle),
        ("move selected block down", Case::MoveSelectionBlockDown),
        ("move at edges noop", Case::MoveAtEdgesNoop),
        ("move across final line", Case::MoveAcrossFinalLine),
        ("insert line after", Case::InsertLineAfter),
        ("insert line before", Case::InsertLineBefore),
        ("delete to line start", Case::DeleteToLineStart),
        (
            "delete to line start at start noop",
            Case::DeleteToLineStartAtStartNoop,
        ),
    ];

    for (name, case) in cases {
        match case {
            Case::MoveDownMiddle => {
                let mut editor = editor("a\nb\nc");
                editor.cursor = Position::new(1, 1);
                editor.move_lines_down();
                assert_eq!(text(&editor), "a\nc\nb", "case {name}");
                assert_eq!(editor.cursor, Position::new(2, 1), "case {name}");
                assert!(editor.undo(), "case {name}");
                assert_eq!(text(&editor), "a\nb\nc", "case {name}");
                assert_eq!(editor.cursor, Position::new(1, 1), "case {name}");
                assert!(editor.redo(), "case {name}");
                assert_eq!(text(&editor), "a\nc\nb", "case {name}");
            }
            Case::MoveUpMiddle => {
                let mut editor = editor("a\nb\nc");
                editor.cursor = Position::new(1, 0);
                editor.move_lines_up();
                assert_eq!(text(&editor), "b\na\nc", "case {name}");
                assert_eq!(editor.cursor, Position::new(0, 0), "case {name}");
                assert!(editor.undo(), "case {name}");
                assert_eq!(text(&editor), "a\nb\nc", "case {name}");
                assert_eq!(editor.cursor, Position::new(1, 0), "case {name}");
            }
            Case::MoveSelectionBlockDown => {
                let mut editor = editor("a\nb\nc\nd");
                editor.selection =
                    Some(Selection::new(Position::new(1, 0), Position::new(2, 1)));
                editor.cursor = Position::new(2, 1);
                editor.move_lines_down();
                assert_eq!(text(&editor), "a\nd\nb\nc", "case {name}");
                assert_eq!(
                    editor.selection.unwrap(),
                    Selection::new(Position::new(2, 0), Position::new(3, 1)),
                    "case {name}"
                );
                assert!(editor.undo(), "case {name}");
                assert_eq!(text(&editor), "a\nb\nc\nd", "case {name}");
                assert_eq!(
                    editor.selection.unwrap(),
                    Selection::new(Position::new(1, 0), Position::new(2, 1)),
                    "case {name}"
                );
            }
            Case::MoveAtEdgesNoop => {
                let mut editor = editor("a\nb");
                editor.cursor = Position::new(0, 0);
                editor.move_lines_up();
                assert_eq!(text(&editor), "a\nb", "case {name}");
                assert!(!editor.undo(), "case {name}");
                editor.cursor = Position::new(1, 0);
                editor.move_lines_down();
                assert_eq!(text(&editor), "a\nb", "case {name}");
                assert!(!editor.undo(), "case {name}");
            }
            Case::MoveAcrossFinalLine => {
                let mut editor = editor("a\nb\nc");
                editor.cursor = Position::new(2, 0);
                editor.move_lines_up();
                assert_eq!(text(&editor), "a\nc\nb", "case {name}");
                assert_eq!(editor.buffer.line_count(), 3, "case {name}");
                editor.cursor = Position::new(1, 0);
                editor.move_lines_down();
                assert_eq!(text(&editor), "a\nb\nc", "case {name}");
                assert_eq!(editor.buffer.line_count(), 3, "case {name}");
            }
            Case::InsertLineAfter => {
                let mut editor = editor("a\nb");
                editor.cursor = Position::new(0, 1);
                editor.insert_line_after();
                assert_eq!(text(&editor), "a\n\nb", "case {name}");
                assert_eq!(editor.cursor, Position::new(1, 0), "case {name}");
                assert!(editor.undo(), "case {name}");
                assert_eq!(text(&editor), "a\nb", "case {name}");
                assert_eq!(editor.cursor, Position::new(0, 1), "case {name}");
            }
            Case::InsertLineBefore => {
                let mut editor = editor("a\nb");
                editor.cursor = Position::new(1, 1);
                editor.insert_line_before();
                assert_eq!(text(&editor), "a\n\nb", "case {name}");
                assert_eq!(editor.cursor, Position::new(1, 0), "case {name}");
                assert!(editor.undo(), "case {name}");
                assert_eq!(text(&editor), "a\nb", "case {name}");
                assert_eq!(editor.cursor, Position::new(1, 1), "case {name}");
            }
            Case::DeleteToLineStart => {
                let mut editor = editor("abc");
                editor.cursor = Position::new(0, 2);
                editor.delete_to_line_start();
                assert_eq!(text(&editor), "c", "case {name}");
                assert_eq!(editor.cursor, Position::new(0, 0), "case {name}");
                assert!(editor.undo(), "case {name}");
                assert_eq!(text(&editor), "abc", "case {name}");
                assert_eq!(editor.cursor, Position::new(0, 2), "case {name}");
            }
            Case::DeleteToLineStartAtStartNoop => {
                let mut editor = editor("abc");
                editor.cursor = Position::new(0, 0);
                editor.delete_to_line_start();
                assert_eq!(text(&editor), "abc", "case {name}");
                assert!(!editor.undo(), "case {name}");
            }
        }
    }
}

/// `indent`/`outdent` table-driven over
/// multi-line selections, an unindented no-op, and mixed tab/space
/// content, each asserting the whole block undoes in a single call.
#[test]
fn indent_and_outdent_are_table_driven() {
    enum Case {
        IndentMultiLineSelection,
        OutdentNoLeadingWhitespaceIsNoop,
        OutdentMixedTabsAndSpaces,
    }

    let cases = [
        (
            "indent multi-line selection",
            Case::IndentMultiLineSelection,
        ),
        (
            "outdent no leading whitespace is a no-op",
            Case::OutdentNoLeadingWhitespaceIsNoop,
        ),
        (
            "outdent mixed tabs and spaces",
            Case::OutdentMixedTabsAndSpaces,
        ),
    ];

    for (name, case) in cases {
        match case {
            Case::IndentMultiLineSelection => {
                let mut editor = editor("foo\nbar\nbaz");
                let selection_before = Selection::new(Position::new(0, 0), Position::new(1, 3));
                editor.selection = Some(selection_before);
                editor.cursor = Position::new(1, 3);

                editor.indent();

                assert_eq!(text(&editor), "    foo\n    bar\nbaz", "case {name}");
                assert_eq!(editor.cursor, Position::new(1, 7), "case {name}");
                assert_eq!(
                    editor.selection,
                    Some(Selection::new(Position::new(0, 4), Position::new(1, 7))),
                    "case {name}"
                );

                assert!(editor.undo(), "case {name}: one undo call must revert");
                assert_eq!(text(&editor), "foo\nbar\nbaz", "case {name}");
                assert_eq!(editor.cursor, Position::new(1, 3), "case {name}");
                assert_eq!(editor.selection, Some(selection_before), "case {name}");
            }
            Case::OutdentNoLeadingWhitespaceIsNoop => {
                let mut editor = editor("foo\nbar");
                editor.cursor = Position::new(0, 1);

                editor.outdent();

                assert_eq!(text(&editor), "foo\nbar", "case {name}");
                assert!(
                    !editor.undo(),
                    "case {name}: a no-op edit must not push an undo group"
                );
            }
            Case::OutdentMixedTabsAndSpaces => {
                let mut editor = editor("\tfoo\n  bar\n    baz");
                let selection_before = Selection::new(Position::new(0, 0), Position::new(2, 7));
                editor.selection = Some(selection_before);
                editor.cursor = Position::new(2, 7);

                editor.outdent();

                // One leading tab, two of four leading spaces, and a full
                // four leading spaces are each removed as a single level
                // (whichever is actually present on that line).
                assert_eq!(text(&editor), "foo\nbar\nbaz", "case {name}");
                assert_eq!(editor.cursor, Position::new(2, 3), "case {name}");
                assert_eq!(
                    editor.selection,
                    Some(Selection::new(Position::new(0, 0), Position::new(2, 3))),
                    "case {name}"
                );

                assert!(editor.undo(), "case {name}: one undo call must revert");
                assert_eq!(text(&editor), "\tfoo\n  bar\n    baz", "case {name}");
                assert_eq!(editor.cursor, Position::new(2, 7), "case {name}");
                assert_eq!(editor.selection, Some(selection_before), "case {name}");
            }
        }
    }
}

#[test]
fn copy_text_selection_line_and_empty_buffer_cases() {
    let mut selected = editor("abc\ndef");
    selected.select_range(Position::new(0, 1), Position::new(1, 2));
    assert_eq!(selected.copy_text(), Some("bc\nde".to_string()));

    let mut line = editor("abc\ndef");
    line.cursor = Position::new(1, 1);
    assert_eq!(line.copy_text(), Some("def\n".to_string()));

    let empty = editor("");
    assert_eq!(empty.copy_text(), Some("\n".to_string()));
}

#[test]
fn cut_selection_and_line_delete_are_single_undo_groups() {
    let mut selected = editor("abc\ndef");
    selected.select_range(Position::new(0, 1), Position::new(1, 2));
    assert_eq!(selected.cut(), Some("bc\nde".to_string()));
    assert_eq!(text(&selected), "af");
    assert!(selected.undo());
    assert_eq!(text(&selected), "abc\ndef");

    let mut line = editor("abc\ndef\nghi");
    line.cursor = Position::new(1, 1);
    assert_eq!(line.cut(), Some("def\n".to_string()));
    assert_eq!(text(&line), "abc\nghi");
    assert!(line.undo());
    assert_eq!(text(&line), "abc\ndef\nghi");
}

#[test]
fn replace_ranges_applies_back_to_front_and_undos_once() {
    let mut editor = editor("foo foo\nfoo");
    editor.cursor = Position::new(1, 3);
    editor.selection = Some(Selection::new(Position::new(0, 0), Position::new(0, 3)));

    editor.replace_ranges(&[
        (Position::new(0, 0), Position::new(0, 3), "bar"),
        (Position::new(0, 4), Position::new(0, 7), "bazzz"),
        (Position::new(1, 0), Position::new(1, 3), "qux"),
    ]);

    assert_eq!(text(&editor), "bar bazzz\nqux");
    assert!(editor.selection.is_none());
    assert!(editor.undo(), "all replacements are one undo group");
    assert_eq!(text(&editor), "foo foo\nfoo");
    assert_eq!(editor.cursor, Position::new(1, 3));
    assert_eq!(
        editor.selection,
        Some(Selection::new(Position::new(0, 0), Position::new(0, 3)))
    );
}
