use coda::key::{Key, KeyEvent, Modifiers};
use coda::overlay::palette_box::TextStyle;
use coda::overlay::which_key::{which_key_box, which_key_lines, MAX_CANDIDATE_ROWS};
use coda::verify::{key_text, ChordOutcome, FeedResult, VerifyBinding, VerifySession, VerifyTarget};

fn binding(keys: &[KeyEvent], action: &str, imported: bool) -> VerifyBinding {
    VerifyBinding { keys: keys.to_vec(), action: action.to_string(), imported }
}

fn ctrl(c: char) -> KeyEvent {
    KeyEvent::new(Key::Char(c), Modifiers::ctrl())
}

fn cmd(c: char) -> KeyEvent {
    KeyEvent::new(Key::Char(c), Modifiers::super_key())
}

fn escape() -> KeyEvent {
    KeyEvent::plain(Key::Esc)
}

#[test]
fn from_bindings_collects_unique_imported_chords_including_sequence_parts() {
    let bindings = vec![
        binding(&[cmd('s')], "file.save", true),
        // sequence: both chords become targets; ctrl+k deduped below
        binding(&[ctrl('k'), ctrl('u')], "cursor.up", true),
        binding(&[ctrl('k'), ctrl('d')], "cursor.down", true),
        // non-imported sources are not verified
        binding(&[ctrl('q')], "app.quit", false),
        binding(&[ctrl('j')], "cursor.down", false),
    ];

    let session = VerifySession::from_bindings(&bindings);

    let chords: Vec<_> = session.targets.iter().map(|target| target.chord).collect();
    assert_eq!(chords, vec![cmd('s'), ctrl('k'), ctrl('u'), ctrl('d')]);
    assert_eq!(
        session.targets[1].actions,
        vec!["cursor.up".to_string(), "cursor.down".to_string()],
        "shared prefix chord lists every action it serves"
    );
}

#[test]
fn feed_records_outcomes_and_control_keys() {
    let bindings = vec![
        binding(&[cmd('s')], "file.save", true),
        binding(&[cmd('z')], "edit.undo", true),
        binding(&[cmd('a')], "selection.all", true),
    ];
    let mut session = VerifySession::from_bindings(&bindings);

    assert_eq!(session.feed(cmd('s')), FeedResult::Recorded);
    assert_eq!(session.outcomes[0], Some(ChordOutcome::Delivered));

    // terminal rewrote cmd+z into ctrl+z
    assert_eq!(session.feed(ctrl('z')), FeedResult::Recorded);
    assert_eq!(session.outcomes[1], Some(ChordOutcome::Mismatch(ctrl('z'))));

    assert_eq!(session.feed(escape()), FeedResult::Recorded);
    assert_eq!(session.outcomes[2], Some(ChordOutcome::Skipped));
    assert!(session.is_done());
}

#[test]
fn ctrl_c_aborts_leaving_the_rest_untested() {
    let bindings = vec![
        binding(&[cmd('s')], "file.save", true),
        binding(&[cmd('z')], "edit.undo", true),
    ];
    let mut session = VerifySession::from_bindings(&bindings);

    assert_eq!(session.feed(ctrl('c')), FeedResult::Aborted);
    assert_eq!(session.outcomes, vec![None, None]);

    let summary = session.summary_lines();
    assert!(
        summary
            .iter()
            .any(|line| line.contains("0 delivered, 0 mismatched, 0 skipped, 2 untested")),
        "{summary:?}"
    );
}

#[test]
fn expected_control_chords_verify_as_delivered() {
    let bindings = vec![
        binding(&[escape()], "palette.open", true),
        binding(&[ctrl('c')], "edit.copy", true),
    ];
    let mut session = VerifySession::from_bindings(&bindings);

    assert_eq!(session.feed(escape()), FeedResult::Recorded);
    assert_eq!(session.outcomes[0], Some(ChordOutcome::Delivered));
    assert_eq!(session.feed(ctrl('c')), FeedResult::Recorded);
    assert_eq!(session.outcomes[1], Some(ChordOutcome::Delivered));
}

#[test]
fn summary_suggests_cmd_ctrl_when_a_super_chord_is_undelivered() {
    let bindings = vec![binding(&[cmd('z')], "edit.undo", true)];
    let mut session = VerifySession::from_bindings(&bindings);
    session.feed(ctrl('z'));

    let summary = session.summary_lines();
    assert!(summary.iter().any(|line| line.contains("--cmd=ctrl")), "{summary:?}");

    // ...but not when everything arrived
    let mut session = VerifySession::from_bindings(&bindings);
    session.feed(cmd('z'));
    let summary = session.summary_lines();
    assert!(!summary.iter().any(|line| line.contains("--cmd=ctrl")), "{summary:?}");
}

#[test]
fn summary_omits_fix_lines_when_no_quirk_matches_the_mismatch() {
    let bindings = vec![binding(&[cmd('z')], "edit.undo", true)];
    let mut session = VerifySession::from_bindings(&bindings);
    session.feed(ctrl('z'));

    let summary = session.summary_lines();
    assert!(!summary.iter().any(|line| line.starts_with("fix:")));
}

#[test]
fn summary_lists_each_chord_with_its_outcome_and_totals() {
    let bindings = vec![
        binding(&[cmd('z')], "edit.undo", true),
        binding(&[cmd('s')], "file.save", true),
        binding(&[ctrl('k'), ctrl('u')], "cursor.up", true),
        binding(&[KeyEvent::new(Key::Enter, Modifiers::shift())], "cursor.lineEnd", true),
    ];
    let mut session = VerifySession::from_bindings(&bindings);
    session.feed(ctrl('z'));
    session.feed(cmd('s'));
    session.feed(escape());
    assert_eq!(
        session.summary_lines(),
        vec![
            "MISMATCH   cmd+z  arrived as Ctrl+Z  (edit.undo)".to_string(),
            "delivered  cmd+s  (file.save)".to_string(),
            "skipped    ctrl+k  (cursor.up)".to_string(),
            "untested   ctrl+u  (cursor.up)".to_string(),
            "untested   shift+enter  (cursor.lineEnd)".to_string(),
            "total: 1 delivered, 1 mismatched, 1 skipped, 2 untested".to_string(),
            "hint: a Cmd/Super chord did not arrive — the terminal may reserve it; consider re-importing with --cmd=ctrl"
                .to_string(),
        ]
    );
}

#[test]
fn non_imported_cmd_chords_are_measured_too() {
    let bindings = vec![
        binding(&[cmd('c')], "edit.copy", false),
        binding(&[ctrl('c')], "edit.copy", false),
    ];
    let session = VerifySession::from_bindings(&bindings);
    assert_eq!(session.targets.len(), 1);
    assert_eq!(session.targets[0].chord, cmd('c'));
}

#[test]
fn steps_show_the_outcome_and_the_next_prompt() {
    let targets = vec![
        VerifyTarget { chord: cmd('s'), actions: vec!["file.save".to_string()] },
        VerifyTarget {
            chord: KeyEvent::new(Key::F(5), Modifiers::none()),
            actions: vec!["a".to_string(), "b".to_string()],
        },
    ];
    let mut session = VerifySession::new(targets);
    assert_eq!(session.prompt(), Some("[1/2] press: cmd+s  (file.save)".to_string()));
    let (result, lines, stop) = session.step(KeyEvent::new(Key::Char('s'), Modifiers::ctrl()));
    assert_eq!(result, FeedResult::Recorded);
    assert_eq!(lines, vec!["  -> arrived as Ctrl+S".to_string(), "[2/2] press: f5  (a, b)".to_string()]);
    assert!(!stop);
    let (_, lines, stop) = session.step(KeyEvent::new(Key::F(5), Modifiers::none()));
    assert_eq!(lines, vec!["  -> delivered".to_string()]);
    assert!(stop);
    let (result, lines, stop) = session.step(ctrl('c'));
    assert_eq!(result, FeedResult::Recorded);
    assert!(lines.is_empty());
    assert!(stop);
}

#[test]
fn ctrl_c_stops_and_escape_skips_in_steps() {
    let targets = vec![
        VerifyTarget { chord: cmd('s'), actions: vec!["file.save".to_string()] },
        VerifyTarget { chord: cmd('z'), actions: vec!["edit.undo".to_string()] },
    ];
    let mut session = VerifySession::new(targets);
    let (_, lines, stop) = session.step(escape());
    assert_eq!(lines, vec!["  -> skipped".to_string(), "[2/2] press: cmd+z  (edit.undo)".to_string()]);
    assert!(!stop);
    let (result, lines, stop) = session.step(ctrl('c'));
    assert_eq!(result, FeedResult::Aborted);
    assert_eq!(lines, vec!["aborted".to_string()]);
    assert!(stop);
    assert_eq!(session.index, 1);
}

#[test]
fn key_text_has_a_config_and_a_display_form() {
    let all = Modifiers { shift: true, ctrl: true, alt: true, super_key: true };
    assert_eq!(key_text(KeyEvent::new(Key::Char('x'), all), true), "ctrl+alt+shift+cmd+x");
    assert_eq!(key_text(KeyEvent::new(Key::Char('x'), all), false), "Ctrl+Alt+Shift+Cmd+X");
    assert_eq!(key_text(KeyEvent::plain(Key::Esc), true), "escape");
    assert_eq!(key_text(KeyEvent::plain(Key::Esc), false), "Esc");
    assert_eq!(key_text(KeyEvent::new(Key::Char('1'), Modifiers::alt()), false), "Alt+1");
    assert_eq!(key_text(KeyEvent::plain(Key::F(12)), false), "F12");
}

fn candidate(keys: &[KeyEvent], action: &str) -> (Vec<KeyEvent>, String) {
    (keys.to_vec(), action.to_string())
}

#[test]
fn which_key_lines_table_driven() {
    let pending = vec![ctrl('k')];
    let shift_enter = KeyEvent::new(Key::Enter, Modifiers::shift());
    let cases: Vec<(&str, Vec<(Vec<KeyEvent>, String)>, Option<String>, Vec<&str>)> = vec![
        (
            "single candidate, no exact",
            vec![candidate(&[ctrl('k'), ctrl('u')], "cursor.up")],
            None,
            vec!["Ctrl+U  cursor.up"],
        ),
        (
            "exact match leads with the timeout row",
            vec![candidate(&[ctrl('k'), ctrl('u')], "cursor.up")],
            Some("cursor.down".to_string()),
            vec!["(wait) cursor.down", "Ctrl+U  cursor.up"],
        ),
        (
            "candidates sort by continuation and align the action column",
            vec![
                candidate(&[ctrl('k'), shift_enter], "cursor.lineEnd"),
                candidate(&[ctrl('k'), ctrl('u')], "cursor.up"),
            ],
            None,
            vec!["Ctrl+U       cursor.up", "Shift+Enter  cursor.lineEnd"],
        ),
    ];

    for (name, candidates, exact, expected) in cases {
        let lines: Vec<String> = which_key_lines(&pending, &candidates, exact, &[])
            .into_iter()
            .map(|(line, _)| line)
            .collect();
        assert_eq!(lines, expected, "{name}");
    }
}

#[test]
fn which_key_lines_caps_rows_and_reports_overflow() {
    let pending = vec![ctrl('k')];
    let candidates: Vec<_> = ('a'..='z')
        .take(MAX_CANDIDATE_ROWS + 3)
        .map(|c| candidate(&[ctrl('k'), ctrl(c)], "cursor.up"))
        .collect();

    let lines = which_key_lines(&pending, &candidates, None, &[]);

    assert_eq!(lines.len(), MAX_CANDIDATE_ROWS + 1);
    assert_eq!(lines.last().unwrap().0, "… 3 more");
}

#[test]
fn which_key_lines_flag_undeliverable_continuations() {
    let pending = vec![ctrl('k')];
    let alt_d = KeyEvent::new(Key::Char('d'), Modifiers::alt());
    let candidates = vec![
        candidate(&[ctrl('k'), ctrl('u')], "cursor.up"),
        candidate(&[ctrl('k'), alt_d], "cursor.down"),
    ];
    let undelivered = vec![alt_d];

    let lines = which_key_lines(&pending, &candidates, None, &undelivered);

    assert_eq!(
        lines,
        vec![
            ("Alt+D   cursor.down  ✗ undelivered".to_string(), true),
            ("Ctrl+U  cursor.up".to_string(), false),
        ]
    );
}

#[test]
fn which_key_sorts_equal_keys_by_action_and_keeps_duplicates() {
    let pending: Vec<KeyEvent> = Vec::new();
    let candidates = vec![
        candidate(&[ctrl('b')], "z.last"),
        candidate(&[ctrl('a'), ctrl('b')], "b.second"),
        candidate(&[ctrl('a'), ctrl('b')], "a.first"),
        candidate(&[ctrl('b')], "z.last"),
    ];
    let lines: Vec<String> = which_key_lines(&pending, &candidates, None, &[]).into_iter().map(|(l, _)| l).collect();
    assert_eq!(
        lines,
        vec![
            "Ctrl+A Ctrl+B  a.first".to_string(),
            "Ctrl+A Ctrl+B  b.second".to_string(),
            "Ctrl+B         z.last".to_string(),
            "Ctrl+B         z.last".to_string(),
        ]
    );
}

#[test]
fn which_key_box_sits_above_the_status_bar_and_dims_flagged_rows() {
    let lines = vec![
        ("Ctrl+U  cursor.up".to_string(), false),
        ("Alt+D   cursor.down  ✗ undelivered".to_string(), true),
    ];
    let rows = which_key_box("Ctrl+K", &lines, 30, 10);
    assert_eq!(rows.len(), 6);
    assert_eq!(rows[0].0, 2);
    assert_eq!(rows[0].1, 5);
    assert_eq!(rows[0].2, format!("╭ Ctrl+K … {}╮", "─".repeat(14)));
    assert_eq!(rows[3], (2, 8, format!("╰{}╯", "─".repeat(24)), TextStyle::Dim));
    assert_eq!(rows[4], (4, 6, "Ctrl+U  cursor.up".to_string(), TextStyle::Normal));
    assert_eq!(rows[5], (4, 7, "Alt+D   cursor.down  ✗".to_string(), TextStyle::Dim));
    assert!(which_key_box("Ctrl+K", &[], 30, 10).is_empty());
    assert!(which_key_box("Ctrl+K", &lines, 11, 10).is_empty());
}
