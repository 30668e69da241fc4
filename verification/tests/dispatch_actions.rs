use coda::dispatch::{Action, Effect, Front};
use coda::document::{Document, SaveError};
use coda::key::{Key, KeyEvent, Modifiers};
use coda::model::buffer::TextBuffer;
use coda::model::position::Position;
use coda::overlay::inspector::InspectorOverlay;
use coda::overlay::palette::{CommandPalette, PaletteOutcome};
use coda::overlay::prompt::{PromptOverlay, PromptPurpose};
use coda::overlay::search::SearchOverlay;
use coda::session::{QuitDecision, QuitGuard, SaveConflictGuard};
use coda::workspace::Workspace;

fn front(texts: &[&str]) -> Front {
    let documents = texts
        .iter()
        .enumerate()
        .map(|(i, text)| {
            Document::from_buffer(
                Some(format!("file{i}.txt").into_bytes()),
                TextBuffer::from_bytes(text.as_bytes()).unwrap().0,
            )
        })
        .collect();
    Front {
        workspace: Workspace {
            documents,
            active: 0,
            close_guard: QuitGuard::default(),
            message: String::new(),
        },
        palette: CommandPalette::default(),
        search: SearchOverlay::default(),
        prompt: PromptOverlay::default(),
        inspector: InspectorOverlay::default(),
        clipboard: String::new(),
        pending_terminal_write: Vec::new(),
        quit_guard: QuitGuard::default(),
        save_conflict_guard: SaveConflictGuard::default(),
        wrap: false,
    }
}

fn text(front: &Front) -> String {
    let doc = &front.workspace.documents[front.workspace.active];
    String::from_utf8(doc.editor.buffer.to_bytes()).unwrap()
}

fn run(front: &mut Front, action: Action) -> (QuitDecision, Effect) {
    front.dispatch(action)
}

#[test]
fn edits_undo_and_messages() {
    let mut f = front(&["abc"]);
    run(&mut f, Action::CursorLineEnd);
    run(&mut f, Action::EditBackspace);
    assert_eq!(text(&f), "ab");
    run(&mut f, Action::EditUndo);
    assert_eq!(text(&f), "abc");
    run(&mut f, Action::EditUndo);
    assert_eq!(f.workspace.message, "nothing to undo");
    run(&mut f, Action::EditRedo);
    assert_eq!(text(&f), "ab");
    run(&mut f, Action::EditRedo);
    assert_eq!(f.workspace.message, "nothing to redo");
    run(&mut f, Action::CursorBufferStart);
    assert_eq!(f.workspace.message, "");
}

#[test]
fn copy_cut_and_paste_go_through_the_clipboard() {
    let mut f = front(&["abc\ndef"]);
    run(&mut f, Action::EditCopy);
    assert_eq!(f.clipboard, "abc\n");
    assert_eq!(f.workspace.message, "copied");
    assert_eq!(f.pending_terminal_write, b"\x1b]52;c;YWJjCg==\x07".to_vec());
    run(&mut f, Action::EditCut);
    assert_eq!(text(&f), "def");
    assert_eq!(f.workspace.message, "cut");
    run(&mut f, Action::CursorLineEnd);
    run(&mut f, Action::EditPaste);
    assert_eq!(text(&f), "defabc\n");
}

#[test]
fn quit_warns_once_when_modified() {
    let mut f = front(&["a"]);
    run(&mut f, Action::EditDelete);
    assert_eq!(run(&mut f, Action::AppQuit), (QuitDecision::Continue, Effect::Done));
    assert_eq!(f.workspace.message, "unsaved changes; press quit again to exit");
    assert_eq!(run(&mut f, Action::AppQuit), (QuitDecision::Quit, Effect::Done));
    let mut clean = front(&["a"]);
    assert_eq!(run(&mut clean, Action::AppQuit).0, QuitDecision::Quit);
}

#[test]
fn read_only_documents_refuse_edits() {
    let mut f = front(&["abc"]);
    f.workspace.documents[0].readonly = true;
    run(&mut f, Action::EditDelete);
    assert_eq!(text(&f), "abc");
    assert_eq!(f.workspace.message, "read-only buffer (large file)");
    run(&mut f, Action::CursorRight);
    assert_eq!(f.workspace.documents[0].editor.cursor, Position::new(0, 1));
}

#[test]
fn documents_open_switch_and_close() {
    let mut f = front(&["a", "b"]);
    run(&mut f, Action::BufferNext);
    assert_eq!(f.workspace.active, 1);
    run(&mut f, Action::BufferPrevious);
    assert_eq!(f.workspace.active, 0);
    run(&mut f, Action::BufferNew);
    assert_eq!(f.workspace.documents.len(), 3);
    assert_eq!(f.workspace.active, 2);
    assert_eq!(run(&mut f, Action::BufferClose).0, QuitDecision::Continue);
    assert_eq!(f.workspace.documents.len(), 2);
    assert_eq!(f.workspace.active, 1);
}

#[test]
fn wrap_toggle_and_overlays() {
    let mut f = front(&["a"]);
    f.workspace.documents[0].view.top_segment = 3;
    run(&mut f, Action::ViewToggleWrap);
    assert!(f.wrap);
    assert_eq!(f.workspace.message, "wrap: on");
    assert_eq!(f.workspace.documents[0].view.top_segment, 0);
    run(&mut f, Action::ViewToggleWrap);
    assert_eq!(f.workspace.message, "wrap: off");
    run(&mut f, Action::PaletteOpen);
    assert!(f.palette.visible);
    run(&mut f, Action::GoToLine);
    assert!(!f.palette.visible);
    assert_eq!(f.prompt.purpose, Some(PromptPurpose::GoToLine));
    assert_eq!(f.prompt.label, "Go to Line:");
    run(&mut f, Action::InspectorOpen);
    assert!(f.inspector.visible);
    assert_eq!(f.workspace.message, "inspect-key: press any key");
}

#[test]
fn saving_is_asked_of_the_caller_and_its_outcome_recorded() {
    let mut f = front(&["a"]);
    assert_eq!(run(&mut f, Action::FileSave), (QuitDecision::Continue, Effect::Save { force: false }));
    f.finish_save(Err(SaveError::Conflict));
    assert_eq!(f.workspace.message, "file changed on disk; save again to overwrite");
    assert_eq!(run(&mut f, Action::FileSave).1, Effect::Save { force: true });
    run(&mut f, Action::EditDelete);
    f.finish_save(Ok(5));
    assert_eq!(f.workspace.message, "saved file0.txt");
    assert!(!f.workspace.documents[0].is_modified());
    assert_eq!(f.workspace.documents[0].saved_mtime, Some(5));
    f.finish_save(Err(SaveError::Io("disk full".to_string())));
    assert_eq!(f.workspace.message, "save failed: disk full");
    f.finish_save(Err(SaveError::NoPath));
    assert_eq!(f.prompt.purpose, Some(PromptPurpose::SaveAs));
    assert_eq!(f.prompt.input, "file0.txt");
    run(&mut f, Action::FileSaveAs);
    assert_eq!(f.prompt.label, "Save As:");
    assert_eq!(run(&mut f, Action::ConfigOpenSettings).1, Effect::OpenSettings);
    assert_eq!(run(&mut f, Action::ConfigOpenKeybindings).1, Effect::OpenKeybindings);
}

#[test]
fn search_actions_find_and_replace() {
    let mut f = front(&["foo bar foo"]);
    run(&mut f, Action::SearchNext);
    assert!(f.search.visible);
    f.search.query = "foo".to_string();
    f.search.visible = false;
    run(&mut f, Action::SearchNext);
    assert_eq!(f.search.current, Some(0));
    f.search.visible = true;
    run(&mut f, Action::SearchNext);
    assert_eq!(f.search.current, Some(1));
    f.search.visible = false;
    f.search.replace_text = "x".to_string();
    run(&mut f, Action::ReplaceAll);
    assert_eq!(text(&f), "x bar x");
    run(&mut f, Action::EditUndo);
    assert_eq!(text(&f), "foo bar foo");
}

#[test]
fn palette_keys_move_edit_and_run() {
    let mut p = CommandPalette::default();
    p.open();
    assert_eq!(p.handle_key(&KeyEvent::plain(Key::Char('s')), 5), PaletteOutcome::Continue);
    assert_eq!(p.query, "s");
    assert_eq!(p.handle_key(&KeyEvent::plain(Key::Down), 5), PaletteOutcome::Continue);
    assert_eq!(p.selected, 1);
    assert_eq!(p.handle_key(&KeyEvent::new(Key::Char('p'), Modifiers::ctrl()), 5), PaletteOutcome::Continue);
    assert_eq!(p.selected, 0);
    assert_eq!(p.handle_key(&KeyEvent::plain(Key::Up), 5), PaletteOutcome::Continue);
    assert_eq!(p.selected, 4);
    assert_eq!(p.handle_key(&KeyEvent::plain(Key::Enter), 5), PaletteOutcome::Run(4));
    assert!(!p.visible);
    p.open();
    assert_eq!(p.handle_key(&KeyEvent::plain(Key::Enter), 0), PaletteOutcome::Continue);
    assert!(p.visible);
    p.handle_key(&KeyEvent::plain(Key::Char('a')), 3);
    assert_eq!(p.handle_key(&KeyEvent::new(Key::Char('u'), Modifiers::ctrl()), 3), PaletteOutcome::Continue);
    assert!(p.query.is_empty());
    assert_eq!(p.handle_key(&KeyEvent::new(Key::Char('x'), Modifiers::alt()), 3), PaletteOutcome::Unhandled);
    assert_eq!(p.handle_key(&KeyEvent::plain(Key::Tab), 3), PaletteOutcome::Unhandled);
    assert_eq!(p.handle_key(&KeyEvent::plain(Key::Esc), 3), PaletteOutcome::Continue);
    assert!(!p.visible);
}
