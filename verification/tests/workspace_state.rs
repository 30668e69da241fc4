use coda::document::{opens_read_only, Document, LARGE_FILE_BYTES};
use coda::model::buffer::TextBuffer;
use coda::model::position::Position;
use coda::model::selection::Selection;
use coda::session::{QuitDecision, QuitGuard};
use coda::workspace::{dedupe_paths, Workspace};

fn document(path: &str, text: &str) -> Document {
    Document::from_buffer(
        Some(path.as_bytes().to_vec()),
        TextBuffer::from_bytes(text.as_bytes()).unwrap().0,
    )
}

fn workspace(documents: Vec<Document>) -> Workspace {
    Workspace {
        documents,
        active: 0,
        close_guard: QuitGuard::default(),
        message: String::new(),
    }
}

#[test]
fn paths_keep_argument_order_without_repeats() {
    let paths = vec![b"a.txt".to_vec(), b"b.txt".to_vec(), b"a.txt".to_vec()];
    assert_eq!(dedupe_paths(paths), vec![b"a.txt".to_vec(), b"b.txt".to_vec()]);
    let same = vec![b"dir/a".to_vec(), b"dir//a/".to_vec(), b"dir/./a".to_vec(), b"./dir/a".to_vec()];
    assert_eq!(dedupe_paths(same), vec![b"dir/a".to_vec(), b"./dir/a".to_vec()]);
    assert_eq!(dedupe_paths(vec![b"/x".to_vec(), b"x".to_vec()]).len(), 2);
}

#[test]
fn switching_documents_wraps_around() {
    let mut ws = workspace(vec![document("a", ""), document("b", ""), document("c", "")]);
    ws.switch_buffer(1);
    assert_eq!(ws.active, 1);
    ws.switch_buffer(1);
    assert_eq!(ws.active, 2);
    ws.switch_buffer(1);
    assert_eq!(ws.active, 0);
    ws.switch_buffer(-1);
    assert_eq!(ws.active, 2);
}

#[test]
fn closing_a_clean_document_is_immediate_and_a_modified_one_warns_first() {
    let mut ws = workspace(vec![document("clean", "clean"), document("modified", "modified")]);
    assert_eq!(ws.close_active_buffer(), QuitDecision::Continue);
    assert_eq!(ws.documents.len(), 1);
    assert_eq!(ws.documents[0].path, Some(b"modified".to_vec()));

    ws.documents[0].editor.insert_text("!");
    assert!(ws.is_modified());
    assert_eq!(ws.close_active_buffer(), QuitDecision::Continue);
    assert_eq!(ws.message, "unsaved changes; close again to discard");
    assert_eq!(ws.documents.len(), 1);
    assert_eq!(ws.close_active_buffer(), QuitDecision::Quit);
}

#[test]
fn closing_the_last_clean_document_quits() {
    let mut ws = workspace(vec![document("only", "clean")]);
    assert_eq!(ws.close_active_buffer(), QuitDecision::Quit);
}

#[test]
fn closing_the_last_tab_moves_to_the_new_last() {
    let mut ws = workspace(vec![document("a", ""), document("b", ""), document("c", "")]);
    ws.active = 2;
    assert_eq!(ws.close_active_buffer(), QuitDecision::Continue);
    assert_eq!(ws.active, 1);
    assert_eq!(ws.documents.len(), 2);
}

#[test]
fn tab_items_number_name_and_mark_modified_documents() {
    let mut ws = workspace(vec![document("src/main.rs", "fn"), document("notes.md", "")]);
    ws.documents[1].editor.insert_text("x");
    let items = ws.tab_items();
    assert_eq!(items[0].label, "1:main.rs");
    assert!(items[0].active);
    assert_eq!(items[1].label, "2:notes.md [+]");
    assert!(!items[1].active);
}

#[test]
fn double_click_selects_the_word_and_triple_click_the_line() {
    let mut ws = workspace(vec![document("a", "foo_bar  baz!\nnext")]);
    ws.select_word_at(Position::new(0, 2));
    assert_eq!(
        ws.documents[0].editor.selection,
        Some(Selection::new(Position::new(0, 0), Position::new(0, 7)))
    );
    ws.select_word_at(Position::new(0, 8));
    assert_eq!(
        ws.documents[0].editor.selection,
        Some(Selection::new(Position::new(0, 7), Position::new(0, 9)))
    );
    ws.select_word_at(Position::new(0, 99));
    assert_eq!(
        ws.documents[0].editor.selection,
        Some(Selection::new(Position::new(0, 12), Position::new(0, 13)))
    );
    ws.select_line_at(0);
    assert_eq!(
        ws.documents[0].editor.selection,
        Some(Selection::new(Position::new(0, 0), Position::new(1, 0)))
    );
    ws.select_line_at(9);
    assert_eq!(
        ws.documents[0].editor.selection,
        Some(Selection::new(Position::new(1, 0), Position::new(1, 4)))
    );
}

#[test]
fn opened_files_get_notes_in_order() {
    assert_eq!(
        coda::workspace::load_notes("a.txt", true, true, true),
        vec![
            "a.txt: new file".to_string(),
            "a.txt: mixed line endings".to_string(),
            "a.txt: large file (>10 MB); opened read-only".to_string(),
        ]
    );
    assert!(coda::workspace::load_notes("a.txt", false, false, false).is_empty());
}

#[test]
fn opening_nothing_gives_one_unnamed_buffer_and_joins_the_notes() {
    let notes = vec!["a.txt: new file".to_string(), "b.txt: mixed line endings".to_string()];
    let ws = Workspace::open(Vec::new(), &notes);
    assert_eq!(ws.documents.len(), 1);
    assert!(ws.documents[0].path.is_none());
    assert_eq!(ws.documents[0].editor.buffer.line(0), Some(""));
    assert_eq!(ws.documents[0].editor.buffer.line(1), None);
    assert_eq!(ws.active, 0);
    assert!(!ws.close_guard.warned);
    assert_eq!(ws.message, "a.txt: new file; b.txt: mixed line endings");

    let ws = Workspace::open(vec![document("x.txt", "x"), document("y.txt", "y")], &[]);
    assert_eq!(ws.documents.len(), 2);
    assert_eq!(ws.documents[1].path, Some(b"y.txt".to_vec()));
    assert_eq!(ws.message, "");
}

#[test]
fn files_over_ten_megabytes_open_read_only() {
    assert_eq!(LARGE_FILE_BYTES, 10 * 1024 * 1024);
    assert!(!opens_read_only(10 * 1024 * 1024));
    assert!(opens_read_only(10 * 1024 * 1024 + 1));
    assert!(!opens_read_only(0));
}
