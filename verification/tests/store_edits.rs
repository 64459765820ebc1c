use text_language_server::buffer::Buffer;
use text_language_server::edits::Edit;
use text_language_server::protocol::{Position, Range};
use text_language_server::store::DocumentStore;
use text_language_server::unicode::Encoding;

fn edit_span(l1: u32, c1: u32, l2: u32, c2: u32) -> Range {
    Range::new(Position::new(l1, c1), Position::new(l2, c2))
}

#[test]
fn open_get_close() {
    let mut store = DocumentStore::new();
    store.open(String::from("file:///a"), "alpha");
    store.open(String::from("file:///b"), "beta");
    let a = store.get(&String::from("file:///a")).expect("open document");
    assert_eq!(a.to_string(), "alpha");
    // A duplicate open replaces the content: last write wins.
    store.open(String::from("file:///a"), "alpha2");
    let a = store.get(&String::from("file:///a")).expect("open document");
    assert_eq!(a.to_string(), "alpha2");
    assert!(store.close(&String::from("file:///a")));
    assert!(store.get(&String::from("file:///a")).is_none());
    let b = store.get(&String::from("file:///b")).expect("other key untouched");
    assert_eq!(b.to_string(), "beta");
}

#[test]
fn close_never_opened_is_no_op() {
    let mut store = DocumentStore::new();
    store.open(String::from("file:///open"), "text");
    assert!(!store.close(&String::from("file:///never-opened")));
    assert!(store.get(&String::from("file:///never-opened")).is_none());
    // The store is untouched.
    let doc = store.get(&String::from("file:///open")).expect("still open");
    assert_eq!(doc.to_string(), "text");
}

#[test]
fn ordered_edits_against_current_state() {
    // Each edit's range is read against the text as already changed by the
    // earlier edits of the batch, never against the pre-batch text: after
    // "X" lands at the front, character one lies between 'X' and 'a'.
    let mut store = DocumentStore::new();
    let uri = String::from("file:///doc");
    store.open(uri.clone(), "ab");
    let edits = vec![
        Edit::ranged(edit_span(0, 0, 0, 0), "X"),
        Edit::ranged(edit_span(0, 1, 0, 1), "Y"),
    ];
    assert!(store.apply_changes(&uri, Encoding::Utf16, &edits));
    let doc = store.get(&uri).expect("open document");
    assert_eq!(doc.to_string(), "XYab");
}

#[test]
fn edits_to_unknown_uri_are_no_ops() {
    let mut store = DocumentStore::new();
    let uri = String::from("file:///doc");
    let edits = vec![Edit::ranged(edit_span(0, 0, 0, 0), "X")];
    assert!(!store.apply_changes(&uri, Encoding::Utf16, &edits));
    assert!(store.get(&uri).is_none());
}

#[test]
fn empty_edit_list_is_identity() {
    let mut buf = Buffer::from_str("unchanged 😊 content\r\nsecond line");
    let before = buf.to_string();
    let edits: Vec<Edit> = Vec::new();
    buf.apply_edits(Encoding::Utf16, &edits);
    assert_eq!(buf.to_string(), before);
}

#[test]
fn edit_order_matters() {
    // [A, B] and [B, A] give different texts: order is load-bearing.
    let a = || Edit::ranged(edit_span(0, 0, 0, 0), "X");
    let b = || Edit::ranged(edit_span(0, 1, 0, 2), "Y");
    let mut forward = Buffer::from_str("ab");
    forward.apply_edits(Encoding::Utf16, &vec![a(), b()]);
    assert_eq!(forward.to_string(), "XYb");
    let mut swapped = Buffer::from_str("ab");
    swapped.apply_edits(Encoding::Utf16, &vec![b(), a()]);
    assert_eq!(swapped.to_string(), "XaY");
    assert_ne!(forward.to_string(), swapped.to_string());
}

#[test]
fn whole_document_replace() {
    let mut buf = Buffer::from_str("old content");
    buf.apply_edits(Encoding::Utf16, &vec![Edit::full("new content")]);
    assert_eq!(buf.to_string(), "new content");
}

#[test]
fn reversed_range_leaves_text_unchanged() {
    let mut buf = Buffer::from_str("abc\ndef");
    buf.apply_edits(Encoding::Utf16, &vec![Edit::ranged(edit_span(1, 0, 0, 0), "X")]);
    assert_eq!(buf.to_string(), "abc\ndef");
}

#[test]
fn unicode_edit_lands_on_boundaries() {
    let mut buf = Buffer::from_str("{ \"text\": \"hello\n👋\\n👋world\" }");
    buf.apply_edits(
        Encoding::Utf16,
        &vec![Edit::ranged(edit_span(1, 2, 1, 4), "\n")],
    );
    assert_eq!(buf.to_string(), "{ \"text\": \"hello\n👋\n👋world\" }");
}

#[test]
fn buffer_insert_delete_slice() {
    let mut buf = Buffer::from_str("Hello 😊 world");
    assert_eq!(buf.len(), 16);
    let sl = buf.slice(6, 10);
    assert_eq!(sl.to_string(), "😊");
    buf.delete(6, 11);
    assert_eq!(buf.to_string(), "Hello world");
    buf.insert(5, ",");
    assert_eq!(buf.to_string(), "Hello, world");
    assert_eq!(buf.len(), 12);
    assert_eq!(buf.scalar_count(), 12);
}

#[test]
fn snapshot_is_point_in_time() {
    let mut store = DocumentStore::new();
    let uri = String::from("file:///doc");
    store.open(uri.clone(), "before");
    let snap = store.get(&uri).expect("open document");
    store.apply_changes(&uri, Encoding::Utf16, &vec![Edit::full("after")]);
    assert_eq!(snap.to_string(), "before");
    assert_eq!(store.get(&uri).expect("still open").to_string(), "after");
}
