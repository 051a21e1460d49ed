//! Tests for the corpus store, window expansion and context assembly.

use chatbot_rs::context::assemble_context;
use chatbot_rs::context::expand_window;
use chatbot_rs::context::get_context;
use chatbot_rs::context::NeighborMatch;
use chatbot_rs::corpus::window_bounds;
use chatbot_rs::corpus::Sentence;
use chatbot_rs::corpus::SentenceStore;
use chatbot_rs::error::ChatError;

fn sentence(row_id: u32, page_id: u32, page_index: u32, text: &str) -> Sentence {
    Sentence { row_id, page_id, page_index, text: text.to_string() }
}

/// A page with `len` sentences named `p<page>s<index>`, with row ids
/// starting at `base`.
fn fill_page(store: &mut SentenceStore, page_id: u32, base: u32, len: u32) {
    for i in 0..len {
        let text = format!("p{}s{}", page_id, i);
        assert!(store.insert(sentence(base + i, page_id, i, &text)));
    }
}

#[test]
fn window_bounds_clamp() {
    assert_eq!(window_bounds(5), (2, 10));
    assert_eq!(window_bounds(0), (0, 5));
    assert_eq!(window_bounds(2), (0, 7));
    assert_eq!(window_bounds(3), (0, 8));
    assert_eq!(window_bounds(u32::MAX), (u32::MAX - 3, u32::MAX));
}

#[test]
fn insert_rejects_duplicates() {
    let mut store = SentenceStore::new();
    assert!(store.insert(sentence(1, 10, 0, "a")));
    // Same row id.
    assert!(!store.insert(sentence(1, 11, 5, "b")));
    // Same page position.
    assert!(!store.insert(sentence(2, 10, 0, "c")));
    // Fresh in both keys.
    assert!(store.insert(sentence(2, 10, 1, "d")));
}

#[test]
fn lookup_and_text() {
    let mut store = SentenceStore::new();
    fill_page(&mut store, 7, 100, 3);
    assert_eq!(store.lookup_location(101), Some((7, 1)));
    assert_eq!(store.lookup_location(999), None);
    assert_eq!(store.sentence_text(7, 2), Some("p7s2".to_string()));
    assert_eq!(store.sentence_text(7, 3), None);
}

#[test]
fn range_skips_missing_positions() {
    let mut store = SentenceStore::new();
    fill_page(&mut store, 1, 0, 4);
    let texts = store.sentences_in_range(1, 2, 9);
    assert_eq!(texts, vec!["p1s2".to_string(), "p1s3".to_string()]);
    let empty = store.sentences_in_range(1, 7, 9);
    assert!(empty.is_empty());
}

#[test]
fn window_truncated_at_page_end() {
    // A page with sentences at indices 0 through 9; a match at index 5
    // yields the window of indices 2 through 9, truncated at the page end.
    let mut store = SentenceStore::new();
    fill_page(&mut store, 42, 100, 10);
    let w = expand_window(&store, 105).unwrap();
    assert_eq!(w, "p42s2\np42s3\np42s4\np42s5\np42s6\np42s7\np42s8\np42s9");
}

#[test]
fn window_truncated_at_page_start() {
    let mut store = SentenceStore::new();
    fill_page(&mut store, 42, 100, 10);
    let w = expand_window(&store, 101).unwrap();
    assert_eq!(w, "p42s0\np42s1\np42s2\np42s3\np42s4\np42s5\np42s6");
}

#[test]
fn expand_unknown_row_fails() {
    let store = SentenceStore::new();
    assert_eq!(expand_window(&store, 44), Err(ChatError::NotFound(44)));
}

#[test]
fn context_follows_distance_order() {
    // Two matches: page 1 index 4 (nearer) and page 2 index 0 (farther).
    // The assembled context lists the page-1 window first, then a blank
    // line, then the page-2 window, whatever order expansion ran in.
    let mut store = SentenceStore::new();
    fill_page(&mut store, 1, 100, 10);
    fill_page(&mut store, 2, 200, 2);
    let matches = vec![
        NeighborMatch { row_id: 104, distance: 50 },
        NeighborMatch { row_id: 200, distance: 200 },
    ];
    let (context, query) = get_context(&store, &matches, "q".to_string()).unwrap();
    let window1 = "p1s1\np1s2\np1s3\np1s4\np1s5\np1s6\np1s7\np1s8\np1s9";
    let window2 = "p2s0\np2s1";
    assert_eq!(context, format!("{}\n\n{}", window1, window2));
    assert_eq!(query, "q");
}

#[test]
fn empty_matches_give_empty_context() {
    // Zero matches: the context is empty and the query comes back
    // unchanged, not an error.
    let store = SentenceStore::new();
    let matches: Vec<NeighborMatch> = Vec::new();
    let r = get_context(&store, &matches, "anything?".to_string());
    assert_eq!(r, Ok(("".to_string(), "anything?".to_string())));
}

#[test]
fn missing_row_fails_whole_request() {
    let mut store = SentenceStore::new();
    fill_page(&mut store, 1, 100, 3);
    let matches = vec![
        NeighborMatch { row_id: 100, distance: 10 },
        NeighborMatch { row_id: 777, distance: 20 },
    ];
    let r = get_context(&store, &matches, "q".to_string());
    assert_eq!(r, Err(ChatError::NotFound(777)));
}

#[test]
fn assemble_normalizes_each_window() {
    let windows = vec!["  a\n\nb ".to_string(), "c".to_string()];
    assert_eq!(assemble_context(&windows), "a\nb\n\nc");
    let none: Vec<String> = Vec::new();
    assert_eq!(assemble_context(&none), "");
}

#[test]
fn overlapping_windows_are_not_deduplicated() {
    // Two matches on the same page with overlapping windows: the shared
    // sentences appear twice in the assembled context, verbatim.
    let mut store = SentenceStore::new();
    fill_page(&mut store, 3, 0, 4);
    let matches = vec![
        NeighborMatch { row_id: 0, distance: 1 },
        NeighborMatch { row_id: 1, distance: 2 },
    ];
    let (context, _) = get_context(&store, &matches, "q".to_string()).unwrap();
    let w0 = "p3s0\np3s1\np3s2\np3s3";
    assert_eq!(context, format!("{}\n\n{}", w0, w0));
}
