use clipvault::error::StoreError;
use clipvault::history::{Entry, History};
use clipvault::index::resolve_index;
use clipvault::preview::{preview, truncate_preview, ELLIPSIS};

fn filled(capacity: usize, contents: &[&str]) -> History {
    let mut h = History::new(capacity);
    for (t, c) in contents.iter().enumerate() {
        h.store(c.as_bytes().to_vec(), t as u64);
    }
    h
}

fn previews(h: &History, width: usize) -> Vec<String> {
    h.list(width).into_iter().map(|l| l.preview).collect()
}

#[test]
fn resolve_index_counts_from_both_ends() {
    assert_eq!(resolve_index(0, 3), Ok(0));
    assert_eq!(resolve_index(2, 3), Ok(2));
    assert_eq!(resolve_index(-1, 3), Ok(2));
    assert_eq!(resolve_index(-3, 3), Ok(0));
    assert_eq!(resolve_index(3, 3), Err(StoreError::IndexOutOfRange));
    assert_eq!(resolve_index(-4, 3), Err(StoreError::IndexOutOfRange));
    assert_eq!(resolve_index(0, 0), Err(StoreError::EmptyStore));
    assert_eq!(resolve_index(-1, 0), Err(StoreError::EmptyStore));
    assert_eq!(resolve_index(isize::MIN, usize::MAX), Ok(isize::MAX as usize));
}

#[test]
fn store_never_exceeds_capacity_and_evicts_oldest() {
    let mut h = History::new(3);
    let mut evicted = Vec::new();
    for (t, c) in ["a", "b", "c", "d", "e"].iter().enumerate() {
        let out = h.store(c.as_bytes().to_vec(), t as u64);
        assert!(!out.refreshed);
        assert_eq!(out.id, t as u64 + 1);
        assert!(h.len() <= 3);
        evicted.extend(out.evicted);
    }
    assert_eq!(evicted, vec![1, 2]);
    assert_eq!(previews(&h, 10), vec!["e", "d", "c"]);
    assert_eq!(h.next_id(), 6);
}

#[test]
fn refreshed_entry_is_oldest_no_longer() {
    let mut h = filled(3, &["a", "b", "c"]);
    h.store(b"a".to_vec(), 10);
    let out = h.store(b"d".to_vec(), 11);
    assert_eq!(out.evicted, vec![2]);
    assert_eq!(previews(&h, 10), vec!["d", "a", "c"]);
}

#[test]
fn duplicate_store_moves_entry_to_front() {
    let mut h = filled(5, &["a", "b", "c"]);
    let out = h.store(b"a".to_vec(), 99);
    assert!(out.refreshed);
    assert_eq!(out.id, 1);
    assert!(out.evicted.is_empty());
    assert_eq!(h.len(), 3);
    assert_eq!(h.next_id(), 4);
    let listed = h.list(10);
    assert_eq!(listed[0].index, 0);
    assert_eq!(listed[0].preview, "a");
    assert_eq!(previews(&h, 10), vec!["a", "c", "b"]);
    assert_eq!(h.entry(0).created_at, 0);
}

#[test]
fn get_follows_listing_positions() {
    let h = filled(5, &["oldest", "middle", "newest"]);
    let listed = h.list(20);
    assert_eq!(listed.len(), 3);
    for (i, l) in listed.iter().enumerate() {
        assert_eq!(l.index, i);
    }
    assert_eq!(h.get(0), Ok(&b"newest".to_vec()));
    assert_eq!(h.get(-1), Ok(&b"oldest".to_vec()));
    assert_eq!(h.get(2), Ok(&b"oldest".to_vec()));
    assert_eq!(h.get(1), Ok(&b"middle".to_vec()));
    assert_eq!(h.get(-2), Ok(&b"middle".to_vec()));
    assert_eq!(h.get(-3), Ok(&b"newest".to_vec()));
}

#[test]
fn get_outside_range_fails() {
    let h = filled(5, &["a", "b", "c"]);
    assert_eq!(h.get(3), Err(StoreError::IndexOutOfRange));
    assert_eq!(h.get(-4), Err(StoreError::IndexOutOfRange));
    let empty = History::new(5);
    assert_eq!(empty.get(0), Err(StoreError::EmptyStore));
    assert_eq!(empty.get(-1), Err(StoreError::EmptyStore));
}

#[test]
fn list_truncates_long_previews() {
    let h = filled(5, &["ab", "abcdefgh"]);
    let p = previews(&h, 5);
    assert_eq!(p[0], "abcd…");
    assert!(p[0].chars().count() <= 5);
    assert!(p[0].ends_with(ELLIPSIS));
    assert_eq!(p[1], "ab");
}

#[test]
fn preview_edges() {
    let chars: Vec<char> = "abcdefgh".chars().collect();
    assert_eq!(truncate_preview(&chars, 5), "abcd…");
    assert_eq!(truncate_preview(&chars, 8), "abcdefgh");
    assert_eq!(truncate_preview(&chars, 1), "…");
    assert_eq!(truncate_preview(&chars, 0), "");
    assert_eq!(truncate_preview(&Vec::new(), 0), "");
    assert_eq!(preview("héllo wörld".as_bytes(), 4), "hél…");
}

#[test]
fn preview_decodes_invalid_bytes_leniently() {
    assert_eq!(preview(&[0x61, 0xff, 0x62], 10), "a\u{FFFD}b");
    assert_eq!(preview(&[], 3), "");
}

#[test]
fn delete_by_index() {
    let mut h = filled(5, &["a", "b", "c"]);
    assert_eq!(h.delete_index(-1), Ok(1));
    assert_eq!(previews(&h, 10), vec!["c", "b"]);
    assert_eq!(h.delete_index(0), Ok(3));
    assert_eq!(previews(&h, 10), vec!["b"]);
    assert_eq!(h.delete_index(1), Err(StoreError::IndexOutOfRange));
    assert_eq!(h.delete_index(-2), Err(StoreError::IndexOutOfRange));
    assert_eq!(h.delete_index(0), Ok(2));
    assert_eq!(h.delete_index(0), Err(StoreError::EmptyStore));
    assert_eq!(h.next_id(), 4);
}

#[test]
fn delete_by_content() {
    let mut h = filled(5, &["a", "b", "c"]);
    assert_eq!(h.delete_content(b"b"), Some(2));
    assert_eq!(previews(&h, 10), vec!["c", "a"]);
    assert_eq!(h.delete_content(b"b"), None);
    assert_eq!(h.delete_content(b"zzz"), None);
    assert_eq!(h.len(), 2);
}

fn row(id: u64, content: &str) -> Entry {
    Entry { id, content: content.as_bytes().to_vec(), created_at: id * 10 }
}

#[test]
fn from_rows_accepts_a_valid_history() {
    let h = History::from_rows(vec![row(7, "x"), row(3, "y")], 8, 2).unwrap();
    assert_eq!(h.len(), 2);
    assert_eq!(h.capacity(), 2);
    assert_eq!(h.next_id(), 8);
    assert_eq!(h.get(-1), Ok(&b"y".to_vec()));
    assert_eq!(h.entry(0).id, 7);
}

#[test]
fn from_rows_refuses_invalid_rows() {
    assert!(History::from_rows(vec![row(1, "x"), row(2, "x")], 3, 5).is_none());
    assert!(History::from_rows(vec![row(1, "x"), row(1, "y")], 3, 5).is_none());
    assert!(History::from_rows(vec![row(3, "x")], 3, 5).is_none());
    assert!(History::from_rows(vec![row(1, "x"), row(2, "y")], 3, 1).is_none());
    assert!(History::from_rows(Vec::new(), 1, 0).is_none());
    assert!(History::from_rows(Vec::new(), 1, 1).is_some());
}
