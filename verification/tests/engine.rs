use ailoom::annotation::Annotation;
use ailoom::digest::digest_hex;
use ailoom::files::{decode_file, FullFile};
use ailoom::resync::{relocate, resolve, Resolution, Snapshot};
use ailoom::search::Occurrence;
use ailoom::store::Store;
use ailoom::verification::{
    annotations_for_file, take_snapshot, verify_annotations_at, verify_annotations_for_file,
    verify_pass,
};

const NOW: &str = "2024-01-01T00:00:00Z";

fn new_ann(id: &str, file_path: &str, start: i64, end: i64, selected: &str) -> Annotation {
    Annotation {
        id: id.to_string(),
        file_path: file_path.to_string(),
        start_line: start,
        end_line: end,
        start_column: None,
        end_column: None,
        selected_text: selected.to_string(),
        comment: "t".into(),
        pre_context_hash: None,
        post_context_hash: None,
        file_digest: None,
        tags: None,
        priority: Some("P1".into()),
        created_at: "2020-01-01T00:00:00Z".into(),
        updated_at: "2020-01-01T00:00:00Z".into(),
    }
}

fn with_cols(mut a: Annotation, start: i64, end: i64) -> Annotation {
    a.start_column = Some(start);
    a.end_column = Some(end);
    a
}

fn file(path: &str, content: &str) -> FullFile {
    decode_file(path, content.as_bytes()).unwrap()
}

fn store_with(anns: &[Annotation]) -> Store {
    let mut s = Store::new("ws");
    for a in anns {
        s.insert_annotation(a).unwrap();
    }
    s
}

fn occ(start_line: i64, end_line: i64, start_col: i64, end_col: i64) -> Occurrence {
    Occurrence { start_line, end_line, start_col, end_col }
}

fn numbered(n: usize) -> String {
    let mut s = String::new();
    for i in 1..=n {
        s.push_str(&format!("line {}\n", i));
    }
    s
}

#[test]
fn verify_deletes_when_not_found() {
    let mut store = Store::new("ws");
    let file_rel = "bar.txt";
    let ann = new_ann("b1", file_rel, 1, 2, "one\ntwo");
    store.insert_annotation(&ann).unwrap();

    let f = file(file_rel, "xxx\nyyy\nzzz\n");
    let r = verify_annotations_for_file(
        &mut store,
        file_rel,
        Some(&f),
        Some(40),
        Some(5 * 1024 * 1024),
        true,
    );
    assert_eq!(r.deleted, 1);
    assert!(store.get_annotation("b1").is_none());
    assert_eq!(r.checked, 1);
    assert_eq!(r.updated, 0);
    assert_eq!(r.skipped, 0);
    assert_eq!(r.deleted_ids, vec!["b1".to_string()]);
}

#[test]
fn lost_annotation_is_skipped_when_not_removing() {
    let mut store = store_with(&[new_ann("b1", "bar.txt", 1, 2, "one\ntwo")]);
    let f = file("bar.txt", "xxx\nyyy\nzzz\n");
    let r = verify_annotations_at(&mut store, "bar.txt", Some(&f), None, None, false, Some(NOW));
    assert_eq!((r.checked, r.updated, r.deleted, r.skipped), (1, 0, 0, 1));
    assert_eq!(r.skipped_ids, vec!["b1".to_string()]);
    let kept = store.get_annotation("b1").unwrap();
    assert_eq!(kept.start_line, 1);
    assert_eq!(kept.updated_at, "2020-01-01T00:00:00Z");
}

#[test]
fn no_annotations_give_an_empty_result() {
    let mut store = store_with(&[new_ann("x", "other.txt", 1, 1, "a")]);
    let f = file("bar.txt", "a\n");
    let r = verify_annotations_at(&mut store, "bar.txt", Some(&f), None, None, true, Some(NOW));
    assert_eq!((r.checked, r.updated, r.deleted, r.skipped), (0, 0, 0, 0));
    assert!(r.updated_ids.is_empty() && r.deleted_ids.is_empty() && r.skipped_ids.is_empty());
    assert_eq!(store.len(), 1);
    assert!(annotations_for_file(&store, "bar.txt").is_empty());
    assert_eq!(annotations_for_file(&store, "other.txt").len(), 1);
}

#[test]
fn untouched_when_the_span_still_matches() {
    let a = new_ann("a", "f.txt", 2, 3, "two\nthree");
    let b = with_cols(new_ann("b", "f.txt", 4, 4, "ou"), 2, 4);
    let mut store = store_with(&[a, b]);
    let f = file("f.txt", "one\ntwo\nthree\nfour\n");
    let r = verify_annotations_at(&mut store, "f.txt", Some(&f), None, None, true, Some(NOW));
    assert_eq!((r.checked, r.updated, r.deleted, r.skipped), (2, 0, 0, 0));
    let a = store.get_annotation("a").unwrap();
    assert_eq!(a.updated_at, "2020-01-01T00:00:00Z");
    assert_eq!(a.file_digest, None);
}

#[test]
fn shifted_lines_are_followed() {
    let a = new_ann("a", "f.txt", 3, 3, "target line");
    let b = with_cols(new_ann("b", "f.txt", 3, 3, "get li"), 4, 10);
    let c = new_ann("c", "f.txt", 3, 4, "target line\nc");
    let mut store = store_with(&[a, b, c]);
    let content = "new1\nnew2\na\nb\ntarget line\nc\n";
    let f = file("f.txt", content);
    let r = verify_annotations_at(&mut store, "f.txt", Some(&f), None, None, true, Some(NOW));
    assert_eq!((r.checked, r.updated, r.deleted, r.skipped), (3, 3, 0, 0));
    let a = store.get_annotation("a").unwrap();
    assert_eq!((a.start_line, a.end_line), (5, 5));
    assert_eq!((a.start_column, a.end_column), (None, None));
    assert_eq!(a.updated_at, NOW);
    assert_eq!(a.file_digest, Some(digest_hex(content.as_bytes())));
    assert_eq!(a.created_at, "2020-01-01T00:00:00Z");
    assert_eq!(a.selected_text, "target line");
    assert_eq!((a.id.as_str(), a.file_path.as_str(), a.comment.as_str()), ("a", "f.txt", "t"));
    assert_eq!((a.tags, a.priority), (None, Some("P1".to_string())));
    assert_eq!(r.updated_ids.len(), 3);
    let b = store.get_annotation("b").unwrap();
    assert_eq!((b.start_line, b.end_line), (5, 5));
    assert_eq!((b.start_column, b.end_column), (Some(4), Some(10)));
    let c = store.get_annotation("c").unwrap();
    assert_eq!((c.start_line, c.end_line), (5, 6));
}

#[test]
fn the_only_annotation_of_a_shifted_file_is_the_one_updated() {
    let mut a = with_cols(new_ann("a", "f.txt", 2, 3, "wo\nthr"), 2, 4);
    a.tags = Some(vec!["x".to_string()]);
    let other = new_ann("o", "g.txt", 1, 1, "elsewhere");
    let mut store = store_with(&[a, other]);
    let f = file("f.txt", "k1\nk2\nk3\none\ntwo\nthree\nfour\n");
    let r = verify_annotations_at(&mut store, "f.txt", Some(&f), None, None, true, Some(NOW));
    assert_eq!((r.checked, r.updated, r.deleted, r.skipped), (1, 1, 0, 0));
    assert_eq!(r.updated_ids, vec!["a".to_string()]);
    let a = store.get_annotation("a").unwrap();
    assert_eq!((a.start_line, a.end_line), (5, 6));
    assert_eq!((a.start_column, a.end_column), (Some(2), Some(4)));
    assert_eq!(a.tags, Some(vec!["x".to_string()]));
    assert_eq!(a.selected_text, "wo\nthr");
    assert_eq!(store.get_annotation("o").unwrap().updated_at, "2020-01-01T00:00:00Z");
}

#[test]
fn a_negative_end_column_ends_the_span_at_the_start_of_the_line() {
    let mut a = new_ann("a", "f.txt", 1, 2, "one\n");
    a.end_column = Some(-7);
    let snap = take_snapshot(&file("f.txt", "one\ntwo\n"), 1 << 20);
    assert_eq!(resolve(&a, &snap, 40), Resolution::Unchanged);
    let mut b = new_ann("b", "f.txt", 1, 1, "one");
    b.end_column = Some(-1);
    assert_eq!(resolve(&b, &snap, 40), Resolution::Moved(occ(1, 1, 1, 4)));
}

#[test]
fn lines_removed_above_are_followed() {
    let a = with_cols(new_ann("a", "f.txt", 5, 6, "get line\nc"), 4, 2);
    let mut store = store_with(&[a]);
    let f = file("f.txt", "a\nb\ntarget line\nc\n");
    let r = verify_annotations_at(&mut store, "f.txt", Some(&f), None, None, true, Some(NOW));
    assert_eq!((r.checked, r.updated, r.deleted, r.skipped), (1, 1, 0, 0));
    let a = store.get_annotation("a").unwrap();
    assert_eq!((a.start_line, a.end_line), (3, 4));
    assert_eq!((a.start_column, a.end_column), (Some(4), Some(2)));
}

#[test]
fn a_second_pass_changes_nothing() {
    let a = with_cols(new_ann("a", "f.txt", 3, 3, "target line"), 1, 12);
    let b = with_cols(new_ann("b", "f.txt", 1, 2, "a\nb"), 1, 2);
    let whole = new_ann("w", "f.txt", 4, 4, "c");
    let gone = new_ann("gone", "f.txt", 1, 1, "nowhere to be found");
    let mut store = store_with(&[a, b, whole, gone]);
    let f = file("f.txt", "new1\nnew2\na\nb\ntarget line\nc\n");
    let first = verify_annotations_at(&mut store, "f.txt", Some(&f), None, None, true, Some(NOW));
    assert_eq!((first.checked, first.updated, first.deleted, first.skipped), (4, 3, 1, 0));
    assert_eq!(store.get_annotation("w").unwrap().start_line, 6);
    let second =
        verify_annotations_at(&mut store, "f.txt", Some(&f), None, None, true, Some("later"));
    assert_eq!((second.checked, second.updated, second.deleted, second.skipped), (3, 0, 0, 0));
    let third =
        verify_annotations_at(&mut store, "f.txt", Some(&f), None, None, true, Some("later"));
    assert_eq!((third.checked, third.updated, third.deleted, third.skipped), (3, 0, 0, 0));
    assert_eq!(store.get_annotation("a").unwrap().updated_at, NOW);
}

#[test]
fn a_part_of_a_line_without_columns_is_moved_again() {
    let part = new_ann("p", "f.txt", 1, 1, "target");
    let mut store = store_with(&[part]);
    let f = file("f.txt", "x\nthe target line\n");
    let first = verify_annotations_at(&mut store, "f.txt", Some(&f), None, None, true, Some(NOW));
    assert_eq!((first.checked, first.updated), (1, 1));
    let p = store.get_annotation("p").unwrap();
    assert_eq!((p.start_line, p.end_line, p.start_column, p.end_column), (2, 2, None, None));
    let second =
        verify_annotations_at(&mut store, "f.txt", Some(&f), None, None, true, Some("later"));
    assert_eq!((second.checked, second.updated), (1, 1));
    assert_eq!(store.get_annotation("p").unwrap().updated_at, "later");
}

#[test]
fn blank_selection_is_never_updated() {
    for sel in ["", " ", "\n", " \t\r\n "] {
        let mut store = store_with(&[new_ann("e", "f.txt", 1, 1, sel)]);
        let f = file("f.txt", " \n\n \t\r\n \n");
        let r = verify_annotations_at(&mut store, "f.txt", Some(&f), None, None, true, Some(NOW));
        assert_eq!((r.checked, r.updated, r.deleted, r.skipped), (1, 0, 1, 0));
        assert!(store.get_annotation("e").is_none());

        let mut store = store_with(&[new_ann("e", "f.txt", 1, 1, sel)]);
        let r = verify_annotations_at(&mut store, "f.txt", Some(&f), None, None, false, Some(NOW));
        assert_eq!((r.checked, r.updated, r.deleted, r.skipped), (1, 0, 0, 1));
        assert!(store.get_annotation("e").is_some());
    }
}

#[test]
fn boundary_anchoring_spans_head_to_tail() {
    let sel = "fn foo() {\n  old body\n}";
    let a = new_ann("a", "f.rs", 2, 4, sel);
    let b = with_cols(new_ann("b", "f.rs", 2, 4, sel), 1, 2);
    let mut store = store_with(&[a, b]);
    let f = file("f.rs", "// header\n\n\n  fn foo() {\n  new body\n  more\n}\n");
    let r = verify_annotations_at(&mut store, "f.rs", Some(&f), None, None, true, Some(NOW));
    assert_eq!((r.checked, r.updated, r.deleted, r.skipped), (2, 2, 0, 0));
    let a = store.get_annotation("a").unwrap();
    assert_eq!((a.start_line, a.end_line), (4, 7));
    assert_eq!((a.start_column, a.end_column), (None, None));
    let b = store.get_annotation("b").unwrap();
    assert_eq!((b.start_line, b.end_line), (4, 7));
    assert_eq!((b.start_column, b.end_column), (Some(3), Some(2)));
}

#[test]
fn boundary_anchoring_needs_both_ends() {
    let snap = take_snapshot(&file("f", "head line\nx\ny\n"), 1 << 20);
    let a = new_ann("a", "f", 1, 3, "head line\nmiddle\ntail line");
    assert_eq!(resolve(&a, &snap, 40), Resolution::Lost);
    let snap = take_snapshot(&file("f", "tail line\nx\nhead line\n"), 1 << 20);
    assert_eq!(resolve(&a, &snap, 40), Resolution::Lost);
    let snap = take_snapshot(&file("f", "tail line\nhead line\nchanged\ntail line\n"), 1 << 20);
    assert_eq!(resolve(&a, &snap, 40), Resolution::Moved(occ(2, 4, 1, 10)));
    let blank_head = new_ann("b", "f", 1, 2, "  \ntail line");
    assert_eq!(resolve(&blank_head, &snap, 40), Resolution::Lost);
}

#[test]
fn nearest_occurrence_in_the_window_wins() {
    let content = "x\ndup\nx\nx\nx\nx\nx\ndup\nx\ndup\n";
    let snap = take_snapshot(&file("f", content), 1 << 20);
    let a = new_ann("a", "f", 7, 7, "dup");
    assert_eq!(resolve(&a, &snap, 40), Resolution::Moved(occ(8, 8, 1, 4)));
    let a = new_ann("a", "f", 5, 5, "dup");
    assert_eq!(resolve(&a, &snap, 40), Resolution::Moved(occ(2, 2, 1, 4)));
    let a = new_ann("a", "f", 9, 9, "dup");
    assert_eq!(resolve(&a, &snap, 40), Resolution::Moved(occ(8, 8, 1, 4)));
    let a = new_ann("a", "f", 8, 8, "dup");
    assert_eq!(resolve(&a, &snap, 40), Resolution::Unchanged);
}

#[test]
fn whole_text_is_the_last_resort() {
    let mut content = numbered(200);
    content.push_str("far away\n");
    let a = new_ann("a", "f", 10, 10, "far away");
    let snap = take_snapshot(&file("f", &content), 1 << 20);
    assert!(snap.full.is_some());
    assert_eq!(resolve(&a, &snap, 40), Resolution::Moved(occ(201, 201, 1, 9)));
    assert_eq!(resolve(&a, &snap, 190), Resolution::Moved(occ(201, 201, 1, 9)));
    assert_eq!(resolve(&a, &snap, 191), Resolution::Moved(occ(201, 201, 1, 9)));

    let small = take_snapshot(&file("f", &content), 100);
    assert!(small.full.is_none());
    assert!(small.digest.is_none());
    assert_eq!(resolve(&a, &small, 40), Resolution::Lost);
    assert_eq!(resolve(&a, &small, 190), Resolution::Lost);
    assert_eq!(resolve(&a, &small, 191), Resolution::Moved(occ(201, 201, 1, 9)));
}

#[test]
fn whole_text_keeps_carriage_returns() {
    let content = numbered(100) + "a\r\nb\r\n";
    let snap = take_snapshot(&file("f", &content), 1 << 20);
    let a = new_ann("a", "f", 1, 2, "a\r\nb");
    assert_eq!(resolve(&a, &snap, 5), Resolution::Moved(occ(101, 102, 1, 2)));
    let b = new_ann("b", "f", 101, 102, "a\nb");
    assert_eq!(resolve(&b, &snap, 5), Resolution::Unchanged);
}

#[test]
fn digest_is_refreshed_only_with_the_whole_text() {
    let content = "pad\npad\nneedle\n";
    let mut store = store_with(&[new_ann("a", "f", 1, 1, "needle")]);
    let f = file("f", content);
    let r = verify_annotations_at(&mut store, "f", Some(&f), None, Some(3), true, Some(NOW));
    assert_eq!(r.updated, 1);
    let a = store.get_annotation("a").unwrap();
    assert_eq!(a.start_line, 3);
    assert_eq!(a.file_digest, None);

    let mut old = new_ann("a", "f", 1, 1, "needle");
    old.file_digest = Some("stale".to_string());
    let mut store = store_with(&[old]);
    let r = verify_annotations_at(&mut store, "f", Some(&f), None, None, true, Some(NOW));
    assert_eq!(r.updated, 1);
    assert_eq!(store.get_annotation("a").unwrap().file_digest, Some(f.digest.clone()));
}

#[test]
fn unreadable_file_loses_everything() {
    let a = new_ann("a", "f", 1, 1, "text");
    let b = new_ann("b", "f", 2, 2, "more");
    let mut store = store_with(&[a.clone(), b.clone()]);
    let r = verify_annotations_at(&mut store, "f", None, None, None, true, Some(NOW));
    assert_eq!((r.checked, r.updated, r.deleted, r.skipped), (2, 0, 2, 0));
    assert_eq!(store.len(), 0);
    let mut store = store_with(&[a, b]);
    let r = verify_pass(&mut store, "f", None, 40, false, Some(NOW));
    assert_eq!((r.checked, r.updated, r.deleted, r.skipped), (2, 0, 0, 2));
    assert_eq!(store.len(), 2);
}

#[test]
fn a_pass_reads_the_clock() {
    let mut store = store_with(&[
        new_ann("a", "f", 1, 1, "needle"),
        new_ann("b", "f", 1, 1, "pad"),
        new_ann("c", "f", 1, 1, "nowhere"),
    ]);
    let f = file("f", "pad\npad\nneedle\n");
    let r = verify_annotations_for_file(&mut store, "f", Some(&f), None, None, true);
    assert_eq!((r.checked, r.updated, r.deleted, r.skipped), (3, 1, 1, 0));
    let a = store.get_annotation("a").unwrap();
    assert_eq!(a.start_line, 3);
    assert_ne!(a.updated_at, "2020-01-01T00:00:00Z");
    assert!(a.updated_at.len() >= 20);
    assert!(a.updated_at.contains('T'));
    assert!(a.updated_at.as_str() > "2024-01-01T00:00:00Z");
    assert_eq!(a.created_at, "2020-01-01T00:00:00Z");
    assert_eq!(store.get_annotation("b").unwrap().updated_at, "2020-01-01T00:00:00Z");
}

#[test]
fn without_a_time_the_moved_keep_theirs() {
    let mut store = store_with(&[new_ann("a", "f", 1, 1, "needle")]);
    let f = file("f", "pad\npad\nneedle\n");
    let r = verify_annotations_at(&mut store, "f", Some(&f), None, None, true, None);
    assert_eq!(r.updated, 1);
    let a = store.get_annotation("a").unwrap();
    assert_eq!(a.start_line, 3);
    assert_eq!(a.updated_at, "2020-01-01T00:00:00Z");
}

#[test]
fn annotations_are_checked_latest_first() {
    let mut a = new_ann("a", "f", 1, 1, "gone a");
    a.created_at = "2020".to_string();
    let mut b = new_ann("b", "f", 1, 1, "gone b");
    b.created_at = "2022".to_string();
    let mut c = new_ann("c", "f", 1, 1, "gone c");
    c.created_at = "2021".to_string();
    let mut store = store_with(&[a, b, c]);
    let f = file("f", "nothing\n");
    let r = verify_annotations_at(&mut store, "f", Some(&f), None, None, false, Some(NOW));
    assert_eq!(r.skipped_ids, vec!["b".to_string(), "c".to_string(), "a".to_string()]);
}

#[test]
fn columns_count_characters() {
    let a = with_cols(new_ann("a", "f", 1, 1, "wörld"), 1, 2);
    let snap = take_snapshot(&file("f", "x\nhéllo wörld ünd\n"), 1 << 20);
    assert_eq!(resolve(&a, &snap, 40), Resolution::Moved(occ(2, 2, 7, 12)));
    let moved = relocate(&a, occ(2, 2, 7, 12), NOW, &None);
    assert_eq!((moved.start_column, moved.end_column), (Some(7), Some(12)));
    assert_eq!(resolve(&moved, &snap, 40), Resolution::Unchanged);
}

#[test]
fn relocation_keeps_absent_columns_absent() {
    let mut a = new_ann("a", "f", 1, 1, "x");
    a.start_column = Some(9);
    let m = relocate(&a, occ(5, 6, 2, 3), NOW, &Some("d1".to_string()));
    assert_eq!((m.start_line, m.end_line), (5, 6));
    assert_eq!((m.start_column, m.end_column), (Some(2), None));
    assert_eq!(m.updated_at, NOW);
    assert_eq!(m.file_digest, Some("d1".to_string()));
    assert_eq!(m.id, "a");
    let mut c = new_ann("c", "f", 1, 1, "x");
    c.end_column = Some(4);
    c.file_digest = Some("old".to_string());
    let m = relocate(&c, occ(5, 6, 2, 3), NOW, &None);
    assert_eq!((m.start_column, m.end_column), (None, Some(3)));
    assert_eq!(m.file_digest, Some("old".to_string()));
}

#[test]
fn odd_spans_are_clamped() {
    let snap = take_snapshot(&file("f", "one\ntwo\nthree\n"), 1 << 20);
    let a = new_ann("a", "f", 0, 0, "one");
    assert_eq!(resolve(&a, &snap, 40), Resolution::Unchanged);
    let a = new_ann("a", "f", -5, -9, "one");
    assert_eq!(resolve(&a, &snap, 40), Resolution::Unchanged);
    let a = new_ann("a", "f", 2, 1, "two");
    assert_eq!(resolve(&a, &snap, 40), Resolution::Unchanged);
    let a = new_ann("a", "f", i64::MAX, i64::MAX, "two");
    assert_eq!(resolve(&a, &snap, usize::MAX), Resolution::Moved(occ(2, 2, 1, 4)));
    let a = new_ann("a", "f", i64::MAX, i64::MAX, "two");
    assert_eq!(resolve(&a, &snap, 0), Resolution::Moved(occ(2, 2, 1, 4)));
    let a = new_ann("a", "f", 2, 9, "two\nthree");
    assert_eq!(resolve(&a, &snap, 0), Resolution::Unchanged);
    let empty = Snapshot { lines: Vec::new(), full: None, digest: None };
    assert_eq!(resolve(&new_ann("a", "f", 1, 1, "x"), &empty, 40), Resolution::Lost);
}
