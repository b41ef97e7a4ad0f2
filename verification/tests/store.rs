use ailoom::annotation::{
    create_annotation, update_annotation, Annotation, CreateAnnotation, UpdateAnnotation,
};
use ailoom::rows::{decode_tags, encode_tags, AnnotationRow};
use ailoom::store::{holds_text, less_than, same_text, ImportAction, Store, StoreError};

fn ann(id: &str, created: &str, updated: &str) -> Annotation {
    Annotation {
        id: id.to_string(),
        file_path: "src/a.rs".to_string(),
        start_line: 1,
        end_line: 1,
        start_column: None,
        end_column: None,
        selected_text: "x".to_string(),
        comment: id.to_string(),
        pre_context_hash: None,
        post_context_hash: None,
        file_digest: None,
        tags: Some(vec!["t1".to_string(), "t2".to_string()]),
        priority: Some("P1".to_string()),
        created_at: created.to_string(),
        updated_at: updated.to_string(),
    }
}

fn ids(v: &[Annotation]) -> Vec<String> {
    v.iter().map(|a| a.id.clone()).collect()
}

#[test]
fn texts_are_ordered_like_strings() {
    let samples = ["", "a", "ab", "b", "2020-01-01T00:00:00Z", "2020-01-01T00:00:01Z", "é", "z", "世"];
    for a in samples {
        for b in samples {
            assert_eq!(less_than(a, b), a < b);
            assert_eq!(same_text(a, b), a == b);
        }
    }
}

#[test]
fn holds_text_finds_members() {
    let v = vec!["a".to_string(), "b".to_string()];
    assert!(holds_text(&v, "b"));
    assert!(!holds_text(&v, "c"));
    assert!(!holds_text(&[], "a"));
}

#[test]
fn new_store_is_empty_and_bound() {
    let s = Store::new("ws-1");
    assert_eq!(s.len(), 0);
    assert_eq!(s.workspace_id(), "ws-1");
    assert!(s.list_annotations().is_empty());
    assert!(s.get_annotation("x").is_none());
}

#[test]
fn insert_get_update_delete() {
    let mut s = Store::new("ws");
    let a = ann("a", "2020-01-01T00:00:00Z", "2020-01-01T00:00:00Z");
    assert_eq!(s.insert_annotation(&a), Ok(()));
    assert_eq!(s.len(), 1);
    let got = s.get_annotation("a").unwrap();
    assert_eq!(got.comment, "a");
    assert_eq!(got.tags, Some(vec!["t1".to_string(), "t2".to_string()]));

    let mut b = a.clone();
    b.comment = "changed".to_string();
    b.start_line = 7;
    assert_eq!(s.update_annotation(&b), Ok(()));
    let got = s.get_annotation("a").unwrap();
    assert_eq!(got.comment, "changed");
    assert_eq!(got.start_line, 7);
    assert_eq!(s.len(), 1);

    assert_eq!(s.delete_annotation("a"), Ok(()));
    assert_eq!(s.len(), 0);
    assert!(s.get_annotation("a").is_none());
}

#[test]
fn insert_refuses_a_known_identifier() {
    let mut s = Store::new("ws");
    let a = ann("a", "2020-01-01T00:00:00Z", "2020-01-01T00:00:00Z");
    s.insert_annotation(&a).unwrap();
    let mut again = a.clone();
    again.comment = "other".to_string();
    assert_eq!(s.insert_annotation(&again), Err(StoreError::DuplicateId));
    assert_eq!(s.len(), 1);
    assert_eq!(s.get_annotation("a").unwrap().comment, "a");
}

#[test]
fn update_and_delete_of_unknown_identifier_change_nothing() {
    let mut s = Store::new("ws");
    s.insert_annotation(&ann("a", "2020", "2020")).unwrap();
    assert_eq!(s.update_annotation(&ann("zz", "2021", "2021")), Ok(()));
    assert_eq!(s.delete_annotation("zz"), Ok(()));
    assert_eq!(s.len(), 1);
    assert_eq!(ids(&s.list_annotations()), vec!["a"]);
}

#[test]
fn listing_is_latest_first() {
    let mut s = Store::new("ws");
    s.insert_annotation(&ann("old", "2020-01-01T00:00:00Z", "x")).unwrap();
    s.insert_annotation(&ann("new", "2022-01-01T00:00:00Z", "x")).unwrap();
    s.insert_annotation(&ann("mid", "2021-01-01T00:00:00Z", "x")).unwrap();
    s.insert_annotation(&ann("mid2", "2021-01-01T00:00:00Z", "x")).unwrap();
    assert_eq!(ids(&s.list_annotations()), vec!["new", "mid", "mid2", "old"]);
    assert_eq!(ids(&s.export_all()), vec!["new", "mid", "mid2", "old"]);
}

#[test]
fn listing_by_identifiers() {
    let mut s = Store::new("ws");
    s.insert_annotation(&ann("a", "2020", "x")).unwrap();
    s.insert_annotation(&ann("b", "2021", "x")).unwrap();
    s.insert_annotation(&ann("c", "2022", "x")).unwrap();
    let all = s.list_annotations_by_ids(&[]);
    assert_eq!(ids(&all), vec!["c", "b", "a"]);
    let some = s.list_annotations_by_ids(&["a".to_string(), "c".to_string(), "nope".to_string()]);
    assert_eq!(ids(&some), vec!["c", "a"]);
    let none = s.list_annotations_by_ids(&["nope".to_string()]);
    assert!(none.is_empty());
}

#[test]
fn import_skips_an_older_record() {
    let mut s = Store::new("ws");
    s.insert_annotation(&ann("a", "2020-01-01T00:00:00Z", "2020-06-01T00:00:00Z")).unwrap();
    let mut older = ann("a", "2020-01-01T00:00:00Z", "2020-01-01T00:00:00Z");
    older.comment = "older".to_string();
    assert_eq!(s.import_decision(&older), ImportAction::Skip);
    assert_eq!(s.import_annotations(&[older]), Ok((0, 0, 1)));
    assert_eq!(s.get_annotation("a").unwrap().comment, "a");
}

#[test]
fn import_skips_a_record_of_the_same_time() {
    let mut s = Store::new("ws");
    s.insert_annotation(&ann("a", "2020-01-01T00:00:00Z", "2020-06-01T00:00:00Z")).unwrap();
    let mut same = ann("a", "2020-01-01T00:00:00Z", "2020-06-01T00:00:00Z");
    same.comment = "same".to_string();
    assert_eq!(s.import_annotations(&[same]), Ok((0, 0, 1)));
    assert_eq!(s.get_annotation("a").unwrap().comment, "a");
}

#[test]
fn import_replaces_by_a_newer_record() {
    let mut s = Store::new("ws");
    s.insert_annotation(&ann("a", "2020-01-01T00:00:00Z", "2020-06-01T00:00:00Z")).unwrap();
    let mut newer = ann("a", "2020-01-01T00:00:00Z", "2021-01-01T00:00:00Z");
    newer.comment = "newer".to_string();
    assert_eq!(s.import_decision(&newer), ImportAction::Replace);
    assert_eq!(s.import_annotations(&[newer]), Ok((0, 1, 0)));
    assert_eq!(s.get_annotation("a").unwrap().comment, "newer");
    assert_eq!(s.len(), 1);
}

#[test]
fn import_adds_an_unknown_record() {
    let mut s = Store::new("ws");
    s.insert_annotation(&ann("a", "2020", "2020")).unwrap();
    let b = ann("b", "2021", "2021");
    assert_eq!(s.import_decision(&b), ImportAction::Add);
    assert_eq!(s.import_annotations(&[b]), Ok((1, 0, 0)));
    assert_eq!(s.len(), 2);
    assert!(s.get_annotation("b").is_some());
}

#[test]
fn import_counts_add_up_to_the_batch() {
    let mut s = Store::new("ws");
    s.insert_annotation(&ann("a", "2020", "2020-06")).unwrap();
    s.insert_annotation(&ann("b", "2020", "2020-06")).unwrap();
    let batch = vec![
        ann("a", "2020", "2020-01"),
        ann("b", "2020", "2020-12"),
        ann("c", "2020", "2020-01"),
        ann("c", "2020", "2020-02"),
        ann("c", "2020", "2020-02"),
        ann("d", "2020", "2020-01"),
    ];
    let (added, updated, skipped) = s.import_annotations(&batch).unwrap();
    assert_eq!((added, updated, skipped), (2, 2, 2));
    assert_eq!(added + updated + skipped, batch.len() as u64);
    assert_eq!(s.len(), 4);
    assert_eq!(s.get_annotation("c").unwrap().updated_at, "2020-02");
    assert_eq!(s.import_annotations(&[]), Ok((0, 0, 0)));
}

#[test]
fn tags_are_stored_as_json() {
    let tags = Some(vec!["a".to_string(), "b \"q\"".to_string(), "ü".to_string()]);
    let text = encode_tags(&tags);
    assert_eq!(text, Some("[\"a\",\"b \\\"q\\\"\",\"ü\"]".to_string()));
    assert_eq!(decode_tags(&text), tags);
    assert_eq!(encode_tags(&Some(vec![])), Some("[]".to_string()));
    assert_eq!(encode_tags(&None), None);
    assert_eq!(decode_tags(&None), None);
    assert_eq!(decode_tags(&Some("[]".to_string())), Some(vec![]));
    assert_eq!(decode_tags(&Some("not json".to_string())), None);
    assert_eq!(decode_tags(&Some("[1, 2]".to_string())), None);
    assert_eq!(decode_tags(&Some("{\"a\": 1}".to_string())), None);
    assert_eq!(decode_tags(&Some(" [ \"x\" ] ".to_string())), Some(vec!["x".to_string()]));
}

#[test]
fn rows_and_annotations() {
    let a = ann("a", "2020", "2021");
    let row = AnnotationRow::from_core(&a);
    assert_eq!(row.id, "a");
    assert_eq!(row.tags, Some("[\"t1\",\"t2\"]".to_string()));
    assert_eq!(row.created_at, "2020");
    let back = row.clone().into_core();
    assert_eq!(back.id, a.id);
    assert_eq!(back.tags, a.tags);
    assert_eq!(back.updated_at, "2021");
    assert_eq!(back.priority, a.priority);
    let mut broken = row;
    broken.tags = Some("oops".to_string());
    assert_eq!(broken.into_core().tags, None);
}

#[test]
fn create_fills_in_defaults() {
    let body = CreateAnnotation {
        file_path: "a.rs".to_string(),
        start_line: 3,
        end_line: 4,
        start_column: Some(2),
        end_column: None,
        selected_text: "sel".to_string(),
        comment: "c".to_string(),
        pre_context_hash: None,
        post_context_hash: Some("post".to_string()),
        file_digest: None,
        tags: None,
        priority: None,
    };
    let a = Annotation::create("id-1".to_string(), "2024-05-05T10:00:00Z", body.clone());
    assert_eq!(a.id, "id-1");
    assert_eq!(a.priority, Some("P1".to_string()));
    assert_eq!(a.created_at, "2024-05-05T10:00:00Z");
    assert_eq!(a.updated_at, "2024-05-05T10:00:00Z");
    assert_eq!(a.start_column, Some(2));
    assert_eq!(a.post_context_hash, Some("post".to_string()));
    let mut with = body;
    with.priority = Some("P0".to_string());
    let b = Annotation::create("id-2".to_string(), "now", with);
    assert_eq!(b.priority, Some("P0".to_string()));
}

#[test]
fn create_and_update_read_the_clock() {
    let body = CreateAnnotation {
        file_path: "a.rs".to_string(),
        start_line: 3,
        end_line: 4,
        start_column: None,
        end_column: None,
        selected_text: "sel".to_string(),
        comment: "c".to_string(),
        pre_context_hash: None,
        post_context_hash: None,
        file_digest: None,
        tags: None,
        priority: None,
    };
    let a = create_annotation(body.clone());
    let b = create_annotation(body);
    assert_eq!(a.id.len(), 36);
    assert_ne!(a.id, b.id);
    assert_eq!(a.created_at, a.updated_at);
    assert!(a.created_at.as_str() > "2024-01-01T00:00:00Z");
    assert_eq!(a.priority, Some("P1".to_string()));
    assert_eq!(a.selected_text, "sel");

    let old = ann("x", "2020-01-01T00:00:00Z", "2020-01-01T00:00:00Z");
    let body = UpdateAnnotation { comment: Some("new".to_string()), ..UpdateAnnotation::default() };
    let next = update_annotation(old, body);
    assert_eq!(next.comment, "new");
    assert_eq!(next.created_at, "2020-01-01T00:00:00Z");
    assert!(next.updated_at.as_str() > "2024-01-01T00:00:00Z");
}

#[test]
fn partial_update_replaces_what_is_present() {
    let a = ann("a", "2020", "2020");
    let body = UpdateAnnotation {
        comment: Some("new comment".to_string()),
        end_line: Some(9),
        start_column: Some(4),
        tags: Some(vec![]),
        ..UpdateAnnotation::default()
    };
    let b = a.clone().apply_update(body, "2024");
    assert_eq!(b.id, "a");
    assert_eq!(b.comment, "new comment");
    assert_eq!(b.end_line, 9);
    assert_eq!(b.start_line, 1);
    assert_eq!(b.start_column, Some(4));
    assert_eq!(b.end_column, None);
    assert_eq!(b.tags, Some(vec![]));
    assert_eq!(b.selected_text, "x");
    assert_eq!(b.created_at, "2020");
    assert_eq!(b.updated_at, "2024");
    let c = a.clone().apply_update(UpdateAnnotation::default(), "2025");
    assert_eq!(c.comment, "a");
    assert_eq!(c.updated_at, "2025");
    assert_eq!(a.copy().tags, a.tags);
}
