use ailoom::annotation::Annotation;
use ailoom::entries::{left_out, sort_entries};
use ailoom::files::{DirEntry, EntryType};
use ailoom::stitch::{
    append_chars, append_decimal, append_digits, append_text, before, bytes_of,
    collapse_middle_chars, collapse_middle_lines, generate_prompt, order, render_item,
    snippet_of, TemplateId,
};
use ailoom::store::{Store, StoreError};
use ailoom::workspace::{Workspace, Workspaces};

const HEAD_CONCISE: &str = "# Annotations (Concise)\n\n> 说明: 片段中若发生省略，将使用 <<<OMITTED ~N CHARS>>> 进行标记；请勿臆测缺失内容，定位以文件路径与行号为准。\n\n";
const HEAD_DETAILED: &str = "# Annotations (Detailed)\n\n> 说明: 片段中若发生省略，将使用 <<<OMITTED ~N LINES>>> 进行标记；请勿臆测缺失内容，定位以文件路径与行号为准。\n\n";

fn cs(s: &str) -> Vec<char> {
    s.chars().collect()
}

fn text(v: Vec<char>) -> String {
    v.into_iter().collect()
}

fn ann(id: &str, path: &str, start: i64, end: i64, sel: &str, comment: &str, prio: Option<&str>) -> Annotation {
    Annotation {
        id: id.to_string(),
        file_path: path.to_string(),
        start_line: start,
        end_line: end,
        start_column: None,
        end_column: None,
        selected_text: sel.to_string(),
        comment: comment.to_string(),
        pre_context_hash: None,
        post_context_hash: None,
        file_digest: None,
        tags: None,
        priority: prio.map(|p| p.to_string()),
        created_at: "2020".to_string(),
        updated_at: "2020".to_string(),
    }
}

#[test]
fn numbers_in_decimal() {
    for n in [0i64, 7, 10, 42, 1000, -1, -10, -987, i64::MAX, i64::MIN] {
        let mut out = cs("x");
        append_decimal(&mut out, n);
        assert_eq!(text(out), format!("x{}", n));
    }
    let mut out = Vec::new();
    append_digits(&mut out, u64::MAX);
    assert_eq!(text(out), "18446744073709551615");
    let mut out = cs("ab");
    append_text(&mut out, "cd");
    append_chars(&mut out, &cs("ef"));
    assert_eq!(text(out), "abcdef");
    assert_eq!(bytes_of("héllo"), 6);
    assert_eq!(bytes_of(""), 0);
}

#[test]
fn short_selections_stay_whole() {
    let s = "a".repeat(120);
    assert_eq!(text(collapse_middle_chars(&cs(&s), 60, 120)), s);
    assert_eq!(text(collapse_middle_chars(&cs("abc"), 60, 120)), "abc");
    assert_eq!(text(collapse_middle_chars(&cs("abcdef"), 3, 2)), "abcdef");
    let lines: Vec<String> = (1..=40).map(|i| format!("l{}", i)).collect();
    let s = lines.join("\n");
    assert_eq!(text(collapse_middle_lines(&cs(&s), 20, 40)), s);
    assert_eq!(text(collapse_middle_lines(&cs("a\nb\n"), 20, 40)), "a\nb\n");
}

#[test]
fn long_selection_is_collapsed_by_characters() {
    let s = format!("{}{}{}", "a".repeat(60), "b".repeat(10), "c".repeat(60));
    let want = format!("{}\n<<<OMITTED ~10 CHARS>>>\n{}", "a".repeat(60), "c".repeat(60));
    assert_eq!(text(collapse_middle_chars(&cs(&s), 60, 120)), want);
    let s = format!("{}\n{}{}", "a".repeat(59), "b".repeat(10), "ü".repeat(60));
    let want = format!("{}\n<<<OMITTED ~10 CHARS>>>\n{}", "a".repeat(59), "ü".repeat(60));
    assert_eq!(text(collapse_middle_chars(&cs(&s), 60, 120)), want);
    assert_eq!(text(collapse_middle_chars(&cs("abcdefg"), 2, 5)), "ab\n<<<OMITTED ~3 CHARS>>>\nfg");
    assert_eq!(text(collapse_middle_chars(&cs("abc"), 0, 1)), "\n<<<OMITTED ~3 CHARS>>>\n");
}

#[test]
fn long_selection_is_collapsed_by_lines() {
    let lines: Vec<String> = (1..=45).map(|i| format!("l{}", i)).collect();
    let s = lines.join("\n");
    let mut want = String::new();
    for l in &lines[..20] {
        want.push_str(l);
        want.push('\n');
    }
    want.push_str("<<<OMITTED ~5 LINES>>>\n");
    want.push_str(&lines[25..].join("\n"));
    assert_eq!(text(collapse_middle_lines(&cs(&s), 20, 40)), want);
    assert_eq!(
        text(collapse_middle_lines(&cs("a\r\nb\nc\nd\ne\n"), 1, 2)),
        "a\n<<<OMITTED ~3 LINES>>>\ne"
    );
}

#[test]
fn order_of_a_prompt() {
    let v = vec![
        ann("1", "b.rs", 5, 5, "s", "c", Some("P1")),
        ann("2", "a.rs", 9, 9, "s", "c", Some("P1")),
        ann("3", "a.rs", 2, 2, "s", "c", Some("P1")),
        ann("4", "z.rs", 1, 1, "s", "c", Some("P0")),
        ann("5", "a.rs", 1, 1, "s", "c", None),
        ann("6", "a.rs", 1, 1, "s", "c", Some("P2")),
        ann("7", "a.rs", 2, 2, "s", "c", Some("P1")),
        ann("8", "a.rs", 1, 1, "s", "c", Some("urgent")),
        ann("9", "a.rs", -3, 1, "s", "c", Some("P1")),
    ];
    let ids: Vec<String> = order(&v).iter().map(|a| a.id.clone()).collect();
    assert_eq!(ids, vec!["4", "9", "3", "7", "2", "1", "6", "5", "8"]);
    assert!(before(&v[3], &v[0]));
    assert!(!before(&v[0], &v[3]));
    assert!(!before(&v[2], &v[6]));
    assert!(!before(&v[6], &v[2]));
    let mut std_sorted = v.clone();
    let rank = |p: &Option<String>| match p.as_deref() {
        Some("P0") => 0,
        Some("P1") => 1,
        Some("P2") => 2,
        _ => 3,
    };
    std_sorted.sort_by(|a, b| {
        rank(&a.priority)
            .cmp(&rank(&b.priority))
            .then(a.file_path.cmp(&b.file_path))
            .then(a.start_line.cmp(&b.start_line))
    });
    let want: Vec<String> = std_sorted.iter().map(|a| a.id.clone()).collect();
    assert_eq!(ids, want);
}

#[test]
fn concise_prompt() {
    let a = ann("a", "src/b.rs", 3, 4, "  let x = 1;\n", " fix this ", Some("P1"));
    let b = ann("b", "src/a.rs", 10, 10, "foo()", "note", Some("P0"));
    let r = generate_prompt(TemplateId::Concise, 4000, vec![a, b]);
    let want = format!(
        "{}{}{}",
        HEAD_CONCISE,
        "- [src/a.rs:L10-L10] note\n  ```\nfoo()\n```\n\n",
        "- [src/b.rs:L3-L4] fix this\n  ```\nlet x = 1;\n```\n\n"
    );
    assert_eq!(r.prompt, want);
    assert_eq!(r.stats.total, 2);
    assert_eq!(r.stats.used, 2);
    assert!(!r.stats.truncated);
    assert_eq!(r.stats.chars, want.len());
}

#[test]
fn detailed_prompt() {
    let mut a = ann("a", "src/a.rs", 10, 12, "foo()", " note ", Some("P0"));
    a.start_column = Some(2);
    a.end_column = Some(7);
    a.tags = Some(vec!["t1".to_string(), "t2".to_string()]);
    let mut b = ann("b", "src/b.rs", 1, 1, "x ``` y", "", None);
    b.end_column = Some(3);
    b.tags = Some(vec![]);
    let r = generate_prompt(TemplateId::Detailed, 4000, vec![b, a]);
    let want = format!(
        "{}{}{}",
        HEAD_DETAILED,
        "- file: src/a.rs\n  span: L10-L12:2-7\n  tags: t1,t2  priority: P0\n  comment: note\n  selected:\n  ```\nfoo()\n```\n\n",
        "- file: src/b.rs\n  span: L1-L1-3\n  tags:   priority: P1\n  comment: \n  selected:\n  ````\nx ``` y\n````\n\n"
    );
    assert_eq!(r.prompt, want);
    assert_eq!((r.stats.total, r.stats.used, r.stats.truncated), (2, 2, false));
    assert_eq!(r.stats.chars, want.len());
}

#[test]
fn items_and_snippets() {
    let a = ann("a", "f", 1, 1, &"x".repeat(200), "c", None);
    let snip = text(snippet_of(TemplateId::Concise, &a));
    assert_eq!(snip, format!("{}\n<<<OMITTED ~80 CHARS>>>\n{}", "x".repeat(60), "x".repeat(60)));
    assert_eq!(text(snippet_of(TemplateId::Detailed, &a)), "x".repeat(200));
    let item = text(render_item(TemplateId::Concise, &a));
    assert_eq!(item, format!("- [f:L1-L1] c\n  ```\n{}\n```\n\n", snip));
}

#[test]
fn prompt_stops_at_the_budget() {
    let a = ann("a", "a.rs", 1, 1, "one", "first", Some("P0"));
    let b = ann("b", "b.rs", 2, 2, "two", "second", Some("P1"));
    let item_a = "- [a.rs:L1-L1] first\n  ```\none\n```\n\n";
    let item_b = "- [b.rs:L2-L2] second\n  ```\ntwo\n```\n\n";
    let head = HEAD_CONCISE.len();

    let max = head + item_a.len() + item_b.len();
    let r = generate_prompt(TemplateId::Concise, max, vec![a.clone(), b.clone()]);
    assert_eq!(r.prompt, format!("{}{}{}", HEAD_CONCISE, item_a, item_b));
    assert_eq!((r.stats.used, r.stats.truncated), (2, false));

    let r = generate_prompt(TemplateId::Concise, max - 1, vec![a.clone(), b.clone()]);
    assert_eq!(r.prompt, format!("{}{}", HEAD_CONCISE, item_a));
    assert_eq!((r.stats.total, r.stats.used, r.stats.truncated), (2, 1, true));
    assert_eq!(r.stats.chars, head + item_a.len());

    let r = generate_prompt(TemplateId::Concise, head + 10, vec![a.clone(), b.clone()]);
    assert_eq!(r.prompt, format!("{}{}", HEAD_CONCISE, "- [a.rs:L1"));
    assert_eq!((r.stats.used, r.stats.truncated), (1, true));

    let r = generate_prompt(TemplateId::Concise, 10, vec![a.clone(), b.clone()]);
    assert_eq!(r.prompt, HEAD_CONCISE);
    assert_eq!((r.stats.used, r.stats.truncated, r.stats.chars), (1, true, head));

    let r = generate_prompt(TemplateId::Concise, 10, vec![a.clone()]);
    assert_eq!(r.prompt, HEAD_CONCISE);
    assert_eq!((r.stats.total, r.stats.used, r.stats.truncated), (1, 1, false));

    let r = generate_prompt(TemplateId::Detailed, 0, vec![]);
    assert_eq!(r.prompt, HEAD_DETAILED);
    assert_eq!((r.stats.total, r.stats.used, r.stats.truncated), (0, 0, false));
}

#[test]
fn cut_keeps_whole_characters() {
    let a = ann("a", "ü.rs", 1, 1, "one", "first", Some("P0"));
    let head = HEAD_CONCISE.len();
    let r = generate_prompt(TemplateId::Concise, head + 4, vec![a.clone()]);
    assert_eq!(r.prompt, format!("{}{}", HEAD_CONCISE, "- [ü"));
    assert_eq!(r.stats.chars, head + 5);
    let r = generate_prompt(TemplateId::Concise, head + 3, vec![a.clone()]);
    assert_eq!(r.prompt, format!("{}{}", HEAD_CONCISE, "- ["));
    let r = generate_prompt(TemplateId::Concise, head + 5, vec![a]);
    assert_eq!(r.prompt, format!("{}{}", HEAD_CONCISE, "- [ü"));
}

#[test]
fn workspaces_keep_their_identifiers() {
    let mut w = Workspaces::new();
    assert_eq!(w.len(), 0);
    let id1 = w.ensure_workspace_get_id("/repo/a", "/repo/a", "id-1", "t1").unwrap();
    assert_eq!(id1, "id-1");
    let id2 = w.ensure_workspace_get_id("/repo/b", "/repo/b", "id-2", "t2").unwrap();
    assert_eq!(id2, "id-2");
    let again = w.ensure_workspace_get_id("/repo/a", "/moved/a", "id-3", "t3").unwrap();
    assert_eq!(again, "id-1");
    assert_eq!(w.len(), 2);
    let a = w.workspace("/repo/a").unwrap();
    assert_eq!((a.id.as_str(), a.root_path.as_str()), ("id-1", "/moved/a"));
    assert_eq!((a.created_at.as_str(), a.updated_at.as_str()), ("t1", "t3"));
    assert!(w.workspace("/repo/zzz").is_none());
    let s = Store::connect(&mut w, "/repo/b", "id-4", "t4").unwrap();
    assert_eq!(s.workspace_id(), "id-2");
    assert_eq!(s.len(), 0);
    let s = Store::connect(&mut w, "/repo/c", "id-5", "t5").unwrap();
    assert_eq!(s.workspace_id(), "id-5");
    assert_eq!(w.len(), 3);
    let fresh = w.ensure_workspace("/repo/d", "/repo/d").unwrap();
    assert_eq!(fresh.len(), 36);
    assert_eq!(w.len(), 4);
    assert_eq!(w.ensure_workspace("/repo/d", "/elsewhere"), Ok(fresh));
    assert_eq!(w.ensure_workspace("/repo/a", "/repo/a"), Ok("id-1".to_string()));
    assert_eq!(w.len(), 4);
}

#[test]
fn an_identifier_in_use_is_refused_for_a_new_key() {
    let mut w = Workspaces::new();
    assert_eq!(w.ensure_workspace_get_id("k1", "r1", "same", "t1"), Ok("same".to_string()));
    assert_eq!(w.ensure_workspace_get_id("k2", "r2", "same", "t2"), Err(StoreError::DuplicateId));
    assert_eq!(w.len(), 1);
    assert!(w.workspace("k2").is_none());
    assert!(w.holds_id("same"));
    assert!(!w.holds_id("other"));
    assert_eq!(w.ensure_workspace_get_id("k1", "r3", "same", "t3"), Ok("same".to_string()));
    assert!(matches!(Store::connect(&mut w, "k3", "same", "t4"), Err(StoreError::DuplicateId)));
    assert_eq!(w.ensure_workspace_get_id("k2", "r2", "other", "t5"), Ok("other".to_string()));
    assert_eq!(w.len(), 2);
}

#[test]
fn workspaces_are_loaded_from_rows() {
    let row = |id: &str, key: &str| Workspace {
        id: id.to_string(),
        key: key.to_string(),
        root_path: key.to_string(),
        created_at: "t".to_string(),
        updated_at: "t".to_string(),
    };
    let w = Workspaces::with_rows(&[
        row("1", "a"),
        row("2", "b"),
        row("1", "c"),
        row("3", "a"),
        row("4", "d"),
    ]);
    assert_eq!(w.len(), 3);
    assert_eq!(w.workspace("a").unwrap().id, "1");
    assert_eq!(w.workspace("d").unwrap().id, "4");
    assert!(w.workspace("c").is_none());
    assert_eq!(Workspaces::with_rows(&[]).len(), 0);
}

#[test]
fn store_is_loaded_from_rows() {
    let rows = vec![
        ann("a", "f", 1, 1, "s", "first", None),
        ann("b", "f", 1, 1, "s", "second", None),
        ann("a", "f", 1, 1, "s", "third", None),
    ];
    let s = Store::with_rows("ws", &rows);
    assert_eq!(s.len(), 2);
    assert_eq!(s.get_annotation("a").unwrap().comment, "first");
    assert_eq!(s.workspace_id(), "ws");
    assert_eq!(Store::with_rows("ws", &[]).len(), 0);
}

fn entry(name: &str, kind: EntryType) -> DirEntry {
    DirEntry {
        name: name.to_string(),
        path: format!("dir/{}", name),
        entry_type: kind,
        size: if kind == EntryType::File { Some(1) } else { None },
    }
}

#[test]
fn entries_are_listed_directories_first() {
    let v = vec![
        entry("zeta.txt", EntryType::File),
        entry("Alpha.txt", EntryType::File),
        entry("src", EntryType::Dir),
        entry("beta.txt", EntryType::File),
        entry("Docs", EntryType::Dir),
        entry("Zulu.txt", EntryType::File),
        entry("ÄRGER", EntryType::File),
        entry("alpha.TXT", EntryType::File),
        entry("Zoo", EntryType::Dir),
    ];
    let names: Vec<String> = sort_entries(&v).iter().map(|e| e.name.clone()).collect();
    assert_eq!(
        names,
        vec![
            "Docs", "src", "Zoo", "Alpha.txt", "alpha.TXT", "beta.txt", "zeta.txt", "Zulu.txt",
            "ÄRGER"
        ]
    );
    let mut std_sorted = v.clone();
    std_sorted.sort_by(|a, b| match (&a.entry_type, &b.entry_type) {
        (EntryType::Dir, EntryType::File) => std::cmp::Ordering::Less,
        (EntryType::File, EntryType::Dir) => std::cmp::Ordering::Greater,
        _ => a.name.to_lowercase().cmp(&b.name.to_lowercase()),
    });
    let want: Vec<String> = std_sorted.iter().map(|e| e.name.clone()).collect();
    assert_eq!(names, want);
    assert_eq!(sort_entries(&v)[0].path, "dir/Docs");
    assert!(left_out(".git"));
    assert!(left_out("node_modules"));
    assert!(!left_out(".gitignore"));
    assert!(!left_out("src"));
    assert!(sort_entries(&Vec::new()).is_empty());
}
