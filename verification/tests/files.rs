use ailoom::digest::digest_hex;
use ailoom::files::{
    admit_file, decode_file, decode_text, has_nul, is_non_text, read_file_chunk, read_file_full,
    shown_path, write_file, CoreError, FsConfig, Probe, WriteError, HARD_SIZE_BYTES,
    SOFT_SIZE_BYTES,
};
use ailoom::language::{guess_language_by_ext, language_for_extension};

#[test]
fn digest_is_sha256_in_lower_hex() {
    assert_eq!(
        digest_hex(b"abc"),
        "ba7816bf8f01cfea414140de5dae2223b00361a396177a9cb410ff61f20015ad"
    );
    assert_eq!(
        digest_hex(b""),
        "e3b0c44298fc1c149afbf4c8996fb92427ae41e4649b934ca495991b7852b855"
    );
    assert_eq!(digest_hex(b"abc").len(), 64);
    assert_ne!(digest_hex(b"abc"), digest_hex(b"abd"));
}

#[test]
fn text_and_non_text() {
    assert!(!is_non_text(b"plain text\n"));
    assert!(!is_non_text("héllo 世界".as_bytes()));
    assert!(!is_non_text(b""));
    assert!(is_non_text(b"a\0b"));
    assert!(is_non_text(&[0xff, 0xfe, 0x41]));
    assert!(is_non_text(&[0xc3]));
    assert!(is_non_text(&[0xed, 0xa0, 0x80]));
    assert!(has_nul(&[1, 0]));
    assert!(!has_nul(&[1, 2]));
    assert_eq!(decode_text("héllo".as_bytes()), Some("héllo".to_string()));
    assert_eq!(decode_text(&[0x80]), None);
    assert_eq!(decode_text(b"\0"), None);
}

#[test]
fn chunk_of_a_small_file() {
    let c = read_file_chunk("src/a.rs", b"l1\nl2\nl3\nl4\n", 2, 2).unwrap();
    assert_eq!(c.path, "src/a.rs");
    assert_eq!(c.language, "rust");
    assert_eq!(c.size, 12);
    assert_eq!(c.total_lines, 4);
    assert_eq!(c.start_line, 2);
    assert_eq!(c.end_line, 3);
    assert_eq!(c.content, "l2\nl3");
    assert!(!c.truncated);
}

#[test]
fn chunk_beyond_the_end() {
    let c = read_file_chunk("a.txt", b"l1\nl2", 2, 10).unwrap();
    assert_eq!(c.content, "l2");
    assert_eq!(c.end_line, 2);
    assert_eq!(c.total_lines, 2);
    let c = read_file_chunk("a.txt", b"l1\nl2", 5, 10).unwrap();
    assert_eq!(c.content, "");
    assert_eq!(c.start_line, 5);
    assert_eq!(c.end_line, 2);
    let c = read_file_chunk("a.txt", b"", 1, 10).unwrap();
    assert_eq!(c.content, "");
    assert_eq!(c.total_lines, 0);
    assert_eq!(c.end_line, 0);
}

#[test]
fn chunk_with_odd_windows() {
    let c = read_file_chunk("a.txt", b"l1\nl2\nl3", 0, 0).unwrap();
    assert_eq!(c.content, "");
    assert_eq!(c.end_line, 0);
    let c = read_file_chunk("a.txt", b"l1\nl2\nl3", 0, 2).unwrap();
    assert_eq!(c.content, "l1");
    assert_eq!(c.start_line, 0);
    assert_eq!(c.end_line, 1);
    let c = read_file_chunk("a.txt", b"l1\nl2\nl3", 1, 0).unwrap();
    assert_eq!(c.content, "");
    assert_eq!(c.end_line, 0);
    let c = read_file_chunk("a.txt", b"l1\nl2\nl3", 2, usize::MAX).unwrap();
    assert_eq!(c.content, "l2\nl3");
    assert_eq!(c.end_line, 3);
    let c = read_file_chunk("a.txt", b"l1\nl2\nl3", usize::MAX, usize::MAX).unwrap();
    assert_eq!(c.content, "");
    assert_eq!(c.end_line, 3);
}

#[test]
fn chunk_strips_line_endings() {
    let c = read_file_chunk("a.md", b"a\r\nb\r\n", 1, 10).unwrap();
    assert_eq!(c.content, "a\nb");
    assert_eq!(c.total_lines, 2);
    assert_eq!(c.end_line, 2);
    assert_eq!(c.language, "markdown");
}

#[test]
fn chunk_refuses_non_text() {
    assert!(matches!(read_file_chunk("a", b"a\0b", 1, 1), Err(CoreError::NonText)));
    assert!(matches!(read_file_chunk("a", &[0xff], 1, 1), Err(CoreError::NonText)));
}

#[test]
fn chunk_is_truncated_above_the_ceilings() {
    let line = b"0123456789abcdef0123456789abcde\n";
    let mut soft: Vec<u8> = Vec::new();
    while (soft.len() as u64) <= SOFT_SIZE_BYTES {
        soft.extend_from_slice(line);
    }
    let total = soft.len() / line.len();
    let c = read_file_chunk("big.txt", &soft, 1, 10).unwrap();
    assert_eq!(c.total_lines, total);
    assert_eq!(c.end_line, 10);
    assert!(c.truncated);
    let c = read_file_chunk("big.txt", &soft, total - 1, 10).unwrap();
    assert_eq!(c.end_line, total);
    assert!(!c.truncated);

    let mut hard = soft.clone();
    while (hard.len() as u64) <= HARD_SIZE_BYTES {
        hard.extend_from_slice(line);
    }
    let total = hard.len() / line.len();
    let c = read_file_chunk("big.txt", &hard, total - 1, 10).unwrap();
    assert_eq!(c.end_line, total);
    assert!(c.truncated);
    assert!(matches!(read_file_full("big.txt", &hard), Err(CoreError::OverLimit)));
    assert!(decode_file("big.txt", &hard).is_ok());
    let at_soft = vec![b'a'; SOFT_SIZE_BYTES as usize];
    assert!(!read_file_chunk("x", &at_soft, 1, 0).unwrap().truncated);
}

#[test]
fn full_read() {
    let f = read_file_full("docs/readme.md", "héllo\n".as_bytes()).unwrap();
    assert_eq!(f.path, "docs/readme.md");
    assert_eq!(f.language, "markdown");
    assert_eq!(f.size, 7);
    assert_eq!(f.content, "héllo\n");
    assert_eq!(f.digest, digest_hex("héllo\n".as_bytes()));
    assert_eq!(f.digest.len(), 64);
    assert!(matches!(read_file_full("a", b"\0"), Err(CoreError::NonText)));
    assert!(matches!(read_file_full("a", &[0xc0, 0x80]), Err(CoreError::NonText)));
    let at_limit = vec![b'a'; HARD_SIZE_BYTES as usize];
    assert!(read_file_full("a", &at_limit).is_ok());
    let over = vec![0u8; HARD_SIZE_BYTES as usize + 1];
    assert!(matches!(read_file_full("a", &over), Err(CoreError::OverLimit)));
}

#[test]
fn write_with_stale_digest_conflicts() {
    let current = b"old content";
    let r = write_file(current, "new content", Some("0000"));
    match r {
        Err(WriteError::Conflict { current_digest }) => {
            assert_eq!(current_digest, digest_hex(current));
        }
        _ => panic!("a conflict was expected"),
    }
}

#[test]
fn write_with_right_or_no_digest_succeeds() {
    let current = b"old content";
    let base = digest_hex(current);
    let d = write_file(current, "new content", Some(&base)).unwrap();
    assert_eq!(d, digest_hex(b"new content"));
    let d2 = write_file(current, "new content", None).unwrap();
    assert_eq!(d2, d);
    let fresh = read_file_full("f.txt", "new content".as_bytes()).unwrap();
    assert_eq!(fresh.digest, d);
    assert_eq!(fresh.content, "new content");
    assert_eq!(
        write_file(b"abc", "", None).unwrap(),
        "e3b0c44298fc1c149afbf4c8996fb92427ae41e4649b934ca495991b7852b855"
    );
}

#[test]
fn error_codes_and_statuses() {
    assert_eq!(CoreError::InvalidPath.code(), "INVALID_PATH");
    assert_eq!(CoreError::NotFound.code(), "NOT_FOUND");
    assert_eq!(CoreError::NotAFile.code(), "NOT_FILE");
    assert_eq!(CoreError::NonText.code(), "NON_TEXT");
    assert_eq!(CoreError::OverLimit.code(), "OVER_LIMIT");
    assert_eq!(CoreError::Io("x".to_string()).code(), "INTERNAL");
    assert_eq!(CoreError::InvalidPath.message(), "invalid path");
    assert_eq!(CoreError::NotFound.message(), "not found");
    assert_eq!(CoreError::NotAFile.message(), "not a file");
    assert_eq!(CoreError::NonText.message(), "non-text file");
    assert_eq!(CoreError::OverLimit.message(), "file too large for full read");
    assert_eq!(CoreError::Io("disk".to_string()).message(), "io error: disk");
    assert_eq!(CoreError::NonText.status(), 415);
    assert_eq!(CoreError::OverLimit.status(), 413);
    assert_eq!(CoreError::InvalidPath.status(), 400);
    assert_eq!(CoreError::NotFound.status(), 400);
    assert_eq!(CoreError::NotAFile.status(), 400);
    assert_eq!(CoreError::Io("x".to_string()).status(), 500);
    let c = WriteError::Conflict { current_digest: "d".to_string() };
    assert_eq!(c.code(), "CONFLICT");
    assert_eq!(c.status(), 409);
    assert_eq!(WriteError::Io("x".to_string()).code(), "INTERNAL");
    assert_eq!(WriteError::Io("x".to_string()).status(), 500);
}

#[test]
fn paths_are_admitted_or_refused() {
    let cfg = FsConfig::new("/srv/root".to_string());
    let probe = |canonical: Option<&str>, is_file: bool| Probe {
        canonical: canonical.map(|s| s.to_string()),
        is_file,
    };
    assert!(admit_file(&cfg, &probe(Some("/srv/root/a.txt"), true)).is_ok());
    assert!(matches!(admit_file(&cfg, &probe(None, false)), Err(CoreError::NotFound)));
    assert!(matches!(admit_file(&cfg, &probe(None, true)), Err(CoreError::NotFound)));
    assert!(matches!(
        admit_file(&cfg, &probe(Some("/etc/passwd"), true)),
        Err(CoreError::InvalidPath)
    ));
    assert!(matches!(
        admit_file(&cfg, &probe(Some("/srv/rootless/a"), false)),
        Err(CoreError::InvalidPath)
    ));
    assert!(matches!(
        admit_file(&cfg, &probe(Some("/srv/root/dir"), false)),
        Err(CoreError::NotAFile)
    ));
    assert!(matches!(admit_file(&cfg, &probe(Some("/srv/root"), false)), Err(CoreError::NotAFile)));
}

#[test]
fn files_are_shown_relative_to_the_root() {
    let cfg = FsConfig::new("/srv/root".to_string());
    assert_eq!(shown_path(&cfg, "/srv/root/a/b.txt", "x"), "a/b.txt");
    assert_eq!(shown_path(&cfg, "/srv/root", "x"), "");
    assert_eq!(shown_path(&cfg, "/srv/other/c.txt", "x"), "../other/c.txt");
    assert_eq!(shown_path(&cfg, "relative/c.txt", "asked.txt"), "asked.txt");
}

#[test]
fn config_keeps_the_root() {
    let cfg = FsConfig::new("/srv/project".to_string());
    assert_eq!(cfg.root, "/srv/project");
}

#[test]
fn language_by_extension() {
    assert_eq!(guess_language_by_ext("src/main.rs"), "rust");
    assert_eq!(guess_language_by_ext("a.ts"), "typescript");
    assert_eq!(guess_language_by_ext("a.tsx"), "typescript");
    assert_eq!(guess_language_by_ext("a.js"), "javascript");
    assert_eq!(guess_language_by_ext("a.jsx"), "javascript");
    assert_eq!(guess_language_by_ext("a/b/c.json"), "json");
    assert_eq!(guess_language_by_ext("README.md"), "markdown");
    assert_eq!(guess_language_by_ext("x.css"), "css");
    assert_eq!(guess_language_by_ext("x.min.html"), "html");
    assert_eq!(guess_language_by_ext("Makefile"), "plaintext");
    assert_eq!(guess_language_by_ext(".bashrc"), "plaintext");
    assert_eq!(guess_language_by_ext("dir.rs/file"), "plaintext");
    assert_eq!(guess_language_by_ext("x.JSON"), "plaintext");
    assert_eq!(guess_language_by_ext("foo."), "plaintext");
    assert_eq!(guess_language_by_ext(""), "plaintext");
    assert_eq!(guess_language_by_ext(".hidden.rs"), "rust");
    assert_eq!(language_for_extension(Some("rs")), "rust");
    assert_eq!(language_for_extension(Some("")), "plaintext");
    assert_eq!(language_for_extension(None), "plaintext");
}
