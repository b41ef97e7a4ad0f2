use ailoom::lines::{first_line_end, join_range, read_lines};
use ailoom::resync::{slice_by_char_cols, span_text_of};
use ailoom::search::{
    find_all_positions, find_first, last_line_start, line_distance, line_number, matches_here,
    pick_nearest, Occurrence,
};
use ailoom::text::{blank, chars_of, string_of, string_of_range, trim_bounds, white_space};

fn cs(s: &str) -> Vec<char> {
    s.chars().collect()
}

fn occ(start_line: i64, end_line: i64, start_col: i64, end_col: i64) -> Occurrence {
    Occurrence { start_line, end_line, start_col, end_col }
}

#[test]
fn chars_round_trip() {
    let v = chars_of("héllo\n世界");
    assert_eq!(v, cs("héllo\n世界"));
    assert_eq!(string_of(&v), "héllo\n世界");
    assert_eq!(string_of_range(&v, 1, 4), "éll");
    assert_eq!(chars_of(""), Vec::<char>::new());
}

#[test]
fn white_space_follows_unicode() {
    for c in [' ', '\t', '\n', '\r', '\u{0b}', '\u{0c}', '\u{85}', '\u{a0}', '\u{1680}'] {
        assert!(white_space(c));
    }
    for c in ['\u{2000}', '\u{200a}', '\u{2028}', '\u{2029}', '\u{202f}', '\u{205f}', '\u{3000}'] {
        assert!(white_space(c));
    }
    for c in ['a', '0', '\u{200b}', '\u{feff}', '_', '\u{0}'] {
        assert!(!white_space(c));
    }
    let mut code: u32 = 0;
    while code < 0x3100 {
        if let Some(c) = char::from_u32(code) {
            assert_eq!(white_space(c), c.is_whitespace());
        }
        code += 1;
    }
}

#[test]
fn blank_texts() {
    assert!(blank(&cs("")));
    assert!(blank(&cs(" \t\r\n")));
    assert!(!blank(&cs("  x ")));
}

#[test]
fn trim_bounds_of_blank_and_plain_texts() {
    assert_eq!(trim_bounds(&cs("")), (0, 0));
    assert_eq!(trim_bounds(&cs("   ")), (3, 3));
    assert_eq!(trim_bounds(&cs("  ab c ")), (2, 6));
    assert_eq!(trim_bounds(&cs("abc")), (0, 3));
}

#[test]
fn trim_bounds_match_trim() {
    for s in ["", "   ", "abc", "  abc", "abc  ", " \t a b \n", "\u{3000}x\u{a0}"] {
        let v = cs(s);
        let (a, b) = trim_bounds(&v);
        let got: String = v[a..b].iter().collect();
        assert_eq!(got, s.trim());
    }
}

#[test]
fn lines_of_a_file() {
    let lines = read_lines(&cs("a\nb\r\nc"));
    assert_eq!(lines, vec![cs("a"), cs("b"), cs("c")]);
    assert_eq!(read_lines(&cs("a\nb\n")), vec![cs("a"), cs("b")]);
    assert_eq!(read_lines(&cs("")), Vec::<Vec<char>>::new());
    assert_eq!(read_lines(&cs("\n")), vec![cs("")]);
    assert_eq!(read_lines(&cs("\n\n")), vec![cs(""), cs("")]);
    assert_eq!(read_lines(&cs("x\r")), vec![cs("x\r")]);
    assert_eq!(read_lines(&cs("x\r\r\n")), vec![cs("x\r")]);
    for s in ["a\nb\r\nc", "one\n\ntwo\n", "\r\n", "tail\r"] {
        let want: Vec<Vec<char>> = s.lines().map(|l| l.chars().collect()).collect();
        assert_eq!(read_lines(&cs(s)), want);
    }
}

#[test]
fn joins_lines_with_newlines() {
    let lines = vec![cs("a"), cs("bb"), cs(""), cs("c")];
    assert_eq!(join_range(&lines, 0, 4), cs("a\nbb\n\nc"));
    assert_eq!(join_range(&lines, 1, 3), cs("bb\n"));
    assert_eq!(join_range(&lines, 2, 2), cs(""));
    assert_eq!(join_range(&lines, 3, 4), cs("c"));
}

#[test]
fn first_and_last_line_of_a_text() {
    assert_eq!(first_line_end(&cs("ab\ncd\nef")), 2);
    assert_eq!(first_line_end(&cs("abc")), 3);
    assert_eq!(first_line_end(&cs("")), 0);
    assert_eq!(last_line_start(&cs("ab\ncd\nef")), 6);
    assert_eq!(last_line_start(&cs("abc")), 0);
    assert_eq!(last_line_start(&cs("abc\n")), 4);
}

#[test]
fn matches_and_first_match() {
    let t = cs("abcabc");
    assert!(matches_here(&t, &cs("bc"), 1));
    assert!(!matches_here(&t, &cs("bc"), 2));
    assert!(!matches_here(&t, &cs("bc"), 5));
    assert!(matches_here(&t, &cs(""), 6));
    assert!(!matches_here(&t, &cs(""), 7));
    assert_eq!(find_first(&t, &cs("bc"), 0), Some(1));
    assert_eq!(find_first(&t, &cs("bc"), 2), Some(4));
    assert_eq!(find_first(&t, &cs("bc"), 5), None);
    assert_eq!(find_first(&t, &cs("x"), 0), None);
    assert_eq!(find_first(&t, &cs("abcabcd"), 0), None);
}

#[test]
fn positions_of_occurrences() {
    let got = find_all_positions(&cs("ab\ncd ab\nab"), &cs("ab"), 1);
    assert_eq!(got, vec![occ(1, 1, 1, 3), occ(2, 2, 4, 6), occ(3, 3, 1, 3)]);
}

#[test]
fn positions_count_characters_not_bytes() {
    let got = find_all_positions(&cs("é ab\n世界ab"), &cs("ab"), 1);
    assert_eq!(got, vec![occ(1, 1, 3, 5), occ(2, 2, 3, 5)]);
}

#[test]
fn occurrences_do_not_overlap() {
    let got = find_all_positions(&cs("aaaaa"), &cs("aa"), 1);
    assert_eq!(got, vec![occ(1, 1, 1, 3), occ(1, 1, 3, 5)]);
}

#[test]
fn occurrence_over_several_lines() {
    let got = find_all_positions(&cs("x\none\ntwo\ny\n"), &cs("one\ntwo"), 1);
    assert_eq!(got, vec![occ(2, 3, 1, 4)]);
    let got = find_all_positions(&cs("x\ny\n"), &cs("y\n"), 1);
    assert_eq!(got, vec![occ(2, 3, 1, 1)]);
}

#[test]
fn lines_are_counted_from_the_first_line_given() {
    let got = find_all_positions(&cs("a\nb"), &cs("b"), 10);
    assert_eq!(got, vec![occ(11, 11, 1, 2)]);
}

#[test]
fn empty_needle_or_text_occurs_nowhere() {
    assert!(find_all_positions(&cs("abc"), &cs(""), 1).is_empty());
    assert!(find_all_positions(&cs(""), &cs("a"), 1).is_empty());
    assert!(find_all_positions(&cs("ab"), &cs("abc"), 1).is_empty());
}

#[test]
fn line_numbers_saturate() {
    assert_eq!(line_number(1, 0), 1);
    assert_eq!(line_number(5, 7), 12);
    assert_eq!(line_number(i64::MAX, 1), i64::MAX);
    assert_eq!(line_number(i64::MAX - 1, 1), i64::MAX);
    assert_eq!(line_distance(3, 10), 7);
    assert_eq!(line_distance(10, 3), 7);
    assert_eq!(line_distance(i64::MIN, i64::MAX), (i64::MAX as i128) - (i64::MIN as i128));
}

#[test]
fn nearest_prefers_the_first_of_equals() {
    let occs = vec![occ(2, 2, 1, 2), occ(8, 8, 5, 6), occ(12, 12, 1, 2)];
    assert_eq!(pick_nearest(&occs, 10), Some(occ(8, 8, 5, 6)));
    assert_eq!(pick_nearest(&occs, 5), Some(occ(2, 2, 1, 2)));
    assert_eq!(pick_nearest(&occs, 100), Some(occ(12, 12, 1, 2)));
    assert_eq!(pick_nearest(&Vec::new(), 1), None);
    let same = vec![occ(4, 4, 1, 2), occ(4, 4, 7, 8), occ(6, 6, 1, 2)];
    assert_eq!(pick_nearest(&same, 5), Some(occ(4, 4, 1, 2)));
}

#[test]
fn slices_by_columns() {
    let line = cs("héllo wörld");
    assert_eq!(slice_by_char_cols(&line, 1, 6), cs("héllo"));
    assert_eq!(slice_by_char_cols(&line, 7, usize::MAX), cs("wörld"));
    assert_eq!(slice_by_char_cols(&line, 0, 3), cs("hé"));
    assert_eq!(slice_by_char_cols(&line, 5, 3), cs(""));
    assert_eq!(slice_by_char_cols(&line, 50, 60), cs(""));
    assert_eq!(slice_by_char_cols(&line, 3, 3), cs(""));
    assert_eq!(slice_by_char_cols(&cs(""), 1, 5), cs(""));
    assert_eq!(slice_by_char_cols(&line, 1, 0), cs(""));
}

#[test]
fn text_of_a_span() {
    let lines = vec![cs("zero"), cs("first line"), cs("second"), cs("third line")];
    assert_eq!(span_text_of(&lines, 1, 2, None, None), cs("first line"));
    assert_eq!(span_text_of(&lines, 1, 2, Some(7), None), cs("line"));
    assert_eq!(span_text_of(&lines, 1, 2, Some(1), Some(6)), cs("first"));
    assert_eq!(span_text_of(&lines, 1, 2, Some(7), Some(3)), cs(""));
    assert_eq!(span_text_of(&lines, 1, 4, Some(7), Some(6)), cs("line\nsecond\nthird"));
    assert_eq!(span_text_of(&lines, 1, 3, None, None), cs("first line\nsecond"));
    assert_eq!(span_text_of(&lines, 1, 3, Some(99), Some(-4)), cs("\n"));
    assert_eq!(span_text_of(&lines, 1, 2, Some(1), Some(-1)), cs(""));
    assert_eq!(span_text_of(&lines, 1, 3, Some(99), Some(1000)), cs("\nsecond"));
    assert_eq!(span_text_of(&lines, 1, 3, Some(-3), Some(0)), cs("first line\n"));
    assert_eq!(span_text_of(&lines, 2, 4, None, Some(1)), cs("second\n"));
}
