//! Where an annotation stands in a file that may have changed.
//!
//! For one annotation and one file the stages are tried in order and the
//! first that succeeds decides:
//!
//! 1. a selection that is blank is lost;
//! 2. the text that the recorded span denotes now is rebuilt and compared with
//!    the selection: if they are equal the annotation stays as it is;
//! 3. the selection is searched literally in the window of lines around the
//!    span, and the occurrence nearest to the recorded first line wins;
//! 4. for a selection of several lines, its first and its last line, trimmed,
//!    are searched one by one in the lines of the window;
//! 5. the selection is searched literally in the whole text, where that was
//!    kept.
//!
//! Stages 3 to 5 give a new place; where none succeeds the annotation is lost.

use crate::annotation::{opt_text, Annotation, AnnotationView};
use crate::lines::{first_line_end, first_line_len, join_lines, join_range, lines_view};
use crate::search::{
    clamp_i64,
    find_all_positions,
    find_first,
    first_match,
    last_line_start,
    line_number,
    line_start,
    nearest,
    occurrences,
    pick_nearest,
    Occurrence,
};
use crate::text::{blank, chars_of, is_blank, trim_bounds, trimmed};
use vstd::prelude::*;

verus! {

/// The number of lines searched on each side of the span, where none is given.
pub const DEFAULT_WINDOW: usize = 40;

/// What a file is read as: its lines, and its whole text where that is kept
/// for the search of last resort, with the digest of the file.
pub struct Snapshot {
    pub lines: Vec<Vec<char>>,
    pub full: Option<Vec<char>>,
    pub digest: Option<String>,
}

/// A snapshot as plain mathematical values.
pub struct SnapshotView {
    pub lines: Seq<Seq<char>>,
    pub full: Option<Seq<char>>,
    pub digest: Option<Seq<char>>,
}

impl View for Snapshot {
    type V = SnapshotView;

    open spec fn view(&self) -> SnapshotView {
        SnapshotView {
            lines: lines_view(self.lines@),
            full: match self.full {
                Some(t) => Some(t@),
                None => None,
            },
            digest: opt_text(self.digest),
        }
    }
}

/// What became of one annotation.
#[derive(Clone, Copy, Debug, PartialEq, Eq, Structural)]
pub enum Resolution {
    /// The span still denotes the selection.
    Unchanged,
    /// The selection was found again, at this place.
    Moved(Occurrence),
    /// The selection was not found.
    Lost,
}

/// The first line of the span, at least 1.
pub open spec fn span_first(a: AnnotationView) -> int {
    if a.start_line >= 1 {
        a.start_line as int
    } else {
        1
    }
}

/// The last line of the span, at least its first.
pub open spec fn span_last(a: AnnotationView) -> int {
    if a.end_line >= span_first(a) {
        a.end_line as int
    } else {
        span_first(a)
    }
}

/// The first line of the window of `w` lines around the span, at least 1.
pub open spec fn window_first(a: AnnotationView, w: int) -> int {
    if span_first(a) - w >= 1 {
        span_first(a) - w
    } else {
        1
    }
}

/// The last line of the window of `w` lines around the span.
pub open spec fn window_last(a: AnnotationView, w: int) -> int {
    span_last(a) + w
}

/// The index in `total` lines of line number `first`, or `total` beyond them.
pub open spec fn chunk_lo(total: int, first: int) -> int {
    if first - 1 < total {
        first - 1
    } else {
        total
    }
}

/// The index just after line number `last` in `total` lines, not before
/// `chunk_lo`.
pub open spec fn chunk_hi(total: int, first: int, last: int) -> int {
    let hi = if last < total {
        last
    } else {
        total
    };
    if hi < chunk_lo(total, first) {
        chunk_lo(total, first)
    } else {
        hi
    }
}

/// The lines numbered `first` to `last` that the file has, `first` at least 1.
pub open spec fn chunk_of(lines: Seq<Seq<char>>, first: int, last: int) -> Seq<Seq<char>> {
    lines.subrange(
        chunk_lo(lines.len() as int, first),
        chunk_hi(lines.len() as int, first, last),
    )
}

/// The index in a line of `len` characters at which a span that starts in
/// column `col` begins: column 1, and any column below it, is index 0, and a
/// column beyond the line is its end.
pub open spec fn start_index(col: Option<i64>, len: int) -> int {
    match col {
        None => 0,
        Some(c) => if c <= 1 {
            0
        } else if c - 1 < len {
            c - 1
        } else {
            len
        },
    }
}

/// The index in a line of `len` characters before which a span ends whose end
/// column is `col`: an absent column is the end of the line, column 1 and any
/// column below it is index 0, and a column beyond the line is its end.
pub open spec fn end_index(col: Option<i64>, len: int) -> int {
    match col {
        None => len,
        Some(c) => if c <= 1 {
            0
        } else if c - 1 < len {
            c - 1
        } else {
            len
        },
    }
}

/// The lines of a span, the last cut at the end column and then the first cut
/// at the start column. `lines` is not empty.
pub open spec fn span_lines(lines: Seq<Seq<char>>, sc: Option<i64>, ec: Option<i64>) -> Seq<
    Seq<char>,
> {
    let last = lines.len() - 1;
    let cut = lines.update(last, lines[last].take(end_index(ec, lines[last].len() as int)));
    cut.update(0, cut[0].skip(start_index(sc, cut[0].len() as int)))
}

/// The text that a span over `lines` denotes, from its start column on the
/// first line to its end column on the last. `lines` is not empty.
pub open spec fn span_text(lines: Seq<Seq<char>>, sc: Option<i64>, ec: Option<i64>) -> Seq<char> {
    join_lines(span_lines(lines, sc, ec))
}

/// Stage 2: the recorded span still denotes the selection.
pub open spec fn exact_here(a: AnnotationView, lines: Seq<Seq<char>>) -> bool {
    let chunk = chunk_of(lines, span_first(a), span_last(a));
    chunk.len() > 0 && span_text(chunk, a.start_column, a.end_column) == a.selected_text
}

/// Stage 3: the occurrence of the selection in the window that is nearest to
/// the recorded first line.
pub open spec fn window_match(a: AnnotationView, lines: Seq<Seq<char>>, w: int) -> Option<
    Occurrence,
> {
    let first = window_first(a, w);
    let chunk = chunk_of(lines, first, window_last(a, w));
    nearest(occurrences(join_lines(chunk), a.selected_text, first), clamp_i64(span_first(a)))
}

/// The first line of a selection, trimmed.
pub open spec fn head_of(sel: Seq<char>) -> Seq<char> {
    trimmed(sel.take(first_line_len(sel) as int))
}

/// The last line of a selection, trimmed.
pub open spec fn tail_of(sel: Seq<char>) -> Seq<char> {
    trimmed(sel.skip(line_start(sel) as int))
}

/// For each of `lines` that holds `piece` and whose number is at least
/// `min_line`, the place of the first occurrence of `piece` in it. The first
/// of `lines` has the number `first_line`.
pub open spec fn line_hits(
    lines: Seq<Seq<char>>,
    piece: Seq<char>,
    first_line: int,
    min_line: i64,
) -> Seq<Occurrence>
    decreases lines.len(),
{
    if lines.len() == 0 {
        Seq::empty()
    } else {
        let rest = line_hits(lines.drop_last(), piece, first_line, min_line);
        let number = clamp_i64(first_line + lines.len() - 1);
        match first_match(lines.last(), piece, 0) {
            Some(c) => if number >= min_line {
                rest.push(
                    Occurrence {
                        start_line: number,
                        end_line: number,
                        start_col: clamp_i64(c + 1),
                        end_col: clamp_i64(c + piece.len() + 1),
                    },
                )
            } else {
                rest
            },
            None => rest,
        }
    }
}

/// Stage 4: for a selection of several lines, the span from the nearest line
/// that holds its trimmed first line to the nearest line, at or after that
/// one, that holds its trimmed last line.
pub open spec fn anchored_match(a: AnnotationView, lines: Seq<Seq<char>>, w: int) -> Option<
    Occurrence,
> {
    let sel = a.selected_text;
    let head = head_of(sel);
    let tail = tail_of(sel);
    let first = window_first(a, w);
    let chunk = chunk_of(lines, first, window_last(a, w));
    if !sel.contains('\n') || head.len() == 0 || tail.len() == 0 {
        None
    } else {
        match nearest(line_hits(chunk, head, first, 1), clamp_i64(span_first(a))) {
            None => None,
            Some(h) => match nearest(
                line_hits(chunk, tail, first, h.start_line),
                clamp_i64(span_last(a)),
            ) {
                None => None,
                Some(t) => Some(
                    Occurrence {
                        start_line: h.start_line,
                        end_line: t.start_line,
                        start_col: h.start_col,
                        end_col: t.end_col,
                    },
                ),
            },
        }
    }
}

/// Stage 5: the occurrence of the selection in the whole text that is
/// nearest to the recorded first line.
pub open spec fn full_match(a: AnnotationView, full: Option<Seq<char>>) -> Option<Occurrence> {
    match full {
        Some(t) => nearest(occurrences(t, a.selected_text, 1), clamp_i64(span_first(a))),
        None => None,
    }
}

/// What becomes of annotation `a` in a file with these lines and, where it
/// was kept, this whole text, with a window of `w` lines.
pub open spec fn resolution(
    a: AnnotationView,
    lines: Seq<Seq<char>>,
    full: Option<Seq<char>>,
    w: int,
) -> Resolution {
    if is_blank(a.selected_text) {
        Resolution::Lost
    } else if exact_here(a, lines) {
        Resolution::Unchanged
    } else if window_match(a, lines, w) is Some {
        Resolution::Moved(window_match(a, lines, w)->0)
    } else if anchored_match(a, lines, w) is Some {
        Resolution::Moved(anchored_match(a, lines, w)->0)
    } else if full_match(a, full) is Some {
        Resolution::Moved(full_match(a, full)->0)
    } else {
        Resolution::Lost
    }
}

/// What becomes of annotation `a` in a file that was read as `snap`, or that
/// could not be read as text at all.
pub open spec fn resolution_in(a: AnnotationView, snap: Option<SnapshotView>, w: int) -> Resolution {
    match snap {
        Some(s) => resolution(a, s.lines, s.full, w),
        None => Resolution::Lost,
    }
}

/// The annotation at its new place: the lines are the occurrence's, each
/// column is the occurrence's if the annotation had that column and stays
/// absent if it had not, the time of the last change is `now`, and the digest
/// is the file's where that is known.
pub open spec fn relocated(
    a: AnnotationView,
    o: Occurrence,
    now: Seq<char>,
    digest: Option<Seq<char>>,
) -> AnnotationView {
    AnnotationView {
        start_line: o.start_line,
        end_line: o.end_line,
        start_column: if a.start_column is Some {
            Some(o.start_col)
        } else {
            None
        },
        end_column: if a.end_column is Some {
            Some(o.end_col)
        } else {
            None
        },
        updated_at: now,
        file_digest: if digest is Some {
            digest
        } else {
            a.file_digest
        },
        ..a
    }
}

/// Whether two texts hold the same characters.
pub fn same_chars(a: &[char], b: &[char]) -> (r: bool)
    ensures
        r == (a@ == b@),
{
    if a.len() != b.len() {
        return false;
    }
    let mut i: usize = 0;
    while i < a.len()
        invariant
            i <= a@.len(),
            a@.len() == b@.len(),
            forall|j: int| 0 <= j < i ==> a@[j] == b@[j],
        decreases a@.len() - i,
    {
        if a[i] != b[i] {
            return false;
        }
        i += 1;
    }
    assert(a@ =~= b@);
    true
}

/// The characters `line[from..to]`.
pub fn copy_range(line: &[char], from: usize, to: usize) -> (out: Vec<char>)
    requires
        from <= to <= line@.len(),
    ensures
        out@ == line@.subrange(from as int, to as int),
{
    let mut out: Vec<char> = Vec::new();
    let mut i: usize = from;
    while i < to
        invariant
            from <= i <= to <= line@.len(),
            out@ == line@.subrange(from as int, i as int),
        decreases to - i,
    {
        out.push(line[i]);
        assert(line@.subrange(from as int, i as int).push(line@[i as int]) =~= line@.subrange(
            from as int,
            i + 1,
        ));
        i += 1;
    }
    out
}

/// The index at which a span that starts in column `col` begins in a line of
/// `len` characters.
pub fn start_index_of(col: Option<i64>, len: usize) -> (r: usize)
    ensures
        r == start_index(col, len as int),
        r <= len,
{
    match col {
        None => 0,
        Some(c) => if c <= 1 {
            0
        } else if ((c - 1) as u64) < len as u64 {
            (c - 1) as usize
        } else {
            len
        },
    }
}

/// The index before which a span whose end column is `col` ends in a line of
/// `len` characters.
pub fn end_index_of(col: Option<i64>, len: usize) -> (r: usize)
    ensures
        r == end_index(col, len as int),
        r <= len,
{
    match col {
        None => len,
        Some(c) => if c <= 1 {
            0
        } else if ((c - 1) as u64) < len as u64 {
            (c - 1) as usize
        } else {
            len
        },
    }
}

/// The part of one line from column `start_col` up to, not including, column
/// `end_col`, both counted from 1 in scalar values: a column below 1 is the
/// start of the line, one beyond the line is its end, and where the start lies
/// behind the end the part is empty.
pub fn slice_by_char_cols(line: &[char], start_col: usize, end_col: usize) -> (out: Vec<char>)
    ensures
        out@ == col_slice(line@, start_col as int, end_col as int),
{
    let s: usize = if start_col == 0 {
        0
    } else {
        start_col - 1
    };
    let e: usize = if end_col == 0 {
        0
    } else {
        end_col - 1
    };
    if s > e {
        return Vec::new();
    }
    let n = line.len();
    let a = if s < n {
        s
    } else {
        n
    };
    let b = if e < n {
        e
    } else {
        n
    };
    copy_range(line, a, b)
}

/// The part of `line` from column `start_col` up to, not including, column
/// `end_col`.
pub open spec fn col_slice(line: Seq<char>, start_col: int, end_col: int) -> Seq<char> {
    let s = if start_col <= 1 {
        0
    } else {
        start_col - 1
    };
    let e = if end_col <= 1 {
        0
    } else {
        end_col - 1
    };
    if s > e {
        Seq::empty()
    } else {
        line.subrange(
            if s < line.len() {
                s
            } else {
                line.len() as int
            },
            if e < line.len() {
                e
            } else {
                line.len() as int
            },
        )
    }
}

/// The text that the span over `lines[lo..hi]` denotes.
pub fn span_text_of(
    lines: &Vec<Vec<char>>,
    lo: usize,
    hi: usize,
    sc: Option<i64>,
    ec: Option<i64>,
) -> (out: Vec<char>)
    requires
        lo < hi <= lines@.len(),
    ensures
        out@ == span_text(lines_view(lines@).subrange(lo as int, hi as int), sc, ec),
{
    let ghost chunk = lines_view(lines@).subrange(lo as int, hi as int);
    let ghost want = span_lines(chunk, sc, ec);
    let mut parts: Vec<Vec<char>> = Vec::new();
    let mut i: usize = lo;
    while i < hi
        invariant
            lo <= i <= hi <= lines@.len(),
            lo < hi,
            chunk == lines_view(lines@).subrange(lo as int, hi as int),
            want == span_lines(chunk, sc, ec),
            parts@.len() == i - lo,
            forall|k: int| 0 <= k < parts@.len() ==> (#[trigger] parts@[k])@ == want[k],
        decreases hi - i,
    {
        let line = &lines[i];
        assert(chunk[i - lo] == line@);
        let to: usize = if i == hi - 1 {
            end_index_of(ec, line.len())
        } else {
            line.len()
        };
        let from: usize = if i == lo {
            start_index_of(sc, to)
        } else {
            0
        };
        let part = copy_range(line, from, to);
        proof {
            assert(line@.subrange(0, to as int) =~= line@.take(to as int));
            assert(line@.subrange(from as int, to as int) =~= line@.take(to as int).skip(
                from as int,
            ));
            assert(line@.take(line@.len() as int) =~= line@);
            assert(line@.skip(0) =~= line@);
            assert(part@ == want[i - lo]);
        }
        parts.push(part);
        i += 1;
    }
    let out = join_range(&parts, 0, parts.len());
    proof {
        assert(lines_view(parts@).subrange(0, parts@.len() as int) =~= want);
    }
    out
}

/// The indices in `total` lines of the lines numbered `first` to `last`.
pub fn chunk_bounds(total: usize, first: i128, last: i128) -> (r: (usize, usize))
    requires
        first >= 1,
    ensures
        r.0 == chunk_lo(total as int, first as int),
        r.1 == chunk_hi(total as int, first as int, last as int),
        r.0 <= r.1 <= total,
{
    let t: i128 = total as i128;
    let lo: i128 = if first - 1 < t {
        first - 1
    } else {
        t
    };
    let hi0: i128 = if last < t {
        last
    } else {
        t
    };
    let hi: i128 = if hi0 < lo {
        lo
    } else {
        hi0
    };
    (lo as usize, hi as usize)
}

/// The places in `lines[lo..hi]` of the first occurrence of `piece` per line,
/// for the lines whose number is at least `min_line`.
pub fn find_line_hits(
    lines: &Vec<Vec<char>>,
    lo: usize,
    hi: usize,
    piece: &[char],
    first_line: i64,
    min_line: i64,
) -> (out: Vec<Occurrence>)
    requires
        lo <= hi <= lines@.len(),
        first_line >= 1,
    ensures
        out@ == line_hits(
            lines_view(lines@).subrange(lo as int, hi as int),
            piece@,
            first_line as int,
            min_line,
        ),
{
    let ghost chunk = lines_view(lines@).subrange(lo as int, hi as int);
    let mut out: Vec<Occurrence> = Vec::new();
    let mut i: usize = lo;
    assert(chunk.take(0) =~= Seq::<Seq<char>>::empty());
    while i < hi
        invariant
            lo <= i <= hi <= lines@.len(),
            first_line >= 1,
            chunk == lines_view(lines@).subrange(lo as int, hi as int),
            out@ == line_hits(chunk.take(i - lo), piece@, first_line as int, min_line),
        decreases hi - i,
    {
        let line = &lines[i];
        proof {
            let now = chunk.take(i - lo + 1);
            assert(now.drop_last() =~= chunk.take(i - lo));
            assert(now.last() == line@);
        }
        let number = line_number(first_line, i - lo);
        match find_first(line, piece, 0) {
            Some(c) => {
                if number >= min_line {
                    let occ = Occurrence {
                        start_line: number,
                        end_line: number,
                        start_col: line_number(1, c),
                        end_col: end_column(c, piece.len()),
                    };
                    out.push(occ);
                }
            },
            None => {},
        }
        i += 1;
    }
    assert(chunk.take(hi - lo) =~= chunk);
    out
}

/// The column just after a piece of `len` characters that starts at index `c`.
fn end_column(c: usize, len: usize) -> (r: i64)
    ensures
        r == clamp_i64(c + len + 1),
{
    let e: i128 = c as i128 + len as i128 + 1;
    if e > i64::MAX as i128 {
        i64::MAX
    } else {
        e as i64
    }
}

/// A piece of `s`, trimmed: `s[from..to]` without the white space at its ends.
fn trimmed_piece(s: &[char], from: usize, to: usize) -> (out: Vec<char>)
    requires
        from <= to <= s@.len(),
    ensures
        out@ == trimmed(s@.subrange(from as int, to as int)),
{
    let raw = copy_range(s, from, to);
    let (a, b) = trim_bounds(&raw);
    copy_range(&raw, a, b)
}

/// Stage 4 on the lines `lines[lo..hi]`, the first of which has the number
/// `first_line`: the span from the nearest line that holds `head` to the
/// nearest line, at or after it, that holds `tail`.
fn anchor_in(
    lines: &Vec<Vec<char>>,
    lo: usize,
    hi: usize,
    head: &[char],
    tail: &[char],
    first_line: i64,
    anchor_start: i64,
    anchor_end: i64,
) -> (r: Option<Occurrence>)
    requires
        lo <= hi <= lines@.len(),
        first_line >= 1,
    ensures
        r == match nearest(
            line_hits(
                lines_view(lines@).subrange(lo as int, hi as int),
                head@,
                first_line as int,
                1,
            ),
            anchor_start,
        ) {
            None => None,
            Some(h) => match nearest(
                line_hits(
                    lines_view(lines@).subrange(lo as int, hi as int),
                    tail@,
                    first_line as int,
                    h.start_line,
                ),
                anchor_end,
            ) {
                None => None,
                Some(t) => Some(
                    Occurrence {
                        start_line: h.start_line,
                        end_line: t.start_line,
                        start_col: h.start_col,
                        end_col: t.end_col,
                    },
                ),
            },
        },
{
    let heads = find_line_hits(lines, lo, hi, head, first_line, 1);
    match pick_nearest(&heads, anchor_start) {
        None => None,
        Some(h) => {
            let tails = find_line_hits(lines, lo, hi, tail, first_line, h.start_line);
            match pick_nearest(&tails, anchor_end) {
                None => None,
                Some(t) => Some(
                    Occurrence {
                        start_line: h.start_line,
                        end_line: t.start_line,
                        start_col: h.start_col,
                        end_col: t.end_col,
                    },
                ),
            }
        },
    }
}

/// What becomes of one annotation in a file that was read as `snap`, with a
/// window of `window` lines on each side of the recorded span.
pub fn resolve(ann: &Annotation, snap: &Snapshot, window: usize) -> (r: Resolution)
    ensures
        r == resolution(ann@, snap@.lines, snap@.full, window as int),
{
    let sel = chars_of(ann.selected_text.as_str());
    if blank(&sel) {
        return Resolution::Lost;
    }
    let total = snap.lines.len();
    let first: i64 = if ann.start_line >= 1 {
        ann.start_line
    } else {
        1
    };
    let last: i64 = if ann.end_line >= first {
        ann.end_line
    } else {
        first
    };
    let (lo, hi) = chunk_bounds(total, first as i128, last as i128);
    if lo < hi {
        let cur = span_text_of(&snap.lines, lo, hi, ann.start_column, ann.end_column);
        if same_chars(&cur, &sel) {
            return Resolution::Unchanged;
        }
    }
    let w: i128 = window as i128;
    let wfirst: i128 = if first as i128 - w >= 1 {
        first as i128 - w
    } else {
        1
    };
    let wlast: i128 = last as i128 + w;
    let (wlo, whi) = chunk_bounds(total, wfirst, wlast);
    let wtext = join_range(&snap.lines, wlo, whi);
    let first_line: i64 = wfirst as i64;
    let occs = find_all_positions(&wtext, &sel, first_line);
    match pick_nearest(&occs, first) {
        Some(o) => {
            return Resolution::Moved(o);
        },
        None => {},
    }
    let k = first_line_end(&sel);
    if k < sel.len() {
        let head = trimmed_piece(&sel, 0, k);
        let j = last_line_start(&sel);
        let tail = trimmed_piece(&sel, j, sel.len());
        proof {
            assert(sel@.subrange(0, k as int) =~= sel@.take(k as int));
            assert(sel@.subrange(j as int, sel@.len() as int) =~= sel@.skip(j as int));
        }
        if head.len() > 0 && tail.len() > 0 {
            match anchor_in(&snap.lines, wlo, whi, &head, &tail, first_line, first, last) {
                Some(o) => {
                    return Resolution::Moved(o);
                },
                None => {},
            }
        }
    }
    match &snap.full {
        Some(t) => {
            let all = find_all_positions(t, &sel, 1);
            match pick_nearest(&all, first) {
                Some(o) => Resolution::Moved(o),
                None => Resolution::Lost,
            }
        },
        None => Resolution::Lost,
    }
}

/// The annotation at the place `o`, last changed at `now`, with the digest of
/// the file where that is known.
pub fn relocate(ann: &Annotation, o: Occurrence, now: &str, digest: &Option<String>) -> (r:
    Annotation)
    ensures
        r@ == relocated(ann@, o, now@, opt_text(*digest)),
{
    let mut r = ann.copy();
    r.start_line = o.start_line;
    r.end_line = o.end_line;
    if r.start_column.is_some() {
        r.start_column = Some(o.start_col);
    }
    if r.end_column.is_some() {
        r.end_column = Some(o.end_col);
    }
    r.updated_at = now.to_owned();
    match digest {
        Some(d) => {
            r.file_digest = Some(d.clone());
        },
        None => {},
    }
    r
}

} // verus!
