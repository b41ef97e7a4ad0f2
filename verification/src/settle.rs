//! Why a pass settles: an annotation that was moved to an occurrence of its
//! selection denotes that selection at its new place, and one whose lines
//! were shifted is moved by as many lines.

use crate::annotation::AnnotationView;
use crate::geometry::{
    lemma_offset_monotone,
    lemma_place_of,
    lemma_position_on_line,
    lemma_span_between,
    line_offset,
    piece,
};
use crate::lines::{join_lines, no_newline};
use crate::resync::{
    chunk_hi,
    chunk_lo,
    chunk_of,
    end_index,
    exact_here,
    relocated,
    resolution,
    span_first,
    span_last,
    span_lines,
    span_text,
    start_index,
    window_first,
    window_last,
    window_match,
    Resolution,
};
use crate::search::{
    Occurrence,
    clamp_i64,
    column_of,
    count_newlines,
    lemma_nearest_index,
    line_of,
    line_start,
    matches_at,
    nearest_index,
    occurrence_at,
    occurrences,
    occurrences_from,
};
use crate::text::is_blank;
use vstd::prelude::*;

verus! {

/// The index at which the span over `lines[i..=j]` ends in its last line.
pub open spec fn span_end_index(lines: Seq<Seq<char>>, j: int, ec: Option<i64>) -> int {
    end_index(ec, lines[j].len() as int)
}

/// The index at which the span over `lines[i..=j]` starts in its first line.
pub open spec fn span_start_index(
    lines: Seq<Seq<char>>,
    i: int,
    j: int,
    sc: Option<i64>,
    ec: Option<i64>,
) -> int {
    if i == j {
        start_index(sc, span_end_index(lines, j, ec))
    } else {
        start_index(sc, lines[i].len() as int)
    }
}

/// The text that a span denotes is the part of the joined lines between the
/// place where the span starts and the place where it ends, and those places
/// have the lines and the start of line that the span names.
pub proof fn lemma_span_text_in_join(
    lines: Seq<Seq<char>>,
    i: int,
    j: int,
    sc: Option<i64>,
    ec: Option<i64>,
)
    requires
        no_newline(lines),
        0 <= i <= j < lines.len(),
    ensures
        0 <= line_offset(lines, i) + span_start_index(lines, i, j, sc, ec) <= line_offset(
            lines,
            j,
        ) + span_end_index(lines, j, ec) <= join_lines(lines).len(),
        span_text(lines.subrange(i, j + 1), sc, ec) == join_lines(lines).subrange(
            line_offset(lines, i) + span_start_index(lines, i, j, sc, ec),
            line_offset(lines, j) + span_end_index(lines, j, ec),
        ),
        count_newlines(
            join_lines(lines).take(
                line_offset(lines, i) + span_start_index(lines, i, j, sc, ec),
            ),
        ) == i,
        line_start(
            join_lines(lines).take(
                line_offset(lines, i) + span_start_index(lines, i, j, sc, ec),
            ),
        ) == line_offset(lines, i),
        count_newlines(
            join_lines(lines).take(line_offset(lines, j) + span_end_index(lines, j, ec)),
        ) == j,
        line_start(
            join_lines(lines).take(line_offset(lines, j) + span_end_index(lines, j, ec)),
        ) == line_offset(lines, j),
        0 <= span_start_index(lines, i, j, sc, ec) <= lines[i].len(),
        0 <= span_end_index(lines, j, ec) <= lines[j].len(),
{
    let cs = span_start_index(lines, i, j, sc, ec);
    let ce = span_end_index(lines, j, ec);
    let part = lines.subrange(i, j + 1);
    assert(part[j - i] == lines[j]);
    assert(part[0] == lines[i]);
    assert(span_lines(part, sc, ec) =~= piece(lines, i, j, cs, ce));
    lemma_span_between(lines, i, j, cs, ce);
    lemma_place_of(lines, i, cs);
    lemma_place_of(lines, j, ce);
}

/// Each occurrence that the search reports is the place of a position at
/// which the needle stands.
pub proof fn lemma_occurrences_are_matches(
    text: Seq<char>,
    needle: Seq<char>,
    first_line: int,
    from: int,
    k: int,
) -> (p: int)
    requires
        0 <= k < occurrences_from(text, needle, first_line, from).len(),
    ensures
        from <= p,
        needle.len() > 0,
        matches_at(text, needle, p),
        occurrences_from(text, needle, first_line, from)[k] == occurrence_at(
            text,
            needle.len() as int,
            first_line,
            p,
        ),
    decreases text.len() - from,
{
    if matches_at(text, needle, from) {
        if k == 0 {
            from
        } else {
            let rest = occurrences_from(text, needle, first_line, from + needle.len());
            assert(occurrences_from(text, needle, first_line, from)[k] == rest[k - 1]);
            lemma_occurrences_are_matches(text, needle, first_line, from + needle.len(), k - 1)
        }
    } else {
        lemma_occurrences_are_matches(text, needle, first_line, from + 1, k)
    }
}

/// Where the needle stands at some position from `from` on, the search
/// reports an occurrence.
pub proof fn lemma_match_is_found(
    text: Seq<char>,
    needle: Seq<char>,
    first_line: int,
    from: int,
    p: int,
)
    requires
        0 <= from <= p,
        needle.len() > 0,
        matches_at(text, needle, p),
    ensures
        occurrences_from(text, needle, first_line, from).len() > 0,
    decreases p - from,
{
    if !matches_at(text, needle, from) {
        lemma_match_is_found(text, needle, first_line, from + 1, p);
    }
}

/// A file whose lines and line lengths all have numbers that fit the type of
/// a line number.
pub open spec fn fits(lines: Seq<Seq<char>>) -> bool {
    &&& lines.len() < i64::MAX
    &&& forall|i: int| 0 <= i < lines.len() ==> (#[trigger] lines[i]).len() < i64::MAX
}

/// The occurrence `o` covers what the columns of annotation `a` leave open:
/// where `a` has no start column `o` starts at the start of its line, and
/// where `a` has no end column `o` ends at the end of its line.
pub open spec fn covers_open_columns(a: AnnotationView, o: Occurrence, lines: Seq<Seq<char>>) -> bool {
    &&& a.start_column is None ==> o.start_col == 1
    &&& a.end_column is None ==> 1 <= o.end_line <= lines.len() && o.end_col == lines[o.end_line
        - 1].len() + 1
}

/// An annotation that was moved to an occurrence of its selection in the
/// window stands right at its new place, if it has both columns, or the
/// occurrence covers its lines from the start or to the end where a column is
/// absent: in the same file its span denotes the selection, so that the next
/// pass, with any window, leaves it untouched.
pub proof fn law_moved_in_window_settles(
    a: AnnotationView,
    lines: Seq<Seq<char>>,
    full: Option<Seq<char>>,
    w: int,
    now: Seq<char>,
    digest: Option<Seq<char>>,
    next_w: int,
)
    requires
        no_newline(lines),
        fits(lines),
        w >= 0,
        !is_blank(a.selected_text),
        window_match(a, lines, w) is Some,
        covers_open_columns(a, window_match(a, lines, w)->0, lines),
    ensures
        exact_here(relocated(a, window_match(a, lines, w)->0, now, digest), lines),
        resolution(relocated(a, window_match(a, lines, w)->0, now, digest), lines, full, next_w)
            == Resolution::Unchanged,
{
    let sel = a.selected_text;
    let first = window_first(a, w);
    let total = lines.len() as int;
    let wlo = chunk_lo(total, first);
    let chunk = chunk_of(lines, first, window_last(a, w));
    let text = join_lines(chunk);
    let occs = occurrences(text, sel, first);
    let anchor = clamp_i64(span_first(a));
    let o = window_match(a, lines, w)->0;
    assert(occs.len() > 0);
    lemma_nearest_index(occs, anchor);
    let k = nearest_index(occs, anchor);
    assert(o == occs[k]);
    let p = lemma_occurrences_are_matches(text, sel, first, 0, k);
    let q = p + sel.len();
    assert(text.len() >= 1);
    assert(chunk.len() >= 1) by {
        if chunk.len() == 0 {
            assert(join_lines(chunk).len() == 0);
        }
    }
    assert(wlo == first - 1);
    assert(no_newline(chunk)) by {
        assert forall|i: int, j: int|
            0 <= i < chunk.len() && 0 <= j < chunk[i].len() implies (#[trigger] chunk[i][j])
            != '\n' by {
            assert(chunk[i] == lines[wlo + i]);
        }
    }
    lemma_position_on_line(chunk, p);
    lemma_position_on_line(chunk, q);
    let i = count_newlines(text.take(p)) as int;
    let j = count_newlines(text.take(q)) as int;
    let cs = p - line_start(text.take(p));
    let ce = q - line_start(text.take(q));
    assert(i <= j && (i == j ==> cs <= ce)) by {
        if i > j {
            lemma_offset_monotone(chunk, j, i);
        }
    }
    assert(chunk[i] == lines[wlo + i]);
    assert(chunk[j] == lines[wlo + j]);
    assert(o.start_line == first + i);
    assert(o.end_line == first + j);
    assert(o.start_col == cs + 1);
    assert(o.end_col == ce + 1);
    let b = relocated(a, o, now, digest);
    assert(span_first(b) == first + i);
    assert(span_last(b) == first + j);
    let here = chunk_of(lines, span_first(b), span_last(b));
    assert(here =~= chunk.subrange(i, j + 1));
    assert(span_end_index(chunk, j, b.end_column) == ce);
    assert(span_start_index(chunk, i, j, b.start_column, b.end_column) == cs);
    lemma_span_text_in_join(chunk, i, j, b.start_column, b.end_column);
    assert(text.subrange(p, q) == sel);
}

/// A span over lines of the window denotes a text that stands in the text of
/// the window, at the place that the span names.
pub proof fn lemma_span_stands_in_window(
    lines: Seq<Seq<char>>,
    first: int,
    last: int,
    x: int,
    y: int,
    sc: Option<i64>,
    ec: Option<i64>,
) -> (p: int)
    requires
        no_newline(lines),
        1 <= first <= x <= y <= last,
        y <= lines.len(),
    ensures
        matches_at(
            join_lines(chunk_of(lines, first, last)),
            span_text(lines.subrange(x - 1, y), sc, ec),
            p,
        ),
        line_of(join_lines(chunk_of(lines, first, last)), first, p) == x,
        column_of(join_lines(chunk_of(lines, first, last)), p) == span_start_index(
            lines,
            x - 1,
            y - 1,
            sc,
            ec,
        ) + 1,
        line_of(
            join_lines(chunk_of(lines, first, last)),
            first,
            p + span_text(lines.subrange(x - 1, y), sc, ec).len(),
        ) == y,
        column_of(
            join_lines(chunk_of(lines, first, last)),
            p + span_text(lines.subrange(x - 1, y), sc, ec).len(),
        ) == span_end_index(lines, y - 1, ec) + 1,
{
    let total = lines.len() as int;
    let wlo = chunk_lo(total, first);
    let chunk = chunk_of(lines, first, last);
    let text = join_lines(chunk);
    assert(wlo == first - 1);
    assert(chunk.len() == chunk_hi(total, first, last) - wlo);
    assert(no_newline(chunk)) by {
        assert forall|i: int, j: int|
            0 <= i < chunk.len() && 0 <= j < chunk[i].len() implies (#[trigger] chunk[i][j])
            != '\n' by {
            assert(chunk[i] == lines[wlo + i]);
        }
    }
    let i = x - first;
    let j = y - first;
    assert(0 <= i <= j < chunk.len());
    assert(chunk.subrange(i, j + 1) =~= lines.subrange(x - 1, y));
    assert(chunk[i] == lines[x - 1]);
    assert(chunk[j] == lines[y - 1]);
    lemma_span_text_in_join(chunk, i, j, sc, ec);
    assert(span_end_index(chunk, j, ec) == span_end_index(lines, y - 1, ec));
    assert(span_start_index(chunk, i, j, sc, ec) == span_start_index(lines, x - 1, y - 1, sc, ec));
    line_offset(chunk, i) + span_start_index(chunk, i, j, sc, ec)
}

/// Two positions of the text of joined lines that lie on the same line at
/// the same column are the same position.
pub proof fn lemma_same_place(lines: Seq<Seq<char>>, p: int, q: int)
    requires
        no_newline(lines),
        lines.len() >= 1,
        0 <= p <= join_lines(lines).len(),
        0 <= q <= join_lines(lines).len(),
        count_newlines(join_lines(lines).take(p)) == count_newlines(join_lines(lines).take(q)),
        column_of(join_lines(lines), p) == column_of(join_lines(lines), q),
    ensures
        p == q,
{
    lemma_position_on_line(lines, p);
    lemma_position_on_line(lines, q);
}

/// The lines of annotation `a` were shifted by `k` lines, down or for a
/// negative `k` up: the shift is within the window of `w` lines, the span of
/// the same columns `k` lines from the recorded one denotes the selection,
/// each column that the annotation has is a column of its line, and every
/// place in the window at which the selection stands is on the line where
/// that span starts, at the column where it starts.
#[verifier::opaque]
pub open spec fn shifted_by(a: AnnotationView, lines: Seq<Seq<char>>, w: int, k: int) -> bool {
    &&& !is_blank(a.selected_text)
    &&& 1 <= a.start_line <= a.end_line
    &&& k != 0
    &&& -w <= k <= w
    &&& 1 <= a.start_line + k
    &&& a.end_line + k <= lines.len()
    &&& (a.start_column matches Some(c) ==> 1 <= c <= lines[a.start_line + k - 1].len() + 1)
    &&& (a.end_column matches Some(c) ==> 1 <= c <= lines[a.end_line + k - 1].len() + 1)
    &&& (a.start_line == a.end_line && a.start_column is Some && a.end_column is Some
        ==> a.start_column->0 <= a.end_column->0)
    &&& span_text(
        lines.subrange(a.start_line + k - 1, a.end_line + k),
        a.start_column,
        a.end_column,
    ) == a.selected_text
    &&& forall|p: int|
        #[trigger] matches_at(
            join_lines(chunk_of(lines, window_first(a, w), window_last(a, w))),
            a.selected_text,
            p,
        ) ==> line_of(
            join_lines(chunk_of(lines, window_first(a, w), window_last(a, w))),
            window_first(a, w),
            p,
        ) == a.start_line + k && column_of(
            join_lines(chunk_of(lines, window_first(a, w), window_last(a, w))),
            p,
        ) == span_start_index(
            lines,
            a.start_line + k - 1,
            a.end_line + k - 1,
            a.start_column,
            a.end_column,
        ) + 1
}

/// An annotation whose lines were shifted is moved by as many lines.
///
/// The annotation is recorded at the lines `s..=e`. In the file as it is now
/// the span of the same columns `k` lines further down, or for a negative `k`
/// further up, denotes the selection, the shift is within the window, and
/// every place in the window at which the selection stands is on line
/// `s + k`, at the column at which that span starts. Then the annotation is
/// moved to the lines `s + k..=e + k`, and each column that it has stays as it
/// is.
pub proof fn law_shifted_span_is_followed(
    a: AnnotationView,
    lines: Seq<Seq<char>>,
    full: Option<Seq<char>>,
    w: int,
    k: int,
    now: Seq<char>,
    digest: Option<Seq<char>>,
)
    requires
        no_newline(lines),
        fits(lines),
        shifted_by(a, lines, w, k),
    ensures
        resolution(a, lines, full, w) is Moved,
        resolution(a, lines, full, w)->Moved_0.start_line == a.start_line + k,
        resolution(a, lines, full, w)->Moved_0.end_line == a.end_line + k,
        relocated(a, resolution(a, lines, full, w)->Moved_0, now, digest).start_column
            == a.start_column,
        relocated(a, resolution(a, lines, full, w)->Moved_0, now, digest).end_column
            == a.end_column,
{
    reveal(shifted_by);
    let sel = a.selected_text;
    let s = a.start_line as int;
    let e = a.end_line as int;
    let first = window_first(a, w);
    let last = window_last(a, w);
    let chunk = chunk_of(lines, first, last);
    let text = join_lines(chunk);
    assert(span_first(a) == s && span_last(a) == e);
    assert(sel.len() > 0) by {
        if sel.len() == 0 {
            assert(is_blank(sel));
        }
    }
    let p0 = lemma_span_stands_in_window(
        lines,
        first,
        last,
        s + k,
        e + k,
        a.start_column,
        a.end_column,
    );
    assert(!exact_here(a, lines)) by {
        if exact_here(a, lines) {
            let y = if e <= lines.len() {
                e
            } else {
                lines.len() as int
            };
            assert(chunk_of(lines, s, e).len() > 0);
            assert(chunk_of(lines, s, e) =~= lines.subrange(s - 1, y));
            let p1 = lemma_span_stands_in_window(
                lines,
                first,
                last,
                s,
                y,
                a.start_column,
                a.end_column,
            );
            assert(matches_at(text, sel, p1));
            assert(line_of(text, first, p1) == s);
        }
    }
    let occs = occurrences(text, sel, first);
    lemma_match_is_found(text, sel, first, 0, p0);
    let anchor = clamp_i64(span_first(a));
    lemma_nearest_index(occs, anchor);
    let n = nearest_index(occs, anchor);
    let p = lemma_occurrences_are_matches(text, sel, first, 0, n);
    assert(matches_at(text, sel, p));
    assert(matches_at(text, sel, p0));
    assert(p == p0) by {
        assert(chunk.len() >= 1) by {
            if chunk.len() == 0 {
                assert(join_lines(chunk).len() == 0);
            }
        }
        assert(no_newline(chunk)) by {
            let wlo = chunk_lo(lines.len() as int, first);
            assert forall|i: int, j: int|
                0 <= i < chunk.len() && 0 <= j < chunk[i].len() implies (
            #[trigger] chunk[i][j]) != '\n' by {
                assert(chunk[i] == lines[wlo + i]);
            }
        }
        lemma_same_place(chunk, p, p0);
    }
    let o = occs[n];
    assert(window_match(a, lines, w) == Some(o));
    assert(o == occurrence_at(text, sel.len() as int, first, p0));
    assert(o.start_line == s + k);
    assert(o.end_line == e + k);
    assert(a.start_column matches Some(c) ==> o.start_col == c) by {
        let i = s + k - 1;
        let j = e + k - 1;
        if a.start_column is Some {
            assert(o.start_col == span_start_index(lines, i, j, a.start_column, a.end_column)
                + 1);
        }
    }
    assert(a.end_column matches Some(c) ==> o.end_col == c);
}

} // verus!
