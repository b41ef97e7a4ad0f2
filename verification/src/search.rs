//! Literal search in a text, with the place of each occurrence as lines and
//! columns.
//!
//! Positions are indices into the scalar values of the text. A line number is
//! the number of the first line plus the `'\n'` before the position; a column is
//! one more than the characters since the start of that line. The end of an
//! occurrence is the position just after its last character.

use vstd::prelude::*;

verus! {

/// Where a piece of text stands: the line and column of its first character,
/// and the line and column just after its last one.
#[derive(Clone, Copy, Debug, PartialEq, Eq, Structural)]
pub struct Occurrence {
    pub start_line: i64,
    pub end_line: i64,
    pub start_col: i64,
    pub end_col: i64,
}

/// `x`, or the bound of `i64` that it lies beyond.
pub open spec fn clamp_i64(x: int) -> i64 {
    if x > i64::MAX {
        i64::MAX
    } else if x < i64::MIN {
        i64::MIN
    } else {
        x as i64
    }
}

/// The number of `'\n'` in `s`.
pub open spec fn count_newlines(s: Seq<char>) -> nat
    decreases s.len(),
{
    if s.len() == 0 {
        0
    } else {
        count_newlines(s.drop_last()) + if s.last() == '\n' {
            1nat
        } else {
            0nat
        }
    }
}

/// The index just after the last `'\n'` of `s`, or 0 if `s` holds none: where
/// the line begins that the end of `s` lies on.
pub open spec fn line_start(s: Seq<char>) -> nat
    decreases s.len(),
{
    if s.len() == 0 {
        0
    } else if s.last() == '\n' {
        s.len()
    } else {
        line_start(s.drop_last())
    }
}

/// The line of position `pos` in `text`, where the text begins on line
/// `first_line`.
pub open spec fn line_of(text: Seq<char>, first_line: int, pos: int) -> int {
    first_line + count_newlines(text.take(pos))
}

/// The column of position `pos` in `text`, counted from 1.
pub open spec fn column_of(text: Seq<char>, pos: int) -> int {
    pos - line_start(text.take(pos)) + 1
}

/// `needle` stands in `text` at position `i`.
pub open spec fn matches_at(text: Seq<char>, needle: Seq<char>, i: int) -> bool {
    &&& 0 <= i
    &&& i + needle.len() <= text.len()
    &&& text.subrange(i, i + needle.len()) == needle
}

/// The least position from `from` on at which `needle` stands in `text`.
pub open spec fn first_match(text: Seq<char>, needle: Seq<char>, from: int) -> Option<int>
    decreases text.len() + 1 - from,
{
    if from < 0 || from + needle.len() > text.len() {
        None
    } else if matches_at(text, needle, from) {
        Some(from)
    } else {
        first_match(text, needle, from + 1)
    }
}

/// The place of the occurrence of `len` characters at position `i`.
pub open spec fn occurrence_at(text: Seq<char>, len: int, first_line: int, i: int) -> Occurrence {
    Occurrence {
        start_line: clamp_i64(line_of(text, first_line, i)),
        end_line: clamp_i64(line_of(text, first_line, i + len)),
        start_col: clamp_i64(column_of(text, i)),
        end_col: clamp_i64(column_of(text, i + len)),
    }
}

/// The occurrences of `needle` in `text` from position `from` on, left to
/// right, none overlapping the one before it: after an occurrence the search
/// goes on just behind it. An empty needle occurs nowhere.
pub open spec fn occurrences_from(
    text: Seq<char>,
    needle: Seq<char>,
    first_line: int,
    from: int,
) -> Seq<Occurrence>
    decreases text.len() - from,
{
    if needle.len() == 0 || from < 0 || from + needle.len() > text.len() {
        Seq::empty()
    } else if matches_at(text, needle, from) {
        seq![occurrence_at(text, needle.len() as int, first_line, from)] + occurrences_from(
            text,
            needle,
            first_line,
            from + needle.len(),
        )
    } else {
        occurrences_from(text, needle, first_line, from + 1)
    }
}

/// All occurrences of `needle` in `text`, which begins on line `first_line`.
pub open spec fn occurrences(text: Seq<char>, needle: Seq<char>, first_line: int) -> Seq<
    Occurrence,
> {
    occurrences_from(text, needle, first_line, 0)
}

/// How far apart two line numbers are.
pub open spec fn distance(a: i64, b: i64) -> int {
    if a >= b {
        a - b
    } else {
        b - a
    }
}

/// The index of the occurrence whose first line is nearest to `anchor`; of
/// several equally near, the first. 0 for an empty sequence.
pub open spec fn nearest_index(occs: Seq<Occurrence>, anchor: i64) -> int
    decreases occs.len(),
{
    if occs.len() <= 1 {
        0
    } else {
        let k = nearest_index(occs.drop_last(), anchor);
        if distance(occs.last().start_line, anchor) < distance(occs[k].start_line, anchor) {
            occs.len() - 1
        } else {
            k
        }
    }
}

/// The occurrence whose first line is nearest to `anchor`, if there is any.
pub open spec fn nearest(occs: Seq<Occurrence>, anchor: i64) -> Option<Occurrence> {
    if occs.len() == 0 {
        None
    } else {
        Some(occs[nearest_index(occs, anchor)])
    }
}

/// What `nearest_index` picks: no occurrence is nearer to the anchor, and none
/// before it is as near.
pub proof fn lemma_nearest_index(occs: Seq<Occurrence>, anchor: i64)
    requires
        occs.len() > 0,
    ensures
        0 <= nearest_index(occs, anchor) < occs.len(),
        forall|j: int|
            0 <= j < occs.len() ==> distance(occs[nearest_index(occs, anchor)].start_line, anchor)
                <= distance((#[trigger] occs[j]).start_line, anchor),
        forall|j: int|
            0 <= j < nearest_index(occs, anchor) ==> distance(
                occs[nearest_index(occs, anchor)].start_line,
                anchor,
            ) < distance((#[trigger] occs[j]).start_line, anchor),
    decreases occs.len(),
{
    if occs.len() > 1 {
        let front = occs.drop_last();
        lemma_nearest_index(front, anchor);
        let k = nearest_index(front, anchor);
        assert(front[k] == occs[k]);
        assert forall|j: int| 0 <= j < occs.len() implies distance(
            occs[nearest_index(occs, anchor)].start_line,
            anchor,
        ) <= distance((#[trigger] occs[j]).start_line, anchor) by {
            if j < front.len() {
                assert(front[j] == occs[j]);
            }
        }
        assert forall|j: int| 0 <= j < nearest_index(occs, anchor) implies distance(
            occs[nearest_index(occs, anchor)].start_line,
            anchor,
        ) < distance((#[trigger] occs[j]).start_line, anchor) by {
            assert(front[j] == occs[j]);
        }
    }
}

/// `first` plus `offset`, or `i64::MAX` where that is beyond it.
pub fn line_number(first: i64, offset: usize) -> (r: i64)
    requires
        first >= 1,
    ensures
        r == clamp_i64(first + offset),
        r >= first,
{
    let room: i64 = i64::MAX - first;
    if offset as u64 > room as u64 {
        i64::MAX
    } else {
        first + offset as i64
    }
}

/// Whether `needle` stands in `text` at position `pos`.
pub fn matches_here(text: &[char], needle: &[char], pos: usize) -> (b: bool)
    ensures
        b == matches_at(text@, needle@, pos as int),
{
    if needle.len() > text.len() || pos > text.len() - needle.len() {
        return false;
    }
    let mut k: usize = 0;
    while k < needle.len()
        invariant
            k <= needle@.len(),
            pos + needle@.len() <= text@.len() <= usize::MAX,
            forall|j: int| 0 <= j < k ==> text@[pos + j] == needle@[j],
        decreases needle@.len() - k,
    {
        if text[pos + k] != needle[k] {
            assert(text@.subrange(pos as int, pos + needle@.len())[k as int] != needle@[k as int]);
            return false;
        }
        k += 1;
    }
    assert(text@.subrange(pos as int, pos + needle@.len()) =~= needle@);
    true
}

/// The least position from `from` on at which `needle` stands in `text`.
pub fn find_first(text: &[char], needle: &[char], from: usize) -> (r: Option<usize>)
    ensures
        match r {
            Some(i) => first_match(text@, needle@, from as int) == Some(i as int),
            None => first_match(text@, needle@, from as int) is None,
        },
{
    if needle.len() > text.len() {
        return None;
    }
    let last: usize = text.len() - needle.len();
    let mut pos: usize = from;
    while pos <= last
        invariant
            last == text@.len() - needle@.len(),
            from <= pos,
            first_match(text@, needle@, from as int) == first_match(text@, needle@, pos as int),
        decreases last + 1 - pos,
    {
        if matches_here(text, needle, pos) {
            return Some(pos);
        }
        if pos == last {
            assert(first_match(text@, needle@, pos + 1) is None);
            return None;
        }
        pos += 1;
    }
    None
}

/// The number of `'\n'` before position `to` and the start of the line that
/// `to` lies on, from the same two numbers for the earlier position `from`.
fn advance(text: &[char], from: usize, to: usize, newlines: usize, start: usize) -> (r: (
    usize,
    usize,
))
    requires
        from <= to <= text@.len(),
        newlines == count_newlines(text@.take(from as int)),
        start == line_start(text@.take(from as int)),
    ensures
        r.0 == count_newlines(text@.take(to as int)),
        r.1 == line_start(text@.take(to as int)),
        r.0 <= to,
        r.1 <= to,
{
    let mut nl: usize = newlines;
    let mut ls: usize = start;
    let mut p: usize = from;
    proof {
        lemma_counts_bounded(text@.take(from as int));
    }
    while p < to
        invariant
            from <= p <= to <= text@.len(),
            nl == count_newlines(text@.take(p as int)),
            ls == line_start(text@.take(p as int)),
            nl <= p,
            ls <= p,
        decreases to - p,
    {
        assert(text@.take(p + 1).drop_last() =~= text@.take(p as int));
        if text[p] == '\n' {
            nl += 1;
            ls = p + 1;
        }
        p += 1;
    }
    (nl, ls)
}

/// A text has no more `'\n'` than characters, and its last line starts within it.
pub proof fn lemma_counts_bounded(s: Seq<char>)
    ensures
        count_newlines(s) <= s.len(),
        line_start(s) <= s.len(),
    decreases s.len(),
{
    if s.len() > 0 {
        lemma_counts_bounded(s.drop_last());
    }
}

/// Every occurrence of `needle` in `text`, in the order of the text, none
/// overlapping another: the lines are counted from `first_line`, the columns
/// from 1 in scalar values.
pub fn find_all_positions(text: &[char], needle: &[char], first_line: i64) -> (out: Vec<
    Occurrence,
>)
    requires
        first_line >= 1,
    ensures
        out@ == occurrences(text@, needle@, first_line as int),
{
    let mut out: Vec<Occurrence> = Vec::new();
    if needle.len() == 0 || needle.len() > text.len() {
        return out;
    }
    let m: usize = needle.len();
    let last: usize = text.len() - m;
    let mut pos: usize = 0;
    let mut nl: usize = 0;
    let mut ls: usize = 0;
    assert(text@.take(0) =~= Seq::<char>::empty());
    while pos <= last
        invariant
            m == needle@.len(),
            m > 0,
            first_line >= 1,
            last == text@.len() - m,
            pos <= text@.len() <= usize::MAX,
            nl == count_newlines(text@.take(pos as int)),
            ls == line_start(text@.take(pos as int)),
            nl <= pos,
            ls <= pos,
            occurrences(text@, needle@, first_line as int) == out@ + occurrences_from(
                text@,
                needle@,
                first_line as int,
                pos as int,
            ),
        decreases text@.len() - pos,
    {
        if matches_here(text, needle, pos) {
            let end: usize = pos + m;
            let (nl2, ls2) = advance(text, pos, end, nl, ls);
            let occ = Occurrence {
                start_line: line_number(first_line, nl),
                end_line: line_number(first_line, nl2),
                start_col: line_number(1, pos - ls),
                end_col: line_number(1, end - ls2),
            };
            assert(occ == occurrence_at(text@, m as int, first_line as int, pos as int));
            proof {
                let rest = occurrences_from(text@, needle@, first_line as int, end as int);
                assert(out@ + (seq![occ] + rest) =~= out@.push(occ) + rest);
            }
            out.push(occ);
            pos = end;
            nl = nl2;
            ls = ls2;
        } else {
            let (nl2, ls2) = advance(text, pos, pos + 1, nl, ls);
            pos += 1;
            nl = nl2;
            ls = ls2;
        }
    }
    assert(out@ + Seq::<Occurrence>::empty() =~= out@);
    out
}

/// The occurrence whose first line is nearest to `anchor`; of several equally
/// near, the one found first.
pub fn pick_nearest(occs: &Vec<Occurrence>, anchor: i64) -> (r: Option<Occurrence>)
    ensures
        r == nearest(occs@, anchor),
{
    if occs.len() == 0 {
        return None;
    }
    let mut best: usize = 0;
    let mut best_dist: i128 = line_distance(occs[0].start_line, anchor);
    let mut i: usize = 1;
    assert(occs@.take(1).len() == 1);
    while i < occs.len()
        invariant
            1 <= i <= occs@.len(),
            best == nearest_index(occs@.take(i as int), anchor),
            best < i,
            best_dist == distance(occs@[best as int].start_line, anchor),
        decreases occs@.len() - i,
    {
        assert(occs@.take(i + 1).drop_last() =~= occs@.take(i as int));
        let d = line_distance(occs[i].start_line, anchor);
        if d < best_dist {
            best = i;
            best_dist = d;
        }
        i += 1;
    }
    assert(occs@.take(i as int) =~= occs@);
    Some(occs[best])
}

/// How far apart two line numbers are.
pub fn line_distance(a: i64, b: i64) -> (d: i128)
    ensures
        d == distance(a, b),
{
    if a >= b {
        a as i128 - b as i128
    } else {
        b as i128 - a as i128
    }
}

/// The index just after the last `'\n'` of `s`, or 0 if `s` holds none.
pub fn last_line_start(s: &[char]) -> (r: usize)
    ensures
        r == line_start(s@),
        r <= s@.len(),
{
    let mut j: usize = s.len();
    assert(s@.take(j as int) =~= s@);
    while j > 0 && s[j - 1] != '\n'
        invariant
            j <= s@.len(),
            line_start(s@) == line_start(s@.take(j as int)),
        decreases j,
    {
        assert(s@.take(j as int).drop_last() =~= s@.take(j - 1));
        j -= 1;
    }
    proof {
        if j > 0 {
            assert(s@.take(j as int).last() == '\n');
        }
    }
    j
}

} // verus!
