//! How positions in a text of joined lines correspond to lines and columns.
//!
//! In the text `join_lines(lines)` line `i` starts at `line_offset(lines, i)`.
//! Every position of the text lies on exactly one line, at a column within
//! that line or just after its last character, and the part of the text
//! between two positions is the span between the two places.

use crate::lines::{join_lines, no_newline};
use crate::search::{count_newlines, line_start};
use vstd::prelude::*;

verus! {

/// The position in `join_lines(lines)` at which line `i` starts.
pub open spec fn line_offset(lines: Seq<Seq<char>>, i: int) -> int
    decreases i,
{
    if i <= 0 {
        0
    } else {
        line_offset(lines, i - 1) + lines[i - 1].len() + 1
    }
}

/// The lines `lines[i..=j]`, the last cut before index `ce`, and then the
/// first cut from index `cs` on.
pub open spec fn piece(lines: Seq<Seq<char>>, i: int, j: int, cs: int, ce: int) -> Seq<
    Seq<char>,
> {
    let part = lines.subrange(i, j + 1);
    let cut = part.update(j - i, part[j - i].take(ce));
    cut.update(0, cut[0].skip(cs))
}

/// The offset of a line does not depend on the lines after it.
pub proof fn lemma_offset_prefix(lines: Seq<Seq<char>>, n: int, i: int)
    requires
        0 <= i <= n <= lines.len(),
    ensures
        line_offset(lines.take(n), i) == line_offset(lines, i),
    decreases i,
{
    if i > 0 {
        lemma_offset_prefix(lines, n, i - 1);
    }
}

/// Offsets grow with the line number, from 0.
pub proof fn lemma_offset_monotone(lines: Seq<Seq<char>>, i: int, j: int)
    requires
        0 <= i <= j <= lines.len(),
    ensures
        0 <= line_offset(lines, i) <= line_offset(lines, j),
        i < j ==> line_offset(lines, i) + lines[i].len() + 1 <= line_offset(lines, j),
    decreases j,
{
    if i < j {
        lemma_offset_monotone(lines, i, j - 1);
    } else if i > 0 {
        lemma_offset_monotone(lines, i - 1, i - 1);
    }
}

/// The joined text holds each line at its offset, and a `'\n'` behind each
/// line but the last; its length is the offset just behind the last line,
/// less the `'\n'` that the last line does not have.
pub proof fn lemma_join_layout(lines: Seq<Seq<char>>)
    requires
        lines.len() >= 1,
    ensures
        join_lines(lines).len() == line_offset(lines, lines.len() as int) - 1,
        forall|i: int, c: int|
            0 <= i < lines.len() && 0 <= c < lines[i].len() ==> #[trigger] join_lines(
                lines,
            )[line_offset(lines, i) + c] == lines[i][c],
        forall|i: int|
            0 <= i < lines.len() - 1 ==> join_lines(lines)[#[trigger] line_offset(lines, i)
                + lines[i].len()] == '\n',
    decreases lines.len(),
{
    let n = lines.len() as int;
    let w = join_lines(lines);
    if n == 1 {
        assert(line_offset(lines, 1) == line_offset(lines, 0) + lines[0].len() + 1);
        assert forall|i: int, c: int|
            0 <= i < lines.len() && 0 <= c < lines[i].len() implies #[trigger] w[line_offset(
            lines,
            i,
        ) + c] == lines[i][c] by {
            assert(line_offset(lines, 0) == 0);
        }
    } else {
        let front = lines.drop_last();
        let fw = join_lines(front);
        lemma_join_layout(front);
        assert(front =~= lines.take(n - 1));
        lemma_offset_prefix(lines, n - 1, n - 1);
        assert(w == fw + seq!['\n'] + lines.last());
        assert(line_offset(lines, n) == line_offset(lines, n - 1) + lines[n - 1].len() + 1);
        assert(fw.len() == line_offset(lines, n - 1) - 1);
        assert forall|i: int, c: int|
            0 <= i < lines.len() && 0 <= c < lines[i].len() implies #[trigger] w[line_offset(
            lines,
            i,
        ) + c] == lines[i][c] by {
            if i < n - 1 {
                lemma_offset_prefix(lines, n - 1, i);
                lemma_offset_monotone(front, i, n - 1);
                assert(front[i] == lines[i]);
                assert(fw[line_offset(front, i) + c] == front[i][c]);
                assert(line_offset(lines, i) + c < fw.len());
            } else {
                assert(w[fw.len() + 1 + c] == lines.last()[c]);
            }
        }
        assert forall|i: int| 0 <= i < lines.len() - 1 implies w[#[trigger] line_offset(lines, i)
            + lines[i].len()] == '\n' by {
            lemma_offset_prefix(lines, n - 1, i);
            assert(front[i] == lines[i]);
            if i < n - 2 {
                lemma_offset_monotone(front, i, n - 2);
                assert(line_offset(front, n - 1) == line_offset(front, n - 2) + front[n
                    - 2].len() + 1);
                assert(line_offset(lines, i) + lines[i].len() < fw.len());
                assert(fw[line_offset(front, i) + front[i].len()] == '\n');
            } else {
                assert(line_offset(front, n - 1) == line_offset(front, n - 2) + front[n
                    - 2].len() + 1);
                assert(line_offset(lines, i) + lines[i].len() == fw.len());
                assert(w[fw.len() as int] == '\n');
            }
        }
    }
}

/// The place of a position that is given by its line and the index in that
/// line: so many `'\n'` stand before it, and its line starts at the offset of
/// the line.
pub proof fn lemma_place_of(lines: Seq<Seq<char>>, i: int, c: int)
    requires
        no_newline(lines),
        0 <= i < lines.len(),
        0 <= c <= lines[i].len(),
    ensures
        0 <= line_offset(lines, i) + c <= join_lines(lines).len(),
        count_newlines(join_lines(lines).take(line_offset(lines, i) + c)) == i,
        line_start(join_lines(lines).take(line_offset(lines, i) + c)) == line_offset(lines, i),
    decreases i, c,
{
    let w = join_lines(lines);
    let p = line_offset(lines, i) + c;
    lemma_join_layout(lines);
    lemma_offset_monotone(lines, 0, i);
    lemma_offset_monotone(lines, i, lines.len() as int);
    assert(line_offset(lines, 0) == 0);
    if c > 0 {
        lemma_place_of(lines, i, c - 1);
        assert(w.take(p).drop_last() =~= w.take(p - 1));
        assert(w.take(p).last() == w[line_offset(lines, i) + (c - 1)]);
        assert(w[line_offset(lines, i) + (c - 1)] == lines[i][c - 1]);
        assert(lines[i][c - 1] != '\n');
    } else if i > 0 {
        lemma_place_of(lines, i - 1, lines[i - 1].len() as int);
        assert(line_offset(lines, i) == line_offset(lines, i - 1) + lines[i - 1].len() + 1);
        assert(w.take(p).drop_last() =~= w.take(p - 1));
        assert(w.take(p).last() == w[line_offset(lines, i - 1) + lines[i - 1].len()]);
        assert(w.take(p).last() == '\n');
    } else {
        assert(w.take(0) =~= Seq::<char>::empty());
    }
}

/// Every position of the joined text lies on a line: the number of `'\n'`
/// before it is the index of a line, and the position is the offset of that
/// line plus an index within the line or just behind it.
pub proof fn lemma_position_on_line(lines: Seq<Seq<char>>, p: int)
    requires
        no_newline(lines),
        lines.len() >= 1,
        0 <= p <= join_lines(lines).len(),
    ensures
        0 <= count_newlines(join_lines(lines).take(p)) < lines.len(),
        line_start(join_lines(lines).take(p)) == line_offset(
            lines,
            count_newlines(join_lines(lines).take(p)) as int,
        ),
        0 <= p - line_start(join_lines(lines).take(p)) <= lines[count_newlines(
            join_lines(lines).take(p),
        ) as int].len(),
    decreases p,
{
    let w = join_lines(lines);
    lemma_join_layout(lines);
    if p == 0 {
        assert(w.take(0) =~= Seq::<char>::empty());
        assert(line_offset(lines, 0) == 0);
    } else {
        lemma_position_on_line(lines, p - 1);
        let i = count_newlines(w.take(p - 1)) as int;
        let c = p - 1 - line_start(w.take(p - 1));
        assert(w.take(p).drop_last() =~= w.take(p - 1));
        assert(w.take(p).last() == w[p - 1]);
        assert(p - 1 == line_offset(lines, i) + c);
        if c < lines[i].len() {
            assert(w[line_offset(lines, i) + c] == lines[i][c]);
            assert(lines[i][c] != '\n');
        } else {
            lemma_offset_monotone(lines, i, lines.len() as int);
            if i == lines.len() - 1 {
                assert(line_offset(lines, lines.len() as int) == line_offset(lines, i)
                    + lines[i].len() + 1);
                assert(false);
            }
            assert(w[line_offset(lines, i) + lines[i].len()] == '\n');
            assert(line_offset(lines, i + 1) == line_offset(lines, i) + lines[i].len() + 1);
        }
    }
}

/// The text between two places is the span between them: the lines from the
/// first place's to the second place's, the first from its index on and the
/// last up to its index, joined.
pub proof fn lemma_span_between(lines: Seq<Seq<char>>, i: int, j: int, cs: int, ce: int)
    requires
        0 <= i <= j < lines.len(),
        0 <= cs <= lines[i].len(),
        0 <= ce <= lines[j].len(),
        i == j ==> cs <= ce,
    ensures
        0 <= line_offset(lines, i) + cs <= line_offset(lines, j) + ce <= join_lines(lines).len(),
        join_lines(lines).subrange(line_offset(lines, i) + cs, line_offset(lines, j) + ce)
            == join_lines(piece(lines, i, j, cs, ce)),
    decreases j - i,
{
    let w = join_lines(lines);
    let p = line_offset(lines, i) + cs;
    let q = line_offset(lines, j) + ce;
    lemma_join_layout(lines);
    lemma_offset_monotone(lines, 0, i);
    lemma_offset_monotone(lines, i, j);
    lemma_offset_monotone(lines, j, lines.len() as int);
    assert(line_offset(lines, 0) == 0);
    let pc = piece(lines, i, j, cs, ce);
    if i == j {
        assert(pc =~= seq![lines[i].take(ce).skip(cs)]);
        assert(join_lines(pc) == lines[i].take(ce).skip(cs));
        assert forall|k: int| 0 <= k < ce - cs implies w.subrange(p, q)[k] == lines[i].take(
            ce,
        ).skip(cs)[k] by {
            assert(w[line_offset(lines, i) + (cs + k)] == lines[i][cs + k]);
        }
        assert(w.subrange(p, q) =~= lines[i].take(ce).skip(cs));
    } else {
        let full = lines[j - 1].len() as int;
        let m = line_offset(lines, j - 1) + full;
        lemma_span_between(lines, i, j - 1, cs, full);
        lemma_offset_monotone(lines, i, j - 1);
        let before = piece(lines, i, j - 1, cs, full);
        assert(line_offset(lines, j) == m + 1);
        assert(w[line_offset(lines, j - 1) + lines[j - 1].len()] == '\n');
        assert forall|k: int| 0 <= k < ce implies w[m + 1 + k] == lines[j][k] by {
            assert(w[line_offset(lines, j) + k] == lines[j][k]);
        }
        assert(w.subrange(p, q) =~= w.subrange(p, m) + seq!['\n'] + lines[j].take(ce));
        assert(lines[j - 1].take(full) =~= lines[j - 1]);
        assert(pc.drop_last() =~= before);
        assert(pc.last() == lines[j].take(ce));
        assert(pc.len() >= 2);
    }
}

} // verus!
