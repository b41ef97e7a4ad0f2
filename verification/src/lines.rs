//! The lines of a text file, and windows of them.
//!
//! A file is read line by line: a line ends at `'\n'`, a `'\r'` directly before
//! that `'\n'` belongs to the line ending, and what follows the last `'\n'` is a
//! line of its own unless it is empty.

use vstd::prelude::*;

verus! {

/// The pieces of `s` between its `'\n'` characters: one more than there are
/// `'\n'` in `s`, so the empty text has one empty piece.
pub open spec fn split_lines(s: Seq<char>) -> Seq<Seq<char>>
    decreases s.len(),
{
    if s.len() == 0 {
        seq![Seq::empty()]
    } else {
        let p = split_lines(s.drop_last());
        if s.last() == '\n' {
            p.push(Seq::empty())
        } else {
            p.drop_last().push(p.last().push(s.last()))
        }
    }
}

/// `l` without one `'\r'` at its end.
pub open spec fn strip_cr(l: Seq<char>) -> Seq<char> {
    if l.len() > 0 && l.last() == '\r' {
        l.drop_last()
    } else {
        l
    }
}

/// Each of `lines` without one `'\r'` at its end.
pub open spec fn strip_all(lines: Seq<Seq<char>>) -> Seq<Seq<char>> {
    Seq::new(lines.len(), |i: int| strip_cr(lines[i]))
}

/// The lines of a file that holds `s`: each piece that a `'\n'` ends, without
/// the `'\r'` of a `"\r\n"`, and the rest after the last `'\n'` if it is not
/// empty.
pub open spec fn file_lines(s: Seq<char>) -> Seq<Seq<char>> {
    let p = split_lines(s);
    let ended = strip_all(p.drop_last());
    if p.last().len() == 0 {
        ended
    } else {
        ended.push(p.last())
    }
}

/// `lines` with one `'\n'` between each two of them.
pub open spec fn join_lines(lines: Seq<Seq<char>>) -> Seq<char>
    decreases lines.len(),
{
    if lines.len() == 0 {
        Seq::empty()
    } else if lines.len() == 1 {
        lines[0]
    } else {
        join_lines(lines.drop_last()) + seq!['\n'] + lines.last()
    }
}

/// The length of the first line of `s`: the index of its first `'\n'`, or its
/// length if it holds none.
pub open spec fn first_line_len(s: Seq<char>) -> nat
    decreases s.len(),
{
    if s.len() == 0 || s[0] == '\n' {
        0
    } else {
        1 + first_line_len(s.drop_first())
    }
}

/// What `first_line_len` is, without recursion.
pub proof fn lemma_first_line_len(s: Seq<char>, k: int)
    requires
        0 <= k <= s.len(),
        forall|j: int| 0 <= j < k ==> s[j] != '\n',
        k < s.len() ==> s[k] == '\n',
    ensures
        first_line_len(s) == k,
        s.contains('\n') <==> k < s.len(),
    decreases s.len(),
{
    if s.len() > 0 && k > 0 {
        let f = s.drop_first();
        assert forall|j: int| 0 <= j < k - 1 implies f[j] != '\n' by {
            assert(f[j] == s[j + 1]);
        }
        lemma_first_line_len(f, k - 1);
    }
    if k < s.len() {
        assert(s.contains('\n'));
    }
}

/// The length of the first line of `s`.
pub fn first_line_end(s: &[char]) -> (k: usize)
    ensures
        k == first_line_len(s@),
        k <= s@.len(),
        s@.contains('\n') <==> k < s@.len(),
{
    let mut k: usize = 0;
    while k < s.len() && s[k] != '\n'
        invariant
            k <= s@.len(),
            forall|j: int| 0 <= j < k ==> s@[j] != '\n',
        decreases s@.len() - k,
    {
        k += 1;
    }
    proof {
        lemma_first_line_len(s@, k as int);
    }
    k
}

/// What a vector of lines holds, as texts.
pub open spec fn lines_view(lines: Seq<Vec<char>>) -> Seq<Seq<char>> {
    lines.map_values(|l: Vec<char>| l@)
}

/// No line holds a `'\n'`.
pub open spec fn no_newline(lines: Seq<Seq<char>>) -> bool {
    forall|i: int, j: int|
        0 <= i < lines.len() && 0 <= j < lines[i].len() ==> (#[trigger] lines[i][j]) != '\n'
}

/// A text has at least one piece, and no piece holds a `'\n'`.
pub proof fn lemma_split_lines_shape(s: Seq<char>)
    ensures
        split_lines(s).len() >= 1,
        no_newline(split_lines(s)),
    decreases s.len(),
{
    if s.len() > 0 {
        lemma_split_lines_shape(s.drop_last());
    }
}

/// The lines of a file hold no `'\n'`.
pub proof fn lemma_file_lines_no_newline(s: Seq<char>)
    ensures
        no_newline(file_lines(s)),
{
    lemma_split_lines_shape(s);
}

/// The lines of the file that holds `text`.
pub fn read_lines(text: &[char]) -> (lines: Vec<Vec<char>>)
    ensures
        lines_view(lines@) == file_lines(text@),
{
    let mut done: Vec<Vec<char>> = Vec::new();
    let mut cur: Vec<char> = Vec::new();
    let ghost mut raw: Seq<Seq<char>> = Seq::empty();
    let mut i: usize = 0;
    assert(text@.take(0) =~= Seq::<char>::empty());
    assert(seq![Seq::<char>::empty()] =~= raw.push(cur@));
    assert(lines_view(done@) =~= strip_all(raw));
    while i < text.len()
        invariant
            i <= text@.len(),
            split_lines(text@.take(i as int)) == raw.push(cur@),
            done@.len() == raw.len(),
            lines_view(done@) == strip_all(raw),
        decreases text@.len() - i,
    {
        let c = text[i];
        proof {
            let pre = text@.take(i as int);
            let now = text@.take(i + 1);
            assert(now.drop_last() =~= pre);
            assert(now.last() == c);
            assert(raw.push(cur@).drop_last() =~= raw);
        }
        if c == '\n' {
            let ghost full = cur@;
            let n = cur.len();
            if n > 0 && cur[n - 1] == '\r' {
                cur.pop();
                assert(cur@ =~= strip_cr(full));
            }
            assert(cur@ == strip_cr(full));
            let ghost old_done = done@;
            let ghost old_raw = raw;
            done.push(cur);
            cur = Vec::new();
            proof {
                raw = raw.push(full);
                assert forall|k: int| 0 <= k < raw.len() implies lines_view(done@)[k]
                    == strip_all(raw)[k] by {
                    if k < old_raw.len() {
                        assert(lines_view(old_done)[k] == strip_all(old_raw)[k]);
                        assert(done@[k] == old_done[k]);
                    }
                }
                assert(split_lines(text@.take(i + 1)) =~= raw.push(cur@));
                assert(lines_view(done@) =~= strip_all(raw));
            }
        } else {
            cur.push(c);
            assert(split_lines(text@.take(i + 1)) =~= raw.push(cur@));
        }
        i += 1;
    }
    assert(text@.take(i as int) =~= text@);
    assert(raw.push(cur@).drop_last() =~= raw);
    if cur.len() > 0 {
        done.push(cur);
        assert(lines_view(done@) =~= file_lines(text@));
    }
    done
}

/// `lines[lo..hi]` with one `'\n'` between each two of them.
pub fn join_range(lines: &Vec<Vec<char>>, lo: usize, hi: usize) -> (out: Vec<char>)
    requires
        lo <= hi <= lines@.len(),
    ensures
        out@ == join_lines(lines_view(lines@).subrange(lo as int, hi as int)),
{
    let mut out: Vec<char> = Vec::new();
    let mut i: usize = lo;
    while i < hi
        invariant
            lo <= i <= hi <= lines@.len(),
            out@ == join_lines(lines_view(lines@).subrange(lo as int, i as int)),
        decreases hi - i,
    {
        if i > lo {
            out.push('\n');
        }
        let line = &lines[i];
        let ghost head = out@;
        let mut j: usize = 0;
        while j < line.len()
            invariant
                j <= line@.len(),
                out@ == head + line@.take(j as int),
            decreases line@.len() - j,
        {
            out.push(line[j]);
            assert(line@.take(j as int).push(line@[j as int]) =~= line@.take(j + 1));
            j += 1;
        }
        proof {
            assert(line@.take(j as int) =~= line@);
            let before = lines_view(lines@).subrange(lo as int, i as int);
            let after = lines_view(lines@).subrange(lo as int, i + 1);
            assert(after.drop_last() =~= before);
            assert(after.last() == line@);
            if i == lo {
                assert(out@ =~= line@);
            } else {
                assert(after.len() >= 2);
                assert(out@ =~= join_lines(before) + seq!['\n'] + line@);
            }
        }
        i += 1;
    }
    out
}

} // verus!
