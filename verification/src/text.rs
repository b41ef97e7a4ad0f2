//! Text as a sequence of Unicode scalar values: conversion, white space, trimming.
//!
//! Columns are counted in scalar values, never in bytes, so every function that
//! looks into a text works on `Seq<char>` and its executable counterpart on a
//! slice of `char`.

use vstd::prelude::*;
use vstd::std_specs::iter::IteratorSpec;

verus! {

/// The scalar values of `s`, in order, so that a character position is an index.
pub fn chars_of(s: &str) -> (out: Vec<char>)
    ensures
        out@ == s@,
{
    broadcast use vstd::string::group_string_axioms;

    let mut out: Vec<char> = Vec::new();
    let mut it = s.chars();
    loop
        invariant
            it.obeys_prophetic_iter_laws(),
            it.decrease() is Some,
            out@ + it.remaining() == s@,
        decreases it.decrease()->0,
    {
        let ghost before = it;
        match it.next() {
            Some(c) => {
                assert(out@.push(c) + before.remaining().drop_first() =~= out@
                    + before.remaining());
                out.push(c);
            },
            None => {
                assert(out@ + before.remaining() =~= out@);
                return out;
            },
        }
    }
}

/// `String::push`: appends one scalar value to the end of the string.
#[verifier::external_body]
pub(crate) fn push_char(s: &mut String, c: char)
    ensures
        final(s)@ == old(s)@.push(c),
{
    s.push(c);
}

/// The string that holds exactly the scalar values `chars[from..to]`.
pub fn string_of_range(chars: &[char], from: usize, to: usize) -> (out: String)
    requires
        from <= to <= chars@.len(),
    ensures
        out@ == chars@.subrange(from as int, to as int),
{
    let mut out = String::new();
    let mut i: usize = from;
    while i < to
        invariant
            from <= i <= to <= chars@.len(),
            out@ == chars@.subrange(from as int, i as int),
        decreases to - i,
    {
        push_char(&mut out, chars[i]);
        assert(chars@.subrange(from as int, i as int).push(chars@[i as int])
            =~= chars@.subrange(from as int, i + 1));
        i += 1;
    }
    out
}

/// The string that holds exactly the scalar values of `chars`.
pub fn string_of(chars: &[char]) -> (out: String)
    ensures
        out@ == chars@,
{
    let out = string_of_range(chars, 0, chars.len());
    assert(chars@.subrange(0, chars@.len() as int) =~= chars@);
    out
}

/// Whether `c` has the Unicode property White_Space.
pub open spec fn is_white_space(c: char) -> bool {
    let u = c as u32;
    ||| 0x09 <= u <= 0x0d
    ||| u == 0x20
    ||| u == 0x85
    ||| u == 0xa0
    ||| u == 0x1680
    ||| 0x2000 <= u <= 0x200a
    ||| u == 0x2028
    ||| u == 0x2029
    ||| u == 0x202f
    ||| u == 0x205f
    ||| u == 0x3000
}

/// Whether `c` has the Unicode property White_Space.
pub fn white_space(c: char) -> (b: bool)
    ensures
        b == is_white_space(c),
{
    let u: u32 = c as u32;
    (0x09 <= u && u <= 0x0d) || u == 0x20 || u == 0x85 || u == 0xa0 || u == 0x1680 || (0x2000
        <= u && u <= 0x200a) || u == 0x2028 || u == 0x2029 || u == 0x202f || u == 0x205f || u
        == 0x3000
}

/// A text that holds nothing but white space; the empty text is blank.
pub open spec fn is_blank(s: Seq<char>) -> bool {
    forall|i: int| 0 <= i < s.len() ==> is_white_space(#[trigger] s[i])
}

/// Whether `s` holds nothing but white space.
pub fn blank(s: &[char]) -> (b: bool)
    ensures
        b == is_blank(s@),
{
    let mut i: usize = 0;
    while i < s.len()
        invariant
            i <= s@.len(),
            forall|j: int| 0 <= j < i ==> is_white_space(#[trigger] s@[j]),
        decreases s@.len() - i,
    {
        if !white_space(s[i]) {
            return false;
        }
        i += 1;
    }
    true
}

/// Where the trimmed part of `s` begins: the least index that holds no white
/// space, or the length of `s` if there is none.
pub open spec fn trim_start(s: Seq<char>) -> int
    decreases s.len(),
{
    if s.len() > 0 && is_white_space(s[0]) {
        1 + trim_start(s.drop_first())
    } else {
        0
    }
}

/// Where the trimmed part of `s` ends: one past the greatest index that holds
/// no white space, or 0 if there is none.
pub open spec fn trim_end(s: Seq<char>) -> int
    decreases s.len(),
{
    if s.len() > 0 && is_white_space(s.last()) {
        trim_end(s.drop_last())
    } else {
        s.len() as int
    }
}

/// `s` without the white space at its two ends.
pub open spec fn trimmed(s: Seq<char>) -> Seq<char> {
    if is_blank(s) {
        Seq::empty()
    } else {
        s.subrange(trim_start(s), trim_end(s))
    }
}

/// What `trim_start` and `trim_end` are, without recursion: the bounds of the
/// part between the first and the last character that is no white space.
pub proof fn lemma_trim_bounds(s: Seq<char>)
    ensures
        0 <= trim_start(s) <= s.len(),
        0 <= trim_end(s) <= s.len(),
        forall|i: int| 0 <= i < trim_start(s) ==> is_white_space(#[trigger] s[i]),
        forall|i: int| trim_end(s) <= i < s.len() ==> is_white_space(#[trigger] s[i]),
        trim_start(s) < s.len() ==> !is_white_space(s[trim_start(s)]),
        trim_end(s) > 0 ==> !is_white_space(s[trim_end(s) - 1]),
        is_blank(s) <==> trim_start(s) == s.len(),
        is_blank(s) <==> trim_end(s) == 0,
        !is_blank(s) ==> trim_start(s) < trim_end(s),
    decreases s.len(),
{
    if s.len() > 0 {
        let f = s.drop_first();
        let l = s.drop_last();
        lemma_trim_bounds(f);
        lemma_trim_bounds(l);
        if is_white_space(s[0]) {
            assert forall|i: int| 0 <= i < trim_start(s) implies is_white_space(
                #[trigger] s[i],
            ) by {
                if i > 0 {
                    assert(s[i] == f[i - 1]);
                }
            }
            if trim_start(s) < s.len() {
                assert(s[trim_start(s)] == f[trim_start(f)]);
            }
            if trim_start(f) == f.len() {
                assert forall|i: int| 0 <= i < s.len() implies is_white_space(
                    #[trigger] s[i],
                ) by {
                    if i > 0 {
                        assert(s[i] == f[i - 1]);
                    }
                }
            } else {
                assert(!is_white_space(f[trim_start(f)]));
                assert(s[trim_start(f) + 1] == f[trim_start(f)]);
            }
        }
        if is_white_space(s.last()) {
            assert forall|i: int| trim_end(s) <= i < s.len() implies is_white_space(
                #[trigger] s[i],
            ) by {
                if i < s.len() - 1 {
                    assert(s[i] == l[i]);
                }
            }
            if trim_end(s) > 0 {
                assert(s[trim_end(s) - 1] == l[trim_end(l) - 1]);
            }
            if trim_end(l) == 0 {
                assert forall|i: int| 0 <= i < s.len() implies is_white_space(
                    #[trigger] s[i],
                ) by {
                    if i < s.len() - 1 {
                        assert(s[i] == l[i]);
                    }
                }
            } else {
                assert(!is_white_space(l[trim_end(l) - 1]));
                assert(s[trim_end(l) - 1] == l[trim_end(l) - 1]);
            }
        }
        if !is_blank(s) {
            let a = trim_start(s);
            let b = trim_end(s);
            if a >= b {
                assert(!is_white_space(s[a]));
                assert(is_white_space(s[a]));
            }
        }
    }
}

/// The bounds of the trimmed part of `s`: `s[a..b]` is `s` without the white
/// space at its two ends, and `a == b` where `s` is blank.
pub fn trim_bounds(s: &[char]) -> (r: (usize, usize))
    ensures
        r.0 <= r.1 <= s@.len(),
        s@.subrange(r.0 as int, r.1 as int) == trimmed(s@),
        r.0 == trim_start(s@),
        r.1 == if is_blank(s@) {
            s@.len() as int
        } else {
            trim_end(s@)
        },
{
    proof {
        lemma_trim_bounds(s@);
    }
    let mut a: usize = 0;
    while a < s.len() && white_space(s[a])
        invariant
            a <= s@.len(),
            forall|j: int| 0 <= j < a ==> is_white_space(#[trigger] s@[j]),
        decreases s@.len() - a,
    {
        a += 1;
    }
    if a == s.len() {
        assert(is_blank(s@));
        assert(s@.subrange(a as int, a as int) =~= Seq::<char>::empty());
        return (a, a);
    }
    assert(!is_white_space(s@[a as int]));
    assert(a == trim_start(s@)) by {
        if a < trim_start(s@) {
            assert(is_white_space(s@[a as int]));
        }
        if trim_start(s@) < a {
            assert(is_white_space(s@[trim_start(s@)]));
        }
    }
    let mut b: usize = s.len();
    while b > a && white_space(s[b - 1])
        invariant
            a <= b <= s@.len(),
            forall|j: int| b <= j < s@.len() ==> is_white_space(#[trigger] s@[j]),
        decreases b,
    {
        b -= 1;
    }
    assert(b > a);
    assert(b == trim_end(s@)) by {
        if b < trim_end(s@) {
            assert(is_white_space(s@[trim_end(s@) - 1]));
        }
        if trim_end(s@) < b {
            assert(is_white_space(s@[b - 1]));
        }
    }
    (a, b)
}

} // verus!
