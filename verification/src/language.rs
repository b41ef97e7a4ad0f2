//! The language of a file, guessed from the extension of its name.

use crate::text::{chars_of, string_of_range};
use vstd::prelude::*;

verus! {

/// The index just after the last `c` in `s`, or 0 if `s` holds none.
pub open spec fn after_last(s: Seq<char>, c: char) -> nat
    decreases s.len(),
{
    if s.len() == 0 {
        0
    } else if s.last() == c {
        s.len()
    } else {
        after_last(s.drop_last(), c)
    }
}

/// Just before the index that `after_last` gives stands a `c`.
pub proof fn lemma_after_last(s: Seq<char>, c: char)
    ensures
        after_last(s, c) <= s.len(),
        after_last(s, c) > 0 ==> s[after_last(s, c) - 1] == c,
    decreases s.len(),
{
    if s.len() > 0 && s.last() != c {
        lemma_after_last(s.drop_last(), c);
    }
}

/// The name of the file: what follows the last `'/'` of the path.
pub open spec fn file_name(path: Seq<char>) -> Seq<char> {
    path.skip(after_last(path, '/') as int)
}

/// The extension of the file's name: what follows its last `'.'`, unless the
/// name holds no `'.'` or only one at its start.
pub open spec fn extension(path: Seq<char>) -> Option<Seq<char>> {
    let name = file_name(path);
    let d = after_last(name, '.');
    if d <= 1 {
        None
    } else {
        Some(name.skip(d as int))
    }
}

/// The language that an extension stands for; plain text for any other, and
/// for none.
pub open spec fn language_of(ext: Option<Seq<char>>) -> Seq<char> {
    match ext {
        None => "plaintext"@,
        Some(e) => if e == "rs"@ {
            "rust"@
        } else if e == "ts"@ || e == "tsx"@ {
            "typescript"@
        } else if e == "js"@ || e == "jsx"@ {
            "javascript"@
        } else if e == "json"@ {
            "json"@
        } else if e == "md"@ {
            "markdown"@
        } else if e == "css"@ {
            "css"@
        } else if e == "html"@ {
            "html"@
        } else {
            "plaintext"@
        },
    }
}

/// The index just after the last `c` in `s[from..]`, counted in `s[from..]`.
pub fn after_last_of(s: &[char], from: usize, c: char) -> (r: usize)
    requires
        from <= s@.len(),
    ensures
        r == after_last(s@.skip(from as int), c),
        from + r <= s@.len(),
{
    let ghost t = s@.skip(from as int);
    let mut j: usize = s.len();
    assert(t.take(j - from) =~= t);
    while j > from && s[j - 1] != c
        invariant
            from <= j <= s@.len(),
            t == s@.skip(from as int),
            after_last(t, c) == after_last(t.take(j - from), c),
        decreases j,
    {
        assert(t.take(j - from).drop_last() =~= t.take(j - 1 - from));
        assert(t.take(j - from).last() == s@[j - 1]);
        j -= 1;
    }
    proof {
        if j > from {
            assert(t.take(j - from).last() == s@[j - 1]);
        }
    }
    j - from
}

/// The language that the extension `ext` stands for.
pub fn language_for_extension(ext: Option<&str>) -> (r: String)
    ensures
        r@ == language_of(
            match ext {
                Some(e) => Some(e@),
                None => None,
            },
        ),
{
    match ext {
        None => "plaintext".to_owned(),
        Some(e) => {
            let e = e.to_owned();
            if e == "rs".to_owned() {
                "rust".to_owned()
            } else if e == "ts".to_owned() || e == "tsx".to_owned() {
                "typescript".to_owned()
            } else if e == "js".to_owned() || e == "jsx".to_owned() {
                "javascript".to_owned()
            } else if e == "json".to_owned() {
                "json".to_owned()
            } else if e == "md".to_owned() {
                "markdown".to_owned()
            } else if e == "css".to_owned() {
                "css".to_owned()
            } else if e == "html".to_owned() {
                "html".to_owned()
            } else {
                "plaintext".to_owned()
            }
        },
    }
}

/// The language of the file at `path`, by the extension of its name.
pub fn guess_language_by_ext(path: &str) -> (r: String)
    ensures
        r@ == language_of(extension(path@)),
{
    let p = chars_of(path);
    let n = p.len();
    let start = after_last_of(&p, 0, '/');
    assert(p@.skip(0) =~= p@);
    let d = after_last_of(&p, start, '.');
    if d <= 1 {
        language_for_extension(None)
    } else {
        let ext = string_of_range(&p, start + d, n);
        proof {
            let name = file_name(path@);
            assert(name.skip(d as int) =~= p@.subrange(start + d, p@.len() as int));
        }
        language_for_extension(Some(ext.as_str()))
    }
}

} // verus!
