//! Paths as texts: the root that confines the files, the workspace that
//! scopes the annotations, and the mapping between the two.
//!
//! All paths here are canonical: absolute, with `'/'` between their
//! components, and without `.`, `..` or doubled `'/'`. Resolving a path
//! against the file system is the caller's part.

use crate::annotation::{views, Annotation, AnnotationView};
use crate::language::{after_last, after_last_of, lemma_after_last};
use crate::resync::same_chars;
use crate::search::{matches_at, matches_here};
use crate::text::{chars_of, string_of, string_of_range};
use vstd::prelude::*;

verus! {

/// `path` is the directory `dir` or lies below it.
pub open spec fn is_under(path: Seq<char>, dir: Seq<char>) -> bool {
    path == dir || matches_at(path, dir + seq!['/'], 0)
}

/// `path` relative to the directory `base`, if it is `base` or lies below it:
/// what follows `base` and the `'/'` behind it. Below the empty base lies every
/// path that is not absolute.
pub open spec fn strip_dir(path: Seq<char>, base: Seq<char>) -> Option<Seq<char>> {
    if path == base {
        Some(Seq::empty())
    } else if base.len() == 0 {
        if path[0] == '/' {
            None
        } else {
            Some(path)
        }
    } else if base.last() == '/' {
        if matches_at(path, base, 0) {
            Some(path.skip(base.len() as int))
        } else {
            None
        }
    } else if matches_at(path, base + seq!['/'], 0) {
        Some(path.skip(base.len() as int + 1))
    } else {
        None
    }
}

/// The directory that holds `path`: `path` up to its last `'/'`, the root
/// `"/"` for a path directly below it, and the empty path for a single
/// component. The root and the empty path have none.
pub open spec fn parent_of(path: Seq<char>) -> Option<Seq<char>> {
    let cut = after_last(path, '/');
    if path.len() == 0 || (path.len() == 1 && path[0] == '/') {
        None
    } else if cut == 0 {
        Some(Seq::empty())
    } else if cut == 1 {
        Some(path.take(1))
    } else {
        Some(path.take(cut - 1))
    }
}

/// The first of the directories `path`, its parent, the parent of that, and
/// so on, that is marked: `marked[i]` says whether the directory `i` steps up
/// is. Directories beyond the end of `marked` are not marked.
pub open spec fn first_marked(path: Seq<char>, marked: Seq<bool>, i: int) -> Option<Seq<char>>
    decreases marked.len() - i, path.len(),
{
    if i < 0 || i >= marked.len() {
        None
    } else if marked[i] {
        Some(path)
    } else {
        match parent_of(path) {
            Some(up) => if up.len() < path.len() {
                first_marked(up, marked, i + 1)
            } else {
                None
            },
            None => None,
        }
    }
}

/// The key of a path: the path itself, except that with `private_alias` a
/// path at or below `/private/var` or `/private/tmp` stands without the
/// leading `/private`.
pub open spec fn path_key(path: Seq<char>, private_alias: bool) -> Seq<char> {
    if private_alias && (is_under(path, "/private/var"@) || is_under(path, "/private/tmp"@)) {
        path.skip("/private"@.len() as int)
    } else {
        path
    }
}

/// The path under which the workspace knows a file: the canonical path
/// `abs` relative to the root of the workspace, `"."` for that root itself,
/// and the path as it was asked for where the file is outside the workspace.
pub open spec fn workspace_relative(
    workspace_root: Seq<char>,
    abs: Seq<char>,
    asked: Seq<char>,
) -> Seq<char> {
    match strip_dir(abs, workspace_root) {
        Some(rel) => if rel.len() == 0 {
            "."@
        } else {
            rel
        },
        None => asked,
    }
}

/// The path of a file of the workspace as seen from the root: without the
/// path that leads from the root of the workspace to the root, `"."` for the
/// root itself, and unchanged where that path does not lead to it.
pub open spec fn root_relative(scope: Option<Seq<char>>, ws_rel: Seq<char>) -> Seq<char> {
    match scope {
        None => ws_rel,
        Some(prefix) => if prefix.len() == 0 {
            ws_rel
        } else if ws_rel == prefix {
            "."@
        } else {
            let pre = if prefix.last() == '/' {
                prefix
            } else {
                prefix + seq!['/']
            };
            if matches_at(ws_rel, pre, 0) {
                ws_rel.skip(pre.len() as int)
            } else {
                ws_rel
            }
        },
    }
}

/// Whether an annotation of the file `file_path` is in scope: every one is
/// where the root is the root of the workspace, and otherwise those of the
/// root and of what lies below it.
pub open spec fn in_scope(scope: Option<Seq<char>>, file_path: Seq<char>) -> bool {
    match scope {
        None => true,
        Some(prefix) => prefix.len() == 0 || is_under(file_path, prefix),
    }
}

/// The annotations in scope, each with its path as seen from the root.
pub open spec fn scoped(scope: Option<Seq<char>>, v: Seq<AnnotationView>) -> Seq<AnnotationView>
    decreases v.len(),
{
    if v.len() == 0 {
        Seq::empty()
    } else if in_scope(scope, v.last().file_path) {
        scoped(scope, v.drop_last()).push(
            AnnotationView { file_path: root_relative(scope, v.last().file_path), ..v.last() },
        )
    } else {
        scoped(scope, v.drop_last())
    }
}

/// Whether `path` is the directory `dir` or lies below it.
pub fn under(path: &[char], dir: &[char]) -> (r: bool)
    ensures
        r == is_under(path@, dir@),
{
    if same_chars(path, dir) {
        return true;
    }
    let mut d: Vec<char> = Vec::new();
    let mut i: usize = 0;
    while i < dir.len()
        invariant
            i <= dir@.len(),
            d@ == dir@.take(i as int),
        decreases dir@.len() - i,
    {
        d.push(dir[i]);
        assert(dir@.take(i as int).push(dir@[i as int]) =~= dir@.take(i + 1));
        i += 1;
    }
    d.push('/');
    assert(d@ =~= dir@ + seq!['/']);
    matches_here(path, &d, 0)
}

/// `path` relative to the directory `base`, if it is `base` or lies below it.
pub fn relative_to(path: &str, base: &str) -> (r: Option<String>)
    ensures
        match r {
            Some(rel) => strip_dir(path@, base@) == Some(rel@),
            None => strip_dir(path@, base@) is None,
        },
{
    let p = chars_of(path);
    let b = chars_of(base);
    let n = p.len();
    if same_chars(&p, &b) {
        let rel = string_of_range(&p, 0, 0);
        assert(rel@ =~= Seq::<char>::empty());
        return Some(rel);
    }
    if b.len() == 0 {
        assert(p@.len() > 0) by {
            if p@.len() == 0 {
                assert(p@ =~= b@);
            }
        }
        if p[0] == '/' {
            return None;
        }
        return Some(string_of(&p));
    }
    if b[b.len() - 1] == '/' {
        if matches_here(&p, &b, 0) {
            let rel = string_of_range(&p, b.len(), n);
            assert(p@.subrange(b@.len() as int, n as int) =~= p@.skip(b@.len() as int));
            return Some(rel);
        }
        return None;
    }
    if under(&p, &b) {
        let rel = string_of_range(&p, b.len() + 1, n);
        assert(p@.subrange(b@.len() as int + 1, n as int) =~= p@.skip(b@.len() as int + 1));
        Some(rel)
    } else {
        None
    }
}

/// Whether the canonical path `abs` is the root or lies below it, so that it
/// does not escape the root.
pub fn ensure_within_root(root: &str, abs: &str) -> (r: bool)
    ensures
        r == strip_dir(abs@, root@) is Some,
{
    relative_to(abs, root).is_some()
}

/// The directory that holds `path`.
pub fn parent(path: &str) -> (r: Option<String>)
    ensures
        match r {
            Some(up) => parent_of(path@) == Some(up@) && up@.len() < path@.len(),
            None => parent_of(path@) is None,
        },
{
    let p = chars_of(path);
    let n = p.len();
    if n == 0 || (n == 1 && p[0] == '/') {
        return None;
    }
    assert(p@.skip(0) =~= p@);
    let cut = after_last_of(&p, 0, '/');
    proof {
        lemma_after_last(p@, '/');
    }
    let to: usize = if cut == 0 {
        0
    } else if cut == 1 {
        1
    } else {
        cut - 1
    };
    let up = string_of_range(&p, 0, to);
    assert(p@.subrange(0, to as int) =~= p@.take(to as int));
    assert(p@.take(0) =~= Seq::<char>::empty());
    Some(up)
}

/// The root of the workspace of `start`: the first of the directories
/// `start`, its parent, the parent of that, and so on, that is marked as
/// holding a repository; `marked[i]` says whether the directory `i` steps up
/// does.
pub fn discover_workspace_root(start: &str, marked: &[bool]) -> (r: Option<String>)
    ensures
        match r {
            Some(root) => first_marked(start@, marked@, 0) == Some(root@),
            None => first_marked(start@, marked@, 0) is None,
        },
{
    let mut cur: String = start.to_owned();
    let mut i: usize = 0;
    while i < marked.len()
        invariant
            i <= marked@.len(),
            first_marked(start@, marked@, 0) == first_marked(cur@, marked@, i as int),
        decreases marked@.len() - i,
    {
        if marked[i] {
            return Some(cur);
        }
        match parent(cur.as_str()) {
            Some(up) => {
                cur = up;
            },
            None => {
                return None;
            },
        }
        i += 1;
    }
    None
}

/// The key under which a workspace is known by the path of its root.
pub fn normalize_path_for_key(path: &str, private_alias: bool) -> (r: String)
    ensures
        r@ == path_key(path@, private_alias),
{
    let p = chars_of(path);
    if private_alias {
        let var = chars_of("/private/var");
        let tmp = chars_of("/private/tmp");
        if under(&p, &var) || under(&p, &tmp) {
            let skip = chars_of("/private").len();
            proof {
                reveal_strlit("/private");
                reveal_strlit("/private/var");
                reveal_strlit("/private/tmp");
            }
            let r = string_of_range(&p, skip, p.len());
            assert(p@.subrange(skip as int, p@.len() as int) =~= p@.skip(skip as int));
            return r;
        }
    }
    string_of(&p)
}

/// The path under which the workspace knows the file that was asked for as
/// `asked` and that resolves to the canonical path `abs`.
pub fn to_workspace_relative(workspace_root: &str, abs: &str, asked: &str) -> (r: String)
    ensures
        r@ == workspace_relative(workspace_root@, abs@, asked@),
{
    match relative_to(abs, workspace_root) {
        Some(rel) => {
            if rel.as_str().unicode_len() == 0 {
                ".".to_owned()
            } else {
                rel
            }
        },
        None => asked.to_owned(),
    }
}

/// What an optional string holds.
pub open spec fn scope_view(scope: Option<&str>) -> Option<Seq<char>> {
    match scope {
        Some(s) => Some(s@),
        None => None,
    }
}

/// The path of a file of the workspace as seen from the root, where `scope`
/// is the path that leads from the root of the workspace to the root, absent
/// where the root is not in the workspace.
pub fn from_workspace_to_root(scope: Option<&str>, ws_rel: &str) -> (r: String)
    ensures
        r@ == root_relative(scope_view(scope), ws_rel@),
{
    let prefix = match scope {
        None => {
            return ws_rel.to_owned();
        },
        Some(s) => chars_of(s),
    };
    let path = chars_of(ws_rel);
    if prefix.len() == 0 {
        return string_of(&path);
    }
    if same_chars(&path, &prefix) {
        return ".".to_owned();
    }
    let n = path.len();
    if prefix[prefix.len() - 1] == '/' {
        if matches_here(&path, &prefix, 0) {
            let r = string_of_range(&path, prefix.len(), n);
            assert(path@.subrange(prefix@.len() as int, n as int) =~= path@.skip(
                prefix@.len() as int,
            ));
            return r;
        }
        return string_of(&path);
    }
    if under(&path, &prefix) {
        let r = string_of_range(&path, prefix.len() + 1, n);
        assert(path@.subrange(prefix@.len() as int + 1, n as int) =~= path@.skip(
            prefix@.len() as int + 1,
        ));
        assert((prefix@ + seq!['/']).len() == prefix@.len() + 1);
        r
    } else {
        string_of(&path)
    }
}

/// The annotations in scope, each with its path as seen from the root.
pub fn map_and_filter_annotations(scope: Option<&str>, v: Vec<Annotation>) -> (r: Vec<
    Annotation,
>)
    ensures
        views(r@) == scoped(scope_view(scope), views(v@)),
{
    let mut out: Vec<Annotation> = Vec::new();
    let mut i: usize = 0;
    let ghost all = views(v@);
    assert(all.take(0) =~= Seq::<AnnotationView>::empty());
    assert(views(out@) =~= Seq::<AnnotationView>::empty());
    while i < v.len()
        invariant
            i <= v@.len(),
            all == views(v@),
            views(out@) == scoped(scope_view(scope), all.take(i as int)),
        decreases v@.len() - i,
    {
        proof {
            assert(all.take(i + 1).drop_last() =~= all.take(i as int));
            assert(all.take(i + 1).last() == v@[i as int]@);
        }
        let a = &v[i];
        let keep = match scope {
            None => true,
            Some(s) => {
                let prefix = chars_of(s);
                prefix.len() == 0 || under(&chars_of(a.file_path.as_str()), &prefix)
            },
        };
        if keep {
            let ghost before = views(out@);
            let mut b = a.copy();
            b.file_path = from_workspace_to_root(scope, a.file_path.as_str());
            out.push(b);
            assert(views(out@) =~= before.push(
                AnnotationView {
                    file_path: root_relative(scope_view(scope), a@.file_path),
                    ..a@
                },
            ));
        }
        i += 1;
    }
    assert(all.take(i as int) =~= all);
    out
}

} // verus!
