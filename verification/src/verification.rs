//! One pass over the annotations of a file: each is checked against the file
//! as it is now, moved where its text was found again, and removed or left
//! where it was not.

use crate::annotation::{texts, views, Annotation, AnnotationView};
use crate::clock::now_rfc3339;
use crate::files::{opt_str, FullFile, HARD_SIZE_BYTES};
use crate::lines::{file_lines, lemma_file_lines_no_newline, no_newline, read_lines};
use crate::resync::{
    DEFAULT_WINDOW,
    relocate,
    relocated,
    resolution_in,
    resolve,
    Resolution,
    Snapshot,
    SnapshotView,
};
use crate::store::{listing, removed, replaced, same_text, Store};
use crate::text::chars_of;
use vstd::prelude::*;

verus! {

/// The size up to which the whole text of a file is kept for the search of
/// last resort, where none is given.
pub const DEFAULT_FULL_LIMIT: usize = 5 * 1024 * 1024;

/// The counts of one pass, and the identifiers in each bucket in the order in
/// which the annotations were checked.
#[derive(Debug)]
pub struct VerifyResultOut {
    pub checked: usize,
    pub updated: usize,
    pub deleted: usize,
    pub skipped: usize,
    pub updated_ids: Vec<String>,
    pub deleted_ids: Vec<String>,
    pub skipped_ids: Vec<String>,
}

/// What a pass does with one annotation.
#[derive(Clone, Copy, Debug, PartialEq, Eq, Structural)]
pub enum Outcome {
    /// The span still denotes the selection: the record is not touched.
    Kept,
    /// The selection was found elsewhere: the record is moved there.
    Updated,
    /// The selection was not found, and lost records are removed.
    Deleted,
    /// The selection was not found, and lost records are left as they are.
    Skipped,
}

/// What a pass does with an annotation that was resolved as `res`.
pub open spec fn outcome(res: Resolution, remove_broken: bool) -> Outcome {
    match res {
        Resolution::Unchanged => Outcome::Kept,
        Resolution::Moved(_) => Outcome::Updated,
        Resolution::Lost => if remove_broken {
            Outcome::Deleted
        } else {
            Outcome::Skipped
        },
    }
}

/// Those of `rows` that belong to the file `path`, in the order of `rows`.
pub open spec fn for_file(rows: Seq<AnnotationView>, path: Seq<char>) -> Seq<AnnotationView>
    decreases rows.len(),
{
    if rows.len() == 0 {
        Seq::empty()
    } else if rows.last().file_path == path {
        for_file(rows.drop_last(), path).push(rows.last())
    } else {
        for_file(rows.drop_last(), path)
    }
}

/// The time of the last change that a moved annotation gets: the current
/// time, or the time that it has where the current time is not known.
pub open spec fn stamp(now: Option<Seq<char>>, a: AnnotationView) -> Seq<char> {
    match now {
        Some(t) => t,
        None => a.updated_at,
    }
}

/// The table after the pass has dealt with annotation `a`.
pub open spec fn after_one(
    rows: Seq<AnnotationView>,
    a: AnnotationView,
    snap: Option<SnapshotView>,
    w: int,
    remove_broken: bool,
    now: Option<Seq<char>>,
) -> Seq<AnnotationView> {
    match resolution_in(a, snap, w) {
        Resolution::Unchanged => rows,
        Resolution::Moved(o) => replaced(rows, relocated(a, o, stamp(now, a), snap->0.digest)),
        Resolution::Lost => if remove_broken {
            removed(rows, a.id)
        } else {
            rows
        },
    }
}

/// The table after the pass has dealt with `targets`, one after the other.
pub open spec fn after_pass(
    rows: Seq<AnnotationView>,
    targets: Seq<AnnotationView>,
    snap: Option<SnapshotView>,
    w: int,
    remove_broken: bool,
    now: Option<Seq<char>>,
) -> Seq<AnnotationView>
    decreases targets.len(),
{
    if targets.len() == 0 {
        rows
    } else {
        after_one(
            after_pass(rows, targets.drop_last(), snap, w, remove_broken, now),
            targets.last(),
            snap,
            w,
            remove_broken,
            now,
        )
    }
}

/// The identifiers of those of `targets` with which the pass does `kind`, in
/// the order of `targets`.
pub open spec fn ids_of(
    targets: Seq<AnnotationView>,
    snap: Option<SnapshotView>,
    w: int,
    remove_broken: bool,
    kind: Outcome,
) -> Seq<Seq<char>>
    decreases targets.len(),
{
    if targets.len() == 0 {
        Seq::empty()
    } else {
        let front = ids_of(targets.drop_last(), snap, w, remove_broken, kind);
        if outcome(resolution_in(targets.last(), snap, w), remove_broken) == kind {
            front.push(targets.last().id)
        } else {
            front
        }
    }
}

/// What a snapshot that may be absent holds.
pub open spec fn snap_view(snap: Option<&Snapshot>) -> Option<SnapshotView> {
    match snap {
        Some(s) => Some(s@),
        None => None,
    }
}

/// The annotations of the file `path`, the latest created first.
pub fn annotations_for_file(store: &Store, path: &str) -> (r: Vec<Annotation>)
    ensures
        views(r@) == for_file(listing(store@), path@),
{
    let all = store.list_annotations();
    let mut out: Vec<Annotation> = Vec::new();
    let mut i: usize = 0;
    assert(views(all@).take(0) =~= Seq::<AnnotationView>::empty());
    assert(views(out@) =~= Seq::<AnnotationView>::empty());
    while i < all.len()
        invariant
            i <= all@.len(),
            all@.len() == views(all@).len(),
            views(out@) == for_file(views(all@).take(i as int), path@),
        decreases all@.len() - i,
    {
        proof {
            assert(views(all@).take(i + 1).drop_last() =~= views(all@).take(i as int));
            assert(views(all@).take(i + 1).last() == all@[i as int]@);
        }
        let ghost before = views(out@);
        if same_text(all[i].file_path.as_str(), path) {
            out.push(all[i].copy());
            assert(views(out@) =~= before.push(all@[i as int]@));
        }
        i += 1;
    }
    assert(views(all@).take(i as int) =~= views(all@));
    out
}

/// One pass over the annotations of the file `path`, which was read as `snap`
/// or, where `snap` is absent, could not be read as text.
///
/// Each annotation of the file is checked once, in the order of the listing.
/// One whose span still denotes its selection is not touched. One whose
/// selection was found elsewhere is moved there and counted as updated. One
/// whose selection was not found is removed and counted as deleted where
/// `remove_broken` holds, and is left and counted as skipped where it does not.
pub fn verify_pass(
    store: &mut Store,
    path: &str,
    snap: Option<&Snapshot>,
    window: usize,
    remove_broken: bool,
    now: Option<&str>,
) -> (r: VerifyResultOut)
    requires
        old(store).wf(),
    ensures
        final(store).wf(),
        final(store).workspace() == old(store).workspace(),
        final(store)@ == after_pass(
            old(store)@,
            for_file(listing(old(store)@), path@),
            snap_view(snap),
            window as int,
            remove_broken,
            opt_str(now),
        ),
        r.checked == for_file(listing(old(store)@), path@).len(),
        texts(r.updated_ids@) == ids_of(
            for_file(listing(old(store)@), path@),
            snap_view(snap),
            window as int,
            remove_broken,
            Outcome::Updated,
        ),
        texts(r.deleted_ids@) == ids_of(
            for_file(listing(old(store)@), path@),
            snap_view(snap),
            window as int,
            remove_broken,
            Outcome::Deleted,
        ),
        texts(r.skipped_ids@) == ids_of(
            for_file(listing(old(store)@), path@),
            snap_view(snap),
            window as int,
            remove_broken,
            Outcome::Skipped,
        ),
        r.updated == r.updated_ids@.len(),
        r.deleted == r.deleted_ids@.len(),
        r.skipped == r.skipped_ids@.len(),
        r.updated + r.deleted + r.skipped <= r.checked,
        remove_broken ==> r.skipped == 0,
        !remove_broken ==> r.deleted == 0,
{
    let targets = annotations_for_file(store, path);
    let ghost start = store@;
    let ghost tv = views(targets@);
    let ghost sv = snap_view(snap);
    let ghost w = window as int;
    let mut updated_ids: Vec<String> = Vec::new();
    let mut deleted_ids: Vec<String> = Vec::new();
    let mut skipped_ids: Vec<String> = Vec::new();
    let mut i: usize = 0;
    proof {
        assert(tv.take(0) =~= Seq::<AnnotationView>::empty());
        assert(texts(updated_ids@) =~= Seq::<Seq<char>>::empty());
        assert(texts(deleted_ids@) =~= Seq::<Seq<char>>::empty());
        assert(texts(skipped_ids@) =~= Seq::<Seq<char>>::empty());
    }
    while i < targets.len()
        invariant
            i <= targets@.len(),
            tv == views(targets@),
            sv == snap_view(snap),
            w == window as int,
            store.wf(),
            store.workspace() == old(store).workspace(),
            store@ == after_pass(start, tv.take(i as int), sv, w, remove_broken, opt_str(now)),
            texts(updated_ids@) == ids_of(tv.take(i as int), sv, w, remove_broken, Outcome::Updated),
            texts(deleted_ids@) == ids_of(tv.take(i as int), sv, w, remove_broken, Outcome::Deleted),
            texts(skipped_ids@) == ids_of(tv.take(i as int), sv, w, remove_broken, Outcome::Skipped),
            updated_ids@.len() <= i,
            deleted_ids@.len() <= i,
            skipped_ids@.len() <= i,
        decreases targets@.len() - i,
    {
        let ann = &targets[i];
        proof {
            assert(tv.take(i + 1).drop_last() =~= tv.take(i as int));
            assert(tv.take(i + 1).last() == ann@);
        }
        let res = match snap {
            Some(s) => resolve(ann, s, window),
            None => Resolution::Lost,
        };
        assert(res == resolution_in(ann@, sv, w));
        let ghost u0 = texts(updated_ids@);
        let ghost d0 = texts(deleted_ids@);
        let ghost s0 = texts(skipped_ids@);
        match res {
            Resolution::Unchanged => {},
            Resolution::Moved(o) => {
                let digest: Option<String> = match snap {
                    Some(s) => crate::annotation::copy_opt(&s.digest),
                    None => None,
                };
                let moved = match now {
                    Some(t) => relocate(ann, o, t, &digest),
                    None => relocate(ann, o, ann.updated_at.as_str(), &digest),
                };
                let _ = store.update_annotation(&moved);
                updated_ids.push(ann.id.clone());
                assert(texts(updated_ids@) =~= u0.push(ann@.id));
            },
            Resolution::Lost => {
                if remove_broken {
                    let _ = store.delete_annotation(ann.id.as_str());
                    deleted_ids.push(ann.id.clone());
                    assert(texts(deleted_ids@) =~= d0.push(ann@.id));
                } else {
                    skipped_ids.push(ann.id.clone());
                    assert(texts(skipped_ids@) =~= s0.push(ann@.id));
                }
            },
        }
        i += 1;
    }
    assert(tv.take(i as int) =~= tv);
    proof {
        crate::laws::law_each_annotation_in_one_bucket(tv, sv, w, remove_broken);
        assert(texts(updated_ids@).len() == updated_ids@.len());
        assert(texts(deleted_ids@).len() == deleted_ids@.len());
        assert(texts(skipped_ids@).len() == skipped_ids@.len());
    }
    VerifyResultOut {
        checked: targets.len(),
        updated: updated_ids.len(),
        deleted: deleted_ids.len(),
        skipped: skipped_ids.len(),
        updated_ids,
        deleted_ids,
        skipped_ids,
    }
}

/// Whether the whole text of a file of `size` bytes is kept for the search of
/// last resort: it is where the file may be read as a whole and is within
/// the ceiling `limit`.
pub open spec fn keeps_full(size: int, limit: int) -> bool {
    size <= HARD_SIZE_BYTES && size <= limit
}

/// What the file `file` is read as, with the ceiling `limit` for the whole
/// text.
pub open spec fn snapshot_of(file: FullFile, limit: int) -> SnapshotView {
    SnapshotView {
        lines: file_lines(file.content@),
        full: if keeps_full(file.size as int, limit) {
            Some(file.content@)
        } else {
            None
        },
        digest: if keeps_full(file.size as int, limit) {
            Some(file.digest@)
        } else {
            None
        },
    }
}

/// What a file that may be absent is read as.
pub open spec fn snapshot_for(file: Option<&FullFile>, limit: int) -> Option<SnapshotView> {
    match file {
        Some(f) => Some(snapshot_of(*f, limit)),
        None => None,
    }
}

/// Reads `file` for a pass: its lines, and its whole text and digest where
/// the file is within the ceiling `full_limit`.
pub fn take_snapshot(file: &FullFile, full_limit: usize) -> (snap: Snapshot)
    ensures
        snap@ == snapshot_of(*file, full_limit as int),
        no_newline(snap@.lines),
{
    proof {
        lemma_file_lines_no_newline(file.content@);
    }
    let chars = chars_of(file.content.as_str());
    let lines = read_lines(&chars);
    if file.size <= HARD_SIZE_BYTES && file.size <= full_limit as u64 {
        Snapshot { lines, full: Some(chars), digest: Some(file.digest.clone()) }
    } else {
        Snapshot { lines, full: None, digest: None }
    }
}

/// Checks the annotations of the file `path` against the file as it is, at
/// the time `now`.
///
/// `file` is the file as the accessor read it, absent where it could not be
/// read as text. `window` is the number of lines searched on each side of a
/// span, 40 where absent; `full_limit_bytes` is the size up to which the whole
/// text is searched as a last resort, 5 MiB where absent. A moved annotation
/// gets `now` as the time of its last change, and keeps the time that it has
/// where `now` is absent.
pub fn verify_annotations_at(
    store: &mut Store,
    path: &str,
    file: Option<&FullFile>,
    window: Option<usize>,
    full_limit_bytes: Option<usize>,
    remove_broken: bool,
    now: Option<&str>,
) -> (r: VerifyResultOut)
    requires
        old(store).wf(),
    ensures
        final(store).wf(),
        final(store).workspace() == old(store).workspace(),
        final(store)@ == after_pass(
            old(store)@,
            for_file(listing(old(store)@), path@),
            snapshot_for(file, limit_or_default(full_limit_bytes)),
            window_or_default(window),
            remove_broken,
            opt_str(now),
        ),
        r.checked == for_file(listing(old(store)@), path@).len(),
        texts(r.updated_ids@) == ids_of(
            for_file(listing(old(store)@), path@),
            snapshot_for(file, limit_or_default(full_limit_bytes)),
            window_or_default(window),
            remove_broken,
            Outcome::Updated,
        ),
        texts(r.deleted_ids@) == ids_of(
            for_file(listing(old(store)@), path@),
            snapshot_for(file, limit_or_default(full_limit_bytes)),
            window_or_default(window),
            remove_broken,
            Outcome::Deleted,
        ),
        texts(r.skipped_ids@) == ids_of(
            for_file(listing(old(store)@), path@),
            snapshot_for(file, limit_or_default(full_limit_bytes)),
            window_or_default(window),
            remove_broken,
            Outcome::Skipped,
        ),
        r.updated == r.updated_ids@.len(),
        r.deleted == r.deleted_ids@.len(),
        r.skipped == r.skipped_ids@.len(),
        r.updated + r.deleted + r.skipped <= r.checked,
        remove_broken ==> r.skipped == 0,
        !remove_broken ==> r.deleted == 0,
{
    let win: usize = match window {
        Some(w) => w,
        None => DEFAULT_WINDOW,
    };
    let limit: usize = match full_limit_bytes {
        Some(l) => l,
        None => DEFAULT_FULL_LIMIT,
    };
    match file {
        Some(f) => {
            let snap = take_snapshot(f, limit);
            verify_pass(store, path, Some(&snap), win, remove_broken, now)
        },
        None => verify_pass(store, path, None, win, remove_broken, now),
    }
}

/// Checks the annotations of the file `path` against the file as it is now:
/// the pass of `verify_annotations_at` at the time that the clock shows.
///
/// Whatever the clock shows, every annotation of the file is checked once,
/// the annotations of other files stay as they are, and the result names the
/// annotations by what became of them; the time enters only the time of the
/// last change of those that were moved.
pub fn verify_annotations_for_file(
    store: &mut Store,
    path: &str,
    file: Option<&FullFile>,
    window: Option<usize>,
    full_limit_bytes: Option<usize>,
    remove_broken: bool,
) -> (r: VerifyResultOut)
    requires
        old(store).wf(),
    ensures
        final(store).wf(),
        final(store).workspace() == old(store).workspace(),
        exists|now: Option<Seq<char>>|
            final(store)@ == #[trigger] after_pass(
                old(store)@,
                for_file(listing(old(store)@), path@),
                snapshot_for(file, limit_or_default(full_limit_bytes)),
                window_or_default(window),
                remove_broken,
                now,
            ),
        r.checked == for_file(listing(old(store)@), path@).len(),
        texts(r.updated_ids@) == ids_of(
            for_file(listing(old(store)@), path@),
            snapshot_for(file, limit_or_default(full_limit_bytes)),
            window_or_default(window),
            remove_broken,
            Outcome::Updated,
        ),
        texts(r.deleted_ids@) == ids_of(
            for_file(listing(old(store)@), path@),
            snapshot_for(file, limit_or_default(full_limit_bytes)),
            window_or_default(window),
            remove_broken,
            Outcome::Deleted,
        ),
        texts(r.skipped_ids@) == ids_of(
            for_file(listing(old(store)@), path@),
            snapshot_for(file, limit_or_default(full_limit_bytes)),
            window_or_default(window),
            remove_broken,
            Outcome::Skipped,
        ),
        r.updated == r.updated_ids@.len(),
        r.deleted == r.deleted_ids@.len(),
        r.skipped == r.skipped_ids@.len(),
        r.updated + r.deleted + r.skipped <= r.checked,
        remove_broken ==> r.skipped == 0,
        !remove_broken ==> r.deleted == 0,
{
    let now = now_rfc3339();
    match &now {
        Some(t) => verify_annotations_at(
            store,
            path,
            file,
            window,
            full_limit_bytes,
            remove_broken,
            Some(t.as_str()),
        ),
        None => verify_annotations_at(
            store,
            path,
            file,
            window,
            full_limit_bytes,
            remove_broken,
            None,
        ),
    }
}

/// The window of a pass: the one given, or 40 lines.
pub open spec fn window_or_default(window: Option<usize>) -> int {
    match window {
        Some(w) => w as int,
        None => DEFAULT_WINDOW as int,
    }
}

/// The ceiling of a pass for the whole text: the one given, or 5 MiB.
pub open spec fn limit_or_default(limit: Option<usize>) -> int {
    match limit {
        Some(l) => l as int,
        None => DEFAULT_FULL_LIMIT as int,
    }
}

} // verus!
