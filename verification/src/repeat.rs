//! Why a second pass over an unchanged file changes nothing.
//!
//! After a pass every annotation of the file is gone, or stands where the
//! pass has put or left it. Where each annotation that was moved denotes its
//! selection at its new place, the next pass finds every annotation of the
//! file right, and leaves the table as it is.

use crate::annotation::AnnotationView;
use crate::laws::{
    law_pass_keeps_ids_distinct,
    law_removed_is_gone,
    law_replaced_is_retrieved,
    law_settled_pass_changes_nothing,
    lemma_has_id,
};
use crate::lines::no_newline;
use crate::resync::{
    exact_here,
    relocated,
    resolution_in,
    window_match,
    Resolution,
    SnapshotView,
};
use crate::settle::{
    covers_open_columns,
    fits,
    law_moved_in_window_settles,
    law_shifted_span_is_followed,
    shifted_by,
};
use crate::text::is_blank;
use crate::store::{
    has_id,
    row_of,
    text_less,
    index_of_id,
    insert_index,
    lemma_index_of_id_bounds,
    listing,
    removed,
    replaced,
    unique_ids,
};
use crate::verification::{after_one, after_pass, for_file, ids_of, outcome, stamp, Outcome};
use vstd::prelude::*;

verus! {

/// Where a record goes in a listing is an index of the listing, or just
/// behind it.
pub proof fn lemma_insert_index_bounds(sorted: Seq<AnnotationView>, key: Seq<char>)
    ensures
        0 <= insert_index(sorted, key) <= sorted.len(),
    decreases sorted.len(),
{
    if sorted.len() > 0 {
        lemma_insert_index_bounds(sorted.drop_first(), key);
    }
}

/// A listing holds the records of the table, each as often as the table.
pub proof fn law_listing_holds_the_rows(rows: Seq<AnnotationView>)
    ensures
        listing(rows).len() == rows.len(),
        listing(rows).to_multiset() == rows.to_multiset(),
        forall|x: AnnotationView| listing(rows).contains(x) <==> rows.contains(x),
    decreases rows.len(),
{
    broadcast use vstd::seq_lib::group_to_multiset_ensures;

    if rows.len() == 0 {
        assert(listing(rows) =~= rows);
    } else {
        let front_rows = rows.drop_last();
        let a = rows.last();
        let front = listing(front_rows);
        law_listing_holds_the_rows(front_rows);
        lemma_insert_index_bounds(front, a.created_at);
        let k = insert_index(front, a.created_at);
        let out = front.insert(k, a);
        assert(listing(rows) == out);
        assert(rows =~= front_rows.push(a));
        vstd::seq_lib::to_multiset_insert(front, k, a);
        assert(front_rows.push(a).to_multiset() == front_rows.to_multiset().insert(a));
        assert(out.to_multiset() =~= rows.to_multiset());
        assert forall|x: AnnotationView| out.contains(x) <==> rows.contains(x) by {
            if out.contains(x) {
                let i = choose|i: int| 0 <= i < out.len() && out[i] == x;
                if i < k {
                    assert(front[i] == x);
                    assert(front.contains(x));
                } else if i > k {
                    assert(front[i - 1] == x);
                    assert(front.contains(x));
                }
                if x != a {
                    assert(front_rows.contains(x));
                    let j = choose|j: int| 0 <= j < front_rows.len() && front_rows[j] == x;
                    assert(rows[j] == x);
                } else {
                    assert(rows[rows.len() - 1] == x);
                }
            }
            if rows.contains(x) {
                let j = choose|j: int| 0 <= j < rows.len() && rows[j] == x;
                if j == rows.len() - 1 {
                    assert(out[k] == x);
                } else {
                    assert(front_rows[j] == x);
                    assert(front_rows.contains(x));
                    assert(front.contains(x));
                    let i = choose|i: int| 0 <= i < front.len() && front[i] == x;
                    if i < k {
                        assert(out[i] == x);
                    } else {
                        assert(out[i + 1] == x);
                    }
                }
            }
        }
    }
}

/// The order of texts is transitive.
pub proof fn lemma_text_less_transitive(a: Seq<char>, b: Seq<char>, c: Seq<char>)
    requires
        text_less(a, b),
        text_less(b, c),
    ensures
        text_less(a, c),
    decreases a.len(),
{
    if a.len() > 0 && b.len() > 0 && c.len() > 0 {
        if a[0] == b[0] && b[0] == c[0] {
            lemma_text_less_transitive(a.drop_first(), b.drop_first(), c.drop_first());
        }
    }
}

/// No text comes before itself, and of two texts that differ one comes
/// before the other.
pub proof fn lemma_text_order_total(a: Seq<char>, b: Seq<char>)
    ensures
        !text_less(a, a),
        a != b ==> text_less(a, b) || text_less(b, a),
        !(text_less(a, b) && text_less(b, a)),
    decreases a.len(),
{
    if a.len() > 0 {
        lemma_text_order_total(a.drop_first(), a.drop_first());
    }
    if a.len() > 0 && b.len() > 0 {
        if a[0] == b[0] {
            lemma_text_order_total(a.drop_first(), b.drop_first());
            if a.drop_first() == b.drop_first() {
                assert(a =~= seq![a[0]] + a.drop_first());
                assert(b =~= seq![b[0]] + b.drop_first());
            }
        } else {
            vstd::utf8::char_u32_cast(a[0], a[0] as u32);
            vstd::utf8::char_u32_cast(b[0], b[0] as u32);
        }
    } else if a.len() == 0 && b.len() == 0 {
        assert(a =~= b);
    }
}

/// No record of `s` was created before a record that stands behind it.
pub open spec fn latest_first(s: Seq<AnnotationView>) -> bool {
    forall|i: int, j: int|
        0 <= i < j < s.len() ==> !text_less((#[trigger] s[i]).created_at, (#[trigger] s[j]).created_at)
}

/// Before the place at which a record goes in a listing stand only records
/// that were not created before it, and at that place stands one that was.
pub proof fn lemma_insert_index_splits(sorted: Seq<AnnotationView>, key: Seq<char>)
    ensures
        0 <= insert_index(sorted, key) <= sorted.len(),
        forall|i: int|
            0 <= i < insert_index(sorted, key) ==> !text_less((#[trigger] sorted[i]).created_at, key),
        insert_index(sorted, key) < sorted.len() ==> text_less(
            sorted[insert_index(sorted, key)].created_at,
            key,
        ),
    decreases sorted.len(),
{
    if sorted.len() > 0 && !text_less(sorted[0].created_at, key) {
        let f = sorted.drop_first();
        lemma_insert_index_splits(f, key);
        assert forall|i: int| 0 <= i < insert_index(sorted, key) implies !text_less(
            (#[trigger] sorted[i]).created_at,
            key,
        ) by {
            if i > 0 {
                assert(sorted[i] == f[i - 1]);
            }
        }
    }
}

/// A listing has the latest created record first: no record stands before
/// one that was created later.
pub proof fn law_listing_is_latest_first(rows: Seq<AnnotationView>)
    ensures
        latest_first(listing(rows)),
    decreases rows.len(),
{
    if rows.len() > 0 {
        let front = listing(rows.drop_last());
        let a = rows.last();
        law_listing_is_latest_first(rows.drop_last());
        lemma_insert_index_splits(front, a.created_at);
        let k = insert_index(front, a.created_at);
        let out = front.insert(k, a);
        assert(listing(rows) == out);
        assert forall|i: int, j: int| 0 <= i < j < out.len() implies !text_less(
            (#[trigger] out[i]).created_at,
            (#[trigger] out[j]).created_at,
        ) by {
            if j == k {
                assert(out[i] == front[i]);
            } else if i == k {
                let y = front[j - 1];
                assert(out[j] == y);
                if text_less(a.created_at, y.created_at) {
                    lemma_text_less_transitive(front[k].created_at, a.created_at, y.created_at);
                    if k < j - 1 {
                        assert(!text_less(front[k].created_at, front[j - 1].created_at));
                    } else {
                        lemma_text_order_total(y.created_at, y.created_at);
                    }
                }
            } else {
                let i0 = if i < k {
                    i
                } else {
                    i - 1
                };
                let j0 = if j < k {
                    j
                } else {
                    j - 1
                };
                assert(out[i] == front[i0]);
                assert(out[j] == front[j0]);
                assert(!text_less(front[i0].created_at, front[j0].created_at));
            }
        }
    }
}

/// The annotations of a file are those records of the table that belong to
/// the file.
pub proof fn lemma_for_file_holds(rows: Seq<AnnotationView>, path: Seq<char>, x: AnnotationView)
    ensures
        for_file(rows, path).contains(x) <==> rows.contains(x) && x.file_path == path,
    decreases rows.len(),
{
    if rows.len() > 0 {
        let front = rows.drop_last();
        let a = rows.last();
        lemma_for_file_holds(front, path, x);
        let out = for_file(rows, path);
        let inner = for_file(front, path);
        if out.contains(x) {
            let i = choose|i: int| 0 <= i < out.len() && out[i] == x;
            if a.file_path == path && i == out.len() - 1 {
                assert(rows[rows.len() - 1] == x);
            } else {
                assert(inner[i] == x);
                assert(inner.contains(x));
                let j = choose|j: int| 0 <= j < front.len() && front[j] == x;
                assert(rows[j] == x);
            }
        }
        if rows.contains(x) && x.file_path == path {
            let j = choose|j: int| 0 <= j < rows.len() && rows[j] == x;
            if j == rows.len() - 1 {
                assert(out[out.len() - 1] == x);
            } else {
                assert(front[j] == x);
                assert(front.contains(x));
                assert(inner.contains(x));
                let i = choose|i: int| 0 <= i < inner.len() && inner[i] == x;
                assert(out[i] == x);
            }
        }
    }
}

/// A record is in the listing exactly if it is in the table.
pub proof fn lemma_listing_holds(rows: Seq<AnnotationView>, x: AnnotationView)
    ensures
        listing(rows).contains(x) <==> rows.contains(x),
{
    law_listing_holds_the_rows(rows);
}

/// A moved annotation settles: at its new place it is found unchanged. An
/// annotation that is lost settles if lost annotations are removed.
pub open spec fn settles(
    a: AnnotationView,
    snap: Option<SnapshotView>,
    w: int,
    remove_broken: bool,
    now: Option<Seq<char>>,
) -> bool {
    match resolution_in(a, snap, w) {
        Resolution::Unchanged => true,
        Resolution::Moved(o) => resolution_in(
            relocated(a, o, stamp(now, a), snap->0.digest),
            snap,
            w,
        )
            == Resolution::Unchanged,
        Resolution::Lost => remove_broken,
    }
}

/// An annotation that is moved to an occurrence of its selection in the
/// window settles, whatever the time, if it has both columns or the
/// occurrence covers its lines where a column is absent: at its new place the
/// next pass finds it unchanged.
pub proof fn law_window_moves_settle(
    a: AnnotationView,
    snap: SnapshotView,
    w: int,
    remove_broken: bool,
    now: Option<Seq<char>>,
)
    requires
        no_newline(snap.lines),
        fits(snap.lines),
        w >= 0,
        !is_blank(a.selected_text),
        !exact_here(a, snap.lines),
        window_match(a, snap.lines, w) is Some,
        covers_open_columns(a, window_match(a, snap.lines, w)->0, snap.lines),
    ensures
        resolution_in(a, Some(snap), w) == Resolution::Moved(window_match(a, snap.lines, w)->0),
        settles(a, Some(snap), w, remove_broken, now),
{
    law_moved_in_window_settles(a, snap.lines, snap.full, w, stamp(now, a), snap.digest, w);
}

/// A record of the table during a pass: it is a record of the table before
/// the pass that none of the first `done` targets names, or it belongs to the
/// file and is found unchanged.
pub open spec fn at_rest(
    x: AnnotationView,
    rows: Seq<AnnotationView>,
    targets: Seq<AnnotationView>,
    done: int,
    path: Seq<char>,
    snap: Option<SnapshotView>,
    w: int,
) -> bool {
    ||| (rows.contains(x) && forall|j: int| 0 <= j < done ==> (#[trigger] targets[j]).id != x.id)
    ||| (x.file_path == path && resolution_in(x, snap, w) == Resolution::Unchanged)
}

/// Every record of `cur` is at rest.
pub open spec fn all_at_rest(
    cur: Seq<AnnotationView>,
    rows: Seq<AnnotationView>,
    targets: Seq<AnnotationView>,
    done: int,
    path: Seq<char>,
    snap: Option<SnapshotView>,
    w: int,
) -> bool {
    forall|n: int| 0 <= n < cur.len() ==> at_rest(#[trigger] cur[n], rows, targets, done, path, snap, w)
}

/// A record at rest that the next target does not name stays at rest.
proof fn lemma_rest_of_others(
    x: AnnotationView,
    rows: Seq<AnnotationView>,
    targets: Seq<AnnotationView>,
    done: int,
    path: Seq<char>,
    snap: Option<SnapshotView>,
    w: int,
)
    requires
        0 <= done < targets.len(),
        at_rest(x, rows, targets, done, path, snap, w),
        x.id != targets[done].id,
    ensures
        at_rest(x, rows, targets, done + 1, path, snap, w),
{
    if rows.contains(x) && forall|j: int| 0 <= j < done ==> (#[trigger] targets[j]).id != x.id {
        assert forall|j: int| 0 <= j < done + 1 implies (#[trigger] targets[j]).id != x.id by {}
    }
}

/// A record at rest that the next target names, where that target is found
/// unchanged, stays at rest: it is that target.
proof fn lemma_rest_of_unchanged(
    x: AnnotationView,
    rows: Seq<AnnotationView>,
    targets: Seq<AnnotationView>,
    done: int,
    path: Seq<char>,
    snap: Option<SnapshotView>,
    w: int,
)
    requires
        unique_ids(rows),
        0 <= done < targets.len(),
        rows.contains(targets[done]),
        targets[done].file_path == path,
        resolution_in(targets[done], snap, w) == Resolution::Unchanged,
        at_rest(x, rows, targets, done, path, snap, w),
        x.id == targets[done].id,
    ensures
        at_rest(x, rows, targets, done + 1, path, snap, w),
{
    let a = targets[done];
    if rows.contains(x) {
        let i1 = choose|i: int| 0 <= i < rows.len() && rows[i] == x;
        let i2 = choose|i: int| 0 <= i < rows.len() && rows[i] == a;
        assert(rows[i1].id == rows[i2].id);
        assert(i1 == i2);
        assert(x == a);
    }
}

/// After a full replacement each record is the new one, or a record of the
/// table before with another identifier.
proof fn lemma_replaced_rows(cur: Seq<AnnotationView>, b: AnnotationView, n: int)
    requires
        unique_ids(cur),
        0 <= n < replaced(cur, b).len(),
    ensures
        replaced(cur, b)[n] == b || (cur.contains(replaced(cur, b)[n]) && replaced(cur, b)[n].id
            != b.id),
{
    lemma_index_of_id_bounds(cur, b.id);
    let k = index_of_id(cur, b.id);
    let next = replaced(cur, b);
    if has_id(cur, b.id) {
        if n != k {
            assert(next[n] == cur[n]);
            assert(cur[k].id == b.id);
            assert(cur[n].id != cur[k].id);
        }
    } else {
        assert(next[n] == cur[n]);
        lemma_has_id(cur, b.id);
    }
}

/// After a removal each record is a record of the table before with another
/// identifier.
proof fn lemma_removed_rows(cur: Seq<AnnotationView>, id: Seq<char>, n: int)
    requires
        unique_ids(cur),
        0 <= n < removed(cur, id).len(),
    ensures
        cur.contains(removed(cur, id)[n]),
        has_id(cur, id) ==> removed(cur, id)[n].id != id,
{
    lemma_index_of_id_bounds(cur, id);
    let k = index_of_id(cur, id);
    let next = removed(cur, id);
    if has_id(cur, id) {
        let m = if n < k {
            n
        } else {
            n + 1
        };
        assert(next[n] == cur[m]);
        assert(cur[k].id == id);
        assert(cur[m].id != cur[k].id);
    } else {
        assert(next[n] == cur[n]);
    }
}

/// One step of a pass keeps every record at rest.
proof fn lemma_step_keeps_rest(
    cur: Seq<AnnotationView>,
    rows: Seq<AnnotationView>,
    targets: Seq<AnnotationView>,
    done: int,
    path: Seq<char>,
    snap: Option<SnapshotView>,
    w: int,
    remove_broken: bool,
    now: Option<Seq<char>>,
)
    requires
        unique_ids(rows),
        unique_ids(cur),
        0 <= done < targets.len(),
        rows.contains(targets[done]),
        targets[done].file_path == path,
        settles(targets[done], snap, w, remove_broken, now),
        all_at_rest(cur, rows, targets, done, path, snap, w),
    ensures
        all_at_rest(
            after_one(cur, targets[done], snap, w, remove_broken, now),
            rows,
            targets,
            done + 1,
            path,
            snap,
            w,
        ),
{
    let a = targets[done];
    let next = after_one(cur, a, snap, w, remove_broken, now);
    assert forall|n: int| 0 <= n < next.len() implies at_rest(
        #[trigger] next[n],
        rows,
        targets,
        done + 1,
        path,
        snap,
        w,
    ) by {
        let x = next[n];
        match resolution_in(a, snap, w) {
            Resolution::Unchanged => {
                assert(x == cur[n]);
                assert(at_rest(cur[n], rows, targets, done, path, snap, w));
                if x.id == a.id {
                    lemma_rest_of_unchanged(x, rows, targets, done, path, snap, w);
                } else {
                    lemma_rest_of_others(x, rows, targets, done, path, snap, w);
                }
            },
            Resolution::Moved(o) => {
                let b = relocated(a, o, stamp(now, a), snap->0.digest);
                assert(next == replaced(cur, b));
                lemma_replaced_rows(cur, b, n);
                if x != b {
                    let m = choose|m: int| 0 <= m < cur.len() && cur[m] == x;
                    assert(at_rest(cur[m], rows, targets, done, path, snap, w));
                    lemma_rest_of_others(x, rows, targets, done, path, snap, w);
                }
            },
            Resolution::Lost => {
                assert(next == removed(cur, a.id));
                lemma_removed_rows(cur, a.id, n);
                let m = choose|m: int| 0 <= m < cur.len() && cur[m] == x;
                assert(at_rest(cur[m], rows, targets, done, path, snap, w));
                if has_id(cur, a.id) {
                    lemma_rest_of_others(x, rows, targets, done, path, snap, w);
                } else {
                    lemma_has_id(cur, a.id);
                    lemma_rest_of_others(x, rows, targets, done, path, snap, w);
                }
            },
        }
    }
}

/// A pass keeps every record at rest, given that each target settles.
proof fn lemma_pass_keeps_rest(
    rows: Seq<AnnotationView>,
    targets: Seq<AnnotationView>,
    done: int,
    path: Seq<char>,
    snap: Option<SnapshotView>,
    w: int,
    remove_broken: bool,
    now: Option<Seq<char>>,
)
    requires
        unique_ids(rows),
        0 <= done <= targets.len(),
        forall|j: int|
            0 <= j < targets.len() ==> rows.contains(#[trigger] targets[j]) && targets[j].file_path
                == path && settles(targets[j], snap, w, remove_broken, now),
    ensures
        all_at_rest(
            after_pass(rows, targets.take(done), snap, w, remove_broken, now),
            rows,
            targets,
            done,
            path,
            snap,
            w,
        ),
    decreases done,
{
    if done == 0 {
        assert(targets.take(0) =~= Seq::<AnnotationView>::empty());
        let cur = after_pass(rows, targets.take(0), snap, w, remove_broken, now);
        assert(cur == rows);
        assert forall|n: int| 0 <= n < cur.len() implies at_rest(
            #[trigger] cur[n],
            rows,
            targets,
            0,
            path,
            snap,
            w,
        ) by {
            assert(rows.contains(cur[n]));
        }
    } else {
        let before = targets.take(done - 1);
        let cur = after_pass(rows, before, snap, w, remove_broken, now);
        lemma_pass_keeps_rest(rows, targets, done - 1, path, snap, w, remove_broken, now);
        law_pass_keeps_ids_distinct(rows, before, snap, w, remove_broken, now);
        assert(targets.take(done).drop_last() =~= before);
        assert(targets.take(done).last() == targets[done - 1]);
        lemma_step_keeps_rest(cur, rows, targets, done - 1, path, snap, w, remove_broken, now);
    }
}

/// A second pass changes nothing.
///
/// A pass was made over the annotations of the file `path`, and each of them
/// settled: it was found unchanged, or was moved to a place at which it is
/// found unchanged, or was lost and removed. Then a pass over the same file
/// as it is, at any later time, leaves the table as it is, and updates,
/// deletes and skips nothing.
pub proof fn law_second_pass_changes_nothing(
    rows: Seq<AnnotationView>,
    path: Seq<char>,
    snap: Option<SnapshotView>,
    w: int,
    remove_broken: bool,
    now: Option<Seq<char>>,
    later: Option<Seq<char>>,
)
    requires
        unique_ids(rows),
        forall|j: int|
            0 <= j < for_file(listing(rows), path).len() ==> settles(
                #[trigger] for_file(listing(rows), path)[j],
                snap,
                w,
                remove_broken,
                now,
            ),
    ensures
        ({
            let once = after_pass(
                rows,
                for_file(listing(rows), path),
                snap,
                w,
                remove_broken,
                now,
            );
            let again = for_file(listing(once), path);
            &&& after_pass(once, again, snap, w, remove_broken, later) == once
            &&& ids_of(again, snap, w, remove_broken, Outcome::Updated).len() == 0
            &&& ids_of(again, snap, w, remove_broken, Outcome::Deleted).len() == 0
            &&& ids_of(again, snap, w, remove_broken, Outcome::Skipped).len() == 0
        }),
{
    let targets = for_file(listing(rows), path);
    let once = after_pass(rows, targets, snap, w, remove_broken, now);
    let again = for_file(listing(once), path);
    assert forall|j: int| 0 <= j < targets.len() implies rows.contains(#[trigger] targets[j])
        && targets[j].file_path == path && settles(targets[j], snap, w, remove_broken, now) by {
        assert(targets.contains(targets[j]));
        lemma_for_file_holds(listing(rows), path, targets[j]);
        lemma_listing_holds(rows, targets[j]);
    }
    lemma_pass_keeps_rest(rows, targets, targets.len() as int, path, snap, w, remove_broken, now);
    assert(targets.take(targets.len() as int) =~= targets);
    assert forall|k: int| 0 <= k < again.len() implies resolution_in(
        #[trigger] again[k],
        snap,
        w,
    ) == Resolution::Unchanged by {
        let x = again[k];
        assert(again.contains(x));
        lemma_for_file_holds(listing(once), path, x);
        lemma_listing_holds(once, x);
        assert(once.contains(x));
        let n = choose|n: int| 0 <= n < once.len() && once[n] == x;
        assert(at_rest(once[n], rows, targets, targets.len() as int, path, snap, w));
        if rows.contains(x) && forall|j: int|
            0 <= j < targets.len() ==> (#[trigger] targets[j]).id != x.id {
            lemma_listing_holds(rows, x);
            lemma_for_file_holds(listing(rows), path, x);
            assert(targets.contains(x));
            let j = choose|j: int| 0 <= j < targets.len() && targets[j] == x;
            assert(targets[j].id == x.id);
        }
    }
    law_settled_pass_changes_nothing(once, again, snap, w, remove_broken, later);
}

/// In a table of distinct identifiers a record is retrieved by its own.
pub proof fn lemma_row_of_member(rows: Seq<AnnotationView>, x: AnnotationView)
    requires
        unique_ids(rows),
        rows.contains(x),
    ensures
        row_of(rows, x.id) == Some(x),
{
    let i = choose|i: int| 0 <= i < rows.len() && rows[i] == x;
    lemma_index_of_id_bounds(rows, x.id);
    let k = index_of_id(rows, x.id);
    if k > i {
        assert(rows[i].id != x.id);
    }
    assert(rows[k].id == rows[i].id);
}

/// A listing of distinct identifiers has distinct identifiers.
pub proof fn lemma_listing_ids_distinct(rows: Seq<AnnotationView>)
    requires
        unique_ids(rows),
    ensures
        unique_ids(listing(rows)),
    decreases rows.len(),
{
    if rows.len() > 0 {
        let front_rows = rows.drop_last();
        let a = rows.last();
        let front = listing(front_rows);
        assert forall|i: int, j: int|
            0 <= i < front_rows.len() && 0 <= j < front_rows.len() && i != j implies (
        #[trigger] front_rows[i]).id != (#[trigger] front_rows[j]).id by {
            assert(front_rows[i] == rows[i]);
            assert(front_rows[j] == rows[j]);
        }
        lemma_listing_ids_distinct(front_rows);
        lemma_insert_index_bounds(front, a.created_at);
        let k = insert_index(front, a.created_at);
        let out = front.insert(k, a);
        assert forall|i: int| 0 <= i < front.len() implies (#[trigger] front[i]).id != a.id by {
            assert(front.contains(front[i]));
            lemma_listing_holds(front_rows, front[i]);
            let m = choose|m: int| 0 <= m < front_rows.len() && front_rows[m] == front[i];
            assert(rows[m] == front[i]);
            assert(rows[m].id != rows[rows.len() - 1].id);
        }
        assert forall|i: int, j: int|
            0 <= i < out.len() && 0 <= j < out.len() && i != j implies (#[trigger] out[i]).id != (
        #[trigger] out[j]).id by {
            let i0 = if i < k {
                i
            } else {
                i - 1
            };
            let j0 = if j < k {
                j
            } else {
                j - 1
            };
            if i != k {
                assert(out[i] == front[i0]);
            }
            if j != k {
                assert(out[j] == front[j0]);
            }
        }
    }
}

/// The annotations of a file in a sequence of distinct identifiers have
/// distinct identifiers.
pub proof fn lemma_for_file_ids_distinct(rows: Seq<AnnotationView>, path: Seq<char>)
    requires
        unique_ids(rows),
    ensures
        unique_ids(for_file(rows, path)),
    decreases rows.len(),
{
    if rows.len() > 0 {
        let front = rows.drop_last();
        let a = rows.last();
        assert forall|i: int, j: int|
            0 <= i < front.len() && 0 <= j < front.len() && i != j implies (
        #[trigger] front[i]).id != (#[trigger] front[j]).id by {
            assert(front[i] == rows[i]);
            assert(front[j] == rows[j]);
        }
        lemma_for_file_ids_distinct(front, path);
        let inner = for_file(front, path);
        let out = for_file(rows, path);
        if a.file_path == path {
            assert forall|i: int| 0 <= i < inner.len() implies (#[trigger] inner[i]).id
                != a.id by {
                assert(inner.contains(inner[i]));
                lemma_for_file_holds(front, path, inner[i]);
                let m = choose|m: int| 0 <= m < front.len() && front[m] == inner[i];
                assert(rows[m] == inner[i]);
                assert(rows[m].id != rows[rows.len() - 1].id);
            }
            assert forall|i: int, j: int|
                0 <= i < out.len() && 0 <= j < out.len() && i != j implies (#[trigger] out[i]).id
                != (#[trigger] out[j]).id by {
                if i < inner.len() {
                    assert(out[i] == inner[i]);
                }
                if j < inner.len() {
                    assert(out[j] == inner[j]);
                }
            }
        }
    }
}

/// What a pass leaves of annotation `a` under its identifier: the record as
/// it was where it was found unchanged, or was lost and lost records stay;
/// the record at its new place where it was moved; and nothing where it was
/// lost and lost records are removed.
pub open spec fn left_of(
    a: AnnotationView,
    snap: Option<SnapshotView>,
    w: int,
    remove_broken: bool,
    now: Option<Seq<char>>,
) -> Option<AnnotationView> {
    match resolution_in(a, snap, w) {
        Resolution::Unchanged => Some(a),
        Resolution::Moved(o) => Some(relocated(a, o, stamp(now, a), snap->0.digest)),
        Resolution::Lost => if remove_broken {
            None
        } else {
            Some(a)
        },
    }
}

/// After the first `done` targets of a pass, the record of target `j` is what
/// the pass leaves of it if it was dealt with, and the record as it was if it
/// was not.
proof fn lemma_row_during_pass(
    rows: Seq<AnnotationView>,
    targets: Seq<AnnotationView>,
    done: int,
    j: int,
    snap: Option<SnapshotView>,
    w: int,
    remove_broken: bool,
    now: Option<Seq<char>>,
)
    requires
        unique_ids(rows),
        unique_ids(targets),
        0 <= j < targets.len(),
        0 <= done <= targets.len(),
        row_of(rows, targets[j].id) == Some(targets[j]),
    ensures
        row_of(
            after_pass(rows, targets.take(done), snap, w, remove_broken, now),
            targets[j].id,
        ) == if j < done {
            left_of(targets[j], snap, w, remove_broken, now)
        } else {
            Some(targets[j])
        },
    decreases done,
{
    let a = targets[j];
    if done == 0 {
        assert(targets.take(0) =~= Seq::<AnnotationView>::empty());
    } else {
        let before = targets.take(done - 1);
        let cur = after_pass(rows, before, snap, w, remove_broken, now);
        let b = targets[done - 1];
        lemma_row_during_pass(rows, targets, done - 1, j, snap, w, remove_broken, now);
        law_pass_keeps_ids_distinct(rows, before, snap, w, remove_broken, now);
        assert(targets.take(done).drop_last() =~= before);
        assert(targets.take(done).last() == b);
        let next = after_one(cur, b, snap, w, remove_broken, now);
        assert(after_pass(rows, targets.take(done), snap, w, remove_broken, now) == next);
        match resolution_in(b, snap, w) {
            Resolution::Unchanged => {},
            Resolution::Moved(o) => {
                let moved = relocated(b, o, stamp(now, b), snap->0.digest);
                law_replaced_is_retrieved(cur, moved, a.id);
            },
            Resolution::Lost => {
                if remove_broken {
                    law_removed_is_gone(cur, b.id, a.id);
                }
            },
        }
    }
}

/// The identifier of a target with which a pass does `kind` is among those
/// that the pass reports for `kind`.
pub proof fn lemma_ids_of_holds(
    targets: Seq<AnnotationView>,
    snap: Option<SnapshotView>,
    w: int,
    remove_broken: bool,
    kind: Outcome,
    j: int,
)
    requires
        0 <= j < targets.len(),
        outcome(resolution_in(targets[j], snap, w), remove_broken) == kind,
    ensures
        ids_of(targets, snap, w, remove_broken, kind).contains(targets[j].id),
    decreases targets.len(),
{
    let all = ids_of(targets, snap, w, remove_broken, kind);
    let front = ids_of(targets.drop_last(), snap, w, remove_broken, kind);
    if j == targets.len() - 1 {
        assert(all[all.len() - 1] == targets[j].id);
    } else {
        assert(targets.drop_last()[j] == targets[j]);
        lemma_ids_of_holds(targets.drop_last(), snap, w, remove_broken, kind, j);
        let i = choose|i: int| 0 <= i < front.len() && front[i] == targets[j].id;
        assert(all[i] == targets[j].id);
    }
}

/// After a pass each annotation of the file is, under its identifier, what
/// the pass leaves of it; an annotation that was moved is at its new place,
/// with all its other fields as they were.
pub proof fn law_pass_leaves_each_as_resolved(
    rows: Seq<AnnotationView>,
    path: Seq<char>,
    snap: Option<SnapshotView>,
    w: int,
    remove_broken: bool,
    now: Option<Seq<char>>,
    j: int,
)
    requires
        unique_ids(rows),
        0 <= j < for_file(listing(rows), path).len(),
    ensures
        row_of(
            after_pass(rows, for_file(listing(rows), path), snap, w, remove_broken, now),
            for_file(listing(rows), path)[j].id,
        ) == left_of(for_file(listing(rows), path)[j], snap, w, remove_broken, now),
        ids_of(
            for_file(listing(rows), path),
            snap,
            w,
            remove_broken,
            outcome(resolution_in(for_file(listing(rows), path)[j], snap, w), remove_broken),
        ).contains(for_file(listing(rows), path)[j].id),
{
    let targets = for_file(listing(rows), path);
    let a = targets[j];
    lemma_listing_ids_distinct(rows);
    lemma_for_file_ids_distinct(listing(rows), path);
    assert(targets.contains(a));
    lemma_for_file_holds(listing(rows), path, a);
    lemma_listing_holds(rows, a);
    lemma_row_of_member(rows, a);
    lemma_row_during_pass(rows, targets, targets.len() as int, j, snap, w, remove_broken, now);
    assert(targets.take(targets.len() as int) =~= targets);
    lemma_ids_of_holds(
        targets,
        snap,
        w,
        remove_broken,
        outcome(resolution_in(a, snap, w), remove_broken),
        j,
    );
}

/// A pass follows lines that were shifted.
///
/// The table holds an annotation of the file whose lines were shifted by `k`
/// lines within the window, in a file whose line numbers and line lengths
/// fit. Then the pass updates this record: afterwards it is recorded `k`
/// lines further, each column that it has is as it was and an absent column
/// is absent, and its identifier, file, selection, comment, tags, priority and
/// time of creation are as they were. Where it is the only annotation of the
/// file, it is the one record that the pass reports, as updated.
pub proof fn law_pass_follows_a_shifted_span(
    rows: Seq<AnnotationView>,
    path: Seq<char>,
    snap: SnapshotView,
    w: int,
    remove_broken: bool,
    now: Option<Seq<char>>,
    j: int,
    k: int,
)
    requires
        unique_ids(rows),
        no_newline(snap.lines),
        fits(snap.lines),
        0 <= j < for_file(listing(rows), path).len(),
        shifted_by(for_file(listing(rows), path)[j], snap.lines, w, k),
    ensures
        ({
            let targets = for_file(listing(rows), path);
            let a = targets[j];
            let after = after_pass(rows, targets, Some(snap), w, remove_broken, now);
            let b = row_of(after, a.id)->0;
            &&& row_of(after, a.id) is Some
            &&& ids_of(targets, Some(snap), w, remove_broken, Outcome::Updated).contains(a.id)
            &&& b.start_line == a.start_line + k
            &&& b.end_line == a.end_line + k
            &&& b.start_column == a.start_column
            &&& b.end_column == a.end_column
            &&& b.id == a.id
            &&& b.file_path == a.file_path
            &&& b.selected_text == a.selected_text
            &&& b.comment == a.comment
            &&& b.tags == a.tags
            &&& b.priority == a.priority
            &&& b.created_at == a.created_at
            &&& targets.len() == 1 ==> {
                &&& ids_of(targets, Some(snap), w, remove_broken, Outcome::Updated) == seq![a.id]
                &&& ids_of(targets, Some(snap), w, remove_broken, Outcome::Deleted).len() == 0
                &&& ids_of(targets, Some(snap), w, remove_broken, Outcome::Skipped).len() == 0
            }
        }),
{
    let targets = for_file(listing(rows), path);
    let a = targets[j];
    law_shifted_span_is_followed(a, snap.lines, snap.full, w, k, stamp(now, a), snap.digest);
    law_pass_leaves_each_as_resolved(rows, path, Some(snap), w, remove_broken, now, j);
    assert(resolution_in(a, Some(snap), w) is Moved);
    if targets.len() == 1 {
        lemma_single_target(targets, Some(snap), w, remove_broken);
    }
}

/// Of a single target the pass reports its identifier in the bucket of what
/// it does with it, and nothing in the others.
proof fn lemma_single_target(
    targets: Seq<AnnotationView>,
    snap: Option<SnapshotView>,
    w: int,
    remove_broken: bool,
)
    requires
        targets.len() == 1,
    ensures
        forall|kind: Outcome|
            #[trigger] ids_of(targets, snap, w, remove_broken, kind) == if outcome(
                resolution_in(targets[0], snap, w),
                remove_broken,
            ) == kind {
                seq![targets[0].id]
            } else {
                Seq::<Seq<char>>::empty()
            },
{
    let none = targets.drop_last();
    assert(none.len() == 0);
    assert(targets.last() == targets[0]);
    assert forall|kind: Outcome|
        #[trigger] ids_of(targets, snap, w, remove_broken, kind) == if outcome(
            resolution_in(targets[0], snap, w),
            remove_broken,
        ) == kind {
            seq![targets[0].id]
        } else {
            Seq::<Seq<char>>::empty()
        } by {
        assert(ids_of(none, snap, w, remove_broken, kind).len() == 0);
        if outcome(resolution_in(targets[0], snap, w), remove_broken) == kind {
            assert(ids_of(targets, snap, w, remove_broken, kind) =~= seq![targets[0].id]);
        } else {
            assert(ids_of(targets, snap, w, remove_broken, kind)
                =~= Seq::<Seq<char>>::empty());
        }
    }
}

} // verus!
