//! What holds of the store, the accessor and the passes, whatever the inputs.

use crate::annotation::AnnotationView;
use crate::digest::digest_of;
use crate::files::{full_is, write_allowed, FullFile};
use crate::resync::{
    anchored_match,
    chunk_of,
    exact_here,
    head_of,
    line_hits,
    relocated,
    resolution,
    resolution_in,
    span_first,
    span_last,
    tail_of,
    window_first,
    window_last,
    window_match,
    Resolution,
    SnapshotView,
};
use crate::search::{clamp_i64, first_match, lemma_nearest_index, nearest, nearest_index, Occurrence};
use crate::store::{
    has_id,
    import_count,
    imported,
    index_of_id,
    lemma_index_of_id,
    lemma_index_of_id_bounds,
    removed,
    replaced,
    row_of,
    text_less,
    unique_ids,
    ImportAction,
};
use crate::text::is_blank;
use crate::verification::{after_one, after_pass, ids_of, outcome, stamp, Outcome};
use vstd::prelude::*;
use vstd::utf8::{encode_utf8, valid_utf8};

verus! {

/// An annotation whose selection is empty or holds only white space is never
/// matched: in any file, and with any window, it is lost, so a pass removes
/// it or leaves it, and never moves it.
pub proof fn law_blank_selection_is_lost(
    a: AnnotationView,
    snap: Option<SnapshotView>,
    w: int,
    remove_broken: bool,
)
    requires
        is_blank(a.selected_text),
    ensures
        resolution_in(a, snap, w) == Resolution::Lost,
        outcome(resolution_in(a, snap, w), remove_broken) == if remove_broken {
            Outcome::Deleted
        } else {
            Outcome::Skipped
        },
{
}

/// The hits of a piece in lines are on lines whose number is at least the
/// least number asked for, and each hit starts and ends on one line.
pub proof fn lemma_line_hits_bounds(
    lines: Seq<Seq<char>>,
    piece: Seq<char>,
    first_line: int,
    min_line: i64,
)
    ensures
        forall|k: int|
            0 <= k < line_hits(lines, piece, first_line, min_line).len() ==> (#[trigger] line_hits(
                lines,
                piece,
                first_line,
                min_line,
            )[k]).start_line >= min_line && line_hits(lines, piece, first_line, min_line)[k].end_line
                == line_hits(lines, piece, first_line, min_line)[k].start_line,
    decreases lines.len(),
{
    if lines.len() > 0 {
        let rest = line_hits(lines.drop_last(), piece, first_line, min_line);
        let all = line_hits(lines, piece, first_line, min_line);
        lemma_line_hits_bounds(lines.drop_last(), piece, first_line, min_line);
        assert forall|k: int| 0 <= k < all.len() implies (#[trigger] all[k]).start_line
            >= min_line && all[k].end_line == all[k].start_line by {
            if k < rest.len() {
                assert(all[k] == rest[k]);
            }
        }
    }
}

/// Where a line whose number is at least the least number asked for holds
/// the piece, the piece has a hit.
pub proof fn lemma_line_hits_found(
    lines: Seq<Seq<char>>,
    piece: Seq<char>,
    first_line: int,
    min_line: i64,
    i: int,
)
    requires
        0 <= i < lines.len(),
        first_match(lines[i], piece, 0) is Some,
        clamp_i64(first_line + i) >= min_line,
    ensures
        line_hits(lines, piece, first_line, min_line).len() > 0,
    decreases lines.len(),
{
    if i < lines.len() - 1 {
        assert(lines.drop_last()[i] == lines[i]);
        lemma_line_hits_found(lines.drop_last(), piece, first_line, min_line, i);
    }
}

/// Boundary anchoring. A selection of several lines no longer stands where it
/// is recorded, nor anywhere in the window, but a line of the window holds
/// its trimmed first line, and a line at or after the nearest such line holds
/// its trimmed last line. Then the annotation is moved: it starts where the
/// first line was found nearest to the recorded start, and ends where the
/// last line was found nearest to the recorded end, at or after that start.
pub proof fn law_anchored_by_first_and_last_line(
    a: AnnotationView,
    lines: Seq<Seq<char>>,
    full: Option<Seq<char>>,
    w: int,
    i: int,
    j: int,
)
    requires
        !is_blank(a.selected_text),
        a.selected_text.contains('\n'),
        head_of(a.selected_text).len() > 0,
        tail_of(a.selected_text).len() > 0,
        !exact_here(a, lines),
        window_match(a, lines, w) is None,
        0 <= i < chunk_of(lines, window_first(a, w), window_last(a, w)).len(),
        first_match(
            chunk_of(lines, window_first(a, w), window_last(a, w))[i],
            head_of(a.selected_text),
            0,
        ) is Some,
        0 <= j < chunk_of(lines, window_first(a, w), window_last(a, w)).len(),
        first_match(
            chunk_of(lines, window_first(a, w), window_last(a, w))[j],
            tail_of(a.selected_text),
            0,
        ) is Some,
        clamp_i64(window_first(a, w) + j) >= nearest(
            line_hits(
                chunk_of(lines, window_first(a, w), window_last(a, w)),
                head_of(a.selected_text),
                window_first(a, w),
                1,
            ),
            clamp_i64(span_first(a)),
        )->0.start_line,
    ensures
        anchored_match(a, lines, w) is Some,
        resolution(a, lines, full, w) == Resolution::Moved(anchored_match(a, lines, w)->0),
        ({
            let chunk = chunk_of(lines, window_first(a, w), window_last(a, w));
            let first = window_first(a, w);
            let h = nearest(
                line_hits(chunk, head_of(a.selected_text), first, 1),
                clamp_i64(span_first(a)),
            )->0;
            let t = nearest(
                line_hits(chunk, tail_of(a.selected_text), first, h.start_line),
                clamp_i64(span_last(a)),
            )->0;
            &&& anchored_match(a, lines, w)->0 == Occurrence {
                start_line: h.start_line,
                end_line: t.start_line,
                start_col: h.start_col,
                end_col: t.end_col,
            }
            &&& h.start_line <= t.start_line
        }),
{
    let chunk = chunk_of(lines, window_first(a, w), window_last(a, w));
    let first = window_first(a, w);
    let head = head_of(a.selected_text);
    let tail = tail_of(a.selected_text);
    let heads = line_hits(chunk, head, first, 1);
    assert(clamp_i64(first + i) >= 1);
    lemma_line_hits_found(chunk, head, first, 1, i);
    let h = nearest(heads, clamp_i64(span_first(a)))->0;
    let tails = line_hits(chunk, tail, first, h.start_line);
    lemma_line_hits_found(chunk, tail, first, h.start_line, j);
    lemma_line_hits_bounds(chunk, tail, first, h.start_line);
    lemma_nearest_index(tails, clamp_i64(span_last(a)));
    let t = nearest(tails, clamp_i64(span_last(a)))->0;
    assert(t == tails[nearest_index(tails, clamp_i64(span_last(a)))]);
}

/// A pass deals with every annotation exactly once: each is kept, updated,
/// deleted or skipped, and the four buckets together hold as many
/// identifiers as annotations were checked.
pub proof fn law_each_annotation_in_one_bucket(
    targets: Seq<AnnotationView>,
    snap: Option<SnapshotView>,
    w: int,
    remove_broken: bool,
)
    ensures
        ids_of(targets, snap, w, remove_broken, Outcome::Kept).len() + ids_of(
            targets,
            snap,
            w,
            remove_broken,
            Outcome::Updated,
        ).len() + ids_of(targets, snap, w, remove_broken, Outcome::Deleted).len() + ids_of(
            targets,
            snap,
            w,
            remove_broken,
            Outcome::Skipped,
        ).len() == targets.len(),
        remove_broken ==> ids_of(targets, snap, w, remove_broken, Outcome::Skipped).len() == 0,
        !remove_broken ==> ids_of(targets, snap, w, remove_broken, Outcome::Deleted).len() == 0,
    decreases targets.len(),
{
    if targets.len() > 0 {
        law_each_annotation_in_one_bucket(targets.drop_last(), snap, w, remove_broken);
    }
}

/// Where every annotation of a file still stands where it is recorded, a pass
/// changes nothing: the table stays as it is, and nothing is updated,
/// deleted or skipped.
pub proof fn law_settled_pass_changes_nothing(
    rows: Seq<AnnotationView>,
    targets: Seq<AnnotationView>,
    snap: Option<SnapshotView>,
    w: int,
    remove_broken: bool,
    now: Option<Seq<char>>,
)
    requires
        forall|k: int|
            0 <= k < targets.len() ==> resolution_in(#[trigger] targets[k], snap, w)
                == Resolution::Unchanged,
    ensures
        after_pass(rows, targets, snap, w, remove_broken, now) == rows,
        ids_of(targets, snap, w, remove_broken, Outcome::Updated).len() == 0,
        ids_of(targets, snap, w, remove_broken, Outcome::Deleted).len() == 0,
        ids_of(targets, snap, w, remove_broken, Outcome::Skipped).len() == 0,
        ids_of(targets, snap, w, remove_broken, Outcome::Kept).len() == targets.len(),
    decreases targets.len(),
{
    if targets.len() > 0 {
        let front = targets.drop_last();
        assert forall|k: int| 0 <= k < front.len() implies resolution_in(
            #[trigger] front[k],
            snap,
            w,
        ) == Resolution::Unchanged by {
            assert(front[k] == targets[k]);
        }
        law_settled_pass_changes_nothing(rows, front, snap, w, remove_broken, now);
        assert(resolution_in(targets[targets.len() - 1], snap, w) == Resolution::Unchanged);
    }
}

/// Some record has the identifier `id` exactly if `id` is the identifier of
/// one of the records.
pub proof fn lemma_has_id(rows: Seq<AnnotationView>, id: Seq<char>)
    ensures
        has_id(rows, id) <==> exists|i: int| 0 <= i < rows.len() && (#[trigger] rows[i]).id == id,
{
    lemma_index_of_id_bounds(rows, id);
    if has_id(rows, id) {
        assert(rows[index_of_id(rows, id)].id == id);
    }
}

/// One step of a pass keeps the identifiers distinct and adds none.
pub proof fn lemma_step_keeps_ids(
    rows: Seq<AnnotationView>,
    a: AnnotationView,
    snap: Option<SnapshotView>,
    w: int,
    remove_broken: bool,
    now: Option<Seq<char>>,
    id: Seq<char>,
)
    requires
        unique_ids(rows),
    ensures
        unique_ids(after_one(rows, a, snap, w, remove_broken, now)),
        !has_id(rows, id) ==> !has_id(after_one(rows, a, snap, w, remove_broken, now), id),
        outcome(resolution_in(a, snap, w), remove_broken) == Outcome::Deleted && id == a.id
            ==> !has_id(after_one(rows, a, snap, w, remove_broken, now), id),
{
    let next = after_one(rows, a, snap, w, remove_broken, now);
    lemma_index_of_id_bounds(rows, a.id);
    lemma_has_id(rows, id);
    lemma_has_id(next, id);
    let k = index_of_id(rows, a.id);
    match resolution_in(a, snap, w) {
        Resolution::Unchanged => {},
        Resolution::Moved(o) => {
            let b = relocated(a, o, stamp(now, a), snap->0.digest);
            assert(b.id == a.id);
            if has_id(rows, a.id) {
                assert(next == rows.update(k, b));
                assert forall|i: int, j: int|
                    0 <= i < next.len() && 0 <= j < next.len() && i != j implies (
                #[trigger] next[i]).id != (#[trigger] next[j]).id by {
                    assert(next[i].id == rows[i].id);
                    assert(next[j].id == rows[j].id);
                }
                if has_id(next, id) {
                    let i = choose|i: int| 0 <= i < next.len() && (#[trigger] next[i]).id == id;
                    assert(rows[i].id == id);
                }
            }
        },
        Resolution::Lost => {
            if remove_broken && has_id(rows, a.id) {
                assert(next == rows.remove(k));
                assert forall|i: int| 0 <= i < next.len() implies (#[trigger] next[i])
                    == rows[if i < k {
                    i
                } else {
                    i + 1
                }] by {}
                assert forall|i: int, j: int|
                    0 <= i < next.len() && 0 <= j < next.len() && i != j implies (
                #[trigger] next[i]).id != (#[trigger] next[j]).id by {
                    let i2 = if i < k {
                        i
                    } else {
                        i + 1
                    };
                    let j2 = if j < k {
                        j
                    } else {
                        j + 1
                    };
                    assert(next[i] == rows[i2]);
                    assert(next[j] == rows[j2]);
                }
                if has_id(next, id) {
                    let i = choose|i: int| 0 <= i < next.len() && (#[trigger] next[i]).id == id;
                    let i2 = if i < k {
                        i
                    } else {
                        i + 1
                    };
                    assert(next[i] == rows[i2]);
                    assert(rows[i2].id == id);
                    if id == a.id {
                        assert(rows[k].id == id);
                        assert(i2 != k);
                    }
                }
            }
        },
    }
}

/// A pass keeps the identifiers of the table distinct.
pub proof fn law_pass_keeps_ids_distinct(
    rows: Seq<AnnotationView>,
    targets: Seq<AnnotationView>,
    snap: Option<SnapshotView>,
    w: int,
    remove_broken: bool,
    now: Option<Seq<char>>,
)
    requires
        unique_ids(rows),
    ensures
        unique_ids(after_pass(rows, targets, snap, w, remove_broken, now)),
    decreases targets.len(),
{
    if targets.len() > 0 {
        law_pass_keeps_ids_distinct(rows, targets.drop_last(), snap, w, remove_broken, now);
        lemma_step_keeps_ids(
            after_pass(rows, targets.drop_last(), snap, w, remove_broken, now),
            targets.last(),
            snap,
            w,
            remove_broken,
            now,
            targets.last().id,
        );
    }
}

/// An annotation that a pass deleted cannot be retrieved by its identifier
/// after the pass.
pub proof fn law_deleted_is_gone(
    rows: Seq<AnnotationView>,
    targets: Seq<AnnotationView>,
    snap: Option<SnapshotView>,
    w: int,
    remove_broken: bool,
    now: Option<Seq<char>>,
    k: int,
)
    requires
        unique_ids(rows),
        0 <= k < targets.len(),
        outcome(resolution_in(targets[k], snap, w), remove_broken) == Outcome::Deleted,
    ensures
        row_of(after_pass(rows, targets, snap, w, remove_broken, now), targets[k].id) is None,
    decreases targets.len(),
{
    let front = targets.drop_last();
    let before = after_pass(rows, front, snap, w, remove_broken, now);
    law_pass_keeps_ids_distinct(rows, front, snap, w, remove_broken, now);
    lemma_step_keeps_ids(before, targets.last(), snap, w, remove_broken, now, targets[k].id);
    if k < targets.len() - 1 {
        assert(front[k] == targets[k]);
        law_deleted_is_gone(rows, front, snap, w, remove_broken, now, k);
    }
}

/// After a record with a new identifier was inserted it is retrieved by its
/// identifier, and every other identifier retrieves what it did before.
pub proof fn law_inserted_is_retrieved(rows: Seq<AnnotationView>, a: AnnotationView, id: Seq<char>)
    requires
        !has_id(rows, a.id),
    ensures
        row_of(rows.push(a), a.id) == Some(a),
        id != a.id ==> row_of(rows.push(a), id) == row_of(rows, id),
{
    let next = rows.push(a);
    lemma_index_of_id_bounds(rows, a.id);
    lemma_index_of_id_bounds(rows, id);
    assert forall|j: int| 0 <= j < rows.len() implies (#[trigger] next[j]).id != a.id by {
        assert(next[j] == rows[j]);
    }
    lemma_index_of_id(next, a.id, rows.len() as int);
    if id != a.id {
        let k = index_of_id(rows, id);
        assert forall|j: int| 0 <= j < k implies (#[trigger] next[j]).id != id by {
            assert(next[j] == rows[j]);
        }
        if k < rows.len() {
            assert(next[k] == rows[k]);
            lemma_index_of_id(next, id, k);
        } else {
            assert forall|j: int| 0 <= j < next.len() implies (#[trigger] next[j]).id != id by {
                if j < rows.len() {
                    assert(next[j] == rows[j]);
                }
            }
            lemma_index_of_id(next, id, next.len() as int);
        }
    }
}

/// After a record was replaced, its identifier retrieves the new record, and
/// every other identifier retrieves what it did before.
pub proof fn law_replaced_is_retrieved(rows: Seq<AnnotationView>, a: AnnotationView, id: Seq<char>)
    ensures
        has_id(rows, a.id) ==> row_of(replaced(rows, a), a.id) == Some(a),
        !has_id(rows, a.id) ==> replaced(rows, a) == rows,
        id != a.id ==> row_of(replaced(rows, a), id) == row_of(rows, id),
{
    let next = replaced(rows, a);
    lemma_index_of_id_bounds(rows, a.id);
    lemma_index_of_id_bounds(rows, id);
    if has_id(rows, a.id) {
        let k = index_of_id(rows, a.id);
        assert forall|j: int| 0 <= j < k implies (#[trigger] next[j]).id != a.id by {
            assert(next[j] == rows[j]);
        }
        lemma_index_of_id(next, a.id, k);
        if id != a.id {
            let m = index_of_id(rows, id);
            assert forall|j: int| 0 <= j < m implies (#[trigger] next[j]).id != id by {
                if j != k {
                    assert(next[j] == rows[j]);
                }
            }
            if m < rows.len() {
                assert(m != k);
                assert(next[m] == rows[m]);
            }
            lemma_index_of_id(next, id, m);
        }
    }
}

/// After a record was removed its identifier retrieves nothing, and every
/// other identifier retrieves what it did before.
pub proof fn law_removed_is_gone(rows: Seq<AnnotationView>, gone: Seq<char>, id: Seq<char>)
    requires
        unique_ids(rows),
    ensures
        row_of(removed(rows, gone), gone) is None,
        id != gone ==> row_of(removed(rows, gone), id) == row_of(rows, id),
{
    let next = removed(rows, gone);
    lemma_index_of_id_bounds(rows, gone);
    lemma_index_of_id_bounds(rows, id);
    if has_id(rows, gone) {
        let k = index_of_id(rows, gone);
        assert forall|j: int| 0 <= j < next.len() implies (#[trigger] next[j]).id != gone by {
            let j0 = if j < k {
                j
            } else {
                j + 1
            };
            assert(next[j] == rows[j0]);
            assert(rows[j0].id != rows[k].id);
        }
        lemma_index_of_id(next, gone, next.len() as int);
        if id != gone {
            let m = index_of_id(rows, id);
            let m1 = if m < k {
                m
            } else {
                m - 1
            };
            assert(m != k);
            assert forall|j: int| 0 <= j < m1 implies (#[trigger] next[j]).id != id by {
                let j0 = if j < k {
                    j
                } else {
                    j + 1
                };
                assert(next[j] == rows[j0]);
            }
            if m < rows.len() {
                assert(next[m1] == rows[m]);
            }
            lemma_index_of_id(next, id, m1);
        }
    }
}

/// Of every batch that is imported, each record is added, replaces a record
/// or is skipped: the three counts add up to the size of the batch.
pub proof fn law_import_counts_add_up(rows: Seq<AnnotationView>, anns: Seq<AnnotationView>)
    ensures
        import_count(rows, anns, ImportAction::Add) + import_count(
            rows,
            anns,
            ImportAction::Replace,
        ) + import_count(rows, anns, ImportAction::Skip) == anns.len(),
    decreases anns.len(),
{
    if anns.len() > 0 {
        law_import_counts_add_up(rows, anns.drop_last());
    }
}

/// The import of one record. A record with an unknown identifier is added
/// behind the others. A record whose identifier is known replaces the one in
/// the table if that one was changed strictly earlier, and is skipped, the
/// table staying as it is, if it was changed at the same time or later.
pub proof fn law_import_of_one(rows: Seq<AnnotationView>, a: AnnotationView)
    ensures
        import_count(rows, seq![a], ImportAction::Add) + import_count(
            rows,
            seq![a],
            ImportAction::Replace,
        ) + import_count(rows, seq![a], ImportAction::Skip) == 1,
        !has_id(rows, a.id) ==> import_count(rows, seq![a], ImportAction::Add) == 1 && imported(
            rows,
            seq![a],
        ) == rows.push(a),
        has_id(rows, a.id) && text_less(row_of(rows, a.id)->0.updated_at, a.updated_at)
            ==> import_count(rows, seq![a], ImportAction::Replace) == 1 && imported(
            rows,
            seq![a],
        ) == replaced(rows, a),
        has_id(rows, a.id) && !text_less(row_of(rows, a.id)->0.updated_at, a.updated_at)
            ==> import_count(rows, seq![a], ImportAction::Skip) == 1 && imported(rows, seq![a])
            == rows,
{
    let one = seq![a];
    assert(one.drop_last() =~= Seq::<AnnotationView>::empty());
    assert(one.last() == a);
    assert(imported(rows, one.drop_last()) == rows);
    assert(import_count(rows, one.drop_last(), ImportAction::Add) == 0);
    assert(import_count(rows, one.drop_last(), ImportAction::Replace) == 0);
    assert(import_count(rows, one.drop_last(), ImportAction::Skip) == 0);
}

/// What a write returns is what a later reading finds: where a write of
/// `content` is allowed, the bytes that replace the file are well-formed
/// UTF-8, and a file with those bytes, read as a whole, has the digest that
/// the write returned and holds `content`.
pub proof fn law_reading_finds_what_was_written(
    current: Seq<u8>,
    content: Seq<char>,
    base: Option<Seq<char>>,
    path: Seq<char>,
    f: FullFile,
)
    requires
        write_allowed(current, base),
        full_is(f, path, encode_utf8(content)),
    ensures
        valid_utf8(encode_utf8(content)),
        f.digest@ == digest_of(encode_utf8(content)),
        f.content@ == content,
{
    vstd::utf8::encode_utf8_valid_utf8(content);
    vstd::utf8::encode_utf8_decode_utf8(content);
}

/// A write that names a digest other than that of the file as it is, is not
/// allowed; one that names that digest, or none, is.
pub proof fn law_stale_digest_is_refused(current: Seq<u8>, base: Option<Seq<char>>)
    ensures
        write_allowed(current, base) <==> (base is None || base == Some(digest_of(current))),
{
}

} // verus!
