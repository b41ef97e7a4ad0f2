//! The annotation store of one workspace: records by identifier, listed by
//! their time of creation, and the merge of imported records.
//!
//! The table is a sequence of records in the order in which they were
//! inserted, no two with the same identifier. Time stamps are RFC 3339 texts
//! of one fixed format, so that the order of the texts is the order of the
//! times.

use crate::annotation::{texts, views, Annotation, AnnotationView};
use crate::text::chars_of;
use crate::workspace::{ensured, ensured_id, refused, Workspaces};
use vstd::prelude::*;

verus! {

/// Why the store refused an operation.
#[derive(Debug, Clone, Copy, PartialEq, Eq, Structural)]
pub enum StoreError {
    /// A record with this identifier is in the table already.
    DuplicateId,
}

/// What the merge does with one imported record.
#[derive(Debug, Clone, Copy, PartialEq, Eq, Structural)]
pub enum ImportAction {
    /// No record has its identifier: it is inserted.
    Add,
    /// A record has its identifier and was changed earlier: it is replaced.
    Replace,
    /// A record has its identifier and was changed at the same time or later:
    /// it stays.
    Skip,
}

/// The records of one workspace.
pub struct Store {
    rows: Vec<Annotation>,
    workspace_id: String,
}

/// `a` comes before `b` in the order of texts: at the first index at which
/// they differ `a` has the lesser scalar value, or `a` ends there and `b` does
/// not.
pub open spec fn text_less(a: Seq<char>, b: Seq<char>) -> bool
    decreases a.len(),
{
    if b.len() == 0 {
        false
    } else if a.len() == 0 {
        true
    } else if a[0] != b[0] {
        (a[0] as u32) < (b[0] as u32)
    } else {
        text_less(a.drop_first(), b.drop_first())
    }
}

/// The index of the first record with the identifier `id`, or the number of
/// records if there is none.
pub open spec fn index_of_id(rows: Seq<AnnotationView>, id: Seq<char>) -> int
    decreases rows.len(),
{
    if rows.len() == 0 || rows[0].id == id {
        0
    } else {
        1 + index_of_id(rows.drop_first(), id)
    }
}

/// Some record has the identifier `id`.
pub open spec fn has_id(rows: Seq<AnnotationView>, id: Seq<char>) -> bool {
    index_of_id(rows, id) < rows.len()
}

/// The record with the identifier `id`.
pub open spec fn row_of(rows: Seq<AnnotationView>, id: Seq<char>) -> Option<AnnotationView> {
    if has_id(rows, id) {
        Some(rows[index_of_id(rows, id)])
    } else {
        None
    }
}

/// No two records have the same identifier.
pub open spec fn unique_ids(rows: Seq<AnnotationView>) -> bool {
    forall|i: int, j: int|
        0 <= i < rows.len() && 0 <= j < rows.len() && i != j ==> (#[trigger] rows[i]).id != (
        #[trigger] rows[j]).id
}

/// The table after a full replacement of the record that has the identifier
/// of `a`; the same table if there is none.
pub open spec fn replaced(rows: Seq<AnnotationView>, a: AnnotationView) -> Seq<AnnotationView> {
    if has_id(rows, a.id) {
        rows.update(index_of_id(rows, a.id), a)
    } else {
        rows
    }
}

/// The table without the record that has the identifier `id`; the same table
/// if there is none.
pub open spec fn removed(rows: Seq<AnnotationView>, id: Seq<char>) -> Seq<AnnotationView> {
    if has_id(rows, id) {
        rows.remove(index_of_id(rows, id))
    } else {
        rows
    }
}

/// Where a record created at `key` goes in a listing: before the first record
/// that was created earlier, behind all others.
pub open spec fn insert_index(sorted: Seq<AnnotationView>, key: Seq<char>) -> int
    decreases sorted.len(),
{
    if sorted.len() == 0 || text_less(sorted[0].created_at, key) {
        0
    } else {
        1 + insert_index(sorted.drop_first(), key)
    }
}

/// The records by their time of creation, the latest first; records created
/// at the same time stay in the order of the table.
pub open spec fn listing(rows: Seq<AnnotationView>) -> Seq<AnnotationView>
    decreases rows.len(),
{
    if rows.len() == 0 {
        Seq::empty()
    } else {
        let front = listing(rows.drop_last());
        front.insert(insert_index(front, rows.last().created_at), rows.last())
    }
}

/// Those of `rows` whose identifier is among `ids`, in the order of `rows`.
pub open spec fn with_ids(rows: Seq<AnnotationView>, ids: Seq<Seq<char>>) -> Seq<AnnotationView>
    decreases rows.len(),
{
    if rows.len() == 0 {
        Seq::empty()
    } else if ids.contains(rows.last().id) {
        with_ids(rows.drop_last(), ids).push(rows.last())
    } else {
        with_ids(rows.drop_last(), ids)
    }
}

/// The table that holds `rows` in their order, without those whose
/// identifier an earlier one has.
pub open spec fn loaded(rows: Seq<AnnotationView>) -> Seq<AnnotationView>
    decreases rows.len(),
{
    if rows.len() == 0 {
        Seq::empty()
    } else {
        let front = loaded(rows.drop_last());
        if has_id(front, rows.last().id) {
            front
        } else {
            front.push(rows.last())
        }
    }
}

/// What the merge does with the record `incoming` where the table holds
/// `existing` under its identifier.
pub open spec fn import_action(
    existing: Option<AnnotationView>,
    incoming: AnnotationView,
) -> ImportAction {
    match existing {
        None => ImportAction::Add,
        Some(old) => if text_less(old.updated_at, incoming.updated_at) {
            ImportAction::Replace
        } else {
            ImportAction::Skip
        },
    }
}

/// The table after the merge of one record.
pub open spec fn import_one(rows: Seq<AnnotationView>, a: AnnotationView) -> Seq<AnnotationView> {
    match import_action(row_of(rows, a.id), a) {
        ImportAction::Add => rows.push(a),
        ImportAction::Replace => replaced(rows, a),
        ImportAction::Skip => rows,
    }
}

/// The table after the merge of `anns`, one after the other.
pub open spec fn imported(rows: Seq<AnnotationView>, anns: Seq<AnnotationView>) -> Seq<
    AnnotationView,
>
    decreases anns.len(),
{
    if anns.len() == 0 {
        rows
    } else {
        import_one(imported(rows, anns.drop_last()), anns.last())
    }
}

/// How many of `anns` the merge treats with `action`.
pub open spec fn import_count(
    rows: Seq<AnnotationView>,
    anns: Seq<AnnotationView>,
    action: ImportAction,
) -> nat
    decreases anns.len(),
{
    if anns.len() == 0 {
        0
    } else {
        let before = imported(rows, anns.drop_last());
        import_count(rows, anns.drop_last(), action) + if import_action(
            row_of(before, anns.last().id),
            anns.last(),
        ) == action {
            1nat
        } else {
            0nat
        }
    }
}

/// What `index_of_id` is, without recursion.
pub proof fn lemma_index_of_id(rows: Seq<AnnotationView>, id: Seq<char>, k: int)
    requires
        0 <= k <= rows.len(),
        forall|j: int| 0 <= j < k ==> (#[trigger] rows[j]).id != id,
        k < rows.len() ==> rows[k].id == id,
    ensures
        index_of_id(rows, id) == k,
    decreases rows.len(),
{
    if rows.len() > 0 && k > 0 {
        let f = rows.drop_first();
        assert(rows[0].id != id);
        assert forall|j: int| 0 <= j < k - 1 implies (#[trigger] f[j]).id != id by {
            assert(f[j] == rows[j + 1]);
        }
        lemma_index_of_id(f, id, k - 1);
    }
}

/// `index_of_id` is the index of a record with that identifier, or the length.
pub proof fn lemma_index_of_id_bounds(rows: Seq<AnnotationView>, id: Seq<char>)
    ensures
        0 <= index_of_id(rows, id) <= rows.len(),
        has_id(rows, id) ==> rows[index_of_id(rows, id)].id == id,
        forall|j: int| 0 <= j < index_of_id(rows, id) ==> (#[trigger] rows[j]).id != id,
    decreases rows.len(),
{
    if rows.len() > 0 && rows[0].id != id {
        let f = rows.drop_first();
        lemma_index_of_id_bounds(f, id);
        assert forall|j: int| 0 <= j < index_of_id(rows, id) implies (#[trigger] rows[j]).id
            != id by {
            if j > 0 {
                assert(rows[j] == f[j - 1]);
            }
        }
    }
}

/// What `insert_index` is, without recursion.
pub proof fn lemma_insert_index(sorted: Seq<AnnotationView>, key: Seq<char>, k: int)
    requires
        0 <= k <= sorted.len(),
        forall|j: int| 0 <= j < k ==> !text_less((#[trigger] sorted[j]).created_at, key),
        k < sorted.len() ==> text_less(sorted[k].created_at, key),
    ensures
        insert_index(sorted, key) == k,
    decreases sorted.len(),
{
    if sorted.len() > 0 && k > 0 {
        let f = sorted.drop_first();
        assert(!text_less(sorted[0].created_at, key));
        assert forall|j: int| 0 <= j < k - 1 implies !text_less(
            (#[trigger] f[j]).created_at,
            key,
        ) by {
            assert(f[j] == sorted[j + 1]);
        }
        lemma_insert_index(f, key, k - 1);
    }
}

/// Whether `a` comes before `b` in the order of texts, which for strings is
/// the order of their bytes.
pub fn less_than(a: &str, b: &str) -> (r: bool)
    ensures
        r == text_less(a@, b@),
{
    let x = chars_of(a);
    let y = chars_of(b);
    let mut i: usize = 0;
    assert(x@.skip(0) =~= x@);
    assert(y@.skip(0) =~= y@);
    loop
        invariant
            x@ == a@,
            y@ == b@,
            i <= x@.len(),
            i <= y@.len(),
            text_less(x@, y@) == text_less(x@.skip(i as int), y@.skip(i as int)),
        decreases x@.len() - i,
    {
        if i >= y.len() {
            return false;
        }
        if i >= x.len() {
            return true;
        }
        let ghost xs = x@.skip(i as int);
        let ghost ys = y@.skip(i as int);
        assert(xs[0] == x@[i as int] && ys[0] == y@[i as int]);
        let cx: char = x[i];
        let cy: char = y[i];
        if cx != cy {
            return (cx as u32) < (cy as u32);
        }
        assert(xs.drop_first() =~= x@.skip(i + 1));
        assert(ys.drop_first() =~= y@.skip(i + 1));
        i += 1;
    }
}

/// Whether two strings hold the same text.
pub fn same_text(a: &str, b: &str) -> (r: bool)
    ensures
        r == (a@ == b@),
{
    let x = a.to_owned();
    let y = b.to_owned();
    x == y
}

impl View for Store {
    type V = Seq<AnnotationView>;

    /// The records, in the order in which they were inserted.
    closed spec fn view(&self) -> Seq<AnnotationView> {
        views(self.rows@)
    }
}

impl Store {
    /// The identifier of the workspace that the store is bound to.
    pub closed spec fn workspace(&self) -> Seq<char> {
        self.workspace_id@
    }

    /// The store is well formed: no two records have the same identifier.
    pub open spec fn wf(&self) -> bool {
        unique_ids(self@)
    }

    /// An empty store, bound to the workspace `workspace_id`.
    pub fn new(workspace_id: &str) -> (s: Store)
        ensures
            s.wf(),
            s@ == Seq::<AnnotationView>::empty(),
            s.workspace() == workspace_id@,
    {
        let s = Store { rows: Vec::new(), workspace_id: workspace_id.to_owned() };
        assert(s@ =~= Seq::<AnnotationView>::empty());
        s
    }

    /// A store bound to the workspace `workspace_id` that holds `rows`, in
    /// their order; a record whose identifier an earlier one has is left out.
    pub fn with_rows(workspace_id: &str, rows: &[Annotation]) -> (s: Store)
        ensures
            s.wf(),
            s@ == loaded(views(rows@)),
            s.workspace() == workspace_id@,
    {
        let mut s = Store::new(workspace_id);
        let mut i: usize = 0;
        let ghost all = views(rows@);
        assert(all.take(0) =~= Seq::<AnnotationView>::empty());
        while i < rows.len()
            invariant
                i <= rows@.len(),
                all == views(rows@),
                s.wf(),
                s.workspace() == workspace_id@,
                s@ == loaded(all.take(i as int)),
            decreases rows@.len() - i,
        {
            proof {
                assert(all.take(i + 1).drop_last() =~= all.take(i as int));
                assert(all.take(i + 1).last() == rows@[i as int]@);
            }
            let _ = s.insert_annotation(&rows[i]);
            i += 1;
        }
        assert(all.take(i as int) =~= all);
        s
    }

    /// A store for the workspace that is known by the key `workspace_key`,
    /// which is used now: the store is empty and bound to the identifier of
    /// that workspace, which is `fresh_id` if the key is new. Where the key is
    /// new and another workspace has the identifier `fresh_id`, the use is
    /// refused and the workspaces stay as they are.
    pub fn connect(
        workspaces: &mut Workspaces,
        workspace_key: &str,
        fresh_id: &str,
        now: &str,
    ) -> (r: Result<Store, StoreError>)
        requires
            old(workspaces).wf(),
        ensures
            final(workspaces).wf(),
            match r {
                Ok(s) => {
                    &&& !refused(old(workspaces)@, workspace_key@, fresh_id@)
                    &&& final(workspaces)@ == ensured(
                        old(workspaces)@,
                        workspace_key@,
                        workspace_key@,
                        fresh_id@,
                        now@,
                    )
                    &&& s.wf()
                    &&& s@ == Seq::<AnnotationView>::empty()
                    &&& s.workspace() == ensured_id(old(workspaces)@, workspace_key@, fresh_id@)
                },
                Err(e) => {
                    &&& refused(old(workspaces)@, workspace_key@, fresh_id@)
                    &&& e == StoreError::DuplicateId
                    &&& final(workspaces)@ == old(workspaces)@
                },
            },
    {
        match workspaces.ensure_workspace_get_id(workspace_key, workspace_key, fresh_id, now) {
            Ok(id) => Ok(Store::new(id.as_str())),
            Err(e) => Err(e),
        }
    }

    /// The identifier of the workspace that the store is bound to.
    pub fn workspace_id(&self) -> (id: &str)
        ensures
            id@ == self.workspace(),
    {
        self.workspace_id.as_str()
    }

    /// The number of records.
    pub fn len(&self) -> (n: usize)
        ensures
            n == self@.len(),
    {
        self.rows.len()
    }

    /// The index of the record with the identifier `id`, or the number of
    /// records.
    fn find(&self, id: &str) -> (k: usize)
        ensures
            k == index_of_id(self@, id@),
            k <= self.rows@.len(),
            self.rows@.len() == self@.len(),
    {
        let mut k: usize = 0;
        while k < self.rows.len()
            invariant
                k <= self.rows@.len(),
                forall|j: int| 0 <= j < k ==> (#[trigger] self@[j]).id != id@,
            decreases self.rows@.len() - k,
        {
            if same_text(self.rows[k].id.as_str(), id) {
                proof {
                    lemma_index_of_id(self@, id@, k as int);
                }
                return k;
            }
            k += 1;
        }
        proof {
            lemma_index_of_id(self@, id@, k as int);
        }
        k
    }

    /// The record with the identifier `id`, if there is one.
    pub fn get_annotation(&self, id: &str) -> (r: Option<Annotation>)
        ensures
            match r {
                Some(a) => row_of(self@, id@) == Some(a@),
                None => row_of(self@, id@) is None,
            },
    {
        let k = self.find(id);
        if k < self.rows.len() {
            Some(self.rows[k].copy())
        } else {
            None
        }
    }

    /// Inserts a record. A record whose identifier the table holds already is
    /// refused, and the table stays as it is.
    pub fn insert_annotation(&mut self, ann: &Annotation) -> (r: Result<(), StoreError>)
        requires
            old(self).wf(),
        ensures
            final(self).wf(),
            final(self).workspace() == old(self).workspace(),
            has_id(old(self)@, ann@.id) ==> r == Err::<(), StoreError>(StoreError::DuplicateId)
                && final(self)@ == old(self)@,
            !has_id(old(self)@, ann@.id) ==> r is Ok && final(self)@ == old(self)@.push(ann@),
            r is Ok ==> row_of(final(self)@, ann@.id) == Some(ann@),
    {
        let k = self.find(ann.id.as_str());
        if k < self.rows.len() {
            return Err(StoreError::DuplicateId);
        }
        proof {
            lemma_index_of_id_bounds(self@, ann@.id);
            crate::laws::law_inserted_is_retrieved(self@, ann@, ann@.id);
        }
        self.rows.push(ann.copy());
        assert(self@ =~= old(self)@.push(ann@));
        Ok(())
    }

    /// Replaces the record that has the identifier of `ann` by `ann`; where
    /// there is none the table stays as it is, which is no error.
    pub fn update_annotation(&mut self, ann: &Annotation) -> (r: Result<(), StoreError>)
        requires
            old(self).wf(),
        ensures
            r is Ok,
            final(self).wf(),
            final(self).workspace() == old(self).workspace(),
            final(self)@ == replaced(old(self)@, ann@),
            has_id(old(self)@, ann@.id) ==> row_of(final(self)@, ann@.id) == Some(ann@),
    {
        proof {
            crate::laws::law_replaced_is_retrieved(self@, ann@, ann@.id);
        }
        let k = self.find(ann.id.as_str());
        if k < self.rows.len() {
            proof {
                lemma_index_of_id_bounds(self@, ann@.id);
            }
            self.rows.set(k, ann.copy());
            assert(self@ =~= old(self)@.update(k as int, ann@));
        }
        Ok(())
    }

    /// Removes the record with the identifier `id`; where there is none the
    /// table stays as it is, which is no error.
    pub fn delete_annotation(&mut self, id: &str) -> (r: Result<(), StoreError>)
        requires
            old(self).wf(),
        ensures
            r is Ok,
            final(self).wf(),
            final(self).workspace() == old(self).workspace(),
            final(self)@ == removed(old(self)@, id@),
            row_of(final(self)@, id@) is None,
    {
        let k = self.find(id);
        if k < self.rows.len() {
            self.rows.remove(k);
            assert(self@ =~= old(self)@.remove(k as int));
        }
        proof {
            crate::laws::law_removed_is_gone(old(self)@, id@, id@);
        }
        Ok(())
    }

    /// All records, the latest created first.
    pub fn list_annotations(&self) -> (r: Vec<Annotation>)
        ensures
            views(r@) == listing(self@),
    {
        let mut out: Vec<Annotation> = Vec::new();
        let mut i: usize = 0;
        assert(self@.take(0) =~= Seq::<AnnotationView>::empty());
        assert(views(out@) =~= Seq::<AnnotationView>::empty());
        while i < self.rows.len()
            invariant
                i <= self.rows@.len(),
                self.rows@.len() == self@.len(),
                views(out@) == listing(self@.take(i as int)),
            decreases self.rows@.len() - i,
        {
            let row = &self.rows[i];
            let ghost front = views(out@);
            let mut k: usize = 0;
            while k < out.len() && !less_than(out[k].created_at.as_str(), row.created_at.as_str())
                invariant
                    k <= out@.len(),
                    front == views(out@),
                    forall|j: int|
                        0 <= j < k ==> !text_less((#[trigger] front[j]).created_at, row@.created_at),
                decreases out@.len() - k,
            {
                k += 1;
            }
            proof {
                lemma_insert_index(front, row@.created_at, k as int);
                assert(self@.take(i + 1).drop_last() =~= self@.take(i as int));
                assert(self@.take(i + 1).last() == row@);
            }
            out.insert(k, row.copy());
            assert(views(out@) =~= front.insert(k as int, row@));
            i += 1;
        }
        assert(self@.take(i as int) =~= self@);
        out
    }

    /// All records, the latest created first.
    pub fn export_all(&self) -> (r: Vec<Annotation>)
        ensures
            views(r@) == listing(self@),
    {
        self.list_annotations()
    }

    /// The records whose identifier is among `ids`, the latest created first;
    /// all records where `ids` is empty.
    pub fn list_annotations_by_ids(&self, ids: &[String]) -> (r: Vec<Annotation>)
        ensures
            views(r@) == if ids@.len() == 0 {
                listing(self@)
            } else {
                with_ids(listing(self@), texts(ids@))
            },
    {
        let all = self.list_annotations();
        if ids.len() == 0 {
            return all;
        }
        let mut out: Vec<Annotation> = Vec::new();
        let mut i: usize = 0;
        assert(views(all@).take(0) =~= Seq::<AnnotationView>::empty());
        assert(views(out@) =~= Seq::<AnnotationView>::empty());
        while i < all.len()
            invariant
                i <= all@.len(),
                all@.len() == views(all@).len(),
                views(out@) == with_ids(views(all@).take(i as int), texts(ids@)),
            decreases all@.len() - i,
        {
            proof {
                assert(views(all@).take(i + 1).drop_last() =~= views(all@).take(i as int));
                assert(views(all@).take(i + 1).last() == all@[i as int]@);
            }
            let ghost before = views(out@);
            if holds_text(ids, all[i].id.as_str()) {
                out.push(all[i].copy());
                assert(views(out@) =~= before.push(all@[i as int]@));
            }
            i += 1;
        }
        assert(views(all@).take(i as int) =~= views(all@));
        out
    }

    /// What the merge does with `incoming`: it is added where no record has
    /// its identifier, it replaces the record that has it where that record
    /// was last changed strictly earlier, and it is skipped otherwise.
    pub fn import_decision(&self, incoming: &Annotation) -> (r: ImportAction)
        ensures
            r == import_action(row_of(self@, incoming@.id), incoming@),
    {
        let k = self.find(incoming.id.as_str());
        if k < self.rows.len() {
            if less_than(self.rows[k].updated_at.as_str(), incoming.updated_at.as_str()) {
                ImportAction::Replace
            } else {
                ImportAction::Skip
            }
        } else {
            ImportAction::Add
        }
    }

    /// Merges `anns` into the table, one after the other, and returns how
    /// many were added, how many replaced a record, and how many were skipped.
    pub fn import_annotations(&mut self, anns: &[Annotation]) -> (r: Result<
        (u64, u64, u64),
        StoreError,
    >)
        requires
            old(self).wf(),
        ensures
            final(self).wf(),
            final(self).workspace() == old(self).workspace(),
            final(self)@ == imported(old(self)@, views(anns@)),
            r is Ok,
            r->Ok_0.0 == import_count(old(self)@, views(anns@), ImportAction::Add),
            r->Ok_0.1 == import_count(old(self)@, views(anns@), ImportAction::Replace),
            r->Ok_0.2 == import_count(old(self)@, views(anns@), ImportAction::Skip),
            r->Ok_0.0 + r->Ok_0.1 + r->Ok_0.2 == anns@.len(),
    {
        let mut added: u64 = 0;
        let mut updated: u64 = 0;
        let mut skipped: u64 = 0;
        let mut i: usize = 0;
        let ghost start = self@;
        let ghost batch = views(anns@);
        assert(batch.take(0) =~= Seq::<AnnotationView>::empty());
        while i < anns.len()
            invariant
                i <= anns@.len(),
                batch == views(anns@),
                self.wf(),
                self.workspace() == old(self).workspace(),
                self@ == imported(start, batch.take(i as int)),
                added == import_count(start, batch.take(i as int), ImportAction::Add),
                updated == import_count(start, batch.take(i as int), ImportAction::Replace),
                skipped == import_count(start, batch.take(i as int), ImportAction::Skip),
                added + updated + skipped == i,
            decreases anns@.len() - i,
        {
            proof {
                assert(batch.take(i + 1).drop_last() =~= batch.take(i as int));
                assert(batch.take(i + 1).last() == anns@[i as int]@);
            }
            let a = &anns[i];
            match self.import_decision(a) {
                ImportAction::Add => {
                    let _ = self.insert_annotation(a);
                    added += 1;
                },
                ImportAction::Replace => {
                    let _ = self.update_annotation(a);
                    updated += 1;
                },
                ImportAction::Skip => {
                    skipped += 1;
                },
            }
            i += 1;
        }
        assert(batch.take(i as int) =~= batch);
        Ok((added, updated, skipped))
    }

} // impl Store

/// Whether `id` is one of `ids`.
pub fn holds_text(ids: &[String], id: &str) -> (r: bool)
    ensures
        r == texts(ids@).contains(id@),
{
    let mut i: usize = 0;
    while i < ids.len()
        invariant
            i <= ids@.len(),
            forall|j: int| 0 <= j < i ==> texts(ids@)[j] != id@,
        decreases ids@.len() - i,
    {
        if same_text(ids[i].as_str(), id) {
            assert(texts(ids@)[i as int] == id@);
            return true;
        }
        i += 1;
    }
    false
}

} // verus!
