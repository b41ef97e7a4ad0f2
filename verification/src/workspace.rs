//! The workspaces: each key, such as the root of a repository, is mapped to
//! an identifier when it is first used, and keeps that identifier.

use crate::clock::{now_rfc3339, random_id};
use crate::store::{same_text, StoreError};
use vstd::prelude::*;

verus! {

/// One workspace: its identifier, the key under which it is known, and the
/// path of its root as it was last seen.
#[derive(Debug, Clone)]
pub struct Workspace {
    pub id: String,
    pub key: String,
    pub root_path: String,
    pub created_at: String,
    pub updated_at: String,
}

/// A workspace as plain mathematical values.
pub struct WorkspaceView {
    pub id: Seq<char>,
    pub key: Seq<char>,
    pub root_path: Seq<char>,
    pub created_at: Seq<char>,
    pub updated_at: Seq<char>,
}

impl View for Workspace {
    type V = WorkspaceView;

    open spec fn view(&self) -> WorkspaceView {
        WorkspaceView {
            id: self.id@,
            key: self.key@,
            root_path: self.root_path@,
            created_at: self.created_at@,
            updated_at: self.updated_at@,
        }
    }
}

/// The workspaces that are known, in the order in which they were first used.
pub struct Workspaces {
    rows: Vec<Workspace>,
}

/// The index of the workspace with the key `key`, or the number of workspaces
/// if there is none.
pub open spec fn index_of_key(rows: Seq<WorkspaceView>, key: Seq<char>) -> int
    decreases rows.len(),
{
    if rows.len() == 0 || rows[0].key == key {
        0
    } else {
        1 + index_of_key(rows.drop_first(), key)
    }
}

/// No two workspaces have the same key.
pub open spec fn unique_keys(rows: Seq<WorkspaceView>) -> bool {
    forall|i: int, j: int|
        0 <= i < rows.len() && 0 <= j < rows.len() && i != j ==> (#[trigger] rows[i]).key != (
        #[trigger] rows[j]).key
}

/// No two workspaces have the same identifier.
pub open spec fn unique_workspace_ids(rows: Seq<WorkspaceView>) -> bool {
    forall|i: int, j: int|
        0 <= i < rows.len() && 0 <= j < rows.len() && i != j ==> (#[trigger] rows[i]).id != (
        #[trigger] rows[j]).id
}

/// Some workspace has the identifier `id`.
pub open spec fn id_in_use(rows: Seq<WorkspaceView>, id: Seq<char>) -> bool {
    exists|i: int| 0 <= i < rows.len() && (#[trigger] rows[i]).id == id
}

/// Some workspace has the key `key`.
pub open spec fn key_known(rows: Seq<WorkspaceView>, key: Seq<char>) -> bool {
    index_of_key(rows, key) < rows.len()
}

/// The use of the key `key` with the identifier `fresh_id` at hand is
/// refused: the key is new, and the identifier is that of another workspace.
pub open spec fn refused(rows: Seq<WorkspaceView>, key: Seq<char>, fresh_id: Seq<char>) -> bool {
    !key_known(rows, key) && id_in_use(rows, fresh_id)
}

/// The table that holds `rows` in their order, without those whose key or
/// identifier an earlier one has.
pub open spec fn loaded_workspaces(rows: Seq<WorkspaceView>) -> Seq<WorkspaceView>
    decreases rows.len(),
{
    if rows.len() == 0 {
        Seq::empty()
    } else {
        let front = loaded_workspaces(rows.drop_last());
        if key_known(front, rows.last().key) || id_in_use(front, rows.last().id) {
            front
        } else {
            front.push(rows.last())
        }
    }
}

/// The workspace with the key `key`, if there is one.
pub open spec fn workspace_of(rows: Seq<WorkspaceView>, key: Seq<char>) -> Option<WorkspaceView> {
    if key_known(rows, key) {
        Some(rows[index_of_key(rows, key)])
    } else {
        None
    }
}

/// The workspaces after the key `key` was used with the root `root_path` at
/// the time `now`: a known workspace has its root and the time of its last
/// use renewed, an unknown one is added under the identifier `fresh_id`.
pub open spec fn ensured(
    rows: Seq<WorkspaceView>,
    key: Seq<char>,
    root_path: Seq<char>,
    fresh_id: Seq<char>,
    now: Seq<char>,
) -> Seq<WorkspaceView> {
    let k = index_of_key(rows, key);
    if k < rows.len() {
        rows.update(k, WorkspaceView { root_path: root_path, updated_at: now, ..rows[k] })
    } else {
        rows.push(
            WorkspaceView {
                id: fresh_id,
                key: key,
                root_path: root_path,
                created_at: now,
                updated_at: now,
            },
        )
    }
}

/// The identifier under which the key `key` is known after it was used.
pub open spec fn ensured_id(rows: Seq<WorkspaceView>, key: Seq<char>, fresh_id: Seq<char>) -> Seq<
    char,
> {
    let k = index_of_key(rows, key);
    if k < rows.len() {
        rows[k].id
    } else {
        fresh_id
    }
}

/// What `index_of_key` is, without recursion.
pub proof fn lemma_index_of_key(rows: Seq<WorkspaceView>, key: Seq<char>, k: int)
    requires
        0 <= k <= rows.len(),
        forall|j: int| 0 <= j < k ==> (#[trigger] rows[j]).key != key,
        k < rows.len() ==> rows[k].key == key,
    ensures
        index_of_key(rows, key) == k,
    decreases rows.len(),
{
    if rows.len() > 0 && k > 0 {
        let f = rows.drop_first();
        assert(rows[0].key != key);
        assert forall|j: int| 0 <= j < k - 1 implies (#[trigger] f[j]).key != key by {
            assert(f[j] == rows[j + 1]);
        }
        lemma_index_of_key(f, key, k - 1);
    }
}

/// `index_of_key` is the index of a workspace with that key, before which
/// none has it, or the number of workspaces.
pub proof fn lemma_index_of_key_bounds(rows: Seq<WorkspaceView>, key: Seq<char>)
    ensures
        0 <= index_of_key(rows, key) <= rows.len(),
        index_of_key(rows, key) < rows.len() ==> rows[index_of_key(rows, key)].key == key,
        forall|j: int| 0 <= j < index_of_key(rows, key) ==> (#[trigger] rows[j]).key != key,
    decreases rows.len(),
{
    if rows.len() > 0 && rows[0].key != key {
        let f = rows.drop_first();
        lemma_index_of_key_bounds(f, key);
        assert forall|j: int| 0 <= j < index_of_key(rows, key) implies (#[trigger] rows[j]).key
            != key by {
            if j > 0 {
                assert(rows[j] == f[j - 1]);
            }
        }
    }
}

/// The use of a key keeps the table well formed, and leaves the key known
/// under the identifier that the use gives.
pub proof fn lemma_ensured(
    rows: Seq<WorkspaceView>,
    key: Seq<char>,
    root_path: Seq<char>,
    fresh_id: Seq<char>,
    now: Seq<char>,
)
    requires
        unique_keys(rows),
        unique_workspace_ids(rows),
        !refused(rows, key, fresh_id),
    ensures
        unique_keys(ensured(rows, key, root_path, fresh_id, now)),
        unique_workspace_ids(ensured(rows, key, root_path, fresh_id, now)),
        key_known(ensured(rows, key, root_path, fresh_id, now), key),
        workspace_of(ensured(rows, key, root_path, fresh_id, now), key)->0.id == ensured_id(
            rows,
            key,
            fresh_id,
        ),
        forall|other: Seq<char>|
            other != key ==> #[trigger] workspace_of(
                ensured(rows, key, root_path, fresh_id, now),
                other,
            ) == workspace_of(rows, other),
{
    let next = ensured(rows, key, root_path, fresh_id, now);
    let k = index_of_key(rows, key);
    lemma_index_of_key_bounds(rows, key);
    assert forall|i: int| 0 <= i < rows.len() implies (#[trigger] next[i]).key == rows[i].key
        && next[i].id == rows[i].id by {}
    assert forall|j: int| 0 <= j < k implies (#[trigger] next[j]).key != key by {
        assert(next[j].key == rows[j].key);
    }
    lemma_index_of_key(next, key, k);
    assert forall|i: int, j: int|
        0 <= i < next.len() && 0 <= j < next.len() && i != j implies (#[trigger] next[i]).key != (
    #[trigger] next[j]).key by {
        if i < rows.len() {
            assert(next[i].key == rows[i].key);
        }
        if j < rows.len() {
            assert(next[j].key == rows[j].key);
        }
    }
    assert forall|i: int, j: int|
        0 <= i < next.len() && 0 <= j < next.len() && i != j implies (#[trigger] next[i]).id != (
    #[trigger] next[j]).id by {
        if i < rows.len() {
            assert(next[i].id == rows[i].id);
        }
        if j < rows.len() {
            assert(next[j].id == rows[j].id);
        }
    }
    assert forall|other: Seq<char>| other != key implies #[trigger] workspace_of(next, other)
        == workspace_of(rows, other) by {
        let m = index_of_key(rows, other);
        lemma_index_of_key_bounds(rows, other);
        assert forall|j: int| 0 <= j < m implies (#[trigger] next[j]).key != other by {
            assert(next[j].key == rows[j].key);
        }
        if m < rows.len() {
            assert(m != k);
            assert(next[m] == rows[m]);
            lemma_index_of_key(next, other, m);
        } else {
            assert forall|j: int| 0 <= j < next.len() implies (#[trigger] next[j]).key
                != other by {
                if j < rows.len() {
                    assert(next[j].key == rows[j].key);
                }
            }
            lemma_index_of_key(next, other, next.len() as int);
        }
    }
}

/// Each key has an identifier of its own, and keeps it. A key that was used
/// is known under one identifier; when it is used again, with whatever root
/// and identifier at hand, it has the same identifier, while the use of
/// another key gives another identifier.
pub proof fn law_keys_have_their_own_identifiers(
    rows: Seq<WorkspaceView>,
    key: Seq<char>,
    root_path: Seq<char>,
    fresh_id: Seq<char>,
    now: Seq<char>,
    next_key: Seq<char>,
    next_root: Seq<char>,
    next_fresh: Seq<char>,
    later: Seq<char>,
)
    requires
        unique_keys(rows),
        unique_workspace_ids(rows),
        !refused(rows, key, fresh_id),
        !refused(ensured(rows, key, root_path, fresh_id, now), next_key, next_fresh),
    ensures
        next_key == key ==> ensured_id(
            ensured(rows, key, root_path, fresh_id, now),
            next_key,
            next_fresh,
        ) == ensured_id(rows, key, fresh_id),
        next_key != key ==> ensured_id(
            ensured(rows, key, root_path, fresh_id, now),
            next_key,
            next_fresh,
        ) != ensured_id(rows, key, fresh_id),
        next_key == key ==> ensured(
            ensured(rows, key, root_path, fresh_id, now),
            next_key,
            next_root,
            next_fresh,
            later,
        ).len() == ensured(rows, key, root_path, fresh_id, now).len(),
{
    let once = ensured(rows, key, root_path, fresh_id, now);
    let id = ensured_id(rows, key, fresh_id);
    lemma_ensured(rows, key, root_path, fresh_id, now);
    lemma_index_of_key_bounds(once, key);
    lemma_index_of_key_bounds(once, next_key);
    let k = index_of_key(once, key);
    if next_key != key {
        let m = index_of_key(once, next_key);
        if m < once.len() {
            assert(once[m].key != once[k].key);
            assert(once[m].id != once[k].id);
        } else {
            assert(once[k].id == id);
        }
    }
}

impl View for Workspaces {
    type V = Seq<WorkspaceView>;

    closed spec fn view(&self) -> Seq<WorkspaceView> {
        Seq::new(self.rows@.len(), |i: int| self.rows@[i]@)
    }
}

impl Workspaces {
    /// The table is well formed: no two workspaces have the same key, and no
    /// two have the same identifier.
    pub open spec fn wf(&self) -> bool {
        unique_keys(self@) && unique_workspace_ids(self@)
    }

    /// No workspaces.
    pub fn new() -> (w: Workspaces)
        ensures
            w.wf(),
            w@ == Seq::<WorkspaceView>::empty(),
    {
        let w = Workspaces { rows: Vec::new() };
        assert(w@ =~= Seq::<WorkspaceView>::empty());
        w
    }

    /// The table that holds `rows`, in their order; a row whose key or
    /// identifier an earlier one has is left out.
    pub fn with_rows(rows: &[Workspace]) -> (w: Workspaces)
        ensures
            w.wf(),
            w@ == loaded_workspaces(Seq::new(rows@.len(), |i: int| rows@[i]@)),
    {
        let ghost all = Seq::new(rows@.len(), |i: int| rows@[i]@);
        let mut w = Workspaces::new();
        let mut i: usize = 0;
        assert(all.take(0) =~= Seq::<WorkspaceView>::empty());
        while i < rows.len()
            invariant
                i <= rows@.len(),
                all == Seq::new(rows@.len(), |i: int| rows@[i]@),
                w.wf(),
                w@ == loaded_workspaces(all.take(i as int)),
            decreases rows@.len() - i,
        {
            proof {
                assert(all.take(i + 1).drop_last() =~= all.take(i as int));
                assert(all.take(i + 1).last() == rows@[i as int]@);
            }
            let row = &rows[i];
            let k = w.find(row.key.as_str());
            if k == w.rows.len() && !w.holds_id(row.id.as_str()) {
                let ghost before = w@;
                proof {
                    lemma_index_of_key_bounds(before, row@.key);
                }
                w.rows.push(copy_workspace(row));
                assert(w@ =~= before.push(row@));
            }
            i += 1;
        }
        assert(all.take(i as int) =~= all);
        w
    }

    /// The number of workspaces.
    pub fn len(&self) -> (n: usize)
        ensures
            n == self@.len(),
    {
        self.rows.len()
    }

    /// The index of the workspace with the key `key`, or the number of
    /// workspaces.
    fn find(&self, key: &str) -> (k: usize)
        ensures
            k == index_of_key(self@, key@),
            k <= self.rows@.len(),
            self.rows@.len() == self@.len(),
    {
        let mut k: usize = 0;
        while k < self.rows.len()
            invariant
                k <= self.rows@.len(),
                self.rows@.len() == self@.len(),
                forall|j: int| 0 <= j < k ==> (#[trigger] self@[j]).key != key@,
            decreases self.rows@.len() - k,
        {
            if same_text(self.rows[k].key.as_str(), key) {
                proof {
                    lemma_index_of_key(self@, key@, k as int);
                }
                return k;
            }
            k += 1;
        }
        proof {
            lemma_index_of_key(self@, key@, k as int);
        }
        k
    }

    /// Whether some workspace has the identifier `id`.
    pub fn holds_id(&self, id: &str) -> (r: bool)
        ensures
            r == id_in_use(self@, id@),
    {
        let mut k: usize = 0;
        while k < self.rows.len()
            invariant
                k <= self.rows@.len(),
                self.rows@.len() == self@.len(),
                forall|j: int| 0 <= j < k ==> (#[trigger] self@[j]).id != id@,
            decreases self.rows@.len() - k,
        {
            if same_text(self.rows[k].id.as_str(), id) {
                assert(self@[k as int].id == id@);
                return true;
            }
            k += 1;
        }
        false
    }

    /// The workspace with the key `key`, if there is one.
    pub fn workspace(&self, key: &str) -> (r: Option<Workspace>)
        ensures
            match r {
                Some(w) => workspace_of(self@, key@) == Some(w@),
                None => workspace_of(self@, key@) is None,
            },
    {
        let k = self.find(key);
        if k < self.rows.len() {
            Some(copy_workspace(&self.rows[k]))
        } else {
            None
        }
    }

    /// The identifier of the workspace with the key `key`, used with the root
    /// `root_path` at the time that the clock shows, or at no time where the
    /// clock cannot be read. A key that is known keeps its identifier. For a
    /// key that is new an identifier is drawn: if no workspace has it, the
    /// key gets it; if one has, the use is refused and the table stays as it
    /// is.
    pub fn ensure_workspace(&mut self, key: &str, root_path: &str) -> (r: Result<
        String,
        StoreError,
    >)
        requires
            old(self).wf(),
        ensures
            final(self).wf(),
            key_known(old(self)@, key@) ==> r is Ok,
            match r {
                Ok(id) => {
                    &&& id@ == workspace_of(final(self)@, key@)->0.id
                    &&& key_known(old(self)@, key@) ==> id@ == workspace_of(old(self)@, key@)->0.id
                    &&& !key_known(old(self)@, key@) ==> !id_in_use(old(self)@, id@)
                    &&& exists|now: Seq<char>|
                        final(self)@ == #[trigger] ensured(old(self)@, key@, root_path@, id@, now)
                },
                Err(e) => {
                    &&& e == StoreError::DuplicateId
                    &&& !key_known(old(self)@, key@)
                    &&& final(self)@ == old(self)@
                },
            },
    {
        let fresh = random_id();
        let now = match now_rfc3339() {
            Some(t) => t,
            None => String::new(),
        };
        let r = self.ensure_workspace_get_id(key, root_path, fresh.as_str(), now.as_str());
        proof {
            if r is Ok && key_known(old(self)@, key@) {
                assert(ensured(old(self)@, key@, root_path@, fresh@, now@) == ensured(
                    old(self)@,
                    key@,
                    root_path@,
                    r->Ok_0@,
                    now@,
                ));
            }
        }
        r
    }

    /// The identifier of the workspace with the key `key`, used now with the
    /// root `root_path`. A key that is known keeps its identifier, and its
    /// workspace gets the root and the time. A key that is new gets the
    /// identifier `fresh_id` and a workspace of its own, unless another
    /// workspace has that identifier: then the use is refused, and the table
    /// stays as it is.
    pub fn ensure_workspace_get_id(
        &mut self,
        key: &str,
        root_path: &str,
        fresh_id: &str,
        now: &str,
    ) -> (r: Result<String, StoreError>)
        requires
            old(self).wf(),
        ensures
            final(self).wf(),
            match r {
                Ok(id) => {
                    &&& !refused(old(self)@, key@, fresh_id@)
                    &&& final(self)@ == ensured(old(self)@, key@, root_path@, fresh_id@, now@)
                    &&& id@ == ensured_id(old(self)@, key@, fresh_id@)
                    &&& workspace_of(final(self)@, key@) is Some
                    &&& id@ == workspace_of(final(self)@, key@)->0.id
                    &&& forall|i: int|
                        0 <= i < final(self)@.len() && (#[trigger] final(self)@[i]).key != key@
                            ==> final(self)@[i].id != id@
                },
                Err(e) => {
                    &&& refused(old(self)@, key@, fresh_id@)
                    &&& e == StoreError::DuplicateId
                    &&& final(self)@ == old(self)@
                },
            },
    {
        let k = self.find(key);
        proof {
            lemma_index_of_key_bounds(self@, key@);
        }
        if k < self.rows.len() {
            let id = self.rows[k].id.clone();
            let row = Workspace {
                id: self.rows[k].id.clone(),
                key: self.rows[k].key.clone(),
                root_path: root_path.to_owned(),
                created_at: self.rows[k].created_at.clone(),
                updated_at: now.to_owned(),
            };
            self.rows.set(k, row);
            proof {
                assert(self@ =~= ensured(old(self)@, key@, root_path@, fresh_id@, now@));
                assert forall|i: int| 0 <= i < self@.len() implies (#[trigger] self@[i]).key
                    == old(self)@[i].key && self@[i].id == old(self)@[i].id by {}
                assert forall|j: int| 0 <= j < k implies (#[trigger] self@[j]).key != key@ by {
                    assert(self@[j].key == old(self)@[j].key);
                }
                lemma_index_of_key(self@, key@, k as int);
                assert forall|i: int|
                    0 <= i < self@.len() && (#[trigger] self@[i]).key != key@ implies self@[i].id
                    != id@ by {
                    assert(i != k);
                    assert(old(self)@[i].id != old(self)@[k as int].id);
                }
            }
            Ok(id)
        } else if self.holds_id(fresh_id) {
            Err(StoreError::DuplicateId)
        } else {
            let row = Workspace {
                id: fresh_id.to_owned(),
                key: key.to_owned(),
                root_path: root_path.to_owned(),
                created_at: now.to_owned(),
                updated_at: now.to_owned(),
            };
            self.rows.push(row);
            proof {
                assert(self@ =~= ensured(old(self)@, key@, root_path@, fresh_id@, now@));
                assert forall|j: int| 0 <= j < k implies (#[trigger] self@[j]).key != key@ by {
                    assert(self@[j] == old(self)@[j]);
                }
                lemma_index_of_key(self@, key@, k as int);
                assert forall|i: int|
                    0 <= i < self@.len() && (#[trigger] self@[i]).key != key@ implies self@[i].id
                    != fresh_id@ by {
                    assert(i != k);
                    assert(self@[i] == old(self)@[i]);
                }
                assert forall|i: int, j: int|
                    0 <= i < self@.len() && 0 <= j < self@.len() && i != j implies (
                #[trigger] self@[i]).id != (#[trigger] self@[j]).id by {
                    if i < k {
                        assert(self@[i] == old(self)@[i]);
                    }
                    if j < k {
                        assert(self@[j] == old(self)@[j]);
                    }
                }
                assert forall|i: int, j: int|
                    0 <= i < self@.len() && 0 <= j < self@.len() && i != j implies (
                #[trigger] self@[i]).key != (#[trigger] self@[j]).key by {
                    if i < k {
                        assert(self@[i] == old(self)@[i]);
                    }
                    if j < k {
                        assert(self@[j] == old(self)@[j]);
                    }
                }
            }
            Ok(fresh_id.to_owned())
        }
    }
}

/// A copy of a workspace.
pub fn copy_workspace(w: &Workspace) -> (r: Workspace)
    ensures
        r@ == w@,
{
    Workspace {
        id: w.id.clone(),
        key: w.key.clone(),
        root_path: w.root_path.clone(),
        created_at: w.created_at.clone(),
        updated_at: w.updated_at.clone(),
    }
}

} // verus!
