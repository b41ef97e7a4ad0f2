//! The order in which the entries of a directory are listed: directories
//! first, and within each kind by name without regard to case.

use crate::files::{DirEntry, EntryType};
use crate::store::{less_than, same_text, text_less};
use vstd::prelude::*;

verus! {

/// `s` in lower case, by the case mapping of Unicode.
pub uninterp spec fn lowercase(s: Seq<char>) -> Seq<char>;

/// `str::to_lowercase`: the text in lower case, by the case mapping of
/// Unicode. Nothing is proved of the mapping; the result is the named value
/// `lowercase` of the input.
#[verifier::external_body]
fn to_lower(s: &str) -> (r: String)
    ensures
        r@ == lowercase(s@),
{
    s.to_lowercase()
}

/// An entry as plain mathematical values.
pub struct DirEntryView {
    pub name: Seq<char>,
    pub path: Seq<char>,
    pub entry_type: EntryType,
    pub size: Option<u64>,
}

impl View for DirEntry {
    type V = DirEntryView;

    open spec fn view(&self) -> DirEntryView {
        DirEntryView {
            name: self.name@,
            path: self.path@,
            entry_type: self.entry_type,
            size: self.size,
        }
    }
}

/// What a list of entries holds.
pub open spec fn entry_views(v: Seq<DirEntry>) -> Seq<DirEntryView> {
    Seq::new(v.len(), |i: int| v[i]@)
}

/// `a` is listed before `b`, given their names in lower case: a directory
/// before a file, and of two of a kind the one whose name in lower case comes
/// first in the order of texts.
pub open spec fn listed_before(
    a: DirEntryView,
    a_lower: Seq<char>,
    b: DirEntryView,
    b_lower: Seq<char>,
) -> bool {
    if a.entry_type != b.entry_type {
        a.entry_type == EntryType::Dir
    } else {
        text_less(a_lower, b_lower)
    }
}

/// Where `a` goes among the ordered `sorted`: before the first that it is
/// listed before, behind all others.
pub open spec fn slot_of(sorted: Seq<DirEntryView>, a: DirEntryView) -> int
    decreases sorted.len(),
{
    if sorted.len() == 0 || listed_before(
        a,
        lowercase(a.name),
        sorted[0],
        lowercase(sorted[0].name),
    ) {
        0
    } else {
        1 + slot_of(sorted.drop_first(), a)
    }
}

/// The entries in the order of a listing; those of which none is listed
/// before the other stay in the order in which they were given.
pub open spec fn listed(entries: Seq<DirEntryView>) -> Seq<DirEntryView>
    decreases entries.len(),
{
    if entries.len() == 0 {
        Seq::empty()
    } else {
        let front = listed(entries.drop_last());
        front.insert(slot_of(front, entries.last()), entries.last())
    }
}

/// What `slot_of` is, without recursion.
pub proof fn lemma_slot_of(sorted: Seq<DirEntryView>, a: DirEntryView, k: int)
    requires
        0 <= k <= sorted.len(),
        forall|j: int|
            0 <= j < k ==> !listed_before(
                a,
                lowercase(a.name),
                #[trigger] sorted[j],
                lowercase(sorted[j].name),
            ),
        k < sorted.len() ==> listed_before(
            a,
            lowercase(a.name),
            sorted[k],
            lowercase(sorted[k].name),
        ),
    ensures
        slot_of(sorted, a) == k,
    decreases sorted.len(),
{
    if sorted.len() > 0 && k > 0 {
        let f = sorted.drop_first();
        assert(!listed_before(a, lowercase(a.name), sorted[0], lowercase(sorted[0].name)));
        assert forall|j: int| 0 <= j < k - 1 implies !listed_before(
            a,
            lowercase(a.name),
            #[trigger] f[j],
            lowercase(f[j].name),
        ) by {
            assert(f[j] == sorted[j + 1]);
        }
        lemma_slot_of(f, a, k - 1);
    }
}

/// The names that a listing never shows: the directory of the repository and
/// the directory of installed packages.
pub open spec fn is_left_out(name: Seq<char>) -> bool {
    name == ".git"@ || name == "node_modules"@
}

/// Whether a listing leaves out the entry with this name.
pub fn left_out(name: &str) -> (r: bool)
    ensures
        r == is_left_out(name@),
{
    same_text(name, ".git") || same_text(name, "node_modules")
}

/// Whether `a` is listed before `b`, given their names in lower case.
pub fn goes_before(a: &DirEntry, a_lower: &str, b: &DirEntry, b_lower: &str) -> (r: bool)
    ensures
        r == listed_before(a@, a_lower@, b@, b_lower@),
{
    match (a.entry_type, b.entry_type) {
        (EntryType::Dir, EntryType::File) => true,
        (EntryType::File, EntryType::Dir) => false,
        _ => less_than(a_lower, b_lower),
    }
}

/// A copy of an entry.
fn copy_entry(e: &DirEntry) -> (r: DirEntry)
    ensures
        r@ == e@,
{
    DirEntry { name: e.name.clone(), path: e.path.clone(), entry_type: e.entry_type, size: e.size }
}

/// The entries in the order of a listing.
pub fn sort_entries(entries: &Vec<DirEntry>) -> (r: Vec<DirEntry>)
    ensures
        entry_views(r@) == listed(entry_views(entries@)),
{
    let mut out: Vec<DirEntry> = Vec::new();
    let mut lowers: Vec<String> = Vec::new();
    let mut i: usize = 0;
    let ghost all = entry_views(entries@);
    assert(all.take(0) =~= Seq::<DirEntryView>::empty());
    assert(entry_views(out@) =~= Seq::<DirEntryView>::empty());
    while i < entries.len()
        invariant
            i <= entries@.len(),
            all == entry_views(entries@),
            entry_views(out@) == listed(all.take(i as int)),
            lowers@.len() == out@.len(),
            forall|j: int| 0 <= j < out@.len() ==> (#[trigger] lowers@[j])@ == lowercase(out@[j]@.name),
        decreases entries@.len() - i,
    {
        let e = &entries[i];
        let low = to_lower(e.name.as_str());
        let ghost front = entry_views(out@);
        let mut k: usize = 0;
        while k < out.len() && !goes_before(e, low.as_str(), &out[k], lowers[k].as_str())
            invariant
                k <= out@.len(),
                front == entry_views(out@),
                low@ == lowercase(e@.name),
                lowers@.len() == out@.len(),
                forall|j: int|
                    0 <= j < out@.len() ==> (#[trigger] lowers@[j])@ == lowercase(out@[j]@.name),
                forall|j: int|
                    0 <= j < k ==> !listed_before(
                        e@,
                        lowercase(e@.name),
                        #[trigger] front[j],
                        lowercase(front[j].name),
                    ),
            decreases out@.len() - k,
        {
            assert(front[k as int] == out@[k as int]@);
            k += 1;
        }
        proof {
            if k < out@.len() {
                assert(front[k as int] == out@[k as int]@);
            }
            lemma_slot_of(front, e@, k as int);
            assert(all.take(i + 1).drop_last() =~= all.take(i as int));
            assert(all.take(i + 1).last() == e@);
        }
        out.insert(k, copy_entry(e));
        lowers.insert(k, low);
        assert(entry_views(out@) =~= front.insert(k as int, e@));
        i += 1;
    }
    assert(all.take(i as int) =~= all);
    out
}

} // verus!
