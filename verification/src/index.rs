use vstd::prelude::*;
use crate::kv::StrMap;
use crate::kv::map_of;
use crate::kv::distinct_keys;
use crate::FttError;

verus! {

/// A path-to-fingerprint mapping: the tracked file set at one moment.
pub type PathMapping = StrMap<String>;

/// An immutable, numbered record of the tracked file set at one moment.
pub struct Snapshot {
    pub id: u32,
    pub files: PathMapping,
}

/// The ordered, append-only sequence of all snapshots of a tracked root.
pub struct SnapshotIndex {
    snaps: Vec<Snapshot>,
}

impl SnapshotIndex {
    /// The recorded snapshots, oldest first.
    pub closed spec fn snapshots(&self) -> Seq<Snapshot> {
        self.snaps@
    }

    /// Ids are exactly 1..=len in order, and every mapping has distinct
    /// keys.
    pub open spec fn wf(&self) -> bool {
        forall|i: int|
            0 <= i < self.snapshots().len() ==> (#[trigger] self.snapshots()[i]).id as int == i + 1
                && self.snapshots()[i].files.wf()
    }

    /// Ids are unsigned 32-bit values, so a well-formed index cannot hold
    /// more snapshots than the largest id.
    pub proof fn lemma_len_bound(&self)
        requires
            self.wf(),
        ensures
            self.snapshots().len() <= u32::MAX,
    {
        if self.snapshots().len() > 0 {
            assert(self.snapshots()[self.snapshots().len() - 1].id as int == self.snapshots().len());
        }
    }

    /// An empty index: what `load` yields when nothing is persisted yet.
    pub fn new() -> (r: Self)
        ensures
            r.wf(),
            r.snapshots().len() == 0,
    {
        SnapshotIndex { snaps: Vec::new() }
    }

    pub fn len(&self) -> (n: usize)
        ensures
            n == self.snapshots().len(),
    {
        self.snaps.len()
    }

    pub fn get(&self, i: usize) -> (s: &Snapshot)
        requires
            i < self.snapshots().len(),
        ensures
            *s == self.snapshots()[i as int],
    {
        &self.snaps[i]
    }

    /// The most recent snapshot, if any.
    pub fn latest(&self) -> (r: Option<&Snapshot>)
        ensures
            match r {
                Some(s) => self.snapshots().len() > 0 && *s == self.snapshots().last(),
                None => self.snapshots().len() == 0,
            },
    {
        if self.snaps.len() > 0 {
            Some(&self.snaps[self.snaps.len() - 1])
        } else {
            None
        }
    }

    /// The snapshot carrying a literal id, if the id is recorded.
    pub fn find_by_id(&self, id: u32) -> (r: Option<&Snapshot>)
        requires
            self.wf(),
        ensures
            match r {
                Some(s) => 1 <= id as int <= self.snapshots().len() && *s == self.snapshots()[id as int - 1] && s.id == id,
                None => !(1 <= id as int <= self.snapshots().len()),
            },
    {
        if id >= 1 && (id as usize) <= self.snaps.len() {
            Some(&self.snaps[(id - 1) as usize])
        } else {
            None
        }
    }

    /// Append a new snapshot under the next id: one more than the largest
    /// recorded id, one when none is recorded.
    pub fn append(&mut self, files: PathMapping) -> (id: u32)
        requires
            old(self).wf(),
            files.wf(),
            old(self).snapshots().len() < u32::MAX as int,
        ensures
            final(self).wf(),
            id as int == old(self).snapshots().len() + 1,
            final(self).snapshots() == old(self).snapshots().push(
                (Snapshot { id, files }),
            ),
    {
        let id = (self.snaps.len() as u32) + 1;
        self.snaps.push(Snapshot { id, files });
        id
    }

    /// Rebuild an index from raw records; accepted exactly when the ids
    /// are 1..=len in order and no mapping repeats a path.
    #[verifier::loop_isolation(false)]
    pub fn from_records(records: Vec<(u32, Vec<(String, String)>)>) -> (r: Option<Self>)
        ensures
            match r {
                Some(ix) => {
                    &&& valid_records(records@)
                    &&& ix.wf()
                    &&& ix.snapshots().len() == records@.len()
                    &&& forall|i: int|
                        0 <= i < records@.len() ==> (#[trigger] ix.snapshots()[i]).files@ == map_of(
                            records@[i].1@,
                        )
                },
                None => !valid_records(records@),
            },
    {
        let mut ix = SnapshotIndex::new();
        let n = records.len();
        let mut records = records;
        let ghost all = records@;
        let mut i: usize = 0;
        while i < n
            invariant
                ix.wf(),
                n == all.len(),
                i <= n,
                records@ =~= all.skip(i as int),
                ix.snapshots().len() == i,
                forall|j: int| 0 <= j < i ==> (#[trigger] all[j]).0 as int == j + 1,
                forall|j: int| 0 <= j < i ==> distinct_keys((#[trigger] all[j]).1@),
                forall|j: int|
                    0 <= j < i ==> (#[trigger] ix.snapshots()[j]).files@ == map_of(all[j].1@),
            decreases n - i,
        {
            let (id, entries) = records.remove(0);
            if id as usize != i + 1 {
                proof {
                    assert(all[i as int].0 as int != i + 1);
                }
                return None;
            }
            let files = match StrMap::<String>::from_entries_unique(entries) {
                Some(m) => m,
                None => {
                    proof {
                        assert(!distinct_keys(all[i as int].1@));
                    }
                    return None;
                },
            };
            proof {
                assert(i + 1 == id as int);
                assert(i < u32::MAX as int);
            }
            let _ = ix.append(files);
            proof {
                assert(records@ =~= all.skip(i as int + 1));
            }
            i += 1;
        }
        Some(ix)
    }
}

/// Raw records rebuild into an index exactly when their ids are 1..=len
/// in order and each record's path keys are distinct.
pub open spec fn valid_records(records: Seq<(u32, Vec<(String, String)>)>) -> bool {
    &&& forall|i: int| 0 <= i < records.len() ==> (#[trigger] records[i]).0 as int == i + 1
    &&& forall|i: int| 0 <= i < records.len() ==> distinct_keys((#[trigger] records[i]).1@)
}

/// Index monotonicity: the ids of a well-formed index are exactly
/// 1..=len, in order; each save appends the next one.
pub proof fn lemma_ids_sequential(index: &SnapshotIndex)
    requires
        index.wf(),
    ensures
        forall|i: int|
            0 <= i < index.snapshots().len() ==> (#[trigger] index.snapshots()[i]).id as int == i
                + 1,
{
}

/// The tag registry: a mapping from human label to snapshot id.  Labels
/// are unique and overwritable.
pub struct TagMap {
    map: StrMap<u32>,
}

impl View for TagMap {
    type V = Map<Seq<char>, u32>;

    closed spec fn view(&self) -> Map<Seq<char>, u32> {
        self.map@
    }
}

impl TagMap {
    pub fn new() -> (r: Self)
        ensures
            r@ == Map::<Seq<char>, u32>::empty(),
    {
        TagMap { map: StrMap::new() }
    }

    /// The id a label resolves to, if the label is known.
    pub fn get_id(&self, label: &str) -> (r: Option<u32>)
        ensures
            match r {
                Some(id) => self@.contains_key(label@) && id == self@[label@],
                None => !self@.contains_key(label@),
            },
    {
        match self.map.get(label) {
            Some(v) => Some(*v),
            None => None,
        }
    }

    /// Bind a label to an id, replacing any earlier binding.
    pub fn set(&mut self, label: String, id: u32)
        ensures
            final(self)@ == old(self)@.insert(label@, id),
    {
        self.map.put_last(label, id);
    }

    pub fn len(&self) -> (n: usize)
        ensures
            n == self.entries().len(),
    {
        self.map.len()
    }

    /// The underlying label/id entries, oldest first (the newest entry for
    /// a label is authoritative).
    pub closed spec fn entries(&self) -> Seq<(String, u32)> {
        self.map.seq()
    }

    pub fn entry(&self, i: usize) -> (e: &(String, u32))
        requires
            i < self.entries().len(),
        ensures
            *e == self.entries()[i as int],
    {
        self.map.entry(i)
    }

    /// Rebuild a registry from raw label/id pairs; a later pair for the
    /// same label supersedes an earlier one.
    pub fn from_entries(entries: Vec<(String, u32)>) -> (r: Self)
        ensures
            r@ == map_of(entries@),
    {
        TagMap { map: StrMap::from_entries(entries) }
    }
}

/// Record a label for a snapshot id; fails, changing nothing, when the id
/// is not recorded in the index.
pub fn tag_snapshot(tags: &mut TagMap, index: &SnapshotIndex, label: String, id: u32) -> (r: Result<
    (),
    FttError,
>)
    requires
        index.wf(),
    ensures
        match r {
            Ok(u) => 1 <= id as int <= index.snapshots().len() && final(tags)@ == old(tags)@.insert(
                label@,
                id,
            ),
            Err(e) => e == FttError::UnknownSnapshot && !(1 <= id as int <= index.snapshots().len())
                && final(tags)@ == old(tags)@,
        },
{
    if index.find_by_id(id).is_none() {
        return Err(FttError::UnknownSnapshot);
    }
    tags.set(label, id);
    Ok(())
}

/// The recorded snapshot ids, oldest first: always exactly 1..=len.
pub fn log_ids(index: &SnapshotIndex) -> (r: Vec<u32>)
    requires
        index.wf(),
    ensures
        r@.len() == index.snapshots().len(),
        forall|i: int| 0 <= i < r@.len() ==> r@[i] == index.snapshots()[i].id,
        forall|i: int| 0 <= i < r@.len() ==> r@[i] as int == i + 1,
{
    let n = index.len();
    let mut r: Vec<u32> = Vec::new();
    let mut i: usize = 0;
    while i < n
        invariant
            index.wf(),
            n == index.snapshots().len(),
            i <= n,
            r@.len() == i,
            forall|j: int| 0 <= j < i ==> r@[j] == index.snapshots()[j].id,
        decreases n - i,
    {
        r.push(index.get(i).id);
        i += 1;
    }
    r
}

} // verus!
