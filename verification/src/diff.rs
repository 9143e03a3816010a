use vstd::prelude::*;
use crate::index::PathMapping;
use crate::index::SnapshotIndex;
use crate::index::TagMap;
use crate::select::SnapSelector;
use crate::select::spec_resolve;
use crate::strs::str_eq;
use crate::FttError;

verus! {

/// Path present in `to`, absent in `from`.
pub open spec fn added_path(
    from: Map<Seq<char>, Seq<char>>,
    to: Map<Seq<char>, Seq<char>>,
    p: Seq<char>,
) -> bool {
    to.contains_key(p) && !from.contains_key(p)
}

/// Path present in both mappings, with differing fingerprints.
pub open spec fn modified_path(
    from: Map<Seq<char>, Seq<char>>,
    to: Map<Seq<char>, Seq<char>>,
    p: Seq<char>,
) -> bool {
    to.contains_key(p) && from.contains_key(p) && from[p] != to[p]
}

/// Path present in `from`, absent in `to`.
pub open spec fn deleted_path(
    from: Map<Seq<char>, Seq<char>>,
    to: Map<Seq<char>, Seq<char>>,
    p: Seq<char>,
) -> bool {
    from.contains_key(p) && !to.contains_key(p)
}

/// Path present in both mappings with the same fingerprint: excluded from
/// every report set.
pub open spec fn unchanged_path(
    from: Map<Seq<char>, Seq<char>>,
    to: Map<Seq<char>, Seq<char>>,
    p: Seq<char>,
) -> bool {
    to.contains_key(p) && from.contains_key(p) && from[p] == to[p]
}

/// Some element of `v` views to `p`.
pub open spec fn vec_has(v: Seq<String>, p: Seq<char>) -> bool {
    exists|k: int| 0 <= k < v.len() && v[k]@ == p
}

/// The classification of two mappings' paths into added, modified and
/// deleted, with unchanged paths excluded.
#[derive(Debug)]
pub struct DiffReport {
    pub added: Vec<String>,
    pub modified: Vec<String>,
    pub deleted: Vec<String>,
}

impl DiffReport {
    /// The report lists exactly the added, modified and deleted paths of
    /// the two mappings, each path once.
    pub open spec fn describes(
        &self,
        from: Map<Seq<char>, Seq<char>>,
        to: Map<Seq<char>, Seq<char>>,
    ) -> bool {
        &&& forall|k: int|
            0 <= k < self.added@.len() ==> added_path(from, to, (#[trigger] self.added@[k])@)
        &&& forall|k: int|
            0 <= k < self.modified@.len() ==> modified_path(
                from,
                to,
                (#[trigger] self.modified@[k])@,
            )
        &&& forall|k: int|
            0 <= k < self.deleted@.len() ==> deleted_path(from, to, (#[trigger] self.deleted@[k])@)
        &&& forall|p: Seq<char>| #[trigger] added_path(from, to, p) ==> vec_has(self.added@, p)
        &&& forall|p: Seq<char>| #[trigger] modified_path(from, to, p) ==> vec_has(self.modified@, p)
        &&& forall|p: Seq<char>| #[trigger] deleted_path(from, to, p) ==> vec_has(self.deleted@, p)
        &&& forall|k1: int, k2: int|
            0 <= k1 < k2 < self.added@.len() ==> self.added@[k1]@ != self.added@[k2]@
        &&& forall|k1: int, k2: int|
            0 <= k1 < k2 < self.modified@.len() ==> self.modified@[k1]@ != self.modified@[k2]@
        &&& forall|k1: int, k2: int|
            0 <= k1 < k2 < self.deleted@.len() ==> self.deleted@[k1]@ != self.deleted@[k2]@
    }

    /// No change in any of the three sets.
    pub fn is_empty(&self) -> (r: bool)
        ensures
            r == (self.added@.len() == 0 && self.modified@.len() == 0 && self.deleted@.len() == 0),
    {
        self.added.len() == 0 && self.modified.len() == 0 && self.deleted.len() == 0
    }
}

/// Every path of the union of the two mappings falls in exactly one of
/// {added, modified, deleted, unchanged}, and a modified path has
/// differing fingerprints.
pub proof fn lemma_classification_partition(
    from: Map<Seq<char>, Seq<char>>,
    to: Map<Seq<char>, Seq<char>>,
    p: Seq<char>,
)
    requires
        from.contains_key(p) || to.contains_key(p),
    ensures
        added_path(from, to, p) || modified_path(from, to, p) || deleted_path(from, to, p)
            || unchanged_path(from, to, p),
        added_path(from, to, p) ==> !modified_path(from, to, p) && !deleted_path(from, to, p)
            && !unchanged_path(from, to, p),
        modified_path(from, to, p) ==> !added_path(from, to, p) && !deleted_path(from, to, p)
            && !unchanged_path(from, to, p),
        deleted_path(from, to, p) ==> !added_path(from, to, p) && !modified_path(from, to, p)
            && !unchanged_path(from, to, p),
        unchanged_path(from, to, p) ==> !added_path(from, to, p) && !modified_path(from, to, p)
            && !deleted_path(from, to, p),
        modified_path(from, to, p) ==> from[p] != to[p],
{
}

/// A described report mirrors the classification exactly: membership in
/// each of its three lists coincides with the matching predicate, so every
/// path of the union appears in exactly one applicable list or in none
/// (the unchanged ones).
pub proof fn lemma_diff_partition(
    report: &DiffReport,
    from: Map<Seq<char>, Seq<char>>,
    to: Map<Seq<char>, Seq<char>>,
    p: Seq<char>,
)
    requires
        report.describes(from, to),
        from.contains_key(p) || to.contains_key(p),
    ensures
        vec_has(report.added@, p) <==> added_path(from, to, p),
        vec_has(report.modified@, p) <==> modified_path(from, to, p),
        vec_has(report.deleted@, p) <==> deleted_path(from, to, p),
        unchanged_path(from, to, p) <==> !vec_has(report.added@, p) && !vec_has(report.modified@, p)
            && !vec_has(report.deleted@, p),
{
    lemma_classification_partition(from, to, p);
    if vec_has(report.added@, p) {
        let k = choose|k: int| 0 <= k < report.added@.len() && report.added@[k]@ == p;
        assert(added_path(from, to, (report.added@[k])@));
    }
    if vec_has(report.modified@, p) {
        let k = choose|k: int| 0 <= k < report.modified@.len() && report.modified@[k]@ == p;
        assert(modified_path(from, to, (report.modified@[k])@));
    }
    if vec_has(report.deleted@, p) {
        let k = choose|k: int| 0 <= k < report.deleted@.len() && report.deleted@[k]@ == p;
        assert(deleted_path(from, to, (report.deleted@[k])@));
    }
}

/// Compare two mappings and classify every path as added, modified or
/// deleted; unchanged paths appear in no list.
pub fn diff(from: &PathMapping, to: &PathMapping) -> (r: DiffReport)
    requires
        from.wf(),
        to.wf(),
    ensures
        r.describes(from@, to@),
{
    let mut added: Vec<String> = Vec::new();
    let mut modified: Vec<String> = Vec::new();
    let mut deleted: Vec<String> = Vec::new();

    let n = to.len();
    let mut i: usize = 0;
    while i < n
        invariant
            from.wf(),
            to.wf(),
            n == to.seq().len(),
            i <= n,
            forall|k: int|
                0 <= k < added@.len() ==> added_path(from@, to@, (#[trigger] added@[k])@),
            forall|k: int|
                0 <= k < modified@.len() ==> modified_path(from@, to@, (#[trigger] modified@[k])@),
            forall|k: int|
                0 <= k < added@.len() ==> exists|j: int|
                    0 <= j < i && to.seq()[j].0@ == (#[trigger] added@[k])@,
            forall|k: int|
                0 <= k < modified@.len() ==> exists|j: int|
                    0 <= j < i && to.seq()[j].0@ == (#[trigger] modified@[k])@,
            forall|j: int|
                0 <= j < i && added_path(from@, to@, (#[trigger] to.seq()[j]).0@) ==> vec_has(
                    added@,
                    to.seq()[j].0@,
                ),
            forall|j: int|
                0 <= j < i && modified_path(from@, to@, (#[trigger] to.seq()[j]).0@) ==> vec_has(
                    modified@,
                    to.seq()[j].0@,
                ),
            forall|k1: int, k2: int| 0 <= k1 < k2 < added@.len() ==> added@[k1]@ != added@[k2]@,
            forall|k1: int, k2: int|
                0 <= k1 < k2 < modified@.len() ==> modified@[k1]@ != modified@[k2]@,
        decreases n - i,
    {
        let e = to.entry(i);
        proof {
            to.lemma_at(i as int);
        }
        let ghost key = to.seq()[i as int].0@;
        proof {
            // the current key differs from every key already listed
            assert forall|k: int| 0 <= k < added@.len() implies (#[trigger] added@[k])@ != key by {
                let j = choose|j: int| 0 <= j < i && to.seq()[j].0@ == added@[k]@;
                assert(to.seq()[j].0@ != to.seq()[i as int].0@);
            }
            assert forall|k: int|
                0 <= k < modified@.len() implies (#[trigger] modified@[k])@ != key by {
                let j = choose|j: int| 0 <= j < i && to.seq()[j].0@ == modified@[k]@;
                assert(to.seq()[j].0@ != to.seq()[i as int].0@);
            }
        }
        let ghost pre_added = added@;
        let ghost pre_modified = modified@;
        match from.get(e.0.as_str()) {
            None => {
                added.push(e.0.clone());
            },
            Some(old_hash) => {
                if !str_eq(old_hash.as_str(), e.1.as_str()) {
                    modified.push(e.0.clone());
                }
            },
        }
        proof {
            assert forall|j: int|
                0 <= j < i + 1 && added_path(from@, to@, (#[trigger] to.seq()[j]).0@) implies vec_has(
                added@,
                to.seq()[j].0@,
            ) by {
                if j < i {
                    let k = choose|k: int|
                        0 <= k < pre_added.len() && pre_added[k]@ == to.seq()[j].0@;
                    assert(added@[k]@ == to.seq()[j].0@);
                } else {
                    assert(added@.last()@ == key);
                }
            }
            assert forall|j: int|
                0 <= j < i + 1 && modified_path(from@, to@, (#[trigger] to.seq()[j]).0@) implies vec_has(
                modified@,
                to.seq()[j].0@,
            ) by {
                if j < i {
                    let k = choose|k: int|
                        0 <= k < pre_modified.len() && pre_modified[k]@ == to.seq()[j].0@;
                    assert(modified@[k]@ == to.seq()[j].0@);
                } else {
                    assert(modified@.last()@ == key);
                }
            }
        }
        i += 1;
    }
    proof {
        assert forall|p: Seq<char>| #[trigger] added_path(from@, to@, p) implies vec_has(
            added@,
            p,
        ) by {
            to.lemma_contains(p);
            let j = choose|j: int| 0 <= j < to.seq().len() && to.seq()[j].0@ == p;
            assert(added_path(from@, to@, to.seq()[j].0@));
        }
        assert forall|p: Seq<char>| #[trigger] modified_path(from@, to@, p) implies vec_has(
            modified@,
            p,
        ) by {
            to.lemma_contains(p);
            let j = choose|j: int| 0 <= j < to.seq().len() && to.seq()[j].0@ == p;
            assert(modified_path(from@, to@, to.seq()[j].0@));
        }
    }

    let m = from.len();
    let mut i: usize = 0;
    while i < m
        invariant
            from.wf(),
            to.wf(),
            m == from.seq().len(),
            i <= m,
            forall|k: int|
                0 <= k < deleted@.len() ==> deleted_path(from@, to@, (#[trigger] deleted@[k])@),
            forall|k: int|
                0 <= k < deleted@.len() ==> exists|j: int|
                    0 <= j < i && from.seq()[j].0@ == (#[trigger] deleted@[k])@,
            forall|j: int|
                0 <= j < i && deleted_path(from@, to@, (#[trigger] from.seq()[j]).0@) ==> vec_has(
                    deleted@,
                    from.seq()[j].0@,
                ),
            forall|k1: int, k2: int|
                0 <= k1 < k2 < deleted@.len() ==> deleted@[k1]@ != deleted@[k2]@,
        decreases m - i,
    {
        let e = from.entry(i);
        proof {
            from.lemma_at(i as int);
            let ghost key = from.seq()[i as int].0@;
            assert forall|k: int|
                0 <= k < deleted@.len() implies (#[trigger] deleted@[k])@ != key by {
                let j = choose|j: int| 0 <= j < i && from.seq()[j].0@ == deleted@[k]@;
                assert(from.seq()[j].0@ != from.seq()[i as int].0@);
            }
        }
        let ghost pre_deleted = deleted@;
        if !to.contains(e.0.as_str()) {
            deleted.push(e.0.clone());
        }
        proof {
            let key = from.seq()[i as int].0@;
            assert forall|j: int|
                0 <= j < i + 1 && deleted_path(from@, to@, (#[trigger] from.seq()[j]).0@) implies vec_has(
                deleted@,
                from.seq()[j].0@,
            ) by {
                if j < i {
                    let k = choose|k: int|
                        0 <= k < pre_deleted.len() && pre_deleted[k]@ == from.seq()[j].0@;
                    assert(deleted@[k]@ == from.seq()[j].0@);
                } else {
                    assert(deleted@.last()@ == key);
                }
            }
        }
        i += 1;
    }
    proof {
        assert forall|p: Seq<char>| #[trigger] deleted_path(from@, to@, p) implies vec_has(
            deleted@,
            p,
        ) by {
            from.lemma_contains(p);
            let j = choose|j: int| 0 <= j < from.seq().len() && from.seq()[j].0@ == p;
            assert(deleted_path(from@, to@, from.seq()[j].0@));
        }
    }

    DiffReport { added, modified, deleted }
}

/// The diff command: resolve the two selectors against the index and the
/// tag registry, then compare the two snapshots' mappings.  Selector
/// errors abort before any comparison; an empty index refuses the command
/// outright.
pub fn diff_snapshots(
    index: &SnapshotIndex,
    tags: &TagMap,
    from_sel: &Option<SnapSelector>,
    to_sel: &Option<SnapSelector>,
) -> (r: Result<DiffReport, FttError>)
    requires
        index.wf(),
    ensures
        match r {
            Ok(rep) => {
                &&& index.snapshots().len() > 0
                &&& spec_resolve(tags@, index.snapshots().len() as int, *from_sel) matches Ok(fid)
                    && spec_resolve(tags@, index.snapshots().len() as int, *to_sel) matches Ok(tid)
                    && rep.describes(
                    index.snapshots()[fid as int - 1].files@,
                    index.snapshots()[tid as int - 1].files@,
                )
            },
            Err(e) => {
                ||| index.snapshots().len() == 0 && e == FttError::NoSnapshots
                ||| index.snapshots().len() > 0 && spec_resolve(
                    tags@,
                    index.snapshots().len() as int,
                    *from_sel,
                ) == Result::<u32, FttError>::Err(e)
                ||| index.snapshots().len() > 0 && (spec_resolve(
                    tags@,
                    index.snapshots().len() as int,
                    *from_sel,
                ) matches Ok(_)) && spec_resolve(tags@, index.snapshots().len() as int, *to_sel)
                    == Result::<u32, FttError>::Err(e)
            },
        },
{
    if index.len() == 0 {
        return Err(FttError::NoSnapshots);
    }
    let from_id = match crate::select::resolve(index, tags, from_sel) {
        Ok(id) => id,
        Err(e) => { return Err(e); },
    };
    let to_id = match crate::select::resolve(index, tags, to_sel) {
        Ok(id) => id,
        Err(e) => { return Err(e); },
    };
    let from_snap = index.get((from_id - 1) as usize);
    let to_snap = index.get((to_id - 1) as usize);
    Ok(diff(&from_snap.files, &to_snap.files))
}

/// The status report: the live scan of the tracked root compared against
/// the most recent snapshot's mapping, or an explicit "no snapshots yet"
/// condition when nothing is recorded.
pub fn status(index: &SnapshotIndex, live: &PathMapping) -> (r: Result<DiffReport, FttError>)
    requires
        index.wf(),
        live.wf(),
    ensures
        match r {
            Ok(rep) => index.snapshots().len() > 0 && rep.describes(
                index.snapshots().last().files@,
                live@,
            ),
            Err(e) => e == FttError::NoSnapshots && index.snapshots().len() == 0,
        },
{
    match index.latest() {
        None => Err(FttError::NoSnapshots),
        Some(snap) => Ok(diff(&snap.files, live)),
    }
}

} // verus!
