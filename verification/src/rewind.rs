use vstd::prelude::*;
use vstd::string::StrSliceExecFns;
use crate::diff::vec_has;
use crate::fingerprint::fingerprint_of;
use crate::index::PathMapping;
use crate::index::SnapshotIndex;
use crate::index::TagMap;
use crate::paths::dir_implied_by;
use crate::paths::is_dir_implied;
use crate::select::RewindSelector;
use crate::select::resolve_rewind;
use crate::select::spec_resolve_rewind;
use crate::store::BlobStore;
use crate::strs::str_eq;
use crate::FttError;

verus! {

/// The path must be written during a rewind: the target records it, and
/// the live tree misses it or carries different content.
pub open spec fn needs_restore(
    t: Map<Seq<char>, Seq<char>>,
    c: Map<Seq<char>, Seq<char>>,
    p: Seq<char>,
) -> bool {
    t.contains_key(p) && !(c.contains_key(p) && c[p] == t[p])
}

/// The path is restorable: it needs restoring and the blob store holds
/// the recorded content.
pub open spec fn to_restore(
    t: Map<Seq<char>, Seq<char>>,
    c: Map<Seq<char>, Seq<char>>,
    s: Map<Seq<char>, Seq<u8>>,
    p: Seq<char>,
) -> bool {
    needs_restore(t, c, p) && s.contains_key(t[p])
}

/// The path needs restoring but the blob store lacks the recorded
/// content: a `MissingBlob` condition, reported per path, never fatal.
pub open spec fn blob_missing(
    t: Map<Seq<char>, Seq<char>>,
    c: Map<Seq<char>, Seq<char>>,
    s: Map<Seq<char>, Seq<u8>>,
    p: Seq<char>,
) -> bool {
    needs_restore(t, c, p) && !s.contains_key(t[p])
}

/// The live path is untracked by the target: a rewind deletes it.
pub open spec fn to_delete(
    t: Map<Seq<char>, Seq<char>>,
    c: Map<Seq<char>, Seq<char>>,
    p: Seq<char>,
) -> bool {
    c.contains_key(p) && !t.contains_key(p)
}

/// A directory the target still needs: implied as an ancestor of some
/// recorded path.
pub open spec fn dir_required(t: Map<Seq<char>, Seq<char>>, d: Seq<char>) -> bool {
    exists|p: Seq<char>| #[trigger] t.contains_key(p) && dir_implied_by(d, p)
}

/// Some pair of `v` has a path that views to `p`.
pub open spec fn pairs_has(v: Seq<(String, Vec<u8>)>, p: Seq<char>) -> bool {
    exists|k: int| 0 <= k < v.len() && v[k].0@ == p
}

/// The three ordered phases of a rewind, as data: files to write back
/// (with the exact bytes), paths whose blob is missing, live files to
/// delete, and directories to remove, deepest first.
#[derive(Debug)]
pub struct RewindPlan {
    pub restore: Vec<(String, Vec<u8>)>,
    pub missing: Vec<String>,
    pub delete_files: Vec<String>,
    pub delete_dirs: Vec<String>,
}

impl RewindPlan {
    /// The plan lists exactly the restorable paths with their stored
    /// bytes, the missing-blob paths, the untracked live files, and the
    /// no-longer-implied directories ordered deepest first; each path
    /// once.
    pub open spec fn describes(
        &self,
        t: Map<Seq<char>, Seq<char>>,
        c: Map<Seq<char>, Seq<char>>,
        s: Map<Seq<char>, Seq<u8>>,
        dirs: Seq<String>,
    ) -> bool {
        &&& forall|k: int|
            0 <= k < self.restore@.len() ==> to_restore(t, c, s, (#[trigger] self.restore@[k]).0@)
                && self.restore@[k].1@ == s[t[self.restore@[k].0@]]
        &&& forall|p: Seq<char>| #[trigger] to_restore(t, c, s, p) ==> pairs_has(self.restore@, p)
        &&& forall|k1: int, k2: int|
            0 <= k1 < k2 < self.restore@.len() ==> self.restore@[k1].0@ != self.restore@[k2].0@
        &&& forall|k: int|
            0 <= k < self.missing@.len() ==> blob_missing(t, c, s, (#[trigger] self.missing@[k])@)
        &&& forall|p: Seq<char>| #[trigger] blob_missing(t, c, s, p) ==> vec_has(self.missing@, p)
        &&& forall|k1: int, k2: int|
            0 <= k1 < k2 < self.missing@.len() ==> self.missing@[k1]@ != self.missing@[k2]@
        &&& forall|k: int|
            0 <= k < self.delete_files@.len() ==> to_delete(t, c, (#[trigger] self.delete_files@[k])@)
        &&& forall|p: Seq<char>| #[trigger] to_delete(t, c, p) ==> vec_has(self.delete_files@, p)
        &&& forall|k1: int, k2: int|
            0 <= k1 < k2 < self.delete_files@.len() ==> self.delete_files@[k1]@
                != self.delete_files@[k2]@
        &&& forall|k: int|
            0 <= k < self.delete_dirs@.len() ==> vec_has(dirs, (#[trigger] self.delete_dirs@[k])@)
                && self.delete_dirs@[k]@.len() > 0 && !dir_required(t, self.delete_dirs@[k]@)
        &&& forall|j: int|
            0 <= j < dirs.len() && (#[trigger] dirs[j])@.len() > 0 && !dir_required(t, dirs[j]@)
                ==> vec_has(self.delete_dirs@, dirs[j]@)
        &&& forall|k1: int, k2: int|
            0 <= k1 < k2 < self.delete_dirs@.len() ==> self.delete_dirs@[k1]@.len()
                >= self.delete_dirs@[k2]@.len()
    }
}

/// An exact copy of a byte vector.
fn copy_bytes(src: &Vec<u8>) -> (r: Vec<u8>)
    ensures
        r@ == src@,
{
    let mut r: Vec<u8> = Vec::new();
    let n = src.len();
    let mut i: usize = 0;
    while i < n
        invariant
            n == src@.len(),
            i <= n,
            r@ =~= src@.subrange(0, i as int),
        decreases n - i,
    {
        r.push(src[i]);
        proof {
            assert(r@ =~= src@.subrange(0, i as int + 1));
        }
        i += 1;
    }
    proof {
        assert(r@ =~= src@);
    }
    r
}

/// Whether the target still needs directory `d` (see `dir_required`).
fn is_dir_needed(target: &PathMapping, d: &str) -> (r: bool)
    requires
        target.wf(),
    ensures
        r == dir_required(target@, d@),
{
    let n = target.len();
    let mut i: usize = 0;
    while i < n
        invariant
            target.wf(),
            n == target.seq().len(),
            i <= n,
            forall|j: int| 0 <= j < i ==> !dir_implied_by(d@, (#[trigger] target.seq()[j]).0@),
        decreases n - i,
    {
        let e = target.entry(i);
        if is_dir_implied(d, e.0.as_str()) {
            proof {
                target.lemma_at(i as int);
            }
            return true;
        }
        i += 1;
    }
    proof {
        if dir_required(target@, d@) {
            let p = choose|p: Seq<char>| target@.contains_key(p) && dir_implied_by(d@, p);
            target.lemma_contains(p);
            let j = choose|j: int| 0 <= j < target.seq().len() && target.seq()[j].0@ == p;
            assert(!dir_implied_by(d@, target.seq()[j].0@));
        }
    }
    false
}

/// Order directory paths so that a deeper (longer) path always comes
/// before a shallower one, keeping exactly the given paths.
fn sort_dirs_deepest_first(v: Vec<String>) -> (r: Vec<String>)
    ensures
        r@.len() == v@.len(),
        forall|p: Seq<char>| vec_has(r@, p) <==> vec_has(v@, p),
        forall|k1: int, k2: int| 0 <= k1 < k2 < r@.len() ==> r@[k1]@.len() >= r@[k2]@.len(),
{
    let mut rem = v;
    let mut r: Vec<String> = Vec::new();
    let ghost all = rem@;
    while rem.len() > 0
        invariant
            r@.len() + rem@.len() == all.len(),
            forall|k: int| 0 <= k < r@.len() ==> vec_has(all, (#[trigger] r@[k])@),
            forall|k: int| 0 <= k < rem@.len() ==> vec_has(all, (#[trigger] rem@[k])@),
            forall|p: Seq<char>| #[trigger] vec_has(all, p) ==> vec_has(r@, p) || vec_has(rem@, p),
            forall|k1: int, k2: int| 0 <= k1 < k2 < r@.len() ==> r@[k1]@.len() >= r@[k2]@.len(),
            forall|k: int, j: int|
                0 <= k < r@.len() && 0 <= j < rem@.len() ==> (#[trigger] r@[k])@.len()
                    >= (#[trigger] rem@[j])@.len(),
        decreases rem@.len(),
    {
        let mut best: usize = 0;
        let mut best_len = rem[0].as_str().unicode_len();
        let mut k: usize = 1;
        while k < rem.len()
            invariant
                rem@.len() > 0,
                best < k <= rem@.len() || (best == 0 && k <= rem@.len()),
                best < rem@.len(),
                best_len == rem@[best as int]@.len(),
                forall|j: int| 0 <= j < k ==> (#[trigger] rem@[j])@.len() <= best_len,
            decreases rem@.len() - k,
        {
            let l = rem[k].as_str().unicode_len();
            if l > best_len {
                best = k;
                best_len = l;
            }
            k += 1;
        }
        let ghost pre = rem@;
        let x = rem.swap_remove(best);
        let ghost pre_r = r@;
        r.push(x);
        proof {
            assert forall|p: Seq<char>| #[trigger] vec_has(all, p) implies vec_has(r@, p)
                || vec_has(rem@, p) by {
                if vec_has(pre_r, p) {
                    let k0 = choose|k0: int| 0 <= k0 < pre_r.len() && pre_r[k0]@ == p;
                    assert(r@[k0]@ == p);
                } else if vec_has(pre, p) {
                    let j = choose|j: int| 0 <= j < pre.len() && pre[j]@ == p;
                    if j == best {
                        assert(r@.last()@ == p);
                    } else if j == pre.len() - 1 {
                        assert(rem@[best as int]@ == p);
                    } else {
                        assert(rem@[j]@ == p);
                    }
                }
            }
        }
    }
    proof {
        assert forall|p: Seq<char>| vec_has(r@, p) implies vec_has(all, p) by {
            let k0 = choose|k0: int| 0 <= k0 < r@.len() && r@[k0]@ == p;
        }
    }
    r
}

/// Compute the plan that reconciles the live tree with the target
/// mapping: restore or overwrite every recorded path whose live content
/// differs (recording a missing-blob warning instead when the store lacks
/// the content), delete every live file the target does not record, and
/// remove every directory no longer implied, deepest first.
pub fn plan_rewind(
    target: &PathMapping,
    current: &PathMapping,
    current_dirs: &Vec<String>,
    store: &BlobStore,
) -> (plan: RewindPlan)
    requires
        target.wf(),
        current.wf(),
        store.wf(),
        forall|i: int, j: int|
            0 <= i < j < current_dirs@.len() ==> current_dirs@[i]@ != current_dirs@[j]@,
    ensures
        plan.describes(target@, current@, store@, current_dirs@),
{
    let ghost t = target@;
    let ghost c = current@;
    let ghost s = store@;

    let mut restore: Vec<(String, Vec<u8>)> = Vec::new();
    let mut missing: Vec<String> = Vec::new();
    let n = target.len();
    let mut i: usize = 0;
    while i < n
        invariant
            target.wf(),
            current.wf(),
            store.wf(),
            t == target@,
            c == current@,
            s == store@,
            n == target.seq().len(),
            i <= n,
            forall|k: int|
                0 <= k < restore@.len() ==> to_restore(t, c, s, (#[trigger] restore@[k]).0@)
                    && restore@[k].1@ == s[t[restore@[k].0@]],
            forall|k: int|
                0 <= k < restore@.len() ==> exists|j: int|
                    0 <= j < i && target.seq()[j].0@ == (#[trigger] restore@[k]).0@,
            forall|j: int|
                0 <= j < i && to_restore(t, c, s, (#[trigger] target.seq()[j]).0@) ==> pairs_has(
                    restore@,
                    target.seq()[j].0@,
                ),
            forall|k1: int, k2: int|
                0 <= k1 < k2 < restore@.len() ==> restore@[k1].0@ != restore@[k2].0@,
            forall|k: int|
                0 <= k < missing@.len() ==> blob_missing(t, c, s, (#[trigger] missing@[k])@),
            forall|k: int|
                0 <= k < missing@.len() ==> exists|j: int|
                    0 <= j < i && target.seq()[j].0@ == (#[trigger] missing@[k])@,
            forall|j: int|
                0 <= j < i && blob_missing(t, c, s, (#[trigger] target.seq()[j]).0@) ==> vec_has(
                    missing@,
                    target.seq()[j].0@,
                ),
            forall|k1: int, k2: int|
                0 <= k1 < k2 < missing@.len() ==> missing@[k1]@ != missing@[k2]@,
        decreases n - i,
    {
        let e = target.entry(i);
        proof {
            target.lemma_at(i as int);
        }
        let ghost key = target.seq()[i as int].0@;
        proof {
            assert forall|k: int|
                0 <= k < restore@.len() implies (#[trigger] restore@[k]).0@ != key by {
                let j = choose|j: int| 0 <= j < i && target.seq()[j].0@ == restore@[k].0@;
                assert(target.seq()[j].0@ != target.seq()[i as int].0@);
            }
            assert forall|k: int|
                0 <= k < missing@.len() implies (#[trigger] missing@[k])@ != key by {
                let j = choose|j: int| 0 <= j < i && target.seq()[j].0@ == missing@[k]@;
                assert(target.seq()[j].0@ != target.seq()[i as int].0@);
            }
        }
        let unchanged = match current.get(e.0.as_str()) {
            Some(h) => str_eq(h.as_str(), e.1.as_str()),
            None => false,
        };
        let ghost pre_restore = restore@;
        let ghost pre_missing = missing@;
        if !unchanged {
            match store.get(e.1.as_str()) {
                Some(b) => {
                    let bytes = copy_bytes(b);
                    restore.push((e.0.clone(), bytes));
                },
                None => {
                    missing.push(e.0.clone());
                },
            }
        }
        proof {
            assert forall|j: int|
                0 <= j < i + 1 && to_restore(t, c, s, (#[trigger] target.seq()[j]).0@) implies pairs_has(
                restore@,
                target.seq()[j].0@,
            ) by {
                if j < i {
                    let k = choose|k: int|
                        0 <= k < pre_restore.len() && pre_restore[k].0@ == target.seq()[j].0@;
                    assert(restore@[k].0@ == target.seq()[j].0@);
                } else {
                    assert(restore@.last().0@ == key);
                }
            }
            assert forall|j: int|
                0 <= j < i + 1 && blob_missing(t, c, s, (#[trigger] target.seq()[j]).0@) implies vec_has(
                missing@,
                target.seq()[j].0@,
            ) by {
                if j < i {
                    let k = choose|k: int|
                        0 <= k < pre_missing.len() && pre_missing[k]@ == target.seq()[j].0@;
                    assert(missing@[k]@ == target.seq()[j].0@);
                } else {
                    assert(missing@.last()@ == key);
                }
            }
        }
        i += 1;
    }
    proof {
        assert forall|p: Seq<char>| #[trigger] to_restore(t, c, s, p) implies pairs_has(
            restore@,
            p,
        ) by {
            target.lemma_contains(p);
            let j = choose|j: int| 0 <= j < target.seq().len() && target.seq()[j].0@ == p;
            assert(to_restore(t, c, s, target.seq()[j].0@));
        }
        assert forall|p: Seq<char>| #[trigger] blob_missing(t, c, s, p) implies vec_has(
            missing@,
            p,
        ) by {
            target.lemma_contains(p);
            let j = choose|j: int| 0 <= j < target.seq().len() && target.seq()[j].0@ == p;
            assert(blob_missing(t, c, s, target.seq()[j].0@));
        }
    }

    let mut delete_files: Vec<String> = Vec::new();
    let m = current.len();
    let mut i: usize = 0;
    while i < m
        invariant
            target.wf(),
            current.wf(),
            t == target@,
            c == current@,
            m == current.seq().len(),
            i <= m,
            forall|k: int|
                0 <= k < delete_files@.len() ==> to_delete(t, c, (#[trigger] delete_files@[k])@),
            forall|k: int|
                0 <= k < delete_files@.len() ==> exists|j: int|
                    0 <= j < i && current.seq()[j].0@ == (#[trigger] delete_files@[k])@,
            forall|j: int|
                0 <= j < i && to_delete(t, c, (#[trigger] current.seq()[j]).0@) ==> vec_has(
                    delete_files@,
                    current.seq()[j].0@,
                ),
            forall|k1: int, k2: int|
                0 <= k1 < k2 < delete_files@.len() ==> delete_files@[k1]@ != delete_files@[k2]@,
        decreases m - i,
    {
        let e = current.entry(i);
        proof {
            current.lemma_at(i as int);
            let key = current.seq()[i as int].0@;
            assert forall|k: int|
                0 <= k < delete_files@.len() implies (#[trigger] delete_files@[k])@ != key by {
                let j = choose|j: int| 0 <= j < i && current.seq()[j].0@ == delete_files@[k]@;
                assert(current.seq()[j].0@ != current.seq()[i as int].0@);
            }
        }
        let ghost pre_deleted = delete_files@;
        if !target.contains(e.0.as_str()) {
            delete_files.push(e.0.clone());
        }
        proof {
            let key = current.seq()[i as int].0@;
            assert forall|j: int|
                0 <= j < i + 1 && to_delete(t, c, (#[trigger] current.seq()[j]).0@) implies vec_has(
                delete_files@,
                current.seq()[j].0@,
            ) by {
                if j < i {
                    let k = choose|k: int|
                        0 <= k < pre_deleted.len() && pre_deleted[k]@ == current.seq()[j].0@;
                    assert(delete_files@[k]@ == current.seq()[j].0@);
                } else {
                    assert(delete_files@.last()@ == key);
                }
            }
        }
        i += 1;
    }
    proof {
        assert forall|p: Seq<char>| #[trigger] to_delete(t, c, p) implies vec_has(
            delete_files@,
            p,
        ) by {
            current.lemma_contains(p);
            let j = choose|j: int| 0 <= j < current.seq().len() && current.seq()[j].0@ == p;
            assert(to_delete(t, c, current.seq()[j].0@));
        }
    }

    let mut cands: Vec<String> = Vec::new();
    let dn = current_dirs.len();
    let mut i: usize = 0;
    while i < dn
        invariant
            target.wf(),
            t == target@,
            dn == current_dirs@.len(),
            i <= dn,
            forall|k: int|
                0 <= k < cands@.len() ==> vec_has(current_dirs@, (#[trigger] cands@[k])@)
                    && cands@[k]@.len() > 0 && !dir_required(t, cands@[k]@),
            forall|j: int|
                0 <= j < i && (#[trigger] current_dirs@[j])@.len() > 0 && !dir_required(
                    t,
                    current_dirs@[j]@,
                ) ==> vec_has(cands@, current_dirs@[j]@),
        decreases dn - i,
    {
        let d = &current_dirs[i];
        let ghost pre_cands = cands@;
        if d.as_str().unicode_len() > 0 && !is_dir_needed(target, d.as_str()) {
            cands.push(d.clone());
            proof {
                assert(vec_has(current_dirs@, cands@.last()@));
            }
        }
        proof {
            assert forall|j: int|
                0 <= j < i + 1 && (#[trigger] current_dirs@[j])@.len() > 0 && !dir_required(
                    t,
                    current_dirs@[j]@,
                ) implies vec_has(cands@, current_dirs@[j]@) by {
                if j < i {
                    let k = choose|k: int|
                        0 <= k < pre_cands.len() && pre_cands[k]@ == current_dirs@[j]@;
                    assert(cands@[k]@ == current_dirs@[j]@);
                } else {
                    assert(cands@.last()@ == current_dirs@[j]@);
                }
            }
        }
        i += 1;
    }
    let delete_dirs = sort_dirs_deepest_first(cands);
    proof {
        assert forall|k: int|
            0 <= k < delete_dirs@.len() implies vec_has(
            current_dirs@,
            (#[trigger] delete_dirs@[k])@,
        ) && delete_dirs@[k]@.len() > 0 && !dir_required(t, delete_dirs@[k]@) by {
            assert(vec_has(delete_dirs@, delete_dirs@[k]@));
            let k0 = choose|k0: int| 0 <= k0 < cands@.len() && cands@[k0]@ == delete_dirs@[k]@;
        }
        assert forall|j: int|
            0 <= j < current_dirs@.len() && (#[trigger] current_dirs@[j])@.len() > 0
                && !dir_required(t, current_dirs@[j]@) implies vec_has(
            delete_dirs@,
            current_dirs@[j]@,
        ) by {
            assert(vec_has(cands@, current_dirs@[j]@));
        }
    }

    RewindPlan { restore, missing, delete_files, delete_dirs }
}

/// The rewind command: resolve the target selector, then compute the plan
/// against the live scan.  Selector errors abort before any plan is made.
pub fn rewind(
    index: &SnapshotIndex,
    tags: &TagMap,
    sel: &Option<RewindSelector>,
    current: &PathMapping,
    current_dirs: &Vec<String>,
    store: &BlobStore,
) -> (r: Result<(u32, RewindPlan), FttError>)
    requires
        index.wf(),
        current.wf(),
        store.wf(),
        forall|i: int, j: int|
            0 <= i < j < current_dirs@.len() ==> current_dirs@[i]@ != current_dirs@[j]@,
    ensures
        match r {
            Ok(pair) => spec_resolve_rewind(tags@, index.snapshots().len() as int, *sel)
                == Result::<u32, FttError>::Ok(pair.0) && pair.1.describes(
                index.snapshots()[pair.0 as int - 1].files@,
                current@,
                store@,
                current_dirs@,
            ) && (pair.1.missing@.len() == 0 ==> rewind_outcome(
                index.snapshots()[pair.0 as int - 1].files@,
                current@,
                store@,
            ) == index.snapshots()[pair.0 as int - 1].files@),
            Err(e) => spec_resolve_rewind(tags@, index.snapshots().len() as int, *sel) == Result::<
                u32,
                FttError,
            >::Err(e),
        },
{
    let id = match resolve_rewind(index, tags, sel) {
        Ok(id) => id,
        Err(e) => { return Err(e); },
    };
    let snap = index.get((id - 1) as usize);
    let plan = plan_rewind(&snap.files, current, current_dirs, store);
    proof {
        store.lemma_consistent();
        if plan.missing@.len() == 0 {
            lemma_rewind_applies(&plan, snap.files@, current@, store@, current_dirs@);
        }
    }
    Ok((id, plan))
}

/// The live mapping a rewind leaves behind, given the target, the live
/// scan and the blob store: every restorable path carries the fingerprint
/// of the bytes written back, every unchanged recorded path keeps its
/// live fingerprint, every other live path is gone.  A path whose blob is
/// missing is left untouched only in the sense that it drops out of this
/// mapping's guarantee.
pub open spec fn rewind_outcome(
    t: Map<Seq<char>, Seq<char>>,
    c: Map<Seq<char>, Seq<char>>,
    s: Map<Seq<char>, Seq<u8>>,
) -> Map<Seq<char>, Seq<char>> {
    Map::new(
        |p: Seq<char>| t.contains_key(p) && (!needs_restore(t, c, p) || s.contains_key(t[p])),
        |p: Seq<char>|
            if needs_restore(t, c, p) {
                fingerprint_of(s[t[p]])
            } else {
                c[p]
            },
    )
}

/// Rewind correctness: when no blob is missing, executing a described
/// plan leaves a live mapping equal to the target, exactly.
pub proof fn lemma_rewind_applies(
    plan: &RewindPlan,
    t: Map<Seq<char>, Seq<char>>,
    c: Map<Seq<char>, Seq<char>>,
    s: Map<Seq<char>, Seq<u8>>,
    dirs: Seq<String>,
)
    requires
        plan.describes(t, c, s, dirs),
        plan.missing@.len() == 0,
        forall|f: Seq<char>| s.contains_key(f) ==> fingerprint_of(#[trigger] s[f]) == f,
    ensures
        rewind_outcome(t, c, s) == t,
{
    assert forall|p: Seq<char>| #[trigger] t.contains_key(p) implies s.contains_key(t[p])
        || !needs_restore(t, c, p) by {
        if needs_restore(t, c, p) && !s.contains_key(t[p]) {
            assert(blob_missing(t, c, s, p));
            let k = choose|k: int| 0 <= k < plan.missing@.len() && plan.missing@[k]@ == p;
        }
    }
    assert(rewind_outcome(t, c, s) =~= t);
}

/// Rewind idempotence: when the live tree already matches the target and
/// every live directory is still implied, the plan performs zero writes
/// and zero deletions.
pub proof fn lemma_rewind_idempotent(
    plan: &RewindPlan,
    t: Map<Seq<char>, Seq<char>>,
    s: Map<Seq<char>, Seq<u8>>,
    dirs: Seq<String>,
)
    requires
        plan.describes(t, t, s, dirs),
        forall|j: int|
            0 <= j < dirs.len() ==> (#[trigger] dirs[j])@.len() == 0 || dir_required(t, dirs[j]@),
    ensures
        plan.restore@.len() == 0,
        plan.missing@.len() == 0,
        plan.delete_files@.len() == 0,
        plan.delete_dirs@.len() == 0,
{
    if plan.restore@.len() > 0 {
        assert(to_restore(t, t, s, plan.restore@[0].0@));
    }
    if plan.missing@.len() > 0 {
        assert(blob_missing(t, t, s, plan.missing@[0]@));
    }
    if plan.delete_files@.len() > 0 {
        assert(to_delete(t, t, plan.delete_files@[0]@));
    }
    if plan.delete_dirs@.len() > 0 {
        let d = plan.delete_dirs@[0]@;
        assert(vec_has(dirs, d) && d.len() > 0 && !dir_required(t, d));
        let j = choose|j: int| 0 <= j < dirs.len() && dirs[j]@ == d;
        assert(dirs[j]@ == d);
    }
}

/// Round trip: a mapping whose every fingerprint the store holds (as a
/// save leaves the store) rewinds onto an identical tree unchanged.
pub proof fn lemma_round_trip(t: Map<Seq<char>, Seq<char>>, s: Map<Seq<char>, Seq<u8>>)
    requires
        forall|f: Seq<char>| s.contains_key(f) ==> fingerprint_of(#[trigger] s[f]) == f,
        forall|p: Seq<char>| #[trigger] t.contains_key(p) ==> s.contains_key(t[p]),
    ensures
        rewind_outcome(t, t, s) == t,
{
    assert(rewind_outcome(t, t, s) =~= t);
}

} // verus!
