use vstd::prelude::*;
use crate::fingerprint::fingerprint;
use crate::fingerprint::fingerprint_of;
use crate::ignore::IgnoreSet;
use crate::ignore::should_ignore;
use crate::ignore::spec_should_ignore;
use crate::index::PathMapping;
use crate::index::SnapshotIndex;
use crate::kv::StrMap;
use crate::store::BlobStore;
use crate::strs::is_prefix;
use crate::strs::str_starts_with;

verus! {

/// A walked path belongs to the tracked set when it is not under the
/// metadata directory and no ignore rule matches it.
pub open spec fn tracked_path(p: Seq<char>, rules: Seq<Seq<char>>) -> bool {
    !is_prefix(p, ".ftt"@) && !spec_should_ignore(p, rules)
}

/// Whether a walked path is tracked (see `tracked_path`).
pub fn is_tracked(path: &str, rules: &IgnoreSet) -> (r: bool)
    ensures
        r == tracked_path(path@, rules@),
{
    !str_starts_with(path, ".ftt") && !should_ignore(path, rules)
}

/// What a scan of walked files yields: exactly the tracked paths, each
/// mapped to the fingerprint of its content.
pub open spec fn scan_describes(
    m: Map<Seq<char>, Seq<char>>,
    files: Seq<(String, Vec<u8>)>,
    rules: Seq<Seq<char>>,
) -> bool {
    &&& forall|i: int|
        0 <= i < files.len() && tracked_path((#[trigger] files[i]).0@, rules) ==> m.contains_key(
            files[i].0@,
        ) && m[files[i].0@] == fingerprint_of(files[i].1@)
    &&& forall|p: Seq<char>|
        #[trigger] m.contains_key(p) ==> exists|i: int|
            0 <= i < files.len() && files[i].0@ == p && tracked_path(p, rules)
}

/// Scanning is deterministic: two mappings that a scan of the same walked
/// files yields are equal, bit for bit.
pub proof fn lemma_scan_deterministic(
    m1: Map<Seq<char>, Seq<char>>,
    m2: Map<Seq<char>, Seq<char>>,
    files: Seq<(String, Vec<u8>)>,
    rules: Seq<Seq<char>>,
)
    requires
        scan_describes(m1, files, rules),
        scan_describes(m2, files, rules),
        forall|i: int, j: int| 0 <= i < j < files.len() ==> files[i].0@ != files[j].0@,
    ensures
        m1 == m2,
{
    assert forall|p: Seq<char>| m1.contains_key(p) implies m2.contains_key(p) && m1[p]
        == m2[p] by {
        let i = choose|i: int|
            0 <= i < files.len() && files[i].0@ == p && tracked_path(p, rules);
        assert(tracked_path(files[i].0@, rules));
    }
    assert forall|p: Seq<char>| m2.contains_key(p) implies m1.contains_key(p) by {
        let i = choose|i: int|
            0 <= i < files.len() && files[i].0@ == p && tracked_path(p, rules);
        assert(tracked_path(files[i].0@, rules));
    }
    assert(m1 =~= m2);
}

/// Produce the path-to-fingerprint mapping of a walk: every tracked input
/// path mapped to the fingerprint of its content; paths under the metadata
/// directory and ignored paths are excluded.  The caller's walk yields
/// each path at most once.
pub fn scan(files: &Vec<(String, Vec<u8>)>, rules: &IgnoreSet) -> (m: PathMapping)
    requires
        forall|i: int, j: int| 0 <= i < j < files@.len() ==> files@[i].0@ != files@[j].0@,
    ensures
        m.wf(),
        forall|i: int|
            0 <= i < files@.len() && tracked_path((#[trigger] files@[i]).0@, rules@)
                ==> m@.contains_key(files@[i].0@) && m@[files@[i].0@] == fingerprint_of(
                files@[i].1@,
            ),
        forall|p: Seq<char>|
            #[trigger] m@.contains_key(p) ==> exists|i: int|
                0 <= i < files@.len() && files@[i].0@ == p && tracked_path(p, rules@),
        scan_describes(m@, files@, rules@),
{
    let n = files.len();
    let mut m = StrMap::<String>::new();
    let mut i: usize = 0;
    while i < n
        invariant
            forall|a: int, b: int| 0 <= a < b < files@.len() ==> files@[a].0@ != files@[b].0@,
            n == files@.len(),
            i <= n,
            m.wf(),
            forall|j: int|
                0 <= j < i && tracked_path((#[trigger] files@[j]).0@, rules@) ==> m@.contains_key(
                    files@[j].0@,
                ) && m@[files@[j].0@] == fingerprint_of(files@[j].1@),
            forall|p: Seq<char>|
                #[trigger] m@.contains_key(p) ==> exists|j: int|
                    0 <= j < i && files@[j].0@ == p && tracked_path(p, rules@),
        decreases n - i,
    {
        let e = &files[i];
        if is_tracked(e.0.as_str(), rules) {
            let f = fingerprint(e.1.as_slice());
            proof {
                if m@.contains_key(e.0@) {
                    let j = choose|j: int|
                        0 <= j < i && files@[j].0@ == e.0@ && tracked_path(e.0@, rules@);
                    assert(files@[j].0@ != files@[i as int].0@);
                }
            }
            m.insert_new(e.0.clone(), f);
        }
        i += 1;
    }
    m
}

/// The save operation: scan the walked files, persist every tracked
/// file's content into the blob store (skipping fingerprints already
/// stored, never overwriting), then append the snapshot under the next
/// id.  Blob writes complete before the index gains the entry, so the
/// index never references a missing blob.
pub fn save_snapshot(
    index: &mut SnapshotIndex,
    store: &mut BlobStore,
    files: Vec<(String, Vec<u8>)>,
    rules: &IgnoreSet,
) -> (id: u32)
    requires
        old(index).wf(),
        old(store).wf(),
        old(index).snapshots().len() < u32::MAX as int,
        forall|i: int, j: int| 0 <= i < j < files@.len() ==> files@[i].0@ != files@[j].0@,
    ensures
        final(index).wf(),
        final(store).wf(),
        id as int == old(index).snapshots().len() + 1,
        final(index).snapshots().len() == old(index).snapshots().len() + 1,
        final(index).snapshots() == old(index).snapshots().push(final(index).snapshots().last()),
        final(index).snapshots().last().id == id,
        // the new snapshot records exactly the tracked files, by fingerprint
        forall|i: int|
            0 <= i < files@.len() && tracked_path((#[trigger] files@[i]).0@, rules@)
                ==> final(index).snapshots().last().files@.contains_key(files@[i].0@)
                && final(index).snapshots().last().files@[files@[i].0@]
                == fingerprint_of(files@[i].1@),
        forall|p: Seq<char>|
            #[trigger] final(index).snapshots().last().files@.contains_key(p) ==> exists|i: int|
                0 <= i < files@.len() && files@[i].0@ == p && tracked_path(p, rules@),
        scan_describes(final(index).snapshots().last().files@, files@, rules@),
        // write-once: stored objects are never replaced
        forall|f: Seq<char>|
            old(store)@.contains_key(f) ==> final(store)@.contains_key(f) && final(store)@[f]
                == old(store)@[f],
        // every fingerprint the new snapshot references is stored
        forall|p: Seq<char>|
            #[trigger] final(index).snapshots().last().files@.contains_key(p)
                ==> final(store)@.contains_key(final(index).snapshots().last().files@[p]),
        // nothing beyond the old objects and the walked contents appears
        forall|f: Seq<char>|
            #[trigger] final(store)@.contains_key(f) ==> old(store)@.contains_key(f)
                || exists|i: int|
                0 <= i < files@.len() && tracked_path(files@[i].0@, rules@) && fingerprint_of(
                    files@[i].1@,
                ) == f,
{
    let m = scan(&files, rules);
    let n = files.len();
    let mut files = files;
    let ghost all = files@;
    let ghost orig = store@;
    let mut i: usize = 0;
    while i < n
        invariant
            store.wf(),
            n == all.len(),
            i <= n,
            files@ =~= all.skip(i as int),
            forall|f: Seq<char>|
                #[trigger] orig.contains_key(f) ==> store@.contains_key(f) && store@[f] == orig[f],
            forall|j: int|
                0 <= j < i && tracked_path((#[trigger] all[j]).0@, rules@) ==> store@.contains_key(
                    fingerprint_of(all[j].1@),
                ),
            forall|f: Seq<char>|
                #[trigger] store@.contains_key(f) ==> orig.contains_key(f) || exists|j: int|
                    0 <= j < i && tracked_path(all[j].0@, rules@) && fingerprint_of(all[j].1@) == f,
        decreases n - i,
    {
        let (path, bytes) = files.remove(0);
        let ghost this = all[i as int];
        let ghost pre_store = store@;
        if is_tracked(path.as_str(), rules) {
            let f = store.insert_content(bytes);
            proof {
                assert(f@ == fingerprint_of(this.1@));
                assert forall|f2: Seq<char>| orig.contains_key(f2) implies store@.contains_key(
                    f2,
                ) && store@[f2] == orig[f2] by {
                    assert(pre_store.contains_key(f2) && pre_store[f2] == orig[f2]);
                }
            }
        }
        proof {
            assert(files@ =~= all.skip(i as int + 1));
        }
        i += 1;
    }
    proof {
        assert(orig == old(store)@);
        assert forall|f: Seq<char>| old(store)@.contains_key(f) implies store@.contains_key(f)
            && store@[f] == old(store)@[f] by {
            assert(orig.contains_key(f));
        }
    }
    let id = index.append(m);
    proof {
        let last = index.snapshots().last();
        assert forall|p: Seq<char>| #[trigger] last.files@.contains_key(p) implies store@.contains_key(
            last.files@[p],
        ) by {
            let j = choose|j: int|
                0 <= j < all.len() && all[j].0@ == p && tracked_path(p, rules@);
            assert(tracked_path(all[j].0@, rules@));
            assert(last.files@[p] == fingerprint_of(all[j].1@));
        }
    }
    id
}

} // verus!
