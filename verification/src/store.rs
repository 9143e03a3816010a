use vstd::prelude::*;
use crate::kv::StrMap;
use crate::fingerprint::fingerprint;
use crate::fingerprint::fingerprint_of;

verus! {

/// Content-addressed, write-once storage of raw file bytes, keyed by the
/// fingerprint of those bytes.
pub struct BlobStore {
    map: StrMap<Vec<u8>>,
}

impl View for BlobStore {
    type V = Map<Seq<char>, Seq<u8>>;

    closed spec fn view(&self) -> Map<Seq<char>, Seq<u8>> {
        self.map@
    }
}

/// What one `put` leaves in a store: nothing when the fingerprint is
/// already present (dedup), the new object otherwise.  Never an overwrite.
pub open spec fn spec_put(m: Map<Seq<char>, Seq<u8>>, f: Seq<char>, b: Seq<u8>) -> Map<
    Seq<char>,
    Seq<u8>,
> {
    if m.contains_key(f) {
        m
    } else {
        m.insert(f, b)
    }
}

/// Dedup by construction: storing the same content twice leaves the store
/// exactly as one store left it.
pub proof fn lemma_put_idempotent(m: Map<Seq<char>, Seq<u8>>, f: Seq<char>, b: Seq<u8>)
    ensures
        spec_put(spec_put(m, f, b), f, b) == spec_put(m, f, b),
{
}

/// Raw objects rebuild into a store exactly when each sits under the
/// fingerprint of its own bytes and no fingerprint repeats.
pub open spec fn valid_objects(objects: Seq<(String, Vec<u8>)>) -> bool {
    &&& forall|i: int|
        0 <= i < objects.len() ==> (#[trigger] objects[i]).0@ == fingerprint_of(objects[i].1@)
    &&& crate::kv::distinct_keys(objects)
}

impl BlobStore {
    /// Every object sits under the fingerprint of its own bytes.
    pub closed spec fn wf(&self) -> bool {
        &&& self.map.wf()
        &&& forall|f: Seq<char>|
            self.map@.contains_key(f) ==> fingerprint_of(#[trigger] self.map@[f]) == f
    }

    pub fn new() -> (r: Self)
        ensures
            r.wf(),
            r@ == Map::<Seq<char>, Seq<u8>>::empty(),
    {
        BlobStore { map: StrMap::new() }
    }

    /// Content addressing: every stored object fingerprints back to its
    /// own key.
    pub proof fn lemma_consistent(&self)
        requires
            self.wf(),
        ensures
            forall|f: Seq<char>|
                self@.contains_key(f) ==> fingerprint_of(#[trigger] self@[f]) == f,
    {
    }

    /// How many distinct objects the store holds.
    pub fn len(&self) -> (n: usize)
        requires
            self.wf(),
        ensures
            n as int == self@.dom().len(),
    {
        proof {
            self.map.lemma_card();
        }
        self.map.len()
    }

    /// The stored objects, in insertion order.
    pub closed spec fn objects(&self) -> Seq<(String, Vec<u8>)> {
        self.map.seq()
    }

    pub fn object_count(&self) -> (n: usize)
        ensures
            n == self.objects().len(),
    {
        self.map.len()
    }

    pub fn object_at(&self, i: usize) -> (e: &(String, Vec<u8>))
        requires
            i < self.objects().len(),
        ensures
            *e == self.objects()[i as int],
    {
        self.map.entry(i)
    }

    pub fn contains(&self, f: &str) -> (r: bool)
        ensures
            r == self@.contains_key(f@),
    {
        self.map.contains(f)
    }

    /// Return the stored bytes for a fingerprint, or signal absence.
    /// Content addressing guarantees that returned bytes fingerprint back
    /// to the key.
    pub fn get<'a>(&'a self, f: &str) -> (r: Option<&'a Vec<u8>>)
        requires
            self.wf(),
        ensures
            match r {
                Some(b) => self@.contains_key(f@) && b@ == self@[f@] && fingerprint_of(b@) == f@,
                None => !self@.contains_key(f@),
            },
    {
        self.map.get(f)
    }

    /// Store bytes under a fingerprint: a no-op when an object already
    /// exists under it, a new object otherwise.
    pub fn put(&mut self, f: String, bytes: Vec<u8>)
        requires
            old(self).wf(),
            f@ == fingerprint_of(bytes@),
        ensures
            final(self).wf(),
            final(self)@ == spec_put(old(self)@, f@, bytes@),
    {
        if self.map.contains(f.as_str()) {
        } else {
            self.map.insert_new(f, bytes);
        }
    }

    /// Store bytes under their own fingerprint, which is returned.
    pub fn insert_content(&mut self, bytes: Vec<u8>) -> (f: String)
        requires
            old(self).wf(),
        ensures
            final(self).wf(),
            f@ == fingerprint_of(bytes@),
            final(self)@ == spec_put(old(self)@, f@, bytes@),
    {
        let f = fingerprint(bytes.as_slice());
        let key = f.clone();
        self.put(key, bytes);
        f
    }

    /// Rebuild a store from raw objects; accepted exactly when every
    /// object sits under the fingerprint of its own bytes and no
    /// fingerprint appears twice.  The rebuilt store holds the given
    /// objects and nothing else.
    #[verifier::loop_isolation(false)]
    pub fn from_objects(objects: Vec<(String, Vec<u8>)>) -> (r: Option<Self>)
        ensures
            match r {
                Some(s) => {
                    &&& valid_objects(objects@)
                    &&& s.wf()
                    &&& forall|i: int|
                        0 <= i < objects@.len() ==> s@.contains_key((#[trigger] objects@[i]).0@)
                            && s@[objects@[i].0@] == objects@[i].1@
                    &&& forall|f: Seq<char>|
                        #[trigger] s@.contains_key(f) ==> exists|i: int|
                            0 <= i < objects@.len() && objects@[i].0@ == f
                },
                None => !valid_objects(objects@),
            },
    {
        let mut store = BlobStore::new();
        let n = objects.len();
        let mut objects = objects;
        let ghost all = objects@;
        let mut i: usize = 0;
        // consume from the front so each object's bytes can be moved
        while i < n
            invariant
                store.wf(),
                n == all.len(),
                i <= n,
                objects@ =~= all.skip(i as int),
                forall|j: int| 0 <= j < i ==> (#[trigger] all[j]).0@ == fingerprint_of(all[j].1@),
                forall|a: int, b: int| 0 <= a < b < i ==> all[a].0@ != all[b].0@,
                forall|j: int|
                    0 <= j < i ==> store@.contains_key((#[trigger] all[j]).0@) && store@[all[j].0@]
                        == all[j].1@,
                forall|f: Seq<char>|
                    #[trigger] store@.contains_key(f) ==> exists|j: int|
                        0 <= j < i && all[j].0@ == f,
            decreases n - i,
        {
            let (key, bytes) = objects.remove(0);
            let f = fingerprint(bytes.as_slice());
            if !crate::strs::str_eq(key.as_str(), f.as_str()) {
                proof {
                    assert(all[i as int].0@ != fingerprint_of(all[i as int].1@));
                }
                return None;
            }
            if store.contains(key.as_str()) {
                proof {
                    let j = choose|j: int| 0 <= j < i && all[j].0@ == key@;
                    assert(all[j].0@ == all[i as int].0@);
                }
                return None;
            }
            let ghost pre = store@;
            store.put(key, bytes);
            proof {
                assert(all[i as int].0@ == f@);
                assert(store@ == pre.insert(all[i as int].0@, all[i as int].1@));
                assert forall|a: int, b: int| 0 <= a < b < i + 1 implies all[a].0@ != all[b].0@ by {
                    if b == i {
                        assert(pre.contains_key(all[a].0@));
                    }
                }
                assert(objects@ =~= all.skip(i as int + 1));
            }
            i += 1;
        }
        Some(store)
    }
}

} // verus!
