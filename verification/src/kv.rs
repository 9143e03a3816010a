use vstd::prelude::*;
use crate::strs::str_eq;

verus! {

/// The mathematical content of a key/value entry list.  Entries are read
/// oldest first; a later entry for the same key supersedes an earlier one.
pub open spec fn map_of<V: View>(entries: Seq<(String, V)>) -> Map<Seq<char>, V::V>
    decreases entries.len(),
{
    if entries.len() == 0 {
        Map::<Seq<char>, V::V>::empty()
    } else {
        map_of(entries.drop_last()).insert(entries.last().0@, entries.last().1@)
    }
}

pub proof fn lemma_map_of_contains<V: View>(entries: Seq<(String, V)>, p: Seq<char>)
    ensures
        map_of(entries).contains_key(p) <==> exists|i: int|
            0 <= i < entries.len() && entries[i].0@ == p,
    decreases entries.len(),
{
    if entries.len() > 0 {
        let pre = entries.drop_last();
        lemma_map_of_contains(pre, p);
        if entries.last().0@ == p {
            assert(entries[entries.len() - 1].0@ == p);
        } else {
            if map_of(entries).contains_key(p) {
                let i = choose|i: int| 0 <= i < pre.len() && pre[i].0@ == p;
                assert(entries[i].0@ == p);
            }
            if exists|i: int| 0 <= i < entries.len() && entries[i].0@ == p {
                let i = choose|i: int| 0 <= i < entries.len() && entries[i].0@ == p;
                assert(i < entries.len() - 1);
                assert(pre[i].0@ == p);
            }
        }
    }
}

pub proof fn lemma_map_of_value<V: View>(entries: Seq<(String, V)>, i: int)
    requires
        0 <= i < entries.len(),
        forall|j: int| i < j < entries.len() ==> entries[j].0@ != entries[i].0@,
    ensures
        map_of(entries).contains_key(entries[i].0@),
        map_of(entries)[entries[i].0@] == entries[i].1@,
    decreases entries.len(),
{
    if i == entries.len() - 1 {
    } else {
        let pre = entries.drop_last();
        assert(pre[i] == entries[i]);
        assert forall|j: int| i < j < pre.len() implies pre[j].0@ != pre[i].0@ by {
            assert(pre[j] == entries[j]);
        }
        lemma_map_of_value(pre, i);
        assert(entries[entries.len() - 1].0@ != entries[i].0@);
    }
}

pub proof fn lemma_map_of_card<V: View>(entries: Seq<(String, V)>)
    requires
        forall|i: int, j: int| 0 <= i < j < entries.len() ==> entries[i].0@ != entries[j].0@,
    ensures
        map_of(entries).dom().finite(),
        map_of(entries).dom().len() == entries.len(),
    decreases entries.len(),
{
    if entries.len() > 0 {
        let pre = entries.drop_last();
        assert forall|i: int, j: int| 0 <= i < j < pre.len() implies pre[i].0@ != pre[j].0@ by {
            assert(entries[i].0@ != entries[j].0@);
        }
        lemma_map_of_card(pre);
        lemma_map_of_contains(pre, entries.last().0@);
        if map_of(pre).contains_key(entries.last().0@) {
            let i = choose|i: int| 0 <= i < pre.len() && pre[i].0@ == entries.last().0@;
            assert(entries[i].0@ != entries[entries.len() - 1].0@);
        }
        assert(map_of(entries).dom() =~= map_of(pre).dom().insert(entries.last().0@));
    }
}

/// Keys of the entry list are pairwise distinct.
pub open spec fn distinct_keys<V>(entries: Seq<(String, V)>) -> bool {
    forall|a: int, b: int| 0 <= a < b < entries.len() ==> entries[a].0@ != entries[b].0@
}

/// A string-keyed association list whose model is a `Map` from character
/// sequences to the values' views.  Backs the path-to-fingerprint mappings,
/// the tag registry and the blob store.
pub struct StrMap<V> {
    entries: Vec<(String, V)>,
}

impl<V: View> View for StrMap<V> {
    type V = Map<Seq<char>, V::V>;

    closed spec fn view(&self) -> Map<Seq<char>, V::V> {
        map_of(self.entries@)
    }
}

impl<V: View> StrMap<V> {
    /// The underlying entry sequence, oldest first.
    pub closed spec fn seq(&self) -> Seq<(String, V)> {
        self.entries@
    }

    /// Keys are pairwise distinct.
    pub open spec fn wf(&self) -> bool {
        distinct_keys(self.seq())
    }

    /// A key is in the model exactly when some entry carries it.
    pub proof fn lemma_contains(&self, p: Seq<char>)
        ensures
            self@.contains_key(p) <==> exists|i: int|
                0 <= i < self.seq().len() && self.seq()[i].0@ == p,
    {
        lemma_map_of_contains(self.seq(), p);
        assert(self@ == map_of(self.seq()));
    }

    /// With distinct keys the model holds exactly one pair per entry.
    pub proof fn lemma_card(&self)
        requires
            self.wf(),
        ensures
            self@.dom().finite(),
            self@.dom().len() == self.seq().len(),
    {
        lemma_map_of_card(self.seq());
        assert(self@ == map_of(self.seq()));
    }

    /// With distinct keys, each entry is the model's value for its key.
    pub proof fn lemma_at(&self, i: int)
        requires
            self.wf(),
            0 <= i < self.seq().len(),
    ensures
            self@.contains_key(self.seq()[i].0@),
            self@[self.seq()[i].0@] == self.seq()[i].1@,
    {
        lemma_map_of_value(self.seq(), i);
        assert(self@ == map_of(self.seq()));
    }

    pub fn new() -> (r: Self)
        ensures
            r@ == Map::<Seq<char>, V::V>::empty(),
            r.seq().len() == 0,
            r.wf(),
    {
        StrMap { entries: Vec::new() }
    }

    pub fn len(&self) -> (n: usize)
        ensures
            n == self.seq().len(),
    {
        self.entries.len()
    }

    pub fn entry(&self, i: usize) -> (e: &(String, V))
        requires
            i < self.seq().len(),
        ensures
            *e == self.seq()[i as int],
    {
        &self.entries[i]
    }

    /// Look the key up; the newest entry for it is authoritative.
    pub fn get<'a>(&'a self, key: &str) -> (r: Option<&'a V>)
        ensures
            match r {
                Some(v) => self@.contains_key(key@) && v@ == self@[key@],
                None => !self@.contains_key(key@),
            },
    {
        let mut i: usize = self.entries.len();
        while i > 0
            invariant
                i <= self.entries@.len(),
                forall|j: int| i <= j < self.entries@.len() ==> self.entries@[j].0@ != key@,
            decreases i,
        {
            i -= 1;
            if str_eq(self.entries[i].0.as_str(), key) {
                proof {
                    assert forall|j: int|
                        i < j < self.entries@.len() implies self.entries@[j].0@
                        != self.entries@[i as int].0@ by {}
                    lemma_map_of_value(self.entries@, i as int);
                }
                return Some(&self.entries[i].1);
            }
        }
        proof {
            lemma_map_of_contains(self.entries@, key@);
        }
        None
    }

    pub fn contains(&self, key: &str) -> (r: bool)
        ensures
            r == self@.contains_key(key@),
    {
        self.get(key).is_some()
    }

    /// Insert a key that is not yet present.
    pub fn insert_new(&mut self, key: String, value: V)
        requires
            !old(self)@.contains_key(key@),
        ensures
            final(self)@ == old(self)@.insert(key@, value@),
            final(self).seq() == old(self).seq().push((key, value)),
            old(self).wf() ==> final(self).wf(),
    {
        proof {
            lemma_map_of_contains(self.entries@, key@);
        }
        let ghost pre = self.entries@;
        self.entries.push((key, value));
        proof {
            assert(self.entries@.drop_last() =~= pre);
            if old(self).wf() {
                assert(pre =~= old(self).seq());
                assert forall|i: int, j: int|
                    0 <= i < j < self.seq().len() implies self.seq()[i].0@ != self.seq()[j].0@ by {
                    if j < self.seq().len() - 1 {
                        assert(old(self).seq()[i].0@ != old(self).seq()[j].0@);
                        assert(pre[i].0@ != pre[j].0@);
                    } else {
                        assert(old(self).seq()[i].0@ != key@);
                        assert(pre[i].0@ != key@);
                    }
                }
            }
        }
    }

    /// Insert unconditionally; at the model level the new value replaces
    /// any present one.
    pub fn put_last(&mut self, key: String, value: V)
        ensures
            final(self)@ == old(self)@.insert(key@, value@),
            final(self).seq() == old(self).seq().push((key, value)),
    {
        let ghost pre = self.entries@;
        self.entries.push((key, value));
        proof {
            assert(self.entries@.drop_last() =~= pre);
        }
    }

    /// Adopt an entry list as it stands (later entries win).
    pub fn from_entries(entries: Vec<(String, V)>) -> (r: Self)
        ensures
            r.seq() == entries@,
            r@ == map_of(entries@),
    {
        StrMap { entries }
    }

    /// Adopt an entry list after checking that its keys are distinct;
    /// refuse it otherwise.
    pub fn from_entries_unique(entries: Vec<(String, V)>) -> (r: Option<Self>)
        ensures
            match r {
                Some(m) => m.seq() == entries@ && m@ == map_of(entries@) && m.wf(),
                None => !distinct_keys(entries@),
            },
    {
        let n = entries.len();
        let mut i: usize = 0;
        while i < n
            invariant
                n == entries@.len(),
                i <= n,
                forall|a: int, b: int| 0 <= a < b < i ==> entries@[a].0@ != entries@[b].0@,
                forall|a: int, b: int| 0 <= a < i && a < b < n ==> entries@[a].0@ != entries@[b].0@,
            decreases n - i,
        {
            let mut j: usize = i + 1;
            while j < n
                invariant
                    n == entries@.len(),
                    i < j <= n,
                    forall|b: int| i < b < j ==> entries@[i as int].0@ != entries@[b].0@,
                decreases n - j,
            {
                if str_eq(entries[i].0.as_str(), entries[j].0.as_str()) {
                    return None;
                }
                j += 1;
            }
            i += 1;
        }
        Some(StrMap { entries })
    }
}

} // verus!
