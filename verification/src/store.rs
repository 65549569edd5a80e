use vstd::prelude::*;
use crate::error::AppError;
use crate::url_fsm::str_eq;

verus! {

/// The keyed-blob map held by a sequence of entries, later entries taking
/// precedence.
pub open spec fn store_map(s: Seq<(String, Vec<u8>)>) -> Map<Seq<char>, Seq<u8>>
    decreases s.len(),
{
    if s.len() == 0 {
        Map::empty()
    } else {
        store_map(s.drop_last()).insert(s.last().0@, s.last().1@)
    }
}

pub open spec fn store_keys_unique(s: Seq<(String, Vec<u8>)>) -> bool {
    forall|i: int, j: int| 0 <= i < j < s.len() ==> s[i].0@ != s[j].0@
}

proof fn lemma_store_map_domain(s: Seq<(String, Vec<u8>)>)
    ensures
        forall|k: Seq<char>| #[trigger] store_map(s).contains_key(k) <==> (exists|i: int|
            0 <= i < s.len() && #[trigger] s[i].0@ == k),
    decreases s.len(),
{
    if s.len() > 0 {
        lemma_store_map_domain(s.drop_last());
        assert forall|k: Seq<char>| #[trigger] store_map(s).contains_key(k) implies (exists|
            i: int,
        |
            0 <= i < s.len() && #[trigger] s[i].0@ == k) by {
            if s.last().0@ == k {
                assert(s[s.len() - 1].0@ == k);
            } else {
                assert(store_map(s.drop_last()).contains_key(k));
                let i = choose|i: int| 0 <= i < s.drop_last().len() && #[trigger] s.drop_last()[i].0@
                    == k;
                assert(s.drop_last()[i] == s[i]);
                assert(s[i].0@ == k);
            }
        }
        assert forall|k: Seq<char>| (exists|i: int| 0 <= i < s.len() && #[trigger] s[i].0@ == k)
            implies #[trigger] store_map(s).contains_key(k) by {
            let i = choose|i: int| 0 <= i < s.len() && #[trigger] s[i].0@ == k;
            if i < s.len() - 1 {
                assert(s.drop_last()[i].0@ == k);
                assert(store_map(s.drop_last()).contains_key(k));
            } else {
                assert(s.last().0@ == k);
            }
        }
    }
}

proof fn lemma_store_map_lookup(s: Seq<(String, Vec<u8>)>, i: int)
    requires
        store_keys_unique(s),
        0 <= i < s.len(),
    ensures
        store_map(s).contains_key(s[i].0@),
        store_map(s)[s[i].0@] == s[i].1@,
    decreases s.len(),
{
    lemma_store_map_domain(s);
    if i < s.len() - 1 {
        assert(s.drop_last()[i] == s[i]);
        lemma_store_map_lookup(s.drop_last(), i);
        assert(s.last().0@ != s[i].0@);
    }
}

proof fn lemma_store_map_remove(s: Seq<(String, Vec<u8>)>, i: int)
    requires
        store_keys_unique(s),
        0 <= i < s.len(),
    ensures
        store_map(s.remove(i)) =~= store_map(s).remove(s[i].0@),
    decreases s.len(),
{
    lemma_store_map_domain(s.drop_last());
    if i == s.len() - 1 {
        assert(s.remove(i) =~= s.drop_last());
        assert(!store_map(s.drop_last()).contains_key(s[i].0@));
        assert(store_map(s.drop_last()) =~= store_map(s.drop_last()).insert(
            s.last().0@,
            s.last().1@,
        ).remove(s.last().0@));
    } else {
        assert(s.drop_last()[i] == s[i]);
        lemma_store_map_remove(s.drop_last(), i);
        assert(s.remove(i).drop_last() =~= s.drop_last().remove(i));
        assert(s.remove(i).last() == s.last());
        assert(store_map(s.remove(i)) == store_map(s.drop_last().remove(i)).insert(
            s.last().0@,
            s.last().1@,
        ));
        assert(s[i].0@ != s.last().0@);
        assert(store_map(s.drop_last()).remove(s[i].0@).insert(s.last().0@, s.last().1@)
            =~= store_map(s.drop_last()).insert(s.last().0@, s.last().1@).remove(s[i].0@));
    }
}

/// An in-memory keyed blob store: the model of the object-store contract the
/// pipeline relies on. `put` overwrites, `delete` is silent on absent keys,
/// and a `get` after a `put` returns exactly the stored bytes.
pub struct MemObjectStore {
    entries: Vec<(String, Vec<u8>)>,
}

impl MemObjectStore {
    /// The keyed contents.
    pub closed spec fn view(self) -> Map<Seq<char>, Seq<u8>> {
        store_map(self.entries@)
    }

    pub closed spec fn wf(self) -> bool {
        store_keys_unique(self.entries@)
    }

    pub fn new() -> (r: MemObjectStore)
        ensures
            r.wf(),
            r.view() == Map::<Seq<char>, Seq<u8>>::empty(),
    {
        MemObjectStore { entries: Vec::new() }
    }

    fn find(&self, key: &str) -> (r: Option<usize>)
        ensures
            match r {
                Some(i) => i < self.entries@.len() && self.entries@[i as int].0@ == key@,
                None => forall|i: int| 0 <= i < self.entries@.len()
                    ==> #[trigger] self.entries@[i].0@ != key@,
            },
    {
        let mut i: usize = 0;
        while i < self.entries.len()
            invariant
                0 <= i <= self.entries@.len(),
                forall|j: int| 0 <= j < i ==> #[trigger] self.entries@[j].0@ != key@,
            decreases self.entries@.len() - i,
        {
            if str_eq(self.entries[i].0.as_str(), key) {
                return Some(i);
            }
            i = i + 1;
        }
        None
    }

    /// Returns the stored bytes, or `NotFound` where the key is absent.
    pub fn get(&self, key: &str) -> (r: Result<Vec<u8>, AppError>)
        requires
            self.wf(),
        ensures
            match r {
                Ok(v) => self.view().contains_key(key@) && v@ == self.view()[key@],
                Err(e) => !self.view().contains_key(key@) && e == AppError::NotFound,
            },
    {
        proof {
            lemma_store_map_domain(self.entries@);
        }
        match self.find(key) {
            Some(i) => {
                proof {
                    lemma_store_map_lookup(self.entries@, i as int);
                }
                Ok(self.entries[i].1.clone())
            },
            None => Err(AppError::NotFound),
        }
    }

    /// `true` exactly where the key is present.
    pub fn contains(&self, key: &str) -> (r: bool)
        requires
            self.wf(),
        ensures
            r == self.view().contains_key(key@),
    {
        proof {
            lemma_store_map_domain(self.entries@);
        }
        match self.find(key) {
            Some(_) => true,
            None => false,
        }
    }

    /// Removes the key; absent keys are a silent success.
    pub fn delete(&mut self, key: &str)
        requires
            old(self).wf(),
        ensures
            final(self).wf(),
            final(self).view() == old(self).view().remove(key@),
    {
        proof {
            lemma_store_map_domain(self.entries@);
        }
        match self.find(key) {
            Some(i) => {
                let ghost pre = self.entries@;
                proof {
                    lemma_store_map_remove(pre, i as int);
                }
                self.entries.remove(i);
                proof {
                    assert(forall|a: int, b: int| 0 <= a < b < self.entries@.len()
                        ==> self.entries@[a].0@ != self.entries@[b].0@) by {
                        assert(forall|a: int| 0 <= a < self.entries@.len()
                            ==> #[trigger] self.entries@[a] == (if a < i as int {
                            pre[a]
                        } else {
                            pre[a + 1]
                        }));
                    }
                }
            },
            None => {
                proof {
                    assert(!old(self).view().contains_key(key@));
                    assert(old(self).view().remove(key@) =~= old(self).view());
                }
            },
        }
    }

    /// Stores the bytes under the key, overwriting any prior value.
    pub fn put(&mut self, key: &str, data: &[u8])
        requires
            old(self).wf(),
        ensures
            final(self).wf(),
            final(self).view() == old(self).view().insert(key@, data@),
    {
        self.delete(key);
        let ghost mid = self.entries@;
        let entry = (String::from_str(key), vstd::slice::slice_to_vec(data));
        proof {
            lemma_store_map_domain(mid);
        }
        self.entries.push(entry);
        proof {
            assert(self.entries@.drop_last() =~= mid);
            assert(store_map(self.entries@) == store_map(mid).insert(key@, data@));
            assert(store_map(mid).insert(key@, data@) =~= old(self).view().insert(key@, data@));
            assert(forall|a: int, b: int| 0 <= a < b < self.entries@.len() ==> self.entries@[a].0@
                != self.entries@[b].0@) by {
                assert(!store_map(mid).contains_key(key@));
                assert(forall|a: int| 0 <= a < mid.len() ==> #[trigger] mid[a].0@ != key@);
                assert(forall|a: int| 0 <= a < mid.len() ==> self.entries@[a] == mid[a]);
            }
        }
    }
}

/// The store round trip: after a `put` the key maps to exactly the bytes
/// written; after the `delete` the key is gone, so a `get` must report
/// `NotFound`.
pub proof fn lemma_store_round_trip(m: Map<Seq<char>, Seq<u8>>, k: Seq<char>, v: Seq<u8>)
    ensures
        m.insert(k, v).contains_key(k),
        m.insert(k, v)[k] == v,
        !m.insert(k, v).remove(k).contains_key(k),
{
}

} // verus!
