use vstd::prelude::*;
use crate::url_fsm::str_eq;
use crate::web::push_char;

verus! {

// ---------------------------------------------------------------------------
// Configuration
// ---------------------------------------------------------------------------

/// Location of the embedded single-node exact store.
#[derive(Debug, Clone)]
pub struct SqliteHashSetConfig {
    pub path: String,
}

/// Location of the shared networked exact store.
#[derive(Debug, Clone)]
pub struct RedisHashSetConfig {
    pub uri: String,
}

/// Which exact membership backend the unique filter uses, if any.
#[derive(Debug, Clone)]
pub enum HashSetConfig {
    Sqlite(SqliteHashSetConfig),
    Redis(RedisHashSetConfig),
    Empty,
}

// ---------------------------------------------------------------------------
// The in-memory exact set
// ---------------------------------------------------------------------------

/// The membership set held by a sequence of entries.
pub open spec fn entry_set(s: Seq<String>) -> Set<Seq<char>>
    decreases s.len(),
{
    if s.len() == 0 {
        Set::empty()
    } else {
        entry_set(s.drop_last()).insert(s.last()@)
    }
}

pub proof fn lemma_entry_set_domain(s: Seq<String>)
    ensures
        forall|k: Seq<char>| #[trigger] entry_set(s).contains(k) <==> (exists|i: int|
            0 <= i < s.len() && #[trigger] s[i]@ == k),
    decreases s.len(),
{
    if s.len() > 0 {
        lemma_entry_set_domain(s.drop_last());
        assert forall|k: Seq<char>| #[trigger] entry_set(s).contains(k) implies (exists|i: int|
            0 <= i < s.len() && #[trigger] s[i]@ == k) by {
            if s.last()@ == k {
                assert(s[s.len() - 1]@ == k);
            } else {
                assert(entry_set(s.drop_last()).contains(k));
                let i = choose|i: int| 0 <= i < s.drop_last().len() && #[trigger] s.drop_last()[i]@
                    == k;
                assert(s.drop_last()[i] == s[i]);
                assert(s[i]@ == k);
            }
        }
        assert forall|k: Seq<char>| (exists|i: int| 0 <= i < s.len() && #[trigger] s[i]@ == k)
            implies #[trigger] entry_set(s).contains(k) by {
            let i = choose|i: int| 0 <= i < s.len() && #[trigger] s[i]@ == k;
            if i < s.len() - 1 {
                assert(s.drop_last()[i]@ == k);
                assert(entry_set(s.drop_last()).contains(k));
            } else {
                assert(s.last()@ == k);
            }
        }
    }
}

/// The membership sets named by a batch of entities.
pub open spec fn batch_set(s: Seq<String>) -> Set<Seq<char>> {
    entry_set(s)
}

/// An in-memory exact membership set with batch check-and-insert: the model
/// of the backend contract. Presence is reported against the state before
/// the call, so a batch that repeats an absent entity reports it absent each
/// time; all batch entities are present afterwards.
pub struct MemHashSet {
    entries: Vec<String>,
}

impl MemHashSet {
    /// The members.
    pub closed spec fn view(self) -> Set<Seq<char>> {
        entry_set(self.entries@)
    }

    pub fn new() -> (r: MemHashSet)
        ensures
            r.view() == Set::<Seq<char>>::empty(),
    {
        MemHashSet { entries: Vec::new() }
    }

    fn contains_str(&self, key: &str) -> (r: bool)
        ensures
            r == self.view().contains(key@),
    {
        proof {
            lemma_entry_set_domain(self.entries@);
        }
        let mut i: usize = 0;
        while i < self.entries.len()
            invariant
                0 <= i <= self.entries@.len(),
                forall|j: int| 0 <= j < i ==> #[trigger] self.entries@[j]@ != key@,
            decreases self.entries@.len() - i,
        {
            if str_eq(self.entries[i].as_str(), key) {
                proof {
                    lemma_entry_set_domain(self.entries@);
                    assert(self.entries@[i as int]@ == key@);
                }
                return true;
            }
            i = i + 1;
        }
        false
    }

    /// Atomic check-and-insert over a batch: reports for each entity whether
    /// it was present before the call, and inserts the missing ones. An
    /// empty batch returns empty and leaves the set untouched.
    pub fn contains_entities(&mut self, entities: Vec<String>) -> (r: Vec<(String, bool)>)
        ensures
            r@.len() == entities@.len(),
            forall|i: int| 0 <= i < r@.len() ==> (#[trigger] r@[i]).0@ == entities@[i]@,
            forall|i: int| 0 <= i < r@.len() ==> (#[trigger] r@[i]).1 == old(self).view().contains(
                entities@[i]@,
            ),
            final(self).view() == old(self).view().union(batch_set(entities@)),
            entities@.len() == 0 ==> final(self).view() == old(self).view(),
    {
        let ghost v0 = self.view();
        let mut results: Vec<(String, bool)> = Vec::new();
        let mut i: usize = 0;
        while i < entities.len()
            invariant
                0 <= i <= entities@.len(),
                self == old(self),
                results@.len() == i,
                forall|j: int| 0 <= j < i ==> (#[trigger] results@[j]).0@ == entities@[j]@,
                forall|j: int| 0 <= j < i ==> (#[trigger] results@[j]).1 == v0.contains(
                    entities@[j]@,
                ),
                v0 == old(self).view(),
            decreases entities@.len() - i,
        {
            let flag = self.contains_str(entities[i].as_str());
            results.push((entities[i].clone(), flag));
            i = i + 1;
        }
        let mut k: usize = 0;
        proof {
            assert(v0.union(batch_set(entities@.subrange(0, 0))) =~= v0);
        }
        while k < entities.len()
            invariant
                0 <= k <= entities@.len(),
                self.view() == v0.union(batch_set(entities@.subrange(0, k as int))),
            decreases entities@.len() - k,
        {
            let ghost pre = self.view();
            let absent = !self.contains_str(entities[k].as_str());
            if absent {
                let ghost epre = self.entries@;
                self.entries.push(entities[k].clone());
                proof {
                    assert(self.entries@.drop_last() =~= epre);
                    assert(self.view() == entry_set(epre).insert(entities@[k as int]@));
                }
            }
            k = k + 1;
            proof {
                let sub_pre = entities@.subrange(0, k - 1);
                let sub = entities@.subrange(0, k as int);
                assert(sub.drop_last() =~= sub_pre);
                assert(entry_set(sub) == entry_set(sub_pre).insert(entities@[k - 1]@));
                if absent {
                    assert(self.view() =~= v0.union(entry_set(sub)));
                } else {
                    assert(pre.contains(entities@[k - 1]@));
                    assert(self.view() =~= v0.union(entry_set(sub)));
                }
            }
        }
        proof {
            assert(entities@.subrange(0, entities@.len() as int) =~= entities@);
            if entities@.len() == 0 {
                assert(v0.union(batch_set(entities@)) =~= v0);
            }
        }
        results
    }
}

// ---------------------------------------------------------------------------
// Batch helpers shared with the database-backed sets
// ---------------------------------------------------------------------------

/// The comma-joined `(?)` placeholder list for a batch of `n` bound values.
pub open spec fn placeholders(n: nat) -> Seq<char>
    decreases n,
{
    if n == 0 {
        Seq::empty()
    } else if n == 1 {
        seq!['(', '?', ')']
    } else {
        placeholders((n - 1) as nat) + seq![',', '(', '?', ')']
    }
}

/// Builds the `(?),(?),...` list that a batched statement binds its entities
/// to.
pub fn values_placeholders(n: usize) -> (r: String)
    ensures
        r@ == placeholders(n as nat),
{
    let mut s = String::new();
    let mut i: usize = 0;
    while i < n
        invariant
            0 <= i <= n,
            s@ == placeholders(i as nat),
        decreases n - i,
    {
        if i > 0 {
            push_char(&mut s, ',');
        }
        push_char(&mut s, '(');
        push_char(&mut s, '?');
        push_char(&mut s, ')');
        i = i + 1;
        proof {
            if i == 1 {
                assert(s@ =~= placeholders(1));
            } else {
                assert(s@ =~= placeholders((i - 1) as nat) + seq![',', '(', '?', ')']);
            }
        }
    }
    s
}

/// Pairs each entity of a batch with whether the backend reported it
/// present: the assembly step of the embedded backend, whose pre-insert
/// selection is the truth reported to the caller.
pub fn batch_results(entities: Vec<String>, existing: &Vec<String>) -> (r: Vec<(String, bool)>)
    ensures
        r@.len() == entities@.len(),
        forall|i: int| 0 <= i < r@.len() ==> (#[trigger] r@[i]).0@ == entities@[i]@,
        forall|i: int| 0 <= i < r@.len() ==> (#[trigger] r@[i]).1 == entry_set(existing@).contains(
            entities@[i]@,
        ),
{
    let mut results: Vec<(String, bool)> = Vec::new();
    let mut i: usize = 0;
    while i < entities.len()
        invariant
            0 <= i <= entities@.len(),
            results@.len() == i,
            forall|j: int| 0 <= j < i ==> (#[trigger] results@[j]).0@ == entities@[j]@,
            forall|j: int| 0 <= j < i ==> (#[trigger] results@[j]).1 == entry_set(
                existing@,
            ).contains(entities@[j]@),
        decreases entities@.len() - i,
    {
        let mut found = false;
        let mut j: usize = 0;
        proof {
            lemma_entry_set_domain(existing@);
        }
        while j < existing.len()
            invariant
                0 <= j <= existing@.len(),
                0 <= i < entities@.len(),
                found == (exists|m: int| 0 <= m < j && #[trigger] existing@[m]@
                    == entities@[i as int]@),
            decreases existing@.len() - j,
        {
            if str_eq(existing[j].as_str(), entities[i].as_str()) {
                proof {
                    assert(existing@[j as int]@ == entities@[i as int]@);
                }
                found = true;
            }
            j = j + 1;
        }
        proof {
            lemma_entry_set_domain(existing@);
            assert(found == entry_set(existing@).contains(entities@[i as int]@));
        }
        results.push((entities[i].clone(), found));
        i = i + 1;
    }
    results
}

/// Pairs each entity with the presence flag observed by a multi-get: the
/// classification step of the networked backend.
pub fn classify_present(entities: Vec<String>, present: Vec<bool>) -> (r: Vec<(String, bool)>)
    requires
        entities@.len() == present@.len(),
    ensures
        r@.len() == entities@.len(),
        forall|i: int| 0 <= i < r@.len() ==> (#[trigger] r@[i]).0@ == entities@[i]@ && r@[i].1
            == present@[i],
{
    let mut results: Vec<(String, bool)> = Vec::new();
    let mut i: usize = 0;
    while i < entities.len()
        invariant
            0 <= i <= entities@.len(),
            entities@.len() == present@.len(),
            results@.len() == i,
            forall|j: int| 0 <= j < i ==> (#[trigger] results@[j]).0@ == entities@[j]@
                && results@[j].1 == present@[j],
        decreases entities@.len() - i,
    {
        results.push((entities[i].clone(), present[i]));
        i = i + 1;
    }
    results
}

/// The entities a check reported absent, in order: the ones the networked
/// backend goes on to insert.
pub fn missing_entities(checked: &Vec<(String, bool)>) -> (r: Vec<String>)
    ensures
        r.deep_view() == checked@.filter(|p: (String, bool)| !p.1).map_values(
            |p: (String, bool)| p.0@,
        ),
{
    let mut out: Vec<String> = Vec::new();
    let mut i: usize = 0;
    proof {
        reveal(Seq::filter);
        assert(checked@.subrange(0, 0) =~= Seq::<(String, bool)>::empty());
        assert(out.deep_view() =~= checked@.subrange(0, 0).filter(|p: (String, bool)| !p.1)
            .map_values(|p: (String, bool)| p.0@));
    }
    while i < checked.len()
        invariant
            0 <= i <= checked@.len(),
            out.deep_view() == checked@.subrange(0, i as int).filter(|p: (String, bool)| !p.1)
                .map_values(|p: (String, bool)| p.0@),
        decreases checked@.len() - i,
    {
        let ghost dv_pre = out.deep_view();
        if !checked[i].1 {
            out.push(checked[i].0.clone());
        }
        i = i + 1;
        proof {
            reveal(Seq::filter);
            let sub_pre = checked@.subrange(0, i - 1);
            let sub = checked@.subrange(0, i as int);
            assert(sub.drop_last() =~= sub_pre);
            assert(sub.last() == checked@[i - 1]);
            let pred = |p: (String, bool)| !p.1;
            let f = |p: (String, bool)| p.0@;
            if !checked@[i - 1].1 {
                assert(sub.filter(pred) == sub_pre.filter(pred).push(checked@[i - 1]));
                assert(sub.filter(pred).map_values(f) =~= sub_pre.filter(pred).map_values(f).push(
                    checked@[i - 1].0@,
                ));
                assert(out.deep_view() =~= dv_pre.push(checked@[i - 1].0@));
            } else {
                assert(sub.filter(pred) == sub_pre.filter(pred));
            }
        }
    }
    proof {
        assert(checked@.subrange(0, checked@.len() as int) =~= checked@);
    }
    out
}

} // verus!
