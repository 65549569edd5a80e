use vstd::prelude::*;
use crate::hash_set::MemHashSet;

verus! {

// ---------------------------------------------------------------------------
// Configuration
// ---------------------------------------------------------------------------

/// Sizing of the probabilistic tier. `num_bits` is the backing bit-vector
/// size; the number of hash functions is tuned to `expected_items`.
#[derive(Debug, Clone)]
pub struct BloomFilterConfig {
    pub enable: bool,
    pub num_bits: usize,
    pub expected_items: usize,
}

/// The two tiers of the uniqueness filter: an optional bloom filter in front
/// of an optional exact membership backend.
#[derive(Debug, Clone)]
pub struct UniqueFilterConfig {
    pub bloom_filter: BloomFilterConfig,
    pub hash_set: crate::hash_set::HashSetConfig,
}

// ---------------------------------------------------------------------------
// Trusted view of fastbloom
// ---------------------------------------------------------------------------

/// The probabilistic tier: a `fastbloom::BloomFilter` held opaquely, since
/// its hasher parameter lives in a module the crate does not export.
#[verifier::external_body]
pub struct BloomTier {
    inner: fastbloom::BloomFilter,
}

/// The items that were inserted into the filter.
pub uninterp spec fn bloom_items(b: BloomTier) -> Set<Seq<char>>;

/// What a membership probe of the filter value reports for an item: `true`
/// for every inserted item, and occasionally `true` for others.
pub uninterp spec fn bloom_positive(b: BloomTier, item: Seq<char>) -> bool;

/// Relies on `fastbloom::BloomFilter::with_num_bits` and
/// `BuilderWithBits::expected_items`: an empty filter whose bit vector holds
/// no set bits, so every probe reports negative.
#[verifier::external_body]
fn bloom_new(num_bits: usize, expected_items: usize) -> (r: BloomTier)
    requires
        num_bits >= 1,
    ensures
        bloom_items(r) == Set::<Seq<char>>::empty(),
        forall|x: Seq<char>| !bloom_positive(r, x),
{
    BloomTier { inner: fastbloom::BloomFilter::with_num_bits(num_bits).expected_items(
        expected_items,
    ) }
}

/// Relies on `fastbloom::BloomFilter::contains`: deterministic in the filter
/// value and the item, and never negative for an inserted item.
#[verifier::external_body]
fn bloom_contains(b: &BloomTier, item: &str) -> (r: bool)
    ensures
        r == bloom_positive(*b, item@),
        bloom_items(*b).contains(item@) ==> r,
{
    b.inner.contains(item)
}

/// Relies on `fastbloom::BloomFilter::insert`: records the item; bits are
/// only ever set, so every prior positive stays positive.
#[verifier::external_body]
fn bloom_insert(b: &mut BloomTier, item: &str)
    ensures
        bloom_items(*final(b)) == bloom_items(*old(b)).insert(item@),
        bloom_positive(*final(b), item@),
        forall|x: Seq<char>| bloom_positive(*old(b), x) ==> bloom_positive(*final(b), x),
{
    b.inner.insert(item);
}

/// Builds the probabilistic tier from its configuration; disabled
/// configurations yield no filter.
pub fn bloom_from_config(config: &BloomFilterConfig) -> (r: Option<BloomTier>)
    ensures
        config.enable ==> (r matches Some(b) && bloom_items(b) == Set::<Seq<char>>::empty() && (
        forall|x: Seq<char>| !bloom_positive(b, x))),
        !config.enable ==> r is None,
{
    if config.enable {
        let bits = if config.num_bits == 0 {
            1
        } else {
            config.num_bits
        };
        Some(bloom_new(bits, config.expected_items))
    } else {
        None
    }
}

// ---------------------------------------------------------------------------
// Views
// ---------------------------------------------------------------------------

pub open spec fn views_of(s: Seq<String>) -> Seq<Seq<char>> {
    s.map_values(|u: String| u@)
}

pub open spec fn flags_view(r: Seq<(String, bool)>) -> Seq<(Seq<char>, bool)> {
    r.map_values(|p: (String, bool)| (p.0@, p.1))
}

/// The set of character sequences occurring in the list.
pub open spec fn seq_to_set(s: Seq<Seq<char>>) -> Set<Seq<char>>
    decreases s.len(),
{
    if s.len() == 0 {
        Set::empty()
    } else {
        seq_to_set(s.drop_last()).insert(s.last())
    }
}

pub proof fn lemma_seq_to_set_domain(s: Seq<Seq<char>>)
    ensures
        forall|k: Seq<char>| #[trigger] seq_to_set(s).contains(k) <==> s.contains(k),
    decreases s.len(),
{
    if s.len() > 0 {
        lemma_seq_to_set_domain(s.drop_last());
        assert forall|k: Seq<char>| #[trigger] seq_to_set(s).contains(k) implies s.contains(k) by {
            if s.last() == k {
                assert(s[s.len() - 1] == k);
            } else {
                assert(seq_to_set(s.drop_last()).contains(k));
                assert(s.drop_last().contains(k));
                let i = choose|i: int| 0 <= i < s.drop_last().len() && s.drop_last()[i] == k;
                assert(s[i] == k);
            }
        }
        assert forall|k: Seq<char>| s.contains(k) implies #[trigger] seq_to_set(s).contains(k) by {
            let i = choose|i: int| 0 <= i < s.len() && s[i] == k;
            if i < s.len() - 1 {
                assert(s.drop_last()[i] == k);
                assert(s.drop_last().contains(k));
                assert(seq_to_set(s.drop_last()).contains(k));
            } else {
                assert(s.last() == k);
            }
        }
    }
}

/// The relation between entry sets of strings and of their views.
pub proof fn lemma_entry_set_views(s: Seq<String>)
    ensures
        crate::hash_set::entry_set(s) == seq_to_set(views_of(s)),
    decreases s.len(),
{
    if s.len() == 0 {
        assert(views_of(s) =~= Seq::<Seq<char>>::empty());
        assert(crate::hash_set::entry_set(s) =~= seq_to_set(views_of(s)));
    } else {
        lemma_entry_set_views(s.drop_last());
        assert(views_of(s).drop_last() =~= views_of(s.drop_last()));
        assert(views_of(s).last() == s.last()@);
        assert(crate::hash_set::entry_set(s) =~= seq_to_set(views_of(s)));
    }
}

// ---------------------------------------------------------------------------
// The filter
// ---------------------------------------------------------------------------

/// Everything the uniqueness check promises of one `perform` call, relating
/// the tiers before the call, the reported flags, and the tiers after it. A
/// reported `true` suppresses the URI from further crawling.
pub open spec fn perform_rel(
    b0: Option<BloomTier>,
    s0: Option<Set<Seq<char>>>,
    uris: Seq<Seq<char>>,
    r: Seq<(Seq<char>, bool)>,
    b1: Option<BloomTier>,
    s1: Option<Set<Seq<char>>>,
) -> bool {
    match (b0, s0) {
        (Option::None, Option::None) => {
            &&& b1 is None
            &&& s1 is None
            &&& r == uris.map_values(|u: Seq<char>| (u, true))
        },
        (Option::Some(bb0), Option::None) => {
            &&& s1 is None
            &&& b1 matches Some(bb1) && {
                &&& r.len() == uris.len()
                &&& forall|i: int| 0 <= i < r.len() ==> (#[trigger] r[i]).0 == uris[i]
                &&& forall|i: int| 0 <= i < r.len() && bloom_positive(bb0, uris[i])
                    ==> (#[trigger] r[i]).1
                &&& forall|i: int, j: int|
                    0 <= j < i < r.len() && #[trigger] uris[j] == #[trigger] uris[i]
                        ==> r[i].1
                &&& forall|i: int| 0 <= i < r.len() && !(#[trigger] r[i]).1 ==> !bloom_positive(
                    bb0,
                    uris[i],
                )
                &&& forall|i: int| 0 <= i < uris.len() ==> bloom_positive(
                    bb1,
                    #[trigger] uris[i],
                )
                &&& forall|x: Seq<char>| bloom_positive(bb0, x) ==> bloom_positive(bb1, x)
                &&& r.len() > 0 ==> r[0].1 == bloom_positive(bb0, uris[0])
            }
        },
        (Option::None, Option::Some(ss0)) => {
            &&& b1 is None
            &&& s1 matches Some(ss1) && {
                &&& r.len() == uris.len()
                &&& forall|i: int| 0 <= i < r.len() ==> (#[trigger] r[i]) == (
                    uris[i],
                    ss0.contains(uris[i]),
                )
                &&& ss1 == ss0.union(seq_to_set(uris))
            }
        },
        (Option::Some(bb0), Option::Some(ss0)) => {
            &&& b1 == Some(bb0)
            &&& s1 matches Some(ss1) && {
                let pos = uris.filter(|u: Seq<char>| bloom_positive(bb0, u));
                let neg = uris.filter(|u: Seq<char>| !bloom_positive(bb0, u));
                &&& r == pos.map_values(|u: Seq<char>| (u, true)) + neg.map_values(
                    |u: Seq<char>| (u, ss0.contains(u)),
                )
                &&& ss1 == ss0.union(seq_to_set(neg))
            }
        },
    }
}

pub open spec fn opt_set_view(s: Option<MemHashSet>) -> Option<Set<Seq<char>>> {
    match s {
        Some(m) => Some(m.view()),
        None => None,
    }
}

/// Two-tier uniqueness: a bloom filter in front of an exact membership set.
/// With both tiers disabled every URI is reported seen, so nothing is
/// admitted.
pub struct UniqueFilter {
    pub bloom_filter: Option<BloomTier>,
    pub hash_set: Option<MemHashSet>,
}

impl UniqueFilter {
    /// Assembles the filter from its tiers.
    pub fn from_parts(bloom_filter: Option<BloomTier>, hash_set: Option<MemHashSet>)
        -> (r: UniqueFilter)
        ensures
            r.bloom_filter == bloom_filter,
            r.hash_set == hash_set,
    {
        UniqueFilter { bloom_filter, hash_set }
    }

    /// The bloom tier alone: a URI already reported positive stays seen;
    /// a miss is recorded and reported unseen, so a repeat within the batch
    /// is reported seen.
    pub fn check_bloom(filter: &mut BloomTier, entities: Vec<String>) -> (r: Vec<
        (String, bool),
    >)
        ensures
            r@.len() == entities@.len(),
            forall|i: int| 0 <= i < r@.len() ==> (#[trigger] r@[i]).0@ == entities@[i]@,
            forall|i: int| 0 <= i < r@.len() && bloom_positive(*old(filter), entities@[i]@)
                ==> (#[trigger] r@[i]).1,
            forall|i: int, j: int|
                0 <= j < i < r@.len() && #[trigger] entities@[j]@ == #[trigger] entities@[i]@
                    ==> r@[i].1,
            forall|i: int| 0 <= i < r@.len() && !(#[trigger] r@[i]).1 ==> !bloom_positive(
                *old(filter),
                entities@[i]@,
            ),
            forall|i: int| 0 <= i < entities@.len() ==> bloom_positive(
                *final(filter),
                #[trigger] entities@[i]@,
            ),
            forall|x: Seq<char>| bloom_positive(*old(filter), x) ==> bloom_positive(
                *final(filter),
                x,
            ),
            r@.len() > 0 ==> r@[0].1 == bloom_positive(*old(filter), entities@[0]@),
    {
        let mut results: Vec<(String, bool)> = Vec::new();
        let mut i: usize = 0;
        while i < entities.len()
            invariant
                0 <= i <= entities@.len(),
                results@.len() == i,
                forall|j: int| 0 <= j < i ==> (#[trigger] results@[j]).0@ == entities@[j]@,
                forall|j: int| 0 <= j < i && bloom_positive(*old(filter), entities@[j]@)
                    ==> (#[trigger] results@[j]).1,
                forall|j: int, m: int|
                    0 <= m < j < i && #[trigger] entities@[m]@ == #[trigger] entities@[j]@
                        ==> results@[j].1,
                forall|j: int| 0 <= j < i && !(#[trigger] results@[j]).1 ==> !bloom_positive(
                    *old(filter),
                    entities@[j]@,
                ),
                forall|j: int| 0 <= j < i ==> bloom_positive(*filter, #[trigger] entities@[j]@),
                forall|x: Seq<char>| bloom_positive(*old(filter), x) ==> bloom_positive(*filter, x),
                i == 0 ==> *filter == *old(filter),
                i > 0 ==> results@[0].1 == bloom_positive(*old(filter), entities@[0]@),
            decreases entities@.len() - i,
        {
            let ghost f_pre = *filter;
            let hit = bloom_contains(filter, entities[i].as_str());
            if hit {
                results.push((entities[i].clone(), true));
            } else {
                bloom_insert(filter, entities[i].as_str());
                results.push((entities[i].clone(), false));
                proof {
                    assert(!bloom_positive(f_pre, entities@[i as int]@));
                    assert(forall|m: int| 0 <= m < i ==> bloom_positive(
                        f_pre,
                        #[trigger] entities@[m]@,
                    ));
                }
            }
            i = i + 1;
        }
        results
    }

    /// Splits a batch by the bloom tier without touching it: the positives,
    /// then the negatives, each in input order.
    pub fn partition_by_bloom(filter: &BloomTier, uris: Vec<String>) -> (r: (
        Vec<String>,
        Vec<String>,
    ))
        ensures
            views_of(r.0@) == views_of(uris@).filter(
                |u: Seq<char>| bloom_positive(*filter, u),
            ),
            views_of(r.1@) == views_of(uris@).filter(
                |u: Seq<char>| !bloom_positive(*filter, u),
            ),
    {
        let pos_pred = Ghost(|u: Seq<char>| bloom_positive(*filter, u));
        let neg_pred = Ghost(|u: Seq<char>| !bloom_positive(*filter, u));
        let mut pos: Vec<String> = Vec::new();
        let mut neg: Vec<String> = Vec::new();
        let mut i: usize = 0;
        proof {
            reveal(Seq::filter);
            assert(views_of(uris@.subrange(0, 0)) =~= Seq::<Seq<char>>::empty());
            assert(views_of(pos@) =~= views_of(uris@.subrange(0, 0)).filter(pos_pred@));
            assert(views_of(neg@) =~= views_of(uris@.subrange(0, 0)).filter(neg_pred@));
        }
        while i < uris.len()
            invariant
                0 <= i <= uris@.len(),
                pos_pred@ == (|u: Seq<char>| bloom_positive(*filter, u)),
                neg_pred@ == (|u: Seq<char>| !bloom_positive(*filter, u)),
                views_of(pos@) == views_of(uris@.subrange(0, i as int)).filter(pos_pred@),
                views_of(neg@) == views_of(uris@.subrange(0, i as int)).filter(neg_pred@),
            decreases uris@.len() - i,
        {
            let ghost pos_pre = pos@;
            let ghost neg_pre = neg@;
            let hit = bloom_contains(filter, uris[i].as_str());
            if hit {
                pos.push(uris[i].clone());
            } else {
                neg.push(uris[i].clone());
            }
            i = i + 1;
            proof {
                reveal(Seq::filter);
                let sub_pre = views_of(uris@.subrange(0, i - 1));
                let sub = views_of(uris@.subrange(0, i as int));
                assert(sub.drop_last() =~= sub_pre);
                assert(sub.last() == uris@[i - 1]@);
                if hit {
                    assert(views_of(pos@) =~= views_of(pos_pre).push(uris@[i - 1]@));
                    assert(views_of(neg@) =~= views_of(neg_pre));
                } else {
                    assert(views_of(neg@) =~= views_of(neg_pre).push(uris@[i - 1]@));
                    assert(views_of(pos@) =~= views_of(pos_pre));
                }
            }
        }
        proof {
            assert(uris@.subrange(0, uris@.len() as int) =~= uris@);
        }
        (pos, neg)
    }

    /// Joins the two tiers' verdicts of a two-tier batch: the bloom
    /// positives, each seen, followed by the backend's report on the
    /// negatives.
    pub fn merge_two_tier(positives: Vec<String>, checked: Vec<(String, bool)>) -> (r: Vec<
        (String, bool),
    >)
        ensures
            flags_view(r@) == views_of(positives@).map_values(|u: Seq<char>| (u, true))
                + flags_view(checked@),
    {
        let mut out: Vec<(String, bool)> = Vec::new();
        let mut i: usize = 0;
        while i < positives.len()
            invariant
                0 <= i <= positives@.len(),
                flags_view(out@) == views_of(positives@.subrange(0, i as int)).map_values(
                    |u: Seq<char>| (u, true),
                ),
            decreases positives@.len() - i,
        {
            let ghost out_pre = out@;
            out.push((positives[i].clone(), true));
            i = i + 1;
            proof {
                assert(views_of(positives@.subrange(0, i as int)) =~= views_of(
                    positives@.subrange(0, i - 1),
                ).push(positives@[i - 1]@));
                assert(flags_view(out@) =~= flags_view(out_pre).push((positives@[i - 1]@, true)));
                assert(views_of(positives@.subrange(0, i as int)).map_values(
                    |u: Seq<char>| (u, true),
                ) =~= views_of(positives@.subrange(0, i - 1)).map_values(
                    |u: Seq<char>| (u, true),
                ).push((positives@[i - 1]@, true)));
            }
        }
        proof {
            assert(positives@.subrange(0, positives@.len() as int) =~= positives@);
        }
        let mut j: usize = 0;
        while j < checked.len()
            invariant
                0 <= j <= checked@.len(),
                flags_view(out@) == views_of(positives@).map_values(|u: Seq<char>| (u, true))
                    + flags_view(checked@.subrange(0, j as int)),
            decreases checked@.len() - j,
        {
            let ghost out_pre = out@;
            out.push((checked[j].0.clone(), checked[j].1));
            j = j + 1;
            proof {
                assert(flags_view(checked@.subrange(0, j as int)) =~= flags_view(
                    checked@.subrange(0, j - 1),
                ).push((checked@[j - 1].0@, checked@[j - 1].1)));
                assert(flags_view(out@) =~= flags_view(out_pre).push(
                    (checked@[j - 1].0@, checked@[j - 1].1),
                ));
                assert(views_of(positives@).map_values(|u: Seq<char>| (u, true)) + flags_view(
                    checked@.subrange(0, j as int),
                ) =~= (views_of(positives@).map_values(|u: Seq<char>| (u, true)) + flags_view(
                    checked@.subrange(0, j - 1),
                )).push((checked@[j - 1].0@, checked@[j - 1].1)));
            }
        }
        proof {
            assert(checked@.subrange(0, checked@.len() as int) =~= checked@);
        }
        out
    }

    /// One uniqueness check over a batch: reports, for each URI, whether it
    /// is to be suppressed, and records the batch in the enabled tiers. The
    /// full behaviour, tier by tier, is [`perform_rel`].
    pub fn perform(&mut self, uris: Vec<String>) -> (r: Vec<(String, bool)>)
        ensures
            perform_rel(
                old(self).bloom_filter,
                opt_set_view(old(self).hash_set),
                views_of(uris@),
                flags_view(r@),
                final(self).bloom_filter,
                opt_set_view(final(self).hash_set),
            ),
    {
        let bloom0 = self.bloom_filter.take();
        let set0 = self.hash_set.take();
        match (bloom0, set0) {
            (Option::None, Option::None) => {
                let mut out: Vec<(String, bool)> = Vec::new();
                let mut i: usize = 0;
                while i < uris.len()
                    invariant
                        0 <= i <= uris@.len(),
                        flags_view(out@) == views_of(uris@.subrange(0, i as int)).map_values(
                            |u: Seq<char>| (u, true),
                        ),
                    decreases uris@.len() - i,
                {
                    let ghost out_pre = out@;
                    out.push((uris[i].clone(), true));
                    i = i + 1;
                    proof {
                        assert(views_of(uris@.subrange(0, i as int)) =~= views_of(
                            uris@.subrange(0, i - 1),
                        ).push(uris@[i - 1]@));
                        assert(flags_view(out@) =~= flags_view(out_pre).push((uris@[i - 1]@, true)));
                        assert(views_of(uris@.subrange(0, i as int)).map_values(
                            |u: Seq<char>| (u, true),
                        ) =~= views_of(uris@.subrange(0, i - 1)).map_values(
                            |u: Seq<char>| (u, true),
                        ).push((uris@[i - 1]@, true)));
                    }
                }
                proof {
                    assert(uris@.subrange(0, uris@.len() as int) =~= uris@);
                }
                out
            },
            (Option::Some(mut b), Option::None) => {
                let out = UniqueFilter::check_bloom(&mut b, uris);
                self.bloom_filter = Some(b);
                proof {
                    assert(forall|i: int| 0 <= i < out@.len()
                        ==> (#[trigger] flags_view(out@)[i]) == (out@[i].0@, out@[i].1));
                    assert(forall|i: int| 0 <= i < uris@.len()
                        ==> (#[trigger] views_of(uris@)[i]) == uris@[i]@);
                }
                out
            },
            (Option::None, Option::Some(mut s)) => {
                let ghost s0 = s.view();
                let out = s.contains_entities(uris);
                self.hash_set = Some(s);
                proof {
                    lemma_entry_set_views(uris@);
                    assert(forall|i: int| 0 <= i < out@.len()
                        ==> (#[trigger] flags_view(out@)[i]) == (out@[i].0@, out@[i].1));
                    assert(forall|i: int| 0 <= i < uris@.len()
                        ==> (#[trigger] views_of(uris@)[i]) == uris@[i]@);
                    assert(forall|i: int| 0 <= i < out@.len() ==> #[trigger] flags_view(out@)[i]
                        == (views_of(uris@)[i], s0.contains(views_of(uris@)[i])));
                }
                out
            },
            (Option::Some(b), Option::Some(mut s)) => {
                let ghost s0 = s.view();
                let (pos, neg) = UniqueFilter::partition_by_bloom(&b, uris);
                let ghost neg_views = views_of(neg@);
                let checked = s.contains_entities(neg);
                let out = UniqueFilter::merge_two_tier(pos, checked);
                self.bloom_filter = Some(b);
                self.hash_set = Some(s);
                proof {
                    lemma_entry_set_views(neg@);
                    assert(forall|i: int| 0 <= i < checked@.len()
                        ==> (#[trigger] flags_view(checked@)[i]) == (checked@[i].0@, checked@[i].1));
                    assert(flags_view(checked@) =~= neg_views.map_values(
                        |u: Seq<char>| (u, s0.contains(u)),
                    ));
                }
                out
            },
        }
    }
}

/// With both tiers off the filter admits nothing: every URI of every batch
/// is reported seen.
pub proof fn lemma_filter_disabled_permits_nothing(
    uris: Seq<Seq<char>>,
    r: Seq<(Seq<char>, bool)>,
    b1: Option<BloomTier>,
    s1: Option<Set<Seq<char>>>,
)
    requires
        perform_rel(None, None, uris, r, b1, s1),
    ensures
        forall|i: int| 0 <= i < r.len() ==> (#[trigger] r[i]).1,
{
    assert(forall|i: int| 0 <= i < r.len() ==> r[i] == (uris[i], true));
}

pub open spec fn uris_of(r: Seq<(Seq<char>, bool)>) -> Seq<Seq<char>> {
    r.map_values(|p: (Seq<char>, bool)| p.0)
}

pub open spec fn all_seen(r: Seq<(Seq<char>, bool)>) -> bool {
    forall|i: int| 0 <= i < r.len() ==> (#[trigger] r[i]).1
}

/// Idempotence of the uniqueness check: whatever the configured tiers, a
/// second pass over the URIs reported by a first pass marks every one of
/// them as already seen.
pub proof fn lemma_unique_filter_idempotent(
    b0: Option<BloomTier>,
    s0: Option<Set<Seq<char>>>,
    uris: Seq<Seq<char>>,
    r1: Seq<(Seq<char>, bool)>,
    b1: Option<BloomTier>,
    s1: Option<Set<Seq<char>>>,
    r2: Seq<(Seq<char>, bool)>,
    b2: Option<BloomTier>,
    s2: Option<Set<Seq<char>>>,
)
    requires
        perform_rel(b0, s0, uris, r1, b1, s1),
        perform_rel(b1, s1, uris_of(r1), r2, b2, s2),
    ensures
        all_seen(r2),
{
    match (b0, s0) {
        (Option::None, Option::None) => {
            assert(forall|i: int| 0 <= i < r2.len() ==> r2[i] == (uris_of(r1)[i], true));
        },
        (Option::Some(bb0), Option::None) => {
            let bb1 = b1.unwrap();
            let uris2 = uris_of(r1);
            assert(uris2.len() == uris.len());
            assert forall|i: int| 0 <= i < r2.len() implies (#[trigger] r2[i]).1 by {
                assert(uris2[i] == r1[i].0);
                assert(r1[i].0 == uris[i]);
                assert(bloom_positive(bb1, uris[i]));
            }
        },
        (Option::None, Option::Some(ss0)) => {
            let ss1 = s1.unwrap();
            let uris2 = uris_of(r1);
            lemma_seq_to_set_domain(uris);
            assert forall|i: int| 0 <= i < r2.len() implies (#[trigger] r2[i]).1 by {
                assert(uris2[i] == r1[i].0);
                assert(r1[i].0 == uris[i]);
                assert(uris.contains(uris[i]));
                assert(seq_to_set(uris).contains(uris[i]));
                assert(ss1.contains(uris[i]));
                assert(r2[i] == (uris2[i], ss1.contains(uris2[i])));
            }
        },
        (Option::Some(bb0), Option::Some(ss0)) => {
            let ss1 = s1.unwrap();
            let pos_pred = |u: Seq<char>| bloom_positive(bb0, u);
            let neg_pred = |u: Seq<char>| !bloom_positive(bb0, u);
            let pos = uris.filter(pos_pred);
            let neg = uris.filter(neg_pred);
            let uris2 = uris_of(r1);
            assert(b1 == Some(bb0));
            // the uris reported by the first call: the positives, then the
            // negatives
            assert(uris2 =~= pos + neg) by {
                assert(r1 == pos.map_values(|u: Seq<char>| (u, true)) + neg.map_values(
                    |u: Seq<char>| (u, ss0.contains(u)),
                ));
            }
            // filtering that list splits it back into the same halves
            broadcast use vstd::seq_lib::group_filter_ensures;


            Seq::<Seq<char>>::filter_distributes_over_add(pos, neg, pos_pred);
            Seq::<Seq<char>>::filter_distributes_over_add(pos, neg, neg_pred);
            lemma_filter_all_true(pos, pos_pred);
            lemma_filter_all_false(neg, pos_pred);
            lemma_filter_all_true(neg, neg_pred);
            lemma_filter_all_false(pos, neg_pred);
            assert(uris2.filter(pos_pred) =~= pos);
            assert(uris2.filter(neg_pred) =~= neg);
            lemma_seq_to_set_domain(neg);
            assert forall|i: int| 0 <= i < r2.len() implies (#[trigger] r2[i]).1 by {
                assert(r2 == pos.map_values(|u: Seq<char>| (u, true)) + neg.map_values(
                    |u: Seq<char>| (u, ss1.contains(u)),
                ));
                if i >= pos.len() {
                    let u = neg[i - pos.len()];
                    assert(r2[i] == (u, ss1.contains(u)));
                    assert(neg.contains(u));
                    assert(seq_to_set(neg).contains(u));
                    assert(ss1.contains(u));
                }
            }
        },
    }
}

proof fn lemma_filter_all_true(s: Seq<Seq<char>>, pred: spec_fn(Seq<char>) -> bool)
    requires
        forall|i: int| 0 <= i < s.len() ==> pred(#[trigger] s[i]),
    ensures
        s.filter(pred) == s,
    decreases s.len(),
{
    reveal(Seq::filter);
    if s.len() > 0 {
        assert(forall|i: int| 0 <= i < s.drop_last().len() ==> pred(#[trigger] s.drop_last()[i]));
        lemma_filter_all_true(s.drop_last(), pred);
        assert(pred(s[s.len() - 1]));
        assert(s.filter(pred) =~= s);
    } else {
        assert(s.filter(pred) =~= s);
    }
}

proof fn lemma_filter_all_false(s: Seq<Seq<char>>, pred: spec_fn(Seq<char>) -> bool)
    requires
        forall|i: int| 0 <= i < s.len() ==> !pred(#[trigger] s[i]),
    ensures
        s.filter(pred) == Seq::<Seq<char>>::empty(),
    decreases s.len(),
{
    reveal(Seq::filter);
    if s.len() > 0 {
        assert(forall|i: int| 0 <= i < s.drop_last().len() ==> !pred(#[trigger] s.drop_last()[i]));
        lemma_filter_all_false(s.drop_last(), pred);
        assert(!pred(s[s.len() - 1]));
    }
}

} // verus!

