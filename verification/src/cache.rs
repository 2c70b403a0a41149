//! The series cache: one immutable candle series per (symbol, timeframe)
//! key, with access-ordered eviction against a soft size target and
//! statistics that always equal the sum over live entries.

use vstd::prelude::*;

use crate::candle::Candle;
use crate::candle::wf_series;
use crate::store::clone_candles;
use crate::text::str_equal;
use crate::timeframe::TimeFrame;

verus! {

/// One resident series, its key, and its last-access marker.
pub struct CacheEntry {
    pub symbol: String,
    pub timeframe: TimeFrame,
    pub candles: Vec<Candle>,
    pub last_access: u64,
}

/// Whether a cache entry carries the given key.
pub open spec fn centry_matches(e: CacheEntry, sym: Seq<char>, tf: TimeFrame) -> bool {
    e.symbol@ == sym && e.timeframe == tf
}

/// Aggregate counters over the live entries.
pub struct CacheStats {
    pub entries: usize,
    pub total_candles: usize,
}

/// Total candle count over a run of entries.
pub open spec fn sum_entry_lens(s: Seq<CacheEntry>) -> int
    decreases s.len(),
{
    if s.len() == 0 {
        0
    } else {
        sum_entry_lens(s.drop_last()) + s.last().candles@.len()
    }
}

pub proof fn lemma_sum_lens_nonneg(s: Seq<CacheEntry>)
    ensures
        sum_entry_lens(s) >= 0,
    decreases s.len(),
{
    if s.len() > 0 {
        lemma_sum_lens_nonneg(s.drop_last());
    }
}

/// Removing one entry removes exactly its length from the total.
pub proof fn lemma_sum_lens_remove(s: Seq<CacheEntry>, i: int)
    requires
        0 <= i < s.len(),
    ensures
        sum_entry_lens(s.remove(i)) == sum_entry_lens(s) - s[i].candles@.len(),
    decreases s.len(),
{
    if i == s.len() - 1 {
        assert(s.remove(i) =~= s.drop_last());
    } else {
        lemma_sum_lens_remove(s.drop_last(), i);
        assert(s.remove(i).drop_last() =~= s.drop_last().remove(i));
        assert(s.remove(i).last() == s.last());
    }
}

/// Rewriting one entry shifts the total by the difference in lengths.
pub proof fn lemma_sum_lens_update(s: Seq<CacheEntry>, i: int, e: CacheEntry)
    requires
        0 <= i < s.len(),
    ensures
        sum_entry_lens(s.update(i, e)) == sum_entry_lens(s) - s[i].candles@.len()
            + e.candles@.len(),
    decreases s.len(),
{
    if i == s.len() - 1 {
        assert(s.update(i, e).drop_last() =~= s.drop_last());
        assert(s.update(i, e).last() == e);
    } else {
        lemma_sum_lens_update(s.drop_last(), i, e);
        assert(s.update(i, e).drop_last() =~= s.drop_last().update(i, e));
        assert(s.update(i, e).last() == s.last());
    }
}

/// Whether some entry of the run carries the key.
pub open spec fn seq_has_entry(s: Seq<CacheEntry>, sym: Seq<char>, tf: TimeFrame) -> bool {
    exists|i: int| 0 <= i < s.len() && centry_matches(#[trigger] s[i], sym, tf)
}

/// The series of the entry carrying the key.
pub open spec fn seq_entry_at(s: Seq<CacheEntry>, sym: Seq<char>, tf: TimeFrame) -> Seq<Candle> {
    s[choose|i: int| 0 <= i < s.len() && centry_matches(#[trigger] s[i], sym, tf)].candles@
}

/// Keyed cache over immutable candle series.
pub struct SeriesCache {
    pub entries: Vec<CacheEntry>,
    pub access_counter: u64,
    pub total_candles: usize,
}

/// Every key of `post` is live in `pre` with the same series: what
/// eviction and invalidation leave behind was already resident.
pub open spec fn cache_subset(post: SeriesCache, pre: SeriesCache) -> bool {
    forall|sym: Seq<char>, tf: TimeFrame|
        #![trigger post.has_entry(sym, tf)]
        post.has_entry(sym, tf) ==> pre.has_entry(sym, tf) && post.entry_at(sym, tf)
            == pre.entry_at(sym, tf)
}

/// Every key of `post` other than the named one was live in `pre` with
/// the same series: an insertion under the named key disturbs no other
/// lookup.
pub open spec fn others_preserved(
    prec: SeriesCache,
    postc: SeriesCache,
    sym: Seq<char>,
    tf: TimeFrame,
) -> bool {
    forall|s2: Seq<char>, t2: TimeFrame|
        #![trigger postc.has_entry(s2, t2)]
        !(s2 == sym && t2 == tf) && postc.has_entry(s2, t2) ==> prec.has_entry(s2, t2)
            && postc.entry_at(s2, t2) == prec.entry_at(s2, t2)
}

/// `post` holds exactly the keys of `pre`, each with the same series.
pub open spec fn same_entries(post: SeriesCache, pre: SeriesCache) -> bool {
    &&& cache_subset(post, pre)
    &&& forall|sym: Seq<char>, tf: TimeFrame|
        #![trigger pre.has_entry(sym, tf)]
        pre.has_entry(sym, tf) ==> post.has_entry(sym, tf)
}

impl SeriesCache {
    /// Unique keys, well-formed series, counters that match the entries,
    /// and access markers at or below the clock.
    pub open spec fn inv(&self) -> bool {
        &&& forall|i: int, j: int|
            0 <= i < j < self.entries@.len() ==> !(centry_matches(
                #[trigger] self.entries@[i],
                #[trigger] self.entries@[j].symbol@,
                self.entries@[j].timeframe,
            ))
        &&& forall|i: int|
            0 <= i < self.entries@.len() ==> wf_series(#[trigger] self.entries@[i].candles@)
        &&& self.total_candles == sum_entry_lens(self.entries@)
        &&& forall|i: int|
            0 <= i < self.entries@.len() ==> #[trigger] self.entries@[i].last_access
                <= self.access_counter
    }

    /// Whether a series is resident under the key.
    pub open spec fn has_entry(&self, sym: Seq<char>, tf: TimeFrame) -> bool {
        seq_has_entry(self.entries@, sym, tf)
    }

    /// The resident series under the key.
    pub open spec fn entry_at(&self, sym: Seq<char>, tf: TimeFrame) -> Seq<Candle> {
        seq_entry_at(self.entries@, sym, tf)
    }

    /// The empty cache.
    pub fn new() -> (r: SeriesCache)
        ensures
            r.inv(),
            r.entries@.len() == 0,
            r.total_candles == 0,
            forall|sym: Seq<char>, tf: TimeFrame| !r.has_entry(sym, tf),
    {
        SeriesCache { entries: Vec::new(), access_counter: 0, total_candles: 0 }
    }

    /// Index of the entry under the key, if any.
    fn find(&self, symbol: &str, tf: TimeFrame) -> (r: Option<usize>)
        requires
            self.inv(),
        ensures
            r is Some <==> self.has_entry(symbol@, tf),
            r is Some ==> 0 <= r->Some_0 < self.entries@.len() && centry_matches(
                self.entries@[r->Some_0 as int],
                symbol@,
                tf,
            ) && self.entries@[r->Some_0 as int].candles@ == self.entry_at(symbol@, tf),
    {
        let n = self.entries.len();
        let mut i: usize = 0;
        while i < n
            invariant
                0 <= i <= n,
                n == self.entries@.len(),
                self.inv(),
                forall|j: int|
                    0 <= j < i ==> !centry_matches(#[trigger] self.entries@[j], symbol@, tf),
            decreases n - i,
        {
            let e = &self.entries[i];
            if str_equal(e.symbol.as_str(), symbol) && e.timeframe == tf {
                proof {
                    let w = choose|k: int|
                        0 <= k < self.entries@.len() && centry_matches(
                            #[trigger] self.entries@[k],
                            symbol@,
                            tf,
                        );
                    assert(centry_matches(self.entries@[i as int], symbol@, tf));
                    if w != i {
                        assert(centry_matches(
                            self.entries@[if w < i {
                                w
                            } else {
                                i as int
                            }],
                            self.entries@[if w < i {
                                i as int
                            } else {
                                w
                            }].symbol@,
                            self.entries@[if w < i {
                                i as int
                            } else {
                                w
                            }].timeframe,
                        ));
                    }
                }
                return Some(i);
            }
            i += 1;
        }
        proof {
            if self.has_entry(symbol@, tf) {
                let k = choose|k: int|
                    0 <= k < self.entries@.len() && centry_matches(
                        #[trigger] self.entries@[k],
                        symbol@,
                        tf,
                    );
                assert(!centry_matches(self.entries@[k], symbol@, tf));
            }
        }
        None
    }

    /// The length of the resident series under the key, if any, without
    /// touching any state.
    pub fn peek_len(&self, symbol: &str, tf: TimeFrame) -> (r: Option<usize>)
        requires
            self.inv(),
        ensures
            r is Some <==> self.has_entry(symbol@, tf),
            r is Some ==> r->Some_0 == self.entry_at(symbol@, tf).len(),
    {
        match self.find(symbol, tf) {
            Some(i) => Some(self.entries[i].candles.len()),
            None => None,
        }
    }

    /// A copy of the series under the key, if resident; a hit refreshes
    /// the entry's last-access marker and nothing else.
    #[verifier::rlimit(50)]
    pub fn lookup(&mut self, symbol: &str, tf: TimeFrame) -> (r: Option<Vec<Candle>>)
        requires
            old(self).inv(),
        ensures
            final(self).inv(),
            r is Some <==> old(self).has_entry(symbol@, tf),
            r is Some ==> r->Some_0@ == old(self).entry_at(symbol@, tf) && wf_series(
                r->Some_0@,
            ),
            same_entries(*final(self), *old(self)),
            final(self).total_candles == old(self).total_candles,
            r is None ==> *final(self) == *old(self),
    {
        let ghost pre = *self;
        proof {
            assert(same_entries(pre, pre));
        }
        match self.find(symbol, tf) {
            Some(i) => {
                let data = clone_candles(&self.entries[i].candles);
                let data2 = clone_candles(&self.entries[i].candles);
                let sym2 = self.entries[i].symbol.clone();
                let tf2 = self.entries[i].timeframe;
                if self.access_counter < u64::MAX {
                    self.access_counter = self.access_counter + 1;
                }
                let marker = self.access_counter;
                self.entries[i] = CacheEntry {
                    symbol: sym2,
                    timeframe: tf2,
                    candles: data2,
                    last_access: marker,
                };
                proof {
                    lemma_sum_lens_update(
                        pre.entries@,
                        i as int,
                        self.entries@[i as int],
                    );
                    assert forall|a: int, b: int|
                        0 <= a < b < self.entries@.len() implies !(centry_matches(
                        self.entries@[a],
                        self.entries@[b].symbol@,
                        self.entries@[b].timeframe,
                    )) by {
                        assert(self.entries@[i as int].symbol@ == pre.entries@[
                            i as int
                        ].symbol@);
                        assert(self.entries@[i as int].timeframe == pre.entries@[
                            i as int
                        ].timeframe);
                        if a != i {
                            assert(self.entries@[a] == pre.entries@[a]);
                        }
                        if b != i {
                            assert(self.entries@[b] == pre.entries@[b]);
                        }
                        assert(!(centry_matches(
                            pre.entries@[a],
                            pre.entries@[b].symbol@,
                            pre.entries@[b].timeframe,
                        )));
                    }
                    lemma_same_entries_update_same_key(pre, *self, i as int);
                }
                Some(data)
            },
            None => None,
        }
    }

    /// Drop the entry under the key, if resident; every other key keeps
    /// its series.
    #[verifier::rlimit(50)]
    pub fn invalidate(&mut self, symbol: &str, tf: TimeFrame)
        requires
            old(self).inv(),
        ensures
            final(self).inv(),
            !final(self).has_entry(symbol@, tf),
            cache_subset(*final(self), *old(self)),
            forall|sym: Seq<char>, tf2: TimeFrame|
                #![trigger old(self).has_entry(sym, tf2)]
                !(sym == symbol@ && tf2 == tf) && old(self).has_entry(sym, tf2)
                    ==> final(self).has_entry(sym, tf2),
            final(self).total_candles <= old(self).total_candles,
    {
        let ghost pre = *self;
        match self.find(symbol, tf) {
            Some(i) => {
                let removed = self.entries.remove(i);
                proof {
                    lemma_sum_lens_remove(pre.entries@, i as int);
                    lemma_sum_lens_nonneg(self.entries@);
                }
                self.total_candles = self.total_candles - removed.candles.len();
                proof {
                    assert forall|a: int, b: int|
                        0 <= a < b < self.entries@.len() implies !(centry_matches(
                        self.entries@[a],
                        self.entries@[b].symbol@,
                        self.entries@[b].timeframe,
                    )) by {
                        let ao = if a < i {
                            a
                        } else {
                            a + 1
                        };
                        let bo = if b < i {
                            b
                        } else {
                            b + 1
                        };
                        assert(self.entries@[a] == pre.entries@[ao]);
                        assert(self.entries@[b] == pre.entries@[bo]);
                        assert(!(centry_matches(
                            pre.entries@[ao],
                            pre.entries@[bo].symbol@,
                            pre.entries@[bo].timeframe,
                        )));
                    }
                    lemma_remove_keeps_others(pre, *self, i as int);
                    if self.has_entry(symbol@, tf) {
                        let k = choose|k: int|
                            0 <= k < self.entries@.len() && centry_matches(
                                #[trigger] self.entries@[k],
                                symbol@,
                                tf,
                            );
                        let ko = if k < i {
                            k
                        } else {
                            k + 1
                        };
                        assert(pre.entries@[ko] == self.entries@[k]);
                        assert(centry_matches(pre.entries@[ko], symbol@, tf));
                        assert(centry_matches(pre.entries@[i as int], symbol@, tf));
                        assert(ko != i);
                        assert(centry_matches(
                            pre.entries@[if ko < i {
                                ko
                            } else {
                                i as int
                            }],
                            pre.entries@[if ko < i {
                                i as int
                            } else {
                                ko
                            }].symbol@,
                            pre.entries@[if ko < i {
                                i as int
                            } else {
                                ko
                            }].timeframe,
                        ));
                        assert(false);
                    }
                }
            },
            None => {
                proof {
                    assert(cache_subset(pre, pre));
                }
            },
        }
    }

    /// Evict every entry; counters return to zero. Copies already handed
    /// out are unaffected.
    pub fn clear(&mut self)
        ensures
            final(self).inv(),
            final(self).entries@.len() == 0,
            final(self).total_candles == 0,
            forall|sym: Seq<char>, tf: TimeFrame| !final(self).has_entry(sym, tf),
    {
        self.entries = Vec::new();
        self.access_counter = 0;
        self.total_candles = 0;
    }

    /// The live counters: how many entries are resident and how many
    /// candles they hold in total, which the invariant ties to the sum
    /// over live entries.
    pub fn stats(&self) -> (r: CacheStats)
        requires
            self.inv(),
        ensures
            r.entries == self.entries@.len(),
            r.total_candles == self.total_candles,
            r.total_candles == sum_entry_lens(self.entries@),
    {
        CacheStats { entries: self.entries.len(), total_candles: self.total_candles }
    }

    /// Remove one entry whose last-access marker is least.
    fn evict_lru(&mut self)
        requires
            old(self).inv(),
            old(self).entries@.len() > 0,
        ensures
            final(self).inv(),
            final(self).entries@.len() == old(self).entries@.len() - 1,
            cache_subset(*final(self), *old(self)),
            final(self).total_candles <= old(self).total_candles,
            final(self).access_counter == old(self).access_counter,
    {
        let ghost pre = *self;
        let n = self.entries.len();
        let mut best: usize = 0;
        let mut i: usize = 1;
        while i < n
            invariant
                0 <= best < i <= n,
                n == self.entries@.len(),
                self.inv(),
                forall|j: int|
                    0 <= j < i ==> self.entries@[best as int].last_access
                        <= #[trigger] self.entries@[j].last_access,
            decreases n - i,
        {
            if self.entries[i].last_access < self.entries[best].last_access {
                best = i;
            }
            i += 1;
        }
        let removed = self.entries.remove(best);
        proof {
            lemma_sum_lens_remove(pre.entries@, best as int);
            lemma_sum_lens_nonneg(self.entries@);
        }
        self.total_candles = self.total_candles - removed.candles.len();
        proof {
            lemma_remove_keeps_others(pre, *self, best as int);
        }
    }

    /// Make room for `incoming` more candles under the configured soft
    /// target, evicting least-recently-accessed entries; an oversized
    /// series is admitted once nothing else is left to evict.
    fn make_room(&mut self, incoming: usize, max_size: usize)
        requires
            old(self).inv(),
        ensures
            final(self).inv(),
            cache_subset(*final(self), *old(self)),
            final(self).total_candles + incoming <= max_size || final(self).entries@.len()
                == 0,
            final(self).access_counter == old(self).access_counter,
    {
        let ghost pre = *self;
        proof {
            assert(cache_subset(pre, pre));
        }
        while self.entries.len() > 0 && (incoming > max_size || self.total_candles > max_size
            - incoming)
            invariant
                self.inv(),
                cache_subset(*self, pre),
                self.access_counter == pre.access_counter,
            decreases self.entries@.len(),
        {
            let ghost mid = *self;
            self.evict_lru();
            proof {
                lemma_cache_subset_trans(*self, mid, pre);
            }
        }
    }

    /// Insert a series under a key that is not resident, evicting
    /// least-recently-accessed entries first so the soft size target is
    /// met whenever any other entry remains.
    pub fn insert(&mut self, symbol: &str, tf: TimeFrame, candles: Vec<Candle>, max_size: usize)
        requires
            old(self).inv(),
            wf_series(candles@),
            !old(self).has_entry(symbol@, tf),
        ensures
            final(self).inv(),
            final(self).has_entry(symbol@, tf),
            final(self).entry_at(symbol@, tf) == candles@,
            others_preserved(*old(self), *final(self), symbol@, tf),
            final(self).total_candles <= max_size || final(self).entries@.len() == 1,
    {
        let ghost pre = *self;
        let len = candles.len();
        self.make_room(len, max_size);
        let ghost roomy = *self;
        if self.access_counter < u64::MAX {
            self.access_counter = self.access_counter + 1;
        }
        let marker = self.access_counter;
        let ghost before_push = *self;
        self.entries.push(
            CacheEntry {
                symbol: String::from_str(symbol),
                timeframe: tf,
                candles,
                last_access: marker,
            },
        );
        self.total_candles = self.total_candles + len;
        proof {
            assert(self.entries@.drop_last() =~= before_push.entries@);
            assert(sum_entry_lens(self.entries@) == sum_entry_lens(before_push.entries@)
                + len);
            assert(before_push.entries@ == roomy.entries@);
            assert(!before_push.has_entry(symbol@, tf)) by {
                if before_push.has_entry(symbol@, tf) {
                    let k = choose|k: int|
                        0 <= k < before_push.entries@.len() && centry_matches(
                            #[trigger] before_push.entries@[k],
                            symbol@,
                            tf,
                        );
                    assert(centry_matches(roomy.entries@[k], symbol@, tf));
                    assert(roomy.has_entry(symbol@, tf));
                    assert(pre.has_entry(symbol@, tf));
                }
            }
            assert forall|i0: int, j0: int| 0 <= i0 < j0 < self.entries@.len() implies !(
            centry_matches(
                self.entries@[i0],
                self.entries@[j0].symbol@,
                self.entries@[j0].timeframe,
            )) by {
                assert(self.entries@[i0] == before_push.entries@[i0]);
                if j0 < self.entries@.len() - 1 {
                    assert(self.entries@[j0] == before_push.entries@[j0]);
                } else {
                    assert(self.entries@[j0] == self.entries@.last());
                    if centry_matches(self.entries@[i0], symbol@, tf) {
                        assert(centry_matches(before_push.entries@[i0], symbol@, tf));
                        assert(before_push.has_entry(symbol@, tf));
                    }
                }
            }
            assert(self.inv());
            lemma_push_new_key(before_push, *self, symbol@, tf);
            assert(cache_subset(roomy, pre));
            assert forall|s2: Seq<char>, t2: TimeFrame|
                !(s2 == symbol@ && t2 == tf) && #[trigger] self.has_entry(s2, t2) implies pre
                .has_entry(s2, t2) && self.entry_at(s2, t2) == pre.entry_at(s2, t2) by {
                assert(before_push.has_entry(s2, t2));
                assert(roomy.has_entry(s2, t2));
                assert(roomy.entry_at(s2, t2) == before_push.entry_at(s2, t2));
            }
        }
    }
}

/// The statistics invariant: in every reachable cache the running total
/// equals the sum of candle counts over the live entries, so `stats`
/// always reports the exact total.
pub proof fn lemma_stats_total_exact(c: SeriesCache)
    requires
        c.inv(),
    ensures
        c.total_candles == sum_entry_lens(c.entries@),
{
}

/// Transitivity of residence: what survives two shrinks survived the first.
pub proof fn lemma_cache_subset_trans(a: SeriesCache, b: SeriesCache, c: SeriesCache)
    requires
        cache_subset(a, b),
        cache_subset(b, c),
    ensures
        cache_subset(a, c),
{
}

/// Rewriting entry `i` in place with the same key and series (only its
/// access marker changed) leaves every lookup unchanged.
proof fn lemma_same_entries_update_same_key(pre: SeriesCache, post: SeriesCache, i: int)
    requires
        pre.inv(),
        0 <= i < pre.entries@.len(),
        post.entries@.len() == pre.entries@.len(),
        post.entries@[i].symbol@ == pre.entries@[i].symbol@,
        post.entries@[i].timeframe == pre.entries@[i].timeframe,
        post.entries@[i].candles@ == pre.entries@[i].candles@,
        forall|j: int| 0 <= j < pre.entries@.len() && j != i ==> post.entries@[j]
            == #[trigger] pre.entries@[j],
    ensures
        same_entries(post, pre),
{
    assert forall|sym: Seq<char>, tf: TimeFrame| #[trigger] post.has_entry(sym, tf) implies pre
        .has_entry(sym, tf) && post.entry_at(sym, tf) == pre.entry_at(sym, tf) by {
        let k = choose|k: int|
            0 <= k < post.entries@.len() && centry_matches(#[trigger] post.entries@[k], sym, tf);
        assert(centry_matches(pre.entries@[k], sym, tf));
        let kp = choose|k2: int|
            0 <= k2 < pre.entries@.len() && centry_matches(#[trigger] pre.entries@[k2], sym, tf);
        if kp != k {
            assert(centry_matches(
                pre.entries@[if kp < k {
                    kp
                } else {
                    k
                }],
                pre.entries@[if kp < k {
                    k
                } else {
                    kp
                }].symbol@,
                pre.entries@[if kp < k {
                    k
                } else {
                    kp
                }].timeframe,
            ));
        }
        assert(post.entry_at(sym, tf) == post.entries@[choose|k3: int|
            0 <= k3 < post.entries@.len() && centry_matches(
                #[trigger] post.entries@[k3],
                sym,
                tf,
            )].candles@);
        let kq = choose|k3: int|
            0 <= k3 < post.entries@.len() && centry_matches(
                #[trigger] post.entries@[k3],
                sym,
                tf,
            );
        if kq != k {
            assert(centry_matches(pre.entries@[kq], sym, tf));
            assert(centry_matches(
                pre.entries@[if kq < k {
                    kq
                } else {
                    k
                }],
                pre.entries@[if kq < k {
                    k
                } else {
                    kq
                }].symbol@,
                pre.entries@[if kq < k {
                    k
                } else {
                    kq
                }].timeframe,
            ));
        }
    }
    assert forall|sym: Seq<char>, tf: TimeFrame| #[trigger] pre.has_entry(sym, tf) implies post
        .has_entry(sym, tf) by {
        let k = choose|k: int|
            0 <= k < pre.entries@.len() && centry_matches(#[trigger] pre.entries@[k], sym, tf);
        assert(centry_matches(post.entries@[k], sym, tf));
    }
}

/// Removing entry `i` keeps every other key resident with its series.
proof fn lemma_remove_keeps_others(pre: SeriesCache, post: SeriesCache, i: int)
    requires
        pre.inv(),
        0 <= i < pre.entries@.len(),
        post.entries@ == pre.entries@.remove(i),
    ensures
        cache_subset(post, pre),
        forall|sym: Seq<char>, tf: TimeFrame|
            #![trigger pre.has_entry(sym, tf)]
            pre.has_entry(sym, tf) && !centry_matches(pre.entries@[i], sym, tf) ==> post.has_entry(
                sym,
                tf,
            ),
{
    assert forall|sym: Seq<char>, tf: TimeFrame| #[trigger] post.has_entry(sym, tf) implies pre
        .has_entry(sym, tf) && post.entry_at(sym, tf) == pre.entry_at(sym, tf) by {
        let k = choose|k: int|
            0 <= k < post.entries@.len() && centry_matches(#[trigger] post.entries@[k], sym, tf);
        let ko = if k < i {
            k
        } else {
            k + 1
        };
        assert(post.entries@[k] == pre.entries@[ko]);
        assert(centry_matches(pre.entries@[ko], sym, tf));
        let kp = choose|k2: int|
            0 <= k2 < pre.entries@.len() && centry_matches(#[trigger] pre.entries@[k2], sym, tf);
        if kp != ko {
            assert(centry_matches(
                pre.entries@[if kp < ko {
                    kp
                } else {
                    ko
                }],
                pre.entries@[if kp < ko {
                    ko
                } else {
                    kp
                }].symbol@,
                pre.entries@[if kp < ko {
                    ko
                } else {
                    kp
                }].timeframe,
            ));
        }
        let kq = choose|k3: int|
            0 <= k3 < post.entries@.len() && centry_matches(
                #[trigger] post.entries@[k3],
                sym,
                tf,
            );
        let kqo = if kq < i {
            kq
        } else {
            kq + 1
        };
        assert(post.entries@[kq] == pre.entries@[kqo]);
        assert(centry_matches(pre.entries@[kqo], sym, tf));
        if kqo != kp {
            assert(centry_matches(
                pre.entries@[if kqo < kp {
                    kqo
                } else {
                    kp
                }],
                pre.entries@[if kqo < kp {
                    kp
                } else {
                    kqo
                }].symbol@,
                pre.entries@[if kqo < kp {
                    kp
                } else {
                    kqo
                }].timeframe,
            ));
        }
    }
    assert forall|sym: Seq<char>, tf: TimeFrame|
        #[trigger] pre.has_entry(sym, tf) && !centry_matches(pre.entries@[i], sym, tf) implies post
        .has_entry(sym, tf) by {
        let k = choose|k: int|
            0 <= k < pre.entries@.len() && centry_matches(#[trigger] pre.entries@[k], sym, tf);
        if k < i {
            assert(post.entries@[k] == pre.entries@[k]);
        } else {
            assert(k > i);
            assert(post.entries@[k - 1] == pre.entries@[k]);
        }
    }
}

/// Appending a fresh key adds it and disturbs no other lookup.
proof fn lemma_push_new_key(pre: SeriesCache, post: SeriesCache, sym: Seq<char>, tf: TimeFrame)
    requires
        pre.inv(),
        post.entries@.len() == pre.entries@.len() + 1,
        post.entries@.drop_last() == pre.entries@,
        centry_matches(post.entries@.last(), sym, tf),
        !pre.has_entry(sym, tf),
        post.inv(),
    ensures
        post.has_entry(sym, tf),
        post.entry_at(sym, tf) == post.entries@.last().candles@,
        forall|s2: Seq<char>, t2: TimeFrame|
            #![trigger post.has_entry(s2, t2)]
            !(s2 == sym && t2 == tf) && post.has_entry(s2, t2) ==> pre.has_entry(s2, t2)
                && post.entry_at(s2, t2) == pre.entry_at(s2, t2),
{
    let last = post.entries@.len() - 1;
    assert(centry_matches(post.entries@[last], sym, tf));
    let kq = choose|k: int|
        0 <= k < post.entries@.len() && centry_matches(#[trigger] post.entries@[k], sym, tf);
    if kq != last {
        assert(post.entries@[kq] == pre.entries@[kq]);
        assert(centry_matches(pre.entries@[kq], sym, tf));
    }
    assert forall|s2: Seq<char>, t2: TimeFrame|
        !(s2 == sym && t2 == tf) && #[trigger] post.has_entry(s2, t2) implies pre.has_entry(
        s2,
        t2,
    ) && post.entry_at(s2, t2) == pre.entry_at(s2, t2) by {
        let k = choose|k: int|
            0 <= k < post.entries@.len() && centry_matches(#[trigger] post.entries@[k], s2, t2);
        assert(k != last);
        assert(post.entries@[k] == pre.entries@[k]);
        assert(centry_matches(pre.entries@[k], s2, t2));
        let kp = choose|k2: int|
            0 <= k2 < pre.entries@.len() && centry_matches(#[trigger] pre.entries@[k2], s2, t2);
        if kp != k {
            assert(centry_matches(
                pre.entries@[if kp < k {
                    kp
                } else {
                    k
                }],
                pre.entries@[if kp < k {
                    k
                } else {
                    kp
                }].symbol@,
                pre.entries@[if kp < k {
                    k
                } else {
                    kp
                }].timeframe,
            ));
        }
        let kq2 = choose|k3: int|
            0 <= k3 < post.entries@.len() && centry_matches(
                #[trigger] post.entries@[k3],
                s2,
                t2,
            );
        if kq2 != k {
            if kq2 == last {
                assert(centry_matches(post.entries@[last], s2, t2));
                assert(s2 == sym && t2 == tf);
            } else {
                assert(post.entries@[kq2] == pre.entries@[kq2]);
                assert(centry_matches(pre.entries@[kq2], s2, t2));
                assert(centry_matches(
                    pre.entries@[if kq2 < k {
                        kq2
                    } else {
                        k
                    }],
                    pre.entries@[if kq2 < k {
                        k
                    } else {
                        kq2
                    }].symbol@,
                    pre.entries@[if kq2 < k {
                        k
                    } else {
                        kq2
                    }].timeframe,
                ));
            }
        }
    }
}

} // verus!
