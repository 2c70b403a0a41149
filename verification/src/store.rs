//! The candle store: the durable home of one ordered candle series per
//! (symbol, timeframe) key, behind load/save. The cache reads through it
//! on a miss; persistence technology is outside this engine.

use vstd::prelude::*;

use crate::candle::Candle;
use crate::candle::wf_series;
use crate::text::str_equal;
use crate::timeframe::TimeFrame;

verus! {

/// One stored series and its key.
pub struct StoreEntry {
    pub symbol: String,
    pub timeframe: TimeFrame,
    pub candles: Vec<Candle>,
}

/// Whether an entry carries the given key.
pub open spec fn entry_matches(e: StoreEntry, sym: Seq<char>, tf: TimeFrame) -> bool {
    e.symbol@ == sym && e.timeframe == tf
}

/// Per-(symbol, timeframe) storage of ordered candle series.
pub struct CandleStore {
    pub entries: Vec<StoreEntry>,
}

impl CandleStore {
    /// Keys are unique and every stored series is well formed.
    pub open spec fn inv(&self) -> bool {
        &&& forall|i: int, j: int|
            0 <= i < j < self.entries@.len() ==> !(entry_matches(
                #[trigger] self.entries@[i],
                #[trigger] self.entries@[j].symbol@,
                self.entries@[j].timeframe,
            ))
        &&& forall|i: int|
            0 <= i < self.entries@.len() ==> wf_series(#[trigger] self.entries@[i].candles@)
    }

    /// Whether a series is stored under the key.
    pub open spec fn has_series(&self, sym: Seq<char>, tf: TimeFrame) -> bool {
        exists|i: int|
            0 <= i < self.entries@.len() && entry_matches(#[trigger] self.entries@[i], sym, tf)
    }

    /// The series stored under the key.
    pub open spec fn series_at(&self, sym: Seq<char>, tf: TimeFrame) -> Seq<Candle> {
        self.entries@[choose|i: int|
            0 <= i < self.entries@.len() && entry_matches(#[trigger] self.entries@[i], sym, tf)
        ].candles@
    }

    /// The empty store.
    pub fn new() -> (r: CandleStore)
        ensures
            r.inv(),
            r.entries@.len() == 0,
            forall|sym: Seq<char>, tf: TimeFrame| !r.has_series(sym, tf),
    {
        CandleStore { entries: Vec::new() }
    }

    /// Index of the entry under the key, if any.
    fn find(&self, symbol: &str, tf: TimeFrame) -> (r: Option<usize>)
        requires
            self.inv(),
        ensures
            r is Some <==> self.has_series(symbol@, tf),
            r is Some ==> 0 <= r->Some_0 < self.entries@.len() && entry_matches(
                self.entries@[r->Some_0 as int],
                symbol@,
                tf,
            ) && self.entries@[r->Some_0 as int].candles@ == self.series_at(symbol@, tf),
    {
        let n = self.entries.len();
        let mut i: usize = 0;
        while i < n
            invariant
                0 <= i <= n,
                n == self.entries@.len(),
                self.inv(),
                forall|j: int|
                    0 <= j < i ==> !entry_matches(#[trigger] self.entries@[j], symbol@, tf),
            decreases n - i,
        {
            let e = &self.entries[i];
            if str_equal(e.symbol.as_str(), symbol) && e.timeframe == tf {
                proof {
                    let w = choose|k: int|
                        0 <= k < self.entries@.len() && entry_matches(
                            #[trigger] self.entries@[k],
                            symbol@,
                            tf,
                        );
                    assert(entry_matches(self.entries@[i as int], symbol@, tf));
                    if w != i {
                        assert(entry_matches(
                            self.entries@[if w < i {
                                w
                            } else {
                                i as int
                            }],
                            self.entries@[if w < i {
                                i as int
                            } else {
                                w
                            }].symbol@,
                            self.entries@[if w < i {
                                i as int
                            } else {
                                w
                            }].timeframe,
                        ));
                    }
                }
                return Some(i);
            }
            i += 1;
        }
        proof {
            if self.has_series(symbol@, tf) {
                let k = choose|k: int|
                    0 <= k < self.entries@.len() && entry_matches(
                        #[trigger] self.entries@[k],
                        symbol@,
                        tf,
                    );
                assert(!entry_matches(self.entries@[k], symbol@, tf));
            }
        }
        None
    }

    /// A copy of the series stored under the key, if any.
    pub fn load(&self, symbol: &str, tf: TimeFrame) -> (r: Option<Vec<Candle>>)
        requires
            self.inv(),
        ensures
            r is Some <==> self.has_series(symbol@, tf),
            r is Some ==> r->Some_0@ == self.series_at(symbol@, tf) && wf_series(r->Some_0@),
    {
        match self.find(symbol, tf) {
            Some(i) => {
                let copy = clone_candles(&self.entries[i].candles);
                Some(copy)
            },
            None => None,
        }
    }

    /// Store `candles` under the key, replacing any prior series there;
    /// every other key keeps its series.
    pub fn save(&mut self, symbol: &str, tf: TimeFrame, candles: Vec<Candle>)
        requires
            old(self).inv(),
            wf_series(candles@),
        ensures
            final(self).inv(),
            final(self).has_series(symbol@, tf),
            final(self).series_at(symbol@, tf) == candles@,
            forall|sym: Seq<char>, tf2: TimeFrame|
                !(sym == symbol@ && tf2 == tf) ==> #[trigger] final(self).has_series(sym, tf2)
                    == old(self).has_series(sym, tf2),
            forall|sym: Seq<char>, tf2: TimeFrame|
                !(sym == symbol@ && tf2 == tf) && old(self).has_series(sym, tf2)
                    ==> #[trigger] final(self).series_at(sym, tf2) == old(self).series_at(
                    sym,
                    tf2,
                ),
    {
        let ghost pre = *self;
        match self.find(symbol, tf) {
            Some(i) => {
                self.entries[i] = StoreEntry {
                    symbol: String::from_str(symbol),
                    timeframe: tf,
                    candles,
                };
                proof {
                    lemma_lookup_stable(pre, *self, symbol@, tf);
                }
            },
            None => {
                self.entries.push(
                    StoreEntry { symbol: String::from_str(symbol), timeframe: tf, candles },
                );
                proof {
                    lemma_lookup_stable(pre, *self, symbol@, tf);
                }
            },
        }
    }

    /// The symbol of each stored series, one per entry, in store order.
    pub fn symbols(&self) -> (r: Vec<String>)
        ensures
            r@.len() == self.entries@.len(),
            forall|k: int|
                0 <= k < r@.len() ==> #[trigger] r@[k]@ == self.entries@[k].symbol@,
    {
        let n = self.entries.len();
        let mut out: Vec<String> = Vec::new();
        let mut i: usize = 0;
        while i < n
            invariant
                0 <= i <= n,
                n == self.entries@.len(),
                out@.len() == i,
                forall|k: int|
                    0 <= k < i ==> #[trigger] out@[k]@ == self.entries@[k].symbol@,
            decreases n - i,
        {
            out.push(self.entries[i].symbol.clone());
            i += 1;
        }
        out
    }

    /// The finest stored timeframe for the symbol: the one with the
    /// shortest bar length among the symbol's stored series.
    pub fn finest_for(&self, symbol: &str) -> (r: Option<TimeFrame>)
        requires
            self.inv(),
        ensures
            r is Some <==> exists|tf: TimeFrame| self.has_series(symbol@, tf),
            r is Some ==> self.has_series(symbol@, r->Some_0) && forall|tf: TimeFrame|
                self.has_series(symbol@, tf) ==> r->Some_0.duration_spec()
                    <= tf.duration_spec(),
    {
        let n = self.entries.len();
        let mut best: Option<TimeFrame> = None;
        let mut i: usize = 0;
        while i < n
            invariant
                0 <= i <= n,
                n == self.entries@.len(),
                self.inv(),
                best is Some <==> exists|j: int|
                    0 <= j < i && #[trigger] self.entries@[j].symbol@ == symbol@,
                best is Some ==> self.has_series(symbol@, best->Some_0) && forall|j: int|
                    0 <= j < i && #[trigger] self.entries@[j].symbol@ == symbol@
                        ==> best->Some_0.duration_spec()
                        <= self.entries@[j].timeframe.duration_spec(),
            decreases n - i,
        {
            let e = &self.entries[i];
            if str_equal(e.symbol.as_str(), symbol) {
                let better = match best {
                    Some(b) => e.timeframe.duration_seconds() < b.duration_seconds(),
                    None => true,
                };
                if better {
                    best = Some(e.timeframe);
                    proof {
                        assert(entry_matches(self.entries@[i as int], symbol@, e.timeframe));
                    }
                }
            }
            i += 1;
        }
        proof {
            if best is Some {
            } else {
                if exists|tf: TimeFrame| self.has_series(symbol@, tf) {
                    let tf = choose|tf: TimeFrame| self.has_series(symbol@, tf);
                    let j = choose|j: int|
                        0 <= j < self.entries@.len() && entry_matches(
                            #[trigger] self.entries@[j],
                            symbol@,
                            tf,
                        );
                    assert(self.entries@[j].symbol@ == symbol@);
                }
            }
        }
        best
    }
}

/// After writing the key, every lookup is as before except at that key.
proof fn lemma_lookup_stable(pre: CandleStore, post: CandleStore, sym: Seq<char>, tf: TimeFrame)
    requires
        pre.inv(),
        post.inv(),
        // post's entries are pre's with the (sym, tf) slot written or appended
        pre.has_series(sym, tf) ==> post.entries@.len() == pre.entries@.len() && exists|i: int|
            0 <= i < pre.entries@.len() && entry_matches(#[trigger] pre.entries@[i], sym, tf)
                && entry_matches(post.entries@[i], sym, tf) && (forall|j: int|
                0 <= j < pre.entries@.len() && j != i ==> post.entries@[j]
                    == #[trigger] pre.entries@[j]),
        !pre.has_series(sym, tf) ==> post.entries@ == pre.entries@.push(
            post.entries@.last(),
        ) && entry_matches(post.entries@.last(), sym, tf),
    ensures
        forall|s2: Seq<char>, t2: TimeFrame|
            !(s2 == sym && t2 == tf) ==> #[trigger] post.has_series(s2, t2) == pre.has_series(
                s2,
                t2,
            ),
        forall|s2: Seq<char>, t2: TimeFrame|
            !(s2 == sym && t2 == tf) && pre.has_series(s2, t2) ==> #[trigger] post.series_at(
                s2,
                t2,
            ) == pre.series_at(s2, t2),
{
    assert forall|s2: Seq<char>, t2: TimeFrame| !(s2 == sym && t2 == tf) implies #[trigger] post
        .has_series(s2, t2) == pre.has_series(s2, t2) by {
        if pre.has_series(s2, t2) {
            let j = choose|j: int|
                0 <= j < pre.entries@.len() && entry_matches(#[trigger] pre.entries@[j], s2, t2);
            assert(entry_matches(post.entries@[j], s2, t2));
        }
        if post.has_series(s2, t2) {
            let j = choose|j: int|
                0 <= j < post.entries@.len() && entry_matches(
                    #[trigger] post.entries@[j],
                    s2,
                    t2,
                );
            if j < pre.entries@.len() {
                assert(entry_matches(pre.entries@[j], s2, t2) || entry_matches(
                    post.entries@[j],
                    sym,
                    tf,
                ));
            }
        }
    }
    assert forall|s2: Seq<char>, t2: TimeFrame|
        !(s2 == sym && t2 == tf) && pre.has_series(s2, t2) implies #[trigger] post.series_at(
        s2,
        t2,
    ) == pre.series_at(s2, t2) by {
        let jp = choose|j: int|
            0 <= j < pre.entries@.len() && entry_matches(#[trigger] pre.entries@[j], s2, t2);
        assert(entry_matches(post.entries@[jp], s2, t2));
        let jq = choose|j: int|
            0 <= j < post.entries@.len() && entry_matches(#[trigger] post.entries@[j], s2, t2);
        if jq != jp {
            assert(entry_matches(
                post.entries@[if jq < jp {
                    jq
                } else {
                    jp
                }],
                post.entries@[if jq < jp {
                    jp
                } else {
                    jq
                }].symbol@,
                post.entries@[if jq < jp {
                    jp
                } else {
                    jq
                }].timeframe,
            ));
        }
        assert(post.entries@[jp] == pre.entries@[jp]);
    }
}

/// An element-for-element copy of a candle series.
pub fn clone_candles(v: &Vec<Candle>) -> (r: Vec<Candle>)
    ensures
        r@ == v@,
{
    let n = v.len();
    let mut out: Vec<Candle> = Vec::new();
    let mut i: usize = 0;
    while i < n
        invariant
            0 <= i <= n,
            n == v@.len(),
            out@ == v@.take(i as int),
        decreases n - i,
    {
        out.push(v[i]);
        proof {
            assert(out@ =~= v@.take(i + 1));
        }
        i += 1;
    }
    proof {
        assert(v@.take(n as int) =~= v@);
    }
    out
}

} // verus!
