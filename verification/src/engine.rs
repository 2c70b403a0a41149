//! The engine context: one value owning the candle store, the series
//! cache, the session configuration and the single replay session, with
//! the command surface the application calls.

use vstd::prelude::*;

use crate::aggregate::aggregate;
use crate::aggregate::aggregate_spec;
use crate::aggregate::series_model;
use crate::cache::SeriesCache;
use crate::cache::cache_subset;
use crate::cache::others_preserved;
use crate::cache::same_entries;
use crate::candle::Candle;
use crate::candle::OHLCVResponse;
use crate::candle::lemma_sum_abs_vol_elem;
use crate::candle::wf_series;
use crate::fixed::FixedDec;
use crate::fixed::dec_string_spec;
use crate::parse::import_candles;
use crate::parse::import_spec;
use crate::replay::ReplayInfo;
use crate::replay::ReplayState;
use crate::replay::ReplayStateResponse;
use crate::replay::ReplayUpdate;
use crate::replay::bwd_index;
use crate::replay::fwd_index;
use crate::replay::progress_den_spec;
use crate::replay::seek_index;
use crate::store::CandleStore;
use crate::store::clone_candles;
use crate::timeframe::TimeFrame;
use crate::ChartError;

verus! {

/// Soft cache limit a fresh engine starts with, in candles.
pub const DEFAULT_MAX_CACHE_SIZE: usize = 1_000_000;

/// Process-wide tunables, mutated only through an explicit update and
/// read by the cache for eviction sizing.
pub struct SessionConfig {
    pub symbol: String,
    pub timeframe: TimeFrame,
    pub start_time: Option<i64>,
    pub end_time: Option<i64>,
    pub max_cache_size: usize,
}

/// The engine: store, cache, session tunables, and the one replay session.
pub struct CoreEngine {
    pub store: CandleStore,
    pub cache: SeriesCache,
    pub session: SessionConfig,
    pub replay: ReplayState,
}

/// What a save leaves behind: the series durable under its key, every
/// other stored key untouched, the cache entry for the key dropped so
/// the next read reloads, every other cache key untouched, and the
/// session and replay state untouched.
pub open spec fn save_transition(
    pre: CoreEngine,
    post: CoreEngine,
    sym: Seq<char>,
    tf: TimeFrame,
    data: Seq<Candle>,
) -> bool {
    &&& post.store.has_series(sym, tf)
    &&& post.store.series_at(sym, tf) == data
    &&& forall|s2: Seq<char>, t2: TimeFrame|
        !(s2 == sym && t2 == tf) ==> #[trigger] post.store.has_series(s2, t2)
            == pre.store.has_series(s2, t2)
    &&& forall|s2: Seq<char>, t2: TimeFrame|
        !(s2 == sym && t2 == tf) && pre.store.has_series(s2, t2)
            ==> #[trigger] post.store.series_at(s2, t2) == pre.store.series_at(s2, t2)
    &&& !post.cache.has_entry(sym, tf)
    &&& cache_subset(post.cache, pre.cache)
    &&& forall|s2: Seq<char>, t2: TimeFrame|
        #![trigger pre.cache.has_entry(s2, t2)]
        !(s2 == sym && t2 == tf) && pre.cache.has_entry(s2, t2) ==> post.cache.has_entry(s2, t2)
    &&& post.replay == pre.replay
    &&& post.session == pre.session
}

/// What a read through the cache returns and leaves behind, for every
/// case: a hit serves the resident series; a miss serves the native
/// stored series and caches it, disturbing no other key and keeping the
/// resident total under the soft target unless the new entry stands
/// alone; a symbol stored only at finer timeframes is aggregated from
/// its finest series and cached the same way; an unknown symbol fails;
/// a bad direction fails; errors leave the cache exactly as it was, and
/// the store, session and replay state are never touched.
pub open spec fn load_outcome_data(
    pre: CoreEngine,
    postc: SeriesCache,
    sym: Seq<char>,
    tf: TimeFrame,
    r: Result<Seq<Candle>, ChartError>,
) -> bool {
    &&& (pre.cache.has_entry(sym, tf) ==> r == Result::<Seq<Candle>, ChartError>::Ok(
        pre.cache.entry_at(sym, tf),
    ) && same_entries(postc, pre.cache))
    &&& (!pre.cache.has_entry(sym, tf) && pre.store.has_series(sym, tf) ==> r == Result::<
        Seq<Candle>,
        ChartError,
    >::Ok(pre.store.series_at(sym, tf)) && postc.has_entry(sym, tf) && postc.entry_at(sym, tf)
        == pre.store.series_at(sym, tf) && others_preserved(pre.cache, postc, sym, tf) && (
    postc.total_candles <= pre.session.max_cache_size || postc.entries@.len() == 1))
    &&& (!pre.cache.has_entry(sym, tf) && !pre.store.has_series(sym, tf) && !(exists|f: TimeFrame|
        pre.store.has_series(sym, f)) ==> r == Result::<Seq<Candle>, ChartError>::Err(
        ChartError::SymbolNotFound,
    ) && postc == pre.cache)
    &&& (!pre.cache.has_entry(sym, tf) && !pre.store.has_series(sym, tf) && (exists|f: TimeFrame|
        pre.store.has_series(sym, f)) ==> exists|f: TimeFrame|
        {
            &&& #[trigger] pre.store.has_series(sym, f)
            &&& (forall|g: TimeFrame|
                pre.store.has_series(sym, g) ==> f.duration_spec() <= g.duration_spec())
            &&& if tf.duration_spec() % f.duration_spec() == 0 && tf.duration_spec()
                > f.duration_spec() {
                r is Ok && series_model(r->Ok_0) == aggregate_spec(
                    series_model(pre.store.series_at(sym, f)),
                    tf.duration_spec(),
                ) && postc.has_entry(sym, tf) && postc.entry_at(sym, tf) == r->Ok_0
                    && others_preserved(pre.cache, postc, sym, tf) && (postc.total_candles
                    <= pre.session.max_cache_size || postc.entries@.len() == 1)
            } else {
                r == Result::<Seq<Candle>, ChartError>::Err(
                    ChartError::AggregationDirectionError,
                ) && postc == pre.cache
            }
        })
}

pub open spec fn load_outcome(
    pre: CoreEngine,
    post: CoreEngine,
    sym: Seq<char>,
    tf: TimeFrame,
    r: Result<Seq<Candle>, ChartError>,
) -> bool {
    &&& post.store == pre.store
    &&& post.replay == pre.replay
    &&& post.session == pre.session
    &&& load_outcome_data(pre, post.cache, sym, tf, r)
}

/// The spec image of an executable read result.
pub open spec fn res_view(r: Result<Vec<Candle>, ChartError>) -> Result<Seq<Candle>, ChartError> {
    match r {
        Result::Ok(v) => Result::Ok(v@),
        Result::Err(e) => Result::Err(e),
    }
}

/// Saving a series and then reading the same key returns exactly the
/// saved series: the save dropped any resident copy, so the read is
/// forced through the store.
pub proof fn lemma_save_then_load_round_trip(
    pre: CoreEngine,
    mid: CoreEngine,
    post: CoreEngine,
    sym: Seq<char>,
    tf: TimeFrame,
    data: Seq<Candle>,
    r: Result<Seq<Candle>, ChartError>,
)
    requires
        save_transition(pre, mid, sym, tf, data),
        load_outcome(mid, post, sym, tf, r),
    ensures
        r == Result::<Seq<Candle>, ChartError>::Ok(data),
{
}

/// The boundary forms of a run of candles, in order.
pub open spec fn responses_match(data: Seq<Candle>, rs: Seq<OHLCVResponse>) -> bool {
    &&& rs.len() == data.len()
    &&& forall|k: int|
        #![trigger rs[k]]
        0 <= k < data.len() ==> rs[k].time == data[k].time && rs[k].open@ == dec_string_spec(
            data[k].open.units as int,
        ) && rs[k].high@ == dec_string_spec(data[k].high.units as int) && rs[k].low@
            == dec_string_spec(data[k].low.units as int) && rs[k].close@ == dec_string_spec(
            data[k].close.units as int,
        ) && rs[k].volume@ == dec_string_spec(data[k].volume.units as int)
}

/// The boundary forms of a run of candle models, in order.
pub open spec fn responses_match_model(
    m: Seq<crate::aggregate::CandleModel>,
    rs: Seq<OHLCVResponse>,
) -> bool {
    &&& rs.len() == m.len()
    &&& forall|k: int|
        #![trigger rs[k]]
        0 <= k < m.len() ==> rs[k].time as int == m[k].time && rs[k].open@ == dec_string_spec(
            m[k].open,
        ) && rs[k].high@ == dec_string_spec(m[k].high) && rs[k].low@ == dec_string_spec(
            m[k].low,
        ) && rs[k].close@ == dec_string_spec(m[k].close) && rs[k].volume@ == dec_string_spec(
            m[k].volume,
        )
}

/// Map a well-formed series to its boundary form.
fn to_responses(data: &Vec<Candle>) -> (r: Vec<OHLCVResponse>)
    requires
        wf_series(data@),
    ensures
        responses_match(data@, r@),
{
    let n = data.len();
    let mut out: Vec<OHLCVResponse> = Vec::new();
    let mut i: usize = 0;
    while i < n
        invariant
            0 <= i <= n,
            n == data@.len(),
            wf_series(data@),
            out@.len() == i,
            responses_match(data@.take(i as int), out@),
        decreases n - i,
    {
        proof {
            lemma_sum_abs_vol_elem(data@, i as int);
            crate::candle::lemma_sum_abs_vol_nonneg(data@);
        }
        let resp = OHLCVResponse::from_candle(&data[i]);
        out.push(resp);
        proof {
            assert(data@.take(i + 1).len() == i + 1);
            assert(forall|k: int| 0 <= k < i + 1 ==> data@.take(i + 1)[k] == data@[k]);
        }
        i += 1;
    }
    proof {
        assert(data@.take(n as int) =~= data@);
    }
    out
}

impl CoreEngine {
    /// Store, cache and replay invariants all hold.
    pub open spec fn inv(&self) -> bool {
        &&& self.store.inv()
        &&& self.cache.inv()
        &&& self.replay.inv()
    }

    /// A fresh engine: empty store, empty cache, empty replay session,
    /// default session tunables.
    pub fn new() -> (r: CoreEngine)
        ensures
            r.inv(),
            forall|sym: Seq<char>, tf: TimeFrame| !r.store.has_series(sym, tf),
            forall|sym: Seq<char>, tf: TimeFrame| !r.cache.has_entry(sym, tf),
            r.replay.data@.len() == 0,
            r.session.max_cache_size == DEFAULT_MAX_CACHE_SIZE,
    {
        CoreEngine {
            store: CandleStore::new(),
            cache: SeriesCache::new(),
            session: SessionConfig {
                symbol: String::new(),
                timeframe: TimeFrame::H1,
                start_time: None,
                end_time: None,
                max_cache_size: DEFAULT_MAX_CACHE_SIZE,
            },
            replay: ReplayState::empty(),
        }
    }

    /// Read the series for the key, through the cache: a hit serves the
    /// resident copy; a miss loads the native series, or aggregates the
    /// symbol's finest stored series, and caches what it returns.
    pub fn get_or_load(&mut self, symbol: &str, tf: TimeFrame) -> (r: Result<
        Vec<Candle>,
        ChartError,
    >)
        requires
            old(self).inv(),
        ensures
            final(self).inv(),
            load_outcome(*old(self), *final(self), symbol@, tf, res_view(r)),
            r is Ok ==> wf_series(r->Ok_0@),
    {
        let max = self.session.max_cache_size;
        let cached = self.cache.lookup(symbol, tf);
        match cached {
            Some(data) => {
                return Ok(data);
            },
            None => {},
        }
        let data = match self.store.load(symbol, tf) {
            Some(d) => d,
            None => {
                let finest = self.store.finest_for(symbol);
                match finest {
                    None => {
                        return Err(ChartError::SymbolNotFound);
                    },
                    Some(f) => {
                        let base = match self.store.load(symbol, f) {
                            Some(b) => b,
                            None => {
                                proof {
                                    assert(false);
                                }
                                Vec::new()
                            },
                        };
                        match aggregate(&base, f, tf) {
                            Ok(a) => a,
                            Err(e) => {
                                proof {
                                    assert(old(self).store.has_series(symbol@, f));
                                    assert(forall|g: TimeFrame|
                                        old(self).store.has_series(symbol@, g)
                                            ==> f.duration_spec() <= g.duration_spec());
                                }
                                return Err(e);
                            },
                        }
                    },
                }
            },
        };
        let copy = clone_candles(&data);
        self.cache.insert(symbol, tf, copy, max);
        Ok(data)
    }

    /// Make the series durable under its key, then drop any resident
    /// cache entry for that exact key so the next read reloads it.
    pub fn save_ohlcv(&mut self, symbol: &str, tf: TimeFrame, candles: &Vec<Candle>)
        requires
            old(self).inv(),
            wf_series(candles@),
        ensures
            final(self).inv(),
            save_transition(*old(self), *final(self), symbol@, tf, candles@),
    {
        let copy = clone_candles(candles);
        self.store.save(symbol, tf, copy);
        self.cache.invalidate(symbol, tf);
    }
}


/// Count and identity of one completed import.
#[derive(Debug)]
pub struct ImportResult {
    pub candles_imported: usize,
    pub symbol: String,
    pub timeframe: String,
}

/// The session tunables, shaped for the application boundary.
pub struct SessionConfigResponse {
    pub symbol: String,
    pub timeframe: String,
    pub max_cache_size: usize,
}

/// A requested change to the session tunables.
pub struct SessionConfigRequest {
    pub symbol: String,
    pub timeframe: String,
    pub max_cache_size: usize,
}

/// The cache counters, shaped for the application boundary.
pub struct CacheStatsResponse {
    pub entries: usize,
    pub total_candles: usize,
}

/// Load the series for a symbol and timeframe label, as boundary rows.
pub fn load_ohlcv_data(core: &mut CoreEngine, symbol: &str, timeframe: &str) -> (r: Result<
    Vec<OHLCVResponse>,
    ChartError,
>)
    requires
        old(core).inv(),
    ensures
        final(core).inv(),
        TimeFrame::parse_spec(timeframe@) is None ==> r is Err && r->Err_0
            == ChartError::InvalidTimeframe && *final(core) == *old(core),
        TimeFrame::parse_spec(timeframe@) is Some ==> {
            let tf = TimeFrame::parse_spec(timeframe@)->Some_0;
            match r {
                Result::Ok(rs) => exists|data: Seq<Candle>|
                    #[trigger] load_outcome(
                        *old(core),
                        *final(core),
                        symbol@,
                        tf,
                        Result::Ok(data),
                    ) && responses_match(data, rs@),
                Result::Err(e) => load_outcome(
                    *old(core),
                    *final(core),
                    symbol@,
                    tf,
                    Result::Err(e),
                ),
            }
        },
{
    let tf = match TimeFrame::from_str(timeframe) {
        Some(tf) => tf,
        None => {
            return Err(ChartError::InvalidTimeframe);
        },
    };
    let data = match core.get_or_load(symbol, tf) {
        Ok(d) => d,
        Err(e) => {
            return Err(e);
        },
    };
    let rs = to_responses(&data);
    Ok(rs)
}

/// The candles of `data` with index in `[start, end)`, the end clamped
/// to the length and the start clamped to the end.
pub open spec fn window_spec(data: Seq<Candle>, start: int, end: int) -> Seq<Candle> {
    let e = if end <= data.len() {
        end
    } else {
        data.len() as int
    };
    let s = if start <= e {
        start
    } else {
        e
    };
    data.subrange(s, e)
}

/// Read a window of the series for pagination: the end index is clamped
/// to the length, and an inverted range yields an empty window.
pub fn get_data_window(
    core: &mut CoreEngine,
    symbol: &str,
    timeframe: &str,
    start_idx: usize,
    end_idx: usize,
) -> (r: Result<Vec<OHLCVResponse>, ChartError>)
    requires
        old(core).inv(),
    ensures
        final(core).inv(),
        TimeFrame::parse_spec(timeframe@) is None ==> r is Err && r->Err_0
            == ChartError::InvalidTimeframe && *final(core) == *old(core),
        TimeFrame::parse_spec(timeframe@) is Some ==> {
            let tf = TimeFrame::parse_spec(timeframe@)->Some_0;
            match r {
                Result::Ok(rs) => exists|data: Seq<Candle>|
                    #[trigger] load_outcome(
                        *old(core),
                        *final(core),
                        symbol@,
                        tf,
                        Result::Ok(data),
                    ) && responses_match(
                        window_spec(data, start_idx as int, end_idx as int),
                        rs@,
                    ),
                Result::Err(e) => load_outcome(
                    *old(core),
                    *final(core),
                    symbol@,
                    tf,
                    Result::Err(e),
                ),
            }
        },
{
    let tf = match TimeFrame::from_str(timeframe) {
        Some(tf) => tf,
        None => {
            return Err(ChartError::InvalidTimeframe);
        },
    };
    let data = match core.get_or_load(symbol, tf) {
        Ok(d) => d,
        Err(e) => {
            return Err(e);
        },
    };
    let len = data.len();
    let e = if end_idx <= len {
        end_idx
    } else {
        len
    };
    let s = if start_idx <= e {
        start_idx
    } else {
        e
    };
    let mut out: Vec<OHLCVResponse> = Vec::new();
    let mut k: usize = s;
    while k < e
        invariant
            s <= k <= e <= data@.len(),
            wf_series(data@),
            out@.len() == k - s,
            responses_match(data@.subrange(s as int, k as int), out@),
        decreases e - k,
    {
        proof {
            lemma_sum_abs_vol_elem(data@, k as int);
            crate::candle::lemma_sum_abs_vol_nonneg(data@);
        }
        let resp = OHLCVResponse::from_candle(&data[k]);
        out.push(resp);
        proof {
            assert(forall|j: int|
                0 <= j < k + 1 - s ==> #[trigger] data@.subrange(s as int, k + 1)[j] == data@[s
                    + j]);
        }
        k += 1;
    }
    proof {
        assert(data@.subrange(s as int, e as int) =~= window_spec(
            data@,
            start_idx as int,
            end_idx as int,
        ));
    }
    Ok(out)
}

/// Aggregate a loaded series to a coarser timeframe, as boundary rows.
pub fn aggregate_data(
    core: &mut CoreEngine,
    symbol: &str,
    source_timeframe: &str,
    target_timeframe: &str,
) -> (r: Result<Vec<OHLCVResponse>, ChartError>)
    requires
        old(core).inv(),
    ensures
        final(core).inv(),
        TimeFrame::parse_spec(source_timeframe@) is None || TimeFrame::parse_spec(
            target_timeframe@,
        ) is None ==> r is Err && r->Err_0 == ChartError::InvalidTimeframe && *final(core)
            == *old(core),
        TimeFrame::parse_spec(source_timeframe@) is Some && TimeFrame::parse_spec(
            target_timeframe@,
        ) is Some ==> {
            let stf = TimeFrame::parse_spec(source_timeframe@)->Some_0;
            let ttf = TimeFrame::parse_spec(target_timeframe@)->Some_0;
            &&& (!(ttf.duration_spec() % stf.duration_spec() == 0 && ttf.duration_spec()
                > stf.duration_spec()) ==> r is Err && r->Err_0
                == ChartError::AggregationDirectionError && *final(core) == *old(core))
            &&& ((ttf.duration_spec() % stf.duration_spec() == 0 && ttf.duration_spec()
                > stf.duration_spec()) ==> match r {
                Result::Ok(rs) => exists|data: Seq<Candle>|
                    {
                        &&& #[trigger] load_outcome(
                            *old(core),
                            *final(core),
                            symbol@,
                            stf,
                            Result::Ok(data),
                        )
                        &&& responses_match_model(
                            aggregate_spec(series_model(data), ttf.duration_spec()),
                            rs@,
                        )
                    },
                Result::Err(e) => load_outcome(
                    *old(core),
                    *final(core),
                    symbol@,
                    stf,
                    Result::Err(e),
                ),
            })
        },
{
    let stf = match TimeFrame::from_str(source_timeframe) {
        Some(tf) => tf,
        None => {
            return Err(ChartError::InvalidTimeframe);
        },
    };
    let ttf = match TimeFrame::from_str(target_timeframe) {
        Some(tf) => tf,
        None => {
            return Err(ChartError::InvalidTimeframe);
        },
    };
    // Both bar lengths are known from the labels alone, so a bad
    // direction fails before anything is loaded or cached.
    let ws = stf.duration_seconds();
    let wt = ttf.duration_seconds();
    if wt % ws != 0 || wt <= ws {
        return Err(ChartError::AggregationDirectionError);
    }
    let data = match core.get_or_load(symbol, stf) {
        Ok(d) => d,
        Err(e) => {
            return Err(e);
        },
    };
    let agg_out = match aggregate(&data, stf, ttf) {
        Ok(a) => a,
        Err(e) => {
            proof {
                assert(false);
            }
            return Err(e);
        },
    };
    let rs = to_responses(&agg_out);
    proof {
        let m = aggregate_spec(series_model(data@), ttf.duration_spec());
        assert(series_model(agg_out@) == m);
        assert forall|k: int| 0 <= k < m.len() implies #[trigger] rs@[k].time as int == m[k].time
            && rs@[k].open@ == dec_string_spec(m[k].open) && rs@[k].high@ == dec_string_spec(
            m[k].high,
        ) && rs@[k].low@ == dec_string_spec(m[k].low) && rs@[k].close@ == dec_string_spec(
            m[k].close,
        ) && rs@[k].volume@ == dec_string_spec(m[k].volume) by {
            assert(m[k] == series_model(agg_out@)[k]);
            assert(m[k] == crate::aggregate::candle_model(agg_out@[k]));
        }
        assert(responses_match_model(m, rs@));
    }
    Ok(rs)
}

/// Import a file's rows for a symbol and timeframe: valid rows become
/// the stored series for that key (replacing any prior one), malformed
/// rows are skipped, and the count of imported candles is returned.
pub fn import_csv_data(
    core: &mut CoreEngine,
    file_bytes: &[u8],
    symbol: &str,
    timeframe: &str,
) -> (r: Result<ImportResult, ChartError>)
    requires
        old(core).inv(),
    ensures
        final(core).inv(),
        TimeFrame::parse_spec(timeframe@) is None ==> r is Err && r->Err_0
            == ChartError::InvalidTimeframe && *final(core) == *old(core),
        TimeFrame::parse_spec(timeframe@) is Some ==> {
            let tf = TimeFrame::parse_spec(timeframe@)->Some_0;
            &&& r is Ok
            &&& save_transition(
                *old(core),
                *final(core),
                symbol@,
                tf,
                import_spec(file_bytes@, None),
            )
            &&& r->Ok_0.candles_imported == import_spec(file_bytes@, None).len()
            &&& r->Ok_0.symbol@ == symbol@
            &&& r->Ok_0.timeframe@ == tf.label_spec()
        },
{
    let tf = match TimeFrame::from_str(timeframe) {
        Some(tf) => tf,
        None => {
            return Err(ChartError::InvalidTimeframe);
        },
    };
    let candles = import_candles(file_bytes);
    let count = candles.len();
    core.save_ohlcv(symbol, tf, &candles);
    Ok(
        ImportResult {
            candles_imported: count,
            symbol: String::from_str(symbol),
            timeframe: tf.display(),
        },
    )
}

/// The symbols with at least one stored series, one per stored entry.
pub fn get_available_symbols(core: &CoreEngine) -> (r: Vec<String>)
    ensures
        r@.len() == core.store.entries@.len(),
        forall|k: int|
            0 <= k < r@.len() ==> #[trigger] r@[k]@ == core.store.entries@[k].symbol@,
{
    core.store.symbols()
}

/// The current session tunables.
pub fn get_session_config(core: &CoreEngine) -> (r: SessionConfigResponse)
    ensures
        r.symbol@ == core.session.symbol@,
        r.timeframe@ == core.session.timeframe.label_spec(),
        r.max_cache_size == core.session.max_cache_size,
{
    SessionConfigResponse {
        symbol: core.session.symbol.clone(),
        timeframe: core.session.timeframe.display(),
        max_cache_size: core.session.max_cache_size,
    }
}

/// Replace the session tunables; fails exactly when the timeframe label
/// does not parse, leaving everything unchanged.
pub fn update_session_config(core: &mut CoreEngine, config: &SessionConfigRequest) -> (r: Result<
    (),
    ChartError,
>)
    requires
        old(core).inv(),
    ensures
        final(core).inv(),
        TimeFrame::parse_spec(config.timeframe@) is None ==> r is Err && r->Err_0
            == ChartError::InvalidTimeframe && *final(core) == *old(core),
        TimeFrame::parse_spec(config.timeframe@) is Some ==> r is Ok && final(core).session.symbol@
            == config.symbol@ && final(core).session.timeframe == TimeFrame::parse_spec(
            config.timeframe@,
        )->Some_0 && final(core).session.start_time is None && final(core).session.end_time is None
            && final(core).session.max_cache_size == config.max_cache_size && final(core).store
            == old(core).store && final(core).cache == old(core).cache && final(core).replay == old(
            core,
        ).replay,
{
    let tf = match TimeFrame::from_str(config.timeframe.as_str()) {
        Some(tf) => tf,
        None => {
            return Err(ChartError::InvalidTimeframe);
        },
    };
    core.session = SessionConfig {
        symbol: config.symbol.clone(),
        timeframe: tf,
        start_time: None,
        end_time: None,
        max_cache_size: config.max_cache_size,
    };
    Ok(())
}

/// The cache counters: always the entry count and the exact total of
/// candles over live entries.
pub fn get_cache_stats(core: &CoreEngine) -> (r: CacheStatsResponse)
    requires
        core.inv(),
    ensures
        r.entries == core.cache.entries@.len(),
        r.total_candles == crate::cache::sum_entry_lens(core.cache.entries@),
{
    let stats = core.cache.stats();
    CacheStatsResponse { entries: stats.entries, total_candles: stats.total_candles }
}

/// Evict every cache entry; stored series and the replay session stay.
pub fn clear_cache(core: &mut CoreEngine)
    requires
        old(core).inv(),
    ensures
        final(core).inv(),
        forall|sym: Seq<char>, tf: TimeFrame| !final(core).cache.has_entry(sym, tf),
        final(core).cache.total_candles == 0,
        final(core).store == old(core).store,
        final(core).replay == old(core).replay,
        final(core).session == old(core).session,
{
    core.cache.clear();
}

/// A fixed description of the application.
pub fn get_app_info() -> (r: String)
    ensures
        r@ == "Charting DAAVFX v1.0"@,
{
    String::from_str("Charting DAAVFX v1.0")
}

/// Accept a drawing payload for the key; drawing storage lives outside
/// this engine, so the call succeeds without touching any state.
pub fn save_drawings(
    core: &mut CoreEngine,
    symbol: &str,
    timeframe: &str,
    drawings: &str,
) -> (r: Result<(), ChartError>)
    requires
        old(core).inv(),
    ensures
        final(core).inv(),
        r is Ok,
        *final(core) == *old(core),
{
    Ok(())
}

/// The stored drawings for the key; drawing storage lives outside this
/// engine, so the result is always the empty list.
pub fn load_drawings(core: &CoreEngine, symbol: &str, timeframe: &str) -> (r: Result<
    String,
    ChartError,
>)
    ensures
        r is Ok && r->Ok_0@ == "[]"@,
{
    Ok(String::from_str("[]"))
}



/// The length of the series a read of the key would serve from this
/// state, when one resolves at all: the resident entry, the native
/// stored series, or the aggregation of the symbol's finest series.
pub open spec fn resolves_len(pre: CoreEngine, sym: Seq<char>, tf: TimeFrame, n: int) -> bool {
    if pre.cache.has_entry(sym, tf) {
        n == pre.cache.entry_at(sym, tf).len()
    } else if pre.store.has_series(sym, tf) {
        n == pre.store.series_at(sym, tf).len()
    } else {
        exists|f: TimeFrame|
            {
                &&& #[trigger] pre.store.has_series(sym, f)
                &&& (forall|g: TimeFrame|
                    pre.store.has_series(sym, g) ==> f.duration_spec() <= g.duration_spec())
                &&& tf.duration_spec() % f.duration_spec() == 0
                &&& tf.duration_spec() > f.duration_spec()
                &&& n == aggregate_spec(
                    series_model(pre.store.series_at(sym, f)),
                    tf.duration_spec(),
                ).len()
            }
    }
}

/// How many candles a read of the key would serve, without touching any
/// state; `None` when the read would fail.
fn peek_series_len(core: &CoreEngine, symbol: &str, tf: TimeFrame) -> (r: Option<usize>)
    requires
        core.inv(),
    ensures
        r is Some ==> resolves_len(*core, symbol@, tf, r->Some_0 as int),
        r is None ==> !core.cache.has_entry(symbol@, tf) && !core.store.has_series(symbol@, tf)
            && ((!exists|f: TimeFrame| core.store.has_series(symbol@, f)) || exists|f: TimeFrame|
            {
                &&& #[trigger] core.store.has_series(symbol@, f)
                &&& (forall|g: TimeFrame|
                    core.store.has_series(symbol@, g) ==> f.duration_spec()
                        <= g.duration_spec())
                &&& !(tf.duration_spec() % f.duration_spec() == 0 && tf.duration_spec()
                    > f.duration_spec())
            }),
{
    match core.cache.peek_len(symbol, tf) {
        Some(n) => {
            return Some(n);
        },
        None => {},
    }
    match core.store.load(symbol, tf) {
        Some(d) => {
            return Some(d.len());
        },
        None => {},
    }
    match core.store.finest_for(symbol) {
        None => None,
        Some(f) => {
            let ws = f.duration_seconds();
            let wt = tf.duration_seconds();
            if wt % ws != 0 || wt <= ws {
                return None;
            }
            let base = match core.store.load(symbol, f) {
                Some(b) => b,
                None => {
                    proof {
                        assert(false);
                    }
                    Vec::new()
                },
            };
            match aggregate(&base, f, tf) {
                Ok(a) => {
                    proof {
                        assert(series_model(a@).len() == a@.len());
                    }
                    Some(a.len())
                },
                Err(_) => {
                    proof {
                        assert(false);
                    }
                    None
                },
            }
        },
    }
}

/// A probed length agrees with any successful read from the same state:
/// the finest stored timeframe is unique, so both resolve through it.
proof fn lemma_peek_agrees(
    pre: CoreEngine,
    postc: SeriesCache,
    sym: Seq<char>,
    tf: TimeFrame,
    n: int,
    d: Seq<Candle>,
)
    requires
        resolves_len(pre, sym, tf, n),
        load_outcome_data(pre, postc, sym, tf, Result::Ok(d)),
    ensures
        d.len() == n,
{
    if pre.cache.has_entry(sym, tf) {
    } else if pre.store.has_series(sym, tf) {
    } else {
        let f1 = choose|f: TimeFrame|
            {
                &&& #[trigger] pre.store.has_series(sym, f)
                &&& (forall|g: TimeFrame|
                    pre.store.has_series(sym, g) ==> f.duration_spec() <= g.duration_spec())
                &&& tf.duration_spec() % f.duration_spec() == 0
                &&& tf.duration_spec() > f.duration_spec()
                &&& n == aggregate_spec(
                    series_model(pre.store.series_at(sym, f)),
                    tf.duration_spec(),
                ).len()
            };
        assert(pre.store.has_series(sym, f1));
        let f2 = choose|f: TimeFrame|
            {
                &&& #[trigger] pre.store.has_series(sym, f)
                &&& (forall|g: TimeFrame|
                    pre.store.has_series(sym, g) ==> f.duration_spec() <= g.duration_spec())
                &&& if tf.duration_spec() % f.duration_spec() == 0 && tf.duration_spec()
                    > f.duration_spec() {
                    Result::<Seq<Candle>, ChartError>::Ok(d) is Ok && series_model(d)
                        == aggregate_spec(
                        series_model(pre.store.series_at(sym, f)),
                        tf.duration_spec(),
                    ) && postc.has_entry(sym, tf) && postc.entry_at(sym, tf) == d
                        && others_preserved(pre.cache, postc, sym, tf) && (postc.total_candles
                        <= pre.session.max_cache_size || postc.entries@.len() == 1)
                } else {
                    Result::<Seq<Candle>, ChartError>::Ok(d) == Result::<
                        Seq<Candle>,
                        ChartError,
                    >::Err(ChartError::AggregationDirectionError) && postc == pre.cache
                }
            };
        assert(f1.duration_spec() <= f2.duration_spec());
        assert(f2.duration_spec() <= f1.duration_spec());
        crate::timeframe::lemma_duration_injective(f1, f2);
        assert(series_model(d).len() == d.len());
    }
}

/// A probe that found only a wrongly-directed finest series rules out a
/// successful read from the same state, so any served series is
/// vacuously non-empty.
proof fn lemma_peek_none_agg_bad(
    pre: CoreEngine,
    postc: SeriesCache,
    sym: Seq<char>,
    tf: TimeFrame,
    d: Seq<Candle>,
)
    requires
        !pre.cache.has_entry(sym, tf),
        !pre.store.has_series(sym, tf),
        exists|f: TimeFrame|
            {
                &&& #[trigger] pre.store.has_series(sym, f)
                &&& (forall|g: TimeFrame|
                    pre.store.has_series(sym, g) ==> f.duration_spec() <= g.duration_spec())
                &&& !(tf.duration_spec() % f.duration_spec() == 0 && tf.duration_spec()
                    > f.duration_spec())
            },
        load_outcome_data(pre, postc, sym, tf, Result::Ok(d)),
    ensures
        d.len() > 0,
{
    let f1 = choose|f: TimeFrame|
        {
            &&& #[trigger] pre.store.has_series(sym, f)
            &&& (forall|g: TimeFrame|
                pre.store.has_series(sym, g) ==> f.duration_spec() <= g.duration_spec())
            &&& !(tf.duration_spec() % f.duration_spec() == 0 && tf.duration_spec()
                > f.duration_spec())
        };
    assert(pre.store.has_series(sym, f1));
    let f2 = choose|f: TimeFrame|
        {
            &&& #[trigger] pre.store.has_series(sym, f)
            &&& (forall|g: TimeFrame|
                pre.store.has_series(sym, g) ==> f.duration_spec() <= g.duration_spec())
            &&& if tf.duration_spec() % f.duration_spec() == 0 && tf.duration_spec()
                > f.duration_spec() {
                Result::<Seq<Candle>, ChartError>::Ok(d) is Ok && series_model(d)
                    == aggregate_spec(
                    series_model(pre.store.series_at(sym, f)),
                    tf.duration_spec(),
                ) && postc.has_entry(sym, tf) && postc.entry_at(sym, tf) == d
                    && others_preserved(pre.cache, postc, sym, tf) && (postc.total_candles
                    <= pre.session.max_cache_size || postc.entries@.len() == 1)
            } else {
                Result::<Seq<Candle>, ChartError>::Ok(d) == Result::<
                    Seq<Candle>,
                    ChartError,
                >::Err(ChartError::AggregationDirectionError) && postc == pre.cache
            }
        };
    assert(f1.duration_spec() <= f2.duration_spec());
    assert(f2.duration_spec() <= f1.duration_spec());
    crate::timeframe::lemma_duration_injective(f1, f2);
}

/// Load a replay session from the cached series for the key: the cursor
/// starts at the first candle, paused, at normal speed. Fails when the
/// timeframe label does not parse, when the symbol has no series, or
/// when the series is empty.
pub fn load_replay_session(core: &mut CoreEngine, symbol: &str, timeframe: &str) -> (r: Result<
    ReplayInfo,
    ChartError,
>)
    requires
        old(core).inv(),
    ensures
        final(core).inv(),
        final(core).store == old(core).store,
        final(core).session == old(core).session,
        TimeFrame::parse_spec(timeframe@) is None ==> r is Err && r->Err_0
            == ChartError::InvalidTimeframe && *final(core) == *old(core),
        TimeFrame::parse_spec(timeframe@) is Some ==> {
            let tf = TimeFrame::parse_spec(timeframe@)->Some_0;
            match r {
                Result::Ok(info) => exists|data: Seq<Candle>|
                    {
                        &&& #[trigger] load_outcome_data(
                            *old(core),
                            final(core).cache,
                            symbol@,
                            tf,
                            Result::Ok(data),
                        )
                        &&& data.len() > 0
                        &&& final(core).replay.data@ == data
                        &&& final(core).replay.current_index == 0
                        &&& !final(core).replay.is_playing
                        &&& final(core).replay.symbol@ == symbol@
                        &&& final(core).replay.timeframe == tf
                        &&& final(core).replay.speed.units == crate::replay::SPEED_ONE_UNITS
                        &&& info.total_candles == data.len()
                        &&& info.current_index == 0
                        &&& info.start_time == data[0].time
                        &&& info.end_time == data.last().time
                        &&& info.symbol@ == symbol@
                        &&& info.timeframe@ == tf.label_spec()
                        &&& !info.is_playing
                        &&& info.speed.units == crate::replay::SPEED_ONE_UNITS
                    },
                Result::Err(e) => *final(core) == *old(core) && (e
                    == ChartError::EmptyReplaySession ==> resolves_len(
                    *old(core),
                    symbol@,
                    tf,
                    0,
                )) && (e != ChartError::EmptyReplaySession ==> load_outcome(
                    *old(core),
                    *final(core),
                    symbol@,
                    tf,
                    Result::Err(e),
                )),
            }
        },
{
    let tf = match TimeFrame::from_str(timeframe) {
        Some(tf) => tf,
        None => {
            return Err(ChartError::InvalidTimeframe);
        },
    };
    // Probe first, touching nothing: an empty series must fail without
    // caching anything.
    let peeked = peek_series_len(core, symbol, tf);
    let is_empty = match peeked {
        Some(n) => n == 0,
        None => false,
    };
    if is_empty {
        return Err(ChartError::EmptyReplaySession);
    }
    let data = match core.get_or_load(symbol, tf) {
        Ok(d) => d,
        Err(e) => {
            proof {
                assert(*core == *old(core));
            }
            return Err(e);
        },
    };
    let ghost dsnap = data@;
    proof {
        assert(load_outcome_data(*old(core), core.cache, symbol@, tf, Result::Ok(dsnap)));
        match peeked {
            Option::Some(n) => {
                lemma_peek_agrees(*old(core), core.cache, symbol@, tf, n as int, dsnap);
            },
            Option::None => {
                if exists|f: TimeFrame| old(core).store.has_series(symbol@, f) {
                    lemma_peek_none_agg_bad(*old(core), core.cache, symbol@, tf, dsnap);
                }
            },
        }
        assert(dsnap.len() > 0);
    }
    let total = data.len();
    let start_time = data[0].time;
    let end_time = data[total - 1].time;
    core.replay.load(String::from_str(symbol), tf, data);
    proof {
        assert(load_outcome_data(*old(core), core.cache, symbol@, tf, Result::Ok(dsnap)));
    }
    Ok(
        ReplayInfo {
            total_candles: total,
            current_index: 0,
            start_time,
            end_time,
            symbol: String::from_str(symbol),
            timeframe: tf.display(),
            is_playing: false,
            speed: FixedDec { units: crate::replay::SPEED_ONE_UNITS },
        },
    )
}

/// Begin playback; fails exactly when no session is loaded.
pub fn start_replay(core: &mut CoreEngine) -> (r: Result<(), ChartError>)
    requires
        old(core).inv(),
    ensures
        final(core).inv(),
        final(core).store == old(core).store,
        final(core).cache == old(core).cache,
        final(core).session == old(core).session,
        old(core).replay.data@.len() == 0 ==> r is Err && r->Err_0
            == ChartError::EmptyReplaySession && *final(core) == *old(core),
        old(core).replay.data@.len() > 0 ==> r is Ok && final(core).replay == (ReplayState {
            is_playing: true,
            ..old(core).replay
        }),
{
    core.replay.start()
}

/// Halt playback; always safe.
pub fn pause_replay(core: &mut CoreEngine) -> (r: Result<(), ChartError>)
    requires
        old(core).inv(),
    ensures
        final(core).inv(),
        r is Ok,
        final(core).store == old(core).store,
        final(core).cache == old(core).cache,
        final(core).session == old(core).session,
        final(core).replay == (ReplayState { is_playing: false, ..old(core).replay }),
{
    core.replay.pause();
    Ok(())
}

/// Halt playback and rewind the cursor; the loaded series stays.
pub fn stop_replay(core: &mut CoreEngine) -> (r: Result<(), ChartError>)
    requires
        old(core).inv(),
    ensures
        final(core).inv(),
        r is Ok,
        final(core).store == old(core).store,
        final(core).cache == old(core).cache,
        final(core).session == old(core).session,
        final(core).replay == (ReplayState {
            is_playing: false,
            current_index: 0,
            ..old(core).replay
        }),
{
    core.replay.stop();
    Ok(())
}

/// Step the cursor forward (one candle when `steps` is absent), clamped
/// to the last candle; stepping pauses playback.
pub fn step_forward(core: &mut CoreEngine, steps: Option<usize>) -> (r: Result<
    ReplayUpdate,
    ChartError,
>)
    requires
        old(core).inv(),
    ensures
        final(core).inv(),
        final(core).store == old(core).store,
        final(core).cache == old(core).cache,
        final(core).session == old(core).session,
        old(core).replay.data@.len() == 0 ==> r is Err && r->Err_0
            == ChartError::EmptyReplaySession && *final(core) == *old(core),
        old(core).replay.data@.len() > 0 ==> {
            let n = match steps {
                Option::Some(n) => n as int,
                Option::None => 1,
            };
            &&& r is Ok
            &&& final(core).replay.current_index as int == fwd_index(
                old(core).replay.current_index as int,
                n,
                old(core).replay.data@.len() as int,
            )
            &&& final(core).replay == (ReplayState {
                current_index: final(core).replay.current_index,
                is_playing: false,
                ..old(core).replay
            })
            &&& r->Ok_0.current_index == final(core).replay.current_index
            &&& r->Ok_0.time == old(core).replay.data@[final(core).replay.current_index as int].time
            &&& r->Ok_0.open@ == dec_string_spec(
                old(core).replay.data@[final(core).replay.current_index as int].open.units as int,
            )
            &&& r->Ok_0.high@ == dec_string_spec(
                old(core).replay.data@[final(core).replay.current_index as int].high.units as int,
            )
            &&& r->Ok_0.low@ == dec_string_spec(
                old(core).replay.data@[final(core).replay.current_index as int].low.units as int,
            )
            &&& r->Ok_0.close@ == dec_string_spec(
                old(core).replay.data@[final(core).replay.current_index as int].close.units as int,
            )
            &&& r->Ok_0.progress_num == final(core).replay.current_index
            &&& r->Ok_0.progress_den == progress_den_spec(old(core).replay.data@.len() as int)
            &&& r->Ok_0.total_candles == old(core).replay.data@.len()
        },
{
    let n = match steps {
        Some(n) => n,
        None => 1,
    };
    core.replay.step_forward(n)
}

/// Step the cursor backward (one candle when `steps` is absent), clamped
/// to the first candle; stepping pauses playback.
pub fn step_backward(core: &mut CoreEngine, steps: Option<usize>) -> (r: Result<
    ReplayUpdate,
    ChartError,
>)
    requires
        old(core).inv(),
    ensures
        final(core).inv(),
        final(core).store == old(core).store,
        final(core).cache == old(core).cache,
        final(core).session == old(core).session,
        old(core).replay.data@.len() == 0 ==> r is Err && r->Err_0
            == ChartError::EmptyReplaySession && *final(core) == *old(core),
        old(core).replay.data@.len() > 0 ==> {
            let n = match steps {
                Option::Some(n) => n as int,
                Option::None => 1,
            };
            &&& r is Ok
            &&& final(core).replay.current_index as int == bwd_index(
                old(core).replay.current_index as int,
                n,
            )
            &&& final(core).replay == (ReplayState {
                current_index: final(core).replay.current_index,
                is_playing: false,
                ..old(core).replay
            })
            &&& r->Ok_0.current_index == final(core).replay.current_index
            &&& r->Ok_0.time == old(core).replay.data@[final(core).replay.current_index as int].time
            &&& r->Ok_0.open@ == dec_string_spec(
                old(core).replay.data@[final(core).replay.current_index as int].open.units as int,
            )
            &&& r->Ok_0.high@ == dec_string_spec(
                old(core).replay.data@[final(core).replay.current_index as int].high.units as int,
            )
            &&& r->Ok_0.low@ == dec_string_spec(
                old(core).replay.data@[final(core).replay.current_index as int].low.units as int,
            )
            &&& r->Ok_0.close@ == dec_string_spec(
                old(core).replay.data@[final(core).replay.current_index as int].close.units as int,
            )
            &&& r->Ok_0.progress_num == final(core).replay.current_index
            &&& r->Ok_0.progress_den == progress_den_spec(old(core).replay.data@.len() as int)
            &&& r->Ok_0.total_candles == old(core).replay.data@.len()
        },
{
    let n = match steps {
        Some(n) => n,
        None => 1,
    };
    core.replay.step_backward(n)
}

/// Clamp the playback speed into the supported band; never fails.
pub fn set_replay_speed(core: &mut CoreEngine, speed: FixedDec) -> (r: Result<(), ChartError>)
    requires
        old(core).inv(),
    ensures
        final(core).inv(),
        r is Ok,
        final(core).store == old(core).store,
        final(core).cache == old(core).cache,
        final(core).session == old(core).session,
        final(core).replay.speed.units == crate::replay::clamp_speed_spec(speed.units as int),
        final(core).replay == (ReplayState {
            speed: final(core).replay.speed,
            ..old(core).replay
        }),
{
    core.replay.set_speed(speed);
    Ok(())
}

/// Move the cursor to an index, clamped to the last candle; seeking
/// pauses playback.
pub fn seek_to_index(core: &mut CoreEngine, index: usize) -> (r: Result<ReplayUpdate, ChartError>)
    requires
        old(core).inv(),
    ensures
        final(core).inv(),
        final(core).store == old(core).store,
        final(core).cache == old(core).cache,
        final(core).session == old(core).session,
        old(core).replay.data@.len() == 0 ==> r is Err && r->Err_0
            == ChartError::EmptyReplaySession && *final(core) == *old(core),
        old(core).replay.data@.len() > 0 ==> {
            &&& r is Ok
            &&& final(core).replay.current_index as int == seek_index(
                index as int,
                old(core).replay.data@.len() as int,
            )
            &&& final(core).replay == (ReplayState {
                current_index: final(core).replay.current_index,
                is_playing: false,
                ..old(core).replay
            })
            &&& r->Ok_0.current_index == final(core).replay.current_index
            &&& r->Ok_0.time == old(core).replay.data@[final(core).replay.current_index as int].time
            &&& r->Ok_0.open@ == dec_string_spec(
                old(core).replay.data@[final(core).replay.current_index as int].open.units as int,
            )
            &&& r->Ok_0.high@ == dec_string_spec(
                old(core).replay.data@[final(core).replay.current_index as int].high.units as int,
            )
            &&& r->Ok_0.low@ == dec_string_spec(
                old(core).replay.data@[final(core).replay.current_index as int].low.units as int,
            )
            &&& r->Ok_0.close@ == dec_string_spec(
                old(core).replay.data@[final(core).replay.current_index as int].close.units as int,
            )
            &&& r->Ok_0.progress_num == final(core).replay.current_index
            &&& r->Ok_0.progress_den == progress_den_spec(old(core).replay.data@.len() as int)
            &&& r->Ok_0.total_candles == old(core).replay.data@.len()
        },
{
    core.replay.seek(index)
}

/// Read-only projection of the replay state; a defined empty form when
/// nothing is loaded.
pub fn get_replay_state(core: &CoreEngine) -> (r: ReplayStateResponse)
    requires
        core.inv(),
    ensures
        r.is_loaded == (core.replay.data@.len() > 0),
        r.is_playing == (core.replay.is_playing && core.replay.data@.len() > 0),
        r.current_index == core.replay.current_index,
        r.total_candles == core.replay.data@.len(),
        core.replay.data@.len() > 0 ==> r.speed == core.replay.speed && r.symbol@
            == core.replay.symbol@ && r.timeframe@ == core.replay.timeframe.label_spec()
            && r.progress_num == core.replay.current_index && r.progress_den == progress_den_spec(
            core.replay.data@.len() as int,
        ),
        core.replay.data@.len() == 0 ==> r.speed.units == crate::replay::SPEED_ONE_UNITS
            && r.symbol@ == Seq::<char>::empty() && r.timeframe@ == Seq::<char>::empty()
            && r.progress_num == 0 && r.progress_den == 1,
{
    core.replay.snapshot()
}

} // verus!
