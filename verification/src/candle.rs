//! One OHLCV bar and the well-formedness of candle series: strictly
//! increasing timestamps, bounded price fields, and a bounded total
//! volume so that sums are exact machine arithmetic.

use vstd::prelude::*;

use crate::fixed::FixedDec;
use crate::fixed::UNIT_CAP;
use crate::fixed::dec_string_spec;

verus! {

/// Lowest supported timestamp, in seconds since the epoch: a week-aligned
/// floor that keeps bucket arithmetic inside `i64` for every timeframe.
pub const MIN_TIME: i64 = -9_072_000_000_000_000_000;

/// Largest total volume magnitude a series can carry, in 10^-8 units;
/// any number of parsed candles sums within it.
pub const VOL_SUM_CAP: i128 = 100_000_000_000_000_000_000_000_000_000_000_000_000;

/// One bar of price data for a fixed time bucket.
#[derive(Clone, Copy, PartialEq, Eq, Structural, Debug)]
pub struct Candle {
    /// Seconds since the epoch, UTC.
    pub time: i64,
    pub open: FixedDec,
    pub high: FixedDec,
    pub low: FixedDec,
    pub close: FixedDec,
    pub volume: FixedDec,
}

pub open spec fn abs_i(x: int) -> int {
    if x < 0 {
        -x
    } else {
        x
    }
}

/// A candle the engine accepts: timestamp at or above the supported floor
/// and price fields within the parseable magnitude.
pub open spec fn wf_candle(c: Candle) -> bool {
    &&& MIN_TIME <= c.time
    &&& -UNIT_CAP < c.open.units < UNIT_CAP
    &&& -UNIT_CAP < c.high.units < UNIT_CAP
    &&& -UNIT_CAP < c.low.units < UNIT_CAP
    &&& -UNIT_CAP < c.close.units < UNIT_CAP
}

/// Timestamps strictly increase along the series.
pub open spec fn sorted_times(s: Seq<Candle>) -> bool {
    forall|i: int, j: int| 0 <= i < j < s.len() ==> s[i].time < s[j].time
}

/// Total volume magnitude of a series, in 10^-8 units.
pub open spec fn sum_abs_vol(s: Seq<Candle>) -> int
    decreases s.len(),
{
    if s.len() == 0 {
        0
    } else {
        sum_abs_vol(s.drop_last()) + abs_i(s.last().volume.units as int)
    }
}

/// A series the engine stores or caches: strictly increasing timestamps,
/// well-formed candles, and a bounded total volume.
pub open spec fn wf_series(s: Seq<Candle>) -> bool {
    &&& sorted_times(s)
    &&& forall|i: int| 0 <= i < s.len() ==> wf_candle(#[trigger] s[i])
    &&& sum_abs_vol(s) <= VOL_SUM_CAP
}

pub proof fn lemma_sum_abs_vol_nonneg(s: Seq<Candle>)
    ensures
        sum_abs_vol(s) >= 0,
    decreases s.len(),
{
    if s.len() > 0 {
        lemma_sum_abs_vol_nonneg(s.drop_last());
    }
}

/// Each candle's volume magnitude is at most the series total.
pub proof fn lemma_sum_abs_vol_elem(s: Seq<Candle>, i: int)
    requires
        0 <= i < s.len(),
    ensures
        abs_i(s[i].volume.units as int) <= sum_abs_vol(s),
    decreases s.len(),
{
    lemma_sum_abs_vol_nonneg(s.drop_last());
    if i < s.len() - 1 {
        lemma_sum_abs_vol_elem(s.drop_last(), i);
    }
}

/// The total volume of a prefix is at most the total of the series.
pub proof fn lemma_sum_abs_vol_prefix(s: Seq<Candle>, k: int)
    requires
        0 <= k <= s.len(),
    ensures
        sum_abs_vol(s.take(k)) <= sum_abs_vol(s),
    decreases s.len() - k,
{
    if k < s.len() {
        lemma_sum_abs_vol_prefix(s, k + 1);
        assert(s.take(k + 1).drop_last() =~= s.take(k));
        assert(sum_abs_vol(s.take(k + 1)) == sum_abs_vol(s.take(k)) + abs_i(
            s[k].volume.units as int,
        ));
    } else {
        assert(s.take(k) =~= s);
    }
}

/// Strictly increasing adjacent timestamps make the whole series sorted.
pub proof fn lemma_adjacent_implies_sorted(s: Seq<Candle>)
    requires
        forall|j: int| 0 <= j < s.len() - 1 ==> #[trigger] s[j].time < s[j + 1].time,
    ensures
        sorted_times(s),
{
    assert forall|a: int, b: int| 0 <= a < b < s.len() implies s[a].time < s[b].time by {
        lemma_time_chain(s, a, b);
    }
}

proof fn lemma_time_chain(s: Seq<Candle>, a: int, b: int)
    requires
        forall|j: int| 0 <= j < s.len() - 1 ==> #[trigger] s[j].time < s[j + 1].time,
        0 <= a < b < s.len(),
    ensures
        s[a].time < s[b].time,
    decreases b - a,
{
    if a + 1 < b {
        lemma_time_chain(s, a, b - 1);
    }
}

/// Whether `s` is a series the engine accepts, deciding `wf_series` exactly.
pub fn is_wf_series(s: &Vec<Candle>) -> (r: bool)
    ensures
        r == wf_series(s@),
{
    let n = s.len();
    let mut total: i128 = 0;
    let mut i: usize = 0;
    while i < n
        invariant
            0 <= i <= n,
            n == s@.len(),
            forall|j: int| 0 <= j < i - 1 ==> #[trigger] s@[j].time < s@[j + 1].time,
            forall|j: int| 0 <= j < i ==> wf_candle(#[trigger] s@[j]),
            total == sum_abs_vol(s@.take(i as int)),
            0 <= total <= VOL_SUM_CAP,
        decreases n - i,
    {
        let c = s[i];
        if c.time < MIN_TIME || c.open.units <= -UNIT_CAP || c.open.units >= UNIT_CAP
            || c.high.units <= -UNIT_CAP || c.high.units >= UNIT_CAP || c.low.units <= -UNIT_CAP
            || c.low.units >= UNIT_CAP || c.close.units <= -UNIT_CAP || c.close.units
            >= UNIT_CAP {
            assert(!wf_candle(s@[i as int]));
            return false;
        }
        if i > 0 && s[i - 1].time >= c.time {
            assert(!sorted_times(s@)) by {
                assert(s@[i - 1].time >= s@[i as int].time);
            }
            return false;
        }
        let av: i128 = if c.volume.units < 0 {
            if c.volume.units == i128::MIN {
                // Magnitude exceeds any admissible total.
                proof {
                    lemma_sum_abs_vol_elem(s@, i as int);
                }
                assert(sum_abs_vol(s@) > VOL_SUM_CAP);
                return false;
            }
            -c.volume.units
        } else {
            c.volume.units
        };
        proof {
            assert(s@.take(i + 1).drop_last() =~= s@.take(i as int));
            assert(s@.take(i + 1).last() == s@[i as int]);
            assert(sum_abs_vol(s@.take(i + 1)) == total + av);
        }
        if av > VOL_SUM_CAP - total {
            // The running total already exceeds the cap.
            proof {
                lemma_sum_abs_vol_prefix(s@, i + 1);
            }
            assert(sum_abs_vol(s@) > VOL_SUM_CAP);
            return false;
        }
        total = total + av;
        i += 1;
    }
    proof {
        assert(s@.take(n as int) =~= s@);
        lemma_adjacent_implies_sorted(s@);
    }
    true
}

/// One candle shaped for the application boundary: timestamps stay numeric,
/// prices and volume become exact decimal strings.
#[derive(Debug)]
pub struct OHLCVResponse {
    pub time: i64,
    pub open: String,
    pub high: String,
    pub low: String,
    pub close: String,
    pub volume: String,
}

impl OHLCVResponse {
    /// The boundary form of one candle. Only the machine limit of the
    /// decimal formatter is required: every field's magnitude must be
    /// negatable in an `i128`.
    pub fn from_candle(c: &Candle) -> (r: OHLCVResponse)
        requires
            c.open.units > i128::MIN,
            c.high.units > i128::MIN,
            c.low.units > i128::MIN,
            c.close.units > i128::MIN,
            c.volume.units > i128::MIN,
        ensures
            r.time == c.time,
            r.open@ == dec_string_spec(c.open.units as int),
            r.high@ == dec_string_spec(c.high.units as int),
            r.low@ == dec_string_spec(c.low.units as int),
            r.close@ == dec_string_spec(c.close.units as int),
            r.volume@ == dec_string_spec(c.volume.units as int),
    {
        OHLCVResponse {
            time: c.time,
            open: c.open.to_decimal_string(),
            high: c.high.to_decimal_string(),
            low: c.low.to_decimal_string(),
            close: c.close.to_decimal_string(),
            volume: c.volume.to_decimal_string(),
        }
    }
}

} // verus!
