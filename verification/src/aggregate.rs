//! Deterministic timeframe aggregation: folding a finer candle series
//! into a coarser one over epoch-aligned buckets. The bucket of a
//! timestamp `t` for width `w` starts at `t - t % w` (Euclidean).

use vstd::prelude::*;

use crate::candle::Candle;
use crate::candle::MIN_TIME;
use crate::candle::abs_i;
use crate::candle::lemma_sum_abs_vol_elem;
use crate::candle::lemma_sum_abs_vol_prefix;
use crate::candle::sum_abs_vol;
use crate::candle::wf_candle;
use crate::candle::wf_series;
use crate::fixed::FixedDec;
use crate::timeframe::TimeFrame;
use crate::ChartError;

verus! {

/// The mathematical content of one candle: every field as an
/// unbounded integer, prices and volume in 10^-8 units.
pub struct CandleModel {
    pub time: int,
    pub open: int,
    pub high: int,
    pub low: int,
    pub close: int,
    pub volume: int,
}

/// What one executable candle denotes.
pub open spec fn candle_model(c: Candle) -> CandleModel {
    CandleModel {
        time: c.time as int,
        open: c.open.units as int,
        high: c.high.units as int,
        low: c.low.units as int,
        close: c.close.units as int,
        volume: c.volume.units as int,
    }
}

/// What one executable series denotes.
pub open spec fn series_model(s: Seq<Candle>) -> Seq<CandleModel> {
    Seq::new(s.len(), |i: int| candle_model(s[i]))
}

/// Start of the width-`w` bucket holding timestamp `t`: epoch aligned,
/// `%` Euclidean.
pub open spec fn bucket_start(t: int, w: int) -> int {
    t - t % w
}

/// Bucket starts never decrease as timestamps grow.
pub proof fn lemma_bucket_start_mono(t1: int, t2: int, w: int)
    requires
        0 < w,
        t1 <= t2,
    ensures
        bucket_start(t1, w) <= bucket_start(t2, w),
{
    vstd::arithmetic::div_mod::lemma_fundamental_div_mod(t1, w);
    vstd::arithmetic::div_mod::lemma_fundamental_div_mod(t2, w);
    vstd::arithmetic::div_mod::lemma_div_is_ordered(t1, t2, w);
    assert(w * (t1 / w) <= w * (t2 / w)) by {
        vstd::arithmetic::mul::lemma_mul_inequality(t1 / w, t2 / w, w);
        vstd::arithmetic::mul::lemma_mul_is_commutative(t1 / w, w);
        vstd::arithmetic::mul::lemma_mul_is_commutative(t2 / w, w);
    }
}

/// A timestamp at or above a `w`-aligned floor keeps its bucket start
/// at or above that floor.
pub proof fn lemma_bucket_start_floor(t: int, w: int, floor: int)
    requires
        0 < w,
        floor % w == 0,
        floor <= t,
    ensures
        floor <= bucket_start(t, w),
{
    lemma_bucket_start_mono(floor, t, w);
    assert(bucket_start(floor, w) == floor);
}

/// `MIN_TIME` is a multiple of every supported bar length.
pub proof fn lemma_min_time_aligned(w: int)
    requires
        0 < w,
        604800int % w == 0,
    ensures
        (MIN_TIME as int) % w == 0,
{
    let q = 604800int / w;
    vstd::arithmetic::div_mod::lemma_fundamental_div_mod(604800int, w);
    assert(604800int == w * q);
    let p = -15_000_000_000_000 * q;
    assert(MIN_TIME as int == -9_072_000_000_000_000_000int);
    let qw = q * w;
    vstd::arithmetic::mul::lemma_mul_is_commutative(q, w);
    assert(qw == 604800);
    vstd::arithmetic::mul::lemma_mul_is_associative(-15_000_000_000_000, q, w);
    assert(p * w == -15_000_000_000_000 * qw);
    assert(-15_000_000_000_000 * qw == -15_000_000_000_000 * 604800int);
    assert(-15_000_000_000_000 * 604800int == -9_072_000_000_000_000_000int) by (nonlinear_arith);
    assert(MIN_TIME as int == p * w);
    vstd::arithmetic::div_mod::lemma_mod_multiples_basic(p, w);
}

/// Aligning to a finer width first does not change the coarser bucket:
/// buckets nest when the finer width divides the coarser one.
pub proof fn lemma_bucket_nest(t: int, w1: int, w2: int)
    requires
        0 < w1,
        0 < w2,
        w2 % w1 == 0,
    ensures
        bucket_start(bucket_start(t, w1), w2) == bucket_start(t, w2),
{
    let k = w2 / w1;
    vstd::arithmetic::div_mod::lemma_fundamental_div_mod(w2, w1);
    assert(w2 == w1 * k);
    let r2 = t % w2;
    let r1 = t % w1;
    vstd::arithmetic::div_mod::lemma_mod_bound(t, w2);
    vstd::arithmetic::div_mod::lemma_mod_bound(t, w1);
    assert(0 < k) by {
        if k <= 0 {
            assert(w1 * k <= 0) by {
                vstd::arithmetic::mul::lemma_mul_inequality(k, 0, w1);
                vstd::arithmetic::mul::lemma_mul_is_commutative(k, w1);
            }
        }
    }
    // The coarse remainder reduces to the fine remainder modulo w1.
    assert(r2 % w1 == r1) by {
        vstd::arithmetic::div_mod::lemma_mod_mod(t, w1, k);
    }
    vstd::arithmetic::div_mod::lemma_mod_bound(r2, w1);
    vstd::arithmetic::div_mod::lemma_fundamental_div_mod(r2, w1);
    let b1 = bucket_start(t, w1);
    // b1 differs from the coarse bucket start by r2 - r1, a value in [0, w2).
    assert(b1 == (t - r2) + (r2 - r1));
    assert(0 <= r2 - r1 < w2) by {
        assert(r2 - r1 == w1 * (r2 / w1));
        assert(0 <= r2 / w1) by {
            vstd::arithmetic::div_mod::lemma_div_is_ordered(0, r2, w1);
        }
        assert(r2 / w1 <= k - 1) by {
            if r2 / w1 >= k {
                assert(w1 * k <= w1 * (r2 / w1)) by {
                    vstd::arithmetic::mul::lemma_mul_inequality(k, r2 / w1, w1);
                    vstd::arithmetic::mul::lemma_mul_is_commutative(k, w1);
                    vstd::arithmetic::mul::lemma_mul_is_commutative(r2 / w1, w1);
                }
            }
        }
        assert(w1 * (r2 / w1) <= w1 * (k - 1)) by {
            vstd::arithmetic::mul::lemma_mul_inequality(r2 / w1, k - 1, w1);
            vstd::arithmetic::mul::lemma_mul_is_commutative(r2 / w1, w1);
            vstd::arithmetic::mul::lemma_mul_is_commutative(k - 1, w1);
        }
        assert(w1 * (k - 1) == w2 - w1) by {
            vstd::arithmetic::mul::lemma_mul_is_distributive_sub(w1, k, 1);
        }
        assert(0 <= w1 * (r2 / w1)) by {
            vstd::arithmetic::mul::lemma_mul_nonnegative(w1, r2 / w1);
        }
    }
    // So b1 mod w2 is exactly r2 - r1, and removing it lands on t - r2.
    vstd::arithmetic::div_mod::lemma_fundamental_div_mod(t, w2);
    assert(b1 == w2 * (t / w2) + (r2 - r1));
    assert(b1 % w2 == (r2 - r1) % w2) by {
        vstd::arithmetic::div_mod::lemma_mod_multiples_vanish(t / w2, r2 - r1, w2);
    }
    assert((r2 - r1) % w2 == r2 - r1) by {
        vstd::arithmetic::div_mod::lemma_small_mod((r2 - r1) as nat, w2 as nat);
    }
    assert(bucket_start(b1, w2) == t - r2);
}

/// A new output bucket opened from one source candle: prices carry over,
/// the timestamp realigns to the bucket start.
pub open spec fn fresh_bucket(c: CandleModel, w: int) -> CandleModel {
    CandleModel {
        time: bucket_start(c.time, w),
        open: c.open,
        high: c.high,
        low: c.low,
        close: c.close,
        volume: c.volume,
    }
}

/// Fold one more source candle into the open output bucket: first open
/// and bucket time stay, high/low widen, close follows the newcomer,
/// volumes add.
pub open spec fn merge_into(acc: CandleModel, c: CandleModel) -> CandleModel {
    CandleModel {
        time: acc.time,
        open: acc.open,
        high: if c.high > acc.high {
            c.high
        } else {
            acc.high
        },
        low: if c.low < acc.low {
            c.low
        } else {
            acc.low
        },
        close: c.close,
        volume: acc.volume + c.volume,
    }
}

/// One step of the aggregation fold: merge `c` into the last output
/// bucket when it shares that bucket's start, else open a new bucket.
pub open spec fn agg_step(out: Seq<CandleModel>, c: CandleModel, w: int) -> Seq<CandleModel> {
    if out.len() > 0 && bucket_start(c.time, w) == out.last().time {
        out.update(out.len() - 1, merge_into(out.last(), c))
    } else {
        out.push(fresh_bucket(c, w))
    }
}

/// The aggregation of a source series into buckets of width `w`,
/// folding candles in time order.
pub open spec fn aggregate_spec(s: Seq<CandleModel>, w: int) -> Seq<CandleModel>
    decreases s.len(),
{
    if s.len() == 0 {
        Seq::empty()
    } else {
        agg_step(aggregate_spec(s.drop_last(), w), s.last(), w)
    }
}


/// Start of the width-`w` bucket of timestamp `t`, as a machine integer.
fn bucket_of(t: i64, w: i64) -> (b: i64)
    requires
        0 < w <= 604800,
        604800int % (w as int) == 0,
        MIN_TIME <= t,
    ensures
        b as int == bucket_start(t as int, w as int),
        MIN_TIME <= b <= t,
{
    let r = match t.checked_rem_euclid(w) {
        Some(r) => r,
        None => {
            proof {
                assert(false);
            }
            0
        },
    };
    proof {
        vstd::arithmetic::div_mod::lemma_mod_bound(t as int, w as int);
        lemma_min_time_aligned(w as int);
        lemma_bucket_start_floor(t as int, w as int, MIN_TIME as int);
    }
    t - r
}

/// Fold a finer series into buckets of the target timeframe. Fails exactly
/// when the target is not strictly coarser than the source or not an
/// integer multiple of it; an empty source yields an empty output.
pub fn aggregate(source: &Vec<Candle>, source_tf: TimeFrame, target_tf: TimeFrame) -> (r: Result<
    Vec<Candle>,
    ChartError,
>)
    requires
        wf_series(source@),
    ensures
        ({
            let ws = source_tf.duration_spec();
            let wt = target_tf.duration_spec();
            match r {
                Ok(out) => wt % ws == 0 && wt > ws && series_model(out@) == aggregate_spec(
                    series_model(source@),
                    wt,
                ) && wf_series(out@),
                Err(e) => e == ChartError::AggregationDirectionError && !(wt % ws == 0 && wt
                    > ws),
            }
        }),
{
    let ws = source_tf.duration_seconds();
    let wt = target_tf.duration_seconds();
    if wt % ws != 0 || wt <= ws {
        return Err(ChartError::AggregationDirectionError);
    }
    proof {
        target_tf.lemma_duration_divides_week();
    }
    let ghost msrc = series_model(source@);
    let ghost ww = wt as int;
    let n = source.len();
    let mut out: Vec<Candle> = Vec::new();
    let mut i: usize = 0;
    while i < n
        invariant
            wf_series(source@),
            msrc == series_model(source@),
            ww == wt as int,
            0 < wt <= 604800,
            604800int % ww == 0,
            n == source@.len(),
            0 <= i <= n,
            series_model(out@) == aggregate_spec(msrc.take(i as int), ww),
            out@.len() == 0 <==> i == 0,
            i > 0 ==> out@.last().time as int == bucket_start(source@[i - 1].time as int, ww),
            forall|j: int| 0 <= j < out@.len() ==> wf_candle(#[trigger] out@[j]),
            forall|j: int|
                0 <= j < out@.len() - 1 ==> #[trigger] out@[j].time < out@[j + 1].time,
            sum_abs_vol(out@) <= sum_abs_vol(source@.take(i as int)),
        decreases n - i,
    {
        let c = source[i];
        assert(wf_candle(source@[i as int]));
        let b = bucket_of(c.time, wt);
        let ghost prev_out = out@;
        let ghost o_spec = aggregate_spec(msrc.take(i as int), ww);
        proof {
            assert(msrc.take(i + 1).drop_last() =~= msrc.take(i as int));
            assert(msrc.take(i + 1).last() == candle_model(source@[i as int]));
            assert(aggregate_spec(msrc.take(i + 1), ww) == agg_step(
                o_spec,
                candle_model(source@[i as int]),
                ww,
            ));
            assert(source@.take(i + 1).drop_last() =~= source@.take(i as int));
            assert(source@.take(i + 1).last() == source@[i as int]);
            assert(s_take_vol_step(source@, i as int));
            lemma_sum_abs_vol_prefix(source@, i + 1);
        }
        let out_len = out.len();
        if out_len > 0 && out[out_len - 1].time == b {
            // Same bucket: widen high/low, roll the close, add the volume.
            let prev = out[out_len - 1];
            proof {
                lemma_sum_abs_vol_elem(prev_out, prev_out.len() - 1);
            }
            let merged = Candle {
                time: prev.time,
                open: prev.open,
                high: if c.high.units > prev.high.units {
                    c.high
                } else {
                    prev.high
                },
                low: if c.low.units < prev.low.units {
                    c.low
                } else {
                    prev.low
                },
                close: c.close,
                volume: FixedDec { units: prev.volume.units + c.volume.units },
            };
            out[out_len - 1] = merged;
            proof {
                assert(series_model(out@) =~= o_spec.update(
                    o_spec.len() - 1,
                    merge_into(o_spec.last(), candle_model(source@[i as int])),
                ));
                assert(out@.drop_last() =~= prev_out.drop_last());
                assert(sum_abs_vol(out@) == sum_abs_vol(prev_out.drop_last()) + abs_i(
                    merged.volume.units as int,
                ));
            }
        } else {
            let fresh = Candle {
                time: b,
                open: c.open,
                high: c.high,
                low: c.low,
                close: c.close,
                volume: c.volume,
            };
            proof {
                if i > 0 {
                    lemma_bucket_start_mono(
                        source@[i - 1].time as int,
                        source@[i as int].time as int,
                        ww,
                    );
                }
            }
            out.push(fresh);
            proof {
                assert(series_model(out@) =~= o_spec.push(
                    fresh_bucket(candle_model(source@[i as int]), ww),
                ));
                assert(out@.drop_last() =~= prev_out);
                assert(sum_abs_vol(out@) == sum_abs_vol(prev_out) + abs_i(
                    fresh.volume.units as int,
                ));
            }
        }
        i += 1;
    }
    proof {
        assert(msrc.take(n as int) =~= msrc);
        assert(source@.take(n as int) =~= source@);
        crate::candle::lemma_adjacent_implies_sorted(out@);
    }
    Ok(out)
}

/// One step of the volume total along a prefix.
pub open spec fn s_take_vol_step(s: Seq<Candle>, i: int) -> bool {
    0 <= i < s.len() ==> sum_abs_vol(s.take(i + 1)) == sum_abs_vol(s.take(i)) + abs_i(
        s[i].volume.units as int,
    )
}


/// Signed total volume of a modeled series.
pub open spec fn sum_vol(s: Seq<CandleModel>) -> int
    decreases s.len(),
{
    if s.len() == 0 {
        0
    } else {
        sum_vol(s.drop_last()) + s.last().volume
    }
}

/// Aggregation preserves the total volume: the output's volumes sum to
/// exactly the source's, for every bucket width.
pub proof fn lemma_aggregate_volume(s: Seq<CandleModel>, w: int)
    ensures
        sum_vol(aggregate_spec(s, w)) == sum_vol(s),
    decreases s.len(),
{
    if s.len() > 0 {
        let s0 = s.drop_last();
        let c = s.last();
        let o = aggregate_spec(s0, w);
        lemma_aggregate_volume(s0, w);
        if o.len() > 0 && bucket_start(c.time, w) == o.last().time {
            let m = merge_into(o.last(), c);
            let o2 = o.update(o.len() - 1, m);
            assert(o2.drop_last() =~= o.drop_last());
            assert(o2.last() == m);
            assert(sum_vol(o2) == sum_vol(o.drop_last()) + m.volume);
        } else {
            let o2 = o.push(fresh_bucket(c, w));
            assert(o2.drop_last() =~= o);
            assert(sum_vol(o2) == sum_vol(o) + c.volume);
        }
    }
}

/// Each source candle's high and low are bounded by its bucket's output
/// candle: there is an output entry at the candle's bucket start whose
/// high is at least the source high and whose low is at most the source low.
pub proof fn lemma_aggregate_bounds(s: Seq<CandleModel>, w: int)
    requires
        0 < w,
    ensures
        forall|i: int|
            0 <= i < s.len() ==> exists|j: int|
                0 <= j < aggregate_spec(s, w).len() && #[trigger] aggregate_spec(s, w)[j].time
                    == bucket_start(#[trigger] s[i].time, w) && aggregate_spec(s, w)[j].high
                    >= s[i].high && aggregate_spec(s, w)[j].low <= s[i].low,
    decreases s.len(),
{
    if s.len() > 0 {
        let s0 = s.drop_last();
        let c = s.last();
        let o = aggregate_spec(s0, w);
        let o2 = aggregate_spec(s, w);
        lemma_aggregate_bounds(s0, w);
        assert(o2 == agg_step(o, c, w));
        // Existing entries keep their bucket time while high/low only widen,
        // and the newest candle lands in the final entry.
        assert forall|i: int| 0 <= i < s.len() implies exists|j: int|
            0 <= j < o2.len() && #[trigger] o2[j].time == bucket_start(#[trigger] s[i].time, w)
                && o2[j].high >= s[i].high && o2[j].low <= s[i].low by {
            if i < s.len() - 1 {
                assert(s0[i] == s[i]);
                let j0 = choose|j: int|
                    0 <= j < o.len() && #[trigger] o[j].time == bucket_start(s0[i].time, w) && o[
                        j
                    ].high >= s0[i].high && o[j].low <= s0[i].low;
                assert(0 <= j0 < o2.len() && o2[j0].time == o[j0].time && o2[j0].high >= o[
                    j0
                ].high && o2[j0].low <= o[j0].low);
            } else {
                let jn = o2.len() - 1;
                if o.len() > 0 && bucket_start(c.time, w) == o.last().time {
                    assert(o2[jn].time == bucket_start(c.time, w) && o2[jn].high >= c.high && o2[
                        jn
                    ].low <= c.low);
                } else {
                    assert(o2[jn] == fresh_bucket(c, w));
                    assert(o2[jn].time == bucket_start(c.time, w) && o2[jn].high >= c.high && o2[
                        jn
                    ].low <= c.low);
                }
            }
        }
    }
}

/// Aggregation chains: folding into a middle width and then into a coarser
/// width that the middle width divides gives exactly the one-step fold into
/// the coarser width.
pub proof fn lemma_aggregate_chain(s: Seq<CandleModel>, w1: int, w2: int)
    requires
        0 < w1,
        0 < w2,
        w2 % w1 == 0,
    ensures
        aggregate_spec(aggregate_spec(s, w1), w2) == aggregate_spec(s, w2),
    decreases s.len(),
{
    if s.len() > 0 {
        let s0 = s.drop_last();
        let c = s.last();
        lemma_aggregate_chain(s0, w1, w2);
        let o1 = aggregate_spec(s0, w1);
        let o2 = aggregate_spec(s0, w2);
        lemma_bucket_nest(c.time, w1, w2);
        if o1.len() > 0 && bucket_start(c.time, w1) == o1.last().time {
            // c merges into o1's last bucket; both sides then act on the
            // same coarse bucket.
            let l = o1.last();
            let m = merge_into(l, c);
            let fine = o1.update(o1.len() - 1, m);
            assert(fine.drop_last() =~= o1.drop_last());
            assert(fine.last() == m);
            let x = aggregate_spec(o1.drop_last(), w2);
            assert(aggregate_spec(fine, w2) == agg_step(x, m, w2));
            assert(aggregate_spec(o1, w2) == agg_step(x, l, w2));
            assert(bucket_start(m.time, w2) == bucket_start(l.time, w2));
            assert(bucket_start(c.time, w2) == bucket_start(l.time, w2));
            if x.len() > 0 && bucket_start(l.time, w2) == x.last().time {
                let y = x.update(x.len() - 1, merge_into(x.last(), l));
                assert(agg_step(x, l, w2) == y);
                assert(y.last().time == x.last().time);
                assert(agg_step(y, c, w2) == y.update(
                    y.len() - 1,
                    merge_into(y.last(), c),
                ));
                assert(agg_step(x, m, w2) == x.update(x.len() - 1, merge_into(x.last(), m)));
                assert(merge_into(x.last(), m) == merge_into(merge_into(x.last(), l), c));
                assert(agg_step(x, m, w2) =~= agg_step(agg_step(x, l, w2), c, w2));
            } else {
                let y = x.push(fresh_bucket(l, w2));
                assert(agg_step(x, l, w2) == y);
                assert(y.last() == fresh_bucket(l, w2));
                assert(y.last().time == bucket_start(l.time, w2));
                assert(agg_step(y, c, w2) == y.update(
                    y.len() - 1,
                    merge_into(y.last(), c),
                ));
                assert(agg_step(x, m, w2) == x.push(fresh_bucket(m, w2)));
                assert(fresh_bucket(m, w2) == merge_into(fresh_bucket(l, w2), c));
                assert(agg_step(x, m, w2) =~= agg_step(agg_step(x, l, w2), c, w2));
            }
            assert(aggregate_spec(aggregate_spec(s, w1), w2) == agg_step(
                aggregate_spec(s0, w2),
                c,
                w2,
            ));
        } else {
            // c opens a fresh fine bucket; on the coarse side it behaves
            // exactly as the raw candle does.
            let f1 = fresh_bucket(c, w1);
            let fine = o1.push(f1);
            assert(fine.drop_last() =~= o1);
            assert(fine.last() == f1);
            assert(aggregate_spec(fine, w2) == agg_step(
                aggregate_spec(o1, w2),
                f1,
                w2,
            ));
            assert(bucket_start(f1.time, w2) == bucket_start(c.time, w2));
            assert(agg_step(o2, f1, w2) =~= agg_step(o2, c, w2));
        }
    }
}

} // verus!
