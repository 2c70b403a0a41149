//! The import format: comma-separated rows of
//! `time,open,high,low,close,volume`, one row per line. `time` is integer
//! epoch seconds, the other fields decimal numbers. Malformed rows are
//! skipped rather than aborting the import, and a row whose timestamp
//! does not increase past the previously accepted row is rejected the
//! same way, so every import yields a well-formed series.

use vstd::prelude::*;

use crate::candle::Candle;
use crate::candle::MIN_TIME;
use crate::candle::VOL_SUM_CAP;
use crate::candle::abs_i;
use crate::candle::sorted_times;
use crate::candle::sum_abs_vol;
use crate::candle::wf_candle;
use crate::candle::wf_series;
use crate::fixed::FixedDec;
use crate::fixed::UNIT_CAP;
use crate::fixed::all_digits;
use crate::fixed::digits_val;
use crate::fixed::find_byte;
use crate::fixed::lemma_digits_val_prefix_le;
use crate::fixed::lemma_find_byte;
use crate::fixed::lemma_parse_dec_in_range;
use crate::fixed::parse_dec_spec;
use crate::fixed::parse_decimal_units;
use crate::ChartError;

verus! {

/// What an integer literal denotes: an optional minus sign and one or
/// more digits denoting at most `i64::MAX`.
pub open spec fn parse_int_spec(s: Seq<u8>) -> Option<int> {
    if s.len() == 0 {
        None
    } else {
        let neg = s[0] == 45;
        let body = if neg {
            s.skip(1)
        } else {
            s
        };
        if body.len() == 0 || !all_digits(body) || digits_val(body) > i64::MAX {
            None
        } else if neg {
            Some(-digits_val(body))
        } else {
            Some(digits_val(body))
        }
    }
}

/// Parse an integer literal exactly as `parse_int_spec` says.
pub fn parse_i64_bytes(s: &[u8]) -> (r: Option<i64>)
    ensures
        r is Some <==> parse_int_spec(s@) is Some,
        r is Some ==> r->Some_0 == parse_int_spec(s@)->Some_0,
{
    let n = s.len();
    if n == 0 {
        return None;
    }
    let neg = s[0] == 45;
    let start: usize = if neg {
        1
    } else {
        0
    };
    let ghost body = if neg {
        s@.skip(1)
    } else {
        s@
    };
    assert(body =~= s@.subrange(start as int, n as int));
    if start == n {
        return None;
    }
    let v = match digits_run_i64(s, start, n) {
        Some(v) => v,
        None => {
            return None;
        },
    };
    if neg {
        Some(-v)
    } else {
        Some(v)
    }
}

/// Accumulate the digit run `s[from..to]` into an `i64`, rejecting
/// non-digits and values over `i64::MAX`.
fn digits_run_i64(s: &[u8], from: usize, to: usize) -> (r: Option<i64>)
    requires
        from < to <= s@.len(),
    ensures
        ({
            let seg = s@.subrange(from as int, to as int);
            &&& (r is Some <==> all_digits(seg) && digits_val(seg) <= i64::MAX)
            &&& (r is Some ==> r->Some_0 == digits_val(seg) && 0 <= r->Some_0)
        }),
{
    let ghost seg = s@.subrange(from as int, to as int);
    let mut acc: i64 = 0;
    let mut i: usize = from;
    while i < to
        invariant
            from <= i <= to <= s@.len(),
            seg == s@.subrange(from as int, to as int),
            all_digits(seg.take(i - from)),
            acc == digits_val(seg.take(i - from)),
            0 <= acc <= i64::MAX,
        decreases to - i,
    {
        let b = s[i];
        if b < 48 || b > 57 {
            assert(!is_digit_b(seg[i - from]));
            assert(!all_digits(seg));
            return None;
        }
        let d = (b - 48) as i64;
        proof {
            let pre = seg.take(i - from);
            let post = seg.take(i + 1 - from);
            assert(post.drop_last() =~= pre);
            assert(post.last() == seg[i - from]);
            assert(digits_val(post) == acc * 10 + d);
            assert(all_digits(post));
        }
        if acc > (9_223_372_036_854_775_807 - d) / 10 {
            // The run denotes more than i64::MAX if it is all digits.
            if all_digits_range(s, from, to) {
                proof {
                    assert(seg.take(seg.len() as int) =~= seg);
                    lemma_digits_val_prefix_le(seg, i + 1 - from, seg.len() as int);
                    assert(digits_val(seg) > i64::MAX);
                }
                return None;
            } else {
                return None;
            }
        }
        acc = acc * 10 + d;
        i += 1;
    }
    assert(seg.take(seg.len() as int) =~= seg);
    Some(acc)
}

pub open spec fn is_digit_b(b: u8) -> bool {
    48 <= b <= 57
}

/// Whether the bytes of `s` in `[from, to)` are all ASCII digits.
fn all_digits_range(s: &[u8], from: usize, to: usize) -> (r: bool)
    requires
        from <= to <= s@.len(),
    ensures
        r == all_digits(s@.subrange(from as int, to as int)),
{
    let mut i: usize = from;
    while i < to
        invariant
            from <= i <= to <= s@.len(),
            forall|j: int| from <= j < i ==> is_digit_b(#[trigger] s@[j]),
        decreases to - i,
    {
        let b = s[i];
        if b < 48 || b > 57 {
            assert(!is_digit_b(s@.subrange(from as int, to as int)[i - from]));
            return false;
        }
        i += 1;
    }
    assert(forall|j: int|
        0 <= j < to - from ==> is_digit_b(#[trigger] s@.subrange(from as int, to as int)[j]));
    true
}

/// What one import row denotes: six comma-separated fields (extra fields
/// ignored), a timestamp at or above the supported floor, and five
/// decimal values.
pub open spec fn row_candle(line: Seq<u8>) -> Option<Candle> {
    let c0 = find_byte(line, 44);
    let f0 = line.take(c0);
    let r1 = line.skip(c0 + 1);
    let c1 = find_byte(r1, 44);
    let f1 = r1.take(c1);
    let r2 = r1.skip(c1 + 1);
    let c2 = find_byte(r2, 44);
    let f2 = r2.take(c2);
    let r3 = r2.skip(c2 + 1);
    let c3 = find_byte(r3, 44);
    let f3 = r3.take(c3);
    let r4 = r3.skip(c3 + 1);
    let c4 = find_byte(r4, 44);
    let f4 = r4.take(c4);
    let r5 = r4.skip(c4 + 1);
    let f5 = r5.take(find_byte(r5, 44));
    if c0 == line.len() || c1 == r1.len() || c2 == r2.len() || c3 == r3.len() || c4 == r4.len() {
        None
    } else if parse_int_spec(f0) is None || parse_dec_spec(f1) is None || parse_dec_spec(f2)
        is None || parse_dec_spec(f3) is None || parse_dec_spec(f4) is None || parse_dec_spec(f5)
        is None {
        None
    } else if parse_int_spec(f0)->Some_0 < MIN_TIME {
        None
    } else {
        Some(
            Candle {
                time: parse_int_spec(f0)->Some_0 as i64,
                open: FixedDec { units: parse_dec_spec(f1)->Some_0 as i128 },
                high: FixedDec { units: parse_dec_spec(f2)->Some_0 as i128 },
                low: FixedDec { units: parse_dec_spec(f3)->Some_0 as i128 },
                close: FixedDec { units: parse_dec_spec(f4)->Some_0 as i128 },
                volume: FixedDec { units: parse_dec_spec(f5)->Some_0 as i128 },
            },
        )
    }
}

/// A row's candle is well formed and its volume is below the unit cap.
pub proof fn lemma_row_candle_wf(line: Seq<u8>)
    requires
        row_candle(line) is Some,
    ensures
        wf_candle(row_candle(line)->Some_0),
        abs_i(row_candle(line)->Some_0.volume.units as int) < UNIT_CAP,
{
    let c0 = find_byte(line, 44);
    let r1 = line.skip(c0 + 1);
    let c1 = find_byte(r1, 44);
    let r2 = r1.skip(c1 + 1);
    let c2 = find_byte(r2, 44);
    let r3 = r2.skip(c2 + 1);
    let c3 = find_byte(r3, 44);
    let r4 = r3.skip(c3 + 1);
    let c4 = find_byte(r4, 44);
    let r5 = r4.skip(c4 + 1);
    let f0 = line.take(c0);
    assert(parse_int_spec(f0) is Some);
    let body = if f0[0] == 45 {
        f0.skip(1)
    } else {
        f0
    };
    crate::fixed::lemma_digits_val_nonneg(body);
    lemma_parse_dec_in_range(r1.take(c1));
    lemma_parse_dec_in_range(r2.take(c2));
    lemma_parse_dec_in_range(r3.take(c3));
    lemma_parse_dec_in_range(r4.take(c4));
    lemma_parse_dec_in_range(r5.take(find_byte(r5, 44)));
}

/// Find the first occurrence of `b` in `s[from..to)`, as an absolute
/// index; `to` when absent. The relative offset is `find_byte` of the
/// subrange.
fn scan_to(s: &[u8], from: usize, to: usize, b: u8) -> (e: usize)
    requires
        from <= to <= s@.len(),
    ensures
        from <= e <= to,
        e - from == find_byte(s@.subrange(from as int, to as int), b),
        forall|j: int| from <= j < e ==> s@[j] != b,
        e < to ==> s@[e as int] == b,
{
    let mut i: usize = from;
    while i < to && s[i] != b
        invariant
            from <= i <= to,
            to <= s@.len(),
            forall|j: int| from <= j < i ==> s@[j] != b,
        decreases to - i,
    {
        i += 1;
    }
    proof {
        let seg = s@.subrange(from as int, to as int);
        lemma_find_byte(seg, b);
        let f = find_byte(seg, b);
        if f < i - from {
            assert(seg[f] == b);
            assert(s@[from + f] == b);
        }
        if i - from < f {
            assert(seg[i - from] == s@[i as int]);
        }
    }
    i
}

/// The bytes of `s` in `[from, to)`, as a fresh vector.
fn copy_range(s: &[u8], from: usize, to: usize) -> (r: Vec<u8>)
    requires
        from <= to <= s@.len(),
    ensures
        r@ == s@.subrange(from as int, to as int),
{
    let mut out: Vec<u8> = Vec::new();
    let mut i: usize = from;
    while i < to
        invariant
            from <= i <= to <= s@.len(),
            out@ == s@.subrange(from as int, i as int),
        decreases to - i,
    {
        out.push(s[i]);
        proof {
            assert(out@ =~= s@.subrange(from as int, i + 1));
        }
        i += 1;
    }
    out
}

/// Parse one import row exactly as `row_candle` says; a malformed row
/// is a `ParseError`.
#[verifier::rlimit(100)]
pub fn parse_csv_row(line: &[u8]) -> (r: Result<Candle, ChartError>)
    ensures
        r is Ok <==> row_candle(line@) is Some,
        r is Ok ==> r->Ok_0 == row_candle(line@)->Some_0,
        r is Err ==> r->Err_0 == ChartError::ParseError,
{
    let n = line.len();
    proof {
        assert(line@.subrange(0, n as int) =~= line@);
    }
    let c0 = scan_to(line, 0, n, 44);
    proof {
        assert(line@.subrange(0, c0 as int) =~= line@.take(c0 as int));
    }
    if c0 == n {
        return Err(ChartError::ParseError);
    }
    let ghost r1 = line@.skip(c0 + 1);
    proof {
        assert(r1 =~= line@.subrange(c0 + 1, n as int));
    }
    let c1 = scan_to(line, c0 + 1, n, 44);
    proof {
        assert(line@.subrange(c0 + 1, c1 as int) =~= r1.take(c1 - (c0 + 1)));
        assert(c1 - (c0 + 1) == find_byte(r1, 44)) by {
            assert(line@.subrange(c0 + 1, n as int) =~= r1);
        }
    }
    if c1 == n {
        assert(find_byte(r1, 44) == r1.len());
        return Err(ChartError::ParseError);
    }
    let ghost r2 = r1.skip(c1 - c0);
    proof {
        assert(r2 =~= line@.subrange(c1 + 1, n as int));
        assert(r2 == r1.skip(find_byte(r1, 44) + 1));
    }
    let c2 = scan_to(line, c1 + 1, n, 44);
    proof {
        assert(line@.subrange(c1 + 1, c2 as int) =~= r2.take(c2 - (c1 + 1)));
        assert(c2 - (c1 + 1) == find_byte(r2, 44)) by {
            assert(line@.subrange(c1 + 1, n as int) =~= r2);
        }
    }
    if c2 == n {
        return Err(ChartError::ParseError);
    }
    let ghost r3 = r2.skip(c2 - c1);
    proof {
        assert(r3 =~= line@.subrange(c2 + 1, n as int));
        assert(r3 == r2.skip(find_byte(r2, 44) + 1));
    }
    let c3 = scan_to(line, c2 + 1, n, 44);
    proof {
        assert(line@.subrange(c2 + 1, c3 as int) =~= r3.take(c3 - (c2 + 1)));
        assert(c3 - (c2 + 1) == find_byte(r3, 44)) by {
            assert(line@.subrange(c2 + 1, n as int) =~= r3);
        }
    }
    if c3 == n {
        return Err(ChartError::ParseError);
    }
    let ghost r4 = r3.skip(c3 - c2);
    proof {
        assert(r4 =~= line@.subrange(c3 + 1, n as int));
        assert(r4 == r3.skip(find_byte(r3, 44) + 1));
    }
    let c4 = scan_to(line, c3 + 1, n, 44);
    proof {
        assert(line@.subrange(c3 + 1, c4 as int) =~= r4.take(c4 - (c3 + 1)));
        assert(c4 - (c3 + 1) == find_byte(r4, 44)) by {
            assert(line@.subrange(c3 + 1, n as int) =~= r4);
        }
    }
    if c4 == n {
        return Err(ChartError::ParseError);
    }
    let ghost r5 = r4.skip(c4 - c3);
    proof {
        assert(r5 =~= line@.subrange(c4 + 1, n as int));
        assert(r5 == r4.skip(find_byte(r4, 44) + 1));
    }
    let c5 = scan_to(line, c4 + 1, n, 44);
    proof {
        assert(line@.subrange(c4 + 1, c5 as int) =~= r5.take(c5 - (c4 + 1)));
        assert(c5 - (c4 + 1) == find_byte(r5, 44)) by {
            assert(line@.subrange(c4 + 1, n as int) =~= r5);
        }
    }

    let f0 = copy_range(line, 0, c0);
    let f1 = copy_range(line, c0 + 1, c1);
    let f2 = copy_range(line, c1 + 1, c2);
    let f3 = copy_range(line, c2 + 1, c3);
    let f4 = copy_range(line, c3 + 1, c4);
    let f5 = copy_range(line, c4 + 1, c5);

    let time = match parse_i64_bytes(f0.as_slice()) {
        Some(t) => t,
        None => {
            return Err(ChartError::ParseError);
        },
    };
    if time < MIN_TIME {
        return Err(ChartError::ParseError);
    }
    let open = match parse_decimal_units(f1.as_slice()) {
        Some(v) => v,
        None => {
            return Err(ChartError::ParseError);
        },
    };
    let high = match parse_decimal_units(f2.as_slice()) {
        Some(v) => v,
        None => {
            return Err(ChartError::ParseError);
        },
    };
    let low = match parse_decimal_units(f3.as_slice()) {
        Some(v) => v,
        None => {
            return Err(ChartError::ParseError);
        },
    };
    let close = match parse_decimal_units(f4.as_slice()) {
        Some(v) => v,
        None => {
            return Err(ChartError::ParseError);
        },
    };
    let volume = match parse_decimal_units(f5.as_slice()) {
        Some(v) => v,
        None => {
            return Err(ChartError::ParseError);
        },
    };
    Ok(
        Candle {
            time,
            open: FixedDec { units: open },
            high: FixedDec { units: high },
            low: FixedDec { units: low },
            close: FixedDec { units: close },
            volume: FixedDec { units: volume },
        },
    )
}


/// The integer image of an optional machine timestamp.
pub open spec fn opt_time_model(o: Option<i64>) -> Option<int> {
    match o {
        Option::Some(t) => Some(t as int),
        Option::None => None,
    }
}

/// The candles an import yields from the raw file bytes: rows in file
/// order, each malformed row skipped, and each row whose timestamp does
/// not increase past the last accepted one (`last`) skipped too.
pub open spec fn import_spec(s: Seq<u8>, last: Option<int>) -> Seq<Candle>
    decreases s.len(),
{
    if s.len() == 0 {
        Seq::empty()
    } else {
        let e = find_byte(s, 10);
        let raw = s.take(e);
        let line = if raw.len() > 0 && raw.last() == 13 {
            raw.drop_last()
        } else {
            raw
        };
        let rc = row_candle(line);
        let acc_ok = rc is Some && (last is None || rc->Some_0.time > last->Some_0);
        if 0 <= e < s.len() {
            let rest = s.skip(e + 1);
            if acc_ok {
                seq![rc->Some_0] + import_spec(rest, Some(rc->Some_0.time as int))
            } else {
                import_spec(rest, last)
            }
        } else {
            if acc_ok {
                seq![rc->Some_0]
            } else {
                Seq::empty()
            }
        }
    }
}

/// Every import is a well-formed series: candles are well formed, times
/// strictly increase and stay above `last`, at most one candle comes
/// from each line, and the total volume is bounded by the line count.
pub proof fn lemma_import_wf(s: Seq<u8>, last: Option<int>)
    ensures
        ({
            let out = import_spec(s, last);
            &&& sorted_times(out)
            &&& forall|i: int| 0 <= i < out.len() ==> wf_candle(#[trigger] out[i])
            &&& forall|i: int|
                0 <= i < out.len() && last is Some ==> #[trigger] out[i].time > last->Some_0
            &&& out.len() <= s.len() + 1
            &&& sum_abs_vol(out) <= (s.len() + 1) * (UNIT_CAP as int)
        }),
    decreases s.len(),
{
    let out = import_spec(s, last);
    if s.len() == 0 {
    } else {
        let e = find_byte(s, 10);
        lemma_find_byte(s, 10);
        let raw = s.take(e);
        let line = if raw.len() > 0 && raw.last() == 13 {
            raw.drop_last()
        } else {
            raw
        };
        let rc = row_candle(line);
        let acc_ok = rc is Some && (last is None || rc->Some_0.time > last->Some_0);
        if rc is Some {
            lemma_row_candle_wf(line);
        }
        if 0 <= e < s.len() {
            let rest = s.skip(e + 1);
            if acc_ok {
                let c = rc->Some_0;
                lemma_import_wf(rest, Some(c.time as int));
                let tail = import_spec(rest, Some(c.time as int));
                assert(out == seq![c] + tail);
                assert(out[0] == c);
                assert(forall|i: int| 1 <= i < out.len() ==> out[i] == #[trigger] tail[i - 1]);
                lemma_sum_prepend(c, tail);
                assert(sum_abs_vol(out) <= (s.len() + 1) * (UNIT_CAP as int)) by {
                    assert(sum_abs_vol(tail) <= (rest.len() + 1) * (UNIT_CAP as int));
                    assert(rest.len() + 1 <= s.len());
                    vstd::arithmetic::mul::lemma_mul_inequality(
                        rest.len() + 1 as int,
                        s.len() as int,
                        UNIT_CAP as int,
                    );
                }
            } else {
                lemma_import_wf(rest, last);
                assert(sum_abs_vol(out) <= (s.len() + 1) * (UNIT_CAP as int)) by {
                    assert(sum_abs_vol(out) <= (rest.len() + 1) * (UNIT_CAP as int));
                    assert(rest.len() + 1 <= s.len() + 1);
                    vstd::arithmetic::mul::lemma_mul_inequality(
                        rest.len() + 1 as int,
                        s.len() + 1 as int,
                        UNIT_CAP as int,
                    );
                }
            }
        } else {
            if acc_ok {
                let c = rc->Some_0;
                assert(out =~= seq![c].push(c).drop_last());
                assert(sum_abs_vol(out) == sum_abs_vol(out.drop_last()) + abs_i(
                    c.volume.units as int,
                ));
                assert(out.drop_last() =~= Seq::<Candle>::empty());
                assert((s.len() + 1) * (UNIT_CAP as int) >= 1 * (UNIT_CAP as int)) by {
                    vstd::arithmetic::mul::lemma_mul_inequality(
                        1,
                        s.len() + 1 as int,
                        UNIT_CAP as int,
                    );
                }
            }
        }
    }
}

/// Prepending one candle adds its volume magnitude to the total.
proof fn lemma_sum_prepend(c: Candle, tail: Seq<Candle>)
    ensures
        sum_abs_vol(seq![c] + tail) == abs_i(c.volume.units as int) + sum_abs_vol(tail),
    decreases tail.len(),
{
    if tail.len() == 0 {
        assert(seq![c] + tail =~= seq![c]);
        assert(sum_abs_vol(seq![c]) == sum_abs_vol(seq![c].drop_last()) + abs_i(
            c.volume.units as int,
        ));
        assert(seq![c].drop_last() =~= Seq::<Candle>::empty());
    } else {
        lemma_sum_prepend(c, tail.drop_last());
        assert((seq![c] + tail).drop_last() =~= seq![c] + tail.drop_last());
        assert((seq![c] + tail).last() == tail.last());
    }
}

/// Parse a whole import file into the candles of its valid rows, in
/// file order: exactly `import_spec`, and always a well-formed series.
pub fn import_candles(bytes: &[u8]) -> (r: Vec<Candle>)
    ensures
        r@ == import_spec(bytes@, None),
        wf_series(r@),
{
    let n = bytes.len();
    let mut out: Vec<Candle> = Vec::new();
    let mut last_time: Option<i64> = None;
    let mut pos: usize = 0;
    proof {
        assert(bytes@.skip(0) =~= bytes@);
        assert(out@ + import_spec(bytes@, None) =~= import_spec(bytes@, None));
    }
    while pos < n
        invariant
            0 <= pos <= n,
            n == bytes@.len(),
            import_spec(bytes@, None) == out@ + import_spec(
                bytes@.skip(pos as int),
                opt_time_model(last_time),
            ),
        decreases n - pos,
    {
        let ghost rem = bytes@.skip(pos as int);
        let ghost lastg = opt_time_model(last_time);
        let e = scan_to(bytes, pos, n, 10);
        proof {
            assert(rem =~= bytes@.subrange(pos as int, n as int));
            assert(e - pos == find_byte(rem, 10));
        }
        let line_end = if e > pos && bytes[e - 1] == 13 {
            e - 1
        } else {
            e
        };
        let line = copy_range(bytes, pos, line_end);
        proof {
            let raw = rem.take(e - pos);
            assert(raw =~= bytes@.subrange(pos as int, e as int));
            let line_spec = if raw.len() > 0 && raw.last() == 13 {
                raw.drop_last()
            } else {
                raw
            };
            assert(line@ =~= line_spec);
        }
        let accepted = match parse_csv_row(line.as_slice()) {
            Ok(c) => {
                let ok = match last_time {
                    Some(t) => c.time > t,
                    None => true,
                };
                if ok {
                    out.push(c);
                    last_time = Some(c.time);
                }
                ok
            },
            Err(_) => false,
        };
        proof {
            if e < n {
                assert(rem.skip((e - pos) + 1) =~= bytes@.skip(e + 1));
            }
        }
        if e == n {
            pos = n;
            proof {
                assert(import_spec(bytes@.skip(pos as int), opt_time_model(last_time))
                    =~= Seq::<Candle>::empty());
                assert(bytes@.skip(pos as int).len() == 0);
            }
        } else {
            pos = e + 1;
        }
    }
    proof {
        assert(bytes@.skip(pos as int).len() == 0);
        assert(import_spec(bytes@.skip(pos as int), opt_time_model(last_time))
            =~= Seq::<Candle>::empty());
        assert(out@ + Seq::<Candle>::empty() =~= out@);
        lemma_import_wf(bytes@, None);
        assert(sum_abs_vol(out@) <= VOL_SUM_CAP) by {
            assert(sum_abs_vol(out@) <= (bytes@.len() + 1) * (UNIT_CAP as int));
            assert(bytes@.len() + 1 <= 18_446_744_073_709_551_616);
            vstd::arithmetic::mul::lemma_mul_inequality(
                bytes@.len() + 1 as int,
                18_446_744_073_709_551_616int,
                UNIT_CAP as int,
            );
            assert(18_446_744_073_709_551_616 * (UNIT_CAP as int) <= VOL_SUM_CAP as int) by (nonlinear_arith);
        }
    }
    out
}

} // verus!
