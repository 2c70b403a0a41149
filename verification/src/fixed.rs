//! Fixed-precision decimal values. A `FixedDec` holds an exact count of
//! 10^-8 units in an `i128`, so OHLC comparisons and volume sums are exact
//! integer arithmetic, never binary floating point. The boundary
//! representation is a plain decimal string.

use vstd::prelude::*;

verus! {

/// Number of 10^-8 units in 1.0.
pub const SCALE_FACTOR: i128 = 100_000_000;

/// Largest magnitude (in units) a parsed decimal can have: just under 10^18,
/// ten integer digits and eight fractional digits.
pub const UNIT_CAP: i128 = 1_000_000_000_000_000_000;

/// Largest integer-part value a parsed decimal can have.
pub const INT_PART_CAP: i128 = 9_999_999_999;

/// An exact decimal number: `units` counts 10^-8 units.
#[derive(Clone, Copy, PartialEq, Eq, Structural, Debug)]
pub struct FixedDec {
    pub units: i128,
}

impl FixedDec {
    /// The value holding exactly `units` counts of 10^-8.
    pub fn from_units(units: i128) -> (r: FixedDec)
        ensures
            r.units == units,
    {
        FixedDec { units }
    }
}

/// 10^n.
pub open spec fn pow10(n: nat) -> int
    decreases n,
{
    if n == 0 {
        1
    } else {
        10 * pow10((n - 1) as nat)
    }
}

pub open spec fn is_digit(b: u8) -> bool {
    48 <= b <= 57
}

pub open spec fn all_digits(s: Seq<u8>) -> bool {
    forall|i: int| 0 <= i < s.len() ==> is_digit(#[trigger] s[i])
}

/// The number denoted by a sequence of ASCII digits, most significant first.
pub open spec fn digits_val(s: Seq<u8>) -> int
    decreases s.len(),
{
    if s.len() == 0 {
        0
    } else {
        digits_val(s.drop_last()) * 10 + (s.last() - 48)
    }
}

/// Index of the first occurrence of `b` in `s`, or `s.len()` if absent.
pub open spec fn find_byte(s: Seq<u8>, b: u8) -> int
    decreases s.len(),
{
    if s.len() == 0 {
        0
    } else if s[0] == b {
        0
    } else {
        1 + find_byte(s.skip(1), b)
    }
}

pub proof fn lemma_find_byte(s: Seq<u8>, b: u8)
    ensures
        0 <= find_byte(s, b) <= s.len(),
        forall|j: int| 0 <= j < find_byte(s, b) ==> s[j] != b,
        find_byte(s, b) < s.len() ==> s[find_byte(s, b)] == b,
    decreases s.len(),
{
    if s.len() == 0 {
    } else if s[0] == b {
    } else {
        lemma_find_byte(s.skip(1), b);
        assert forall|j: int| 0 <= j < find_byte(s, b) implies s[j] != b by {
            if j > 0 {
                assert(s.skip(1)[j - 1] == s[j]);
            }
        }
        if find_byte(s, b) < s.len() {
            assert(s.skip(1)[find_byte(s, b) - 1] == s[find_byte(s, b)]);
        }
    }
}

pub proof fn lemma_digits_val_nonneg(s: Seq<u8>)
    requires
        all_digits(s),
    ensures
        digits_val(s) >= 0,
    decreases s.len(),
{
    if s.len() > 0 {
        assert(all_digits(s.drop_last()));
        lemma_digits_val_nonneg(s.drop_last());
    }
}

pub proof fn lemma_digits_val_bound(s: Seq<u8>)
    requires
        all_digits(s),
    ensures
        0 <= digits_val(s) < pow10(s.len()),
    decreases s.len(),
{
    if s.len() == 0 {
    } else {
        assert(all_digits(s.drop_last()));
        lemma_digits_val_bound(s.drop_last());
    }
}

/// Appending digits never lowers the denoted value.
pub proof fn lemma_digits_val_prefix_le(s: Seq<u8>, j: int, k: int)
    requires
        0 <= j <= k <= s.len(),
        all_digits(s.take(k)),
    ensures
        digits_val(s.take(j)) <= digits_val(s.take(k)),
    decreases k - j,
{
    if j < k {
        let p = s.take((k - 1) as int);
        assert(all_digits(p)) by {
            assert(forall|i: int| 0 <= i < p.len() ==> p[i] == s.take(k)[i]);
        }
        lemma_digits_val_nonneg(p);
        assert(s.take(k).drop_last() =~= p);
        assert(digits_val(s.take(k)) == digits_val(p) * 10 + (s[k - 1] - 48));
        lemma_digits_val_prefix_le(s, j, k - 1);
    }
}

/// What a decimal literal denotes, in 10^-8 units: an optional minus sign,
/// one or more integer digits denoting at most `INT_PART_CAP`, and
/// optionally a dot followed by one to eight fraction digits.
pub open spec fn parse_dec_spec(s: Seq<u8>) -> Option<int> {
    if s.len() == 0 {
        None
    } else {
        let neg = s[0] == 45;
        let body = if neg {
            s.skip(1)
        } else {
            s
        };
        let dot = find_byte(body, 46);
        let ip = body.take(dot);
        let fp = body.skip(dot + 1);
        if ip.len() == 0 || !all_digits(ip) || digits_val(ip) > INT_PART_CAP {
            None
        } else if dot == body.len() {
            let mag = digits_val(ip) * SCALE_FACTOR;
            if neg {
                Some(-mag)
            } else {
                Some(mag)
            }
        } else if fp.len() == 0 || fp.len() > 8 || !all_digits(fp) {
            None
        } else {
            let mag = digits_val(ip) * SCALE_FACTOR + digits_val(fp) * pow10(
                (8 - fp.len()) as nat,
            );
            if neg {
                Some(-mag)
            } else {
                Some(mag)
            }
        }
    }
}

/// Every parsed value is within `UNIT_CAP` in magnitude.
pub proof fn lemma_parse_dec_in_range(s: Seq<u8>)
    requires
        parse_dec_spec(s) is Some,
    ensures
        -UNIT_CAP < parse_dec_spec(s)->Some_0 < UNIT_CAP,
{
    let neg = s[0] == 45;
    let body = if neg {
        s.skip(1)
    } else {
        s
    };
    let dot = find_byte(body, 46);
    let ip = body.take(dot);
    let fp = body.skip(dot + 1);
    assert(all_digits(ip) && digits_val(ip) <= INT_PART_CAP);
    lemma_digits_val_nonneg(ip);
    assert(pow10(8) == 100_000_000) by {
        reveal_with_fuel(pow10, 9);
    }
    if dot != body.len() {
        lemma_digits_val_bound(fp);
        lemma_pow10_mono(fp.len(), 8);
        assert(digits_val(fp) * pow10((8 - fp.len()) as nat) < pow10(fp.len()) * pow10(
            (8 - fp.len()) as nat,
        )) by {
            lemma_pow10_pos((8 - fp.len()) as nat);
            vstd::arithmetic::mul::lemma_mul_strict_inequality(
                digits_val(fp),
                pow10(fp.len()),
                pow10((8 - fp.len()) as nat),
            );
        }
        lemma_pow10_add(fp.len(), (8 - fp.len()) as nat);
        lemma_digits_val_nonneg(fp);
        assert(digits_val(fp) * pow10((8 - fp.len()) as nat) >= 0) by {
            lemma_pow10_pos((8 - fp.len()) as nat);
            vstd::arithmetic::mul::lemma_mul_nonnegative(
                digits_val(fp),
                pow10((8 - fp.len()) as nat),
            );
        }
    }
}

pub proof fn lemma_pow10_pos(n: nat)
    ensures
        pow10(n) >= 1,
    decreases n,
{
    if n > 0 {
        lemma_pow10_pos((n - 1) as nat);
    }
}

pub proof fn lemma_pow10_mono(a: nat, b: nat)
    requires
        a <= b,
    ensures
        pow10(a) <= pow10(b),
    decreases b,
{
    if a < b {
        lemma_pow10_mono(a, (b - 1) as nat);
        lemma_pow10_pos((b - 1) as nat);
    }
}

pub proof fn lemma_pow10_add(a: nat, b: nat)
    ensures
        pow10(a + b) == pow10(a) * pow10(b),
    decreases a,
{
    if a == 0 {
    } else {
        lemma_pow10_add((a - 1) as nat, b);
        assert(pow10(a + b) == 10 * pow10((a + b - 1) as nat));
        assert(10 * (pow10((a - 1) as nat) * pow10(b)) == (10 * pow10((a - 1) as nat)) * pow10(b))
            by {
            vstd::arithmetic::mul::lemma_mul_is_associative(
                10,
                pow10((a - 1) as nat),
                pow10(b),
            );
        }
    }
}

/// Accumulate the value of the ASCII-digit run `s[from..to]`, returning
/// `None` if a byte of the run is not a digit or the value exceeds `cap`.
fn digits_run(s: &[u8], from: usize, to: usize, cap: i128) -> (r: Option<i128>)
    requires
        from <= to <= s@.len(),
        0 <= cap <= 1_000_000_000_000_000_000_000_000,
    ensures
        ({
            let seg = s@.subrange(from as int, to as int);
            &&& (r is Some <==> all_digits(seg) && digits_val(seg) <= cap)
            &&& (r is Some ==> r->Some_0 == digits_val(seg) && 0 <= r->Some_0 <= cap)
        }),
{
    let ghost seg = s@.subrange(from as int, to as int);
    let mut acc: i128 = 0;
    let mut i: usize = from;
    while i < to
        invariant
            from <= i <= to <= s@.len(),
            seg == s@.subrange(from as int, to as int),
            0 <= cap <= 1_000_000_000_000_000_000_000_000,
            all_digits(seg.take(i - from)),
            acc == digits_val(seg.take(i - from)),
            0 <= acc <= cap,
        decreases to - i,
    {
        let b = s[i];
        if b < 48 || b > 57 {
            assert(!is_digit(seg[i - from]));
            assert(!all_digits(seg));
            return None;
        }
        let d = (b - 48) as i128;
        proof {
            let pre = seg.take(i - from);
            let post = seg.take(i + 1 - from);
            assert(post.drop_last() =~= pre);
            assert(post.last() == seg[i - from]);
            assert(digits_val(post) == acc * 10 + d);
            assert(all_digits(post));
        }
        let next = acc * 10 + d;
        if next > cap {
            // The run denotes more than `cap` if it is all digits at all;
            // either way it is rejected.
            if all_digits_check(s, from, to) {
                proof {
                    assert(seg.take(seg.len() as int) =~= seg);
                    lemma_digits_val_prefix_le(seg, i + 1 - from, seg.len() as int);
                    assert(digits_val(seg) > cap);
                }
                return None;
            } else {
                return None;
            }
        }
        acc = next;
        i += 1;
    }
    assert(seg.take(seg.len() as int) =~= seg);
    Some(acc)
}

/// Parse a decimal literal into 10^-8 units, exactly as `parse_dec_spec` says.
pub fn parse_decimal_units(s: &[u8]) -> (r: Option<i128>)
    ensures
        r is Some <==> parse_dec_spec(s@) is Some,
        r is Some ==> r->Some_0 == parse_dec_spec(s@)->Some_0,
        r is Some ==> -UNIT_CAP < r->Some_0 < UNIT_CAP,
{
    let n = s.len();
    if n == 0 {
        return None;
    }
    let neg = s[0] == 45;
    let start: usize = if neg {
        1
    } else {
        0
    };
    let ghost body = if neg {
        s@.skip(1)
    } else {
        s@
    };
    assert(body.len() == n - start);
    assert(forall|j: int| 0 <= j < body.len() ==> body[j] == s@[start + j]);

    // Locate the first dot of the body, as an absolute index into `s`.
    let mut dot_abs: usize = start;
    while dot_abs < n && s[dot_abs] != 46
        invariant
            start <= dot_abs <= n,
            n == s@.len(),
            forall|j: int| start <= j < dot_abs ==> s@[j] != 46,
        decreases n - dot_abs,
    {
        dot_abs += 1;
    }
    let ghost dot = dot_abs - start;
    proof {
        lemma_find_byte(body, 46);
        if find_byte(body, 46) < dot {
            assert(body[find_byte(body, 46)] == 46);
            assert(s@[start + find_byte(body, 46)] == 46);
            assert(false);
        }
        if dot < find_byte(body, 46) {
            assert(body[dot] == s@[dot_abs as int]);
            assert(false);
        }
        assert(find_byte(body, 46) == dot);
    }
    let ghost ip = body.take(dot);
    proof {
        assert(ip =~= s@.subrange(start as int, dot_abs as int));
    }

    if dot_abs == start {
        // Empty integer part.
        assert(ip.len() == 0);
        assert(parse_dec_spec(s@) is None);
        return None;
    }

    let int_val = match digits_run(s, start, dot_abs, INT_PART_CAP) {
        Some(v) => v,
        None => {
            assert(!(all_digits(ip) && digits_val(ip) <= INT_PART_CAP));
            assert(parse_dec_spec(s@) is None);
            return None;
        },
    };
    assert(all_digits(ip) && int_val == digits_val(ip) && int_val <= INT_PART_CAP);

    if dot_abs == n {
        assert(dot == body.len());
        let mag = int_val * SCALE_FACTOR;
        assert(0 <= mag < UNIT_CAP);
        if neg {
            assert(parse_dec_spec(s@) == Some(-mag as int));
            return Some(-mag);
        } else {
            assert(parse_dec_spec(s@) == Some(mag as int));
            return Some(mag);
        }
    }

    // Fraction part: one to eight digits after the dot.
    let ghost fp = body.skip(dot + 1);
    proof {
        assert(fp =~= s@.subrange(dot_abs + 1, n as int));
    }
    let flen = n - dot_abs - 1;
    assert(fp.len() == flen);
    if flen == 0 || flen > 8 {
        assert(parse_dec_spec(s@) is None);
        return None;
    }
    let frac_val = match digits_run(s, dot_abs + 1, n, 99_999_999) {
        Some(v) => v,
        None => {
            proof {
                if all_digits(fp) {
                    lemma_digits_val_bound(fp);
                    lemma_pow10_mono(fp.len(), 8);
                    assert(pow10(8) == 100_000_000) by {
                        reveal_with_fuel(pow10, 9);
                    }
                    assert(false);
                }
            }
            assert(parse_dec_spec(s@) is None);
            return None;
        },
    };
    assert(all_digits(fp) && frac_val == digits_val(fp));
    let mult: i128 = pow10_units((8 - flen) as u32);
    proof {
        lemma_digits_val_bound(fp);
        lemma_pow10_pos((8 - fp.len()) as nat);
        assert(pow10(8) == 100_000_000) by {
            reveal_with_fuel(pow10, 9);
        }
        assert(digits_val(fp) * pow10((8 - fp.len()) as nat) < pow10(fp.len()) * pow10(
            (8 - fp.len()) as nat,
        )) by {
            lemma_pow10_pos((8 - fp.len()) as nat);
            lemma_digits_val_bound(fp);
            vstd::arithmetic::mul::lemma_mul_strict_inequality(
                digits_val(fp),
                pow10(fp.len()),
                pow10((8 - fp.len()) as nat),
            );
        }
        lemma_pow10_add(fp.len(), (8 - fp.len()) as nat);
        assert(digits_val(fp) * pow10((8 - fp.len()) as nat) >= 0) by {
            lemma_pow10_pos((8 - fp.len()) as nat);
            lemma_digits_val_nonneg(fp);
            vstd::arithmetic::mul::lemma_mul_nonnegative(
                digits_val(fp),
                pow10((8 - fp.len()) as nat),
            );
        }
    }
    let mag = int_val * SCALE_FACTOR + frac_val * mult;
    assert(0 <= mag < UNIT_CAP);
    if neg {
        assert(parse_dec_spec(s@) == Some(-mag as int));
        Some(-mag)
    } else {
        assert(parse_dec_spec(s@) == Some(mag as int));
        Some(mag)
    }
}

/// Whether the bytes of `s` from `from` (inclusive) to `to` (exclusive)
/// are all ASCII digits.
fn all_digits_check(s: &[u8], from: usize, to: usize) -> (r: bool)
    requires
        from <= to <= s@.len(),
    ensures
        r == all_digits(s@.subrange(from as int, to as int)),
{
    let mut i: usize = from;
    while i < to
        invariant
            from <= i <= to <= s@.len(),
            forall|j: int| from <= j < i ==> is_digit(#[trigger] s@[j]),
        decreases to - i,
    {
        let b = s[i];
        if b < 48 || b > 57 {
            assert(!is_digit(s@.subrange(from as int, to as int)[i - from]));
            return false;
        }
        i += 1;
    }
    assert(forall|j: int| 0 <= j < to - from ==> is_digit(
        #[trigger] s@.subrange(from as int, to as int)[j],
    ));
    true
}

/// 10^n for n at most 8.
fn pow10_units(n: u32) -> (r: i128)
    requires
        n <= 8,
    ensures
        r == pow10(n as nat),
        1 <= r <= 100_000_000,
{
    proof {
        reveal_with_fuel(pow10, 9);
    }
    if n == 0 {
        1
    } else if n == 1 {
        10
    } else if n == 2 {
        100
    } else if n == 3 {
        1_000
    } else if n == 4 {
        10_000
    } else if n == 5 {
        100_000
    } else if n == 6 {
        1_000_000
    } else if n == 7 {
        10_000_000
    } else {
        100_000_000
    }
}


/// The character of one decimal digit.
pub open spec fn digit_char(d: int) -> char {
    if d == 0 {
        '0'
    } else if d == 1 {
        '1'
    } else if d == 2 {
        '2'
    } else if d == 3 {
        '3'
    } else if d == 4 {
        '4'
    } else if d == 5 {
        '5'
    } else if d == 6 {
        '6'
    } else if d == 7 {
        '7'
    } else if d == 8 {
        '8'
    } else {
        '9'
    }
}

/// The decimal digits of `n`, most significant first.
pub open spec fn dec_digits(n: int) -> Seq<char>
    decreases n,
{
    if n < 10 {
        seq![digit_char(n)]
    } else {
        dec_digits(n / 10).push(digit_char(n % 10))
    }
}

/// The lowest `w` decimal digits of `n`, zero padded to exactly `w` characters.
pub open spec fn pad_digits(n: int, w: nat) -> Seq<char>
    decreases w,
{
    if w == 0 {
        Seq::empty()
    } else {
        pad_digits(n / 10, (w - 1) as nat).push(digit_char(n % 10))
    }
}

/// Drop trailing decimal zeros from a `w`-digit fraction value, keeping at
/// least one digit: the pair of the reduced value and its width.
pub open spec fn reduce_frac(f: int, w: nat) -> (int, nat)
    decreases w,
{
    if w <= 1 || f % 10 != 0 {
        (f, w)
    } else {
        reduce_frac(f / 10, (w - 1) as nat)
    }
}

/// The canonical decimal string of a count of 10^-8 units: an optional
/// minus sign, the integer part, and the fraction part with trailing
/// zeros trimmed, omitted entirely when it is zero.
pub open spec fn dec_string_spec(units: int) -> Seq<char> {
    let a = if units < 0 {
        -units
    } else {
        units
    };
    let ip = a / (SCALE_FACTOR as int);
    let fr = a % (SCALE_FACTOR as int);
    let base = if fr == 0 {
        dec_digits(ip)
    } else {
        let fw = reduce_frac(fr, 8);
        dec_digits(ip) + seq!['.'] + pad_digits(fw.0, fw.1)
    };
    if units < 0 {
        seq!['-'] + base
    } else {
        base
    }
}

/// Append the character of digit `d` to `out`.
fn push_digit_char(out: &mut String, d: u128)
    requires
        d < 10,
    ensures
        final(out)@ == old(out)@.push(digit_char(d as int)),
{
    proof {
        reveal_strlit("0");
        reveal_strlit("1");
        reveal_strlit("2");
        reveal_strlit("3");
        reveal_strlit("4");
        reveal_strlit("5");
        reveal_strlit("6");
        reveal_strlit("7");
        reveal_strlit("8");
        reveal_strlit("9");
    }
    let ghost pre = out@;
    if d == 0 {
        out.append("0");
    } else if d == 1 {
        out.append("1");
    } else if d == 2 {
        out.append("2");
    } else if d == 3 {
        out.append("3");
    } else if d == 4 {
        out.append("4");
    } else if d == 5 {
        out.append("5");
    } else if d == 6 {
        out.append("6");
    } else if d == 7 {
        out.append("7");
    } else if d == 8 {
        out.append("8");
    } else {
        out.append("9");
    }
    proof {
        assert(out@ =~= pre.push(digit_char(d as int)));
    }
}

/// Append the decimal digits of `n` to `out`.
fn push_dec_digits(out: &mut String, n: u128)
    ensures
        final(out)@ == old(out)@ + dec_digits(n as int),
    decreases n,
{
    let ghost pre = out@;
    if n < 10 {
        push_digit_char(out, n);
        proof {
            assert(out@ =~= pre + dec_digits(n as int));
        }
    } else {
        push_dec_digits(out, n / 10);
        push_digit_char(out, n % 10);
        proof {
            assert((n / 10) as int == (n as int) / 10);
            assert((n % 10) as int == (n as int) % 10);
            assert(out@ =~= pre + dec_digits(n as int));
        }
    }
}

/// Append exactly `w` digits of `n` to `out`, zero padded.
fn push_pad_digits(out: &mut String, n: u128, w: u32)
    ensures
        final(out)@ == old(out)@ + pad_digits(n as int, w as nat),
    decreases w,
{
    let ghost pre = out@;
    if w == 0 {
        proof {
            assert(out@ =~= pre + pad_digits(n as int, 0));
        }
    } else {
        push_pad_digits(out, n / 10, w - 1);
        push_digit_char(out, n % 10);
        proof {
            assert((n / 10) as int == (n as int) / 10);
            assert((n % 10) as int == (n as int) % 10);
            assert(out@ =~= pre + pad_digits(n as int, w as nat));
        }
    }
}

/// Drop trailing zeros from a `w`-digit fraction value, keeping one digit.
fn reduced_frac(f: u128, w: u32) -> (r: (u128, u32))
    requires
        1 <= w,
    ensures
        r.0 as int == reduce_frac(f as int, w as nat).0,
        r.1 as nat == reduce_frac(f as int, w as nat).1,
        1 <= r.1 <= w,
    decreases w,
{
    if w <= 1 || f % 10 != 0 {
        (f, w)
    } else {
        proof {
            assert((f / 10) as int == (f as int) / 10);
        }
        reduced_frac(f / 10, w - 1)
    }
}

impl FixedDec {
    /// The plain decimal string of this value, exactly `dec_string_spec`.
    pub fn to_decimal_string(&self) -> (r: String)
        requires
            self.units > i128::MIN,
        ensures
            r@ == dec_string_spec(self.units as int),
    {
        let neg = self.units < 0;
        let a: u128 = if neg {
            (-self.units) as u128
        } else {
            self.units as u128
        };
        let ip: u128 = a / 100_000_000;
        let fr: u128 = a % 100_000_000;
        proof {
            assert(ip as int == (a as int) / (SCALE_FACTOR as int));
            assert(fr as int == (a as int) % (SCALE_FACTOR as int));
        }
        let mut out = String::new();
        if neg {
            out.append("-");
            proof {
                reveal_strlit("-");
                assert(out@ =~= seq!['-']);
            }
        }
        let ghost sign_part = out@;
        push_dec_digits(&mut out, ip);
        if fr != 0 {
            out.append(".");
            proof {
                reveal_strlit(".");
                assert(out@ =~= sign_part + dec_digits(ip as int) + seq!['.']);
            }
            let f_w = reduced_frac(fr, 8);
            push_pad_digits(&mut out, f_w.0, f_w.1);
        }
        proof {
            assert(out@ =~= dec_string_spec(self.units as int));
        }
        out
    }
}

} // verus!
