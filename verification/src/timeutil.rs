use vstd::prelude::*;

use chrono::{Datelike, Timelike};

verus! {

/// A UTC wall-clock instant, held as plain calendar fields plus the
/// Unix timestamp in seconds.
#[derive(Clone, Copy, Debug)]
pub struct Timestamp {
    pub year: i32,
    pub month: u8,
    pub day: u8,
    pub hour: u8,
    pub minute: u8,
    pub second: u8,
    pub millis: u16,
}

/// A timestamp whose calendar fields lie in their ranges. Leap seconds
/// are represented by a millisecond field of 1000 or more.
pub open spec fn timestamp_valid(t: Timestamp) -> bool {
    &&& 1 <= t.month <= 12
    &&& 1 <= t.day <= 31
    &&& t.hour < 24
    &&& t.minute < 60
    &&& t.second < 60
    &&& t.millis < 2000
    &&& -9999 <= t.year <= 9999
}

/// Relies on chrono::Utc::now and the chrono Datelike/Timelike
/// accessors: the calendar fields of the current instant lie in their
/// documented ranges (month 1-12, day 1-31, hour below 24, minute and
/// second below 60, subsecond milliseconds below 2000 counting leap
/// seconds). Nothing is claimed of the year: chrono allows years far
/// outside the four-digit range this library's files carry, so the
/// caller checks the whole timestamp before using it.
#[verifier::external_body]
pub fn utc_now() -> (r: Timestamp)
    ensures
        1 <= r.month <= 12,
        1 <= r.day <= 31,
        r.hour < 24,
        r.minute < 60,
        r.second < 60,
        r.millis < 2000,
{
    let t = chrono::Utc::now();
    Timestamp {
        year: t.year(),
        month: t.month() as u8,
        day: t.day() as u8,
        hour: t.hour() as u8,
        minute: t.minute() as u8,
        second: t.second() as u8,
        millis: (t.nanosecond() / 1000000) as u16,
    }
}

/// Relies on chrono::Utc::now together with chrono's `timestamp`: the
/// number of non-leap seconds since the Unix epoch, negative before it.
#[verifier::external_body]
pub fn unix_now_secs() -> (r: i64)
{
    chrono::Utc::now().timestamp()
}

/// Decimal digits of `n`, most significant first; "0" for zero.
pub open spec fn spec_decimal(n: nat) -> Seq<u8>
    decreases n,
{
    if n < 10 {
        seq![(0x30 + n) as u8]
    } else {
        spec_decimal(n / 10) + seq![(0x30 + n % 10) as u8]
    }
}

/// `n` in decimal, left-padded with zeros to at least `width` digits.
pub open spec fn spec_decimal_pad(n: nat, width: nat) -> Seq<u8>
    decreases width,
{
    let d = spec_decimal(n);
    if d.len() >= width {
        d
    } else {
        seq![0x30u8] + spec_decimal_pad(n, (width - 1) as nat)
    }
}

/// Format `n` in decimal.
pub fn format_decimal(n: u64) -> (r: Vec<u8>)
    ensures
        r@ == spec_decimal(n as nat),
{
    let mut r: Vec<u8> = Vec::new();
    let mut v: u64 = n;
    while v >= 10
        invariant
            spec_decimal(n as nat) == spec_decimal(v as nat) + r@,
        decreases v,
    {
        let c: u8 = 0x30 + (v % 10) as u8;
        proof {
            assert(spec_decimal(v as nat) == spec_decimal((v as nat) / 10) + seq![c]);
            assert(spec_decimal(n as nat) == spec_decimal((v as nat) / 10) + (seq![c] + r@));
        }
        r.insert(0, c);
        v = v / 10;
    }
    let c: u8 = 0x30 + v as u8;
    proof {
        assert(spec_decimal(v as nat) == seq![c]);
    }
    r.insert(0, c);
    proof {
        assert(r@ =~= spec_decimal(n as nat));
    }
    r
}

/// A run of `k` zero digits.
pub open spec fn spec_zeros(k: nat) -> Seq<u8> {
    Seq::new(k, |i: int| 0x30u8)
}

proof fn lemma_decimal_pad_shape(n: nat, width: nat)
    ensures
        spec_decimal_pad(n, width) == if spec_decimal(n).len() >= width {
            spec_decimal(n)
        } else {
            spec_zeros((width - spec_decimal(n).len()) as nat) + spec_decimal(n)
        },
    decreases width,
{
    let d = spec_decimal(n);
    if d.len() >= width {
    } else {
        lemma_decimal_pad_shape(n, (width - 1) as nat);
        if d.len() >= width - 1 {
            assert(spec_zeros(1) =~= seq![0x30u8]);
            assert(spec_decimal_pad(n, width) =~= spec_zeros((width - d.len()) as nat) + d);
        } else {
            assert(seq![0x30u8] + (spec_zeros((width - 1 - d.len()) as nat) + d) =~= spec_zeros(
                (width - d.len()) as nat,
            ) + d);
        }
    }
}

/// Format `n` in decimal, left-padded with zeros to at least `width` digits.
pub fn format_decimal_pad(n: u64, width: usize) -> (r: Vec<u8>)
    ensures
        r@ == spec_decimal_pad(n as nat, width as nat),
        r@.len() >= width,
{
    let mut d = format_decimal(n);
    proof {
        lemma_decimal_pad_shape(n as nat, width as nat);
    }
    if d.len() >= width {
        return d;
    }
    let k: usize = width - d.len();
    let mut r: Vec<u8> = Vec::new();
    let mut j: usize = 0;
    while j < k
        invariant
            j <= k,
            r@ =~= spec_zeros(j as nat),
        decreases k - j,
    {
        r.push(0x30);
        proof {
            assert(r@ =~= spec_zeros(j as nat + 1));
        }
        j = j + 1;
    }
    r.append(&mut d);
    proof {
        assert(r@ =~= spec_decimal_pad(n as nat, width as nat));
    }
    r
}

/// The textual form of a timestamp: `YYYY-MM-DDTHH:MM:SS.mmm+00:00`,
/// milliseconds always three digits or more.
pub open spec fn spec_timestamp_text(t: Timestamp) -> Seq<u8> {
    spec_decimal_pad(t.year as nat, 4) + seq![0x2du8] + spec_decimal_pad(t.month as nat, 2)
        + seq![0x2du8] + spec_decimal_pad(t.day as nat, 2) + seq![0x54u8] + spec_decimal_pad(
        t.hour as nat,
        2,
    ) + seq![0x3au8] + spec_decimal_pad(t.minute as nat, 2) + seq![0x3au8] + spec_decimal_pad(
        t.second as nat,
        2,
    ) + seq![0x2eu8] + spec_decimal_pad(t.millis as nat, 3) + seq![
        0x2bu8,
        0x30u8,
        0x30u8,
        0x3au8,
        0x30u8,
        0x30u8,
    ]
}

/// Render a timestamp as `YYYY-MM-DDTHH:MM:SS.mmm+00:00` UTC text.
pub fn timestamp_text(t: &Timestamp) -> (r: Vec<u8>)
    requires
        timestamp_valid(*t),
        t.year >= 0,
    ensures
        r@ == spec_timestamp_text(*t),
{
    let mut r = format_decimal_pad(t.year as u64, 4);
    r.push(0x2d);
    let mut p = format_decimal_pad(t.month as u64, 2);
    r.append(&mut p);
    r.push(0x2d);
    let mut p = format_decimal_pad(t.day as u64, 2);
    r.append(&mut p);
    r.push(0x54);
    let mut p = format_decimal_pad(t.hour as u64, 2);
    r.append(&mut p);
    r.push(0x3a);
    let mut p = format_decimal_pad(t.minute as u64, 2);
    r.append(&mut p);
    r.push(0x3a);
    let mut p = format_decimal_pad(t.second as u64, 2);
    r.append(&mut p);
    r.push(0x2e);
    let mut p = format_decimal_pad(t.millis as u64, 3);
    r.append(&mut p);
    r.push(0x2b);
    r.push(0x30);
    r.push(0x30);
    r.push(0x3a);
    r.push(0x30);
    r.push(0x30);
    proof {
        assert(r@ =~= spec_timestamp_text(*t));
    }
    r
}

/// Check the calendar ranges of a timestamp, for callers that must
/// establish them before emitting it.
pub fn timestamp_is_valid(t: &Timestamp) -> (r: bool)
    ensures
        r == timestamp_valid(*t),
{
    1 <= t.month && t.month <= 12 && 1 <= t.day && t.day <= 31 && t.hour < 24 && t.minute < 60
        && t.second < 60 && t.millis < 2000 && -9999 <= t.year && t.year <= 9999
}

/// The calendar fields a timestamp text carries.
pub open spec fn timestamp_fields_eq(a: Timestamp, b: Timestamp) -> bool {
    a.year == b.year && a.month == b.month && a.day == b.day && a.hour == b.hour && a.minute
        == b.minute && a.second == b.second && a.millis == b.millis
}

/// What parsing a `YYYY-MM-DDTHH:MM:SS.mmm+00:00` text yields, if it
/// is well-formed and its fields lie in their calendar ranges.
pub open spec fn spec_parse_timestamp(v: Seq<u8>) -> Option<Timestamp> {
    if v.len() >= 29 && v[4] == 0x2du8 && v[7] == 0x2du8 && v[10] == 0x54u8 && v[13] == 0x3au8
        && v[16] == 0x3au8 && v[19] == 0x2eu8 && v.skip(v.len() - 6) =~= seq![
        0x2bu8,
        0x30u8,
        0x30u8,
        0x3au8,
        0x30u8,
        0x30u8,
    ] && crate::weight::all_dec_digits(v.subrange(0, 4)) && crate::weight::all_dec_digits(
        v.subrange(5, 7),
    ) && crate::weight::all_dec_digits(v.subrange(8, 10)) && crate::weight::all_dec_digits(
        v.subrange(11, 13),
    ) && crate::weight::all_dec_digits(v.subrange(14, 16)) && crate::weight::all_dec_digits(
        v.subrange(17, 19),
    ) && crate::weight::all_dec_digits(v.subrange(20, v.len() - 6)) && v.len() - 6 > 20 {
        let t = Timestamp {
            year: crate::weight::dec_val(v.subrange(0, 4)) as i32,
            month: crate::weight::dec_val(v.subrange(5, 7)) as u8,
            day: crate::weight::dec_val(v.subrange(8, 10)) as u8,
            hour: crate::weight::dec_val(v.subrange(11, 13)) as u8,
            minute: crate::weight::dec_val(v.subrange(14, 16)) as u8,
            second: crate::weight::dec_val(v.subrange(17, 19)) as u8,
            millis: crate::weight::dec_val(v.subrange(20, v.len() - 6)) as u16,
        };
        if crate::weight::dec_val(v.subrange(5, 7)) >= 1 && crate::weight::dec_val(
            v.subrange(5, 7),
        ) <= 12 && crate::weight::dec_val(v.subrange(8, 10)) >= 1 && crate::weight::dec_val(
            v.subrange(8, 10),
        ) <= 31 && crate::weight::dec_val(v.subrange(11, 13)) < 24 && crate::weight::dec_val(
            v.subrange(14, 16),
        ) < 60 && crate::weight::dec_val(v.subrange(17, 19)) < 60 && crate::weight::dec_val(
            v.subrange(20, v.len() - 6),
        ) < 2000 {
            Some(t)
        } else {
            None
        }
    } else {
        None
    }
}

/// Parse a `YYYY-MM-DDTHH:MM:SS.mmm+00:00` timestamp text.
pub fn parse_timestamp(v: &[u8]) -> (r: Option<Timestamp>)
    ensures
        r == spec_parse_timestamp(v@),
        r is Some ==> timestamp_valid(r->0) && r->0.year >= 0,
{
    let n = v.len();
    if n < 29 {
        return None;
    }
    if !(v[4] == 0x2d && v[7] == 0x2d && v[10] == 0x54 && v[13] == 0x3a && v[16] == 0x3a && v[19]
        == 0x2e) {
        return None;
    }
    let tail: [u8; 6] = [0x2b, 0x30, 0x30, 0x3a, 0x30, 0x30];
    let tl = crate::textutil::copy_range(v, n - 6, n);
    proof {
        assert(tl@ =~= v@.skip(v@.len() - 6));
        assert(tail@ =~= seq![0x2bu8, 0x30u8, 0x30u8, 0x3au8, 0x30u8, 0x30u8]);
    }
    if !crate::textutil::bytes_eq(tl.as_slice(), &tail) {
        return None;
    }
    let year_b = crate::textutil::copy_range(v, 0, 4);
    let month_b = crate::textutil::copy_range(v, 5, 7);
    let day_b = crate::textutil::copy_range(v, 8, 10);
    let hour_b = crate::textutil::copy_range(v, 11, 13);
    let min_b = crate::textutil::copy_range(v, 14, 16);
    let sec_b = crate::textutil::copy_range(v, 17, 19);
    let ms_b = crate::textutil::copy_range(v, 20, n - 6);
    proof {
        assert(year_b@ =~= v@.subrange(0, 4));
        assert(month_b@ =~= v@.subrange(5, 7));
        assert(day_b@ =~= v@.subrange(8, 10));
        assert(hour_b@ =~= v@.subrange(11, 13));
        assert(min_b@ =~= v@.subrange(14, 16));
        assert(sec_b@ =~= v@.subrange(17, 19));
        assert(ms_b@ =~= v@.subrange(20, v@.len() - 6));
    }
    if ms_b.len() == 0 {
        return None;
    }
    if !(crate::docs::check_all_digits(year_b.as_slice()) && crate::docs::check_all_digits(
        month_b.as_slice(),
    ) && crate::docs::check_all_digits(day_b.as_slice()) && crate::docs::check_all_digits(
        hour_b.as_slice(),
    ) && crate::docs::check_all_digits(min_b.as_slice()) && crate::docs::check_all_digits(
        sec_b.as_slice(),
    ) && crate::docs::check_all_digits(ms_b.as_slice())) {
        return None;
    }
    let year = dec_value_u64(year_b.as_slice());
    let month = dec_value_u64(month_b.as_slice());
    let day = dec_value_u64(day_b.as_slice());
    let hour = dec_value_u64(hour_b.as_slice());
    let minute = dec_value_u64(min_b.as_slice());
    let second = dec_value_u64(sec_b.as_slice());
    let millis = match dec_value_checked(ms_b.as_slice()) {
        Some(m) => m,
        None => {
            return None;
        },
    };
    if !(1 <= month && month <= 12 && 1 <= day && day <= 31 && hour < 24 && minute < 60 && second
        < 60 && millis < 2000) {
        return None;
    }
    proof {
        crate::weight::lemma_dec_val_bound(year_b@);
        assert(crate::weight::pow10(4nat) == 10000) by {
            assert(crate::weight::pow10(0nat) == 1);
            assert(crate::weight::pow10(1nat) == 10);
            assert(crate::weight::pow10(2nat) == 100);
            assert(crate::weight::pow10(3nat) == 1000);
        }
    }
    Some(
        Timestamp {
            year: year as i32,
            month: month as u8,
            day: day as u8,
            hour: hour as u8,
            minute: minute as u8,
            second: second as u8,
            millis: millis as u16,
        },
    )
}

/// The value of a short digit string, as a 64-bit integer.
fn dec_value_u64(s: &[u8]) -> (r: u64)
    requires
        crate::weight::all_dec_digits(s@),
        s@.len() <= 4,
    ensures
        r == crate::weight::dec_val(s@),
{
    proof {
        crate::weight::lemma_dec_val_bound(s@);
        assert(crate::weight::pow10(4nat) == 10000) by {
            assert(crate::weight::pow10(0nat) == 1);
            assert(crate::weight::pow10(1nat) == 10);
            assert(crate::weight::pow10(2nat) == 100);
            assert(crate::weight::pow10(3nat) == 1000);
        }
        if s@.len() < 4 {
            assert(crate::weight::pow10(s@.len() as nat) <= 10000) by {
                assert(crate::weight::pow10(0nat) == 1);
                assert(crate::weight::pow10(1nat) == 10);
                assert(crate::weight::pow10(2nat) == 100);
                assert(crate::weight::pow10(3nat) == 1000);
            }
        }
    }
    let mut r: u64 = 0;
    let mut i: usize = 0;
    while i < s.len()
        invariant
            i <= s@.len() <= 4,
            crate::weight::all_dec_digits(s@),
            r == crate::weight::dec_val(s@.take(i as int)),
            r <= 9999,
        decreases s@.len() - i,
    {
        proof {
            assert(s@.take(i + 1).drop_last() =~= s@.take(i as int));
            assert(s@.take(i + 1).last() == s@[i as int]);
            assert(crate::weight::is_dec_digit(s@[i as int]));
            crate::weight::lemma_dec_val_bound(s@.take(i + 1));
            assert(crate::weight::all_dec_digits(s@.take(i + 1))) by {
                assert(forall|j: int|
                    0 <= j < i + 1 ==> #[trigger] s@.take(i + 1)[j] == s@[j]);
            }
            assert(crate::weight::pow10(4nat) == 10000) by {
                assert(crate::weight::pow10(0nat) == 1);
                assert(crate::weight::pow10(1nat) == 10);
                assert(crate::weight::pow10(2nat) == 100);
                assert(crate::weight::pow10(3nat) == 1000);
            }
            if i + 1 < 4 {
                assert(crate::weight::pow10((i + 1) as nat) <= crate::weight::pow10(4nat)) by {
                    assert(crate::weight::pow10(0nat) == 1);
                    assert(crate::weight::pow10(1nat) == 10);
                    assert(crate::weight::pow10(2nat) == 100);
                    assert(crate::weight::pow10(3nat) == 1000);
                }
            }
        }
        r = r * 10 + (s[i] - 0x30) as u64;
        i = i + 1;
    }
    proof {
        assert(s@.take(s@.len() as int) =~= s@);
    }
    r
}

/// The value of a digit string, if it fits 16 bits.
fn dec_value_checked(s: &[u8]) -> (r: Option<u64>)
    requires
        crate::weight::all_dec_digits(s@),
        s@.len() > 0,
    ensures
        match r {
            Some(m) => m == crate::weight::dec_val(s@) && m < 65536,
            None => crate::weight::dec_val(s@) >= 65536,
        },
{
    let mut r: u64 = 0;
    let mut i: usize = 0;
    while i < s.len()
        invariant
            i <= s@.len(),
            crate::weight::all_dec_digits(s@),
            r == crate::weight::dec_val(s@.take(i as int)),
            r < 65536,
        decreases s@.len() - i,
    {
        proof {
            assert(s@.take(i + 1).drop_last() =~= s@.take(i as int));
            assert(s@.take(i + 1).last() == s@[i as int]);
            assert(crate::weight::is_dec_digit(s@[i as int]));
        }
        let d = (s[i] - 0x30) as u64;
        if r > (65535 - d) / 10 {
            proof {
                let p = s@.take(i + 1);
                assert(crate::weight::dec_val(p) == r * 10 + d);
                assert(r * 10 + d >= 65536) by (nonlinear_arith)
                    requires
                        r > (65535 - d) / 10,
                        d <= 9,
                        r >= 0,
                ;
                lemma_dec_val_prefix_le(s@, i + 1);
            }
            return None;
        }
        r = r * 10 + d;
        i = i + 1;
    }
    proof {
        assert(s@.take(s@.len() as int) =~= s@);
    }
    Some(r)
}

proof fn lemma_dec_val_prefix_le(s: Seq<u8>, i: int)
    requires
        0 <= i <= s.len(),
    ensures
        crate::weight::dec_val(s.take(i)) <= crate::weight::dec_val(s),
    decreases s.len() - i,
{
    if i < s.len() {
        lemma_dec_val_prefix_le(s, i + 1);
        let p = s.take(i + 1);
        assert(p.drop_last() =~= s.take(i));
        assert(crate::weight::dec_val(p) >= crate::weight::dec_val(s.take(i)) * 10) by {
            assert(crate::weight::dec_val(p) == crate::weight::dec_val(s.take(i)) * 10 + if crate::weight::is_dec_digit(p.last()) {
                (p.last() - 0x30) as nat
            } else {
                0
            });
        }
        assert(crate::weight::dec_val(s.take(i)) * 10 >= crate::weight::dec_val(s.take(i)));
    } else {
        assert(s.take(i) =~= s);
    }
}

} // verus!
