//! Calendar dates for the `Date` header, in IMF-fixdate form
//! (`Thu, 01 Jan 1970 00:00:00 GMT`), computed from seconds since the
//! Unix epoch.

use vstd::prelude::*;
use vstd::utf8::{decode_utf8, valid_utf8};

use crate::ascii::{bytes_to_string, is_ascii_seq, lemma_ascii_utf8, DIGIT_0};

verus! {

/// Seconds at which the year 10000 begins; later instants are not representable.
pub const YEAR_9999_SECONDS: u64 = 253402300800;

const SECONDS_IN_DAY: u64 = 86400;
const SECONDS_IN_HOUR: u64 = 3600;

// Days from 1970-01-01 back to 2000-03-01, minus one 400-year era, negated:
// the day count is shifted by this much so that all arithmetic stays
// non-negative while the era arithmetic is unchanged (146097 days per era).
pub const ERA_SHIFT_DAYS: u64 = 135080;
const DAYS_PER_400Y: u64 = 146097;
const DAYS_PER_100Y: u64 = 36524;
const DAYS_PER_4Y: u64 = 1461;

/// A broken-down UTC instant at second precision.
#[derive(Copy, Clone, Debug)]
pub struct HttpDate {
    /// 0...59
    pub second: u8,
    /// 0...59
    pub minute: u8,
    /// 0...23
    pub hour: u8,
    /// 1...31
    pub day: u8,
    /// 1...12
    pub month: u8,
    /// 1970...9999
    pub year: u16,
    /// 1...7, Monday first
    pub week_day: u8,
}

/// Month index counted from March (0 = March ... 11 = February) for a day
/// offset within a four-year group that starts on the first of March.
pub open spec fn spec_month0(r: int) -> int {
    if r < 31 {
        0
    } else if r < 61 {
        1
    } else if r < 92 {
        2
    } else if r < 122 {
        3
    } else if r < 153 {
        4
    } else if r < 184 {
        5
    } else if r < 214 {
        6
    } else if r < 245 {
        7
    } else if r < 275 {
        8
    } else if r < 306 {
        9
    } else if r < 337 {
        10
    } else {
        11
    }
}

/// Days before the March-based month `m0`.
pub open spec fn spec_month0_cum(m0: int) -> int {
    if m0 == 0 {
        0
    } else if m0 == 1 {
        31
    } else if m0 == 2 {
        61
    } else if m0 == 3 {
        92
    } else if m0 == 4 {
        122
    } else if m0 == 5 {
        153
    } else if m0 == 6 {
        184
    } else if m0 == 7 {
        214
    } else if m0 == 8 {
        245
    } else if m0 == 9 {
        275
    } else if m0 == 10 {
        306
    } else {
        337
    }
}

/// The broken-down date of an instant, by era decomposition over the
/// 400-year cycle of the Gregorian calendar, months counted from March so
/// that the leap day falls last.
pub open spec fn spec_date(secs: u64) -> HttpDate {
    let days = secs as int / 86400;
    let secs_of_day = secs as int % 86400;
    let days_adj = days + ERA_SHIFT_DAYS;
    let qc_cycles = days_adj / 146097;
    let r1 = days_adj % 146097;
    let c_cycles = if r1 / 36524 == 4 {
        3
    } else {
        r1 / 36524
    };
    let r2 = r1 - c_cycles * 36524;
    let q_cycles = if r2 / 1461 == 25 {
        24
    } else {
        r2 / 1461
    };
    let r3 = r2 - q_cycles * 1461;
    let remyears = if r3 / 365 == 4 {
        3
    } else {
        r3 / 365
    };
    let r4 = r3 - remyears * 365;
    let year0 = 1600 + remyears + 4 * q_cycles + 100 * c_cycles + 400 * qc_cycles;
    let m0 = spec_month0(r4);
    let mday = r4 - spec_month0_cum(m0) + 1;
    let month_march = m0 + 1;
    let year = if month_march + 2 > 12 {
        year0 + 1
    } else {
        year0
    };
    let month = if month_march + 2 > 12 {
        month_march - 10
    } else {
        month_march + 2
    };
    let wd0 = (3 + days_adj) % 7;
    let week_day = if wd0 == 0 {
        7
    } else {
        wd0
    };
    HttpDate {
        second: (secs_of_day % 60) as u8,
        minute: ((secs_of_day % 3600) / 60) as u8,
        hour: (secs_of_day / 3600) as u8,
        day: mday as u8,
        month: month as u8,
        year: year as u16,
        week_day: week_day as u8,
    }
}

/// Days from the epoch to a civil date, by the standard era formula,
/// stated independently of the decomposition above: the year is shifted
/// so March opens it, eras span four centuries of 146097 days, a year
/// of an era contributes 365 days plus its leap days, and each month
/// position has a fixed day count.
pub open spec fn spec_civil_days(y: int, m: int, d: int) -> int {
    let yy = if m <= 2 {
        y - 1
    } else {
        y
    };
    let era = yy / 400;
    let yoe = yy - era * 400;
    let doy = (153 * (if m > 2 {
        m - 3
    } else {
        m + 9
    }) + 2) / 5 + d - 1;
    let doe = yoe * 365 + yoe / 4 - yoe / 100 + doy;
    era * 146097 + doe - 719468
}

impl HttpDate {
    /// Every field within its calendar range.
    pub open spec fn wf(&self) -> bool {
        &&& self.second < 60
        &&& self.minute < 60
        &&& self.hour < 24
        &&& 1 <= self.day <= 31
        &&& 1 <= self.month <= 12
        &&& self.year < 10000
        &&& 1 <= self.week_day <= 7
    }

    /// Break an instant into its calendar fields.
    pub fn from_secs(secs: u64) -> (r: HttpDate)
        requires
            secs < YEAR_9999_SECONDS,
        ensures
            r == spec_date(secs),
            r.wf(),
            r.second == secs % 86400 % 60,
            r.minute == secs % 86400 % 3600 / 60,
            r.hour == secs % 86400 / 3600,
            1970 <= r.year,
    {
        let days: u64 = secs / SECONDS_IN_DAY;
        let secs_of_day: u64 = secs % SECONDS_IN_DAY;

        let days_adj: u64 = days + ERA_SHIFT_DAYS;
        let qc_cycles: u64 = days_adj / DAYS_PER_400Y;
        let r1: u64 = days_adj % DAYS_PER_400Y;

        let mut c_cycles: u64 = r1 / DAYS_PER_100Y;
        if c_cycles == 4 {
            c_cycles = 3;
        }
        let r2: u64 = r1 - c_cycles * DAYS_PER_100Y;

        let mut q_cycles: u64 = r2 / DAYS_PER_4Y;
        if q_cycles == 25 {
            q_cycles = 24;
        }
        let r3: u64 = r2 - q_cycles * DAYS_PER_4Y;

        let mut remyears: u64 = r3 / 365;
        if remyears == 4 {
            remyears = 3;
        }
        let r4: u64 = r3 - remyears * 365;

        let year0: u64 = 1600 + remyears + 4 * q_cycles + 100 * c_cycles + 400 * qc_cycles;

        let m0: u64 = if r4 < 31 {
            0
        } else if r4 < 61 {
            1
        } else if r4 < 92 {
            2
        } else if r4 < 122 {
            3
        } else if r4 < 153 {
            4
        } else if r4 < 184 {
            5
        } else if r4 < 214 {
            6
        } else if r4 < 245 {
            7
        } else if r4 < 275 {
            8
        } else if r4 < 306 {
            9
        } else if r4 < 337 {
            10
        } else {
            11
        };
        let cum: u64 = if m0 == 0 {
            0
        } else if m0 == 1 {
            31
        } else if m0 == 2 {
            61
        } else if m0 == 3 {
            92
        } else if m0 == 4 {
            122
        } else if m0 == 5 {
            153
        } else if m0 == 6 {
            184
        } else if m0 == 7 {
            214
        } else if m0 == 8 {
            245
        } else if m0 == 9 {
            275
        } else if m0 == 10 {
            306
        } else {
            337
        };
        let mday: u64 = r4 - cum + 1;
        let month_march: u64 = m0 + 1;
        let year: u64 = if month_march + 2 > 12 {
            year0 + 1
        } else {
            year0
        };
        let month: u64 = if month_march + 2 > 12 {
            month_march - 10
        } else {
            month_march + 2
        };
        let wd0: u64 = (3 + days_adj % 7) % 7;
        let week_day: u64 = if wd0 == 0 {
            7
        } else {
            wd0
        };
        proof {
            assert((3 + days_adj % 7) % 7 == (3 + days_adj as int) % 7) by (nonlinear_arith);
        }

        HttpDate {
            second: (secs_of_day % 60) as u8,
            minute: ((secs_of_day % SECONDS_IN_HOUR) / 60) as u8,
            hour: (secs_of_day / SECONDS_IN_HOUR) as u8,
            day: mday as u8,
            month: month as u8,
            year: year as u16,
            week_day: week_day as u8,
        }
    }
}

/// Two decimal digits, zero padded.
pub open spec fn two_digits(n: int) -> Seq<u8> {
    seq![(DIGIT_0 + n / 10) as u8, (DIGIT_0 + n % 10) as u8]
}

/// Four decimal digits, zero padded.
pub open spec fn four_digits(n: int) -> Seq<u8> {
    seq![
        (DIGIT_0 + n / 1000) as u8,
        (DIGIT_0 + n / 100 % 10) as u8,
        (DIGIT_0 + n / 10 % 10) as u8,
        (DIGIT_0 + n % 10) as u8,
    ]
}

/// Three-letter day name, Monday first.
pub open spec fn spec_day_name(wd: int) -> Seq<u8> {
    if wd == 1 {
        seq![77u8, 111, 110]  // Mon
    } else if wd == 2 {
        seq![84u8, 117, 101]  // Tue
    } else if wd == 3 {
        seq![87u8, 101, 100]  // Wed
    } else if wd == 4 {
        seq![84u8, 104, 117]  // Thu
    } else if wd == 5 {
        seq![70u8, 114, 105]  // Fri
    } else if wd == 6 {
        seq![83u8, 97, 116]  // Sat
    } else {
        seq![83u8, 117, 110]  // Sun
    }
}

/// Three-letter month name.
pub open spec fn spec_month_name(m: int) -> Seq<u8> {
    if m == 1 {
        seq![74u8, 97, 110]  // Jan
    } else if m == 2 {
        seq![70u8, 101, 98]  // Feb
    } else if m == 3 {
        seq![77u8, 97, 114]  // Mar
    } else if m == 4 {
        seq![65u8, 112, 114]  // Apr
    } else if m == 5 {
        seq![77u8, 97, 121]  // May
    } else if m == 6 {
        seq![74u8, 117, 110]  // Jun
    } else if m == 7 {
        seq![74u8, 117, 108]  // Jul
    } else if m == 8 {
        seq![65u8, 117, 103]  // Aug
    } else if m == 9 {
        seq![83u8, 101, 112]  // Sep
    } else if m == 10 {
        seq![79u8, 99, 116]  // Oct
    } else if m == 11 {
        seq![78u8, 111, 118]  // Nov
    } else {
        seq![68u8, 101, 99]  // Dec
    }
}

/// The 29 bytes of the IMF-fixdate rendering:
/// `Mon, 01 Jan 2000 00:00:00 GMT`.
pub open spec fn spec_imf_fixdate(d: HttpDate) -> Seq<u8> {
    spec_day_name(d.week_day as int) + seq![44u8, 32]  // ", "
     + two_digits(d.day as int) + seq![32u8] + spec_month_name(d.month as int) + seq![32u8]
        + four_digits(d.year as int) + seq![32u8] + two_digits(d.hour as int) + seq![58u8]  // :
     + two_digits(d.minute as int) + seq![58u8] + two_digits(d.second as int) + seq![
        32u8,
        71,
        77,
        84,
    ]  // " GMT"
}

/// ASCII sequences stay ASCII under concatenation.
proof fn lemma_ascii_concat(a: Seq<u8>, b: Seq<u8>)
    requires
        is_ascii_seq(a),
        is_ascii_seq(b),
    ensures
        is_ascii_seq(a + b),
{
    assert forall|i: int| 0 <= i < (a + b).len() implies #[trigger] (a + b)[i] < 0x80 by {
        if i < a.len() {
            assert((a + b)[i] == a[i]);
        } else {
            assert((a + b)[i] == b[i - a.len()]);
        }
    }
}

/// The IMF-fixdate bytes of a well-formed instant are 29 ASCII bytes.
pub proof fn lemma_imf_fixdate_ascii(d: HttpDate)
    requires
        d.wf(),
    ensures
        is_ascii_seq(spec_imf_fixdate(d)),
        spec_imf_fixdate(d).len() == 29,
{
    let p1 = spec_day_name(d.week_day as int);
    let p2 = seq![44u8, 32];
    let p3 = two_digits(d.day as int);
    let p4 = seq![32u8];
    let p5 = spec_month_name(d.month as int);
    let p6 = four_digits(d.year as int);
    let p7 = two_digits(d.hour as int);
    let p8 = seq![58u8];
    let p9 = two_digits(d.minute as int);
    let p10 = two_digits(d.second as int);
    let p11 = seq![32u8, 71, 77, 84];
    assert(is_ascii_seq(p1)) by {
        assert forall|i: int| 0 <= i < p1.len() implies #[trigger] p1[i] < 0x80 by {}
    }
    assert(is_ascii_seq(p5)) by {
        assert forall|i: int| 0 <= i < p5.len() implies #[trigger] p5[i] < 0x80 by {}
    }
    assert(is_ascii_seq(p2) && is_ascii_seq(p3) && is_ascii_seq(p4) && is_ascii_seq(p6)
        && is_ascii_seq(p7) && is_ascii_seq(p8) && is_ascii_seq(p9) && is_ascii_seq(p10)
        && is_ascii_seq(p11)) by {
        assert forall|i: int| 0 <= i < p3.len() implies #[trigger] p3[i] < 0x80 by {}
        assert forall|i: int| 0 <= i < p6.len() implies #[trigger] p6[i] < 0x80 by {}
        assert forall|i: int| 0 <= i < p7.len() implies #[trigger] p7[i] < 0x80 by {}
        assert forall|i: int| 0 <= i < p9.len() implies #[trigger] p9[i] < 0x80 by {}
        assert forall|i: int| 0 <= i < p10.len() implies #[trigger] p10[i] < 0x80 by {}
        assert forall|i: int| 0 <= i < p2.len() implies #[trigger] p2[i] < 0x80 by {}
        assert forall|i: int| 0 <= i < p4.len() implies #[trigger] p4[i] < 0x80 by {}
        assert forall|i: int| 0 <= i < p8.len() implies #[trigger] p8[i] < 0x80 by {}
        assert forall|i: int| 0 <= i < p11.len() implies #[trigger] p11[i] < 0x80 by {}
    }
    lemma_ascii_concat(p1, p2);
    lemma_ascii_concat(p1 + p2, p3);
    lemma_ascii_concat(p1 + p2 + p3, p4);
    lemma_ascii_concat(p1 + p2 + p3 + p4, p5);
    lemma_ascii_concat(p1 + p2 + p3 + p4 + p5, p4);
    lemma_ascii_concat(p1 + p2 + p3 + p4 + p5 + p4, p6);
    lemma_ascii_concat(p1 + p2 + p3 + p4 + p5 + p4 + p6, p4);
    lemma_ascii_concat(p1 + p2 + p3 + p4 + p5 + p4 + p6 + p4, p7);
    lemma_ascii_concat(p1 + p2 + p3 + p4 + p5 + p4 + p6 + p4 + p7, p8);
    lemma_ascii_concat(p1 + p2 + p3 + p4 + p5 + p4 + p6 + p4 + p7 + p8, p9);
    lemma_ascii_concat(p1 + p2 + p3 + p4 + p5 + p4 + p6 + p4 + p7 + p8 + p9, p8);
    lemma_ascii_concat(p1 + p2 + p3 + p4 + p5 + p4 + p6 + p4 + p7 + p8 + p9 + p8, p10);
    lemma_ascii_concat(p1 + p2 + p3 + p4 + p5 + p4 + p6 + p4 + p7 + p8 + p9 + p8 + p10, p11);
    assert(spec_imf_fixdate(d) == p1 + p2 + p3 + p4 + p5 + p4 + p6 + p4 + p7 + p8 + p9 + p8 + p10
        + p11);
}

/// The three-letter day name bytes.
fn day_name_bytes(wd: u8) -> (r: Vec<u8>)
    ensures
        r@ == spec_day_name(wd as int),
{
    let v: Vec<u8> = if wd == 1 {
        vec![77, 111, 110]  // Mon
    } else if wd == 2 {
        vec![84, 117, 101]  // Tue
    } else if wd == 3 {
        vec![87, 101, 100]  // Wed
    } else if wd == 4 {
        vec![84, 104, 117]  // Thu
    } else if wd == 5 {
        vec![70, 114, 105]  // Fri
    } else if wd == 6 {
        vec![83, 97, 116]  // Sat
    } else {
        vec![83, 117, 110]  // Sun
    };
    proof {
        assert(v@ =~= spec_day_name(wd as int));
    }
    v
}

/// The three-letter month name bytes.
fn month_name_bytes(m: u8) -> (r: Vec<u8>)
    ensures
        r@ == spec_month_name(m as int),
{
    let v: Vec<u8> = if m == 1 {
        vec![74, 97, 110]  // Jan
    } else if m == 2 {
        vec![70, 101, 98]  // Feb
    } else if m == 3 {
        vec![77, 97, 114]  // Mar
    } else if m == 4 {
        vec![65, 112, 114]  // Apr
    } else if m == 5 {
        vec![77, 97, 121]  // May
    } else if m == 6 {
        vec![74, 117, 110]  // Jun
    } else if m == 7 {
        vec![74, 117, 108]  // Jul
    } else if m == 8 {
        vec![65, 117, 103]  // Aug
    } else if m == 9 {
        vec![83, 101, 112]  // Sep
    } else if m == 10 {
        vec![79, 99, 116]  // Oct
    } else if m == 11 {
        vec![78, 111, 118]  // Nov
    } else {
        vec![68, 101, 99]  // Dec
    };
    proof {
        assert(v@ =~= spec_month_name(m as int));
    }
    v
}

/// Two zero-padded decimal digits.
fn push_two_digits(out: &mut Vec<u8>, n: u8)
    requires
        n < 100,
    ensures
        final(out)@ == old(out)@ + two_digits(n as int),
{
    out.push(DIGIT_0 + n / 10);
    out.push(DIGIT_0 + n % 10);
    proof {
        assert(out@ =~= old(out)@ + two_digits(n as int));
    }
}

impl HttpDate {
    /// The IMF-fixdate bytes of this instant.
    pub fn fmt_bytes(&self) -> (r: Vec<u8>)
        requires
            self.wf(),
        ensures
            r@ == spec_imf_fixdate(*self),
            r@.len() == 29,
            is_ascii_seq(r@),
    {
        let mut out: Vec<u8> = Vec::new();
        let day_name = day_name_bytes(self.week_day);
        crate::ascii::push_bytes(&mut out, day_name.as_slice());
        out.push(44);
        out.push(32);
        push_two_digits(&mut out, self.day);
        out.push(32);
        let month_name = month_name_bytes(self.month);
        crate::ascii::push_bytes(&mut out, month_name.as_slice());
        out.push(32);
        out.push(DIGIT_0 + (self.year / 1000) as u8);
        out.push(DIGIT_0 + (self.year / 100 % 10) as u8);
        out.push(DIGIT_0 + (self.year / 10 % 10) as u8);
        out.push(DIGIT_0 + (self.year % 10) as u8);
        out.push(32);
        push_two_digits(&mut out, self.hour);
        out.push(58);
        push_two_digits(&mut out, self.minute);
        out.push(58);
        push_two_digits(&mut out, self.second);
        out.push(32);
        out.push(71);
        out.push(77);
        out.push(84);
        proof {
            assert(out@ =~= spec_imf_fixdate(*self));
            lemma_imf_fixdate_ascii(*self);
        }
        out
    }

    /// The IMF-fixdate rendering of this instant.
    pub fn fmt(&self) -> (r: String)
        requires
            self.wf(),
        ensures
            r@ == decode_utf8(spec_imf_fixdate(*self)),
            r@.len() == 29,
    {
        let bytes = self.fmt_bytes();
        proof {
            lemma_ascii_utf8(bytes@);
        }
        bytes_to_string(bytes).unwrap()
    }
}

/// The `Date` header value for the given instant.
pub fn fmt_http_date(secs: u64) -> (r: String)
    requires
        secs < YEAR_9999_SECONDS,
    ensures
        r@ == decode_utf8(spec_imf_fixdate(spec_date(secs))),
        r@.len() == 29,
{
    HttpDate::from_secs(secs).fmt()
}

} // verus!
