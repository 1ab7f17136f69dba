//! Instants as calendar dates in UTC.

use vstd::prelude::*;

use crate::numerals::{
    decimal, padded_number_reads_back, short_numbers_have_few_digits, unsigned_value,
    write_padded, zero_padded,
};

verus! {

/// An instant: seconds and nanoseconds since the start of 1970 in UTC.
#[derive(Debug, Clone, Copy, PartialEq, Eq, Structural)]
pub struct UnixTime {
    /// Whole seconds, negative before 1970.
    pub secs: i64,
    /// Nanoseconds past the whole second.
    pub nanos: u32,
}

/// A year of 366 days.
pub open spec fn is_leap(y: int) -> bool {
    y % 4 == 0 && (y % 100 != 0 || y % 400 == 0)
}

/// The days of a month.
pub open spec fn days_in_month(y: int, m: int) -> int {
    if m == 2 {
        if is_leap(y) {
            29
        } else {
            28
        }
    } else if m == 4 || m == 6 || m == 9 || m == 11 {
        30
    } else {
        31
    }
}

/// The days from the start of 1970 to the start of the year `y`.
pub open spec fn days_before_year(y: int) -> int
    decreases y,
{
    if y <= 1970 {
        0
    } else {
        days_before_year(y - 1) + if is_leap(y - 1) {
            366int
        } else {
            365int
        }
    }
}

/// The days from the start of the year to the start of its month `m`.
pub open spec fn days_before_month(y: int, m: int) -> int
    decreases m,
{
    if m <= 1 {
        0
    } else {
        days_before_month(y, m - 1) + days_in_month(y, m - 1)
    }
}

/// The days from the start of 1970 to a date.
pub open spec fn unix_days(y: int, m: int, d: int) -> int {
    days_before_year(y) + days_before_month(y, m) + d - 1
}

/// A date of 1970 or later.
pub open spec fn valid_date(y: int, m: int, d: int) -> bool {
    1970 <= y && 1 <= m <= 12 && 1 <= d <= days_in_month(y, m)
}

/// The days from March 1 of the year 0 to March 1 of the year `y`.
spec fn march_days(y: int) -> int {
    365 * y + y / 4 - y / 100 + y / 400
}

proof fn lemma_march_year(y: int)
    requires
        y >= 1970,
    ensures
        days_before_year(y) + 719468 == march_days(y - 1) + 306,
    decreases y,
{
    if y > 1970 {
        lemma_march_year(y - 1);
        lemma_march_step(y - 1);
    }
}

proof fn lemma_march_step(y: int)
    requires
        y >= 1,
    ensures
        march_days(y) == march_days(y - 1) + if is_leap(y) {
            366int
        } else {
            365int
        },
{
    let p = y - 1;
    assert(y / 4 == p / 4 + if y % 4 == 0 {
        1int
    } else {
        0int
    });
    assert(y / 100 == p / 100 + if y % 100 == 0 {
        1int
    } else {
        0int
    });
    assert(y / 400 == p / 400 + if y % 400 == 0 {
        1int
    } else {
        0int
    });
    assert(y % 400 == 0 ==> y % 100 == 0);
    assert(y % 100 == 0 ==> y % 4 == 0);
}

proof fn lemma_months(y: int)
    ensures
        days_before_month(y, 1) == 0,
        days_before_month(y, 2) == 31,
        days_before_month(y, 3) == 31 + days_in_month(y, 2),
        days_before_month(y, 4) == 62 + days_in_month(y, 2),
        days_before_month(y, 5) == 92 + days_in_month(y, 2),
        days_before_month(y, 6) == 123 + days_in_month(y, 2),
        days_before_month(y, 7) == 153 + days_in_month(y, 2),
        days_before_month(y, 8) == 184 + days_in_month(y, 2),
        days_before_month(y, 9) == 215 + days_in_month(y, 2),
        days_before_month(y, 10) == 245 + days_in_month(y, 2),
        days_before_month(y, 11) == 276 + days_in_month(y, 2),
        days_before_month(y, 12) == 306 + days_in_month(y, 2),
{
    reveal_with_fuel(days_before_month, 13);
}

/// The parts of a day count within its cycle of 400 years give back the count.
proof fn lemma_year_part(z: int, era: int, century: int, quad: int, a: int)
    requires
        z >= 0,
        era == z / 146097,
        century == (if (z % 146097) / 36524 > 3 {
            3
        } else {
            (z % 146097) / 36524
        }),
        quad == (z % 146097 - century * 36524) / 1461,
        a == (if (z % 146097 - century * 36524 - quad * 1461) / 365 > 3 {
            3
        } else {
            (z % 146097 - century * 36524 - quad * 1461) / 365
        }),
    ensures
        0 <= century <= 3,
        0 <= quad <= 24,
        0 <= a <= 3,
        ({
            let doy = z % 146097 - century * 36524 - quad * 1461 - a * 365;
            let y = era * 400 + century * 100 + quad * 4 + a;
            &&& 0 <= doy <= 365
            &&& march_days(y) + doy == z
            &&& doy == 365 ==> is_leap(y + 1)
        }),
{
    let doe = z % 146097;
    assert(z == era * 146097 + doe);
    assert(0 <= doe < 146097);
    let doc = doe - century * 36524;
    assert(0 <= century <= 3);
    assert(0 <= doc <= 36524);
    assert(century < 3 ==> doc < 36524);
    let doq = doc - quad * 1461;
    assert(0 <= quad <= 24);
    assert(0 <= doq <= 1460);
    assert(quad == 24 && century < 3 ==> doq < 1460);
    assert(0 <= a <= 3);
    let doy = doq - a * 365;
    assert(0 <= doy <= 365);
    let y = era * 400 + century * 100 + quad * 4 + a;
    assert(y / 4 == 100 * era + 25 * century + quad);
    assert(y / 100 == 4 * era + century);
    assert(y / 400 == era);
    if doy == 365 {
        assert(a == 3);
        let n = y + 1;
        assert(n == era * 400 + century * 100 + (quad + 1) * 4);
        assert(n % 4 == 0);
        if quad == 24 {
            assert(century == 3);
            assert(n == (era + 1) * 400);
            assert(n % 400 == 0);
        } else {
            assert(n % 100 == (quad + 1) * 4);
        }
    }
}

/// The month and the day of the month of a day counted from March 1.
proof fn lemma_month_part(doy: int, mp: int, day: int)
    requires
        0 <= doy <= 365,
        mp == (5 * doy + 2) / 153,
        day == doy - (153 * mp + 2) / 5 + 1,
    ensures
        0 <= mp <= 11,
        1 <= day <= 31,
        (mp == 1 || mp == 3 || mp == 6 || mp == 8) ==> day <= 30,
        mp == 11 ==> day <= 29,
        mp == 11 && day == 29 ==> doy == 365,
        mp < 10 <==> doy < 306,
{
}

/// No day count of 1970 or later falls into an earlier year.
proof fn lemma_after_1970(z: int, y: int, doy: int)
    requires
        z >= 719468,
        y >= 0,
        0 <= doy <= 365,
        march_days(y) + doy == z,
    ensures
        y >= 1969,
        y == 1969 ==> doy >= 306,
{
    if y <= 1968 {
        assert(y / 100 >= y / 400);
        assert(y / 4 <= 492);
        assert(march_days(y) <= 365 * 1968 + 492);
    }
}

/// The date that follows from a year and a day counted from March 1.
proof fn lemma_date(y: int, doy: int, mp: int, day: int)
    requires
        y >= 1969,
        y == 1969 ==> doy >= 306,
        0 <= doy <= 365,
        doy == 365 ==> is_leap(y + 1),
        0 <= mp <= 11,
        1 <= day <= 31,
        (mp == 1 || mp == 3 || mp == 6 || mp == 8) ==> day <= 30,
        mp == 11 ==> day <= 29,
        mp == 11 && day == 29 ==> doy == 365,
        mp < 10 <==> doy < 306,
        day == doy - (153 * mp + 2) / 5 + 1,
    ensures
        mp < 10 ==> valid_date(y, mp + 3, day) && unix_days(y, mp + 3, day) + 719468 == march_days(y)
            + doy,
        mp >= 10 ==> valid_date(y + 1, mp - 9, day) && unix_days(y + 1, mp - 9, day) + 719468
            == march_days(y) + doy,
{
    if mp < 10 {
        lemma_march_year(y);
        lemma_march_step(y);
        lemma_months(y);
        assert(days_before_month(y, mp + 3) == 31 + days_in_month(y, 2) + (153 * mp + 2) / 5) by {
            assert(mp == 0 || mp == 1 || mp == 2 || mp == 3 || mp == 4 || mp == 5 || mp == 6 || mp
                == 7 || mp == 8 || mp == 9);
        }
        assert(valid_date(y, mp + 3, day));
    } else {
        lemma_march_year(y + 1);
        lemma_months(y + 1);
    }
}

/// A time of day gives back the seconds that it was made from.
proof fn lemma_time(secs: int, days: int, rem: int, hour: int, min: int, sec: int)
    requires
        secs >= 0,
        days == secs / 86400,
        rem == secs % 86400,
        hour == rem / 3600,
        min == (rem % 3600) / 60,
        sec == rem % 60,
    ensures
        days * 86400 + hour * 3600 + min * 60 + sec == secs,
        0 <= hour < 24,
        0 <= min < 60,
        0 <= sec < 60,
{
}

/// The date that stands `secs` seconds after the start of 1970, and the time of
/// that day.
pub fn civil_from_unix_secs(secs: u64) -> (r: (i64, u32, u32, u32, u32, u32))
    ensures
        valid_date(r.0 as int, r.1 as int, r.2 as int),
        r.3 < 24,
        r.4 < 60,
        r.5 < 60,
        unix_days(r.0 as int, r.1 as int, r.2 as int) * 86400 + r.3 * 3600 + r.4 * 60 + r.5
            == secs,
{
    let days: u64 = secs / 86400;
    let rem: u64 = secs % 86400;
    let hour: u64 = rem / 3600;
    let min: u64 = (rem % 3600) / 60;
    let sec: u64 = rem % 60;
    let z: u64 = days + 719468;
    let era: u64 = z / 146097;
    let doe: u64 = z % 146097;
    let century: u64 = if doe / 36524 > 3 {
        3
    } else {
        doe / 36524
    };
    let doc: u64 = doe - century * 36524;
    let quad: u64 = doc / 1461;
    let doq: u64 = doc - quad * 1461;
    let year_of_quad: u64 = if doq / 365 > 3 {
        3
    } else {
        doq / 365
    };
    let doy: u64 = doq - year_of_quad * 365;
    let y: u64 = era * 400 + century * 100 + quad * 4 + year_of_quad;
    let mp: u64 = (5 * doy + 2) / 153;
    let day: u64 = doy - (153 * mp + 2) / 5 + 1;
    let month: u64 = if mp < 10 {
        mp + 3
    } else {
        mp - 9
    };
    let year: u64 = if month <= 2 {
        y + 1
    } else {
        y
    };
    proof {
        lemma_year_part(z as int, era as int, century as int, quad as int, year_of_quad as int);
        lemma_month_part(doy as int, mp as int, day as int);
        lemma_after_1970(z as int, y as int, doy as int);
        lemma_date(y as int, doy as int, mp as int, day as int);
        lemma_time(secs as int, days as int, rem as int, hour as int, min as int, sec as int);
    }
    (year as i64, month as u32, day as u32, hour as u32, min as u32, sec as u32)
}

/// The date and time of `secs` seconds after the start of 1970.
pub open spec fn is_civil(secs: nat, y: int, m: int, d: int, h: int, mi: int, s: int) -> bool {
    &&& valid_date(y, m, d)
    &&& 0 <= h < 24
    &&& 0 <= mi < 60
    &&& 0 <= s < 60
    &&& unix_days(y, m, d) * 86400 + h * 3600 + mi * 60 + s == secs
}

/// A date and time as `YYYY-MM-DDTHH:MM:SSZ`.
pub open spec fn stamp_text(y: int, m: int, d: int, h: int, mi: int, s: int) -> Seq<char> {
    zero_padded(decimal(y as nat), 4) + "-"@ + zero_padded(decimal(m as nat), 2) + "-"@
        + zero_padded(decimal(d as nat), 2) + "T"@ + zero_padded(decimal(h as nat), 2) + ":"@
        + zero_padded(decimal(mi as nat), 2) + ":"@ + zero_padded(decimal(s as nat), 2) + "Z"@
}

/// The stamp of an instant: of the start of 1970 where it is before that.
pub open spec fn rfc3339(t: UnixTime) -> Seq<char> {
    let secs: nat = if t.secs < 0 {
        0
    } else {
        t.secs as nat
    };
    let c = choose|c: (int, int, int, int, int, int)| #[trigger]
        is_civil(secs, c.0, c.1, c.2, c.3, c.4, c.5);
    stamp_text(c.0, c.1, c.2, c.3, c.4, c.5)
}

/// The stamp of an instant, to the second.
pub fn format_rfc3339(t: UnixTime) -> (r: String)
    ensures
        r@ == rfc3339(t),
{
    let secs: u64 = if t.secs < 0 {
        0
    } else {
        t.secs as u64
    };
    let (year, month, day, hour, min, sec) = civil_from_unix_secs(secs);
    let mut o: String = write_padded(year as u64, 4);
    o.append("-");
    o.append(write_padded(month as u64, 2).as_str());
    o.append("-");
    o.append(write_padded(day as u64, 2).as_str());
    o.append("T");
    o.append(write_padded(hour as u64, 2).as_str());
    o.append(":");
    o.append(write_padded(min as u64, 2).as_str());
    o.append(":");
    o.append(write_padded(sec as u64, 2).as_str());
    o.append("Z");
    proof {
        let c = choose|c: (int, int, int, int, int, int)| #[trigger]
            is_civil(secs as nat, c.0, c.1, c.2, c.3, c.4, c.5);
        let e = (year as int, month as int, day as int, hour as int, min as int, sec as int);
        assert(is_civil(secs as nat, e.0, e.1, e.2, e.3, e.4, e.5));
        civil_is_unique(secs as nat, c.0, c.1, c.2, c.3, c.4, c.5, e.0, e.1, e.2, e.3, e.4, e.5);
    }
    o
}

// ── laws ───────────────────────────────────────────────────────────────────

proof fn lemma_year_order(a: int, b: int)
    requires
        1970 <= a < b,
    ensures
        days_before_year(a) + if is_leap(a) {
            366int
        } else {
            365int
        } <= days_before_year(b),
    decreases b,
{
    if a < b - 1 {
        lemma_year_order(a, b - 1);
    }
}

proof fn lemma_date_order(y: int, m: int, d: int, m2: int, d2: int)
    requires
        valid_date(y, m, d),
        valid_date(y, m2, d2),
        m < m2,
    ensures
        unix_days(y, m, d) < unix_days(y, m2, d2),
{
    lemma_months(y);
}

proof fn lemma_day_of_year(y: int, m: int, d: int)
    requires
        valid_date(y, m, d),
    ensures
        0 <= days_before_month(y, m) + d - 1 < if is_leap(y) {
            366int
        } else {
            365int
        },
{
    lemma_months(y);
}

/// An instant has one date and one time of day.
pub proof fn civil_is_unique(
    secs: nat,
    y: int,
    m: int,
    d: int,
    h: int,
    mi: int,
    s: int,
    y2: int,
    m2: int,
    d2: int,
    h2: int,
    mi2: int,
    s2: int,
)
    requires
        is_civil(secs, y, m, d, h, mi, s),
        is_civil(secs, y2, m2, d2, h2, mi2, s2),
    ensures
        y == y2 && m == m2 && d == d2 && h == h2 && mi == mi2 && s == s2,
{
    let a = unix_days(y, m, d);
    let b = unix_days(y2, m2, d2);
    let ra = h * 3600 + mi * 60 + s;
    let rb = h2 * 3600 + mi2 * 60 + s2;
    assert(0 <= ra < 86400 && 0 <= rb < 86400);
    assert(a == b);
    assert(ra == rb);
    lemma_day_of_year(y, m, d);
    lemma_day_of_year(y2, m2, d2);
    if y < y2 {
        lemma_year_order(y, y2);
    } else if y2 < y {
        lemma_year_order(y2, y);
    }
    if m < m2 {
        lemma_date_order(y, m, d, m2, d2);
    } else if m2 < m {
        lemma_date_order(y, m2, d2, m, d);
    }
}

/// Every fourth year is a leap year, but of the full hundreds only every fourth. The months
/// of a year make up its days.
pub proof fn years_have_their_days(y: int)
    ensures
        is_leap(y) <==> (y % 4 == 0 && y % 100 != 0) || y % 400 == 0,
        days_before_month(y, 13) == (if is_leap(y) {
            366int
        } else {
            365int
        }),
        days_in_month(y, 2) == (if is_leap(y) {
            29int
        } else {
            28int
        }),
{
    reveal_with_fuel(days_before_month, 14);
}

/// A day later is one day more: within a month, into the next, and into the next year.
pub proof fn next_day_is_one_more(y: int, m: int, d: int)
    requires
        valid_date(y, m, d),
    ensures
        d < days_in_month(y, m) ==> unix_days(y, m, d + 1) == unix_days(y, m, d) + 1,
        d == days_in_month(y, m) && m < 12 ==> unix_days(y, m + 1, 1) == unix_days(y, m, d) + 1,
        d == days_in_month(y, m) && m == 12 ==> unix_days(y + 1, 1, 1) == unix_days(y, m, d) + 1,
        unix_days(1970, 1, 1) == 0,
{
    if m == 12 {
        years_have_their_days(y);
        assert(days_before_month(y, 13) == days_before_month(y, 12) + days_in_month(y, 12));
    }
}

/// A stamp reads back: year, month, day, hour, minute and second stand at their places,
/// in digits, with the separators between them.
pub proof fn stamp_reads_back(y: int, m: int, d: int, h: int, mi: int, s: int)
    requires
        0 <= y < 10000,
        0 <= m < 100,
        0 <= d < 100,
        0 <= h < 100,
        0 <= mi < 100,
        0 <= s < 100,
    ensures
        ({
            let t = stamp_text(y, m, d, h, mi, s);
            &&& t.len() == 20
            &&& unsigned_value(t.subrange(0, 4), 9999) == Some(y as nat)
            &&& t[4] == '-'
            &&& unsigned_value(t.subrange(5, 7), 99) == Some(m as nat)
            &&& t[7] == '-'
            &&& unsigned_value(t.subrange(8, 10), 99) == Some(d as nat)
            &&& t[10] == 'T'
            &&& unsigned_value(t.subrange(11, 13), 99) == Some(h as nat)
            &&& t[13] == ':'
            &&& unsigned_value(t.subrange(14, 16), 99) == Some(mi as nat)
            &&& t[16] == ':'
            &&& unsigned_value(t.subrange(17, 19), 99) == Some(s as nat)
            &&& t[19] == 'Z'
        }),
{
    let t = stamp_text(y, m, d, h, mi, s);
    reveal_strlit("-");
    reveal_strlit("T");
    reveal_strlit(":");
    reveal_strlit("Z");
    short_numbers_have_few_digits(y as nat);
    short_numbers_have_few_digits(m as nat);
    short_numbers_have_few_digits(d as nat);
    short_numbers_have_few_digits(h as nat);
    short_numbers_have_few_digits(mi as nat);
    short_numbers_have_few_digits(s as nat);
    padded_number_reads_back(y as nat, 4, 9999);
    padded_number_reads_back(m as nat, 2, 99);
    padded_number_reads_back(d as nat, 2, 99);
    padded_number_reads_back(h as nat, 2, 99);
    padded_number_reads_back(mi as nat, 2, 99);
    padded_number_reads_back(s as nat, 2, 99);
    assert(t.subrange(0, 4) =~= zero_padded(decimal(y as nat), 4));
    assert(t.subrange(5, 7) =~= zero_padded(decimal(m as nat), 2));
    assert(t.subrange(8, 10) =~= zero_padded(decimal(d as nat), 2));
    assert(t.subrange(11, 13) =~= zero_padded(decimal(h as nat), 2));
    assert(t.subrange(14, 16) =~= zero_padded(decimal(mi as nat), 2));
    assert(t.subrange(17, 19) =~= zero_padded(decimal(s as nat), 2));
}

/// The stamp of an instant is that of its date and time; one before 1970 is stamped as the
/// start of it, and parts of a second do not count.
pub proof fn instant_is_stamped_by_its_date(
    t: UnixTime,
    y: int,
    m: int,
    d: int,
    h: int,
    mi: int,
    s: int,
)
    requires
        is_civil(
            if t.secs < 0 {
                0
            } else {
                t.secs as nat
            },
            y,
            m,
            d,
            h,
            mi,
            s,
        ),
    ensures
        rfc3339(t) == stamp_text(y, m, d, h, mi, s),
        t.secs < 0 ==> rfc3339(t) == rfc3339(UnixTime { secs: 0, nanos: 0 }),
{
    let secs: nat = if t.secs < 0 {
        0
    } else {
        t.secs as nat
    };
    let w = (y, m, d, h, mi, s);
    assert(is_civil(secs, w.0, w.1, w.2, w.3, w.4, w.5));
    let c = choose|c: (int, int, int, int, int, int)| #[trigger]
        is_civil(secs, c.0, c.1, c.2, c.3, c.4, c.5);
    civil_is_unique(secs, y, m, d, h, mi, s, c.0, c.1, c.2, c.3, c.4, c.5);
}

} // verus!
