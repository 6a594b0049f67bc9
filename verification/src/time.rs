//! A civil-time model: fixed-format timestamps parsed into plain fields and
//! compared as whole minutes since the civil epoch. Timestamps are taken to
//! be UTC throughout.

use vstd::prelude::*;

use crate::settings::{all_digits, digits_val, is_digit};

verus! {

/// A parsed `YYYY-MM-DDTHH:MM:SS` timestamp.
#[derive(Debug, Clone, Copy, PartialEq, Eq, Structural)]
pub struct CivilDateTime {
    pub year: u32,
    pub month: u32,
    pub day: u32,
    pub hour: u32,
    pub minute: u32,
    pub second: u32,
}

/// Days from the civil epoch (1970-01-01) for a date in 1970..=9999.
pub open spec fn spec_days_from_civil(y: int, m: int, d: int) -> int {
    let yy = if m <= 2 {
        y - 1
    } else {
        y
    };
    let era = yy / 400;
    let yoe = yy - era * 400;
    let mp = if m > 2 {
        m - 3
    } else {
        m + 9
    };
    let doy = (153 * mp + 2) / 5 + d - 1;
    let doe = yoe * 365 + yoe / 4 - yoe / 100 + doy;
    era * 146097 + doe - 719468
}

/// Minutes from the civil epoch for a timestamp (seconds are dropped).
pub open spec fn spec_minutes(dt: CivilDateTime) -> int {
    spec_days_from_civil(dt.year as int, dt.month as int, dt.day as int) * 1440 + dt.hour * 60
        + dt.minute
}

pub open spec fn spec_is_leap(y: int) -> bool {
    (y % 4 == 0 && y % 100 != 0) || y % 400 == 0
}

pub open spec fn spec_days_in_month(y: int, m: int) -> int {
    if m == 2 {
        if spec_is_leap(y) {
            29
        } else {
            28
        }
    } else if m == 4 || m == 6 || m == 9 || m == 11 {
        30
    } else {
        31
    }
}

/// The field ranges a parsed timestamp must satisfy.
pub open spec fn spec_fields_valid(dt: CivilDateTime) -> bool {
    &&& 1970 <= dt.year <= 9999
    &&& 1 <= dt.month <= 12
    &&& 1 <= dt.day <= spec_days_in_month(dt.year as int, dt.month as int)
    &&& dt.hour < 24
    &&& dt.minute < 60
    &&& dt.second < 60
}

/// The shape `YYYY-MM-DDTHH:MM:SS`.
pub open spec fn spec_is_datetime_shape(s: Seq<char>) -> bool {
    &&& s.len() == 19
    &&& all_digits(s.subrange(0, 4))
    &&& s[4] == '-'
    &&& all_digits(s.subrange(5, 7))
    &&& s[7] == '-'
    &&& all_digits(s.subrange(8, 10))
    &&& s[10] == 'T'
    &&& all_digits(s.subrange(11, 13))
    &&& s[13] == ':'
    &&& all_digits(s.subrange(14, 16))
    &&& s[16] == ':'
    &&& all_digits(s.subrange(17, 19))
}

/// The fields a well-shaped timestamp string denotes.
pub open spec fn spec_datetime_of(s: Seq<char>) -> CivilDateTime {
    CivilDateTime {
        year: digits_val(s.subrange(0, 4)) as u32,
        month: digits_val(s.subrange(5, 7)) as u32,
        day: digits_val(s.subrange(8, 10)) as u32,
        hour: digits_val(s.subrange(11, 13)) as u32,
        minute: digits_val(s.subrange(14, 16)) as u32,
        second: digits_val(s.subrange(17, 19)) as u32,
    }
}

/// Whether a timestamp sits on a half-hour boundary.
pub open spec fn spec_on_boundary(dt: CivilDateTime) -> bool {
    (dt.minute == 0 || dt.minute == 30) && dt.second == 0
}

impl CivilDateTime {
    /// This timestamp as whole minutes from the civil epoch.
    pub fn minutes(&self) -> (r: i64)
        requires
            spec_fields_valid(*self),
        ensures
            r == spec_minutes(*self),
            -4_300_000_000 < r < 4_300_000_000,
    {
        let y: i64 = self.year as i64;
        let m: i64 = self.month as i64;
        let d: i64 = self.day as i64;
        let yy: i64 = if m <= 2 {
            y - 1
        } else {
            y
        };
        let era: i64 = yy / 400;
        let yoe: i64 = yy - era * 400;
        let mp: i64 = if m > 2 {
            m - 3
        } else {
            m + 9
        };
        let doy: i64 = (153 * mp + 2) / 5 + d - 1;
        let doe: i64 = yoe * 365 + yoe / 4 - yoe / 100 + doy;
        let days: i64 = era * 146097 + doe - 719468;
        proof {
            assert(days == spec_days_from_civil(y as int, m as int, d as int));
            assert(4 <= era <= 24);
            assert(0 <= yoe < 400);
            assert(0 <= mp <= 11);
            assert(0 <= doy <= 367);
            assert(0 <= doe <= 146101);
            assert(-2_950_000 < days < 2_950_000);
        }
        days * 1440 + (self.hour as i64) * 60 + self.minute as i64
    }

    pub fn on_boundary(&self) -> (r: bool)
        ensures
            r == spec_on_boundary(*self),
    {
        (self.minute == 0 || self.minute == 30) && self.second == 0
    }
}

/// Reads the two-digit run at `[from, from + width)` of a shape-checked
/// timestamp string.
fn read_field(s: &str, from: usize, width: usize) -> (r: u32)
    requires
        from <= 1000,
        from + width <= s@.len(),
        width <= 4,
        all_digits(s@.subrange(from as int, (from + width) as int)),
    ensures
        r == digits_val(s@.subrange(from as int, (from + width) as int)),
{
    let mut i: usize = from;
    let mut val: u32 = 0;
    let to = from + width;
    while i < to
        invariant
            from <= i <= to <= s@.len(),
            to == from + width,
            width <= 4,
            all_digits(s@.subrange(from as int, to as int)),
            val == digits_val(s@.subrange(from as int, i as int)),
            val <= 9999,
        decreases to - i,
    {
        let c = s.get_char(i);
        proof {
            let run = s@.subrange(from as int, to as int);
            assert(run[i - from] == c);
            assert(is_digit(c));
            let pre = s@.subrange(from as int, i as int);
            let now = s@.subrange(from as int, i + 1 as int);
            assert(now.drop_last() =~= pre);
            assert(now.last() == c);
            crate::settings::lemma_digits_val_bounds(pre);
            crate::settings::lemma_digits_val_upper(pre);
            reveal_with_fuel(crate::settings::spec_pow10, 5);
        }
        val = val * 10 + ((c as u32) - 48);
        i += 1;
    }
    proof {
        assert(s@.subrange(from as int, to as int) =~= s@.subrange(from as int, i as int));
    }
    val
}

/// Parses a `YYYY-MM-DDTHH:MM:SS` timestamp with calendar-valid fields.
pub fn parse_datetime(s: &str) -> (r: Option<CivilDateTime>)
    ensures
        match r {
            Some(dt) => spec_is_datetime_shape(s@) && dt == spec_datetime_of(s@)
                && spec_fields_valid(dt),
            None => !(spec_is_datetime_shape(s@) && spec_fields_valid(spec_datetime_of(s@))),
        },
{
    let n = s.unicode_len();
    if n != 19 {
        return None;
    }
    if !(s.get_char(4) == '-' && s.get_char(7) == '-' && s.get_char(10) == 'T' && s.get_char(13)
        == ':' && s.get_char(16) == ':') {
        return None;
    }
    if !(crate::settings::check_digits(s, 0, 4) && crate::settings::check_digits(s, 5, 7)
        && crate::settings::check_digits(s, 8, 10) && crate::settings::check_digits(s, 11, 13)
        && crate::settings::check_digits(s, 14, 16) && crate::settings::check_digits(s, 17, 19)) {
        return None;
    }
    let dt = CivilDateTime {
        year: read_field(s, 0, 4),
        month: read_field(s, 5, 2),
        day: read_field(s, 8, 2),
        hour: read_field(s, 11, 2),
        minute: read_field(s, 14, 2),
        second: read_field(s, 17, 2),
    };
    proof {
        assert(dt == spec_datetime_of(s@));
    }
    if !(1970 <= dt.year && dt.year <= 9999) {
        return None;
    }
    if !(1 <= dt.month && dt.month <= 12) {
        return None;
    }
    let dim: u32 = if dt.month == 2 {
        let leap = (dt.year % 4 == 0 && dt.year % 100 != 0) || dt.year % 400 == 0;
        if leap {
            29
        } else {
            28
        }
    } else if dt.month == 4 || dt.month == 6 || dt.month == 9 || dt.month == 11 {
        30
    } else {
        31
    };
    proof {
        assert(dim == spec_days_in_month(dt.year as int, dt.month as int));
    }
    if !(1 <= dt.day && dt.day <= dim) {
        return None;
    }
    if !(dt.hour < 24 && dt.minute < 60 && dt.second < 60) {
        return None;
    }
    Some(dt)
}

/// Parses a timestamp and returns its minute value together with whether it
/// sits on a half-hour boundary.
pub fn parse_minutes(s: &str) -> (r: Option<(i64, bool)>)
    ensures
        match r {
            Some(p) => spec_is_datetime_shape(s@) && spec_fields_valid(spec_datetime_of(s@)) && p.0
                == spec_minutes(spec_datetime_of(s@)) && p.1 == spec_on_boundary(
                spec_datetime_of(s@),
            ),
            None => !(spec_is_datetime_shape(s@) && spec_fields_valid(spec_datetime_of(s@))),
        },
{
    match parse_datetime(s) {
        Some(dt) => Some((dt.minutes(), dt.on_boundary())),
        None => None,
    }
}

} // verus!
