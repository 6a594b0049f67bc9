//! Small string and byte helpers shared by the API layer: period-string
//! mapping, decimal rendering, byte-size formatting, URL encoding, and
//! request-field validation.

use vstd::prelude::*;

verus! {

/// Maps a user-facing period string ("hour", "day", "week", "month") to the
/// datetime offset used in time-window queries. Anything else means "day".
pub fn period_to_interval(period: &str) -> (r: &'static str)
    ensures
        period@ == "hour"@ ==> r@ == "-1 hour"@,
        period@ == "day"@ ==> r@ == "-1 day"@,
        period@ == "week"@ ==> r@ == "-7 days"@,
        period@ == "month"@ ==> r@ == "-30 days"@,
        period@ != "hour"@ && period@ != "week"@ && period@ != "month"@ ==> r@ == "-1 day"@,
{
    proof {
        reveal_strlit("hour");
        reveal_strlit("day");
        reveal_strlit("week");
        reveal_strlit("month");
    }
    assert("hour"@.len() == 4 && "day"@.len() == 3 && "week"@.len() == 4 && "month"@.len() == 5);
    assert("hour"@[0] == 'h' && "week"@[0] == 'w');
    if str_eq(period, "hour") {
        "-1 hour"
    } else if str_eq(period, "week") {
        "-7 days"
    } else if str_eq(period, "month") {
        "-30 days"
    } else {
        "-1 day"
    }
}

/// Maps a period string to both a datetime offset and a time-bucket format
/// string for timeline grouping.
pub fn period_to_interval_and_bucket(period: &str) -> (r: (&'static str, &'static str))
    ensures
        period@ == "hour"@ ==> r.0@ == "-1 hour"@ && r.1@ == "%Y-%m-%dT%H:%M:00"@,
        period@ == "day"@ ==> r.0@ == "-1 day"@ && r.1@ == "%Y-%m-%dT%H:00:00"@,
        period@ == "week"@ ==> r.0@ == "-7 days"@ && r.1@ == "%Y-%m-%d"@,
        period@ == "month"@ ==> r.0@ == "-30 days"@ && r.1@ == "%Y-%m-%d"@,
        period@ != "hour"@ && period@ != "week"@ && period@ != "month"@ ==> (r.0@ == "-1 day"@
            && r.1@ == "%Y-%m-%dT%H:00:00"@),
{
    proof {
        reveal_strlit("hour");
        reveal_strlit("day");
        reveal_strlit("week");
        reveal_strlit("month");
    }
    assert("hour"@.len() == 4 && "day"@.len() == 3 && "week"@.len() == 4 && "month"@.len() == 5);
    assert("hour"@[0] == 'h' && "week"@[0] == 'w');
    if str_eq(period, "hour") {
        ("-1 hour", "%Y-%m-%dT%H:%M:00")
    } else if str_eq(period, "week") {
        ("-7 days", "%Y-%m-%d")
    } else if str_eq(period, "month") {
        ("-30 days", "%Y-%m-%d")
    } else {
        ("-1 day", "%Y-%m-%dT%H:00:00")
    }
}

/// Byte-for-byte equality of two string slices.
pub fn str_eq(a: &str, b: &str) -> (r: bool)
    ensures
        r == (a@ == b@),
{
    let ab = a.as_bytes();
    let bb = b.as_bytes();
    let r = bytes_eq(ab, bb);
    proof {
        vstd::utf8::encode_utf8_decode_utf8(a@);
        vstd::utf8::encode_utf8_decode_utf8(b@);
    }
    r
}

/// Byte-for-byte equality of two byte slices.
pub fn bytes_eq(a: &[u8], b: &[u8]) -> (r: bool)
    ensures
        r == (a@ == b@),
{
    if a.len() != b.len() {
        return false;
    }
    let mut i: usize = 0;
    while i < a.len()
        invariant
            0 <= i <= a@.len(),
            a@.len() == b@.len(),
            forall|j: int| 0 <= j < i ==> a@[j] == b@[j],
        decreases a@.len() - i,
    {
        if a[i] != b[i] {
            return false;
        }
        i += 1;
    }
    proof {
        assert(a@ =~= b@);
    }
    true
}

} // verus!
