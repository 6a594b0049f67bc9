//! Runtime-configurable fairness and queue settings.
//!
//! All weights are held in milli-units (one thousandth of the user-facing
//! value), so that the fairness arithmetic stays in integers. Values arrive
//! from the key/value settings store as decimal strings; a value that does
//! not parse, or lies outside the supported range, leaves the corresponding
//! default untouched, and unknown keys are ignored.

use vstd::prelude::*;

verus! {

/// Runtime-configurable fairness and queue settings, in milli-units.
#[derive(Debug, Clone, Copy)]
pub struct FairnessSettings {
    /// Starting priority for all requests (milli-units).
    pub base_priority_milli: i64,
    /// Priority bonus per second of waiting (milli-units).
    pub wait_weight_milli: i64,
    /// Multiplier on the logarithmic usage penalty (milli-units).
    pub usage_weight_milli: i64,
    /// Token divisor inside the logarithm (milli-units); always at least 1.
    pub usage_scale_milli: i64,
    /// Rolling usage window (minutes).
    pub window_minutes: i64,
    /// Max seconds to hold a queued request before reporting a timeout.
    pub queue_timeout_secs: u64,
}

impl FairnessSettings {
    /// The settings a fresh store yields, before any stored row is applied.
    pub open spec fn spec_default() -> FairnessSettings {
        FairnessSettings {
            base_priority_milli: 100_000,
            wait_weight_milli: 1_000,
            usage_weight_milli: 10_000,
            usage_scale_milli: 1_000_000,
            window_minutes: 60,
            queue_timeout_secs: 30,
        }
    }

    /// The usage scale must stay positive for the penalty term to be defined.
    pub open spec fn wf(self) -> bool {
        self.usage_scale_milli >= 1
    }
}

impl Default for FairnessSettings {
    fn default() -> (r: FairnessSettings)
        ensures
            r == FairnessSettings::spec_default(),
    {
        FairnessSettings {
            base_priority_milli: 100_000,
            wait_weight_milli: 1_000,
            usage_weight_milli: 10_000,
            usage_scale_milli: 1_000_000,
            window_minutes: 60,
            queue_timeout_secs: 30,
        }
    }
}

// ---------------------------------------------------------------------------
// Decimal parsing
// ---------------------------------------------------------------------------

pub open spec fn is_digit(c: char) -> bool {
    '0' <= c && c <= '9'
}

pub open spec fn digit_val(c: char) -> int {
    c as int - 48
}

pub open spec fn all_digits(s: Seq<char>) -> bool {
    forall|i: int| 0 <= i < s.len() ==> is_digit(#[trigger] s[i])
}

/// The value of a digit string, most significant digit first.
pub open spec fn digits_val(s: Seq<char>) -> int
    decreases s.len(),
{
    if s.len() == 0 {
        0
    } else {
        digits_val(s.drop_last()) * 10 + digit_val(s.last())
    }
}

/// Integer magnitudes above this bound are rejected when parsing.
pub open spec fn parse_cap() -> int {
    9_000_000_000_000_000
}

/// Index of the first dot in `s`, or `s.len()` if there is none.
pub open spec fn first_dot(s: Seq<char>) -> int
    decreases s.len(),
{
    if s.len() == 0 {
        0
    } else if s[0] == '.' {
        0
    } else {
        1 + first_dot(s.drop_first())
    }
}

pub proof fn lemma_first_dot(s: Seq<char>)
    ensures
        0 <= first_dot(s) <= s.len(),
        forall|i: int| 0 <= i < first_dot(s) ==> s[i] != '.',
        first_dot(s) < s.len() ==> s[first_dot(s)] == '.',
    decreases s.len(),
{
    if s.len() > 0 && s[0] != '.' {
        lemma_first_dot(s.drop_first());
        assert forall|i: int| 0 <= i < first_dot(s) implies s[i] != '.' by {
            if i > 0 {
                assert(s.drop_first()[i - 1] != '.');
            }
        }
        if first_dot(s) < s.len() {
            assert(s.drop_first()[first_dot(s) - 1] == '.');
        }
    }
}

/// The milli-value contributed by a fraction digit string: the first three
/// digits are kept, anything further is truncated.
pub open spec fn frac_milli(s: Seq<char>) -> int {
    if s.len() >= 3 {
        digits_val(s.take(3))
    } else if s.len() == 2 {
        digits_val(s) * 10
    } else if s.len() == 1 {
        digits_val(s) * 100
    } else {
        0
    }
}

/// An unsigned decimal number: digits with at most one dot, and at least one
/// digit somewhere.
pub open spec fn is_unsigned_decimal(t: Seq<char>) -> bool {
    let d = first_dot(t);
    &&& t.len() > 0
    &&& all_digits(t.take(d))
    &&& (d == t.len() || all_digits(t.skip(d + 1)))
    &&& (d > 0 || (d < t.len() && t.len() > 1))
}

/// The milli-value of an unsigned decimal number.
pub open spec fn unsigned_decimal_milli(t: Seq<char>) -> int {
    let d = first_dot(t);
    if d == t.len() {
        digits_val(t) * 1000
    } else {
        digits_val(t.take(d)) * 1000 + frac_milli(t.skip(d + 1))
    }
}

/// Parsing a decimal string to milli-units: an optional minus sign, then an
/// unsigned decimal number whose integer part stays under the cap.
pub open spec fn spec_parse_milli(s: Seq<char>) -> Option<int> {
    let neg = s.len() > 0 && s[0] == '-';
    let t = if neg {
        s.drop_first()
    } else {
        s
    };
    if is_unsigned_decimal(t) && digits_val(t.take(first_dot(t))) <= parse_cap() {
        if neg {
            Some(-unsigned_decimal_milli(t))
        } else {
            Some(unsigned_decimal_milli(t))
        }
    } else {
        None
    }
}

/// Parsing a plain (dot-free) signed integer string.
pub open spec fn spec_parse_i64_plain(s: Seq<char>) -> Option<int> {
    let neg = s.len() > 0 && s[0] == '-';
    let t = if neg {
        s.drop_first()
    } else {
        s
    };
    if t.len() > 0 && all_digits(t) && digits_val(t) <= parse_cap() {
        if neg {
            Some(-digits_val(t))
        } else {
            Some(digits_val(t))
        }
    } else {
        None
    }
}

/// Parsing a plain unsigned integer string.
pub open spec fn spec_parse_u64_plain(s: Seq<char>) -> Option<int> {
    if s.len() > 0 && all_digits(s) && digits_val(s) <= parse_cap() {
        Some(digits_val(s))
    } else {
        None
    }
}

pub proof fn lemma_digits_val_bounds(s: Seq<char>)
    requires
        all_digits(s),
    ensures
        0 <= digits_val(s),
    decreases s.len(),
{
    if s.len() > 0 {
        assert(is_digit(s.last()));
        lemma_digits_val_bounds(s.drop_last());
    }
}

/// Reads the digit run `s[from..to]`, returning its value, or `None` as soon
/// as a non-digit appears or the value passes the cap.
fn scan_digits(s: &str, from: usize, to: usize) -> (r: Option<u64>)
    requires
        from <= to <= s@.len(),
    ensures
        match r {
            Some(v) => all_digits(s@.subrange(from as int, to as int)) && v == digits_val(
                s@.subrange(from as int, to as int),
            ) && v <= parse_cap(),
            None => !(all_digits(s@.subrange(from as int, to as int)) && digits_val(
                s@.subrange(from as int, to as int),
            ) <= parse_cap()),
        },
{
    let mut i: usize = from;
    let mut val: u64 = 0;
    while i < to
        invariant
            from <= i <= to <= s@.len(),
            all_digits(s@.subrange(from as int, i as int)),
            val == digits_val(s@.subrange(from as int, i as int)),
            val <= parse_cap(),
        decreases to - i,
    {
        let c = s.get_char(i);
        if !('0' <= c && c <= '9') {
            proof {
                let part = s@.subrange(from as int, to as int);
                assert(part[i - from] == c);
                assert(!is_digit(c));
            }
            return None;
        }
        let d: u64 = (c as u32 as u64) - 48;
        proof {
            let pre = s@.subrange(from as int, i as int);
            let now = s@.subrange(from as int, i + 1 as int);
            assert(now.drop_last() =~= pre);
            assert(now.last() == c);
            lemma_digits_val_bounds(pre);
        }
        let val2 = val * 10 + d;
        if val2 > 9_000_000_000_000_000 {
            // The value is already past the cap and digit runs only grow.
            proof {
                assert(digits_val(s@.subrange(from as int, i + 1 as int)) == val2);
                if all_digits(s@.subrange(from as int, to as int)) {
                    lemma_digits_prefix_monotone(s@, from as int, i + 1 as int, to as int);
                }
            }
            return None;
        }
        val = val2;
        i += 1;
    }
    proof {
        assert(s@.subrange(from as int, to as int) =~= s@.subrange(from as int, i as int));
    }
    Some(val)
}

/// If a prefix of a digit run is over the cap, so is the whole run.
proof fn lemma_digits_prefix_monotone(s: Seq<char>, from: int, mid: int, to: int)
    requires
        0 <= from <= mid <= to <= s.len(),
        all_digits(s.subrange(from, to)),
    ensures
        digits_val(s.subrange(from, mid)) <= digits_val(s.subrange(from, to)),
    decreases to - mid,
{
    if mid < to {
        lemma_digits_prefix_monotone(s, from, mid + 1, to);
        let a = s.subrange(from, mid);
        let b = s.subrange(from, mid + 1);
        assert(b.drop_last() =~= a);
        assert(is_digit(s.subrange(from, to)[mid - from]));
        assert(b.last() == s.subrange(from, to)[mid - from]);
        lemma_digits_all_digits_sub(s, from, mid, to);
        lemma_digits_val_bounds(a);
        assert(digits_val(b) == digits_val(a) * 10 + digit_val(b.last()));
        assert(digits_val(a) <= digits_val(b));
    }
}

/// Digits of a subrange of a digit run.
proof fn lemma_digits_all_digits_sub(s: Seq<char>, from: int, mid: int, to: int)
    requires
        0 <= from <= mid <= to <= s.len(),
        all_digits(s.subrange(from, to)),
    ensures
        all_digits(s.subrange(from, mid)),
{
    let a = s.subrange(from, mid);
    let w = s.subrange(from, to);
    assert forall|i: int| 0 <= i < a.len() implies is_digit(#[trigger] a[i]) by {
        assert(a[i] == w[i]);
    }
}

/// Checks that `s[from..to]` consists of digits only.
pub fn check_digits(s: &str, from: usize, to: usize) -> (r: bool)
    requires
        from <= to <= s@.len(),
    ensures
        r == all_digits(s@.subrange(from as int, to as int)),
{
    let mut i: usize = from;
    while i < to
        invariant
            from <= i <= to <= s@.len(),
            all_digits(s@.subrange(from as int, i as int)),
        decreases to - i,
    {
        let c = s.get_char(i);
        if !('0' <= c && c <= '9') {
            proof {
                assert(s@.subrange(from as int, to as int)[i - from] == c);
            }
            return false;
        }
        proof {
            let now = s@.subrange(from as int, i + 1 as int);
            assert forall|j: int| 0 <= j < now.len() implies is_digit(#[trigger] now[j]) by {
                if j < i - from {
                    assert(s@.subrange(from as int, i as int)[j] == now[j]);
                } else {
                    assert(now[j] == c);
                }
            }
        }
        i += 1;
    }
    proof {
        assert(s@.subrange(from as int, to as int) =~= s@.subrange(from as int, i as int));
    }
    true
}

/// The characterization of `first_dot` is unique.
proof fn lemma_first_dot_unique(t: Seq<char>, p: int)
    requires
        0 <= p <= t.len(),
        forall|j: int| 0 <= j < p ==> t[j] != '.',
        p < t.len() ==> t[p] == '.',
    ensures
        first_dot(t) == p,
    decreases t.len(),
{
    if t.len() > 0 {
        if p == 0 {
            if t[0] != '.' {
            }
        } else {
            assert(t[0] != '.');
            lemma_first_dot_unique(t.drop_first(), p - 1);
        }
    }
}

/// Finds the first dot at or after `start`, or returns the length.
fn find_dot(s: &str, start: usize) -> (d: usize)
    requires
        start <= s@.len(),
    ensures
        start <= d <= s@.len(),
        d - start == first_dot(s@.skip(start as int)),
{
    let n = s.unicode_len();
    let mut i: usize = start;
    while i < n
        invariant
            start <= i <= n == s@.len(),
            forall|j: int| start <= j < i ==> s@[j] != '.',
        decreases n - i,
    {
        let c = s.get_char(i);
        if c == '.' {
            proof {
                let t = s@.skip(start as int);
                assert forall|j: int| 0 <= j < i - start implies t[j] != '.' by {
                    assert(t[j] == s@[start + j]);
                }
                assert(t[i - start] == '.');
                lemma_first_dot_unique(t, i - start);
            }
            return i;
        }
        i += 1;
    }
    proof {
        let t = s@.skip(start as int);
        assert forall|j: int| 0 <= j < t.len() implies t[j] != '.' by {
            assert(t[j] == s@[start + j]);
        }
        lemma_first_dot_unique(t, t.len() as int);
    }
    n
}

/// Parses a decimal string to milli-units.
pub fn parse_milli(s: &str) -> (r: Option<i64>)
    ensures
        match r {
            Some(v) => spec_parse_milli(s@) == Some(v as int),
            None => spec_parse_milli(s@) is None,
        },
{
    let n = s.unicode_len();
    let neg = n > 0 && s.get_char(0) == '-';
    let start: usize = if neg {
        1
    } else {
        0
    };
    let ghost t = if neg {
        s@.drop_first()
    } else {
        s@
    };
    proof {
        assert(t =~= s@.skip(start as int));
    }
    let d = find_dot(s, start);
    let ghost fd = first_dot(t);
    proof {
        lemma_first_dot(t);
    }
    // Integer part
    let iv: u64 = match scan_digits(s, start, d) {
        Some(v) => v,
        None => {
            proof {
                assert(t.take(fd) =~= s@.subrange(start as int, d as int));
            }
            return None;
        },
    };
    proof {
        assert(t.take(fd) =~= s@.subrange(start as int, d as int));
    }
    // Fraction part: digits only, the first three carry value.
    let mut fm: u64 = 0;
    if d < n {
        if !check_digits(s, d + 1, n) {
            proof {
                assert(t.skip(fd + 1) =~= s@.subrange(d + 1 as int, n as int));
            }
            return None;
        }
        proof {
            assert(t.skip(fd + 1) =~= s@.subrange(d + 1 as int, n as int));
        }
        let flen = n - (d + 1);
        let to: usize = if flen >= 3 {
            d + 4
        } else {
            n
        };
        proof {
            lemma_digits_all_digits_sub(s@, d + 1 as int, to as int, n as int);
            let run = s@.subrange(d + 1 as int, to as int);
            lemma_digits_val_bounds(run);
            lemma_digits_val_upper(run);
            assert(run.len() <= 3);
            reveal_with_fuel(spec_pow10, 5);
            assert(spec_pow10(3) == 1000);
        }
        let fv = match scan_digits(s, d + 1, to) {
            Some(v) => v,
            None => {
                proof {
                    assert(false);
                }
                return None;
            },
        };
        if flen >= 3 {
            proof {
                assert(t.skip(fd + 1).take(3) =~= s@.subrange(d + 1 as int, d + 4 as int));
            }
            fm = fv;
        } else if flen == 2 {
            proof {
                assert(t.skip(fd + 1) =~= s@.subrange(d + 1 as int, to as int));
            }
            fm = fv * 10;
        } else if flen == 1 {
            proof {
                assert(t.skip(fd + 1) =~= s@.subrange(d + 1 as int, to as int));
            }
            fm = fv * 100;
        }
        proof {
            let frac = t.skip(fd + 1);
            assert(fm == frac_milli(frac));
            assert(fm <= 999);
        }
    }
    // Validity: an integer digit, or a dot with at least one digit around it.
    let drel = d - start;
    let has_digit = drel > 0 || (d < n && n - start > 1);
    if !has_digit {
        proof {
            assert(!is_unsigned_decimal(t));
        }
        return None;
    }
    proof {
        assert(is_unsigned_decimal(t));
        lemma_digits_val_bounds(t.take(fd));
        if fd < t.len() {
            lemma_digits_val_bounds(t.skip(fd + 1));
        }
        assert(unsigned_decimal_milli(t) == iv * 1000 + fm);
    }
    let mag: u64 = iv * 1000 + fm;
    if neg {
        Some(-(mag as i64))
    } else {
        Some(mag as i64)
    }
}

pub open spec fn spec_pow10(n: nat) -> int
    decreases n,
{
    if n == 0 {
        1
    } else {
        10 * spec_pow10((n - 1) as nat)
    }
}

/// A digit run's value is below ten to its length.
pub proof fn lemma_digits_val_upper(s: Seq<char>)
    requires
        all_digits(s),
    ensures
        digits_val(s) < spec_pow10(s.len()),
    decreases s.len(),
{
    if s.len() > 0 {
        lemma_digits_val_upper(s.drop_last());
        lemma_digits_val_bounds(s.drop_last());
        assert(is_digit(s.last()));
    }
}

/// Parses a plain signed integer string.
pub fn parse_i64_plain(s: &str) -> (r: Option<i64>)
    ensures
        match r {
            Some(v) => spec_parse_i64_plain(s@) == Some(v as int),
            None => spec_parse_i64_plain(s@) is None,
        },
{
    let n = s.unicode_len();
    let neg = n > 0 && s.get_char(0) == '-';
    let start: usize = if neg {
        1
    } else {
        0
    };
    let ghost t = if neg {
        s@.drop_first()
    } else {
        s@
    };
    proof {
        assert(t =~= s@.skip(start as int));
        assert(t =~= s@.subrange(start as int, n as int));
    }
    if n == start {
        return None;
    }
    match scan_digits(s, start, n) {
        Some(v) => {
            proof {
                lemma_digits_val_bounds(t);
            }
            if neg {
                Some(-(v as i64))
            } else {
                Some(v as i64)
            }
        },
        None => None,
    }
}

/// Parses a plain unsigned integer string.
pub fn parse_u64_plain(s: &str) -> (r: Option<u64>)
    ensures
        match r {
            Some(v) => spec_parse_u64_plain(s@) == Some(v as int),
            None => spec_parse_u64_plain(s@) is None,
        },
{
    let n = s.unicode_len();
    if n == 0 {
        return None;
    }
    proof {
        assert(s@.subrange(0, n as int) =~= s@);
    }
    match scan_digits(s, 0, n) {
        Some(v) => {
            proof {
                lemma_digits_val_bounds(s@);
            }
            Some(v)
        },
        None => None,
    }
}

// ---------------------------------------------------------------------------
// Applying stored rows to the settings
// ---------------------------------------------------------------------------

/// The effect of one stored key/value row on a settings snapshot.
pub open spec fn spec_apply(fs: FairnessSettings, k: Seq<char>, v: Seq<char>) -> FairnessSettings {
    if k == "fairness_base_priority"@ {
        match spec_parse_milli(v) {
            Some(x) => FairnessSettings { base_priority_milli: x as i64, ..fs },
            None => fs,
        }
    } else if k == "fairness_wait_weight"@ {
        match spec_parse_milli(v) {
            Some(x) => FairnessSettings { wait_weight_milli: x as i64, ..fs },
            None => fs,
        }
    } else if k == "fairness_usage_weight"@ {
        match spec_parse_milli(v) {
            Some(x) => FairnessSettings { usage_weight_milli: x as i64, ..fs },
            None => fs,
        }
    } else if k == "fairness_usage_scale"@ {
        match spec_parse_milli(v) {
            Some(x) => if x >= 1 {
                FairnessSettings { usage_scale_milli: x as i64, ..fs }
            } else {
                fs
            },
            None => fs,
        }
    } else if k == "fairness_window_minutes"@ {
        match spec_parse_i64_plain(v) {
            Some(x) => FairnessSettings { window_minutes: x as i64, ..fs },
            None => fs,
        }
    } else if k == "queue_timeout_secs"@ {
        match spec_parse_u64_plain(v) {
            Some(x) => FairnessSettings { queue_timeout_secs: x as u64, ..fs },
            None => fs,
        }
    } else {
        fs
    }
}

/// Folding a whole row list over the defaults, first row first.
pub open spec fn spec_load(rows: Seq<(Seq<char>, Seq<char>)>) -> FairnessSettings
    decreases rows.len(),
{
    if rows.len() == 0 {
        FairnessSettings::spec_default()
    } else {
        spec_apply(spec_load(rows.drop_last()), rows.last().0, rows.last().1)
    }
}

/// The views of a row list.
pub open spec fn rows_view(rows: Seq<(String, String)>) -> Seq<(Seq<char>, Seq<char>)> {
    rows.map_values(|p: (String, String)| (p.0@, p.1@))
}

/// Applies one key/value row to a settings snapshot.
pub fn apply_setting(fs: FairnessSettings, key: &str, value: &str) -> (r: FairnessSettings)
    ensures
        r == spec_apply(fs, key@, value@),
{
    proof {
        reveal_strlit("fairness_base_priority");
        reveal_strlit("fairness_wait_weight");
        reveal_strlit("fairness_usage_weight");
        reveal_strlit("fairness_usage_scale");
        reveal_strlit("fairness_window_minutes");
        reveal_strlit("queue_timeout_secs");
    }
    assert("fairness_base_priority"@.len() == 22 && "fairness_wait_weight"@.len() == 20
        && "fairness_usage_weight"@.len() == 21 && "fairness_usage_scale"@.len() == 20
        && "fairness_window_minutes"@.len() == 23 && "queue_timeout_secs"@.len() == 18);
    assert("fairness_wait_weight"@[9] == 'w' && "fairness_usage_scale"@[9] == 'u');
    if crate::util::str_eq(key, "fairness_base_priority") {
        match parse_milli(value) {
            Some(x) => FairnessSettings { base_priority_milli: x, ..fs },
            None => fs,
        }
    } else if crate::util::str_eq(key, "fairness_wait_weight") {
        match parse_milli(value) {
            Some(x) => FairnessSettings { wait_weight_milli: x, ..fs },
            None => fs,
        }
    } else if crate::util::str_eq(key, "fairness_usage_weight") {
        match parse_milli(value) {
            Some(x) => FairnessSettings { usage_weight_milli: x, ..fs },
            None => fs,
        }
    } else if crate::util::str_eq(key, "fairness_usage_scale") {
        match parse_milli(value) {
            Some(x) => {
                if x >= 1 {
                    FairnessSettings { usage_scale_milli: x, ..fs }
                } else {
                    fs
                }
            },
            None => fs,
        }
    } else if crate::util::str_eq(key, "fairness_window_minutes") {
        match parse_i64_plain(value) {
            Some(x) => FairnessSettings { window_minutes: x, ..fs },
            None => fs,
        }
    } else if crate::util::str_eq(key, "queue_timeout_secs") {
        match parse_u64_plain(value) {
            Some(x) => FairnessSettings { queue_timeout_secs: x, ..fs },
            None => fs,
        }
    } else {
        fs
    }
}

/// Loads a settings snapshot from stored rows, falling back to defaults for
/// missing, unknown, or unparseable entries.
pub fn load_settings(rows: &Vec<(String, String)>) -> (r: FairnessSettings)
    ensures
        r == spec_load(rows_view(rows@)),
{
    let mut fs = FairnessSettings::default();
    let mut i: usize = 0;
    while i < rows.len()
        invariant
            0 <= i <= rows@.len(),
            fs == spec_load(rows_view(rows@.take(i as int))),
        decreases rows@.len() - i,
    {
        fs = apply_setting(fs, rows[i].0.as_str(), rows[i].1.as_str());
        proof {
            let pre = rows_view(rows@.take(i as int));
            let now = rows_view(rows@.take(i + 1 as int));
            assert(now.drop_last() =~= pre);
            assert(now.last() == (rows@[i as int].0@, rows@[i as int].1@));
        }
        i += 1;
    }
    proof {
        assert(rows@.take(rows@.len() as int) =~= rows@);
    }
    fs
}

/// Whether a key is one of the recognized settings. The admin surface
/// refuses writes to any other key.
pub fn is_recognized_setting(key: &str) -> (r: bool)
    ensures
        r == (key@ == "fairness_base_priority"@ || key@ == "fairness_wait_weight"@ || key@
            == "fairness_usage_weight"@ || key@ == "fairness_usage_scale"@ || key@
            == "fairness_window_minutes"@ || key@ == "queue_timeout_secs"@),
{
    crate::util::str_eq(key, "fairness_base_priority") || crate::util::str_eq(
        key,
        "fairness_wait_weight",
    ) || crate::util::str_eq(key, "fairness_usage_weight") || crate::util::str_eq(
        key,
        "fairness_usage_scale",
    ) || crate::util::str_eq(key, "fairness_window_minutes") || crate::util::str_eq(
        key,
        "queue_timeout_secs",
    )
}

// ---------------------------------------------------------------------------
// The persistent key/value store behind the settings
// ---------------------------------------------------------------------------

/// The stored value for `k`, if any.
pub open spec fn spec_lookup(rows: Seq<(Seq<char>, Seq<char>)>, k: Seq<char>) -> Option<Seq<char>>
    decreases rows.len(),
{
    if rows.len() == 0 {
        None
    } else if rows.last().0 == k {
        Some(rows.last().1)
    } else {
        spec_lookup(rows.drop_last(), k)
    }
}

/// No two rows share a key.
pub open spec fn unique_keys(rows: Seq<(Seq<char>, Seq<char>)>) -> bool {
    forall|i: int, j: int| 0 <= i < j < rows.len() ==> (#[trigger] rows[i]).0 != (#[trigger] rows[j]).0
}

proof fn lemma_lookup_none(rows: Seq<(Seq<char>, Seq<char>)>, k: Seq<char>)
    requires
        forall|i: int| 0 <= i < rows.len() ==> (#[trigger] rows[i]).0 != k,
    ensures
        spec_lookup(rows, k) is None,
    decreases rows.len(),
{
    if rows.len() > 0 {
        lemma_lookup_none(rows.drop_last(), k);
    }
}

proof fn lemma_lookup_update(rows: Seq<(Seq<char>, Seq<char>)>, i: int, p: (Seq<char>, Seq<char>), k2: Seq<char>)
    requires
        0 <= i < rows.len(),
        rows[i].0 != k2,
        p.0 != k2,
    ensures
        spec_lookup(rows.update(i, p), k2) == spec_lookup(rows, k2),
    decreases rows.len(),
{
    let up = rows.update(i, p);
    if i == rows.len() - 1 {
        assert(up.last() == p);
        assert(up.drop_last() =~= rows.drop_last());
    } else {
        assert(up.last() == rows.last());
        assert(up.drop_last() =~= rows.drop_last().update(i, p));
        if rows.last().0 != k2 {
            lemma_lookup_update(rows.drop_last(), i, p, k2);
        }
    }
}

/// The key/value rows of the settings table, keys unique.
#[derive(Debug, Clone)]
pub struct SettingsStore {
    pub rows: Vec<(String, String)>,
}

impl SettingsStore {
    pub open spec fn view_rows(self) -> Seq<(Seq<char>, Seq<char>)> {
        rows_view(self.rows@)
    }

    pub open spec fn wf(self) -> bool {
        unique_keys(self.view_rows())
    }

    /// An empty store.
    pub fn new() -> (r: SettingsStore)
        ensures
            r.wf(),
            r.view_rows() == Seq::<(Seq<char>, Seq<char>)>::empty(),
    {
        let r = SettingsStore { rows: Vec::new() };
        proof {
            assert(r.view_rows() =~= Seq::<(Seq<char>, Seq<char>)>::empty());
        }
        r
    }

    /// Inserts or overwrites the row for `key`. Every other row is unchanged.
    pub fn save_setting(&mut self, key: &str, value: &str)
        requires
            old(self).wf(),
        ensures
            final(self).wf(),
            spec_lookup(final(self).view_rows(), key@) == Some(value@),
            forall|k2: Seq<char>|
                k2 != key@ ==> spec_lookup(final(self).view_rows(), k2) == spec_lookup(
                    old(self).view_rows(),
                    k2,
                ),
    {
        let ghost orig = self.view_rows();
        let n = self.rows.len();
        let mut i: usize = 0;
        while i < n
            invariant
                0 <= i <= n == self.rows@.len(),
                *self == *old(self),
                orig == old(self).view_rows(),
                old(self).wf(),
                forall|j: int| 0 <= j < i ==> (#[trigger] self.rows@[j]).0@ != key@,
            decreases n - i,
        {
            if crate::util::str_eq(self.rows[i].0.as_str(), key) {
                proof {
                    assert(orig[i as int] == (self.rows@[i as int].0@, self.rows@[i as int].1@));
                    assert(orig[i as int].0 == key@);
                }
                let ghost oldrows = self.rows@;
                // Overwrite in place: the row keeps its key.
                let pair = (String::from_str(key), String::from_str(value));
                self.rows.remove(i);
                self.rows.insert(i, pair);
                proof {
                    let now = self.view_rows();
                    assert(self.rows@ =~= oldrows.update(i as int, pair));
                    assert forall|j: int| 0 <= j < now.len() implies now[j] == orig.update(
                        i as int,
                        (key@, value@),
                    )[j] by {
                        assert(now[j] == (self.rows@[j].0@, self.rows@[j].1@));
                        if j != i {
                            assert(self.rows@[j] == oldrows[j]);
                            assert(orig[j] == (oldrows[j].0@, oldrows[j].1@));
                        }
                    }
                    assert(now =~= orig.update(i as int, (key@, value@)));
                    assert forall|a: int, b: int| 0 <= a < b < now.len() implies (
                    #[trigger] now[a]).0 != (#[trigger] now[b]).0 by {
                        assert(now[a].0 == orig[a].0);
                        assert(now[b].0 == orig[b].0);
                    }
                    lemma_lookup_at(now, i as int, key@);
                    assert forall|k2: Seq<char>| k2 != key@ implies spec_lookup(now, k2)
                        == spec_lookup(orig, k2) by {
                        lemma_lookup_update(orig, i as int, (key@, value@), k2);
                    }
                }
                return ;
            }
            i += 1;
        }
        let pair = (String::from_str(key), String::from_str(value));
        self.rows.push(pair);
        proof {
            let now = self.view_rows();
            assert(now =~= orig.push((key@, value@)));
            assert(now.last() == (key@, value@));
            assert(now.drop_last() =~= orig);
            assert forall|a: int, b: int| 0 <= a < b < now.len() implies (#[trigger] now[a]).0 != (
            #[trigger] now[b]).0 by {
                if b < now.len() - 1 {
                    assert(now[a].0 == orig[a].0);
                    assert(now[b].0 == orig[b].0);
                } else {
                    assert(now[a].0 == orig[a].0);
                    assert(now[b].0 == key@);
                }
            }
        }
    }

    /// The settings snapshot this store currently describes.
    pub fn load(&self) -> (r: FairnessSettings)
        ensures
            r == spec_load(self.view_rows()),
    {
        load_settings(&self.rows)
    }
}

/// In a uniquely-keyed row list, the row at `i` is what lookup finds.
proof fn lemma_lookup_at(rows: Seq<(Seq<char>, Seq<char>)>, i: int, k: Seq<char>)
    requires
        unique_keys(rows),
        0 <= i < rows.len(),
        rows[i].0 == k,
    ensures
        spec_lookup(rows, k) == Some(rows[i].1),
    decreases rows.len(),
{
    if i == rows.len() - 1 {
    } else {
        assert(rows.last().0 != k);
        assert(rows.drop_last()[i] == rows[i]);
        lemma_lookup_at(rows.drop_last(), i, k);
    }
}

/// Any parsed milli-value fits comfortably in a 64-bit integer.
pub proof fn lemma_parse_milli_bounds(v: Seq<char>)
    ensures
        spec_parse_milli(v) matches Some(x) ==> -9_000_000_000_000_001_000 <= x
            <= 9_000_000_000_000_001_000,
        spec_parse_i64_plain(v) matches Some(x) ==> -9_000_000_000_000_000 <= x
            <= 9_000_000_000_000_000,
        spec_parse_u64_plain(v) matches Some(x) ==> 0 <= x <= 9_000_000_000_000_000,
{
    if spec_parse_milli(v) is Some {
        let neg = v.len() > 0 && v[0] == '-';
        let t = if neg {
            v.drop_first()
        } else {
            v
        };
        let d = first_dot(t);
        lemma_first_dot(t);
        lemma_digits_val_bounds(t.take(d));
        if d == t.len() {
            assert(t.take(d) =~= t);
        } else {
            let frac = t.skip(d + 1);
            lemma_digits_val_bounds(frac);
            lemma_digits_val_upper(frac);
            if frac.len() >= 3 {
                lemma_digits_all_digits_sub(frac, 0, 3, frac.len() as int);
                assert(frac.take(3) =~= frac.subrange(0, 3));
                lemma_digits_val_bounds(frac.take(3));
                lemma_digits_val_upper(frac.take(3));
                reveal_with_fuel(spec_pow10, 5);
            } else {
                reveal_with_fuel(spec_pow10, 5);
            }
        }
    }
    if spec_parse_i64_plain(v) is Some {
        let neg = v.len() > 0 && v[0] == '-';
        let t = if neg {
            v.drop_first()
        } else {
            v
        };
        lemma_digits_val_bounds(t);
    }
    if spec_parse_u64_plain(v) is Some {
        lemma_digits_val_bounds(v);
    }
}

/// What a loaded snapshot holds for each recognized key: the stored value
/// where one is stored and parses, and the default otherwise. Together with
/// `save_setting`'s contract this says that saving a key and then loading
/// yields the saved value.
pub proof fn lemma_load_reflects_store(rows: Seq<(Seq<char>, Seq<char>)>, k: Seq<char>)
    requires
        unique_keys(rows),
    ensures
        k == "fairness_base_priority"@ ==> spec_load(rows).base_priority_milli as int == (
        match spec_lookup(rows, k) {
            Some(v) => match spec_parse_milli(v) {
                Some(x) => x,
                None => 100_000,
            },
            None => 100_000,
        }),
        k == "fairness_wait_weight"@ ==> spec_load(rows).wait_weight_milli as int == (
        match spec_lookup(rows, k) {
            Some(v) => match spec_parse_milli(v) {
                Some(x) => x,
                None => 1_000,
            },
            None => 1_000,
        }),
        k == "fairness_usage_weight"@ ==> spec_load(rows).usage_weight_milli as int == (
        match spec_lookup(rows, k) {
            Some(v) => match spec_parse_milli(v) {
                Some(x) => x,
                None => 10_000,
            },
            None => 10_000,
        }),
        k == "fairness_usage_scale"@ ==> spec_load(rows).usage_scale_milli as int == (
        match spec_lookup(rows, k) {
            Some(v) => match spec_parse_milli(v) {
                Some(x) => if x >= 1 {
                    x
                } else {
                    1_000_000
                },
                None => 1_000_000,
            },
            None => 1_000_000,
        }),
        k == "fairness_window_minutes"@ ==> spec_load(rows).window_minutes as int == (
        match spec_lookup(rows, k) {
            Some(v) => match spec_parse_i64_plain(v) {
                Some(x) => x,
                None => 60,
            },
            None => 60,
        }),
        k == "queue_timeout_secs"@ ==> spec_load(rows).queue_timeout_secs as int == (
        match spec_lookup(rows, k) {
            Some(v) => match spec_parse_u64_plain(v) {
                Some(x) => x,
                None => 30,
            },
            None => 30,
        }),
    decreases rows.len(),
{
    reveal_strlit("fairness_base_priority");
    reveal_strlit("fairness_wait_weight");
    reveal_strlit("fairness_usage_weight");
    reveal_strlit("fairness_usage_scale");
    reveal_strlit("fairness_window_minutes");
    reveal_strlit("queue_timeout_secs");
    assert("fairness_base_priority"@.len() == 22 && "fairness_wait_weight"@.len() == 20
        && "fairness_usage_weight"@.len() == 21 && "fairness_usage_scale"@.len() == 20
        && "fairness_window_minutes"@.len() == 23 && "queue_timeout_secs"@.len() == 18);
    assert("fairness_wait_weight"@[9] == 'w' && "fairness_usage_scale"@[9] == 'u');
    if rows.len() > 0 {
        let front = rows.drop_last();
        assert forall|i: int, j: int| 0 <= i < j < front.len() implies (#[trigger] front[i]).0 != (
        #[trigger] front[j]).0 by {
            assert(front[i] == rows[i]);
            assert(front[j] == rows[j]);
        }
        lemma_load_reflects_store(front, k);
        lemma_parse_milli_bounds(rows.last().1);
        if rows.last().0 == k {
            assert forall|i: int| 0 <= i < front.len() implies (#[trigger] front[i]).0 != k by {
                assert(front[i] == rows[i]);
                assert(rows[i].0 != rows.last().0);
            }
            lemma_lookup_none(front, k);
        }
    }
}

} // verus!
