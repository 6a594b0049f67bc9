//! The usage ledger: an append-only log of completed requests, and the
//! rolling-window token sum that feeds the fairness calculator.

use vstd::prelude::*;

verus! {

/// A completed inference request.
#[derive(Debug, Clone)]
pub struct UsageEntry {
    pub token_id: String,
    pub user_id: String,
    pub model_id: String,
    pub category_id: Option<String>,
    pub input_tokens: i64,
    pub output_tokens: i64,
    pub latency_ms: i64,
    pub queued_ms: i64,
    /// Completion time, minutes from the civil epoch.
    pub created_at_min: i64,
}

/// The tokens one entry contributes: input plus output, never negative.
pub open spec fn spec_entry_tokens(e: UsageEntry) -> int {
    if e.input_tokens + e.output_tokens < 0 {
        0
    } else {
        e.input_tokens + e.output_tokens
    }
}

/// The token total of a user's entries at or after the cutoff.
pub open spec fn spec_recent_tokens(entries: Seq<UsageEntry>, user: Seq<char>, cutoff: int) -> int
    decreases entries.len(),
{
    if entries.len() == 0 {
        0
    } else {
        let rest = spec_recent_tokens(entries.drop_last(), user, cutoff);
        let e = entries.last();
        if e.user_id@ == user && e.created_at_min >= cutoff {
            rest + spec_entry_tokens(e)
        } else {
            rest
        }
    }
}

/// The append-only log of completed requests.
#[derive(Debug)]
pub struct UsageLedger {
    pub entries: Vec<UsageEntry>,
}

impl UsageLedger {
    pub fn new() -> (r: UsageLedger)
        ensures
            r.entries@.len() == 0,
    {
        UsageLedger { entries: Vec::new() }
    }

    /// Appends one entry; nothing already logged ever changes.
    pub fn log_usage(&mut self, entry: UsageEntry)
        ensures
            final(self).entries@ == old(self).entries@.push(entry),
    {
        self.entries.push(entry);
    }

    /// Total tokens (input + output) the user consumed at or after `cutoff`,
    /// saturating at the machine bound.
    pub fn recent_tokens(&self, user_id: &str, cutoff_min: i64) -> (r: u64)
        ensures
            r as int == vstd::math::min(
                spec_recent_tokens(self.entries@, user_id@, cutoff_min as int),
                u64::MAX as int,
            ),
    {
        let n = self.entries.len();
        let mut acc: u64 = 0;
        let mut i: usize = 0;
        proof {
            lemma_recent_nonneg(self.entries@.take(0), user_id@, cutoff_min as int);
        }
        while i < n
            invariant
                0 <= i <= n == self.entries@.len(),
                acc as int == vstd::math::min(
                    spec_recent_tokens(self.entries@.take(i as int), user_id@, cutoff_min as int),
                    u64::MAX as int,
                ),
            decreases n - i,
        {
            let e = &self.entries[i];
            proof {
                let pre = self.entries@.take(i as int);
                let now = self.entries@.take(i + 1 as int);
                assert(now.drop_last() =~= pre);
                assert(now.last() == self.entries@[i as int]);
                lemma_recent_nonneg(pre, user_id@, cutoff_min as int);
            }
            if crate::util::str_eq(e.user_id.as_str(), user_id) && e.created_at_min >= cutoff_min {
                let sum128: i128 = e.input_tokens as i128 + e.output_tokens as i128;
                let term: u64 = if sum128 < 0 {
                    0
                } else {
                    sum128 as u64
                };
                if acc > u64::MAX - term {
                    acc = u64::MAX;
                } else {
                    acc = acc + term;
                }
            }
            i += 1;
        }
        proof {
            assert(self.entries@.take(n as int) =~= self.entries@);
        }
        acc
    }

    /// The fairness priority of a user right now: their recent usage over
    /// the settings window, scored with zero accrued wait.
    pub fn priority_for_user(
        &self,
        settings: &crate::settings::FairnessSettings,
        user_id: &str,
        now_min: i64,
    ) -> (p: crate::fairness::Priority)
        requires
            settings.wf(),
        ensures
            ({
                let cutoff = if now_min as int - settings.window_minutes < i64::MIN {
                    i64::MIN as int
                } else if now_min as int - settings.window_minutes > i64::MAX {
                    i64::MAX as int
                } else {
                    now_min as int - settings.window_minutes
                };
                let recent = vstd::math::min(
                    spec_recent_tokens(self.entries@, user_id@, cutoff),
                    u64::MAX as int,
                );
                p.score_milli as int == crate::fairness::spec_score(*settings, 0, recent as nat)
                    && p.usage as int == recent
            }),
    {
        let cutoff128: i128 = now_min as i128 - settings.window_minutes as i128;
        let cutoff: i64 = if cutoff128 < i64::MIN as i128 {
            i64::MIN
        } else if cutoff128 > i64::MAX as i128 {
            i64::MAX
        } else {
            cutoff128 as i64
        };
        let recent = self.recent_tokens(user_id, cutoff);
        crate::fairness::calculate_priority(settings, 0, recent)
    }
}

proof fn lemma_recent_nonneg(entries: Seq<UsageEntry>, user: Seq<char>, cutoff: int)
    ensures
        spec_recent_tokens(entries, user, cutoff) >= 0,
    decreases entries.len(),
{
    if entries.len() > 0 {
        lemma_recent_nonneg(entries.drop_last(), user, cutoff);
    }
}

} // verus!
