use fairsched::fairness::{calculate_priority, higher_priority, Priority};
use fairsched::gate::ConcurrencyGate;
use fairsched::queue::{QueuedRequest, RequestQueue};
use fairsched::scheduler::{AcquireOutcome, Scheduler};
use fairsched::settings::{FairnessSettings, SettingsStore};
use fairsched::usage::{UsageEntry, UsageLedger};
use fairsched::metrics::{cpu_times_from_fields, CpuSampler, CpuTimes};
use fairsched::settings::is_recognized_setting;
use fairsched::time::parse_minutes;

fn default_settings() -> FairnessSettings {
    FairnessSettings::default()
}

fn score_points(p: Priority) -> f64 {
    p.score_milli as f64 / 1000.0
}

// -----------------------------------------------------------------------
// fairness calculator
// -----------------------------------------------------------------------

#[test]
fn test_priority_no_wait_no_usage() {
    let s = default_settings();
    let p = score_points(calculate_priority(&s, 0, 0));
    // ln(1 + 0/1000) = ln(1) = 0, so priority = 100
    assert!((p - 100.0).abs() < f64::EPSILON);
}

#[test]
fn test_priority_increases_with_wait() {
    let s = default_settings();
    let p1 = calculate_priority(&s, 0, 0);
    let p2 = calculate_priority(&s, 10, 0);
    assert!(higher_priority(&p2, &p1));
}

#[test]
fn test_priority_decreases_with_usage() {
    let s = default_settings();
    let p1 = calculate_priority(&s, 0, 0);
    let p2 = calculate_priority(&s, 0, 10_000);
    assert!(higher_priority(&p1, &p2));
}

#[test]
fn test_heavy_user_lower_than_light_user() {
    let s = default_settings();
    let heavy = calculate_priority(&s, 5, 50_000);
    let light = calculate_priority(&s, 5, 1_000);
    assert!(higher_priority(&light, &heavy));
}

#[test]
fn test_ln_curve_small_differences_negligible() {
    let s = default_settings();
    let p200 = score_points(calculate_priority(&s, 0, 200));
    let p400 = score_points(calculate_priority(&s, 0, 400));
    // Difference should be small (< 2.0 priority points)
    assert!((p200 - p400).abs() < 2.0);
}

#[test]
fn test_ln_curve_large_differences_significant() {
    let s = default_settings();
    let p200 = score_points(calculate_priority(&s, 0, 200));
    let p200k = score_points(calculate_priority(&s, 0, 200_000));
    // Difference should be significant (> 30 priority points with usage_weight=10)
    assert!((p200 - p200k) > 30.0);
}

// -----------------------------------------------------------------------
// request queue
// -----------------------------------------------------------------------

fn make_request(id: &str, user: &str, key: &str, priority_points: i64) -> QueuedRequest {
    QueuedRequest {
        request_id: id.to_string(),
        user_id: user.to_string(),
        queue_key: key.to_string(),
        priority: Priority {
            score_milli: priority_points * 1000,
            usage: 0,
        },
        enqueued_at_ms: 0,
        waker: 0,
    }
}

#[test]
fn dequeue_empty_returns_none() {
    let mut q = RequestQueue::new();
    assert!(q.dequeue("nonexistent").is_none());
}

#[test]
fn enqueue_then_dequeue_single() {
    let mut q = RequestQueue::new();
    q.enqueue(make_request("r1", "user1", "model-a", 1));

    let got = q.dequeue("model-a").unwrap();
    assert_eq!(got.request_id, "r1");

    // Queue is now empty
    assert!(q.dequeue("model-a").is_none());
}

#[test]
fn dequeue_returns_highest_priority() {
    let mut q = RequestQueue::new();
    q.enqueue(make_request("r1", "u1", "m", 1));
    q.enqueue(make_request("r2", "u2", "m", 3));
    q.enqueue(make_request("r3", "u3", "m", 2));

    let first = q.dequeue("m").unwrap();
    assert_eq!(first.request_id, "r2"); // priority 3

    let second = q.dequeue("m").unwrap();
    assert_eq!(second.request_id, "r3"); // priority 2

    let third = q.dequeue("m").unwrap();
    assert_eq!(third.request_id, "r1"); // priority 1
}

#[test]
fn dequeue_equal_priority_does_not_panic() {
    let mut q = RequestQueue::new();
    q.enqueue(make_request("r1", "u1", "m", 5));
    q.enqueue(make_request("r2", "u2", "m", 5));

    let a = q.dequeue("m").unwrap();
    let b = q.dequeue("m").unwrap();
    assert_ne!(a.request_id, b.request_id);
}

#[test]
fn remove_by_id_removes_correct_item() {
    let mut q = RequestQueue::new();
    q.enqueue(make_request("a", "u", "m", 1));
    q.enqueue(make_request("b", "u", "m", 2));
    q.enqueue(make_request("c", "u", "m", 3));

    q.remove_by_id("m", "b");

    assert_eq!(q.depth("m"), 2);
    let first = q.dequeue("m").unwrap();
    assert_eq!(first.request_id, "c");
    let second = q.dequeue("m").unwrap();
    assert_eq!(second.request_id, "a");
}

#[test]
fn remove_by_id_nonexistent_is_noop() {
    let mut q = RequestQueue::new();
    q.enqueue(make_request("r1", "u", "m", 1));

    q.remove_by_id("m", "nonexistent");
    assert_eq!(q.depth("m"), 1);
}

#[test]
fn depth_tracks_correctly() {
    let mut q = RequestQueue::new();
    assert_eq!(q.depth("m"), 0);

    q.enqueue(make_request("r1", "u", "m", 1));
    q.enqueue(make_request("r2", "u", "m", 2));
    q.enqueue(make_request("r3", "u", "m", 3));
    assert_eq!(q.depth("m"), 3);

    q.dequeue("m");
    assert_eq!(q.depth("m"), 2);
}

#[test]
fn separate_queues_are_independent() {
    let mut q = RequestQueue::new();
    q.enqueue(make_request("a1", "u", "a", 1));
    q.enqueue(make_request("b1", "u", "b", 1));

    assert_eq!(q.depth("a"), 1);
    assert_eq!(q.depth("b"), 1);

    q.dequeue("a");
    assert_eq!(q.depth("a"), 0);
    assert_eq!(q.depth("b"), 1); // unaffected
}

#[test]
fn all_stats_returns_all_keys() {
    let mut q = RequestQueue::new();
    q.enqueue(make_request("r1", "u", "alpha", 1));
    q.enqueue(make_request("r2", "u", "beta", 1));
    q.enqueue(make_request("r3", "u", "beta", 2));

    let stats = q.all_stats(10);
    assert_eq!(stats.len(), 2);
    let alpha = stats.iter().find(|(k, _)| k == "alpha").unwrap();
    let beta = stats.iter().find(|(k, _)| k == "beta").unwrap();
    assert_eq!(alpha.1.depth, 1);
    assert_eq!(beta.1.depth, 2);
    assert_eq!(alpha.1.avg_wait_ms, 10);
}

// -----------------------------------------------------------------------
// concurrency gate
// -----------------------------------------------------------------------

#[test]
fn register_and_try_acquire() {
    let mut gate = ConcurrencyGate::new();
    gate.register("m1", 2);

    assert!(gate.try_acquire("m1"));
    assert!(gate.try_acquire("m1"));
    assert!(!gate.try_acquire("m1")); // full
}

#[test]
fn release_frees_slot() {
    let mut gate = ConcurrencyGate::new();
    let mut queue = RequestQueue::new();
    gate.register("m1", 1);

    assert!(gate.try_acquire("m1"));
    assert!(!gate.try_acquire("m1")); // full

    gate.release_and_wake("m1", &mut queue);
    assert!(gate.try_acquire("m1")); // freed
}

#[test]
fn release_wakes_queued_request() {
    let mut gate = ConcurrencyGate::new();
    let mut queue = RequestQueue::new();
    gate.register("m1", 1);

    queue.enqueue(make_request("r1", "u1", "m1", 1));

    let woken = gate.release_and_wake("m1", &mut queue);
    assert_eq!(woken.unwrap().request_id, "r1");
    // Queue should be empty after dequeue
    assert_eq!(queue.depth("m1"), 0);
}

#[test]
fn unregistered_model_allows_through() {
    let mut gate = ConcurrencyGate::new();
    // No register call — fail-open applies
    assert!(gate.try_acquire("unknown"));
}

#[test]
fn unregister_removes_gate() {
    let mut gate = ConcurrencyGate::new();
    gate.register("m1", 1);
    assert!(gate.try_acquire("m1"));
    assert!(!gate.try_acquire("m1")); // full

    gate.unregister("m1");
    // After unregistering, fail-open applies
    assert!(gate.try_acquire("m1"));
}

#[test]
fn release_no_underflow() {
    let mut gate = ConcurrencyGate::new();
    let mut queue = RequestQueue::new();
    gate.register("m1", 2);

    // Release without any acquire — must not underflow below 0
    gate.release_and_wake("m1", &mut queue);
    gate.release_and_wake("m1", &mut queue);

    // Still able to acquire max_slots times
    assert!(gate.try_acquire("m1"));
    assert!(gate.try_acquire("m1"));
    assert!(!gate.try_acquire("m1"));
}

#[test]
fn zero_slots_never_admits() {
    let mut gate = ConcurrencyGate::new();
    gate.register("m1", 0);
    assert!(!gate.try_acquire("m1"));
    assert!(!gate.try_acquire("m1"));
}

#[test]
fn register_unregister_register_is_clean() {
    let mut gate = ConcurrencyGate::new();
    gate.register("m1", 2);
    assert!(gate.try_acquire("m1"));
    gate.unregister("m1");
    gate.register("m1", 2);
    // Counter starts clean again
    assert!(gate.try_acquire("m1"));
    assert!(gate.try_acquire("m1"));
    assert!(!gate.try_acquire("m1"));
}

// -----------------------------------------------------------------------
// acquire flow through the façade
// -----------------------------------------------------------------------

#[test]
fn acquire_immediate_when_slot_free() {
    let mut s = Scheduler::new();
    s.gate.register("m1", 2);
    let p = calculate_priority(&s.settings(), 0, 0);
    let outcome = s.start_acquire("m1", "user1", "r1", p, 0, 1);
    assert_eq!(outcome, AcquireOutcome::Admitted);
    assert_eq!(s.get_queue_depth("m1"), 0);
}

#[test]
fn acquire_enqueues_when_full_and_release_hands_back_waiter() {
    let mut s = Scheduler::new();
    s.gate.register("m1", 1);
    let p = calculate_priority(&s.settings(), 0, 0);

    // alice takes the only slot
    assert_eq!(s.start_acquire("m1", "alice", "r1", p, 0, 1), AcquireOutcome::Admitted);
    // bob has to wait
    assert_eq!(s.start_acquire("m1", "bob", "r2", p, 5, 2), AcquireOutcome::Enqueued);
    assert_eq!(s.get_queue_depth("m1"), 1);

    // alice releases: bob's request comes back for signalling
    let woken = s.release_slot("m1").unwrap();
    assert_eq!(woken.user_id, "bob");
    assert_eq!(woken.waker, 2);
    // bob re-runs the fast path and wins the slot
    assert!(s.on_wake("m1"));
    assert_eq!(s.get_queue_depth("m1"), 0);
}

#[test]
fn acquire_timeout_cleans_up_queue() {
    let mut s = Scheduler::new();
    s.gate.register("m1", 1);
    let p = calculate_priority(&s.settings(), 0, 0);

    assert_eq!(s.start_acquire("m1", "alice", "r1", p, 0, 1), AcquireOutcome::Admitted);
    assert_eq!(s.start_acquire("m1", "bob", "r2", p, 5, 2), AcquireOutcome::Enqueued);
    assert_eq!(s.get_queue_depth("m1"), 1);

    // bob's wait times out: his entry is removed
    s.on_timeout("m1", "r2");
    assert_eq!(s.get_queue_depth("m1"), 0);
}

#[test]
fn fairness_ordering_wakes_lightest_user() {
    let mut s = Scheduler::new();
    s.gate.register("m1", 1);
    let settings = s.settings();

    assert_eq!(
        s.start_acquire("m1", "holder", "r0", calculate_priority(&settings, 0, 0), 0, 0),
        AcquireOutcome::Admitted
    );
    for (user, usage, rid, waker) in [
        ("u-light", 0u64, "r1", 1u64),
        ("u-mid", 100, "r2", 2),
        ("u-heavy", 100_000, "r3", 3),
    ] {
        let p = calculate_priority(&settings, 0, usage);
        assert_eq!(s.start_acquire("m1", user, rid, p, 0, waker), AcquireOutcome::Enqueued);
    }

    let woken = s.release_slot("m1").unwrap();
    assert_eq!(woken.user_id, "u-light");
}

#[test]
fn unregistered_model_admits_without_counting() {
    let mut s = Scheduler::new();
    let p = calculate_priority(&s.settings(), 0, 0);
    assert_eq!(s.start_acquire("m-x", "alice", "r1", p, 0, 1), AcquireOutcome::Admitted);
    // the limiter still has no entry for it
    assert!(s.gate.lookup("m-x").is_none());
}

// -----------------------------------------------------------------------
// settings store
// -----------------------------------------------------------------------

#[test]
fn load_defaults_from_empty_store() {
    let store = SettingsStore::new();
    let s = store.load();
    let d = FairnessSettings::default();
    assert_eq!(s.base_priority_milli, d.base_priority_milli);
    assert_eq!(s.wait_weight_milli, d.wait_weight_milli);
    assert_eq!(s.usage_weight_milli, d.usage_weight_milli);
    assert_eq!(s.usage_scale_milli, d.usage_scale_milli);
    assert_eq!(s.window_minutes, d.window_minutes);
    assert_eq!(s.queue_timeout_secs, d.queue_timeout_secs);
}

#[test]
fn save_and_reload() {
    let mut store = SettingsStore::new();
    store.save_setting("fairness_base_priority", "42.0");

    let s = store.load();
    assert_eq!(s.base_priority_milli, 42_000);
    // Other settings unchanged
    let d = FairnessSettings::default();
    assert_eq!(s.wait_weight_milli, d.wait_weight_milli);
}

#[test]
fn save_upsert_overwrites() {
    let mut store = SettingsStore::new();
    store.save_setting("fairness_wait_weight", "5.0");
    store.save_setting("fairness_wait_weight", "9.0");

    let s = store.load();
    assert_eq!(s.wait_weight_milli, 9_000);
}

#[test]
fn unknown_keys_ignored() {
    let mut store = SettingsStore::new();
    store.save_setting("totally_bogus_key", "999");

    let s = store.load();
    assert_eq!(s.base_priority_milli, FairnessSettings::default().base_priority_milli);
}

#[test]
fn unparseable_value_keeps_default() {
    let mut store = SettingsStore::new();
    store.save_setting("fairness_base_priority", "not_a_number");

    let s = store.load();
    assert_eq!(s.base_priority_milli, FairnessSettings::default().base_priority_milli);
}

#[test]
fn integer_settings_parse() {
    let mut store = SettingsStore::new();
    store.save_setting("fairness_window_minutes", "120");
    store.save_setting("queue_timeout_secs", "45");
    let s = store.load();
    assert_eq!(s.window_minutes, 120);
    assert_eq!(s.queue_timeout_secs, 45);
}

// -----------------------------------------------------------------------
// usage ledger
// -----------------------------------------------------------------------

fn entry(user: &str, input: i64, output: i64, at_min: i64) -> UsageEntry {
    UsageEntry {
        token_id: "t".into(),
        user_id: user.into(),
        model_id: "m".into(),
        category_id: None,
        input_tokens: input,
        output_tokens: output,
        latency_ms: 0,
        queued_ms: 0,
        created_at_min: at_min,
    }
}

#[test]
fn get_recent_usage_no_rows() {
    let ledger = UsageLedger::new();
    assert_eq!(ledger.recent_tokens("nobody", 0), 0);
}

#[test]
fn get_recent_usage_sums_correctly() {
    let mut ledger = UsageLedger::new();
    ledger.log_usage(entry("alice", 100, 50, 1000));
    ledger.log_usage(entry("alice", 200, 100, 1000));
    ledger.log_usage(entry("alice", 300, 150, 1000));
    // (100+50) + (200+100) + (300+150) = 900
    assert_eq!(ledger.recent_tokens("alice", 900), 900);
}

#[test]
fn get_recent_usage_respects_window() {
    let mut ledger = UsageLedger::new();
    ledger.log_usage(entry("bob", 100, 100, 1000)); // within window
    ledger.log_usage(entry("bob", 500, 500, 800)); // outside window
    assert_eq!(ledger.recent_tokens("bob", 900), 200);
}

#[test]
fn get_recent_usage_filters_by_user() {
    let mut ledger = UsageLedger::new();
    ledger.log_usage(entry("carol", 100, 100, 1000));
    ledger.log_usage(entry("dave", 999, 999, 1000));
    assert_eq!(ledger.recent_tokens("carol", 0), 200);
}

// -----------------------------------------------------------------------
// settings key recognition and the CPU sampler
// -----------------------------------------------------------------------

#[test]
fn recognized_setting_keys() {
    assert!(is_recognized_setting("fairness_base_priority"));
    assert!(is_recognized_setting("queue_timeout_secs"));
    assert!(!is_recognized_setting("totally_bogus_key"));
}

#[test]
fn cpu_sampler_first_reading_yields_nothing() {
    let mut sampler = CpuSampler::new();
    assert!(sampler.step(CpuTimes { idle: 50, total: 100 }, 4).is_none());
}

#[test]
fn cpu_sampler_delta_utilization() {
    let mut sampler = CpuSampler::new();
    sampler.step(CpuTimes { idle: 50, total: 100 }, 4);
    let info = sampler.step(CpuTimes { idle: 70, total: 200 }, 4).unwrap();
    // 100 new jiffies, 20 idle: 80% busy
    assert_eq!(info.utilization_tenths_percent, 800);
    assert_eq!(info.num_cores, 4);
}

#[test]
fn cpu_fields_interpretation() {
    let t = cpu_times_from_fields(&vec![10, 20, 30, 40, 5, 1, 2, 3]).unwrap();
    assert_eq!(t.idle, 45); // idle + iowait
    assert_eq!(t.total, 111);
    assert!(cpu_times_from_fields(&vec![1, 2, 3]).is_none());
}

// -----------------------------------------------------------------------
// timestamps
// -----------------------------------------------------------------------

#[test]
fn parse_datetime_accepts_and_rejects() {
    assert!(parse_minutes("2026-02-01T10:00:00").is_some());
    assert!(parse_minutes("2026-02-30T10:00:00").is_none()); // no such day
    assert!(parse_minutes("2026-13-01T10:00:00").is_none()); // no such month
    assert!(parse_minutes("not a timestamp").is_none());
    // leap-year handling
    assert!(parse_minutes("2024-02-29T00:00:00").is_some());
    assert!(parse_minutes("2023-02-29T00:00:00").is_none());
}

#[test]
fn parse_minutes_orders_timestamps() {
    let a = parse_minutes("2026-02-01T10:00:00").unwrap().0;
    let b = parse_minutes("2026-02-01T10:30:00").unwrap().0;
    let c = parse_minutes("2026-03-01T00:00:00").unwrap().0;
    assert_eq!(b - a, 30);
    assert!(b < c);
}

#[test]
fn boundary_detection() {
    assert!(parse_minutes("2026-02-01T10:00:00").unwrap().1);
    assert!(parse_minutes("2026-02-01T10:30:00").unwrap().1);
    assert!(!parse_minutes("2026-02-01T10:15:00").unwrap().1);
    assert!(!parse_minutes("2026-02-01T10:00:30").unwrap().1);
}

#[test]
fn epoch_minute_zero() {
    assert_eq!(parse_minutes("1970-01-01T00:00:00").unwrap().0, 0);
    assert_eq!(parse_minutes("1970-01-02T00:00:00").unwrap().0, 1440);
}
