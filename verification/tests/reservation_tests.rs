use fairsched::admission::{admission_decision, reservation_blocks, AdmissionError};
use fairsched::reservation::{
    ActiveReservation, Reservation, ReservationError, ReservationStatus, ReservationStore,
};
use fairsched::resolver::{CategoryRecord, ModelRecord, ModelTable, ResolveError};
use fairsched::time::parse_minutes;

fn minutes(s: &str) -> i64 {
    parse_minutes(s).unwrap().0
}

fn store() -> ReservationStore {
    ReservationStore::new()
}

/// A clock reading between the fixed test windows.
fn now_2026() -> i64 {
    minutes("2026-01-01T12:00:00")
}

fn create_ok(st: &mut ReservationStore, id: &str, user: &str, start: &str, end: &str) {
    st.create(id, user, start, end, "", minutes("2026-01-01T00:00:00"))
        .unwrap();
}

// -----------------------------------------------------------------------
// creation checks
// -----------------------------------------------------------------------

#[test]
fn create_success() {
    let mut st = store();
    let r = st.create(
        "res1",
        "alice",
        "2026-02-01T10:00:00",
        "2026-02-01T11:00:00",
        "demo run",
        now_2026(),
    );
    assert!(r.is_ok());
    assert_eq!(st.rows.len(), 1);
    assert_eq!(st.rows[0].status, ReservationStatus::Pending);
}

#[test]
fn create_bad_time_format() {
    let mut st = store();
    let r = st.create("res1", "alice", "tomorrow", "2026-02-01T11:00:00", "", now_2026());
    assert_eq!(r.unwrap_err(), ReservationError::InvalidStart);
}

#[test]
fn create_not_30min_boundary() {
    let mut st = store();
    let r = st.create(
        "res1",
        "alice",
        "2026-02-01T10:15:00",
        "2026-02-01T11:00:00",
        "",
        now_2026(),
    );
    assert_eq!(r.unwrap_err(), ReservationError::NotOnBoundary);
}

#[test]
fn create_too_short() {
    let mut st = store();
    let r = st.create(
        "res1",
        "alice",
        "2026-02-01T10:00:00",
        "2026-02-01T10:00:00",
        "",
        now_2026(),
    );
    assert_eq!(r.unwrap_err(), ReservationError::EndNotAfterStart);
}

#[test]
fn create_start_in_past() {
    let mut st = store();
    let r = st.create(
        "res1",
        "alice",
        "2020-02-01T10:00:00",
        "2020-02-01T11:00:00",
        "",
        now_2026(),
    );
    assert_eq!(r.unwrap_err(), ReservationError::StartInPast);
}

#[test]
fn create_overlap_rejected() {
    let mut st = store();
    create_ok(&mut st, "res1", "alice", "2026-02-01T10:00:00", "2026-02-01T11:00:00");
    st.approve("res1", "", "admin").unwrap();
    let r = st.create(
        "res2",
        "bob",
        "2026-02-01T10:30:00",
        "2026-02-01T11:30:00",
        "",
        now_2026(),
    );
    assert_eq!(r.unwrap_err(), ReservationError::Overlap);
}

#[test]
fn create_adjacent_allowed() {
    let mut st = store();
    create_ok(&mut st, "res1", "alice", "2026-02-01T10:00:00", "2026-02-01T11:00:00");
    st.approve("res1", "", "admin").unwrap();
    let r = st.create(
        "res2",
        "bob",
        "2026-02-01T11:00:00",
        "2026-02-01T12:00:00",
        "",
        now_2026(),
    );
    assert!(r.is_ok());
}

// -----------------------------------------------------------------------
// user and admin transitions
// -----------------------------------------------------------------------

#[test]
fn cancel_own_pending() {
    let mut st = store();
    create_ok(&mut st, "res1", "alice", "2026-02-01T10:00:00", "2026-02-01T11:00:00");
    assert!(st.cancel_own("res1", "alice").is_ok());
    assert_eq!(st.rows[0].status, ReservationStatus::Cancelled);
}

#[test]
fn cancel_own_other_user_fails() {
    let mut st = store();
    create_ok(&mut st, "res1", "alice", "2026-02-01T10:00:00", "2026-02-01T11:00:00");
    assert_eq!(st.cancel_own("res1", "bob").unwrap_err(), ReservationError::NotFound);
}

#[test]
fn cancel_own_active_fails() {
    let mut st = store();
    create_ok(&mut st, "res1", "alice", "2026-02-01T10:00:00", "2026-02-01T11:00:00");
    st.approve("res1", "", "admin").unwrap();
    st.force_activate("res1", None).unwrap();
    assert_eq!(st.cancel_own("res1", "alice").unwrap_err(), ReservationError::NotFound);
}

#[test]
fn admin_approve_success() {
    let mut st = store();
    create_ok(&mut st, "res1", "alice", "2026-02-01T10:00:00", "2026-02-01T11:00:00");
    assert!(st.approve("res1", "fine", "admin").is_ok());
    assert_eq!(st.rows[0].status, ReservationStatus::Approved);
    assert_eq!(st.rows[0].admin_note, "fine");
    assert_eq!(st.rows[0].approved_by.as_deref(), Some("admin"));
}

#[test]
fn admin_approve_overlap_rejected() {
    let mut st = store();
    create_ok(&mut st, "res1", "alice", "2026-02-01T10:00:00", "2026-02-01T11:00:00");
    create_ok(&mut st, "res2", "bob", "2026-02-01T10:30:00", "2026-02-01T11:30:00");
    st.approve("res1", "", "admin").unwrap();
    assert_eq!(st.approve("res2", "", "admin").unwrap_err(), ReservationError::Overlap);
}

#[test]
fn admin_reject_success() {
    let mut st = store();
    create_ok(&mut st, "res1", "alice", "2026-02-01T10:00:00", "2026-02-01T11:00:00");
    assert!(st.reject("res1", "no").is_ok());
    assert_eq!(st.rows[0].status, ReservationStatus::Rejected);
}

#[test]
fn admin_force_activate() {
    let mut st = store();
    create_ok(&mut st, "res1", "alice", "2026-02-01T10:00:00", "2026-02-01T11:00:00");
    st.approve("res1", "", "admin").unwrap();
    assert!(st.force_activate("res1", None).is_ok());
    assert_eq!(st.rows[0].status, ReservationStatus::Active);
    assert_eq!(st.active.as_ref().unwrap().user_id, "alice");
}

#[test]
fn admin_force_activate_refused_when_one_is_active() {
    let mut st = store();
    create_ok(&mut st, "res1", "alice", "2026-02-01T10:00:00", "2026-02-01T11:00:00");
    create_ok(&mut st, "res2", "bob", "2026-02-01T12:00:00", "2026-02-01T13:00:00");
    st.approve("res1", "", "admin").unwrap();
    st.approve("res2", "", "admin").unwrap();
    st.force_activate("res1", None).unwrap();
    assert_eq!(
        st.force_activate("res2", None).unwrap_err(),
        ReservationError::AlreadyActive
    );
}

#[test]
fn admin_force_deactivate() {
    let mut st = store();
    create_ok(&mut st, "res1", "alice", "2026-02-01T10:00:00", "2026-02-01T11:00:00");
    st.approve("res1", "", "admin").unwrap();
    st.force_activate("res1", None).unwrap();
    assert!(st.force_deactivate("res1").is_ok());
    assert_eq!(st.rows[0].status, ReservationStatus::Completed);
    assert!(st.active.is_none());
}

#[test]
fn admin_delete_non_active() {
    let mut st = store();
    create_ok(&mut st, "res1", "alice", "2026-02-01T10:00:00", "2026-02-01T11:00:00");
    assert!(st.delete("res1").is_ok());
    assert!(st.rows.is_empty());
}

#[test]
fn admin_delete_active_fails() {
    let mut st = store();
    create_ok(&mut st, "res1", "alice", "2026-02-01T10:00:00", "2026-02-01T11:00:00");
    st.approve("res1", "", "admin").unwrap();
    st.force_activate("res1", None).unwrap();
    assert_eq!(st.delete("res1").unwrap_err(), ReservationError::ActiveRow);
}

// -----------------------------------------------------------------------
// the tick
// -----------------------------------------------------------------------

fn raw_row(id: &str, user: &str, status: ReservationStatus, start: &str, end: &str) -> Reservation {
    Reservation {
        id: id.into(),
        user_id: user.into(),
        status,
        start_min: minutes(start),
        end_min: minutes(end),
        reason: String::new(),
        admin_note: String::new(),
        approved_by: None,
    }
}

#[test]
fn tick_completes_expired_active() {
    let rows = vec![raw_row(
        "res1",
        "user1",
        ReservationStatus::Active,
        "2020-01-01T00:00:00",
        "2020-01-01T01:00:00",
    )];
    let mut st = ReservationStore::recover(rows);
    assert!(st.active.is_some());

    let changed = st.tick(now_2026());

    assert!(changed);
    assert_eq!(st.rows[0].status, ReservationStatus::Completed);
    assert!(st.active.is_none());
}

#[test]
fn tick_activates_approved_when_due() {
    let rows = vec![raw_row(
        "res1",
        "user1",
        ReservationStatus::Approved,
        "2020-01-01T00:00:00",
        "2099-12-31T23:30:00",
    )];
    let mut st = ReservationStore::recover(rows);

    let changed = st.tick(now_2026());

    assert!(changed);
    assert_eq!(st.rows[0].status, ReservationStatus::Active);
    assert_eq!(st.active.as_ref().unwrap().reservation_id, "res1");
}

#[test]
fn tick_skips_activation_if_already_active() {
    let rows = vec![
        raw_row(
            "res-a",
            "user1",
            ReservationStatus::Active,
            "2020-01-01T00:00:00",
            "2099-12-31T23:30:00",
        ),
        raw_row(
            "res-b",
            "user2",
            ReservationStatus::Approved,
            "2020-06-01T00:00:00",
            "2099-12-31T23:00:00",
        ),
    ];
    let mut st = ReservationStore::recover(rows);

    st.tick(now_2026());

    assert_eq!(st.rows[0].status, ReservationStatus::Active);
    assert_eq!(st.rows[1].status, ReservationStatus::Approved);
}

#[test]
fn tick_activates_earliest_of_multiple() {
    let rows = vec![
        raw_row(
            "later",
            "user2",
            ReservationStatus::Approved,
            "2020-06-01T00:00:00",
            "2099-12-31T23:00:00",
        ),
        raw_row(
            "earlier",
            "user1",
            ReservationStatus::Approved,
            "2020-01-01T00:00:00",
            "2099-01-01T00:00:00",
        ),
    ];
    let mut st = ReservationStore::recover(rows);

    st.tick(now_2026());

    assert_eq!(st.rows[1].status, ReservationStatus::Active);
    assert_eq!(st.rows[0].status, ReservationStatus::Approved);
    assert_eq!(st.active.as_ref().unwrap().reservation_id, "earlier");
}

#[test]
fn tick_cancels_stale_pending() {
    let rows = vec![raw_row(
        "res1",
        "user1",
        ReservationStatus::Pending,
        "2020-01-01T00:00:00",
        "2020-01-01T01:00:00",
    )];
    let mut st = ReservationStore::recover(rows);

    let changed = st.tick(now_2026());

    assert!(changed);
    assert_eq!(st.rows[0].status, ReservationStatus::Cancelled);
    assert!(st.rows[0].admin_note.contains("Auto-cancelled"));
}

#[test]
fn tick_cascade_complete_then_activate() {
    let rows = vec![
        raw_row(
            "old-active",
            "user1",
            ReservationStatus::Active,
            "2020-01-01T00:00:00",
            "2020-01-01T01:00:00",
        ),
        raw_row(
            "next",
            "user2",
            ReservationStatus::Approved,
            "2020-01-01T01:00:00",
            "2099-12-31T23:30:00",
        ),
    ];
    let mut st = ReservationStore::recover(rows);

    st.tick(now_2026());

    assert_eq!(st.rows[0].status, ReservationStatus::Completed);
    assert_eq!(st.rows[1].status, ReservationStatus::Active);
    assert_eq!(st.active.as_ref().unwrap().reservation_id, "next");
}

#[test]
fn tick_noop_when_nothing_due() {
    let rows = vec![
        raw_row(
            "p",
            "user1",
            ReservationStatus::Pending,
            "2099-12-01T00:00:00",
            "2099-12-31T23:30:00",
        ),
        raw_row(
            "a",
            "user2",
            ReservationStatus::Approved,
            "2099-01-01T00:00:00",
            "2099-02-01T00:00:00",
        ),
    ];
    let mut st = ReservationStore::recover(rows);

    let changed = st.tick(now_2026());

    assert!(!changed);
    assert_eq!(st.rows[0].status, ReservationStatus::Pending);
    assert_eq!(st.rows[1].status, ReservationStatus::Approved);
    assert!(st.active.is_none());
}

#[test]
fn tick_twice_same_clock_is_idempotent() {
    let rows = vec![
        raw_row(
            "old-active",
            "user1",
            ReservationStatus::Active,
            "2020-01-01T00:00:00",
            "2020-01-01T01:00:00",
        ),
        raw_row(
            "next",
            "user2",
            ReservationStatus::Approved,
            "2020-01-01T01:00:00",
            "2099-12-31T23:30:00",
        ),
        raw_row(
            "stale",
            "user3",
            ReservationStatus::Pending,
            "2021-01-01T00:00:00",
            "2021-01-01T01:00:00",
        ),
    ];
    let mut st = ReservationStore::recover(rows);
    let now = now_2026();

    let first = st.tick(now);
    assert!(first);
    let statuses: Vec<ReservationStatus> = st.rows.iter().map(|r| r.status).collect();
    let active_id = st.active.as_ref().map(|a| a.reservation_id.clone());

    let second = st.tick(now);
    assert!(!second);
    let statuses2: Vec<ReservationStatus> = st.rows.iter().map(|r| r.status).collect();
    let active_id2 = st.active.as_ref().map(|a| a.reservation_id.clone());
    assert_eq!(statuses, statuses2);
    assert_eq!(active_id, active_id2);
}

#[test]
fn recover_loads_active_into_cache() {
    let rows = vec![raw_row(
        "res1",
        "user1",
        ReservationStatus::Active,
        "2020-01-01T00:00:00",
        "2099-12-31T23:30:00",
    )];
    let st = ReservationStore::recover(rows);
    let active = st.active.unwrap();
    assert_eq!(active.reservation_id, "res1");
    assert_eq!(active.user_id, "user1");
}

#[test]
fn recover_noop_when_no_active() {
    let rows = vec![
        raw_row(
            "p",
            "user1",
            ReservationStatus::Pending,
            "2099-01-01T00:00:00",
            "2099-01-01T01:00:00",
        ),
        raw_row(
            "c",
            "user1",
            ReservationStatus::Completed,
            "2020-01-01T00:00:00",
            "2020-01-01T01:00:00",
        ),
    ];
    let st = ReservationStore::recover(rows);
    assert!(st.active.is_none());
}

// -----------------------------------------------------------------------
// admission: reservation block, loaded-before-reserved, scopes
// -----------------------------------------------------------------------

fn active_for(user: &str) -> Option<ActiveReservation> {
    Some(ActiveReservation {
        reservation_id: "res1".into(),
        user_id: user.into(),
        end_min: minutes("2099-01-01T00:00:00"),
        user_display_name: None,
    })
}

fn table_with_loaded_m1() -> ModelTable {
    ModelTable {
        models: vec![ModelRecord {
            id: "m1".into(),
            hf_repo: "org/m1".into(),
            backend_port: Some(8080),
            loaded: true,
            category_id: Some("C".into()),
            backend_type: "llamacpp".into(),
            last_used_at: 0,
        }],
        categories: vec![CategoryRecord {
            id: "C".into(),
            name: "chat".into(),
            preferred_model_id: Some("m1".into()),
        }],
    }
}

#[test]
fn inference_allowed_without_reservation() {
    let table = table_with_loaded_m1();
    let resolved = table.resolve_model("m1", None, None);
    let r = admission_decision(resolved, &None, "bob", false);
    assert!(r.is_ok());
}

#[test]
fn inference_blocked_for_non_holder() {
    let table = table_with_loaded_m1();
    let resolved = table.resolve_model("m1", None, None);
    let r = admission_decision(resolved, &active_for("alice"), "bob", false);
    assert_eq!(r.unwrap_err(), AdmissionError::SystemReserved);
}

#[test]
fn inference_allowed_for_holder() {
    let table = table_with_loaded_m1();
    let resolved = table.resolve_model("m1", None, None);
    let r = admission_decision(resolved, &active_for("alice"), "alice", false);
    assert!(r.is_ok());
}

#[test]
fn inference_internal_token_exempt() {
    let table = table_with_loaded_m1();
    let resolved = table.resolve_model("m1", None, None);
    let r = admission_decision(resolved, &active_for("alice"), "bob", true);
    assert!(r.is_ok());
}

#[test]
fn inference_admin_token_not_exempt() {
    // Admin status grants no bypass; only the internal flag does.
    assert!(reservation_blocks(&active_for("alice"), "admin-bob", false));
}

#[test]
fn inference_unblocked_after_deactivation() {
    let table = table_with_loaded_m1();
    let resolved = table.resolve_model("m1", None, None);
    assert!(admission_decision(resolved, &None, "bob", false).is_ok());
}

#[test]
fn unloaded_model_rejected_before_reservation_check() {
    let mut table = table_with_loaded_m1();
    table.models[0].loaded = false;
    let resolved = table.resolve_model("m1", None, None);
    let r = admission_decision(resolved, &active_for("alice"), "bob", false);
    // model_not_loaded, not system_reserved
    assert_eq!(r.unwrap_err(), AdmissionError::ModelNotLoaded);
}

// -----------------------------------------------------------------------
// resolver: category scope
// -----------------------------------------------------------------------

#[test]
fn category_scope_resolves_loaded_model() {
    let table = table_with_loaded_m1();
    let r = table.resolve_model("whatever", Some("C"), None).unwrap();
    assert_eq!(r.id, "m1");
}

#[test]
fn category_scope_does_not_fall_through() {
    let mut table = table_with_loaded_m1();
    table.models[0].loaded = false;
    // preferred model is returned even unloaded, so the caller can report
    // "not loaded" rather than "not found"
    let r = table.resolve_model("whatever", Some("C"), None).unwrap();
    assert_eq!(r.id, "m1");
    assert!(!r.loaded);

    // with no preferred model and nothing loaded, the scope fails closed
    table.categories[0].preferred_model_id = None;
    let r = table.resolve_model("whatever", Some("C"), None);
    assert_eq!(r.unwrap_err(), ResolveError::CategoryEmpty);
}

#[test]
fn resolver_specific_model_precedence() {
    let table = table_with_loaded_m1();
    let r = table.resolve_model("something-else", None, Some("m1")).unwrap();
    assert_eq!(r.id, "m1");
    let r = table.resolve_model("m1", None, Some("missing"));
    assert_eq!(r.unwrap_err(), ResolveError::ModelNotFound);
}

#[test]
fn resolver_by_repo_name() {
    let table = table_with_loaded_m1();
    let r = table.resolve_model("org/m1", None, None).unwrap();
    assert_eq!(r.id, "m1");
}

#[test]
fn resolver_by_category_name() {
    let table = table_with_loaded_m1();
    let r = table.resolve_model("chat", None, None).unwrap();
    assert_eq!(r.id, "m1");
}

#[test]
fn resolver_most_recently_used_fallback() {
    let mut table = table_with_loaded_m1();
    table.categories[0].preferred_model_id = None;
    table.models.push(ModelRecord {
        id: "m2".into(),
        hf_repo: "org/m2".into(),
        backend_port: None,
        loaded: true,
        category_id: Some("C".into()),
        backend_type: "llamacpp".into(),
        last_used_at: 99,
    });
    let r = table.resolve_model("whatever", Some("C"), None).unwrap();
    assert_eq!(r.id, "m2");
}

#[test]
fn resolver_unknown_name_not_found() {
    let table = table_with_loaded_m1();
    let r = table.resolve_model("missing", None, None);
    assert_eq!(r.unwrap_err(), ResolveError::ModelNotFound);
}
