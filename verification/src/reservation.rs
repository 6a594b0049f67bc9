//! The reservation controller: exclusive-access windows over a table of
//! reservation rows, driven by user and admin requests and by a periodic
//! wall-clock tick.
//!
//! The store upholds three invariants at every step: row ids are unique, at
//! most one row is active (and the in-memory cache mirrors exactly that
//! row), and no two approved-or-active rows overlap in time. Times are whole
//! minutes from the civil epoch, on half-hour boundaries.

use vstd::prelude::*;
use vstd::string::StringSliceAdditionalSpecFns;

use crate::time::{parse_minutes, spec_datetime_of, spec_fields_valid, spec_is_datetime_shape,
    spec_minutes, spec_on_boundary};

verus! {

#[derive(Debug, Clone, Copy, PartialEq, Eq, Structural)]
pub enum ReservationStatus {
    Pending,
    Approved,
    Active,
    Completed,
    Rejected,
    Cancelled,
}

/// A reservation row.
#[derive(Debug, Clone)]
pub struct Reservation {
    pub id: String,
    pub user_id: String,
    pub status: ReservationStatus,
    /// Window start, minutes from the civil epoch.
    pub start_min: i64,
    /// Window end (exclusive), minutes from the civil epoch.
    pub end_min: i64,
    pub reason: String,
    pub admin_note: String,
    pub approved_by: Option<String>,
}

/// A reservation row joined with the holder's display data.
#[derive(Debug, Clone)]
pub struct ReservationWithUser {
    pub id: String,
    pub user_id: String,
    pub status: ReservationStatus,
    pub start_min: i64,
    pub end_min: i64,
    pub reason: String,
    pub admin_note: String,
    pub approved_by: Option<String>,
    pub user_email: Option<String>,
    pub user_display_name: Option<String>,
}

impl ReservationWithUser {
    /// Joins a row with user display data.
    pub fn from_row(row: &Reservation, user_email: Option<String>, user_display_name: Option<
        String,
    >) -> (r: ReservationWithUser)
        ensures
            r.id == row.id,
            r.user_id == row.user_id,
            r.status == row.status,
            r.start_min == row.start_min,
            r.end_min == row.end_min,
            r.reason == row.reason,
            r.admin_note == row.admin_note,
            r.approved_by == row.approved_by,
            r.user_email == user_email,
            r.user_display_name == user_display_name,
    {
        ReservationWithUser {
            id: row.id.clone(),
            user_id: row.user_id.clone(),
            status: row.status,
            start_min: row.start_min,
            end_min: row.end_min,
            reason: row.reason.clone(),
            admin_note: row.admin_note.clone(),
            approved_by: match &row.approved_by {
                Some(s) => Some(s.clone()),
                None => None,
            },
            user_email,
            user_display_name,
        }
    }
}

/// The in-memory mirror of the one active reservation.
#[derive(Debug, Clone)]
pub struct ActiveReservation {
    pub reservation_id: String,
    pub user_id: String,
    /// Window end, minutes from the civil epoch.
    pub end_min: i64,
    pub user_display_name: Option<String>,
}

/// Two half-open windows intersect (sharing only an endpoint is allowed).
pub open spec fn spec_overlaps(s1: i64, e1: i64, s2: i64, e2: i64) -> bool {
    s1 < e2 && s2 < e1
}

/// Rows that occupy their window: approved or active.
pub open spec fn spec_occupies(st: ReservationStatus) -> bool {
    st == ReservationStatus::Approved || st == ReservationStatus::Active
}

/// The reservation table plus the active-reservation cache.
#[derive(Debug)]
pub struct ReservationStore {
    pub rows: Vec<Reservation>,
    pub active: Option<ActiveReservation>,
}

impl ReservationStore {
    /// Row ids are unique.
    pub open spec fn ids_unique(self) -> bool {
        forall|i: int, j: int|
            0 <= i < j < self.rows@.len() ==> (#[trigger] self.rows@[i]).id@ != (
            #[trigger] self.rows@[j]).id@
    }

    /// At most one row is active, and the cache mirrors exactly it.
    pub open spec fn active_consistent(self) -> bool {
        &&& forall|i: int, j: int|
            0 <= i < j < self.rows@.len() ==> !((#[trigger] self.rows@[i]).status
                == ReservationStatus::Active && (#[trigger] self.rows@[j]).status
                == ReservationStatus::Active)
        &&& match self.active {
            None => forall|i: int|
                0 <= i < self.rows@.len() ==> (#[trigger] self.rows@[i]).status
                    != ReservationStatus::Active,
            Some(a) => exists|i: int|
                0 <= i < self.rows@.len() && (#[trigger] self.rows@[i]).status
                    == ReservationStatus::Active && self.rows@[i].id@ == a.reservation_id@
                    && self.rows@[i].user_id@ == a.user_id@ && self.rows@[i].end_min == a.end_min,
        }
    }

    /// No two approved-or-active rows overlap.
    pub open spec fn no_overlap(self) -> bool {
        forall|i: int, j: int|
            0 <= i < self.rows@.len() && 0 <= j < self.rows@.len() && i != j && spec_occupies(
                (#[trigger] self.rows@[i]).status,
            ) && spec_occupies((#[trigger] self.rows@[j]).status) ==> !spec_overlaps(
                self.rows@[i].start_min,
                self.rows@[i].end_min,
                self.rows@[j].start_min,
                self.rows@[j].end_min,
            )
    }

    pub open spec fn wf(self) -> bool {
        self.ids_unique() && self.active_consistent() && self.no_overlap()
    }

    /// An empty store.
    pub fn new() -> (r: ReservationStore)
        ensures
            r.wf(),
            r.rows@.len() == 0,
            r.active is None,
    {
        ReservationStore { rows: Vec::new(), active: None }
    }

    /// The index of the row with the given id, if any.
    fn find(&self, id: &str) -> (r: Option<usize>)
        ensures
            match r {
                Some(i) => i < self.rows@.len() && self.rows@[i as int].id@ == id@,
                None => forall|j: int| 0 <= j < self.rows@.len() ==> (#[trigger] self.rows@[j]).id@
                    != id@,
            },
    {
        let n = self.rows.len();
        let mut i: usize = 0;
        while i < n
            invariant
                0 <= i <= n == self.rows@.len(),
                forall|j: int| 0 <= j < i ==> (#[trigger] self.rows@[j]).id@ != id@,
            decreases n - i,
        {
            if crate::util::str_eq(self.rows[i].id.as_str(), id) {
                return Some(i);
            }
            i += 1;
        }
        None
    }

    /// Whether a `[start, end)` window overlaps any approved-or-active row
    /// other than `skip_id`.
    fn has_overlap(&self, start_min: i64, end_min: i64, skip_id: Option<&str>) -> (r: bool)
        ensures
            r == exists|i: int|
                0 <= i < self.rows@.len() && spec_occupies((#[trigger] self.rows@[i]).status)
                    && (match skip_id {
                    Some(sk) => self.rows@[i].id@ != sk@,
                    None => true,
                }) && spec_overlaps(
                    start_min,
                    end_min,
                    self.rows@[i].start_min,
                    self.rows@[i].end_min,
                ),
    {
        let n = self.rows.len();
        let mut i: usize = 0;
        while i < n
            invariant
                0 <= i <= n == self.rows@.len(),
                forall|j: int|
                    0 <= j < i ==> !(spec_occupies((#[trigger] self.rows@[j]).status) && (
                    match skip_id {
                        Some(sk) => self.rows@[j].id@ != sk@,
                        None => true,
                    }) && spec_overlaps(
                        start_min,
                        end_min,
                        self.rows@[j].start_min,
                        self.rows@[j].end_min,
                    )),
            decreases n - i,
        {
            let row = &self.rows[i];
            let occupies = match row.status {
                ReservationStatus::Approved => true,
                ReservationStatus::Active => true,
                _ => false,
            };
            let skipped = match skip_id {
                Some(sk) => crate::util::str_eq(row.id.as_str(), sk),
                None => false,
            };
            if occupies && !skipped && row.start_min < end_min && start_min < row.end_min {
                return true;
            }
            i += 1;
        }
        false
    }
}

/// Why a reservation request or transition was refused.
#[derive(Debug, Clone, Copy, PartialEq, Eq, Structural)]
pub enum ReservationError {
    InvalidStart,
    InvalidEnd,
    NotOnBoundary,
    EndNotAfterStart,
    TooShort,
    StartInPast,
    Overlap,
    ReasonTooLong,
    DuplicateId,
    NoteTooLong,
    NotFound,
    NotPending,
    NotApproved,
    AlreadyActive,
    ActiveRow,
}

/// Longest accepted reason or note, in bytes.
pub open spec fn spec_max_note() -> int {
    4096
}

/// A well-formed, boundary-aligned, future window parsed from the request.
pub open spec fn spec_time_ok(s: Seq<char>) -> bool {
    spec_is_datetime_shape(s) && spec_fields_valid(spec_datetime_of(s))
}

/// The first check a creation request fails, if any. Checks run in order:
/// time formats, half-hour boundaries, window shape, future start, overlap
/// with any approved-or-active row, reason length, and id freshness.
pub open spec fn spec_create_refusal(
    rows: Seq<Reservation>,
    id: Seq<char>,
    start_s: Seq<char>,
    end_s: Seq<char>,
    reason_bytes: int,
    now_min: int,
) -> Option<ReservationError> {
    if !spec_time_ok(start_s) {
        Some(ReservationError::InvalidStart)
    } else if !spec_time_ok(end_s) {
        Some(ReservationError::InvalidEnd)
    } else {
        let sdt = spec_datetime_of(start_s);
        let edt = spec_datetime_of(end_s);
        let smin = spec_minutes(sdt);
        let emin = spec_minutes(edt);
        if !(spec_on_boundary(sdt) && spec_on_boundary(edt)) {
            Some(ReservationError::NotOnBoundary)
        } else if emin <= smin {
            Some(ReservationError::EndNotAfterStart)
        } else if emin - smin < 30 {
            Some(ReservationError::TooShort)
        } else if smin <= now_min {
            Some(ReservationError::StartInPast)
        } else if exists|i: int|
            0 <= i < rows.len() && spec_occupies((#[trigger] rows[i]).status) && spec_overlaps(
                smin as i64,
                emin as i64,
                rows[i].start_min,
                rows[i].end_min,
            ) {
            Some(ReservationError::Overlap)
        } else if reason_bytes > spec_max_note() {
            Some(ReservationError::ReasonTooLong)
        } else if exists|i: int| 0 <= i < rows.len() && (#[trigger] rows[i]).id@ == id {
            Some(ReservationError::DuplicateId)
        } else {
            None
        }
    }
}

impl ReservationStore {
    /// Creates a pending reservation for `[start_time, end_time)`, after
    /// validating format, boundaries, duration, future start, and overlap.
    pub fn create(
        &mut self,
        id: &str,
        user_id: &str,
        start_time: &str,
        end_time: &str,
        reason: &str,
        now_min: i64,
    ) -> (r: Result<(), ReservationError>)
        requires
            old(self).wf(),
        ensures
            final(self).wf(),
            match r {
                Err(e) => Some(e) == spec_create_refusal(
                    old(self).rows@,
                    id@,
                    start_time@,
                    end_time@,
                    (reason.spec_bytes().len() as usize) as int,
                    now_min as int,
                ) && *final(self) == *old(self),
                Ok(_) => {
                    &&& spec_create_refusal(
                        old(self).rows@,
                        id@,
                        start_time@,
                        end_time@,
                        (reason.spec_bytes().len() as usize) as int,
                        now_min as int,
                    ) is None
                    &&& final(self).rows@.len() == old(self).rows@.len() + 1
                    &&& forall|i: int|
                        0 <= i < old(self).rows@.len() ==> final(self).rows@[i] == old(self).rows@[i]
                    &&& final(self).rows@.last().id@ == id@
                    &&& final(self).rows@.last().user_id@ == user_id@
                    &&& final(self).rows@.last().status == ReservationStatus::Pending
                    &&& final(self).rows@.last().start_min == spec_minutes(
                        spec_datetime_of(start_time@),
                    )
                    &&& final(self).rows@.last().end_min == spec_minutes(
                        spec_datetime_of(end_time@),
                    )
                    &&& final(self).rows@.last().reason@ == reason@
                    &&& final(self).rows@.last().admin_note@.len() == 0
                    &&& final(self).rows@.last().approved_by is None
                    &&& final(self).active == old(self).active
                },
            },
    {
        let s = match parse_minutes(start_time) {
            Some(p) => p,
            None => {
                return Err(ReservationError::InvalidStart);
            },
        };
        let e = match parse_minutes(end_time) {
            Some(p) => p,
            None => {
                return Err(ReservationError::InvalidEnd);
            },
        };
        if !(s.1 && e.1) {
            return Err(ReservationError::NotOnBoundary);
        }
        if e.0 <= s.0 {
            return Err(ReservationError::EndNotAfterStart);
        }
        if e.0 - s.0 < 30 {
            return Err(ReservationError::TooShort);
        }
        if s.0 <= now_min {
            return Err(ReservationError::StartInPast);
        }
        if self.has_overlap(s.0, e.0, None) {
            return Err(ReservationError::Overlap);
        }
        if reason.len() > 4096 {
            return Err(ReservationError::ReasonTooLong);
        }
        if self.find(id).is_some() {
            return Err(ReservationError::DuplicateId);
        }
        let ghost orig = self.rows@;
        let row = Reservation {
            id: String::from_str(id),
            user_id: String::from_str(user_id),
            status: ReservationStatus::Pending,
            start_min: s.0,
            end_min: e.0,
            reason: String::from_str(reason),
            admin_note: String::new(),
            approved_by: None,
        };
        self.rows.push(row);
        proof {
            let now = self.rows@;
            assert(now.drop_last() =~= orig);
            assert forall|i: int, j: int| 0 <= i < j < now.len() implies (
            #[trigger] now[i]).id@ != (#[trigger] now[j]).id@ by {
                if j < now.len() - 1 {
                    assert(now[i] == orig[i] && now[j] == orig[j]);
                } else {
                    assert(now[i] == orig[i]);
                }
            }
            lemma_statuses_keep_consistency(orig, now, old(self).active, self.active);
            assert forall|i: int, j: int|
                0 <= i < now.len() && 0 <= j < now.len() && i != j && spec_occupies(
                    (#[trigger] now[i]).status,
                ) && spec_occupies((#[trigger] now[j]).status) implies !spec_overlaps(
                now[i].start_min,
                now[i].end_min,
                now[j].start_min,
                now[j].end_min,
            ) by {
                assert(i < now.len() - 1 && j < now.len() - 1);
                assert(now[i] == orig[i] && now[j] == orig[j]);
            }
        }
        Ok(())
    }
}

/// The first check an approval fails, if any: note length, existence,
/// pending status, then overlap against every other approved-or-active row.
pub open spec fn spec_approve_refusal(rows: Seq<Reservation>, id: Seq<char>, note_bytes: int) -> Option<
    ReservationError,
> {
    if note_bytes > spec_max_note() {
        Some(ReservationError::NoteTooLong)
    } else if !exists|i: int| 0 <= i < rows.len() && (#[trigger] rows[i]).id@ == id {
        Some(ReservationError::NotFound)
    } else {
        let i = choose|i: int| 0 <= i < rows.len() && (#[trigger] rows[i]).id@ == id;
        if rows[i].status != ReservationStatus::Pending {
            Some(ReservationError::NotPending)
        } else if exists|j: int|
            0 <= j < rows.len() && spec_occupies((#[trigger] rows[j]).status) && rows[j].id@ != id
                && spec_overlaps(
                rows[i].start_min,
                rows[i].end_min,
                rows[j].start_min,
                rows[j].end_min,
            ) {
            Some(ReservationError::Overlap)
        } else {
            None
        }
    }
}

impl ReservationStore {
    /// Replaces row `i` wholesale; the cache is untouched.
    fn set_row(&mut self, i: usize, row: Reservation)
        requires
            i < old(self).rows@.len(),
        ensures
            final(self).rows@ == old(self).rows@.update(i as int, row),
            final(self).active == old(self).active,
    {
        let ghost orig = self.rows@;
        self.rows.remove(i);
        self.rows.insert(i, row);
        proof {
            assert(self.rows@ =~= orig.update(i as int, row));
        }
    }

    /// Cancels the caller's own pending or approved reservation. Anything
    /// else — an unknown id, someone else's row, or a row in another state —
    /// reports not-found.
    pub fn cancel_own(&mut self, id: &str, user_id: &str) -> (r: Result<(), ReservationError>)
        requires
            old(self).wf(),
        ensures
            final(self).wf(),
            final(self).active == old(self).active,
            final(self).rows@.len() == old(self).rows@.len(),
            match r {
                Err(e) => e == ReservationError::NotFound && *final(self) == *old(self) && !exists|
                    i: int,
                |
                    0 <= i < old(self).rows@.len() && (#[trigger] old(self).rows@[i]).id@ == id@
                        && old(self).rows@[i].user_id@ == user_id@ && (old(self).rows@[i].status
                        == ReservationStatus::Pending || old(self).rows@[i].status
                        == ReservationStatus::Approved),
                Ok(_) => exists|i: int|
                    {
                        &&& 0 <= i < old(self).rows@.len()
                        &&& (#[trigger] old(self).rows@[i]).id@ == id@
                        &&& old(self).rows@[i].user_id@ == user_id@
                        &&& (old(self).rows@[i].status == ReservationStatus::Pending || old(self).rows@[i].status == ReservationStatus::Approved)
                        &&& final(self).rows@[i].status == ReservationStatus::Cancelled
                        &&& same_row_but_status(old(self).rows@[i], final(self).rows@[i])
                        &&& forall|j: int|
                            0 <= j < old(self).rows@.len() && j != i ==> final(self).rows@[j]
                                == old(self).rows@[j]
                    },
            },
    {
        let found = self.find(id);
        let i = match found {
            Some(i) => i,
            None => {
                return Err(ReservationError::NotFound);
            },
        };
        let row = &self.rows[i];
        let cancellable = match row.status {
            ReservationStatus::Pending => true,
            ReservationStatus::Approved => true,
            _ => false,
        };
        if !(cancellable && crate::util::str_eq(row.user_id.as_str(), user_id)) {
            proof {
                assert forall|j: int|
                    0 <= j < self.rows@.len() && (#[trigger] self.rows@[j]).id@ == id@ implies j
                    == i as int by {
                    if j != i as int {
                        assert(self.rows@[j].id@ != self.rows@[i as int].id@);
                    }
                }
            }
            return Err(ReservationError::NotFound);
        }
        let ghost orig = self.rows@;
        let new_row = Reservation { status: ReservationStatus::Cancelled, ..self.rows[i].clone_row() };
        self.set_row(i, new_row);
        proof {
            lemma_wf_update_unobtrusive(orig, self.rows@, old(self).active, i as int);
        }
        Ok(())
    }

    /// Approves a pending reservation, unless its window would overlap
    /// another approved or active one.
    pub fn approve(&mut self, id: &str, note: &str, approved_by: &str) -> (r: Result<
        (),
        ReservationError,
    >)
        requires
            old(self).wf(),
        ensures
            final(self).wf(),
            final(self).active == old(self).active,
            match r {
                Err(e) => *final(self) == *old(self) && Some(e) == spec_approve_refusal(
                    old(self).rows@,
                    id@,
                    (note.spec_bytes().len() as usize) as int,
                ),
                Ok(_) => spec_approve_refusal(
                    old(self).rows@,
                    id@,
                    (note.spec_bytes().len() as usize) as int,
                ) is None && exists|i: int|
                    {
                        &&& 0 <= i < old(self).rows@.len()
                        &&& (#[trigger] old(self).rows@[i]).id@ == id@
                        &&& final(self).rows@[i].status == ReservationStatus::Approved
                        &&& final(self).rows@[i].admin_note@ == note@
                        &&& final(self).rows@[i].approved_by matches Some(a) && a@ == approved_by@
                        &&& same_row_core(old(self).rows@[i], final(self).rows@[i])
                        &&& forall|j: int|
                            0 <= j < old(self).rows@.len() && j != i ==> final(self).rows@[j]
                                == old(self).rows@[j]
                    },
            },
    {
        if note.len() > 4096 {
            return Err(ReservationError::NoteTooLong);
        }
        let found = self.find(id);
        let i = match found {
            Some(i) => i,
            None => {
                return Err(ReservationError::NotFound);
            },
        };
        proof {
            assert forall|j: int|
                0 <= j < self.rows@.len() && (#[trigger] self.rows@[j]).id@ == id@ implies j
                == i as int by {
                if j != i as int {
                    assert(self.rows@[j].id@ != self.rows@[i as int].id@);
                }
            }
        }
        let pending = match self.rows[i].status {
            ReservationStatus::Pending => true,
            _ => false,
        };
        if !pending {
            return Err(ReservationError::NotPending);
        }
        let start = self.rows[i].start_min;
        let end = self.rows[i].end_min;
        if self.has_overlap(start, end, Some(id)) {
            return Err(ReservationError::Overlap);
        }
        let ghost orig = self.rows@;
        let new_row = Reservation {
            status: ReservationStatus::Approved,
            admin_note: String::from_str(note),
            approved_by: Some(String::from_str(approved_by)),
            ..self.rows[i].clone_row()
        };
        self.set_row(i, new_row);
        proof {
            let now = self.rows@;
            lemma_ids_unique_update(orig, now, i as int);
            lemma_consistency_update(orig, now, old(self).active, i as int);
            assert forall|a: int, b: int|
                0 <= a < now.len() && 0 <= b < now.len() && a != b && spec_occupies(
                    (#[trigger] now[a]).status,
                ) && spec_occupies((#[trigger] now[b]).status) implies !spec_overlaps(
                now[a].start_min,
                now[a].end_min,
                now[b].start_min,
                now[b].end_min,
            ) by {
                if a != i as int && b != i as int {
                    assert(now[a] == orig[a] && now[b] == orig[b]);
                } else if a == i as int {
                    assert(now[b] == orig[b]);
                    assert(orig[b].id@ != id@);
                } else {
                    assert(now[a] == orig[a]);
                    assert(orig[a].id@ != id@);
                }
            }
        }
        Ok(())
    }

    /// Rejects a pending reservation.
    pub fn reject(&mut self, id: &str, note: &str) -> (r: Result<(), ReservationError>)
        requires
            old(self).wf(),
        ensures
            final(self).wf(),
            final(self).active == old(self).active,
            match r {
                Err(e) => *final(self) == *old(self) && ((e == ReservationError::NoteTooLong && (
                note.spec_bytes().len() as usize) > 4096) || (e == ReservationError::NotFound && (
                note.spec_bytes().len() as usize) <= 4096 && !exists|i: int|
                    0 <= i < old(self).rows@.len() && (#[trigger] old(self).rows@[i]).id@ == id@
                        && old(self).rows@[i].status == ReservationStatus::Pending)),
                Ok(_) => (note.spec_bytes().len() as usize) <= 4096 && exists|i: int|
                    {
                        &&& 0 <= i < old(self).rows@.len()
                        &&& (#[trigger] old(self).rows@[i]).id@ == id@
                        &&& old(self).rows@[i].status == ReservationStatus::Pending
                        &&& final(self).rows@[i].status == ReservationStatus::Rejected
                        &&& final(self).rows@[i].admin_note@ == note@
                        &&& same_row_core(old(self).rows@[i], final(self).rows@[i])
                        &&& final(self).rows@[i].approved_by == old(self).rows@[i].approved_by
                        &&& forall|j: int|
                            0 <= j < old(self).rows@.len() && j != i ==> final(self).rows@[j]
                                == old(self).rows@[j]
                    },
            },
    {
        if note.len() > 4096 {
            return Err(ReservationError::NoteTooLong);
        }
        let found = self.find(id);
        let i = match found {
            Some(i) => i,
            None => {
                return Err(ReservationError::NotFound);
            },
        };
        proof {
            assert forall|j: int|
                0 <= j < self.rows@.len() && (#[trigger] self.rows@[j]).id@ == id@ implies j
                == i as int by {
                if j != i as int {
                    assert(self.rows@[j].id@ != self.rows@[i as int].id@);
                }
            }
        }
        let pending = match self.rows[i].status {
            ReservationStatus::Pending => true,
            _ => false,
        };
        if !pending {
            return Err(ReservationError::NotFound);
        }
        let ghost orig = self.rows@;
        let old_approved_by = match &self.rows[i].approved_by {
            Some(s) => Some(s.clone()),
            None => None,
        };
        let new_row = Reservation {
            status: ReservationStatus::Rejected,
            admin_note: String::from_str(note),
            approved_by: old_approved_by,
            ..self.rows[i].clone_row()
        };
        self.set_row(i, new_row);
        proof {
            lemma_wf_update_unobtrusive(orig, self.rows@, old(self).active, i as int);
        }
        Ok(())
    }

    /// Immediately activates an approved reservation, refusing when another
    /// reservation is already active.
    pub fn force_activate(&mut self, id: &str, user_display_name: Option<String>) -> (r: Result<
        (),
        ReservationError,
    >)
        requires
            old(self).wf(),
        ensures
            final(self).wf(),
            match r {
                Err(e) => *final(self) == *old(self) && ((e == ReservationError::AlreadyActive
                    && old(self).active is Some) || (e == ReservationError::NotFound && old(self).active is None && !exists|i: int|
                    0 <= i < old(self).rows@.len() && (#[trigger] old(self).rows@[i]).id@ == id@
                        && old(self).rows@[i].status == ReservationStatus::Approved)),
                Ok(_) => old(self).active is None && exists|i: int|
                    {
                        &&& 0 <= i < old(self).rows@.len()
                        &&& (#[trigger] old(self).rows@[i]).id@ == id@
                        &&& old(self).rows@[i].status == ReservationStatus::Approved
                        &&& final(self).rows@[i].status == ReservationStatus::Active
                        &&& same_row_but_status(old(self).rows@[i], final(self).rows@[i])
                        &&& forall|j: int|
                            0 <= j < old(self).rows@.len() && j != i ==> final(self).rows@[j]
                                == old(self).rows@[j]
                        &&& final(self).active matches Some(a) && a.reservation_id@ == id@
                            && a.user_id@ == old(self).rows@[i].user_id@ && a.end_min == old(self).rows@[i].end_min && a.user_display_name == user_display_name
                    },
            },
    {
        if self.active.is_some() {
            return Err(ReservationError::AlreadyActive);
        }
        let found = self.find(id);
        let i = match found {
            Some(i) => i,
            None => {
                return Err(ReservationError::NotFound);
            },
        };
        proof {
            assert forall|j: int|
                0 <= j < self.rows@.len() && (#[trigger] self.rows@[j]).id@ == id@ implies j
                == i as int by {
                if j != i as int {
                    assert(self.rows@[j].id@ != self.rows@[i as int].id@);
                }
            }
        }
        let approved = match self.rows[i].status {
            ReservationStatus::Approved => true,
            _ => false,
        };
        if !approved {
            return Err(ReservationError::NotFound);
        }
        let ghost orig = self.rows@;
        let act = ActiveReservation {
            reservation_id: self.rows[i].id.clone(),
            user_id: self.rows[i].user_id.clone(),
            end_min: self.rows[i].end_min,
            user_display_name,
        };
        let new_row = Reservation { status: ReservationStatus::Active, ..self.rows[i].clone_row() };
        self.set_row(i, new_row);
        self.active = Some(act);
        proof {
            let now = self.rows@;
            lemma_ids_unique_update(orig, now, i as int);
            assert forall|a: int, b: int| 0 <= a < b < now.len() implies !((
            #[trigger] now[a]).status == ReservationStatus::Active && (#[trigger] now[b]).status
                == ReservationStatus::Active) by {
                if a != i as int {
                    assert(now[a] == orig[a]);
                    assert(orig[a].status != ReservationStatus::Active);
                }
                if b != i as int {
                    assert(now[b] == orig[b]);
                    assert(orig[b].status != ReservationStatus::Active);
                }
            }
            assert(now[i as int].status == ReservationStatus::Active && now[i as int].id@ == id@);
            assert forall|a: int, b: int|
                0 <= a < now.len() && 0 <= b < now.len() && a != b && spec_occupies(
                    (#[trigger] now[a]).status,
                ) && spec_occupies((#[trigger] now[b]).status) implies !spec_overlaps(
                now[a].start_min,
                now[a].end_min,
                now[b].start_min,
                now[b].end_min,
            ) by {
                let aa = if a == i as int {
                    orig[a]
                } else {
                    orig[a]
                };
                assert(spec_occupies(orig[a].status) && spec_occupies(orig[b].status));
            }
        }
        Ok(())
    }

    /// Ends an active reservation early and clears the cache.
    pub fn force_deactivate(&mut self, id: &str) -> (r: Result<(), ReservationError>)
        requires
            old(self).wf(),
        ensures
            final(self).wf(),
            match r {
                Err(e) => *final(self) == *old(self) && e == ReservationError::NotFound && !exists|
                    i: int,
                |
                    0 <= i < old(self).rows@.len() && (#[trigger] old(self).rows@[i]).id@ == id@
                        && old(self).rows@[i].status == ReservationStatus::Active,
                Ok(_) => final(self).active is None && exists|i: int|
                    {
                        &&& 0 <= i < old(self).rows@.len()
                        &&& (#[trigger] old(self).rows@[i]).id@ == id@
                        &&& old(self).rows@[i].status == ReservationStatus::Active
                        &&& final(self).rows@[i].status == ReservationStatus::Completed
                        &&& final(self).rows@[i].admin_note@ == "Ended early by admin"@
                        &&& same_row_core(old(self).rows@[i], final(self).rows@[i])
                        &&& final(self).rows@[i].approved_by == old(self).rows@[i].approved_by
                        &&& forall|j: int|
                            0 <= j < old(self).rows@.len() && j != i ==> final(self).rows@[j]
                                == old(self).rows@[j]
                    },
            },
    {
        let found = self.find(id);
        let i = match found {
            Some(i) => i,
            None => {
                return Err(ReservationError::NotFound);
            },
        };
        proof {
            assert forall|j: int|
                0 <= j < self.rows@.len() && (#[trigger] self.rows@[j]).id@ == id@ implies j
                == i as int by {
                if j != i as int {
                    assert(self.rows@[j].id@ != self.rows@[i as int].id@);
                }
            }
        }
        let active_row = match self.rows[i].status {
            ReservationStatus::Active => true,
            _ => false,
        };
        if !active_row {
            return Err(ReservationError::NotFound);
        }
        let ghost orig = self.rows@;
        let old_approved_by = match &self.rows[i].approved_by {
            Some(s) => Some(s.clone()),
            None => None,
        };
        let new_row = Reservation {
            status: ReservationStatus::Completed,
            admin_note: String::from_str("Ended early by admin"),
            approved_by: old_approved_by,
            ..self.rows[i].clone_row()
        };
        self.set_row(i, new_row);
        self.active = None;
        proof {
            let now = self.rows@;
            lemma_ids_unique_update(orig, now, i as int);
            assert forall|a: int| 0 <= a < now.len() implies (#[trigger] now[a]).status
                != ReservationStatus::Active by {
                if a != i as int {
                    assert(now[a] == orig[a]);
                    if orig[a].status == ReservationStatus::Active {
                        assert(orig[i as int].status == ReservationStatus::Active);
                    }
                }
            }
            assert forall|a: int, b: int|
                0 <= a < now.len() && 0 <= b < now.len() && a != b && spec_occupies(
                    (#[trigger] now[a]).status,
                ) && spec_occupies((#[trigger] now[b]).status) implies !spec_overlaps(
                now[a].start_min,
                now[a].end_min,
                now[b].start_min,
                now[b].end_min,
            ) by {
                assert(a != i as int && b != i as int);
                assert(now[a] == orig[a] && now[b] == orig[b]);
            }
        }
        Ok(())
    }

    /// Deletes a reservation row. Active rows must be deactivated first.
    pub fn delete(&mut self, id: &str) -> (r: Result<(), ReservationError>)
        requires
            old(self).wf(),
        ensures
            final(self).wf(),
            final(self).active == old(self).active,
            match r {
                Err(e) => *final(self) == *old(self) && ((e == ReservationError::ActiveRow
                    && exists|i: int|
                    0 <= i < old(self).rows@.len() && (#[trigger] old(self).rows@[i]).id@ == id@
                        && old(self).rows@[i].status == ReservationStatus::Active) || (e
                    == ReservationError::NotFound && !exists|i: int|
                    0 <= i < old(self).rows@.len() && (#[trigger] old(self).rows@[i]).id@ == id@)),
                Ok(_) => exists|i: int|
                    {
                        &&& 0 <= i < old(self).rows@.len()
                        &&& (#[trigger] old(self).rows@[i]).id@ == id@
                        &&& old(self).rows@[i].status != ReservationStatus::Active
                        &&& final(self).rows@ == old(self).rows@.remove(i)
                    },
            },
    {
        let found = self.find(id);
        let i = match found {
            Some(i) => i,
            None => {
                return Err(ReservationError::NotFound);
            },
        };
        let active_row = match self.rows[i].status {
            ReservationStatus::Active => true,
            _ => false,
        };
        if active_row {
            return Err(ReservationError::ActiveRow);
        }
        let ghost orig = self.rows@;
        self.rows.remove(i);
        proof {
            let now = self.rows@;
            assert forall|a: int, b: int| 0 <= a < b < now.len() implies (
            #[trigger] now[a]).id@ != (#[trigger] now[b]).id@ by {
                let aa = if a < i as int {
                    a
                } else {
                    a + 1
                };
                let bb = if b < i as int {
                    b
                } else {
                    b + 1
                };
                assert(now[a] == orig[aa] && now[b] == orig[bb]);
            }
            assert forall|a: int, b: int| 0 <= a < b < now.len() implies !((
            #[trigger] now[a]).status == ReservationStatus::Active && (#[trigger] now[b]).status
                == ReservationStatus::Active) by {
                let aa = if a < i as int {
                    a
                } else {
                    a + 1
                };
                let bb = if b < i as int {
                    b
                } else {
                    b + 1
                };
                assert(now[a] == orig[aa] && now[b] == orig[bb]);
            }
            match old(self).active {
                None => {
                    assert forall|a: int| 0 <= a < now.len() implies (#[trigger] now[a]).status
                        != ReservationStatus::Active by {
                        let aa = if a < i as int {
                            a
                        } else {
                            a + 1
                        };
                        assert(now[a] == orig[aa]);
                    }
                },
                Some(act) => {
                    let w = choose|w: int|
                        0 <= w < orig.len() && (#[trigger] orig[w]).status
                            == ReservationStatus::Active && orig[w].id@ == act.reservation_id@
                            && orig[w].user_id@ == act.user_id@ && orig[w].end_min == act.end_min;
                    assert(w != i as int);
                    let w2 = if w < i as int {
                        w
                    } else {
                        w - 1
                    };
                    assert(now[w2] == orig[w]);
                },
            }
            assert forall|a: int, b: int|
                0 <= a < now.len() && 0 <= b < now.len() && a != b && spec_occupies(
                    (#[trigger] now[a]).status,
                ) && spec_occupies((#[trigger] now[b]).status) implies !spec_overlaps(
                now[a].start_min,
                now[a].end_min,
                now[b].start_min,
                now[b].end_min,
            ) by {
                let aa = if a < i as int {
                    a
                } else {
                    a + 1
                };
                let bb = if b < i as int {
                    b
                } else {
                    b + 1
                };
                assert(now[a] == orig[aa] && now[b] == orig[bb]);
            }
        }
        Ok(())
    }
}

/// The row is active and its window has ended.
pub open spec fn spec_completes(r: Reservation, now: int) -> bool {
    r.status == ReservationStatus::Active && r.end_min <= now
}

/// The row is pending and its start has passed without approval.
pub open spec fn spec_cancels(r: Reservation, now: int) -> bool {
    r.status == ReservationStatus::Pending && r.start_min <= now
}

/// The row is approved and `now` lies inside its window.
pub open spec fn spec_activatable(r: Reservation, now: int) -> bool {
    r.status == ReservationStatus::Approved && r.start_min <= now && now < r.end_min
}

/// The cache is empty, or its reservation's window has ended.
pub open spec fn spec_cache_cleared(active: Option<ActiveReservation>, now: int) -> bool {
    match active {
        None => true,
        Some(a) => a.end_min <= now,
    }
}

/// `i` is the first activatable row with the earliest start among the
/// first `j` rows.
pub open spec fn spec_prefix_chosen(rows: Seq<Reservation>, now: int, i: int, j: int) -> bool {
    &&& 0 <= i < rows.len()
    &&& spec_activatable(rows[i], now)
    &&& forall|t: int|
        0 <= t < j && t < rows.len() && spec_activatable(#[trigger] rows[t], now) ==> (
        rows[i].start_min < rows[t].start_min || (rows[i].start_min == rows[t].start_min && i
            <= t))
}

/// `i` is the first activatable row with the earliest start.
pub open spec fn spec_chosen(rows: Seq<Reservation>, now: int, i: int) -> bool {
    &&& 0 <= i < rows.len()
    &&& spec_activatable(rows[i], now)
    &&& forall|j: int|
        0 <= j < rows.len() && spec_activatable(#[trigger] rows[j], now) ==> (rows[i].start_min
            < rows[j].start_min || (rows[i].start_min == rows[j].start_min && i <= j))
}

/// An activation will occur: the cache clears and a row is due.
pub open spec fn spec_tick_activates(
    rows: Seq<Reservation>,
    active: Option<ActiveReservation>,
    now: int,
) -> bool {
    spec_cache_cleared(active, now) && exists|i: int|
        0 <= i < rows.len() && spec_activatable(#[trigger] rows[i], now)
}

/// The full effect of one reservation tick: how each row of `pre` appears
/// in `post`, what the cache becomes, and whether anything changed.
pub open spec fn spec_tick_rel(
    pre: ReservationStore,
    post: ReservationStore,
    changed: bool,
    now: int,
) -> bool {
    &&& post.rows@.len() == pre.rows@.len()
    &&& forall|i: int|
        0 <= i < pre.rows@.len() ==> {
            let o = #[trigger] pre.rows@[i];
            let f = post.rows@[i];
            if spec_completes(o, now) {
                f.status == ReservationStatus::Completed && same_row_but_status(o, f)
            } else if spec_tick_activates(pre.rows@, pre.active, now) && spec_chosen(
                pre.rows@,
                now,
                i,
            ) {
                f.status == ReservationStatus::Active && same_row_but_status(o, f)
            } else if spec_cancels(o, now) {
                f.status == ReservationStatus::Cancelled && f.admin_note@
                    == "Auto-cancelled: start time passed without approval"@ && same_row_core(o, f)
                    && f.approved_by == o.approved_by
            } else {
                f == o
            }
        }
    &&& if spec_tick_activates(pre.rows@, pre.active, now) {
        exists|i: int|
            #[trigger] spec_chosen(pre.rows@, now, i) && (post.active matches Some(a)
                && a.reservation_id@ == pre.rows@[i].id@ && a.user_id@ == pre.rows@[i].user_id@
                && a.end_min == pre.rows@[i].end_min && a.user_display_name is None)
    } else if spec_cache_cleared(pre.active, now) {
        post.active is None
    } else {
        post.active == pre.active
    }
    &&& changed == ((exists|i: int|
        spec_completes(#[trigger] pre.rows@[i], now) && 0 <= i < pre.rows@.len())
        || spec_tick_activates(pre.rows@, pre.active, now) || (exists|i: int|
        spec_cancels(#[trigger] pre.rows@[i], now) && 0 <= i < pre.rows@.len()))
}

impl ReservationStore {
    /// One pass of the reservation clock: completes the active reservation
    /// whose window ended, activates the earliest approved reservation whose
    /// window contains `now` (when nothing is active), and cancels pending
    /// requests whose start passed without approval. Returns whether any
    /// row changed.
    #[verifier::rlimit(60)]
    pub fn tick(&mut self, now_min: i64) -> (changed: bool)
        requires
            old(self).wf(),
        ensures
            final(self).wf(),
            spec_tick_rel(*old(self), *final(self), changed, now_min as int),
    {
        let ghost orig = self.rows@;
        let ghost now_i = now_min as int;
        let n = self.rows.len();
        // Pass 1: complete the active reservation whose window has ended.
        let mut any_completed = false;
        let mut i: usize = 0;
        while i < n
            invariant
                0 <= i <= n == self.rows@.len(),
                orig == old(self).rows@,
                now_i == now_min as int,
                old(self).wf(),
                self.active == old(self).active,
                n == orig.len(),
                forall|j: int|
                    0 <= j < i ==> if spec_completes(#[trigger] orig[j], now_i) {
                        self.rows@[j].status == ReservationStatus::Completed
                            && same_row_but_status(orig[j], self.rows@[j])
                    } else {
                        self.rows@[j] == orig[j]
                    },
                forall|j: int| i <= j < n ==> self.rows@[j] == #[trigger] orig[j],
                any_completed == exists|j: int|
                    0 <= j < i && spec_completes(#[trigger] orig[j], now_i),
            decreases n - i,
        {
            let is_active = match self.rows[i].status {
                ReservationStatus::Active => true,
                _ => false,
            };
            if is_active && self.rows[i].end_min <= now_min {
                let new_row = Reservation {
                    status: ReservationStatus::Completed,
                    ..self.rows[i].clone_row()
                };
                self.set_row(i, new_row);
                any_completed = true;
                proof {
                    assert(spec_completes(orig[i as int], now_i));
                }
            }
            i += 1;
        }
        if any_completed {
            self.active = None;
        }
        proof {
            // A completion happens exactly when the cached reservation's
            // window has ended.
            lemma_completion_matches_cache(orig, old(self).active, now_i);
        }
        let ghost rows1 = self.rows@;
        let ghost cache1 = self.active;
        proof {
            assert forall|t: int| 0 <= t < n implies (#[trigger] rows1[t]).start_min
                == orig[t].start_min && rows1[t].end_min == orig[t].end_min && spec_activatable(
                rows1[t],
                now_i,
            ) == spec_activatable(orig[t], now_i) && spec_cancels(rows1[t], now_i) == spec_cancels(
                orig[t],
                now_i,
            ) && same_row_core(orig[t], rows1[t]) && rows1[t].approved_by == orig[t].approved_by by {
                if spec_completes(orig[t], now_i) {
                } else {
                    assert(rows1[t] == orig[t]);
                }
            }
        }
        // Pass 2: activate the earliest approved reservation that is due.
        let mut activated = false;
        if self.active.is_none() {
            let mut best: usize = n;
            let mut j: usize = 0;
            while j < n
                invariant
                    0 <= j <= n == self.rows@.len(),
                    orig == old(self).rows@,
                    now_i == now_min as int,
                    n == orig.len(),
                    self.rows@ == rows1,
                    forall|t: int|
                        0 <= t < n ==> spec_activatable(#[trigger] self.rows@[t], now_i)
                            == spec_activatable(orig[t], now_i),
                    forall|t: int|
                        0 <= t < n ==> (#[trigger] self.rows@[t]).start_min == orig[t].start_min
                            && self.rows@[t].end_min == orig[t].end_min,
                    best == n || (best < n && spec_prefix_chosen(orig, now_i, best as int, j as int)),
                    best == n ==> forall|t: int|
                        0 <= t < j ==> !spec_activatable(#[trigger] orig[t], now_i),
                    best < n ==> best < j,
                decreases n - j,
            {
                let is_approved = match self.rows[j].status {
                    ReservationStatus::Approved => true,
                    _ => false,
                };
                let due = is_approved && self.rows[j].start_min <= now_min && now_min
                    < self.rows[j].end_min;
                proof {
                    assert(due == spec_activatable(orig[j as int], now_i));
                }
                if due {
                    if best == n {
                        best = j;
                    } else if self.rows[j].start_min < self.rows[best].start_min {
                        best = j;
                    }
                }
                proof {
                    if best < n {
                        assert forall|t: int|
                            0 <= t < j + 1 && t < n && spec_activatable(
                                #[trigger] orig[t],
                                now_i,
                            ) implies (orig[best as int].start_min < orig[t].start_min || (orig[
                            best as int
                        ].start_min == orig[t].start_min && best <= t)) by {}
                    }
                }
                j += 1;
            }
            if best < n {
                let act = ActiveReservation {
                    reservation_id: self.rows[best].id.clone(),
                    user_id: self.rows[best].user_id.clone(),
                    end_min: self.rows[best].end_min,
                    user_display_name: None,
                };
                let new_row = Reservation {
                    status: ReservationStatus::Active,
                    ..self.rows[best].clone_row()
                };
                self.set_row(best, new_row);
                self.active = Some(act);
                activated = true;
                proof {
                    assert(spec_chosen(orig, now_i, best as int));
                }
            }
        }
        proof {
            assert(spec_cache_cleared(old(self).active, now_i) == (cache1 is None));
            assert(activated == spec_tick_activates(orig, old(self).active, now_i));
        }
        let ghost rows2 = self.rows@;
        let ghost cache2 = self.active;
        let ghost bchosen: int = if activated {
            choose|b: int| #[trigger] spec_chosen(orig, now_i, b) && rows2[b].status == ReservationStatus::Active && same_row_but_status(orig[b], rows2[b])
        } else {
            -1
        };
        proof {
            assert forall|t: int| 0 <= t < n implies spec_cancels(#[trigger] rows2[t], now_i)
                == spec_cancels(orig[t], now_i) && same_row_core(orig[t], rows2[t])
                && rows2[t].approved_by == orig[t].approved_by by {
                if activated && t == bchosen {
                } else {
                    assert(rows2[t] == rows1[t]);
                }
            }
        }
        // Pass 3: cancel pending requests whose start has passed.
        let mut any_cancelled = false;
        let mut k: usize = 0;
        while k < n
            invariant
                0 <= k <= n == self.rows@.len(),
                orig == old(self).rows@,
                now_i == now_min as int,
                n == orig.len(),
                self.active == cache2,
                forall|t: int|
                    0 <= t < n ==> same_row_core(orig[t], #[trigger] rows2[t]) && rows2[t].approved_by
                        == orig[t].approved_by,
                forall|t: int|
                    0 <= t < k ==> if spec_cancels(#[trigger] orig[t], now_i) {
                        self.rows@[t].status == ReservationStatus::Cancelled
                            && self.rows@[t].admin_note@
                            == "Auto-cancelled: start time passed without approval"@
                            && same_row_core(orig[t], self.rows@[t]) && self.rows@[t].approved_by
                            == orig[t].approved_by
                    } else {
                        self.rows@[t] == rows2[t]
                    },
                forall|t: int| k <= t < n ==> self.rows@[t] == #[trigger] rows2[t],
                forall|t: int|
                    0 <= t < n ==> spec_cancels(#[trigger] rows2[t], now_i) == spec_cancels(
                        orig[t],
                        now_i,
                    ),
                any_cancelled == exists|t: int|
                    0 <= t < k && spec_cancels(#[trigger] orig[t], now_i),
            decreases n - k,
        {
            let is_pending = match self.rows[k].status {
                ReservationStatus::Pending => true,
                _ => false,
            };
            let cancels_now = is_pending && self.rows[k].start_min <= now_min;
            proof {
                assert(self.rows@[k as int] == rows2[k as int]);
                assert(cancels_now == spec_cancels(rows2[k as int], now_i));
                assert(cancels_now == spec_cancels(orig[k as int], now_i));
            }
            if cancels_now {
                let old_approved_by = match &self.rows[k].approved_by {
                    Some(s) => Some(s.clone()),
                    None => None,
                };
                let new_row = Reservation {
                    status: ReservationStatus::Cancelled,
                    admin_note: String::from_str(
                        "Auto-cancelled: start time passed without approval",
                    ),
                    approved_by: old_approved_by,
                    ..self.rows[k].clone_row()
                };
                self.set_row(k, new_row);
                any_cancelled = true;
                proof {
                    assert(self.rows@[k as int].status == ReservationStatus::Cancelled);
                    assert(self.rows@[k as int].admin_note@
                        == "Auto-cancelled: start time passed without approval"@);
                    assert(same_row_core(orig[k as int], self.rows@[k as int]));
                    assert(self.rows@[k as int].approved_by == orig[k as int].approved_by);
                }
            }
            k += 1;
        }
        proof {
            lemma_tick_wf(orig, self.rows@, old(self).active, self.active, now_i, bchosen, activated);
        }
        any_completed || activated || any_cancelled
    }
}

impl ReservationStore {
    /// Rebuilds the store from persisted rows at startup, loading the one
    /// active row (if any) into the cache. The rows must satisfy what this
    /// store itself maintains: unique ids, at most one active row, and no
    /// overlap among approved-or-active rows.
    pub fn recover(rows: Vec<Reservation>) -> (r: ReservationStore)
        requires
            forall|i: int, j: int|
                0 <= i < j < rows@.len() ==> (#[trigger] rows@[i]).id@ != (#[trigger] rows@[j]).id@,
            forall|i: int, j: int|
                0 <= i < j < rows@.len() ==> !((#[trigger] rows@[i]).status
                    == ReservationStatus::Active && (#[trigger] rows@[j]).status
                    == ReservationStatus::Active),
            forall|i: int, j: int|
                0 <= i < rows@.len() && 0 <= j < rows@.len() && i != j && spec_occupies(
                    (#[trigger] rows@[i]).status,
                ) && spec_occupies((#[trigger] rows@[j]).status) ==> !spec_overlaps(
                    rows@[i].start_min,
                    rows@[i].end_min,
                    rows@[j].start_min,
                    rows@[j].end_min,
                ),
        ensures
            r.wf(),
            r.rows@ == rows@,
    {
        let n = rows.len();
        let mut found: usize = n;
        let mut i: usize = 0;
        while i < n
            invariant
                0 <= i <= n == rows@.len(),
                found <= n,
                found == n ==> forall|j: int|
                    0 <= j < i ==> (#[trigger] rows@[j]).status != ReservationStatus::Active,
                found < n ==> rows@[found as int].status == ReservationStatus::Active,
            decreases n - i,
        {
            let is_active = match rows[i].status {
                ReservationStatus::Active => true,
                _ => false,
            };
            if is_active {
                found = i;
                i = n;
            } else {
                i += 1;
            }
        }
        if found < n {
            let active = Some(
                ActiveReservation {
                    reservation_id: rows[found].id.clone(),
                    user_id: rows[found].user_id.clone(),
                    end_min: rows[found].end_min,
                    user_display_name: None,
                },
            );
            let r = ReservationStore { rows, active };
            proof {
                assert(match r.active {
                    Some(a) => 0 <= found < r.rows@.len() && r.rows@[found as int].status
                        == ReservationStatus::Active && r.rows@[found as int].id@
                        == a.reservation_id@ && r.rows@[found as int].user_id@ == a.user_id@
                        && r.rows@[found as int].end_min == a.end_min,
                    None => false,
                });
            }
            r
        } else {
            ReservationStore { rows, active: None }
        }
    }
}

// ---------------------------------------------------------------------------
// Laws
// ---------------------------------------------------------------------------

/// At most one reservation row is ever active.
pub proof fn lemma_at_most_one_active(s: ReservationStore, i: int, j: int)
    requires
        s.wf(),
        0 <= i < s.rows@.len(),
        0 <= j < s.rows@.len(),
        i != j,
    ensures
        !(s.rows@[i].status == ReservationStatus::Active && s.rows@[j].status
            == ReservationStatus::Active),
{
    if i < j {
    } else {
        assert(!(s.rows@[j].status == ReservationStatus::Active && s.rows@[i].status
            == ReservationStatus::Active));
    }
}

/// An approved or active reservation never overlaps another approved or
/// active reservation.
pub proof fn lemma_no_occupied_overlap(s: ReservationStore, i: int, j: int)
    requires
        s.wf(),
        0 <= i < s.rows@.len(),
        0 <= j < s.rows@.len(),
        i != j,
        spec_occupies(s.rows@[i].status),
        spec_occupies(s.rows@[j].status),
    ensures
        !spec_overlaps(
            s.rows@[i].start_min,
            s.rows@[i].end_min,
            s.rows@[j].start_min,
            s.rows@[j].end_min,
        ),
{
}

/// Ticking twice without the clock advancing changes nothing: the second
/// tick leaves every row and the cache exactly as the first left them, and
/// reports no change.
pub proof fn lemma_tick_idempotent(
    s0: ReservationStore,
    s1: ReservationStore,
    c1: bool,
    s2: ReservationStore,
    c2: bool,
    now: int,
)
    requires
        spec_tick_rel(s0, s1, c1, now),
        spec_tick_rel(s1, s2, c2, now),
    ensures
        s2.rows@ == s1.rows@,
        s2.active == s1.active,
        c2 == false,
{
    let act0 = spec_tick_activates(s0.rows@, s0.active, now);
    // After a tick, no row's window both stands active and has ended.
    assert forall|i: int| 0 <= i < s1.rows@.len() implies !spec_completes(
        #[trigger] s1.rows@[i],
        now,
    ) by {
        let o = s0.rows@[i];
        let f = s1.rows@[i];
        if spec_completes(o, now) {
        } else if act0 && spec_chosen(s0.rows@, now, i) {
            assert(spec_activatable(o, now));
            assert(f.end_min == o.end_min);
        } else if spec_cancels(o, now) {
        } else {
            assert(f == o);
        }
    }
    // After a tick, the cache is empty exactly when its window would have
    // cleared it: a surviving or fresh holder always ends after `now`.
    assert(spec_cache_cleared(s1.active, now) == (s1.active is None)) by {
        if act0 {
            let w = choose|i: int|
                #[trigger] spec_chosen(s0.rows@, now, i) && (s1.active matches Some(a)
                    && a.reservation_id@ == s0.rows@[i].id@ && a.user_id@ == s0.rows@[i].user_id@
                    && a.end_min == s0.rows@[i].end_min && a.user_display_name is None);
            assert(spec_activatable(s0.rows@[w], now));
        } else if spec_cache_cleared(s0.active, now) {
        } else {
            assert(s1.active == s0.active);
        }
    }
    // The second tick activates nothing.
    assert(!spec_tick_activates(s1.rows@, s1.active, now)) by {
        if spec_tick_activates(s1.rows@, s1.active, now) {
            assert(spec_cache_cleared(s1.active, now));
            assert(s1.active is None);
            assert(!act0 && spec_cache_cleared(s0.active, now));
            let i = choose|i: int|
                0 <= i < s1.rows@.len() && spec_activatable(#[trigger] s1.rows@[i], now);
            let o = s0.rows@[i];
            if spec_completes(o, now) {
            } else if spec_cancels(o, now) {
            } else {
                assert(s1.rows@[i] == o);
                assert(spec_activatable(o, now));
                assert(spec_tick_activates(s0.rows@, s0.active, now));
            }
            assert(false);
        }
    }
    // The second tick cancels nothing: surviving pending rows start later.
    assert forall|i: int| 0 <= i < s1.rows@.len() implies !spec_cancels(
        #[trigger] s1.rows@[i],
        now,
    ) by {
        let o = s0.rows@[i];
        let f = s1.rows@[i];
        if spec_completes(o, now) {
        } else if act0 && spec_chosen(s0.rows@, now, i) {
        } else if spec_cancels(o, now) {
        } else {
            assert(f == o);
        }
    }
    // Hence the second tick's relation fixes everything in place.
    assert forall|i: int| 0 <= i < s1.rows@.len() implies s2.rows@[i] == #[trigger] s1.rows@[i]
        by {
        assert(!spec_completes(s1.rows@[i], now));
        assert(!spec_cancels(s1.rows@[i], now));
    }
    assert(s2.rows@ =~= s1.rows@);
    if spec_cache_cleared(s1.active, now) {
        assert(s1.active is None);
        assert(s2.active is None);
    } else {
        assert(s2.active == s1.active);
    }
}

/// A row completes exactly when the cached reservation's window has ended.
proof fn lemma_completion_matches_cache(
    orig: Seq<Reservation>,
    active: Option<ActiveReservation>,
    now_i: int,
)
    requires
        forall|a: int, b: int|
            0 <= a < b < orig.len() ==> !((#[trigger] orig[a]).status == ReservationStatus::Active
                && (#[trigger] orig[b]).status == ReservationStatus::Active),
        match active {
            None => forall|a: int|
                0 <= a < orig.len() ==> (#[trigger] orig[a]).status != ReservationStatus::Active,
            Some(act) => exists|a: int|
                0 <= a < orig.len() && (#[trigger] orig[a]).status == ReservationStatus::Active
                    && orig[a].id@ == act.reservation_id@ && orig[a].user_id@ == act.user_id@
                    && orig[a].end_min == act.end_min,
        },
    ensures
        (exists|j: int| 0 <= j < orig.len() && spec_completes(#[trigger] orig[j], now_i)) == (
        match active {
            Some(a) => a.end_min <= now_i,
            None => false,
        }),
{
    match active {
        None => {
            assert forall|j: int| 0 <= j < orig.len() implies !spec_completes(
                #[trigger] orig[j],
                now_i,
            ) by {
                assert(orig[j].status != ReservationStatus::Active);
            }
        },
        Some(a) => {
            let w = choose|w: int|
                0 <= w < orig.len() && (#[trigger] orig[w]).status == ReservationStatus::Active
                    && orig[w].id@ == a.reservation_id@ && orig[w].user_id@ == a.user_id@
                    && orig[w].end_min == a.end_min;
            if a.end_min <= now_i {
                assert(spec_completes(orig[w], now_i));
            } else {
                assert forall|j: int| 0 <= j < orig.len() implies !spec_completes(
                    #[trigger] orig[j],
                    now_i,
                ) by {
                    if orig[j].status == ReservationStatus::Active && j != w {
                        assert(false);
                    }
                }
            }
        },
    }
}

/// The combined effect of the three tick passes preserves the store
/// invariants.
proof fn lemma_tick_wf(
    orig: Seq<Reservation>,
    now: Seq<Reservation>,
    old_active: Option<ActiveReservation>,
    new_active: Option<ActiveReservation>,
    now_i: int,
    chosen: int,
    activated: bool,
)
    requires
        orig.len() == now.len(),
        forall|a: int, b: int|
            0 <= a < b < orig.len() ==> (#[trigger] orig[a]).id@ != (#[trigger] orig[b]).id@,
        forall|a: int, b: int|
            0 <= a < b < orig.len() ==> !((#[trigger] orig[a]).status == ReservationStatus::Active
                && (#[trigger] orig[b]).status == ReservationStatus::Active),
        forall|a: int, b: int|
            0 <= a < orig.len() && 0 <= b < orig.len() && a != b && spec_occupies(
                (#[trigger] orig[a]).status,
            ) && spec_occupies((#[trigger] orig[b]).status) ==> !spec_overlaps(
                orig[a].start_min,
                orig[a].end_min,
                orig[b].start_min,
                orig[b].end_min,
            ),
        forall|i: int|
            0 <= i < orig.len() ==> {
                let o = #[trigger] orig[i];
                let f = now[i];
                if spec_completes(o, now_i) {
                    f.status == ReservationStatus::Completed && same_row_but_status(o, f)
                } else if activated && i == chosen {
                    f.status == ReservationStatus::Active && same_row_but_status(o, f)
                } else if spec_cancels(o, now_i) {
                    f.status == ReservationStatus::Cancelled && same_row_core(o, f)
                } else {
                    f == o
                }
            },
        activated ==> 0 <= chosen < orig.len() && spec_activatable(orig[chosen], now_i),
        activated ==> (new_active matches Some(a) && a.reservation_id@ == orig[chosen].id@
            && a.user_id@ == orig[chosen].user_id@ && a.end_min == orig[chosen].end_min),
        activated ==> forall|i: int|
            0 <= i < orig.len() ==> !spec_completes(#[trigger] orig[i], now_i)
                || spec_cache_cleared(old_active, now_i),
        !activated ==> (match new_active {
            None => spec_cache_cleared(old_active, now_i),
            Some(a) => new_active == old_active && !spec_cache_cleared(old_active, now_i),
        }),
        activated ==> spec_cache_cleared(old_active, now_i),
        match old_active {
            None => forall|a: int|
                0 <= a < orig.len() ==> (#[trigger] orig[a]).status != ReservationStatus::Active,
            Some(act) => exists|a: int|
                0 <= a < orig.len() && (#[trigger] orig[a]).status == ReservationStatus::Active
                    && orig[a].id@ == act.reservation_id@ && orig[a].user_id@ == act.user_id@
                    && orig[a].end_min == act.end_min,
        },
    ensures
        forall|a: int, b: int|
            0 <= a < b < now.len() ==> (#[trigger] now[a]).id@ != (#[trigger] now[b]).id@,
        forall|a: int, b: int|
            0 <= a < b < now.len() ==> !((#[trigger] now[a]).status == ReservationStatus::Active
                && (#[trigger] now[b]).status == ReservationStatus::Active),
        match new_active {
            None => forall|a: int|
                0 <= a < now.len() ==> (#[trigger] now[a]).status != ReservationStatus::Active,
            Some(act) => exists|a: int|
                0 <= a < now.len() && (#[trigger] now[a]).status == ReservationStatus::Active
                    && now[a].id@ == act.reservation_id@ && now[a].user_id@ == act.user_id@
                    && now[a].end_min == act.end_min,
        },
        forall|a: int, b: int|
            0 <= a < now.len() && 0 <= b < now.len() && a != b && spec_occupies(
                (#[trigger] now[a]).status,
            ) && spec_occupies((#[trigger] now[b]).status) ==> !spec_overlaps(
                now[a].start_min,
                now[a].end_min,
                now[b].start_min,
                now[b].end_min,
            ),
{
    assert forall|a: int, b: int| 0 <= a < b < now.len() implies (#[trigger] now[a]).id@ != (
    #[trigger] now[b]).id@ by {
        assert(now[a].id@ == orig[a].id@ && now[b].id@ == orig[b].id@);
    }
    // Which rows end up active: the chosen one when activated, else the
    // surviving old active row.
    assert forall|a: int| 0 <= a < now.len() && (#[trigger] now[a]).status
        == ReservationStatus::Active implies (if activated {
        a == chosen
    } else {
        orig[a].status == ReservationStatus::Active && !spec_completes(orig[a], now_i)
    }) by {
        if activated && a != chosen {
            if !spec_completes(orig[a], now_i) && !spec_cancels(orig[a], now_i) {
                assert(now[a] == orig[a]);
                lemma_cleared_active_completes(orig, old_active, now_i, a);
            }
        }
        if !activated {
            if !spec_completes(orig[a], now_i) && !spec_cancels(orig[a], now_i) {
                assert(now[a] == orig[a]);
            }
        }
    }
    assert forall|a: int, b: int| 0 <= a < b < now.len() implies !((#[trigger] now[a]).status
        == ReservationStatus::Active && (#[trigger] now[b]).status == ReservationStatus::Active)
        by {
        if now[a].status == ReservationStatus::Active && now[b].status
            == ReservationStatus::Active {
            if activated {
                assert(a == chosen && b == chosen);
            } else {
                assert(orig[a].status == ReservationStatus::Active);
                assert(orig[b].status == ReservationStatus::Active);
            }
        }
    }
    match new_active {
        None => {
            assert forall|a: int| 0 <= a < now.len() implies (#[trigger] now[a]).status
                != ReservationStatus::Active by {
                if now[a].status == ReservationStatus::Active && !activated {
                    assert(orig[a].status == ReservationStatus::Active && !spec_completes(
                        orig[a],
                        now_i,
                    ));
                    lemma_cleared_active_completes(orig, old_active, now_i, a);
                }
            }
        },
        Some(act) => {
            if activated {
                assert(now[chosen].status == ReservationStatus::Active);
                assert(now[chosen].id@ == orig[chosen].id@);
            } else {
                assert(old_active == new_active);
                let w = choose|w: int|
                    0 <= w < orig.len() && (#[trigger] orig[w]).status == ReservationStatus::Active
                        && orig[w].id@ == act.reservation_id@ && orig[w].user_id@ == act.user_id@
                        && orig[w].end_min == act.end_min;
                assert(!spec_cache_cleared(old_active, now_i));
                assert(!spec_completes(orig[w], now_i));
                assert(now[w] == orig[w]);
            }
        },
    }
    assert forall|a: int, b: int|
        0 <= a < now.len() && 0 <= b < now.len() && a != b && spec_occupies(
            (#[trigger] now[a]).status,
        ) && spec_occupies((#[trigger] now[b]).status) implies !spec_overlaps(
        now[a].start_min,
        now[a].end_min,
        now[b].start_min,
        now[b].end_min,
    ) by {
        assert(spec_occupies(orig[a].status) && spec_occupies(orig[b].status)) by {
            lemma_tick_occupies(orig, now, now_i, chosen, activated, a);
            lemma_tick_occupies(orig, now, now_i, chosen, activated, b);
        }
        assert(now[a].start_min == orig[a].start_min && now[a].end_min == orig[a].end_min);
        assert(now[b].start_min == orig[b].start_min && now[b].end_min == orig[b].end_min);
    }
}

/// Under a cleared cache, any active row's window must have ended: the
/// cache mirrors the single active row.
proof fn lemma_cleared_active_completes(
    orig: Seq<Reservation>,
    old_active: Option<ActiveReservation>,
    now_i: int,
    a: int,
)
    requires
        0 <= a < orig.len(),
        orig[a].status == ReservationStatus::Active,
        spec_cache_cleared(old_active, now_i),
        forall|i: int, j: int|
            0 <= i < j < orig.len() ==> !((#[trigger] orig[i]).status == ReservationStatus::Active
                && (#[trigger] orig[j]).status == ReservationStatus::Active),
        match old_active {
            None => forall|i: int|
                0 <= i < orig.len() ==> (#[trigger] orig[i]).status != ReservationStatus::Active,
            Some(act) => exists|i: int|
                0 <= i < orig.len() && (#[trigger] orig[i]).status == ReservationStatus::Active
                    && orig[i].id@ == act.reservation_id@ && orig[i].user_id@ == act.user_id@
                    && orig[i].end_min == act.end_min,
        },
    ensures
        spec_completes(orig[a], now_i),
{
    match old_active {
        None => {
            assert(orig[a].status != ReservationStatus::Active);
        },
        Some(act) => {
            let w = choose|w: int|
                0 <= w < orig.len() && (#[trigger] orig[w]).status == ReservationStatus::Active
                    && orig[w].id@ == act.reservation_id@ && orig[w].user_id@ == act.user_id@
                    && orig[w].end_min == act.end_min;
            if a != w {
                assert(false);
            }
            assert(orig[a].end_min <= now_i);
        },
    }
}

/// A row occupying its window after a tick already occupied it before, with
/// the same window.
proof fn lemma_tick_occupies(
    orig: Seq<Reservation>,
    now: Seq<Reservation>,
    now_i: int,
    chosen: int,
    activated: bool,
    a: int,
)
    requires
        orig.len() == now.len(),
        0 <= a < orig.len(),
        forall|i: int|
            0 <= i < orig.len() ==> {
                let o = #[trigger] orig[i];
                let f = now[i];
                if spec_completes(o, now_i) {
                    f.status == ReservationStatus::Completed && same_row_but_status(o, f)
                } else if activated && i == chosen {
                    f.status == ReservationStatus::Active && same_row_but_status(o, f)
                } else if spec_cancels(o, now_i) {
                    f.status == ReservationStatus::Cancelled && same_row_core(o, f)
                } else {
                    f == o
                }
            },
        activated ==> 0 <= chosen < orig.len() && spec_activatable(orig[chosen], now_i),
        spec_occupies(now[a].status),
    ensures
        spec_occupies(orig[a].status),
        now[a].start_min == orig[a].start_min,
        now[a].end_min == orig[a].end_min,
{
    if spec_completes(orig[a], now_i) {
    } else if activated && a == chosen {
    } else if spec_cancels(orig[a], now_i) {
    } else {
        assert(now[a] == orig[a]);
    }
}

impl Reservation {
    /// A field-for-field copy.
    pub fn clone_row(&self) -> (r: Reservation)
        ensures
            r == *self,
    {
        Reservation {
            id: self.id.clone(),
            user_id: self.user_id.clone(),
            status: self.status,
            start_min: self.start_min,
            end_min: self.end_min,
            reason: self.reason.clone(),
            admin_note: self.admin_note.clone(),
            approved_by: match &self.approved_by {
                Some(s) => Some(s.clone()),
                None => None,
            },
        }
    }
}

/// Rows agree on everything but their status.
pub open spec fn same_row_but_status(a: Reservation, b: Reservation) -> bool {
    &&& a.id == b.id
    &&& a.user_id == b.user_id
    &&& a.start_min == b.start_min
    &&& a.end_min == b.end_min
    &&& a.reason == b.reason
    &&& a.admin_note == b.admin_note
    &&& a.approved_by == b.approved_by
}

/// Rows agree on identity and window; status, note, and approver may differ.
pub open spec fn same_row_core(a: Reservation, b: Reservation) -> bool {
    &&& a.id == b.id
    &&& a.user_id == b.user_id
    &&& a.start_min == b.start_min
    &&& a.end_min == b.end_min
    &&& a.reason == b.reason
}

/// Replacing one row with a same-window, same-id, non-occupying,
/// non-active version preserves all three invariants.
proof fn lemma_wf_update_unobtrusive(
    orig: Seq<Reservation>,
    now: Seq<Reservation>,
    active: Option<ActiveReservation>,
    i: int,
)
    requires
        orig.len() == now.len(),
        0 <= i < orig.len(),
        forall|j: int| 0 <= j < orig.len() && j != i ==> now[j] == orig[j],
        now[i].id@ == orig[i].id@,
        orig[i].status != ReservationStatus::Active,
        now[i].status != ReservationStatus::Active,
        !spec_occupies(now[i].status),
        forall|a: int, b: int|
            0 <= a < b < orig.len() ==> (#[trigger] orig[a]).id@ != (#[trigger] orig[b]).id@,
        forall|a: int, b: int|
            0 <= a < b < orig.len() ==> !((#[trigger] orig[a]).status == ReservationStatus::Active
                && (#[trigger] orig[b]).status == ReservationStatus::Active),
        match active {
            None => forall|a: int|
                0 <= a < orig.len() ==> (#[trigger] orig[a]).status != ReservationStatus::Active,
            Some(act) => exists|a: int|
                0 <= a < orig.len() && (#[trigger] orig[a]).status == ReservationStatus::Active
                    && orig[a].id@ == act.reservation_id@ && orig[a].user_id@ == act.user_id@
                    && orig[a].end_min == act.end_min,
        },
        forall|a: int, b: int|
            0 <= a < orig.len() && 0 <= b < orig.len() && a != b && spec_occupies(
                (#[trigger] orig[a]).status,
            ) && spec_occupies((#[trigger] orig[b]).status) ==> !spec_overlaps(
                orig[a].start_min,
                orig[a].end_min,
                orig[b].start_min,
                orig[b].end_min,
            ),
    ensures
        forall|a: int, b: int|
            0 <= a < b < now.len() ==> (#[trigger] now[a]).id@ != (#[trigger] now[b]).id@,
        forall|a: int, b: int|
            0 <= a < b < now.len() ==> !((#[trigger] now[a]).status == ReservationStatus::Active
                && (#[trigger] now[b]).status == ReservationStatus::Active),
        match active {
            None => forall|a: int|
                0 <= a < now.len() ==> (#[trigger] now[a]).status != ReservationStatus::Active,
            Some(act) => exists|a: int|
                0 <= a < now.len() && (#[trigger] now[a]).status == ReservationStatus::Active
                    && now[a].id@ == act.reservation_id@ && now[a].user_id@ == act.user_id@
                    && now[a].end_min == act.end_min,
        },
        forall|a: int, b: int|
            0 <= a < now.len() && 0 <= b < now.len() && a != b && spec_occupies(
                (#[trigger] now[a]).status,
            ) && spec_occupies((#[trigger] now[b]).status) ==> !spec_overlaps(
                now[a].start_min,
                now[a].end_min,
                now[b].start_min,
                now[b].end_min,
            ),
{
    assert forall|a: int, b: int| 0 <= a < b < now.len() implies (#[trigger] now[a]).id@ != (
    #[trigger] now[b]).id@ by {
        assert(now[a].id@ == orig[a].id@ && now[b].id@ == orig[b].id@);
    }
    assert forall|a: int, b: int| 0 <= a < b < now.len() implies !((#[trigger] now[a]).status
        == ReservationStatus::Active && (#[trigger] now[b]).status == ReservationStatus::Active)
        by {
        if a != i && b != i {
            assert(now[a] == orig[a] && now[b] == orig[b]);
        }
    }
    match active {
        None => {
            assert forall|a: int| 0 <= a < now.len() implies (#[trigger] now[a]).status
                != ReservationStatus::Active by {
                if a != i {
                    assert(now[a] == orig[a]);
                }
            }
        },
        Some(act) => {
            let w = choose|a: int|
                0 <= a < orig.len() && (#[trigger] orig[a]).status == ReservationStatus::Active
                    && orig[a].id@ == act.reservation_id@ && orig[a].user_id@ == act.user_id@
                    && orig[a].end_min == act.end_min;
            assert(w != i);
            assert(now[w] == orig[w]);
        },
    }
    assert forall|a: int, b: int|
        0 <= a < now.len() && 0 <= b < now.len() && a != b && spec_occupies(
            (#[trigger] now[a]).status,
        ) && spec_occupies((#[trigger] now[b]).status) implies !spec_overlaps(
        now[a].start_min,
        now[a].end_min,
        now[b].start_min,
        now[b].end_min,
    ) by {
        assert(a != i && b != i);
        assert(now[a] == orig[a] && now[b] == orig[b]);
    }
}

/// Replacing one non-active row with another non-active version keeps id
/// uniqueness and active consistency (overlap is the caller's business).
proof fn lemma_ids_unique_update(orig: Seq<Reservation>, now: Seq<Reservation>, i: int)
    requires
        orig.len() == now.len(),
        0 <= i < orig.len(),
        forall|j: int| 0 <= j < orig.len() && j != i ==> now[j] == orig[j],
        now[i].id@ == orig[i].id@,
        forall|a: int, b: int|
            0 <= a < b < orig.len() ==> (#[trigger] orig[a]).id@ != (#[trigger] orig[b]).id@,
    ensures
        forall|a: int, b: int|
            0 <= a < b < now.len() ==> (#[trigger] now[a]).id@ != (#[trigger] now[b]).id@,
{
    assert forall|a: int, b: int| 0 <= a < b < now.len() implies (#[trigger] now[a]).id@ != (
    #[trigger] now[b]).id@ by {
        assert(now[a].id@ == orig[a].id@ && now[b].id@ == orig[b].id@);
    }
}

proof fn lemma_consistency_update(
    orig: Seq<Reservation>,
    now: Seq<Reservation>,
    active: Option<ActiveReservation>,
    i: int,
)
    requires
        orig.len() == now.len(),
        0 <= i < orig.len(),
        forall|j: int| 0 <= j < orig.len() && j != i ==> now[j] == orig[j],
        orig[i].status != ReservationStatus::Active,
        now[i].status != ReservationStatus::Active,
        forall|a: int, b: int|
            0 <= a < b < orig.len() ==> !((#[trigger] orig[a]).status == ReservationStatus::Active
                && (#[trigger] orig[b]).status == ReservationStatus::Active),
        match active {
            None => forall|a: int|
                0 <= a < orig.len() ==> (#[trigger] orig[a]).status != ReservationStatus::Active,
            Some(act) => exists|a: int|
                0 <= a < orig.len() && (#[trigger] orig[a]).status == ReservationStatus::Active
                    && orig[a].id@ == act.reservation_id@ && orig[a].user_id@ == act.user_id@
                    && orig[a].end_min == act.end_min,
        },
    ensures
        forall|a: int, b: int|
            0 <= a < b < now.len() ==> !((#[trigger] now[a]).status == ReservationStatus::Active
                && (#[trigger] now[b]).status == ReservationStatus::Active),
        match active {
            None => forall|a: int|
                0 <= a < now.len() ==> (#[trigger] now[a]).status != ReservationStatus::Active,
            Some(act) => exists|a: int|
                0 <= a < now.len() && (#[trigger] now[a]).status == ReservationStatus::Active
                    && now[a].id@ == act.reservation_id@ && now[a].user_id@ == act.user_id@
                    && now[a].end_min == act.end_min,
        },
{
    assert forall|a: int, b: int| 0 <= a < b < now.len() implies !((#[trigger] now[a]).status
        == ReservationStatus::Active && (#[trigger] now[b]).status == ReservationStatus::Active)
        by {
        if a != i && b != i {
            assert(now[a] == orig[a] && now[b] == orig[b]);
        }
    }
    match active {
        None => {
            assert forall|a: int| 0 <= a < now.len() implies (#[trigger] now[a]).status
                != ReservationStatus::Active by {
                if a != i {
                    assert(now[a] == orig[a]);
                }
            }
        },
        Some(act) => {
            let w = choose|a: int|
                0 <= a < orig.len() && (#[trigger] orig[a]).status == ReservationStatus::Active
                    && orig[a].id@ == act.reservation_id@ && orig[a].user_id@ == act.user_id@
                    && orig[a].end_min == act.end_min;
            assert(w != i);
            assert(now[w] == orig[w]);
        },
    }
}

/// If two row lists agree on status, start, end, id, user and end-minute of
/// every shared index, and any extra rows occupy nothing and are not active,
/// the active-cache consistency carries over.
proof fn lemma_statuses_keep_consistency(
    orig: Seq<Reservation>,
    now: Seq<Reservation>,
    old_active: Option<ActiveReservation>,
    new_active: Option<ActiveReservation>,
)
    requires
        now.len() >= orig.len(),
        forall|i: int| 0 <= i < orig.len() ==> now[i] == orig[i],
        forall|i: int|
            orig.len() <= i < now.len() ==> (#[trigger] now[i]).status != ReservationStatus::Active,
        old_active == new_active,
        forall|i: int, j: int|
            0 <= i < j < orig.len() ==> !((#[trigger] orig[i]).status == ReservationStatus::Active
                && (#[trigger] orig[j]).status == ReservationStatus::Active),
        match old_active {
            None => forall|i: int|
                0 <= i < orig.len() ==> (#[trigger] orig[i]).status != ReservationStatus::Active,
            Some(a) => exists|i: int|
                0 <= i < orig.len() && (#[trigger] orig[i]).status == ReservationStatus::Active
                    && orig[i].id@ == a.reservation_id@ && orig[i].user_id@ == a.user_id@
                    && orig[i].end_min == a.end_min,
        },
    ensures
        forall|i: int, j: int|
            0 <= i < j < now.len() ==> !((#[trigger] now[i]).status == ReservationStatus::Active
                && (#[trigger] now[j]).status == ReservationStatus::Active),
        match new_active {
            None => forall|i: int|
                0 <= i < now.len() ==> (#[trigger] now[i]).status != ReservationStatus::Active,
            Some(a) => exists|i: int|
                0 <= i < now.len() && (#[trigger] now[i]).status == ReservationStatus::Active
                    && now[i].id@ == a.reservation_id@ && now[i].user_id@ == a.user_id@
                    && now[i].end_min == a.end_min,
        },
{
    match old_active {
        None => {
        },
        Some(a) => {
            let i = choose|i: int|
                0 <= i < orig.len() && (#[trigger] orig[i]).status == ReservationStatus::Active
                    && orig[i].id@ == a.reservation_id@ && orig[i].user_id@ == a.user_id@
                    && orig[i].end_min == a.end_min;
            assert(now[i].status == ReservationStatus::Active && now[i].id@ == a.reservation_id@
                && now[i].user_id@ == a.user_id@ && now[i].end_min == a.end_min);
        },
    }
}

} // verus!
