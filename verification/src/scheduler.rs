//! The scheduler façade: one priority queue, one concurrency gate, the
//! settings snapshot, and the active-reservation cache. The host shares one
//! value of this type behind its own synchronization; every operation here
//! is a plain state transition.
//!
//! Acquiring a slot is split at its suspension points. `start_acquire`
//! either admits on the fast path or enqueues the caller with its fairness
//! priority; the host then waits on its wake-up channel with a timeout.
//! A wake leads to `on_wake` (re-running the fast path; losing the race
//! reads as a timeout), a timer to `on_timeout` (which removes the queue
//! entry). Releasing a slot hands back the next waiter to signal.

use vstd::prelude::*;

use crate::fairness::Priority;
use crate::gate::{ConcurrencyGate, GateSnapshot};
use crate::queue::{QueuedRequest, RequestQueue};
use crate::reservation::ActiveReservation;
use crate::settings::FairnessSettings;

verus! {

/// What `start_acquire` decided.
#[derive(Debug, Clone, Copy, PartialEq, Eq, Structural)]
pub enum AcquireOutcome {
    /// A slot is held; the caller may proceed and must release it.
    Admitted,
    /// The caller was enqueued and must wait for a wake or a timeout.
    Enqueued,
}

/// The scheduler's composed state.
#[derive(Debug)]
pub struct Scheduler {
    pub queue: RequestQueue,
    pub gate: ConcurrencyGate,
    pub settings: FairnessSettings,
    pub active_reservation: Option<ActiveReservation>,
}

impl Scheduler {
    pub open spec fn wf(self) -> bool {
        self.queue.wf() && self.gate.wf() && self.settings.wf()
    }

    pub fn new() -> (r: Scheduler)
        ensures
            r.wf(),
            r.settings == FairnessSettings::spec_default(),
            r.active_reservation is None,
            r.gate.view_map() == Map::<Seq<char>, GateSnapshot>::empty(),
            forall|k: Seq<char>| r.queue.view_of(k).len() == 0,
    {
        Scheduler {
            queue: RequestQueue::new(),
            gate: ConcurrencyGate::new(),
            settings: FairnessSettings::default(),
            active_reservation: None,
        }
    }

    /// A copy of the current settings snapshot.
    pub fn settings(&self) -> (r: FairnessSettings)
        ensures
            r == self.settings,
    {
        self.settings.clone()
    }

    /// Replaces the settings snapshot from freshly loaded rows.
    pub fn reload_settings(&mut self, rows: &Vec<(String, String)>)
        ensures
            final(self).settings == crate::settings::spec_load(crate::settings::rows_view(rows@)),
            final(self).queue == old(self).queue,
            final(self).gate == old(self).gate,
            final(self).active_reservation == old(self).active_reservation,
    {
        self.settings = crate::settings::load_settings(rows);
    }

    /// The currently active reservation, if any.
    pub fn active_reservation(&self) -> (r: Option<ActiveReservation>)
        ensures
            match r {
                Some(a) => self.active_reservation matches Some(b) && a.reservation_id@
                    == b.reservation_id@ && a.user_id@ == b.user_id@ && a.end_min == b.end_min
                    && a.user_display_name == b.user_display_name,
                None => self.active_reservation is None,
            },
    {
        match &self.active_reservation {
            Some(a) => Some(
                ActiveReservation {
                    reservation_id: a.reservation_id.clone(),
                    user_id: a.user_id.clone(),
                    end_min: a.end_min,
                    user_display_name: match &a.user_display_name {
                        Some(d) => Some(d.clone()),
                        None => None,
                    },
                },
            ),
            None => None,
        }
    }

    /// Sets or clears the active-reservation cache.
    pub fn set_active_reservation(&mut self, reservation: Option<ActiveReservation>)
        ensures
            final(self).active_reservation == reservation,
            final(self).queue == old(self).queue,
            final(self).gate == old(self).gate,
            final(self).settings == old(self).settings,
    {
        self.active_reservation = reservation;
    }

    /// Queue depth for one model.
    pub fn get_queue_depth(&self, queue_key: &str) -> (r: usize)
        requires
            self.wf(),
        ensures
            r == self.queue.view_of(queue_key@).len(),
    {
        self.queue.depth(queue_key)
    }

    /// Fast path or enqueue: admits immediately when a slot is free (or
    /// the model is unregistered), otherwise enqueues the caller with the
    /// given priority and wake-up handle.
    pub fn start_acquire(
        &mut self,
        model_id: &str,
        user_id: &str,
        request_id: &str,
        priority: Priority,
        now_ms: i64,
        waker: u64,
    ) -> (r: AcquireOutcome)
        requires
            old(self).wf(),
        ensures
            final(self).wf(),
            final(self).settings == old(self).settings,
            final(self).active_reservation == old(self).active_reservation,
            ({
                let gates = old(self).gate.view_map();
                let fast = !gates.dom().contains(model_id@) || gates[model_id@].in_flight
                    < gates[model_id@].max_slots;
                if fast {
                    r == AcquireOutcome::Admitted && final(self).queue == old(self).queue && (
                    if gates.dom().contains(model_id@) {
                        final(self).gate.view_map() == gates.insert(
                            model_id@,
                            GateSnapshot {
                                max_slots: gates[model_id@].max_slots,
                                in_flight: (gates[model_id@].in_flight + 1) as u32,
                            },
                        )
                    } else {
                        final(self).gate.view_map() == gates
                    })
                } else {
                    &&& r == AcquireOutcome::Enqueued
                    &&& final(self).gate.view_map() == gates
                    &&& final(self).queue.view_of(model_id@).len() == old(self).queue.view_of(
                        model_id@,
                    ).len() + 1
                    &&& ({
                        let req = final(self).queue.view_of(model_id@).last();
                        req.request_id@ == request_id@ && req.user_id@ == user_id@
                            && req.queue_key@ == model_id@ && req.priority == priority
                            && req.enqueued_at_ms == now_ms && req.waker == waker
                    })
                    &&& final(self).queue.view_of(model_id@) == old(self).queue.view_of(
                        model_id@,
                    ).push(final(self).queue.view_of(model_id@).last())
                    &&& forall|k2: Seq<char>|
                        k2 != model_id@ ==> final(self).queue.view_of(k2) == old(self).queue.view_of(k2)
                }
            }),
    {
        if self.gate.try_acquire(model_id) {
            return AcquireOutcome::Admitted;
        }
        let request = QueuedRequest {
            request_id: String::from_str(request_id),
            user_id: String::from_str(user_id),
            queue_key: String::from_str(model_id),
            priority,
            enqueued_at_ms: now_ms,
            waker,
        };
        self.queue.enqueue(request);
        AcquireOutcome::Enqueued
    }

    /// Re-runs the fast path after a wake. `false` means the freed slot was
    /// lost to a concurrent acquirer and the caller reports a timeout.
    pub fn on_wake(&mut self, model_id: &str) -> (r: bool)
        requires
            old(self).wf(),
        ensures
            final(self).wf(),
            final(self).queue == old(self).queue,
            final(self).settings == old(self).settings,
            final(self).active_reservation == old(self).active_reservation,
            !old(self).gate.view_map().dom().contains(model_id@) ==> r && final(self).gate.view_map() == old(self).gate.view_map(),
            old(self).gate.view_map().dom().contains(model_id@) ==> {
                let st = old(self).gate.view_map()[model_id@];
                if st.in_flight < st.max_slots {
                    r && final(self).gate.view_map() == old(self).gate.view_map().insert(
                        model_id@,
                        GateSnapshot { max_slots: st.max_slots, in_flight: (st.in_flight + 1) as u32 },
                    )
                } else {
                    !r && final(self).gate.view_map() == old(self).gate.view_map()
                }
            },
    {
        self.gate.try_acquire(model_id)
    }

    /// Removes the caller's queue entry after its wait timed out.
    pub fn on_timeout(&mut self, model_id: &str, request_id: &str)
        requires
            old(self).wf(),
        ensures
            final(self).wf(),
            final(self).gate == old(self).gate,
            final(self).settings == old(self).settings,
            final(self).active_reservation == old(self).active_reservation,
            final(self).queue.view_of(model_id@) == crate::queue::spec_without_id(
                old(self).queue.view_of(model_id@),
                request_id@,
            ),
            forall|k2: Seq<char>|
                k2 != model_id@ ==> final(self).queue.view_of(k2) == old(self).queue.view_of(k2),
    {
        self.queue.remove_by_id(model_id, request_id);
    }

    /// Releases a held slot and hands back the next waiter to signal, if any.
    pub fn release_slot(&mut self, model_id: &str) -> (r: Option<QueuedRequest>)
        requires
            old(self).wf(),
        ensures
            final(self).wf(),
            final(self).settings == old(self).settings,
            final(self).active_reservation == old(self).active_reservation,
            !old(self).gate.view_map().dom().contains(model_id@) ==> final(self).gate.view_map()
                == old(self).gate.view_map(),
            old(self).gate.view_map().dom().contains(model_id@) ==> {
                let st = old(self).gate.view_map()[model_id@];
                final(self).gate.view_map() == old(self).gate.view_map().insert(
                    model_id@,
                    GateSnapshot {
                        max_slots: st.max_slots,
                        in_flight: if st.in_flight > 0 {
                            (st.in_flight - 1) as u32
                        } else {
                            0
                        },
                    },
                )
            },
            forall|k2: Seq<char>|
                k2 != model_id@ ==> final(self).queue.view_of(k2) == old(self).queue.view_of(k2),
            r is None ==> old(self).queue.view_of(model_id@).len() == 0 && final(self).queue.view_of(model_id@) == old(self).queue.view_of(model_id@),
            r matches Some(req) ==> exists|i: int|
                0 <= i < old(self).queue.view_of(model_id@).len() && old(self).queue.view_of(
                    model_id@,
                )[i] == req && final(self).queue.view_of(model_id@) == #[trigger] old(self).queue.view_of(model_id@).remove(i),
            r matches Some(req) ==> forall|j: int|
                0 <= j < old(self).queue.view_of(model_id@).len()
                    ==> !crate::fairness::spec_higher_priority(
                    (#[trigger] old(self).queue.view_of(model_id@)[j]).priority,
                    req.priority,
                ),
    {
        self.gate.release_and_wake(model_id, &mut self.queue)
    }
}

} // verus!
