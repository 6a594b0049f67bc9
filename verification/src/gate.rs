//! Per-model concurrency limiter with fair-queue wakeup.
//!
//! Registration fixes a model's slot count; `try_acquire` admits a request
//! when a slot is free, and admits without counting when the model was never
//! registered (fail-open). Releasing a slot decrements the count, saturating
//! at zero, and hands back the highest-priority waiter so the host can wake
//! it. The limiter's observable state is a map from model id to its slot counts,
//! and every operation keeps `in_flight` within `max_slots`.

use vstd::prelude::*;

use crate::queue::{QueuedRequest, RequestQueue};

verus! {

/// The limiter's refusal: the wait for a slot timed out.
#[derive(Debug, Clone, Copy, PartialEq, Eq, Structural)]
pub struct QueueTimeout;

/// A single model's slot counts (also the observability snapshot).
#[derive(Debug, Clone, Copy, PartialEq, Eq, Structural)]
pub struct GateSnapshot {
    pub max_slots: u32,
    pub in_flight: u32,
}

/// Per-model concurrency state, keys unique.
#[derive(Debug)]
pub struct ConcurrencyGate {
    pub entries: Vec<(String, GateSnapshot)>,
}

/// The map from model id to gate state that an entry list describes.
pub open spec fn spec_gates(entries: Seq<(String, GateSnapshot)>) -> Map<Seq<char>, GateSnapshot>
    decreases entries.len(),
{
    if entries.len() == 0 {
        Map::empty()
    } else {
        spec_gates(entries.drop_last()).insert(entries.last().0@, entries.last().1)
    }
}

impl ConcurrencyGate {
    /// Keys are unique and no counter exceeds its bound.
    pub open spec fn wf(self) -> bool {
        &&& forall|i: int, j: int|
            0 <= i < j < self.entries@.len() ==> (#[trigger] self.entries@[i]).0@ != (
            #[trigger] self.entries@[j]).0@
        &&& forall|i: int|
            0 <= i < self.entries@.len() ==> (#[trigger] self.entries@[i]).1.in_flight
                <= self.entries@[i].1.max_slots
    }

    pub open spec fn view_map(self) -> Map<Seq<char>, GateSnapshot> {
        spec_gates(self.entries@)
    }

    pub fn new() -> (r: ConcurrencyGate)
        ensures
            r.wf(),
            r.view_map() == Map::<Seq<char>, GateSnapshot>::empty(),
    {
        ConcurrencyGate { entries: Vec::new() }
    }

    /// Registers a model with its maximum parallel slots, resetting its
    /// in-flight count. Called when a backend starts.
    pub fn register(&mut self, model_id: &str, max_slots: u32)
        requires
            old(self).wf(),
        ensures
            final(self).wf(),
            final(self).view_map() == old(self).view_map().insert(
                model_id@,
                GateSnapshot { max_slots, in_flight: 0 },
            ),
    {
        let st = GateSnapshot { max_slots, in_flight: 0 };
        self.put(model_id, st);
    }

    /// Unregisters a model, discarding its state. Called when a backend stops.
    pub fn unregister(&mut self, model_id: &str)
        requires
            old(self).wf(),
        ensures
            final(self).wf(),
            final(self).view_map() == old(self).view_map().remove(model_id@),
    {
        let ghost orig = self.entries@;
        let n = self.entries.len();
        let mut i: usize = 0;
        while i < n
            invariant
                0 <= i <= n == self.entries@.len(),
                *self == *old(self),
                orig == old(self).entries@,
                old(self).wf(),
                forall|j: int| 0 <= j < i ==> (#[trigger] self.entries@[j]).0@ != model_id@,
            decreases n - i,
        {
            if crate::util::str_eq(self.entries[i].0.as_str(), model_id) {
                self.entries.remove(i);
                proof {
                    assert(self.entries@ =~= orig.remove(i as int));
                    lemma_gates_remove(orig, i as int);
                    assert forall|a: int, b: int|
                        0 <= a < b < self.entries@.len() implies (#[trigger] self.entries@[a]).0@
                        != (#[trigger] self.entries@[b]).0@ by {
                        let aa = if a < i as int {
                            a
                        } else {
                            a + 1
                        };
                        let bb = if b < i as int {
                            b
                        } else {
                            b + 1
                        };
                        assert(self.entries@[a] == orig[aa] && self.entries@[b] == orig[bb]);
                    }
                    assert forall|a: int| 0 <= a < self.entries@.len() implies (
                    #[trigger] self.entries@[a]).1.in_flight <= self.entries@[a].1.max_slots by {
                        let aa = if a < i as int {
                            a
                        } else {
                            a + 1
                        };
                        assert(self.entries@[a] == orig[aa]);
                    }
                }
                return ;
            }
            i += 1;
        }
        proof {
            lemma_gates_absent(orig, model_id@);
            assert(self.view_map() =~= old(self).view_map().remove(model_id@));
        }
    }

    /// The current state of `model_id`, if registered.
    pub fn lookup(&self, model_id: &str) -> (r: Option<GateSnapshot>)
        requires
            self.wf(),
        ensures
            match r {
                Some(st) => self.view_map().dom().contains(model_id@) && self.view_map()[model_id@]
                    == st,
                None => !self.view_map().dom().contains(model_id@),
            },
    {
        let n = self.entries.len();
        let mut i: usize = 0;
        while i < n
            invariant
                0 <= i <= n == self.entries@.len(),
                self.wf(),
                forall|j: int| 0 <= j < i ==> (#[trigger] self.entries@[j]).0@ != model_id@,
            decreases n - i,
        {
            if crate::util::str_eq(self.entries[i].0.as_str(), model_id) {
                proof {
                    lemma_gates_at(self.entries@, i as int, model_id@);
                }
                return Some(self.entries[i].1);
            }
            i += 1;
        }
        proof {
            lemma_gates_absent(self.entries@, model_id@);
        }
        None
    }

    /// A copy of every model's state, in registration order.
    pub fn status(&self) -> (r: Vec<(String, GateSnapshot)>)
        requires
            self.wf(),
        ensures
            r@.len() == self.entries@.len(),
            forall|i: int|
                0 <= i < r@.len() ==> (#[trigger] r@[i]).0@ == self.entries@[i].0@ && r@[i].1
                    == self.entries@[i].1,
    {
        let mut out: Vec<(String, GateSnapshot)> = Vec::new();
        let n = self.entries.len();
        let mut i: usize = 0;
        while i < n
            invariant
                0 <= i <= n == self.entries@.len(),
                out@.len() == i,
                forall|j: int|
                    0 <= j < i ==> (#[trigger] out@[j]).0@ == self.entries@[j].0@ && out@[j].1
                        == self.entries@[j].1,
            decreases n - i,
        {
            out.push((self.entries[i].0.clone(), self.entries[i].1));
            i += 1;
        }
        out
    }

    /// Non-blocking admission. Admits and counts when a slot is free; admits
    /// without counting when the model is not registered; refuses otherwise.
    pub fn try_acquire(&mut self, model_id: &str) -> (r: bool)
        requires
            old(self).wf(),
        ensures
            final(self).wf(),
            !old(self).view_map().dom().contains(model_id@) ==> r && final(self).view_map() == old(self).view_map(),
            old(self).view_map().dom().contains(model_id@) ==> {
                let st = old(self).view_map()[model_id@];
                if st.in_flight < st.max_slots {
                    r && final(self).view_map() == old(self).view_map().insert(
                        model_id@,
                        GateSnapshot { max_slots: st.max_slots, in_flight: (st.in_flight + 1) as u32 },
                    )
                } else {
                    !r && final(self).view_map() == old(self).view_map()
                }
            },
    {
        let ghost orig = self.entries@;
        let n = self.entries.len();
        let mut i: usize = 0;
        while i < n
            invariant
                0 <= i <= n == self.entries@.len(),
                *self == *old(self),
                orig == old(self).entries@,
                old(self).wf(),
                forall|j: int| 0 <= j < i ==> (#[trigger] self.entries@[j]).0@ != model_id@,
            decreases n - i,
        {
            if crate::util::str_eq(self.entries[i].0.as_str(), model_id) {
                proof {
                    lemma_gates_at(orig, i as int, model_id@);
                }
                let st = self.entries[i].1;
                if st.in_flight < st.max_slots {
                    let st2 = GateSnapshot { max_slots: st.max_slots, in_flight: st.in_flight + 1 };
                    self.put_at(i, st2);
                    return true;
                } else {
                    return false;
                }
            }
            i += 1;
        }
        proof {
            lemma_gates_absent(orig, model_id@);
        }
        true
    }

    /// Decrements a model's in-flight count, saturating at zero. Unregistered
    /// models are untouched.
    pub fn release(&mut self, model_id: &str)
        requires
            old(self).wf(),
        ensures
            final(self).wf(),
            !old(self).view_map().dom().contains(model_id@) ==> final(self).view_map() == old(self).view_map(),
            old(self).view_map().dom().contains(model_id@) ==> {
                let st = old(self).view_map()[model_id@];
                final(self).view_map() == old(self).view_map().insert(
                    model_id@,
                    GateSnapshot {
                        max_slots: st.max_slots,
                        in_flight: if st.in_flight > 0 {
                            (st.in_flight - 1) as u32
                        } else {
                            0
                        },
                    },
                )
            },
    {
        let ghost orig = self.entries@;
        let n = self.entries.len();
        let mut i: usize = 0;
        while i < n
            invariant
                0 <= i <= n == self.entries@.len(),
                *self == *old(self),
                orig == old(self).entries@,
                old(self).wf(),
                forall|j: int| 0 <= j < i ==> (#[trigger] self.entries@[j]).0@ != model_id@,
            decreases n - i,
        {
            if crate::util::str_eq(self.entries[i].0.as_str(), model_id) {
                proof {
                    lemma_gates_at(orig, i as int, model_id@);
                }
                let st = self.entries[i].1;
                let dec = if st.in_flight > 0 {
                    st.in_flight - 1
                } else {
                    0
                };
                let st2 = GateSnapshot { max_slots: st.max_slots, in_flight: dec };
                self.put_at(i, st2);
                return ;
            }
            i += 1;
        }
        proof {
            lemma_gates_absent(orig, model_id@);
        }
    }

    /// Releases a slot for `model_id` and removes the highest-priority
    /// waiter from its line, handing it back for the host to signal. A late
    /// signal into a request that already timed out is the host's no-op.
    pub fn release_and_wake(&mut self, model_id: &str, queue: &mut RequestQueue) -> (r: Option<
        QueuedRequest,
    >)
        requires
            old(self).wf(),
            old(queue).wf(),
        ensures
            final(self).wf(),
            final(queue).wf(),
            !old(self).view_map().dom().contains(model_id@) ==> final(self).view_map() == old(self).view_map(),
            old(self).view_map().dom().contains(model_id@) ==> {
                let st = old(self).view_map()[model_id@];
                final(self).view_map() == old(self).view_map().insert(
                    model_id@,
                    GateSnapshot {
                        max_slots: st.max_slots,
                        in_flight: if st.in_flight > 0 {
                            (st.in_flight - 1) as u32
                        } else {
                            0
                        },
                    },
                )
            },
            forall|k2: Seq<char>|
                k2 != model_id@ ==> final(queue).view_of(k2) == old(queue).view_of(k2),
            r is None ==> old(queue).view_of(model_id@).len() == 0 && final(queue).view_of(
                model_id@,
            ) == old(queue).view_of(model_id@),
            r matches Some(req) ==> exists|i: int|
                0 <= i < old(queue).view_of(model_id@).len() && old(queue).view_of(model_id@)[i]
                    == req && final(queue).view_of(model_id@) == #[trigger] old(queue).view_of(
                    model_id@,
                ).remove(i),
            r matches Some(req) ==> forall|j: int|
                0 <= j < old(queue).view_of(model_id@).len() ==> !crate::fairness::spec_higher_priority(
                    (#[trigger] old(queue).view_of(model_id@)[j]).priority,
                    req.priority,
                ),
    {
        self.release(model_id);
        queue.dequeue(model_id)
    }

    /// Replaces the state stored at entry `i`, key untouched.
    fn put_at(&mut self, i: usize, st: GateSnapshot)
        requires
            old(self).wf(),
            i < old(self).entries@.len(),
            st.in_flight <= st.max_slots,
        ensures
            final(self).wf(),
            final(self).view_map() == old(self).view_map().insert(old(self).entries@[i as int].0@, st),
    {
        let ghost orig = self.entries@;
        let key_str = self.entries[i].0.clone();
        self.entries.remove(i);
        self.entries.insert(i, (key_str, st));
        proof {
            assert(self.entries@ =~= orig.update(i as int, (orig[i as int], (orig[i as int].0, st)).1));
            assert(self.entries@ =~= orig.update(i as int, (orig[i as int].0, st)));
            lemma_gates_update(orig, i as int, st);
            assert forall|a: int, b: int| 0 <= a < b < self.entries@.len() implies (
            #[trigger] self.entries@[a]).0@ != (#[trigger] self.entries@[b]).0@ by {
                assert(self.entries@[a].0 == orig[a].0 && self.entries@[b].0 == orig[b].0);
            }
            assert forall|a: int| 0 <= a < self.entries@.len() implies (
            #[trigger] self.entries@[a]).1.in_flight <= self.entries@[a].1.max_slots by {
                if a != i as int {
                    assert(self.entries@[a] == orig[a]);
                }
            }
        }
    }

    /// Inserts or overwrites the state for `model_id`.
    fn put(&mut self, model_id: &str, st: GateSnapshot)
        requires
            old(self).wf(),
            st.in_flight <= st.max_slots,
        ensures
            final(self).wf(),
            final(self).view_map() == old(self).view_map().insert(model_id@, st),
    {
        let ghost orig = self.entries@;
        let n = self.entries.len();
        let mut i: usize = 0;
        while i < n
            invariant
                0 <= i <= n == self.entries@.len(),
                *self == *old(self),
                orig == old(self).entries@,
                old(self).wf(),
                st.in_flight <= st.max_slots,
                forall|j: int| 0 <= j < i ==> (#[trigger] self.entries@[j]).0@ != model_id@,
            decreases n - i,
        {
            if crate::util::str_eq(self.entries[i].0.as_str(), model_id) {
                self.put_at(i, st);
                return ;
            }
            i += 1;
        }
        let key_str = String::from_str(model_id);
        self.entries.push((key_str, st));
        proof {
            assert(self.entries@.drop_last() =~= orig);
            assert(self.entries@.last().0@ == model_id@);
            assert(self.view_map() == old(self).view_map().insert(model_id@, st));
            assert forall|a: int, b: int| 0 <= a < b < self.entries@.len() implies (
            #[trigger] self.entries@[a]).0@ != (#[trigger] self.entries@[b]).0@ by {
                if b < self.entries@.len() - 1 {
                    assert(self.entries@[a] == orig[a] && self.entries@[b] == orig[b]);
                } else {
                    assert(self.entries@[a] == orig[a]);
                }
            }
            assert forall|a: int| 0 <= a < self.entries@.len() implies (
            #[trigger] self.entries@[a]).1.in_flight <= self.entries@[a].1.max_slots by {
                if a < self.entries@.len() - 1 {
                    assert(self.entries@[a] == orig[a]);
                }
            }
        }
    }
}

/// In a uniquely-keyed entry list, the entry at `i` is what the map holds.
proof fn lemma_gates_at(qs: Seq<(String, GateSnapshot)>, i: int, k: Seq<char>)
    requires
        forall|a: int, b: int|
            0 <= a < b < qs.len() ==> (#[trigger] qs[a]).0@ != (#[trigger] qs[b]).0@,
        0 <= i < qs.len(),
        qs[i].0@ == k,
    ensures
        spec_gates(qs).dom().contains(k),
        spec_gates(qs)[k] == qs[i].1,
    decreases qs.len(),
{
    if i == qs.len() - 1 {
    } else {
        assert(qs.last().0@ != k);
        assert(qs.drop_last()[i] == qs[i]);
        assert forall|a: int, b: int|
            0 <= a < b < qs.drop_last().len() implies (#[trigger] qs.drop_last()[a]).0@ != (
        #[trigger] qs.drop_last()[b]).0@ by {
            assert(qs.drop_last()[a] == qs[a] && qs.drop_last()[b] == qs[b]);
        }
        lemma_gates_at(qs.drop_last(), i, k);
    }
}

/// A key that no entry carries is not in the map.
proof fn lemma_gates_absent(qs: Seq<(String, GateSnapshot)>, k: Seq<char>)
    requires
        forall|j: int| 0 <= j < qs.len() ==> (#[trigger] qs[j]).0@ != k,
    ensures
        !spec_gates(qs).dom().contains(k),
    decreases qs.len(),
{
    if qs.len() > 0 {
        lemma_gates_absent(qs.drop_last(), k);
    }
}

/// Updating the state under one entry is a map insert on its key.
proof fn lemma_gates_update(qs: Seq<(String, GateSnapshot)>, i: int, st: GateSnapshot)
    requires
        forall|a: int, b: int|
            0 <= a < b < qs.len() ==> (#[trigger] qs[a]).0@ != (#[trigger] qs[b]).0@,
        0 <= i < qs.len(),
    ensures
        spec_gates(qs.update(i, (qs[i].0, st))) == spec_gates(qs).insert(qs[i].0@, st),
    decreases qs.len(),
{
    let up = qs.update(i, (qs[i].0, st));
    if i == qs.len() - 1 {
        assert(up.last() == (qs[i].0, st));
        assert(up.drop_last() =~= qs.drop_last());
        assert(spec_gates(up) =~= spec_gates(qs).insert(qs[i].0@, st));
    } else {
        assert(up.last() == qs.last());
        assert(up.drop_last() =~= qs.drop_last().update(i, (qs[i].0, st)));
        assert forall|a: int, b: int|
            0 <= a < b < qs.drop_last().len() implies (#[trigger] qs.drop_last()[a]).0@ != (
        #[trigger] qs.drop_last()[b]).0@ by {
            assert(qs.drop_last()[a] == qs[a] && qs.drop_last()[b] == qs[b]);
        }
        assert(qs.drop_last()[i] == qs[i]);
        lemma_gates_update(qs.drop_last(), i, st);
        assert(qs[i].0@ != qs.last().0@);
        assert(spec_gates(up) =~= spec_gates(qs).insert(qs[i].0@, st));
    }
}

/// Removing one entry is a map remove on its key.
proof fn lemma_gates_remove(qs: Seq<(String, GateSnapshot)>, i: int)
    requires
        forall|a: int, b: int|
            0 <= a < b < qs.len() ==> (#[trigger] qs[a]).0@ != (#[trigger] qs[b]).0@,
        0 <= i < qs.len(),
    ensures
        spec_gates(qs.remove(i)) == spec_gates(qs).remove(qs[i].0@),
    decreases qs.len(),
{
    let rm = qs.remove(i);
    if i == qs.len() - 1 {
        assert(rm =~= qs.drop_last());
        assert forall|j: int| 0 <= j < qs.drop_last().len() implies (
        #[trigger] qs.drop_last()[j]).0@ != qs[i].0@ by {
            assert(qs.drop_last()[j] == qs[j]);
        }
        lemma_gates_absent(qs.drop_last(), qs[i].0@);
        assert(spec_gates(rm) =~= spec_gates(qs).remove(qs[i].0@));
    } else {
        assert(rm.last() == qs.last());
        assert(rm.drop_last() =~= qs.drop_last().remove(i));
        assert forall|a: int, b: int|
            0 <= a < b < qs.drop_last().len() implies (#[trigger] qs.drop_last()[a]).0@ != (
        #[trigger] qs.drop_last()[b]).0@ by {
            assert(qs.drop_last()[a] == qs[a] && qs.drop_last()[b] == qs[b]);
        }
        assert(qs.drop_last()[i] == qs[i]);
        lemma_gates_remove(qs.drop_last(), i);
        assert(qs[i].0@ != qs.last().0@);
        assert(spec_gates(rm) =~= spec_gates(qs).remove(qs[i].0@));
    }
}

// ---------------------------------------------------------------------------
// Laws
// ---------------------------------------------------------------------------

/// Every registered model's in-flight count stays within its slot bound.
pub proof fn lemma_gate_counts_bounded(g: ConcurrencyGate, k: Seq<char>)
    requires
        g.wf(),
        g.view_map().dom().contains(k),
    ensures
        g.view_map()[k].in_flight <= g.view_map()[k].max_slots,
{
    lemma_gates_dom(g.entries@, k);
    let i = choose|i: int| 0 <= i < g.entries@.len() && (#[trigger] g.entries@[i]).0@ == k;
    lemma_gates_at(g.entries@, i, k);
}

/// Every key in the map comes from some entry.
proof fn lemma_gates_dom(qs: Seq<(String, GateSnapshot)>, k: Seq<char>)
    requires
        spec_gates(qs).dom().contains(k),
    ensures
        exists|i: int| 0 <= i < qs.len() && (#[trigger] qs[i]).0@ == k,
    decreases qs.len(),
{
    if qs.len() > 0 {
        if qs.last().0@ == k {
            assert(qs[qs.len() - 1].0@ == k);
        } else {
            lemma_gates_dom(qs.drop_last(), k);
            let i = choose|i: int|
                0 <= i < qs.drop_last().len() && (#[trigger] qs.drop_last()[i]).0@ == k;
            assert(qs[i].0@ == k);
        }
    }
}

/// Registering, unregistering, and registering again leaves exactly the
/// state of a single registration: a bound of `max_slots` and a clean
/// counter, with every other model untouched.
pub proof fn lemma_register_cycle_is_register(
    m: Map<Seq<char>, GateSnapshot>,
    k: Seq<char>,
    max_slots: u32,
)
    ensures
        ({
            let st = GateSnapshot { max_slots, in_flight: 0 };
            m.insert(k, st).remove(k).insert(k, st) == m.insert(k, st)
        }),
{
    let st = GateSnapshot { max_slots, in_flight: 0 };
    assert(m.insert(k, st).remove(k).insert(k, st) =~= m.insert(k, st));
}

} // verus!
