//! Per-key waiting lines with max-priority dequeue.
//!
//! Each key (a model id) owns a line of queued requests. Dequeue removes a
//! request whose priority ranks at least as high as every other in the line;
//! requests can also be removed by id when their wait times out. Signalling
//! the woken request is the host's business: a request carries an opaque
//! waker handle, never the channel itself.

use vstd::prelude::*;

use crate::fairness::{spec_higher_priority, Priority};

verus! {

/// A request waiting in the queue. The `waker` field is an opaque handle the
/// host maps to its wake-up channel for this request.
#[derive(Debug, Clone)]
pub struct QueuedRequest {
    pub request_id: String,
    pub user_id: String,
    /// The queue key — the model id for concurrency gating.
    pub queue_key: String,
    pub priority: Priority,
    /// Enqueue time, milliseconds on the host's clock.
    pub enqueued_at_ms: i64,
    /// Opaque wake-up handle owned by the host.
    pub waker: u64,
}

/// Per-line statistics.
#[derive(Debug, Clone, Copy, PartialEq, Eq, Structural)]
pub struct QueueStats {
    pub depth: usize,
    pub avg_wait_ms: i64,
}

/// Per-key request lines, keys unique.
#[derive(Debug)]
pub struct RequestQueue {
    pub queues: Vec<(String, Vec<QueuedRequest>)>,
}

/// The line stored for `k`, or the empty line if `k` has none.
pub open spec fn spec_line(qs: Seq<(String, Vec<QueuedRequest>)>, k: Seq<char>) -> Seq<
    QueuedRequest,
>
    decreases qs.len(),
{
    if qs.len() == 0 {
        Seq::empty()
    } else if qs.last().0@ == k {
        qs.last().1@
    } else {
        spec_line(qs.drop_last(), k)
    }
}

/// The line with every request of the given id dropped.
pub open spec fn spec_without_id(line: Seq<QueuedRequest>, id: Seq<char>) -> Seq<QueuedRequest>
    decreases line.len(),
{
    if line.len() == 0 {
        Seq::empty()
    } else {
        let rest = spec_without_id(line.drop_last(), id);
        if line.last().request_id@ == id {
            rest
        } else {
            rest.push(line.last())
        }
    }
}

impl RequestQueue {
    /// Keys are unique, and every request sits in the line of its own key.
    pub open spec fn wf(self) -> bool {
        &&& forall|i: int, j: int|
            0 <= i < j < self.queues@.len() ==> (#[trigger] self.queues@[i]).0@ != (
            #[trigger] self.queues@[j]).0@
        &&& forall|i: int, j: int|
            0 <= i < self.queues@.len() && 0 <= j < (#[trigger] self.queues@[i]).1@.len() ==> (
            #[trigger] self.queues@[i].1@[j]).queue_key@ == self.queues@[i].0@
    }

    pub open spec fn view_of(self, k: Seq<char>) -> Seq<QueuedRequest> {
        spec_line(self.queues@, k)
    }

    pub fn new() -> (r: RequestQueue)
        ensures
            r.wf(),
            r.queues@.len() == 0,
            forall|k: Seq<char>| r.view_of(k).len() == 0,
    {
        RequestQueue { queues: Vec::new() }
    }

    /// Number of requests waiting under `key`.
    pub fn depth(&self, queue_key: &str) -> (r: usize)
        requires
            self.wf(),
        ensures
            r == self.view_of(queue_key@).len(),
    {
        let n = self.queues.len();
        let mut i: usize = 0;
        while i < n
            invariant
                0 <= i <= n == self.queues@.len(),
                self.wf(),
                forall|j: int| 0 <= j < i ==> (#[trigger] self.queues@[j]).0@ != queue_key@,
            decreases n - i,
        {
            if crate::util::str_eq(self.queues[i].0.as_str(), queue_key) {
                proof {
                    lemma_line_at(self.queues@, i as int, queue_key@);
                }
                return self.queues[i].1.len();
            }
            i += 1;
        }
        proof {
            lemma_line_absent(self.queues@, queue_key@);
        }
        0
    }

    /// Appends `request` to its key's line.
    pub fn enqueue(&mut self, request: QueuedRequest)
        requires
            old(self).wf(),
        ensures
            final(self).wf(),
            final(self).view_of(request.queue_key@) == old(self).view_of(
                request.queue_key@,
            ).push(request),
            forall|k2: Seq<char>|
                k2 != request.queue_key@ ==> final(self).view_of(k2) == old(self).view_of(k2),
    {
        let ghost orig = self.queues@;
        let ghost key = request.queue_key@;
        let n = self.queues.len();
        let mut i: usize = 0;
        while i < n
            invariant
                0 <= i <= n == self.queues@.len(),
                *self == *old(self),
                orig == old(self).queues@,
                key == request.queue_key@,
                old(self).wf(),
                forall|j: int| 0 <= j < i ==> (#[trigger] self.queues@[j]).0@ != request.queue_key@,
            decreases n - i,
        {
            if crate::util::str_eq(self.queues[i].0.as_str(), request.queue_key.as_str()) {
                proof {
                    lemma_line_at(orig, i as int, key);
                }
                let ghost oldline = self.queues@[i as int].1@;
                self.queues[i].1.push(request);
                proof {
                    assert(self.queues@ =~= orig.update(
                        i as int,
                        (orig[i as int].0, self.queues@[i as int].1),
                    ));
                    let newline = self.queues@[i as int].1;
                    assert(newline@ == oldline.push(request));
                    assert forall|j: int| 0 <= j < newline@.len() implies (
                    #[trigger] newline@[j]).queue_key@ == key by {
                        if j < oldline.len() {
                            assert(newline@[j] == oldline[j]);
                            assert(orig[i as int].1@[j].queue_key@ == orig[i as int].0@);
                        } else {
                            assert(newline@[j] == request);
                        }
                    }
                    lemma_wf_update_line(orig, i as int, newline, key);
                    lemma_line_at(self.queues@, i as int, key);
                    assert forall|k2: Seq<char>| k2 != key implies spec_line(self.queues@, k2)
                        == spec_line(orig, k2) by {
                        lemma_line_update_other(
                            orig,
                            i as int,
                            (orig[i as int].0, self.queues@[i as int].1),
                            k2,
                        );
                    }
                }
                return ;
            }
            i += 1;
        }
        let key_str = String::from_str(request.queue_key.as_str());
        let mut line: Vec<QueuedRequest> = Vec::new();
        line.push(request);
        self.queues.push((key_str, line));
        proof {
            let now = self.queues@;
            assert(now.last().0@ == key);
            assert(now.last().1@ =~= Seq::<QueuedRequest>::empty().push(request));
            assert(now.drop_last() =~= orig);
            lemma_line_absent(orig, key);
            assert(spec_line(now, key) =~= spec_line(orig, key).push(request));
            assert forall|k2: Seq<char>| k2 != key implies spec_line(now, k2) == spec_line(
                orig,
                k2,
            ) by {
                assert(spec_line(now, k2) == spec_line(now.drop_last(), k2));
            }
            assert forall|a: int, b: int| 0 <= a < b < now.len() implies (#[trigger] now[a]).0@
                != (#[trigger] now[b]).0@ by {
                if b < now.len() - 1 {
                    assert(now[a] == orig[a] && now[b] == orig[b]);
                } else {
                    assert(now[a] == orig[a]);
                    assert(now[a].0@ != key);
                }
            }
            assert forall|a: int, j: int|
                0 <= a < now.len() && 0 <= j < (#[trigger] now[a]).1@.len() implies (
            #[trigger] now[a].1@[j]).queue_key@ == now[a].0@ by {
                if a < now.len() - 1 {
                    assert(now[a] == orig[a]);
                } else {
                    assert(now[a].1@[j] == request);
                }
            }
        }
    }

    /// Removes and returns a highest-priority request from the line for
    /// `queue_key`, or `None` if the line is empty or absent.
    pub fn dequeue(&mut self, queue_key: &str) -> (r: Option<QueuedRequest>)
        requires
            old(self).wf(),
        ensures
            final(self).wf(),
            forall|k2: Seq<char>|
                k2 != queue_key@ ==> final(self).view_of(k2) == old(self).view_of(k2),
            r is None ==> old(self).view_of(queue_key@).len() == 0 && final(self).view_of(
                queue_key@,
            ) == old(self).view_of(queue_key@),
            r matches Some(req) ==> req.queue_key@ == queue_key@,
            r matches Some(req) ==> exists|i: int|
                0 <= i < old(self).view_of(queue_key@).len() && old(self).view_of(queue_key@)[i]
                    == req && final(self).view_of(queue_key@) == #[trigger] old(self).view_of(
                    queue_key@,
                ).remove(i),
            r matches Some(req) ==> forall|j: int|
                0 <= j < old(self).view_of(queue_key@).len() ==> !spec_higher_priority(
                    (#[trigger] old(self).view_of(queue_key@)[j]).priority,
                    req.priority,
                ),
    {
        let ghost orig = self.queues@;
        let ghost key = queue_key@;
        let n = self.queues.len();
        let mut i: usize = 0;
        while i < n
            invariant
                0 <= i <= n == self.queues@.len(),
                *self == *old(self),
                orig == old(self).queues@,
                key == queue_key@,
                old(self).wf(),
                forall|j: int| 0 <= j < i ==> (#[trigger] self.queues@[j]).0@ != queue_key@,
            decreases n - i,
        {
            if crate::util::str_eq(self.queues[i].0.as_str(), queue_key) {
                proof {
                    lemma_line_at(orig, i as int, key);
                }
                let ghost line = self.queues@[i as int].1@;
                let m = self.queues[i].1.len();
                if m == 0 {
                    return None;
                }
                // Scan for the highest-priority entry; on ties the later
                // arrival is chosen, as a max-scan naturally does.
                let mut best: usize = 0;
                let mut j: usize = 1;
                while j < m
                    invariant
                        0 <= best < j <= m == line.len(),
                        *self == *old(self),
                        orig == old(self).queues@,
                        key == queue_key@,
                        old(self).wf(),
                        0 <= i < orig.len(),
                        orig[i as int].0@ == key,
                        line == orig[i as int].1@,
                        forall|t: int|
                            0 <= t < j ==> !spec_higher_priority(
                                (#[trigger] line[t]).priority,
                                line[best as int].priority,
                            ),
                    decreases m - j,
                {
                    let cand = &self.queues[i].1[j];
                    let cur = &self.queues[i].1[best];
                    if !crate::fairness::higher_priority(&cur.priority, &cand.priority) {
                        best = j;
                    }
                    j += 1;
                }
                let req = self.queues[i].1.remove(best);
                proof {
                    assert(self.queues@ =~= orig.update(
                        i as int,
                        (orig[i as int].0, self.queues@[i as int].1),
                    ));
                    assert(self.queues@[i as int].1@ == line.remove(best as int));
                    lemma_wf_remove_line(orig, i as int, self.queues@[i as int].1);
                    lemma_line_at(self.queues@, i as int, key);
                    assert forall|k2: Seq<char>| k2 != key implies spec_line(self.queues@, k2)
                        == spec_line(orig, k2) by {
                        lemma_line_update_other(
                            orig,
                            i as int,
                            (orig[i as int].0, self.queues@[i as int].1),
                            k2,
                        );
                    }
                    assert(line[best as int] == req);
                    assert(req.queue_key@ == key);
                    assert(old(self).view_of(queue_key@) == line);
                    assert(spec_line(self.queues@, key) == #[trigger] old(self).view_of(
                        queue_key@,
                    ).remove(best as int));
                }
                return Some(req);
            }
            i += 1;
        }
        proof {
            lemma_line_absent(orig, key);
        }
        None
    }

    /// Removes the request with the given id from the line for `queue_key`.
    /// Absent ids and absent keys are a no-op.
    pub fn remove_by_id(&mut self, queue_key: &str, request_id: &str)
        requires
            old(self).wf(),
        ensures
            final(self).wf(),
            final(self).view_of(queue_key@) == spec_without_id(
                old(self).view_of(queue_key@),
                request_id@,
            ),
            forall|k2: Seq<char>|
                k2 != queue_key@ ==> final(self).view_of(k2) == old(self).view_of(k2),
    {
        let ghost orig = self.queues@;
        let ghost key = queue_key@;
        let n = self.queues.len();
        let mut i: usize = 0;
        while i < n
            invariant
                0 <= i <= n == self.queues@.len(),
                *self == *old(self),
                orig == old(self).queues@,
                key == queue_key@,
                old(self).wf(),
                forall|j: int| 0 <= j < i ==> (#[trigger] self.queues@[j]).0@ != queue_key@,
            decreases n - i,
        {
            if crate::util::str_eq(self.queues[i].0.as_str(), queue_key) {
                proof {
                    lemma_line_at(orig, i as int, key);
                }
                let ghost line = self.queues@[i as int].1@;
                let m = self.queues[i].1.len();
                let mut kept: Vec<QueuedRequest> = Vec::new();
                let mut j: usize = 0;
                while j < m
                    invariant
                        0 <= j <= m == line.len(),
                        *self == *old(self),
                        orig == old(self).queues@,
                        key == queue_key@,
                        old(self).wf(),
                        0 <= i < orig.len(),
                        orig[i as int].0@ == key,
                        line == orig[i as int].1@,
                        kept@ == spec_without_id(line.take(j as int), request_id@),
                    decreases m - j,
                {
                    let keep = !crate::util::str_eq(
                        self.queues[i].1[j].request_id.as_str(),
                        request_id,
                    );
                    proof {
                        assert(line.take(j + 1 as int).drop_last() =~= line.take(j as int));
                        assert(line.take(j + 1 as int).last() == line[j as int]);
                    }
                    if keep {
                        let item = self.queues[i].1[j].clone_req();
                        kept.push(item);
                    }
                    j += 1;
                }
                proof {
                    assert(line.take(m as int) =~= line);
                }
                let pair_key = self.queues[i].0.clone();
                self.queues.remove(i);
                self.queues.insert(i, (pair_key, kept));
                proof {
                    assert(self.queues@ =~= orig.update(
                        i as int,
                        (orig[i as int].0, self.queues@[i as int].1),
                    ));
                    lemma_without_id_members(line, request_id@);
                    let newline = self.queues@[i as int].1;
                    assert forall|t: int| 0 <= t < newline@.len() implies (
                    #[trigger] newline@[t]).queue_key@ == key by {
                        assert(line.contains(newline@[t]));
                        let w = choose|w: int| 0 <= w < line.len() && line[w] == newline@[t];
                        assert(orig[i as int].1@[w].queue_key@ == orig[i as int].0@);
                    }
                    lemma_wf_update_line(orig, i as int, newline, key);
                    lemma_line_at(self.queues@, i as int, key);
                    assert forall|k2: Seq<char>| k2 != key implies spec_line(self.queues@, k2)
                        == spec_line(orig, k2) by {
                        lemma_line_update_other(
                            orig,
                            i as int,
                            (orig[i as int].0, self.queues@[i as int].1),
                            k2,
                        );
                    }
                }
                return ;
            }
            i += 1;
        }
        proof {
            lemma_line_absent(orig, key);
        }
    }
}

/// The wait in milliseconds one request has accrued by `now`, never
/// negative.
pub open spec fn spec_wait_ms(r: QueuedRequest, now_ms: int) -> int {
    if now_ms >= r.enqueued_at_ms {
        now_ms - r.enqueued_at_ms
    } else {
        0
    }
}

/// The total accrued wait of a line.
pub open spec fn spec_total_wait(line: Seq<QueuedRequest>, now_ms: int) -> int
    decreases line.len(),
{
    if line.len() == 0 {
        0
    } else {
        spec_total_wait(line.drop_last(), now_ms) + spec_wait_ms(line.last(), now_ms)
    }
}

/// The average accrued wait of a line, clamped to the machine range.
pub open spec fn spec_avg_wait(line: Seq<QueuedRequest>, now_ms: int) -> int {
    if line.len() == 0 {
        0
    } else {
        let avg = spec_total_wait(line, now_ms) / line.len() as int;
        if avg > i64::MAX {
            i64::MAX as int
        } else {
            avg
        }
    }
}

proof fn lemma_total_wait_nonneg(line: Seq<QueuedRequest>, now_ms: int)
    ensures
        spec_total_wait(line, now_ms) >= 0,
    decreases line.len(),
{
    if line.len() > 0 {
        lemma_total_wait_nonneg(line.drop_last(), now_ms);
    }
}

impl RequestQueue {
    /// The depth of every line, in insertion order of the keys.
    pub fn all_depths(&self) -> (r: Vec<(String, usize)>)
        requires
            self.wf(),
        ensures
            r@.len() == self.queues@.len(),
            forall|i: int|
                0 <= i < r@.len() ==> (#[trigger] r@[i]).0@ == self.queues@[i].0@ && r@[i].1
                    == self.queues@[i].1@.len(),
    {
        let mut out: Vec<(String, usize)> = Vec::new();
        let n = self.queues.len();
        let mut i: usize = 0;
        while i < n
            invariant
                0 <= i <= n == self.queues@.len(),
                out@.len() == i,
                forall|j: int|
                    0 <= j < i ==> (#[trigger] out@[j]).0@ == self.queues@[j].0@ && out@[j].1
                        == self.queues@[j].1@.len(),
            decreases n - i,
        {
            out.push((self.queues[i].0.clone(), self.queues[i].1.len()));
            i += 1;
        }
        out
    }

    /// Depth and average accrued wait of every line, measured against the
    /// given clock reading.
    pub fn all_stats(&self, now_ms: i64) -> (r: Vec<(String, QueueStats)>)
        requires
            self.wf(),
        ensures
            r@.len() == self.queues@.len(),
            forall|i: int|
                0 <= i < r@.len() ==> (#[trigger] r@[i]).0@ == self.queues@[i].0@ && r@[i].1.depth
                    == self.queues@[i].1@.len() && r@[i].1.avg_wait_ms as int == spec_avg_wait(
                    self.queues@[i].1@,
                    now_ms as int,
                ),
    {
        let mut out: Vec<(String, QueueStats)> = Vec::new();
        let n = self.queues.len();
        let mut i: usize = 0;
        while i < n
            invariant
                0 <= i <= n == self.queues@.len(),
                out@.len() == i,
                forall|j: int|
                    0 <= j < i ==> (#[trigger] out@[j]).0@ == self.queues@[j].0@ && out@[j].1.depth
                        == self.queues@[j].1@.len() && out@[j].1.avg_wait_ms as int
                        == spec_avg_wait(self.queues@[j].1@, now_ms as int),
            decreases n - i,
        {
            let line = &self.queues[i].1;
            let m = line.len();
            let mut total: u128 = 0;
            let mut k: usize = 0;
            while k < m
                invariant
                    0 <= k <= m == line@.len(),
                    total == spec_total_wait(line@.take(k as int), now_ms as int),
                    total <= k * 0x1_0000_0000_0000_0000u128,
                decreases m - k,
            {
                let e = &line[k];
                proof {
                    let pre = line@.take(k as int);
                    let now = line@.take(k + 1 as int);
                    assert(now.drop_last() =~= pre);
                    assert(now.last() == line@[k as int]);
                    lemma_total_wait_nonneg(pre, now_ms as int);
                }
                let wait: u128 = if now_ms >= e.enqueued_at_ms {
                    (now_ms as i128 - e.enqueued_at_ms as i128) as u128
                } else {
                    0
                };
                total = total + wait;
                k += 1;
            }
            proof {
                assert(line@.take(m as int) =~= line@);
                lemma_total_wait_nonneg(line@, now_ms as int);
            }
            let avg: i64 = if m == 0 {
                0
            } else {
                let a = total / (m as u128);
                if a > i64::MAX as u128 {
                    i64::MAX
                } else {
                    a as i64
                }
            };
            let stats = QueueStats { depth: m, avg_wait_ms: avg };
            out.push((self.queues[i].0.clone(), stats));
            i += 1;
        }
        out
    }
}

impl QueuedRequest {
    /// A field-for-field copy.
    pub fn clone_req(&self) -> (r: QueuedRequest)
        ensures
            r == *self,
    {
        QueuedRequest {
            request_id: self.request_id.clone(),
            user_id: self.user_id.clone(),
            queue_key: self.queue_key.clone(),
            priority: self.priority,
            enqueued_at_ms: self.enqueued_at_ms,
            waker: self.waker,
        }
    }
}

/// In a uniquely-keyed queue list, the line at `i` is what `spec_line` finds.
proof fn lemma_line_at(qs: Seq<(String, Vec<QueuedRequest>)>, i: int, k: Seq<char>)
    requires
        forall|a: int, b: int|
            0 <= a < b < qs.len() ==> (#[trigger] qs[a]).0@ != (#[trigger] qs[b]).0@,
        0 <= i < qs.len(),
        qs[i].0@ == k,
    ensures
        spec_line(qs, k) == qs[i].1@,
    decreases qs.len(),
{
    if i == qs.len() - 1 {
    } else {
        assert(qs.last().0@ != k);
        assert(qs.drop_last()[i] == qs[i]);
        assert forall|a: int, b: int|
            0 <= a < b < qs.drop_last().len() implies (#[trigger] qs.drop_last()[a]).0@ != (
        #[trigger] qs.drop_last()[b]).0@ by {
            assert(qs.drop_last()[a] == qs[a] && qs.drop_last()[b] == qs[b]);
        }
        lemma_line_at(qs.drop_last(), i, k);
    }
}

/// A key that no entry carries has the empty line.
proof fn lemma_line_absent(qs: Seq<(String, Vec<QueuedRequest>)>, k: Seq<char>)
    requires
        forall|j: int| 0 <= j < qs.len() ==> (#[trigger] qs[j]).0@ != k,
    ensures
        spec_line(qs, k).len() == 0,
    decreases qs.len(),
{
    if qs.len() > 0 {
        lemma_line_absent(qs.drop_last(), k);
    }
}

/// Updating one entry leaves every other key's line unchanged.
proof fn lemma_line_update_other(
    qs: Seq<(String, Vec<QueuedRequest>)>,
    i: int,
    p: (String, Vec<QueuedRequest>),
    k2: Seq<char>,
)
    requires
        0 <= i < qs.len(),
        qs[i].0@ != k2,
        p.0@ != k2,
    ensures
        spec_line(qs.update(i, p), k2) == spec_line(qs, k2),
    decreases qs.len(),
{
    let up = qs.update(i, p);
    if i == qs.len() - 1 {
        assert(up.last() == p);
        assert(up.drop_last() =~= qs.drop_last());
    } else {
        assert(up.last() == qs.last());
        assert(up.drop_last() =~= qs.drop_last().update(i, p));
        if qs.last().0@ != k2 {
            lemma_line_update_other(qs.drop_last(), i, p, k2);
        }
    }
}

/// Replacing the line under an entry, key unchanged and all members keyed to
/// it, preserves well-formedness.
proof fn lemma_wf_update_line(
    qs: Seq<(String, Vec<QueuedRequest>)>,
    i: int,
    line: Vec<QueuedRequest>,
    k: Seq<char>,
)
    requires
        forall|a: int, b: int|
            0 <= a < b < qs.len() ==> (#[trigger] qs[a]).0@ != (#[trigger] qs[b]).0@,
        forall|a: int, j: int|
            0 <= a < qs.len() && 0 <= j < (#[trigger] qs[a]).1@.len() ==> (
            #[trigger] qs[a].1@[j]).queue_key@ == qs[a].0@,
        0 <= i < qs.len(),
        qs[i].0@ == k,
        forall|j: int| 0 <= j < line@.len() ==> (#[trigger] line@[j]).queue_key@ == k,
    ensures
        ({
            let up = qs.update(i, (qs[i].0, line));
            &&& forall|a: int, b: int|
                0 <= a < b < up.len() ==> (#[trigger] up[a]).0@ != (#[trigger] up[b]).0@
            &&& forall|a: int, j: int|
                0 <= a < up.len() && 0 <= j < (#[trigger] up[a]).1@.len() ==> (
                #[trigger] up[a].1@[j]).queue_key@ == up[a].0@
        }),
{
    let up = qs.update(i, (qs[i].0, line));
    assert forall|a: int, b: int| 0 <= a < b < up.len() implies (#[trigger] up[a]).0@ != (
    #[trigger] up[b]).0@ by {
        assert(up[a].0 == qs[a].0 && up[b].0 == qs[b].0);
    }
    assert forall|a: int, j: int|
        0 <= a < up.len() && 0 <= j < (#[trigger] up[a]).1@.len() implies (
    #[trigger] up[a].1@[j]).queue_key@ == up[a].0@ by {
        if a != i {
            assert(up[a] == qs[a]);
        }
    }
}

/// Removing an element from a line keeps every member keyed to it.
proof fn lemma_wf_remove_line(
    qs: Seq<(String, Vec<QueuedRequest>)>,
    i: int,
    line: Vec<QueuedRequest>,
)
    requires
        forall|a: int, b: int|
            0 <= a < b < qs.len() ==> (#[trigger] qs[a]).0@ != (#[trigger] qs[b]).0@,
        forall|a: int, j: int|
            0 <= a < qs.len() && 0 <= j < (#[trigger] qs[a]).1@.len() ==> (
            #[trigger] qs[a].1@[j]).queue_key@ == qs[a].0@,
        0 <= i < qs.len(),
        exists|b: int| 0 <= b < qs[i].1@.len() && line@ == (#[trigger] qs[i].1@.remove(b)),
    ensures
        ({
            let up = qs.update(i, (qs[i].0, line));
            &&& forall|a: int, b: int|
                0 <= a < b < up.len() ==> (#[trigger] up[a]).0@ != (#[trigger] up[b]).0@
            &&& forall|a: int, j: int|
                0 <= a < up.len() && 0 <= j < (#[trigger] up[a]).1@.len() ==> (
                #[trigger] up[a].1@[j]).queue_key@ == up[a].0@
        }),
{
    let b = choose|b: int| 0 <= b < qs[i].1@.len() && line@ == (#[trigger] qs[i].1@.remove(b));
    assert forall|j: int| 0 <= j < line@.len() implies (#[trigger] line@[j]).queue_key@ == qs[i].0@
        by {
        if j < b {
            assert(line@[j] == qs[i].1@[j]);
        } else {
            assert(line@[j] == qs[i].1@[j + 1]);
        }
    }
    lemma_wf_update_line(qs, i, line, qs[i].0@);
}

/// Everything kept by an id-filter was in the line and does not carry the id.
proof fn lemma_without_id_members(line: Seq<QueuedRequest>, id: Seq<char>)
    ensures
        forall|j: int|
            0 <= j < spec_without_id(line, id).len() ==> line.contains(
                #[trigger] spec_without_id(line, id)[j],
            ),
    decreases line.len(),
{
    if line.len() > 0 {
        lemma_without_id_members(line.drop_last(), id);
        let rest = spec_without_id(line.drop_last(), id);
        assert forall|j: int| 0 <= j < spec_without_id(line, id).len() implies line.contains(
            #[trigger] spec_without_id(line, id)[j],
        ) by {
            if line.last().request_id@ == id {
                assert(line.drop_last().contains(rest[j]));
                let w = choose|w: int|
                    0 <= w < line.drop_last().len() && line.drop_last()[w] == rest[j];
                assert(line[w] == rest[j]);
            } else {
                if j < rest.len() {
                    assert(line.drop_last().contains(rest[j]));
                    let w = choose|w: int|
                        0 <= w < line.drop_last().len() && line.drop_last()[w] == rest[j];
                    assert(line[w] == rest[j]);
                } else {
                    assert(spec_without_id(line, id)[j] == line.last());
                    assert(line[line.len() - 1] == line.last());
                }
            }
        }
    }
}

} // verus!
