//! Observability records and the CPU utilization sampler's arithmetic.
//! Collecting the raw numbers — GPU queries, container listings, disk
//! probes, the processor statistics file — is the host's business; this
//! module holds the records and the delta computation.

use vstd::prelude::*;

verus! {

/// One GPU's memory and utilization reading.
#[derive(Debug, Clone)]
pub struct GpuStats {
    pub gpu_type: String,
    pub device_index: u32,
    pub total_mb: u64,
    pub used_mb: u64,
    pub free_mb: u64,
    /// GPU compute utilization 0–100, if available.
    pub utilization_percent: Option<u64>,
}

/// A GPU memory line of a metrics snapshot.
#[derive(Debug, Clone)]
pub struct GpuMemoryInfo {
    pub gpu_type: String,
    pub device_index: u32,
    pub total_mb: u64,
    pub used_mb: u64,
    pub free_mb: u64,
    pub utilization_percent: Option<u64>,
}

/// A managed container's health line.
#[derive(Debug, Clone)]
pub struct ContainerStatus {
    pub model_id: String,
    pub backend_type: String,
    pub healthy: bool,
    pub state: Option<String>,
    pub vram_used_mb: Option<u64>,
}

/// Disk usage of the model filesystem.
#[derive(Debug, Clone, Copy, PartialEq, Eq, Structural)]
pub struct DiskInfo {
    pub total_bytes: u64,
    pub used_bytes: u64,
    pub free_bytes: u64,
}

/// The active reservation as a snapshot shows it.
#[derive(Debug, Clone)]
pub struct ActiveReservationInfo {
    pub reservation_id: String,
    pub user_id: String,
    pub user_display_name: Option<String>,
    /// Window end, minutes from the civil epoch.
    pub end_min: i64,
}

/// One reading of the aggregate processor counters.
#[derive(Debug, Clone, Copy, PartialEq, Eq, Structural)]
pub struct CpuTimes {
    pub idle: u64,
    pub total: u64,
}

/// A computed CPU utilization: tenths of a percent, and the core count.
#[derive(Debug, Clone, Copy, PartialEq, Eq, Structural)]
pub struct CpuInfo {
    pub utilization_tenths_percent: u64,
    pub num_cores: u32,
}

/// Delta-based CPU sampler: utilization is computed between consecutive
/// readings of the processor counters.
#[derive(Debug)]
pub struct CpuSampler {
    pub prev: Option<CpuTimes>,
}

/// The busy share between two readings, in tenths of a percent.
pub open spec fn spec_cpu_tenths(prev: CpuTimes, cur: CpuTimes) -> int {
    let d_total = if cur.total >= prev.total {
        cur.total - prev.total
    } else {
        0
    };
    let d_idle = if cur.idle >= prev.idle {
        cur.idle - prev.idle
    } else {
        0
    };
    let busy = if d_total >= d_idle {
        d_total - d_idle
    } else {
        0
    };
    busy * 1000 / d_total
}

impl CpuSampler {
    pub fn new() -> (r: CpuSampler)
        ensures
            r.prev is None,
    {
        CpuSampler { prev: None }
    }

    /// Feeds one reading. The first reading yields nothing (there is no
    /// delta yet); later readings yield the busy share since the previous
    /// one, or nothing when no time passed.
    pub fn step(&mut self, cur: CpuTimes, num_cores: u32) -> (r: Option<CpuInfo>)
        ensures
            final(self).prev == Some(cur),
            match old(self).prev {
                None => r is None,
                Some(prev) => {
                    let d_total = if cur.total >= prev.total {
                        cur.total - prev.total
                    } else {
                        0
                    };
                    if d_total == 0 {
                        r is None
                    } else {
                        r matches Some(info) && info.utilization_tenths_percent as int
                            == spec_cpu_tenths(prev, cur) && info.num_cores == (if num_cores >= 1 {
                            num_cores
                        } else {
                            1
                        })
                    }
                },
            },
    {
        let prev = match self.prev {
            Some(p) => p,
            None => {
                self.prev = Some(cur);
                return None;
            },
        };
        self.prev = Some(cur);
        let d_total: u64 = if cur.total >= prev.total {
            cur.total - prev.total
        } else {
            0
        };
        let d_idle: u64 = if cur.idle >= prev.idle {
            cur.idle - prev.idle
        } else {
            0
        };
        if d_total == 0 {
            return None;
        }
        let busy: u64 = if d_total >= d_idle {
            d_total - d_idle
        } else {
            0
        };
        let tenths: u64 = (((busy as u128) * 1000) / (d_total as u128)) as u64;
        proof {
            assert((busy as int) * 1000 / (d_total as int) <= 1000) by (nonlinear_arith)
                requires
                    1 <= d_total,
                    0 <= busy <= d_total,
            ;
        }
        let cores = if num_cores >= 1 {
            num_cores
        } else {
            1
        };
        Some(CpuInfo { utilization_tenths_percent: tenths, num_cores: cores })
    }
}

/// The saturating sum of a counter list.
pub open spec fn spec_counter_sum(fields: Seq<u64>) -> int
    decreases fields.len(),
{
    if fields.len() == 0 {
        0
    } else {
        spec_counter_sum(fields.drop_last()) + fields.last()
    }
}

/// Interprets the aggregate processor counter fields, in their canonical
/// order (user, nice, system, idle, iowait, and further counters): idle time
/// is the idle and iowait columns, total time the sum of all. Fewer than
/// four fields cannot be interpreted. Sums saturate at the machine bound.
pub fn cpu_times_from_fields(fields: &Vec<u64>) -> (r: Option<CpuTimes>)
    ensures
        r is None <==> fields@.len() < 4,
        r matches Some(t) ==> ({
            let iowait: int = if fields@.len() > 4 {
                fields@[4] as int
            } else {
                0
            };
            t.idle as int == vstd::math::min(fields@[3] + iowait, u64::MAX as int)
                && t.total as int == vstd::math::min(spec_counter_sum(fields@), u64::MAX as int)
        }),
{
    if fields.len() < 4 {
        return None;
    }
    let iowait: u64 = if fields.len() > 4 {
        fields[4]
    } else {
        0
    };
    let idle: u64 = if fields[3] > u64::MAX - iowait {
        u64::MAX
    } else {
        fields[3] + iowait
    };
    let mut total: u64 = 0;
    let n = fields.len();
    let mut i: usize = 0;
    proof {
        lemma_counter_sum_nonneg(fields@.take(0));
    }
    while i < n
        invariant
            0 <= i <= n == fields@.len(),
            total as int == vstd::math::min(spec_counter_sum(fields@.take(i as int)), u64::MAX as int),
        decreases n - i,
    {
        proof {
            let pre = fields@.take(i as int);
            let now = fields@.take(i + 1 as int);
            assert(now.drop_last() =~= pre);
            assert(now.last() == fields@[i as int]);
            lemma_counter_sum_nonneg(pre);
        }
        let f = fields[i];
        if total > u64::MAX - f {
            total = u64::MAX;
        } else {
            total = total + f;
        }
        i += 1;
    }
    proof {
        assert(fields@.take(n as int) =~= fields@);
    }
    Some(CpuTimes { idle, total })
}

proof fn lemma_counter_sum_nonneg(fields: Seq<u64>)
    ensures
        spec_counter_sum(fields) >= 0,
    decreases fields.len(),
{
    if fields.len() > 0 {
        lemma_counter_sum_nonneg(fields.drop_last());
    }
}

/// A point-in-time snapshot of system metrics.
#[derive(Debug)]
pub struct MetricsSnapshot {
    pub gpu_memory: Vec<GpuMemoryInfo>,
    pub cpu: Option<CpuInfo>,
    pub containers: Vec<ContainerStatus>,
    pub queues: Vec<(String, crate::queue::QueueStats)>,
    pub gates: Vec<(String, crate::gate::GateSnapshot)>,
    pub disk: Option<DiskInfo>,
    pub active_reservation: Option<ActiveReservationInfo>,
    /// Collection time, minutes from the civil epoch.
    pub taken_at_min: i64,
}

} // verus!
