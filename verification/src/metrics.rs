//! Derived metrics: CPU and memory percentages and summed I/O counters,
//! computed from two instantaneous engine snapshots. Percentages are
//! integral milli-percent (percent scaled by 1000) so the arithmetic is
//! exact; sums saturate rather than wrap.

use vstd::prelude::*;

use crate::models::ContainerMetrics;
use crate::models::SystemMetrics;
use crate::docker::spec_clean_name;
use crate::docker::clean_container_name;
use crate::strutil::str_eq;

verus! {

/// An absent engine counter counts as zero.
pub open spec fn opt0(o: Option<u64>) -> u64 {
    match o {
        Some(v) => v,
        None => 0,
    }
}

/// Delta between two counters; a regressing counter counts as zero.
pub open spec fn sat_sub(a: u64, b: u64) -> u64 {
    if a >= b {
        (a - b) as u64
    } else {
        0
    }
}

/// A mathematical value clamped into `u64`.
pub open spec fn clamp_u64(i: int) -> u64 {
    if i > u64::MAX {
        u64::MAX
    } else if i < 0 {
        0
    } else {
        i as u64
    }
}

/// CPU usage in milli-percent: `Δcpu / Δsystem × cpus × 100000`, zero
/// when the system counter has not advanced (guards division by zero
/// and the first sample after start). An absent CPU count counts as one.
pub open spec fn spec_cpu_percent_milli(
    cpu_total: Option<u64>,
    precpu_total: Option<u64>,
    system_cpu: Option<u64>,
    presystem_cpu: Option<u64>,
    online_cpus: Option<u32>,
) -> u64 {
    let cd = sat_sub(opt0(cpu_total), opt0(precpu_total));
    let sd = sat_sub(opt0(system_cpu), opt0(presystem_cpu));
    let nc: u64 = match online_cpus {
        Some(c) => c as u64,
        None => 1,
    };
    if sd > 0 {
        clamp_u64((cd as int * nc as int * 100000) / sd as int)
    } else {
        0
    }
}

/// Computes the CPU milli-percent figure.
pub fn compute_cpu_percent_milli(
    cpu_total: Option<u64>,
    precpu_total: Option<u64>,
    system_cpu: Option<u64>,
    presystem_cpu: Option<u64>,
    online_cpus: Option<u32>,
) -> (r: u64)
    ensures
        r == spec_cpu_percent_milli(cpu_total, precpu_total, system_cpu, presystem_cpu, online_cpus),
{
    let ct: u64 = match cpu_total {
        Some(v) => v,
        None => 0,
    };
    let pct: u64 = match precpu_total {
        Some(v) => v,
        None => 0,
    };
    let st: u64 = match system_cpu {
        Some(v) => v,
        None => 0,
    };
    let pst: u64 = match presystem_cpu {
        Some(v) => v,
        None => 0,
    };
    let cd: u64 = if ct >= pct {
        ct - pct
    } else {
        0
    };
    let sd: u64 = if st >= pst {
        st - pst
    } else {
        0
    };
    let nc: u64 = match online_cpus {
        Some(c) => c as u64,
        None => 1,
    };
    if sd == 0 {
        return 0;
    }
    proof {
        assert(cd as int * nc as int <= u64::MAX as int * 0xffff_ffffi64 as int)
            by (nonlinear_arith)
            requires
                cd <= u64::MAX,
                nc <= 0xffff_ffffu64,
        ;
        assert(cd as int * nc as int * 100000 <= u64::MAX as int * 0xffff_ffffi64 as int * 100000)
            by (nonlinear_arith)
            requires
                cd as int * nc as int <= u64::MAX as int * 0xffff_ffffi64 as int,
        ;
    }
    let prod: u128 = (cd as u128) * (nc as u128) * 100000;
    let q: u128 = prod / (sd as u128);
    if q > u64::MAX as u128 {
        u64::MAX
    } else {
        q as u64
    }
}

/// Memory usage in milli-percent of the limit; zero when no limit is
/// reported.
pub open spec fn spec_memory_percent_milli(usage: Option<u64>, limit: Option<u64>) -> u64 {
    let u = opt0(usage);
    let l = opt0(limit);
    if l > 0 {
        clamp_u64((u as int * 100000) / l as int)
    } else {
        0
    }
}

/// Computes the memory milli-percent figure.
pub fn compute_memory_percent_milli(usage: Option<u64>, limit: Option<u64>) -> (r: u64)
    ensures
        r == spec_memory_percent_milli(usage, limit),
{
    let u: u64 = match usage {
        Some(v) => v,
        None => 0,
    };
    let l: u64 = match limit {
        Some(v) => v,
        None => 0,
    };
    if l == 0 {
        return 0;
    }
    let prod: u128 = (u as u128) * 100000;
    let q: u128 = prod / (l as u128);
    if q > u64::MAX as u128 {
        u64::MAX
    } else {
        q as u64
    }
}

// ---------------------------------------------------------------------------
// Summed counters
// ---------------------------------------------------------------------------

/// Received and transmitted byte counters of one network interface.
pub struct NetworkCounters {
    pub rx_bytes: u64,
    pub tx_bytes: u64,
}

/// The mathematical sum of received bytes across interfaces.
pub open spec fn spec_sum_rx(s: Seq<NetworkCounters>) -> int
    decreases s.len(),
{
    if s.len() == 0 {
        0
    } else {
        spec_sum_rx(s.drop_last()) + s.last().rx_bytes
    }
}

/// The mathematical sum of transmitted bytes across interfaces.
pub open spec fn spec_sum_tx(s: Seq<NetworkCounters>) -> int
    decreases s.len(),
{
    if s.len() == 0 {
        0
    } else {
        spec_sum_tx(s.drop_last()) + s.last().tx_bytes
    }
}

proof fn lemma_sum_nonneg(s: Seq<NetworkCounters>)
    ensures
        spec_sum_rx(s) >= 0,
        spec_sum_tx(s) >= 0,
    decreases s.len(),
{
    if s.len() > 0 {
        lemma_sum_nonneg(s.drop_last());
    }
}

/// Sums rx and tx bytes across all interfaces, saturating at `u64::MAX`.
pub fn sum_network(interfaces: &Vec<NetworkCounters>) -> (r: (u64, u64))
    ensures
        r.0 == clamp_u64(spec_sum_rx(interfaces@)),
        r.1 == clamp_u64(spec_sum_tx(interfaces@)),
{
    let n: usize = interfaces.len();
    let mut rx: u64 = 0;
    let mut tx: u64 = 0;
    let mut i: usize = 0;
    proof {
        assert(interfaces@.take(0) =~= Seq::<NetworkCounters>::empty());
    }
    while i < n
        invariant
            n == interfaces@.len(),
            i <= n,
            rx == clamp_u64(spec_sum_rx(interfaces@.take(i as int))),
            tx == clamp_u64(spec_sum_tx(interfaces@.take(i as int))),
        decreases n - i,
    {
        proof {
            assert(interfaces@.take(i + 1).drop_last() =~= interfaces@.take(i as int));
            assert(interfaces@.take(i + 1).last() == interfaces@[i as int]);
            lemma_sum_nonneg(interfaces@.take(i as int));
        }
        let a = interfaces[i].rx_bytes;
        rx = if rx > u64::MAX - a {
            u64::MAX
        } else {
            rx + a
        };
        let b = interfaces[i].tx_bytes;
        tx = if tx > u64::MAX - b {
            u64::MAX
        } else {
            tx + b
        };
        i = i + 1;
    }
    proof {
        assert(interfaces@.take(n as int) =~= interfaces@);
    }
    (rx, tx)
}

/// One recursive block-I/O counter: the operation it counts and the
/// byte value.
pub struct BlkioEntry {
    pub op: String,
    pub value: u64,
}

pub struct BlkioEntryView {
    pub op: Seq<char>,
    pub value: u64,
}

impl View for BlkioEntry {
    type V = BlkioEntryView;

    open spec fn view(&self) -> BlkioEntryView {
        BlkioEntryView { op: self.op@, value: self.value }
    }
}

/// The mathematical sum of the counters whose operation is `op`.
pub open spec fn spec_blkio_sum(s: Seq<BlkioEntryView>, op: Seq<char>) -> int
    decreases s.len(),
{
    if s.len() == 0 {
        0
    } else if s.last().op == op {
        spec_blkio_sum(s.drop_last(), op) + s.last().value
    } else {
        spec_blkio_sum(s.drop_last(), op)
    }
}

proof fn lemma_blkio_sum_nonneg(s: Seq<BlkioEntryView>, op: Seq<char>)
    ensures
        spec_blkio_sum(s, op) >= 0,
    decreases s.len(),
{
    if s.len() > 0 {
        lemma_blkio_sum_nonneg(s.drop_last(), op);
    }
}

/// Sums the byte counters of one operation category across all devices,
/// saturating at `u64::MAX`; absent data yields zero.
pub fn blkio_total(entries: &Vec<BlkioEntry>, op: &str) -> (r: u64)
    ensures
        r == clamp_u64(spec_blkio_sum(entries@.map_values(|e: BlkioEntry| e@), op@)),
{
    let ghost ev = entries@.map_values(|e: BlkioEntry| e@);
    let n: usize = entries.len();
    let mut acc: u64 = 0;
    let mut i: usize = 0;
    proof {
        assert(ev.take(0) =~= Seq::<BlkioEntryView>::empty());
    }
    while i < n
        invariant
            n == entries@.len(),
            ev == entries@.map_values(|e: BlkioEntry| e@),
            i <= n,
            acc == clamp_u64(spec_blkio_sum(ev.take(i as int), op@)),
        decreases n - i,
    {
        proof {
            assert(ev.take(i + 1).drop_last() =~= ev.take(i as int));
            assert(ev.take(i + 1).last() == ev[i as int]);
            assert(ev[i as int] == entries@[i as int]@);
            lemma_blkio_sum_nonneg(ev.take(i as int), op@);
        }
        if str_eq(entries[i].op.as_str(), op) {
            let v = entries[i].value;
            acc = if acc > u64::MAX - v {
                u64::MAX
            } else {
                acc + v
            };
        }
        i = i + 1;
    }
    proof {
        assert(ev.take(n as int) =~= ev);
    }
    acc
}

// ---------------------------------------------------------------------------
// Assembly
// ---------------------------------------------------------------------------

/// One engine stats snapshot, reduced to the counters this computation
/// reads. Absent fields keep their engine meaning: zero, except the CPU
/// count which defaults to one.
pub struct StatsSnapshot {
    pub cpu_total_usage: Option<u64>,
    pub precpu_total_usage: Option<u64>,
    pub system_cpu_usage: Option<u64>,
    pub presystem_cpu_usage: Option<u64>,
    pub online_cpus: Option<u32>,
    pub memory_usage: Option<u64>,
    pub memory_limit: Option<u64>,
    pub networks: Vec<NetworkCounters>,
    pub blkio: Vec<BlkioEntry>,
    pub pids: Option<u64>,
}

/// Turns one snapshot into the per-container metrics record: exact CPU
/// and memory percentages in milli-percent, network and block-I/O
/// totals, and the container's cleaned display name.
pub fn compute_container_metrics(
    container_id: String,
    raw_name: &str,
    timestamp: i64,
    stats: &StatsSnapshot,
) -> (r: ContainerMetrics)
    ensures
        r.container_id@ == container_id@,
        r.container_name@ == spec_clean_name(raw_name@),
        r.timestamp == timestamp,
        r.cpu_usage_percent_milli == spec_cpu_percent_milli(
            stats.cpu_total_usage,
            stats.precpu_total_usage,
            stats.system_cpu_usage,
            stats.presystem_cpu_usage,
            stats.online_cpus,
        ),
        r.memory_usage_bytes == opt0(stats.memory_usage),
        r.memory_limit_bytes == opt0(stats.memory_limit),
        r.memory_usage_percent_milli == spec_memory_percent_milli(
            stats.memory_usage,
            stats.memory_limit,
        ),
        r.network_rx_bytes == clamp_u64(spec_sum_rx(stats.networks@)),
        r.network_tx_bytes == clamp_u64(spec_sum_tx(stats.networks@)),
        r.block_read_bytes == clamp_u64(
            spec_blkio_sum(stats.blkio@.map_values(|e: BlkioEntry| e@), "read"@),
        ),
        r.block_write_bytes == clamp_u64(
            spec_blkio_sum(stats.blkio@.map_values(|e: BlkioEntry| e@), "write"@),
        ),
        r.pids == opt0(stats.pids),
{
    let container_name = clean_container_name(raw_name);
    let cpu = compute_cpu_percent_milli(
        stats.cpu_total_usage,
        stats.precpu_total_usage,
        stats.system_cpu_usage,
        stats.presystem_cpu_usage,
        stats.online_cpus,
    );
    let mem_pct = compute_memory_percent_milli(stats.memory_usage, stats.memory_limit);
    let (rx, tx) = sum_network(&stats.networks);
    let block_read = blkio_total(&stats.blkio, "read");
    let block_write = blkio_total(&stats.blkio, "write");
    let memory_usage_bytes: u64 = match stats.memory_usage {
        Some(v) => v,
        None => 0,
    };
    let memory_limit_bytes: u64 = match stats.memory_limit {
        Some(v) => v,
        None => 0,
    };
    let pids: u64 = match stats.pids {
        Some(v) => v,
        None => 0,
    };
    ContainerMetrics {
        container_id,
        container_name,
        timestamp,
        cpu_usage_percent_milli: cpu,
        memory_usage_bytes,
        memory_limit_bytes,
        memory_usage_percent_milli: mem_pct,
        network_rx_bytes: rx,
        network_tx_bytes: tx,
        block_read_bytes: block_read,
        block_write_bytes: block_write,
        pids,
    }
}

/// Engine-wide counts: each a direct pass-through of the corresponding
/// list's length, truncated into the record's field width.
pub fn system_metrics_from_counts(
    timestamp: i64,
    total_containers: usize,
    running_containers: usize,
    total_images: usize,
    docker_version: String,
) -> (r: SystemMetrics)
    ensures
        r.timestamp == timestamp,
        r.total_containers == total_containers as u32,
        r.running_containers == running_containers as u32,
        r.total_images == total_images as u32,
        r.docker_version@ == docker_version@,
{
    SystemMetrics {
        timestamp,
        total_containers: #[verifier::truncate] (total_containers as u32),
        running_containers: #[verifier::truncate] (running_containers as u32),
        total_images: #[verifier::truncate] (total_images as u32),
        docker_version,
    }
}

} // verus!
