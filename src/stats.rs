use vstd::prelude::*;
use vstd::string::*;
use crate::format::{format_bytes, format_bytes_spec};
use crate::percent::{clamp_u64, lemma_clamp_add, lemma_percent_range, percent_of, percent_spec};

verus! {

/// Capacity of one mounted volume.
pub struct DiskReading {
    pub total: u64,
    pub available: u64,
}

/// Cumulative traffic of one network interface.
pub struct NetworkReading {
    pub sent: u64,
    pub received: u64,
}

/// What the GPU probe reports.
pub struct GpuReading {
    pub name: Option<String>,
    /// Utilization in percent.
    pub load: u32,
    pub memory_used: u64,
    pub memory_total: u64,
    /// Degrees Celsius.
    pub temperature: Option<u32>,
}

/// Raw counters read from the operating system for one snapshot.
pub struct ResourceReading {
    /// Overall CPU usage in hundredths of a percent.
    pub cpu_usage: u64,
    /// Per logical core, in hundredths of a percent.
    pub per_core: Vec<u64>,
    pub physical_cores: usize,
    pub logical_cores: usize,
    pub memory_total: u64,
    pub memory_available: u64,
    pub memory_used: u64,
    pub disks: Vec<DiskReading>,
    pub networks: Vec<NetworkReading>,
    pub uptime_seconds: u64,
    pub os: String,
    /// Seconds since the epoch.
    pub timestamp: u64,
    pub gpu: Option<GpuReading>,
}

/// All percentages below are in hundredths of a percent.
pub struct CpuStats {
    pub percent: u64,
    pub per_core: Vec<u64>,
    pub physical_cores: usize,
    pub logical_cores: usize,
}

pub struct MemoryStats {
    pub total: u64,
    pub available: u64,
    pub used: u64,
    pub percent: u64,
    pub total_formatted: String,
    pub used_formatted: String,
}

pub struct DiskStats {
    pub total: u64,
    pub used: u64,
    pub free: u64,
    pub percent: u64,
    pub total_formatted: String,
    pub used_formatted: String,
}

pub struct NetworkStats {
    pub bytes_sent: u64,
    pub bytes_recv: u64,
    pub bytes_sent_formatted: String,
    pub bytes_recv_formatted: String,
}

pub struct GpuStats {
    pub name: String,
    pub load: u64,
    pub memory_used: u64,
    pub memory_total: u64,
    pub memory_percent: u64,
    pub memory_used_formatted: String,
    pub memory_total_formatted: String,
    pub temperature: Option<u32>,
}

pub struct ResourceSnapshot {
    pub timestamp: u64,
    pub cpu: CpuStats,
    pub memory: MemoryStats,
    pub disk: DiskStats,
    pub network: NetworkStats,
    pub os: String,
    pub uptime_seconds: u64,
    pub gpu: Option<GpuStats>,
}

/// `x` hundredths of a percent, capped at 100%.
pub open spec fn cap_percent(x: int) -> int {
    if x > 10000 { 10000 } else { x }
}

/// Space in use on a volume: capacity less what is free, never below zero.
pub open spec fn disk_used(d: DiskReading) -> int {
    if d.available > d.total { 0 } else { d.total - d.available }
}

pub open spec fn disk_total_sum(s: Seq<DiskReading>) -> int
    decreases s.len(),
{
    if s.len() == 0 { 0 } else { disk_total_sum(s.drop_last()) + s.last().total }
}

pub open spec fn disk_used_sum(s: Seq<DiskReading>) -> int
    decreases s.len(),
{
    if s.len() == 0 { 0 } else { disk_used_sum(s.drop_last()) + disk_used(s.last()) }
}

pub open spec fn sent_sum(s: Seq<NetworkReading>) -> int
    decreases s.len(),
{
    if s.len() == 0 { 0 } else { sent_sum(s.drop_last()) + s.last().sent }
}

pub open spec fn received_sum(s: Seq<NetworkReading>) -> int
    decreases s.len(),
{
    if s.len() == 0 { 0 } else { received_sum(s.drop_last()) + s.last().received }
}

proof fn lemma_disk_sums(s: Seq<DiskReading>)
    ensures
        0 <= disk_used_sum(s) <= disk_total_sum(s),
    decreases s.len(),
{
    if s.len() > 0 {
        lemma_disk_sums(s.drop_last());
    }
}

proof fn lemma_network_sums(s: Seq<NetworkReading>)
    ensures
        sent_sum(s) >= 0,
        received_sum(s) >= 0,
    decreases s.len(),
{
    if s.len() > 0 {
        lemma_network_sums(s.drop_last());
    }
}

/// Total and used space over all volumes, each capped at the largest `u64`.
pub fn disk_totals(disks: &Vec<DiskReading>) -> (r: (u64, u64))
    ensures
        r.0 as int == clamp_u64(disk_total_sum(disks@)),
        r.1 as int == clamp_u64(disk_used_sum(disks@)),
        r.1 <= r.0,
{
    let mut total: u64 = 0;
    let mut used: u64 = 0;
    let mut i: usize = 0;
    while i < disks.len()
        invariant
            i <= disks@.len(),
            total as int == clamp_u64(disk_total_sum(disks@.take(i as int))),
            used as int == clamp_u64(disk_used_sum(disks@.take(i as int))),
        decreases disks@.len() - i,
    {
        let d = &disks[i];
        let u = d.total.saturating_sub(d.available);
        proof {
            let t = disks@.take(i as int);
            assert(disks@.take(i + 1).drop_last() =~= t);
            lemma_disk_sums(t);
            lemma_clamp_add(disk_total_sum(t), d.total as int);
            lemma_clamp_add(disk_used_sum(t), u as int);
        }
        total = total.saturating_add(d.total);
        used = used.saturating_add(u);
        i = i + 1;
    }
    proof {
        assert(disks@.take(disks@.len() as int) =~= disks@);
        lemma_disk_sums(disks@);
    }
    (total, used)
}

/// Bytes sent and received over all interfaces, each capped at the largest `u64`.
pub fn network_totals(networks: &Vec<NetworkReading>) -> (r: (u64, u64))
    ensures
        r.0 as int == clamp_u64(sent_sum(networks@)),
        r.1 as int == clamp_u64(received_sum(networks@)),
{
    let mut sent: u64 = 0;
    let mut received: u64 = 0;
    let mut i: usize = 0;
    while i < networks.len()
        invariant
            i <= networks@.len(),
            sent as int == clamp_u64(sent_sum(networks@.take(i as int))),
            received as int == clamp_u64(received_sum(networks@.take(i as int))),
        decreases networks@.len() - i,
    {
        let n = &networks[i];
        proof {
            let t = networks@.take(i as int);
            assert(networks@.take(i + 1).drop_last() =~= t);
            lemma_network_sums(t);
            lemma_clamp_add(sent_sum(t), n.sent as int);
            lemma_clamp_add(received_sum(t), n.received as int);
        }
        sent = sent.saturating_add(n.sent);
        received = received.saturating_add(n.received);
        i = i + 1;
    }
    proof {
        assert(networks@.take(networks@.len() as int) =~= networks@);
    }
    (sent, received)
}

/// Per-core usage, each value capped at 100%.
pub fn cap_per_core(per_core: &Vec<u64>) -> (r: Vec<u64>)
    ensures
        r@.len() == per_core@.len(),
        forall|i: int| 0 <= i < r@.len() ==> r@[i] as int == cap_percent(per_core@[i] as int),
{
    let mut r: Vec<u64> = Vec::new();
    let mut i: usize = 0;
    while i < per_core.len()
        invariant
            i <= per_core@.len(),
            r@.len() == i,
            forall|k: int| 0 <= k < i ==> r@[k] as int == cap_percent(per_core@[k] as int),
        decreases per_core@.len() - i,
    {
        let x = per_core[i];
        r.push(if x > 10000 { 10000 } else { x });
        i = i + 1;
    }
    r
}

pub open spec fn unknown_gpu_name() -> Seq<char> {
    seq!['U', 'n', 'k', 'n', 'o', 'w', 'n', ' ', 'G', 'P', 'U']
}

/// `g` is the GPU telemetry listed for reading `x`: utilization in hundredths
/// of a percent, capped at 100%, and the share of its memory in use.
pub open spec fn gpu_stats_of(g: GpuStats, x: GpuReading) -> bool {
    &&& g.name@ == (match x.name {
        Some(n) => n@,
        None => unknown_gpu_name(),
    })
    &&& g.load as int == cap_percent(x.load as int * 100)
    &&& g.memory_used == x.memory_used
    &&& g.memory_total == x.memory_total
    &&& g.memory_percent as int == clamp_u64(percent_spec(x.memory_used as nat, x.memory_total as nat) as int)
    &&& g.memory_used_formatted@ == format_bytes_spec(x.memory_used as nat)
    &&& g.memory_total_formatted@ == format_bytes_spec(x.memory_total as nat)
    &&& g.temperature == x.temperature
}

/// GPU telemetry as listed: utilization in hundredths of a percent, capped at
/// 100%, and the share of its memory in use.
pub fn get_gpu_stats(g: GpuReading) -> (r: GpuStats)
    ensures
        gpu_stats_of(r, g),
{
    let name = match g.name {
        Some(n) => n,
        None => {
            proof {
                reveal_strlit("Unknown GPU");
            }
            let n = String::from_str("Unknown GPU");
            assert(n@ =~= unknown_gpu_name());
            n
        },
    };
    let load: u64 = if g.load >= 100 { 10000 } else { g.load as u64 * 100 };
    GpuStats {
        name,
        load,
        memory_used: g.memory_used,
        memory_total: g.memory_total,
        memory_percent: percent_of(g.memory_used, g.memory_total),
        memory_used_formatted: format_bytes(g.memory_used),
        memory_total_formatted: format_bytes(g.memory_total),
        temperature: g.temperature,
    }
}

/// Every percentage of a snapshot is within 0..=100%, but for the memory
/// shares, which exceed it only when more is used than exists.
pub open spec fn percents_in_range(s: ResourceSnapshot) -> bool {
    &&& s.cpu.percent <= 10000
    &&& forall|i: int| 0 <= i < s.cpu.per_core@.len() ==> s.cpu.per_core@[i] <= 10000
    &&& s.disk.percent <= 10000
    &&& s.memory.percent > 10000 ==> s.memory.used > s.memory.total
    &&& (s.gpu matches Some(g) ==> g.load <= 10000 && (g.memory_percent > 10000 ==> g.memory_used
        > g.memory_total))
}

/// A resource snapshot from raw counters: volumes and interfaces summed,
/// shares of memory and disk derived (0 where the whole is 0), each byte
/// count also written out for people.
pub fn get_stats(r: ResourceReading) -> (s: ResourceSnapshot)
    ensures
        percents_in_range(s),
        s.timestamp == r.timestamp,
        s.cpu.percent as int == cap_percent(r.cpu_usage as int),
        s.cpu.per_core@.len() == r.per_core@.len(),
        forall|i: int| 0 <= i < s.cpu.per_core@.len() ==> s.cpu.per_core@[i] as int == cap_percent(r.per_core@[i] as int),
        s.cpu.physical_cores == r.physical_cores,
        s.cpu.logical_cores == r.logical_cores,
        s.memory.total == r.memory_total,
        s.memory.available == r.memory_available,
        s.memory.used == r.memory_used,
        s.memory.percent as int == clamp_u64(percent_spec(r.memory_used as nat, r.memory_total as nat) as int),
        s.memory.total_formatted@ == format_bytes_spec(r.memory_total as nat),
        s.memory.used_formatted@ == format_bytes_spec(r.memory_used as nat),
        s.disk.total as int == clamp_u64(disk_total_sum(r.disks@)),
        s.disk.used as int == clamp_u64(disk_used_sum(r.disks@)),
        s.disk.free == s.disk.total - s.disk.used,
        s.disk.percent as int == percent_spec(s.disk.used as nat, s.disk.total as nat),
        s.disk.total_formatted@ == format_bytes_spec(s.disk.total as nat),
        s.disk.used_formatted@ == format_bytes_spec(s.disk.used as nat),
        s.network.bytes_sent as int == clamp_u64(sent_sum(r.networks@)),
        s.network.bytes_recv as int == clamp_u64(received_sum(r.networks@)),
        s.network.bytes_sent_formatted@ == format_bytes_spec(s.network.bytes_sent as nat),
        s.network.bytes_recv_formatted@ == format_bytes_spec(s.network.bytes_recv as nat),
        s.os == r.os,
        s.uptime_seconds == r.uptime_seconds,
        s.gpu is Some <==> r.gpu is Some,
        s.gpu matches Some(g) ==> r.gpu matches Some(x) && gpu_stats_of(g, x),
{
    let (disk_total, disk_used) = disk_totals(&r.disks);
    let (sent, received) = network_totals(&r.networks);
    let per_core = cap_per_core(&r.per_core);
    let memory_percent = percent_of(r.memory_used, r.memory_total);
    let disk_percent = percent_of(disk_used, disk_total);
    proof {
        lemma_percent_range(r.memory_used as nat, r.memory_total as nat);
        lemma_percent_range(disk_used as nat, disk_total as nat);
    }
    let gpu = match r.gpu {
        Some(g) => {
            let ghost gu = g.memory_used;
            let ghost gt = g.memory_total;
            proof {
                lemma_percent_range(gu as nat, gt as nat);
            }
            Some(get_gpu_stats(g))
        },
        None => None,
    };
    ResourceSnapshot {
        timestamp: r.timestamp,
        cpu: CpuStats {
            percent: if r.cpu_usage > 10000 { 10000 } else { r.cpu_usage },
            per_core,
            physical_cores: r.physical_cores,
            logical_cores: r.logical_cores,
        },
        memory: MemoryStats {
            total: r.memory_total,
            available: r.memory_available,
            used: r.memory_used,
            percent: memory_percent,
            total_formatted: format_bytes(r.memory_total),
            used_formatted: format_bytes(r.memory_used),
        },
        disk: DiskStats {
            total: disk_total,
            used: disk_used,
            free: disk_total - disk_used,
            percent: disk_percent,
            total_formatted: format_bytes(disk_total),
            used_formatted: format_bytes(disk_used),
        },
        network: NetworkStats {
            bytes_sent: sent,
            bytes_recv: received,
            bytes_sent_formatted: format_bytes(sent),
            bytes_recv_formatted: format_bytes(received),
        },
        os: r.os,
        uptime_seconds: r.uptime_seconds,
        gpu,
    }
}

} // verus!
