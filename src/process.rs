use vstd::prelude::*;
use vstd::string::*;
use crate::percent::{percent_of, percent_spec, clamp_u64};
use crate::ranking::{CpuRanked, sort_by_cpu_desc, stable_desc_of};

verus! {

/// Lifecycle state of a process.
#[derive(Clone, Copy, Debug, PartialEq, Eq, Structural)]
pub enum ProcessStatus {
    Running,
    Sleeping,
    Stopped,
    Zombie,
    Dead,
    Unknown,
}

pub open spec fn status_text(s: ProcessStatus) -> Seq<char> {
    match s {
        ProcessStatus::Running => seq!['r', 'u', 'n', 'n', 'i', 'n', 'g'],
        ProcessStatus::Sleeping => seq!['s', 'l', 'e', 'e', 'p', 'i', 'n', 'g'],
        ProcessStatus::Stopped => seq!['s', 't', 'o', 'p', 'p', 'e', 'd'],
        ProcessStatus::Zombie => seq!['z', 'o', 'm', 'b', 'i', 'e'],
        ProcessStatus::Dead => seq!['d', 'e', 'a', 'd'],
        ProcessStatus::Unknown => seq!['u', 'n', 'k', 'n', 'o', 'w', 'n'],
    }
}

/// The lower-case label of a status.
pub fn get_process_status(status: ProcessStatus) -> (r: String)
    ensures
        r@ == status_text(status),
{
    proof {
        reveal_strlit("running");
        reveal_strlit("sleeping");
        reveal_strlit("stopped");
        reveal_strlit("zombie");
        reveal_strlit("dead");
        reveal_strlit("unknown");
    }
    let r = match status {
        ProcessStatus::Running => String::from_str("running"),
        ProcessStatus::Sleeping => String::from_str("sleeping"),
        ProcessStatus::Stopped => String::from_str("stopped"),
        ProcessStatus::Zombie => String::from_str("zombie"),
        ProcessStatus::Dead => String::from_str("dead"),
        ProcessStatus::Unknown => String::from_str("unknown"),
    };
    assert(r@ =~= status_text(status));
    r
}

/// One process as the operating system reports it in one sample.
#[derive(Clone)]
pub struct ProcessSample {
    pub pid: u32,
    pub name: String,
    /// CPU usage in hundredths of a percent of one core; may reach 100% per core.
    pub cpu_usage: u64,
    pub memory_bytes: u64,
    pub virtual_memory_bytes: u64,
    pub status: ProcessStatus,
    pub num_threads: usize,
    /// Start time in seconds since the epoch.
    pub start_time: u64,
    pub exe: Option<String>,
    pub cwd: Option<String>,
    pub cmdline: Vec<String>,
}

/// A process as listed to callers.
pub struct ProcessRecord {
    pub pid: u32,
    pub name: String,
    /// Owning user; `None` when it is not known.
    pub username: Option<String>,
    /// CPU usage in hundredths of a percent, divided by the logical core count.
    pub cpu_percent: u64,
    /// Resident memory in hundredths of a percent of total memory.
    pub memory_percent: u64,
    pub memory_bytes: u64,
    pub status: ProcessStatus,
    pub num_threads: usize,
    pub start_time: u64,
    pub exe: Option<String>,
    pub cwd: Option<String>,
    pub cmdline: Vec<String>,
    pub is_protected: bool,
}

impl CpuRanked for ProcessRecord {
    open spec fn rank(&self) -> u64 {
        self.cpu_percent
    }

    fn cpu_rank(&self) -> (r: u64) {
        self.cpu_percent
    }
}

/// CPU usage shared out over the logical cores; 0 when no core is known.
pub open spec fn normalized_cpu(raw: u64, logical_cores: u64) -> u64 {
    if logical_cores == 0 {
        0
    } else {
        (raw / logical_cores) as u64
    }
}

/// The record listed for a sample, given the core count and total memory of
/// the same snapshot.
pub open spec fn record_of(s: ProcessSample, logical_cores: u64, total_memory: u64) -> ProcessRecord {
    ProcessRecord {
        pid: s.pid,
        name: s.name,
        username: None,
        cpu_percent: normalized_cpu(s.cpu_usage, logical_cores),
        memory_percent: clamp_u64(percent_spec(s.memory_bytes as nat, total_memory as nat) as int) as u64,
        memory_bytes: s.memory_bytes,
        status: s.status,
        num_threads: s.num_threads,
        start_time: s.start_time,
        exe: s.exe,
        cwd: s.cwd,
        cmdline: s.cmdline,
        is_protected: false,
    }
}

pub open spec fn records_of(samples: Seq<ProcessSample>, logical_cores: u64, total_memory: u64) -> Seq<ProcessRecord> {
    samples.map_values(|s: ProcessSample| record_of(s, logical_cores, total_memory))
}

/// Turns one sample into its listed record.
pub fn to_record(s: ProcessSample, logical_cores: u64, total_memory: u64) -> (r: ProcessRecord)
    ensures
        r == record_of(s, logical_cores, total_memory),
{
    let cpu_percent: u64 = if logical_cores == 0 {
        0
    } else {
        s.cpu_usage / logical_cores
    };
    let memory_percent = percent_of(s.memory_bytes, total_memory);
    ProcessRecord {
        pid: s.pid,
        name: s.name,
        username: None,
        cpu_percent,
        memory_percent,
        memory_bytes: s.memory_bytes,
        status: s.status,
        num_threads: s.num_threads,
        start_time: s.start_time,
        exe: s.exe,
        cwd: s.cwd,
        cmdline: s.cmdline,
        is_protected: false,
    }
}

/// Records of all samples, in the order given.
pub fn to_records(samples: Vec<ProcessSample>, logical_cores: u64, total_memory: u64) -> (r: Vec<ProcessRecord>)
    ensures
        r@ == records_of(samples@, logical_cores, total_memory),
{
    let ghost orig = samples@;
    let mut rest = samples;
    let mut out: Vec<ProcessRecord> = Vec::new();
    while rest.len() > 0
        invariant
            rest@.len() <= orig.len(),
            rest@ == orig.skip(orig.len() - rest@.len()),
            out@ == records_of(orig.take(orig.len() - rest@.len()), logical_cores, total_memory),
        decreases rest@.len(),
    {
        let ghost k = orig.len() - rest@.len();
        let s = rest.remove(0);
        assert(s == orig[k]);
        out.push(to_record(s, logical_cores, total_memory));
        assert(orig.skip(k + 1) =~= rest@);
        assert(out@ =~= records_of(orig.take(k + 1), logical_cores, total_memory));
    }
    assert(orig.take(orig.len() as int) =~= orig);
    out
}

/// The flat process list: every sample as a record, highest CPU first, and
/// records of equal CPU in their order of enumeration.
pub fn get_processes(samples: Vec<ProcessSample>, logical_cores: u64, total_memory: u64) -> (r: Vec<ProcessRecord>)
    ensures
        r@.len() == samples@.len(),
        r@.to_multiset() == records_of(samples@, logical_cores, total_memory).to_multiset(),
        stable_desc_of(r@, records_of(samples@, logical_cores, total_memory)),
{
    let records = to_records(samples, logical_cores, total_memory);
    sort_by_cpu_desc(records)
}

} // verus!
