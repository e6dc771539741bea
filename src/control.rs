use vstd::prelude::*;
use vstd::string::*;
use crate::format::{decimal, push_decimal};
use crate::format::{format_bytes, format_bytes_spec};
use crate::process::{ProcessSample, ProcessStatus, get_process_status, status_text};

verus! {

/// Why a control operation failed.
#[derive(Clone, Copy, Debug, PartialEq, Eq, Structural)]
pub enum ControlError {
    /// No process with that id is in the current table.
    NotFound,
    /// The operating system refused, or no process of a set was terminated.
    Forbidden,
}

/// Acknowledgement of a control operation.
pub struct Ack {
    pub success: bool,
    pub message: String,
}

/// The single table of process and resource data that all requests share.
pub struct SystemState {
    pub processes: Vec<ProcessSample>,
    pub logical_cores: u64,
    pub total_memory: u64,
}

pub open spec fn pids_of(s: Seq<ProcessSample>) -> Seq<u32> {
    s.map_values(|p: ProcessSample| p.pid)
}

/// Index of the first process of `s` with id `pid`.
pub open spec fn lookup(s: Seq<ProcessSample>, pid: u32) -> Option<int>
    decreases s.len(),
{
    if s.len() == 0 {
        None
    } else {
        match lookup(s.drop_last(), pid) {
            Some(i) => Some(i),
            None => if s.last().pid == pid {
                Some(s.len() - 1)
            } else {
                None
            },
        }
    }
}

pub open spec fn terminated_message(name: Seq<char>) -> Seq<char> {
    seq!['P', 'r', 'o', 'c', 'e', 's', 's', ' '] + name + seq![' ', 't', 'e', 'r', 'm', 'i', 'n', 'a', 't', 'e', 'd']
}

pub open spec fn group_message(n: nat) -> Seq<char> {
    seq!['T', 'e', 'r', 'm', 'i', 'n', 'a', 't', 'e', 'd', ' '] + decimal(n) + seq![
        ' ', 'p', 'r', 'o', 'c', 'e', 's', 's', '(', 'e', 's', ')'
    ]
}

/// Outcome of terminating `pid` in table `s`, where `killed` is whether the
/// operating system accepted the termination request sent to it.
pub open spec fn terminate_spec(s: Seq<ProcessSample>, pid: u32, killed: bool) -> Result<Seq<char>, ControlError> {
    match lookup(s, pid) {
        None => Err(ControlError::NotFound),
        Some(i) => if killed {
            Ok(terminated_message(s[i].name@))
        } else {
            Err(ControlError::Forbidden)
        },
    }
}

/// The ids of `pids` that the table `s` holds, in their order, repeats kept.
pub open spec fn present_pids(pids: Seq<u32>, s: Seq<ProcessSample>) -> Seq<u32>
    decreases pids.len(),
{
    if pids.len() == 0 {
        seq![]
    } else {
        let p = present_pids(pids.drop_last(), s);
        if lookup(s, pids.last()) is Some {
            p.push(pids.last())
        } else {
            p
        }
    }
}

pub open spec fn count_true(s: Seq<bool>) -> nat
    decreases s.len(),
{
    if s.len() == 0 {
        0
    } else {
        count_true(s.drop_last()) + if s.last() { 1nat } else { 0nat }
    }
}

proof fn lemma_lookup_prefix(s: Seq<ProcessSample>, k: int, pid: u32)
    requires
        0 <= k <= s.len(),
        lookup(s.take(k), pid) is Some,
    ensures
        lookup(s, pid) == lookup(s.take(k), pid),
    decreases s.len() - k,
{
    if k < s.len() {
        assert(s.take(k + 1).drop_last() =~= s.take(k));
        lemma_lookup_prefix(s, k + 1, pid);
    } else {
        assert(s.take(k) =~= s);
    }
}

proof fn lemma_lookup_found(s: Seq<ProcessSample>, pid: u32)
    ensures
        lookup(s, pid) is Some <==> pids_of(s).contains(pid),
        lookup(s, pid) matches Some(i) ==> 0 <= i < s.len() && s[i].pid == pid,
    decreases s.len(),
{
    if s.len() > 0 {
        lemma_lookup_found(s.drop_last(), pid);
        assert(pids_of(s.drop_last()) =~= pids_of(s).drop_last());
        if pids_of(s).contains(pid) {
            let k = choose|k: int| 0 <= k < pids_of(s).len() && pids_of(s)[k] == pid;
            if k < s.len() - 1 {
                assert(pids_of(s.drop_last())[k] == pid);
            }
        }
        if pids_of(s.drop_last()).contains(pid) {
            let k = choose|k: int| 0 <= k < pids_of(s.drop_last()).len() && pids_of(s.drop_last())[k] == pid;
            assert(pids_of(s)[k] == pid);
        }
        assert(pids_of(s)[s.len() - 1] == s.last().pid);
    }
}

/// A process id that the table does not hold is never terminated: the
/// attempt fails with `NotFound`, whatever the system would answer.
pub proof fn lemma_terminate_absent(s: Seq<ProcessSample>, pid: u32, killed: bool)
    requires
        !pids_of(s).contains(pid),
    ensures
        terminate_spec(s, pid, killed) == Err::<Seq<char>, ControlError>(ControlError::NotFound),
{
    lemma_lookup_found(s, pid);
}

/// A set of terminations with no success fails with `Forbidden`.
pub proof fn lemma_group_without_success(killed: Seq<bool>)
    requires
        forall|i: int| 0 <= i < killed.len() ==> !killed[i],
    ensures
        count_true(killed) == 0,
    decreases killed.len(),
{
    if killed.len() > 0 {
        lemma_group_without_success(killed.drop_last());
    }
}

/// Detailed view of one process.
pub struct ProcessDetail {
    pub pid: u32,
    pub name: String,
    pub status: String,
    /// Owning user; `None` when it is not known.
    pub username: Option<String>,
    pub create_time: u64,
    /// CPU usage in hundredths of a percent of one core, as sampled.
    pub cpu_percent: u64,
    pub rss: u64,
    pub vms: u64,
    pub rss_formatted: String,
    pub vms_formatted: String,
    pub num_threads: usize,
    pub exe: Option<String>,
    pub cwd: Option<String>,
    /// The arguments joined by single spaces.
    pub cmdline: String,
    pub connections: usize,
    pub open_files: usize,
}

/// The arguments separated by single spaces.
pub open spec fn joined(args: Seq<String>) -> Seq<char>
    decreases args.len(),
{
    if args.len() == 0 {
        seq![]
    } else if args.len() == 1 {
        args[0]@
    } else {
        joined(args.drop_last()) + seq![' '] + args.last()@
    }
}

/// Joins arguments with single spaces.
pub fn join_args(args: &Vec<String>) -> (r: String)
    ensures
        r@ == joined(args@),
{
    let mut r = String::new();
    let mut i: usize = 0;
    while i < args.len()
        invariant
            i <= args@.len(),
            r@ == joined(args@.take(i as int)),
        decreases args@.len() - i,
    {
        proof {
            reveal_strlit(" ");
            assert(args@.take(i + 1).drop_last() =~= args@.take(i as int));
        }
        if i > 0 {
            r.append(" ");
        }
        r.append(args[i].as_str());
        proof {
            if i == 0 {
                assert(r@ =~= joined(args@.take(1)));
            } else {
                assert(args@.take(i + 1).len() == i + 1);
                assert(args@.take(i + 1).last() == args@[i as int]);
                assert(r@ =~= joined(args@.take(i + 1)));
            }
        }
        i = i + 1;
    }
    proof {
        assert(args@.take(args@.len() as int) =~= args@);
    }
    r
}

fn clone_text(p: &Option<String>) -> (r: Option<String>)
    ensures
        r == *p,
{
    match p {
        Some(s) => Some(s.clone()),
        None => None,
    }
}

impl SystemState {
    /// A state with an empty process table.
    pub fn new(logical_cores: u64, total_memory: u64) -> (r: SystemState)
        ensures
            r.processes@.len() == 0,
            r.logical_cores == logical_cores,
            r.total_memory == total_memory,
    {
        SystemState { processes: Vec::new(), logical_cores, total_memory }
    }

    /// Replaces the process table, and the core count and total memory read
    /// with it, by a fresh listing.
    pub fn refresh_processes(&mut self, fresh: Vec<ProcessSample>, logical_cores: u64, total_memory: u64)
        ensures
            final(self).processes@ == fresh@,
            final(self).logical_cores == logical_cores,
            final(self).total_memory == total_memory,
    {
        self.processes = fresh;
        self.logical_cores = logical_cores;
        self.total_memory = total_memory;
    }

    /// Position of the first process with id `pid`; `NotFound` when there is none.
    pub fn find_process(&self, pid: u32) -> (r: Result<usize, ControlError>)
        ensures
            r matches Ok(i) ==> lookup(self.processes@, pid) == Some(i as int),
            r matches Err(e) ==> lookup(self.processes@, pid) is None && e == ControlError::NotFound,
            r is Err <==> !pids_of(self.processes@).contains(pid),
            r matches Ok(i) ==> i < self.processes@.len() && self.processes@[i as int].pid == pid,
    {
        let ghost s = self.processes@;
        proof {
            lemma_lookup_found(s, pid);
        }
        let mut j: usize = 0;
        while j < self.processes.len()
            invariant
                j <= s.len(),
                s == self.processes@,
                lookup(s.take(j as int), pid) is None,
            decreases s.len() - j,
        {
            proof {
                assert(s.take(j + 1).drop_last() =~= s.take(j as int));
            }
            if self.processes[j].pid == pid {
                proof {
                    assert(s.take(j + 1).last() == s[j as int]);
                    assert(lookup(s.take(j + 1), pid) == Some(j as int));
                    lemma_lookup_prefix(s, j + 1, pid);
                    assert(pids_of(s)[j as int] == pid);
                }
                return Ok(j);
            }
            j = j + 1;
        }
        proof {
            assert(s.take(s.len() as int) =~= s);
        }
        Err(ControlError::NotFound)
    }

    /// Details of the first process with id `pid`; `NotFound` when there is none.
    pub fn get_process_info(&self, pid: u32) -> (r: Result<ProcessDetail, ControlError>)
        ensures
            r is Err <==> !pids_of(self.processes@).contains(pid),
            r matches Err(e) ==> e == ControlError::NotFound,
            r matches Ok(d) ==> ({
                let p = self.processes@[lookup(self.processes@, pid)->Some_0];
                &&& d.pid == pid
                &&& d.name == p.name
                &&& d.status@ == status_text(p.status)
                &&& d.username is None
                &&& d.create_time == p.start_time
                &&& d.cpu_percent == p.cpu_usage
                &&& d.rss == p.memory_bytes
                &&& d.vms == p.virtual_memory_bytes
                &&& d.rss_formatted@ == format_bytes_spec(p.memory_bytes as nat)
                &&& d.vms_formatted@ == format_bytes_spec(p.virtual_memory_bytes as nat)
                &&& d.num_threads == p.num_threads
                &&& d.exe == p.exe
                &&& d.cwd == p.cwd
                &&& d.cmdline@ == joined(p.cmdline@)
                &&& d.connections == 0
                &&& d.open_files == 0
            }),
    {
        match self.find_process(pid) {
            Err(e) => Err(e),
            Ok(i) => {
                let p = &self.processes[i];
                Ok(ProcessDetail {
                    pid,
                    name: p.name.clone(),
                    status: get_process_status(p.status),
                    username: None,
                    create_time: p.start_time,
                    cpu_percent: p.cpu_usage,
                    rss: p.memory_bytes,
                    vms: p.virtual_memory_bytes,
                    rss_formatted: format_bytes(p.memory_bytes),
                    vms_formatted: format_bytes(p.virtual_memory_bytes),
                    num_threads: p.num_threads,
                    exe: clone_text(&p.exe),
                    cwd: clone_text(&p.cwd),
                    cmdline: join_args(&p.cmdline),
                    connections: 0,
                    open_files: 0,
                })
            },
        }
    }

    /// Terminates `pid`: `NotFound` when the table lacks it, `Forbidden` when the
    /// system refused (`killed` false), else an acknowledgement naming the process.
    pub fn terminate(&self, pid: u32, killed: bool) -> (r: Result<Ack, ControlError>)
        ensures
            match (r, terminate_spec(self.processes@, pid, killed)) {
                (Ok(a), Ok(m)) => a.success && a.message@ == m,
                (Err(e), Err(f)) => e == f,
                _ => false,
            },
    {
        match self.find_process(pid) {
            Err(e) => Err(e),
            Ok(i) => {
                assert(lookup(self.processes@, pid) == Some(i as int));
                if killed {
                    proof {
                        reveal_strlit("Process ");
                        reveal_strlit(" terminated");
                    }
                    let mut message = String::from_str("Process ");
                    message.append(self.processes[i].name.as_str());
                    message.append(" terminated");
                    assert(message@ =~= terminated_message(self.processes@[i as int].name@));
                    Ok(Ack { success: true, message })
                } else {
                    Err(ControlError::Forbidden)
                }
            },
        }
    }

    /// The ids of `pids` that the table holds, to which termination requests go.
    pub fn group_targets(&self, pids: &Vec<u32>) -> (r: Vec<u32>)
        ensures
            r@ == present_pids(pids@, self.processes@),
    {
        let mut r: Vec<u32> = Vec::new();
        let mut i: usize = 0;
        while i < pids.len()
            invariant
                i <= pids@.len(),
                r@ == present_pids(pids@.take(i as int), self.processes@),
            decreases pids@.len() - i,
        {
            proof {
                assert(pids@.take(i + 1).drop_last() =~= pids@.take(i as int));
            }
            if self.find_process(pids[i]).is_ok() {
                r.push(pids[i]);
            }
            i = i + 1;
        }
        proof {
            assert(pids@.take(pids@.len() as int) =~= pids@);
        }
        r
    }
}

/// Result of terminating a set of processes, given which of the requests the
/// system accepted: success iff at least one did.
pub fn terminate_group(killed: &Vec<bool>) -> (r: Result<Ack, ControlError>)
    ensures
        r is Err <==> count_true(killed@) == 0,
        r matches Err(e) ==> e == ControlError::Forbidden,
        r matches Ok(a) ==> a.success && a.message@ == group_message(count_true(killed@)),
{
    let mut count: u64 = 0;
    let mut i: usize = 0;
    while i < killed.len()
        invariant
            i <= killed@.len(),
            count as nat == count_true(killed@.take(i as int)),
            count <= i,
        decreases killed@.len() - i,
    {
        proof {
            assert(killed@.take(i + 1).drop_last() =~= killed@.take(i as int));
        }
        if killed[i] {
            count = count + 1;
        }
        i = i + 1;
    }
    proof {
        assert(killed@.take(killed@.len() as int) =~= killed@);
    }
    if count == 0 {
        return Err(ControlError::Forbidden);
    }
    proof {
        reveal_strlit("Terminated ");
        reveal_strlit(" process(es)");
    }
    let mut message = String::from_str("Terminated ");
    push_decimal(&mut message, count as u128);
    message.append(" process(es)");
    assert(message@ =~= group_message(count as nat));
    Ok(Ack { success: true, message })
}

pub open spec fn suspend_message() -> Seq<char> {
    seq!['S', 'u', 's', 'p', 'e', 'n', 'd', ' ', 'n', 'o', 't', ' ', 'y', 'e', 't', ' ', 'i', 'm', 'p', 'l', 'e', 'm', 'e', 'n', 't', 'e', 'd', ' ', 'i', 'n', ' ', 'R', 'u', 's', 't', ' ', 'b', 'a', 'c', 'k', 'e', 'n', 'd']
}

pub open spec fn resume_message() -> Seq<char> {
    seq!['R', 'e', 's', 'u', 'm', 'e', ' ', 'n', 'o', 't', ' ', 'y', 'e', 't', ' ', 'i', 'm', 'p', 'l', 'e', 'm', 'e', 'n', 't', 'e', 'd', ' ', 'i', 'n', ' ', 'R', 'u', 's', 't', ' ', 'b', 'a', 'c', 'k', 'e', 'n', 'd']
}

/// Placeholder: acknowledges any id without touching the process, and says so.
pub fn suspend_process(pid: u32) -> (r: Result<Ack, ControlError>)
    ensures
        r matches Ok(a) && a.success && a.message@ == suspend_message(),
{
    proof {
        reveal_strlit("Suspend not yet implemented in Rust backend");
    }
    let message = String::from_str("Suspend not yet implemented in Rust backend");
    assert(message@ =~= suspend_message());
    Ok(Ack { success: true, message })
}

/// Placeholder: acknowledges any id without touching the process, and says so.
pub fn resume_process(pid: u32) -> (r: Result<Ack, ControlError>)
    ensures
        r matches Ok(a) && a.success && a.message@ == resume_message(),
{
    proof {
        reveal_strlit("Resume not yet implemented in Rust backend");
    }
    let message = String::from_str("Resume not yet implemented in Rust backend");
    assert(message@ =~= resume_message());
    Ok(Ack { success: true, message })
}

} // verus!
