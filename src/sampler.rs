use vstd::prelude::*;
use crate::apps::{AppGroupView, app_groups, in_some_group, lemma_group_ids, record_pids};
use crate::control::{lookup, pids_of};
use crate::process::{ProcessRecord, ProcessSample, records_of};

verus! {

/// Length of the window between the two process refreshes, in milliseconds.
pub const SAMPLING_WINDOW_MS: u64 = 200;

/// Where a sampling run stands.
#[derive(Clone, Copy, Debug, PartialEq, Eq, Structural)]
pub enum SamplerPhase {
    Idle,
    /// The first refresh has been asked for.
    FirstRefresh,
    /// Waiting out the window, with the state unlocked.
    Window,
    /// The second refresh has been asked for.
    SecondRefresh,
    /// The table of the second refresh is ready for aggregation.
    Published,
}

/// What the driver of a sampling run reports back.
#[derive(Clone, Copy, Debug, PartialEq, Eq, Structural)]
pub enum SamplerEvent {
    Start,
    /// A refresh of the process table finished and the lock was released.
    Refreshed,
    WindowElapsed,
}

/// What the driver is to do next.
#[derive(Clone, Copy, Debug, PartialEq, Eq, Structural)]
pub enum SamplerAction {
    /// Lock the shared state, refresh its process table, unlock.
    RefreshProcesses,
    /// Sleep this many milliseconds without holding the lock.
    Wait(u64),
    /// Hand the current table to aggregation.
    Publish,
    /// The event does not apply in this phase.
    Nothing,
}

/// The two-phase sampling protocol: refresh, wait out the window, refresh
/// again, publish. Any other event leaves the phase as it is.
pub open spec fn sampler_next(p: SamplerPhase, e: SamplerEvent) -> (SamplerPhase, SamplerAction) {
    match (p, e) {
        (SamplerPhase::Idle, SamplerEvent::Start) => (SamplerPhase::FirstRefresh, SamplerAction::RefreshProcesses),
        (SamplerPhase::FirstRefresh, SamplerEvent::Refreshed) => (SamplerPhase::Window, SamplerAction::Wait(SAMPLING_WINDOW_MS)),
        (SamplerPhase::Window, SamplerEvent::WindowElapsed) => (SamplerPhase::SecondRefresh, SamplerAction::RefreshProcesses),
        (SamplerPhase::SecondRefresh, SamplerEvent::Refreshed) => (SamplerPhase::Published, SamplerAction::Publish),
        _ => (p, SamplerAction::Nothing),
    }
}

/// One step of the sampling protocol.
pub fn sampler_step(p: SamplerPhase, e: SamplerEvent) -> (r: (SamplerPhase, SamplerAction))
    ensures
        r == sampler_next(p, e),
{
    match (p, e) {
        (SamplerPhase::Idle, SamplerEvent::Start) => (SamplerPhase::FirstRefresh, SamplerAction::RefreshProcesses),
        (SamplerPhase::FirstRefresh, SamplerEvent::Refreshed) => (SamplerPhase::Window, SamplerAction::Wait(SAMPLING_WINDOW_MS)),
        (SamplerPhase::Window, SamplerEvent::WindowElapsed) => (SamplerPhase::SecondRefresh, SamplerAction::RefreshProcesses),
        (SamplerPhase::SecondRefresh, SamplerEvent::Refreshed) => (SamplerPhase::Published, SamplerAction::Publish),
        _ => (p, SamplerAction::Nothing),
    }
}

/// A run publishes only after two refreshes with the window between them.
pub proof fn lemma_publish_after_two_refreshes(p: SamplerPhase, e: SamplerEvent)
    requires
        sampler_next(p, e).1 == SamplerAction::Publish,
    ensures
        p == SamplerPhase::SecondRefresh,
        e == SamplerEvent::Refreshed,
        sampler_next(SamplerPhase::Window, SamplerEvent::WindowElapsed).0 == p,
        sampler_next(SamplerPhase::FirstRefresh, SamplerEvent::Refreshed).1 == SamplerAction::Wait(SAMPLING_WINDOW_MS),
{
}

/// When the two refreshes of a run list the same process ids, as they do on a
/// table that does not change, every id resolves to the same entry in both:
/// no id comes back meaning another process.
pub proof fn lemma_stable_sampling(first: Seq<ProcessSample>, second: Seq<ProcessSample>, pid: u32)
    requires
        pids_of(first) == pids_of(second),
    ensures
        lookup(first, pid) == lookup(second, pid),
        pids_of(first).contains(pid) == pids_of(second).contains(pid),
    decreases first.len(),
{
    assert(first.len() == pids_of(first).len());
    assert(second.len() == pids_of(second).len());
    if first.len() > 0 {
        assert(pids_of(first.drop_last()) =~= pids_of(first).drop_last());
        assert(pids_of(second.drop_last()) =~= pids_of(second).drop_last());
        lemma_stable_sampling(first.drop_last(), second.drop_last(), pid);
        assert(pids_of(first)[first.len() - 1] == first.last().pid);
        assert(pids_of(second)[second.len() - 1] == second.last().pid);
    }
}

/// Listing the second refresh of a run on a table where no process starts
/// between the two refreshes: every listed process was already in the first
/// refresh, and the listing holds exactly the ids of the second, so processes
/// that exited in between are simply absent.
pub proof fn lemma_listed_after_stable_sampling(
    first: Seq<ProcessSample>,
    second: Seq<ProcessSample>,
    listed: Seq<ProcessRecord>,
    logical_cores: u64,
    total_memory: u64,
)
    requires
        forall|pid: u32| pids_of(second).contains(pid) ==> pids_of(first).contains(pid),
        listed.to_multiset() == records_of(second, logical_cores, total_memory).to_multiset(),
    ensures
        forall|i: int| 0 <= i < listed.len() ==> pids_of(first).contains(#[trigger] listed[i].pid),
        forall|pid: u32| #[trigger]
            pids_of(second).contains(pid) <==> exists|i: int| 0 <= i < listed.len() && listed[i].pid == pid,
{
    broadcast use vstd::seq_lib::group_to_multiset_ensures;

    let recs = records_of(second, logical_cores, total_memory);
    assert forall|i: int| 0 <= i < listed.len() implies pids_of(second).contains(#[trigger] listed[i].pid) by {
        assert(listed.contains(listed[i]));
        vstd::seq_lib::to_multiset_contains(listed, listed[i]);
        vstd::seq_lib::to_multiset_contains(recs, listed[i]);
        assert(recs.contains(listed[i]));
        let j = choose|j: int| 0 <= j < recs.len() && recs[j] == listed[i];
        assert(pids_of(second)[j] == listed[i].pid);
    }
    assert forall|pid: u32| #[trigger] pids_of(second).contains(pid) implies exists|i: int|
        0 <= i < listed.len() && listed[i].pid == pid by {
        let j = choose|j: int| 0 <= j < pids_of(second).len() && pids_of(second)[j] == pid;
        assert(recs[j].pid == pid);
        assert(recs.contains(recs[j]));
        vstd::seq_lib::to_multiset_contains(listed, recs[j]);
        vstd::seq_lib::to_multiset_contains(recs, recs[j]);
        assert(listed.contains(recs[j]));
    }
}

/// Grouping the second refresh of a run on a table where no process starts
/// between the two refreshes: every id in a listed application was already in
/// the first refresh, and each process of the second refresh is in one of
/// them, so processes that exited in between are simply absent.
pub proof fn lemma_apps_after_stable_sampling(
    first: Seq<ProcessSample>,
    second: Seq<ProcessSample>,
    listed: Seq<AppGroupView>,
    logical_cores: u64,
    total_memory: u64,
)
    requires
        forall|pid: u32| pids_of(second).contains(pid) ==> pids_of(first).contains(pid),
        forall|k: int| 0 <= k < listed.len() ==> app_groups(records_of(second, logical_cores, total_memory)).contains(
            #[trigger] listed[k],
        ),
        forall|j: int| 0 <= j < app_groups(records_of(second, logical_cores, total_memory)).len() ==> listed.contains(
            #[trigger] app_groups(records_of(second, logical_cores, total_memory))[j],
        ),
    ensures
        forall|k: int, m: int| 0 <= k < listed.len() && 0 <= m < listed[k].pids.len() ==> pids_of(first).contains(
            #[trigger] listed[k].pids[m],
        ),
        forall|pid: u32| pids_of(second).contains(pid) ==> #[trigger] in_some_group(listed, pid),
{
    let recs = records_of(second, logical_cores, total_memory);
    let g = app_groups(recs);
    assert(record_pids(recs) =~= pids_of(second));
    lemma_group_ids(recs);
    assert forall|k: int, m: int| 0 <= k < listed.len() && 0 <= m < listed[k].pids.len() implies pids_of(
        first,
    ).contains(#[trigger] listed[k].pids[m]) by {
        assert(g.contains(listed[k]));
        let j = choose|j: int| 0 <= j < g.len() && g[j] == listed[k];
        assert(g[j].pids[m] == listed[k].pids[m]);
        assert(record_pids(recs).contains(g[j].pids[m]));
    }
    assert forall|pid: u32| pids_of(second).contains(pid) implies #[trigger] in_some_group(listed, pid) by {
        let i = choose|i: int| 0 <= i < pids_of(second).len() && pids_of(second)[i] == pid;
        assert(record_pids(recs)[i] == pid);
        assert(in_some_group(g, pid));
        let a = choose|a: int| 0 <= a < g.len() && g[a].pids.contains(pid);
        assert(listed.contains(g[a]));
        let k = choose|k: int| 0 <= k < listed.len() && listed[k] == g[a];
        assert(listed[k].pids.contains(pid));
    }
}

} // verus!
