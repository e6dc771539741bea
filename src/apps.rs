use vstd::prelude::*;
use crate::percent::{clamp_u64, lemma_clamp_add};
use crate::process::{ProcessRecord, ProcessStatus};
use crate::ranking::{CpuRanked, sort_by_cpu_desc, sorted_desc, with_rank};

verus! {

/// All processes that share one display name, presented as one application.
pub struct AppGroup {
    pub name: String,
    pub pids: Vec<u32>,
    /// Summed CPU usage of the members, in hundredths of a percent.
    pub cpu_percent: u64,
    /// Summed memory share of the members, in hundredths of a percent.
    pub memory_percent: u64,
    /// Summed resident memory of the members.
    pub memory_bytes: u64,
    pub status: ProcessStatus,
    pub process_count: usize,
    /// Executable of the first member.
    pub exe: Option<String>,
    pub is_closeable: bool,
}

pub struct AppGroupView {
    pub name: Seq<char>,
    pub pids: Seq<u32>,
    pub cpu_percent: u64,
    pub memory_percent: u64,
    pub memory_bytes: u64,
    pub status: ProcessStatus,
    pub process_count: nat,
    pub exe: Option<String>,
    pub is_closeable: bool,
}

impl View for AppGroup {
    type V = AppGroupView;

    open spec fn view(&self) -> AppGroupView {
        AppGroupView {
            name: self.name@,
            pids: self.pids@,
            cpu_percent: self.cpu_percent,
            memory_percent: self.memory_percent,
            memory_bytes: self.memory_bytes,
            status: self.status,
            process_count: self.process_count as nat,
            exe: self.exe,
            is_closeable: self.is_closeable,
        }
    }
}

impl CpuRanked for AppGroup {
    open spec fn rank(&self) -> u64 {
        self.cpu_percent
    }

    fn cpu_rank(&self) -> (r: u64) {
        self.cpu_percent
    }
}

/// The distinct display names of `s`, in order of first appearance.
pub open spec fn names_of(s: Seq<ProcessRecord>) -> Seq<Seq<char>>
    decreases s.len(),
{
    if s.len() == 0 {
        seq![]
    } else {
        let p = names_of(s.drop_last());
        if p.contains(s.last().name@) {
            p
        } else {
            p.push(s.last().name@)
        }
    }
}

/// The records of `s` named `n`, in their order in `s`.
pub open spec fn members(s: Seq<ProcessRecord>, n: Seq<char>) -> Seq<ProcessRecord>
    decreases s.len(),
{
    if s.len() == 0 {
        seq![]
    } else {
        let p = members(s.drop_last(), n);
        if s.last().name@ == n {
            p.push(s.last())
        } else {
            p
        }
    }
}

pub open spec fn cpu_sum(m: Seq<ProcessRecord>) -> int
    decreases m.len(),
{
    if m.len() == 0 { 0 } else { cpu_sum(m.drop_last()) + m.last().cpu_percent }
}

pub open spec fn memory_percent_sum(m: Seq<ProcessRecord>) -> int
    decreases m.len(),
{
    if m.len() == 0 { 0 } else { memory_percent_sum(m.drop_last()) + m.last().memory_percent }
}

pub open spec fn memory_bytes_sum(m: Seq<ProcessRecord>) -> int
    decreases m.len(),
{
    if m.len() == 0 { 0 } else { memory_bytes_sum(m.drop_last()) + m.last().memory_bytes }
}

/// The application named `n` in `s`: its members' ids and summed usage (capped
/// at the largest `u64`), the executable of its first member, always running
/// and closeable.
pub open spec fn group_of(s: Seq<ProcessRecord>, n: Seq<char>) -> AppGroupView {
    let m = members(s, n);
    AppGroupView {
        name: n,
        pids: m.map_values(|r: ProcessRecord| r.pid),
        cpu_percent: clamp_u64(cpu_sum(m)) as u64,
        memory_percent: clamp_u64(memory_percent_sum(m)) as u64,
        memory_bytes: clamp_u64(memory_bytes_sum(m)) as u64,
        status: ProcessStatus::Running,
        process_count: m.len(),
        exe: m[0].exe,
        is_closeable: true,
    }
}

/// One application per distinct name of `s`, in order of first appearance.
pub open spec fn app_groups(s: Seq<ProcessRecord>) -> Seq<AppGroupView> {
    names_of(s).map_values(|n: Seq<char>| group_of(s, n))
}

/// The applications of `g` whose summed CPU is `v`, in their order in `g`.
pub open spec fn apps_with_cpu(g: Seq<AppGroupView>, v: u64) -> Seq<AppGroupView>
    decreases g.len(),
{
    if g.len() == 0 {
        seq![]
    } else {
        let p = apps_with_cpu(g.drop_last(), v);
        if g.last().cpu_percent == v {
            p.push(g.last())
        } else {
            p
        }
    }
}

pub open spec fn views(g: Seq<AppGroup>) -> Seq<AppGroupView> {
    g.map_values(|a: AppGroup| a@)
}

proof fn lemma_names_distinct(s: Seq<ProcessRecord>)
    ensures
        names_of(s).no_duplicates(),
    decreases s.len(),
{
    if s.len() > 0 {
        lemma_names_distinct(s.drop_last());
    }
}

proof fn lemma_members_of_name(s: Seq<ProcessRecord>, n: Seq<char>)
    ensures
        names_of(s).contains(n) <==> members(s, n).len() > 0,
        members(s, n).len() <= s.len(),
    decreases s.len(),
{
    if s.len() > 0 {
        lemma_members_of_name(s.drop_last(), n);
        let p = names_of(s.drop_last());
        if !p.contains(s.last().name@) {
            assert(p.push(s.last().name@).last() == s.last().name@);
            assert forall|x: Seq<char>| p.contains(x) implies names_of(s).contains(x) by {
                let k = choose|k: int| 0 <= k < p.len() && p[k] == x;
                assert(names_of(s)[k] == x);
            }
            if names_of(s).contains(n) && n != s.last().name@ {
                let k = choose|k: int| 0 <= k < names_of(s).len() && names_of(s)[k] == n;
                assert(p[k] == n);
            }
        }
    }
}

proof fn lemma_sums_nonneg(m: Seq<ProcessRecord>)
    ensures
        cpu_sum(m) >= 0,
        memory_percent_sum(m) >= 0,
        memory_bytes_sum(m) >= 0,
    decreases m.len(),
{
    if m.len() > 0 {
        lemma_sums_nonneg(m.drop_last());
    }
}

proof fn lemma_apps_with_cpu_views(g: Seq<AppGroup>, v: u64)
    ensures
        views(with_rank(g, v)) == apps_with_cpu(views(g), v),
    decreases g.len(),
{
    if g.len() > 0 {
        lemma_apps_with_cpu_views(g.drop_last(), v);
        assert(views(g).drop_last() =~= views(g.drop_last()));
        let p = with_rank(g.drop_last(), v);
        assert(views(p.push(g.last())) =~= views(p).push(g.last()@));
    }
}

fn clone_path(p: &Option<String>) -> (r: Option<String>)
    ensures
        r == *p,
{
    match p {
        Some(s) => Some(s.clone()),
        None => None,
    }
}

/// One application per distinct display name, in order of first appearance.
pub fn group_by_name(records: &Vec<ProcessRecord>) -> (r: Vec<AppGroup>)
    ensures
        views(r@) == app_groups(records@),
{
    let ghost s = records@;
    let mut groups: Vec<AppGroup> = Vec::new();
    let mut i: usize = 0;
    while i < records.len()
        invariant
            i <= s.len(),
            s == records@,
            groups@.len() == names_of(s.take(i as int)).len(),
            forall|j: int| 0 <= j < groups@.len() ==>
                #[trigger] groups@[j]@ == group_of(s.take(i as int), names_of(s.take(i as int))[j]),
        decreases s.len() - i,
    {
        let ghost t = s.take(i as int);
        let ghost t2 = s.take(i + 1);
        let rec = &records[i];
        proof {
            assert(t2.drop_last() =~= t);
            assert(t2.last() == *rec);
            lemma_names_distinct(t);
        }
        let mut j: usize = 0;
        while j < groups.len() && groups[j].name != rec.name
            invariant
                j <= groups@.len(),
                forall|k: int| 0 <= k < j ==> groups@[k].name@ != rec.name@,
            decreases groups@.len() - j,
        {
            j = j + 1;
        }
        let ghost old_groups = groups@;
        if j < groups.len() {
            let ghost n = rec.name@;
            proof {
                assert(old_groups[j as int]@ == group_of(t, names_of(t)[j as int]));
                assert(names_of(t)[j as int] == n);
                assert(names_of(t).contains(n));
                assert(names_of(t2) == names_of(t));
                lemma_members_of_name(t, n);
                lemma_members_of_name(s, n);
            }
            let mut g = groups.remove(j);
            proof {
                lemma_members_of_name(t2, n);
            }
            g.pids.push(rec.pid);
            g.cpu_percent = g.cpu_percent.saturating_add(rec.cpu_percent);
            g.memory_percent = g.memory_percent.saturating_add(rec.memory_percent);
            g.memory_bytes = g.memory_bytes.saturating_add(rec.memory_bytes);
            g.process_count = g.process_count + 1;
            proof {
                let m = members(t, n);
                assert(members(t2, n) == m.push(*rec));
                assert(m.push(*rec).drop_last() =~= m);
                lemma_sums_nonneg(m);
                lemma_clamp_add(cpu_sum(m), rec.cpu_percent as int);
                lemma_clamp_add(memory_percent_sum(m), rec.memory_percent as int);
                lemma_clamp_add(memory_bytes_sum(m), rec.memory_bytes as int);
                assert(m.push(*rec).map_values(|r: ProcessRecord| r.pid) =~= m.map_values(
                    |r: ProcessRecord| r.pid,
                ).push(rec.pid));
                assert(g@ == group_of(t2, n));
            }
            groups.insert(j, g);
            proof {
                assert forall|k: int| 0 <= k < groups@.len() implies #[trigger] groups@[k]@
                    == group_of(t2, names_of(t2)[k]) by {
                    if k != j {
                        assert(groups@[k] == old_groups[k]);
                        assert(names_of(t)[k] != n);
                        assert(members(t2, names_of(t)[k]) == members(t, names_of(t)[k]));
                    }
                }
            }
        } else {
            let ghost n = rec.name@;
            proof {
                assert forall|k: int| 0 <= k < names_of(t).len() implies names_of(t)[k] != n by {
                    assert(old_groups[k]@ == group_of(t, names_of(t)[k]));
                }
                assert(!names_of(t).contains(n));
                assert(names_of(t2) == names_of(t).push(n));
                lemma_members_of_name(t, n);
                lemma_members_of_name(s, n);
                assert(members(t, n) =~= Seq::<ProcessRecord>::empty());
                assert(members(t2, n) == seq![*rec]);
                assert(seq![*rec].drop_last() =~= Seq::<ProcessRecord>::empty());
                assert(seq![*rec].map_values(|r: ProcessRecord| r.pid) =~= seq![rec.pid]);
                assert(seq![*rec].last() == *rec);
                assert(cpu_sum(seq![*rec].drop_last()) == 0);
                assert(memory_percent_sum(seq![*rec].drop_last()) == 0);
                assert(memory_bytes_sum(seq![*rec].drop_last()) == 0);
                assert(cpu_sum(seq![*rec]) == rec.cpu_percent);
                assert(memory_percent_sum(seq![*rec]) == rec.memory_percent);
                assert(memory_bytes_sum(seq![*rec]) == rec.memory_bytes);
            }
            let g = AppGroup {
                name: rec.name.clone(),
                pids: vec![rec.pid],
                cpu_percent: rec.cpu_percent,
                memory_percent: rec.memory_percent,
                memory_bytes: rec.memory_bytes,
                status: ProcessStatus::Running,
                process_count: 1,
                exe: clone_path(&rec.exe),
                is_closeable: true,
            };
            proof {
                assert(g.pids@ =~= seq![rec.pid]);
                assert(g@ == group_of(t2, n));
            }
            groups.push(g);
            proof {
                assert forall|k: int| 0 <= k < groups@.len() implies #[trigger] groups@[k]@
                    == group_of(t2, names_of(t2)[k]) by {
                    if k < old_groups.len() {
                        assert(groups@[k] == old_groups[k]);
                        assert(names_of(t)[k] != n);
                        assert(members(t2, names_of(t)[k]) == members(t, names_of(t)[k]));
                    }
                }
            }
        }
        i = i + 1;
    }
    proof {
        assert(s.take(s.len() as int) =~= s);
        assert(views(groups@) =~= app_groups(s));
    }
    groups
}

/// The application list: one group per display name with exact sums over its
/// members, highest summed CPU first.
pub fn get_apps(records: &Vec<ProcessRecord>) -> (r: Vec<AppGroup>)
    ensures
        r@.len() == names_of(records@).len(),
        sorted_desc(r@),
        forall|v: u64| #[trigger] apps_with_cpu(views(r@), v) == apps_with_cpu(app_groups(records@), v),
        forall|k: int| 0 <= k < r@.len() ==> app_groups(records@).contains(#[trigger] r@[k]@),
        forall|j: int| 0 <= j < app_groups(records@).len() ==> views(r@).contains(#[trigger] app_groups(records@)[j]),
{
    let groups = group_by_name(records);
    let r = sort_by_cpu_desc(groups);
    proof {
        assert(views(groups@).len() == groups@.len());
        assert forall|k: int| 0 <= k < r@.len() implies app_groups(records@).contains(#[trigger] r@[k]@) by {
            assert(r@.contains(r@[k]));
            vstd::seq_lib::to_multiset_contains(r@, r@[k]);
            vstd::seq_lib::to_multiset_contains(groups@, r@[k]);
            let j = choose|j: int| 0 <= j < groups@.len() && groups@[j] == r@[k];
            assert(views(groups@)[j] == r@[k]@);
        }
        assert forall|j: int| 0 <= j < app_groups(records@).len() implies views(r@).contains(
            #[trigger] app_groups(records@)[j],
        ) by {
            assert(views(groups@)[j] == groups@[j]@);
            assert(groups@.contains(groups@[j]));
            vstd::seq_lib::to_multiset_contains(r@, groups@[j]);
            vstd::seq_lib::to_multiset_contains(groups@, groups@[j]);
            let k = choose|k: int| 0 <= k < r@.len() && r@[k] == groups@[j];
            assert(views(r@)[k] == app_groups(records@)[j]);
        }
        assert(app_groups(records@).len() == names_of(records@).len());
        assert forall|v: u64| #[trigger] apps_with_cpu(views(r@), v) == apps_with_cpu(
            app_groups(records@),
            v,
        ) by {
            lemma_apps_with_cpu_views(r@, v);
            lemma_apps_with_cpu_views(groups@, v);
            assert(with_rank(r@, v) == with_rank(groups@, v));
        }
    }
    r
}

/// The ids of the records of `s`.
pub open spec fn record_pids(s: Seq<ProcessRecord>) -> Seq<u32> {
    s.map_values(|r: ProcessRecord| r.pid)
}

proof fn lemma_members_from(s: Seq<ProcessRecord>, n: Seq<char>, m: int)
    requires
        0 <= m < members(s, n).len(),
    ensures
        s.contains(members(s, n)[m]),
    decreases s.len(),
{
    if s.len() > 0 {
        let p = members(s.drop_last(), n);
        if m < p.len() {
            lemma_members_from(s.drop_last(), n, m);
            let j = choose|j: int| 0 <= j < s.drop_last().len() && s.drop_last()[j] == p[m];
            assert(s[j] == p[m]);
        } else {
            assert(s[s.len() - 1] == s.last());
        }
    }
}

proof fn lemma_record_grouped(s: Seq<ProcessRecord>, i: int)
    requires
        0 <= i < s.len(),
    ensures
        names_of(s).contains(s[i].name@),
        members(s, s[i].name@).contains(s[i]),
    decreases s.len(),
{
    let n = s[i].name@;
    let p = members(s.drop_last(), n);
    if i < s.len() - 1 {
        lemma_record_grouped(s.drop_last(), i);
        let k = choose|k: int| 0 <= k < p.len() && p[k] == s[i];
        if s.last().name@ == n {
            assert(members(s, n)[k] == s[i]);
        } else {
            assert(members(s, n)[k] == s[i]);
        }
        let q = names_of(s.drop_last());
        let a = choose|a: int| 0 <= a < q.len() && q[a] == n;
        if !q.contains(s.last().name@) {
            assert(names_of(s)[a] == n);
        }
    } else {
        assert(members(s, n)[p.len() as int] == s[i]);
        if !names_of(s.drop_last()).contains(n) {
            assert(names_of(s)[names_of(s).len() - 1] == n);
        }
    }
}

/// Some application of `g` lists `pid`.
pub open spec fn in_some_group(g: Seq<AppGroupView>, pid: u32) -> bool {
    exists|k: int| 0 <= k < g.len() && g[k].pids.contains(pid)
}

/// Grouping keeps every process and invents none: each id in an application
/// is the id of one of the records, and each record's id is in the
/// application of its name.
pub proof fn lemma_group_ids(s: Seq<ProcessRecord>)
    ensures
        forall|k: int, m: int|
            0 <= k < app_groups(s).len() && 0 <= m < app_groups(s)[k].pids.len() ==> record_pids(s).contains(
                #[trigger] app_groups(s)[k].pids[m],
            ),
        forall|i: int| 0 <= i < s.len() ==> in_some_group(app_groups(s), #[trigger] record_pids(s)[i]),
{
    assert forall|k: int, m: int|
        0 <= k < app_groups(s).len() && 0 <= m < app_groups(s)[k].pids.len() implies record_pids(s).contains(
        #[trigger] app_groups(s)[k].pids[m],
    ) by {
        let n = names_of(s)[k];
        lemma_members_from(s, n, m);
        let j = choose|j: int| 0 <= j < s.len() && s[j] == members(s, n)[m];
        assert(record_pids(s)[j] == app_groups(s)[k].pids[m]);
    }
    assert forall|i: int| 0 <= i < s.len() implies in_some_group(app_groups(s), #[trigger] record_pids(s)[i]) by {
        lemma_record_grouped(s, i);
        let n = s[i].name@;
        let k = choose|k: int| 0 <= k < names_of(s).len() && names_of(s)[k] == n;
        let m = choose|m: int| 0 <= m < members(s, n).len() && members(s, n)[m] == s[i];
        assert(app_groups(s)[k] == group_of(s, n));
        assert(app_groups(s)[k].pids.len() == members(s, n).len());
        assert(app_groups(s)[k].pids[m] == members(s, n)[m].pid);
        assert(record_pids(s)[i] == s[i].pid);
        assert(app_groups(s)[k].pids.contains(record_pids(s)[i]));
    }
}

} // verus!
