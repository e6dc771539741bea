use taskmon::apps::{get_apps, group_by_name};
use taskmon::control::{
    join_args, resume_process, suspend_process, terminate_group, ControlError, SystemState,
};
use taskmon::process::{
    get_process_status, get_processes, to_records, ProcessRecord, ProcessSample, ProcessStatus,
};
use taskmon::sampler::{
    sampler_step, SamplerAction, SamplerEvent, SamplerPhase, SAMPLING_WINDOW_MS,
};

fn sample(pid: u32, name: &str, cpu_usage: u64, memory_bytes: u64) -> ProcessSample {
    ProcessSample {
        pid,
        name: name.to_string(),
        cpu_usage,
        memory_bytes,
        virtual_memory_bytes: 2 * memory_bytes,
        status: ProcessStatus::Sleeping,
        num_threads: 0,
        start_time: 100 + pid as u64,
        exe: Some(format!("/bin/{}{}", name, pid)),
        cwd: None,
        cmdline: vec![name.to_string(), "--flag".to_string()],
    }
}

fn records(samples: Vec<ProcessSample>) -> Vec<ProcessRecord> {
    to_records(samples, 1, 1 << 30)
}

const MIB: u64 = 1024 * 1024;

#[test]
fn test_negative_pid() {
    let pid: u32 = 0;
    #[allow(unused_comparisons)]
    let non_negative = pid >= 0;
    assert!(non_negative);
    let state = SystemState::new(4, 1 << 30);
    assert_eq!(state.find_process(pid), Err(ControlError::NotFound));
}

#[test]
fn test_max_pid() {
    let max_pid: u32 = u32::MAX;
    assert!(max_pid > 0);
    let mut state = SystemState::new(4, 1 << 30);
    state.refresh_processes(vec![sample(7, "a", 0, 0)], 4, 1 << 30);
    assert_eq!(state.find_process(max_pid), Err(ControlError::NotFound));
    assert!(state.get_process_info(max_pid).is_err());
}

#[test]
fn status_labels() {
    assert_eq!(get_process_status(ProcessStatus::Running), "running");
    assert_eq!(get_process_status(ProcessStatus::Sleeping), "sleeping");
    assert_eq!(get_process_status(ProcessStatus::Stopped), "stopped");
    assert_eq!(get_process_status(ProcessStatus::Zombie), "zombie");
    assert_eq!(get_process_status(ProcessStatus::Dead), "dead");
    assert_eq!(get_process_status(ProcessStatus::Unknown), "unknown");
}

#[test]
fn cpu_is_divided_by_logical_cores() {
    let r = to_records(vec![sample(1, "a", 20000, MIB)], 4, 4 * MIB);
    assert_eq!(r[0].cpu_percent, 5000);
    assert_eq!(r[0].memory_percent, 2500);
    assert!(r[0].username.is_none());
    assert!(!r[0].is_protected);
    let none = to_records(vec![sample(1, "a", 20000, MIB)], 0, 0);
    assert_eq!(none[0].cpu_percent, 0);
    assert_eq!(none[0].memory_percent, 0);
}

#[test]
fn process_list_sorted_and_stable() {
    let list = get_processes(
        vec![
            sample(1, "a", 100, 0),
            sample(2, "b", 300, 0),
            sample(3, "c", 100, 0),
            sample(4, "d", 300, 0),
            sample(5, "e", 200, 0),
        ],
        1,
        1 << 30,
    );
    let pids: Vec<u32> = list.iter().map(|r| r.pid).collect();
    assert_eq!(pids, vec![2, 4, 5, 1, 3]);
    for w in list.windows(2) {
        assert!(w[0].cpu_percent >= w[1].cpu_percent);
    }
}

#[test]
fn process_list_of_nothing_is_empty() {
    assert!(get_processes(Vec::new(), 8, 1 << 30).is_empty());
}

#[test]
fn app_groups_sum_exactly() {
    let recs = records(vec![
        sample(1, "x", 1000, MIB),
        sample(2, "x", 2000, 2 * MIB),
        sample(3, "y", 3000, 3 * MIB),
    ]);
    let apps = get_apps(&recs);
    assert_eq!(apps.len(), 2);
    let x = apps.iter().find(|a| a.name == "x").unwrap();
    let y = apps.iter().find(|a| a.name == "y").unwrap();
    assert_eq!(x.cpu_percent, 3000);
    assert_eq!(x.memory_bytes, 3 * MIB);
    assert_eq!(x.process_count, 2);
    assert_eq!(x.pids, vec![1, 2]);
    assert_eq!(x.exe, Some("/bin/x1".to_string()));
    assert_eq!(x.status, ProcessStatus::Running);
    assert!(x.is_closeable);
    assert_eq!(y.cpu_percent, 3000);
    assert_eq!(y.memory_bytes, 3 * MIB);
    assert_eq!(y.process_count, 1);
}

#[test]
fn app_groups_are_case_sensitive_and_sorted() {
    let recs = records(vec![
        sample(1, "Edit", 100, 0),
        sample(2, "edit", 500, 0),
        sample(3, "Edit", 100, 0),
        sample(4, "shell", 50, 0),
    ]);
    let grouped = group_by_name(&recs);
    let names: Vec<&str> = grouped.iter().map(|a| a.name.as_str()).collect();
    assert_eq!(names, vec!["Edit", "edit", "shell"]);
    let apps = get_apps(&recs);
    let names: Vec<&str> = apps.iter().map(|a| a.name.as_str()).collect();
    assert_eq!(names, vec!["edit", "Edit", "shell"]);
    assert_eq!(apps[1].cpu_percent, 200);
}

#[test]
fn terminate_absent_pid_is_not_found_every_time() {
    let mut state = SystemState::new(1, 1 << 30);
    state.refresh_processes(vec![sample(10, "a", 0, 0)], 1, 1 << 30);
    for killed in [true, false, true] {
        assert!(matches!(state.terminate(99, killed), Err(ControlError::NotFound)));
    }
}

#[test]
fn terminate_present_pid() {
    let mut state = SystemState::new(1, 1 << 30);
    state.refresh_processes(vec![sample(10, "a", 0, 0), sample(11, "editor", 0, 0)], 1, 1 << 30);
    assert!(matches!(state.terminate(11, false), Err(ControlError::Forbidden)));
    let ack = state.terminate(11, true).ok().unwrap();
    assert!(ack.success);
    assert_eq!(ack.message, "Process editor terminated");
}

#[test]
fn terminate_group_of_nothing_is_forbidden() {
    let state = SystemState::new(1, 1 << 30);
    let targets = state.group_targets(&Vec::new());
    assert!(targets.is_empty());
    let outcomes: Vec<bool> = targets.iter().map(|_| true).collect();
    assert!(matches!(terminate_group(&outcomes), Err(ControlError::Forbidden)));
}

#[test]
fn terminate_group_needs_one_success() {
    let mut state = SystemState::new(1, 1 << 30);
    state.refresh_processes(vec![sample(1, "a", 0, 0), sample(2, "b", 0, 0)], 1, 1 << 30);
    assert_eq!(state.group_targets(&vec![5, 2, 1, 2]), vec![2, 1, 2]);
    assert!(matches!(terminate_group(&vec![false, false]), Err(ControlError::Forbidden)));
    let ack = terminate_group(&vec![false, true, true]).ok().unwrap();
    assert_eq!(ack.message, "Terminated 2 process(es)");
    let ack = terminate_group(&vec![true; 12]).ok().unwrap();
    assert_eq!(ack.message, "Terminated 12 process(es)");
}

#[test]
fn suspend_and_resume_are_placeholders() {
    let s = suspend_process(123).ok().unwrap();
    assert!(s.success);
    assert_eq!(s.message, "Suspend not yet implemented in Rust backend");
    let r = resume_process(u32::MAX).ok().unwrap();
    assert!(r.success);
    assert_eq!(r.message, "Resume not yet implemented in Rust backend");
}

#[test]
fn process_info_of_present_pid() {
    let mut state = SystemState::new(2, 1 << 30);
    state.refresh_processes(vec![sample(3, "a", 0, 0), sample(4, "srv", 4000, 2048)], 2, 1 << 30);
    let d = state.get_process_info(4).ok().unwrap();
    assert_eq!(d.pid, 4);
    assert_eq!(d.name, "srv");
    assert_eq!(d.status, "sleeping");
    assert_eq!(d.cpu_percent, 4000);
    assert_eq!(d.rss_formatted, "2.0 KB");
    assert_eq!(d.vms_formatted, "4.0 KB");
    assert_eq!(d.cmdline, "srv --flag");
    assert_eq!(d.exe, Some("/bin/srv4".to_string()));
    assert!(d.cwd.is_none());
    assert!(matches!(state.get_process_info(5), Err(ControlError::NotFound)));
}

#[test]
fn join_args_examples() {
    assert_eq!(join_args(&Vec::new()), "");
    assert_eq!(join_args(&vec!["ls".to_string()]), "ls");
    assert_eq!(join_args(&vec!["ls".to_string(), "-l".to_string(), "/".to_string()]), "ls -l /");
}

#[test]
fn refresh_replaces_the_table() {
    let mut state = SystemState::new(1, 1 << 30);
    state.refresh_processes(vec![sample(1, "a", 0, 0), sample(2, "b", 0, 0)], 1, 1 << 30);
    state.refresh_processes(vec![sample(2, "b", 0, 0)], 8, 1 << 20);
    assert_eq!(state.processes.len(), 1);
    assert_eq!(state.logical_cores, 8);
    assert_eq!(state.find_process(2), Ok(0));
    assert_eq!(state.find_process(1), Err(ControlError::NotFound));
}

#[test]
fn sampler_runs_two_refreshes_around_a_window() {
    let mut phase = SamplerPhase::Idle;
    let mut actions = Vec::new();
    for e in [
        SamplerEvent::Start,
        SamplerEvent::Refreshed,
        SamplerEvent::WindowElapsed,
        SamplerEvent::Refreshed,
    ] {
        let (next, action) = sampler_step(phase, e);
        phase = next;
        actions.push(action);
    }
    assert_eq!(
        actions,
        vec![
            SamplerAction::RefreshProcesses,
            SamplerAction::Wait(200),
            SamplerAction::RefreshProcesses,
            SamplerAction::Publish,
        ]
    );
    assert_eq!(SAMPLING_WINDOW_MS, 200);
    assert_eq!(phase, SamplerPhase::Published);
    assert_eq!(
        sampler_step(SamplerPhase::Idle, SamplerEvent::Refreshed),
        (SamplerPhase::Idle, SamplerAction::Nothing)
    );
}

#[test]
fn stable_table_keeps_its_ids_across_phases() {
    let mut state = SystemState::new(1, 1 << 30);
    state.refresh_processes(vec![sample(1, "a", 0, 0), sample(2, "b", 0, 0)], 1, 1 << 30);
    let first: Vec<_> = [1, 2, 3].iter().map(|p| state.find_process(*p)).collect();
    state.refresh_processes(vec![sample(1, "a", 10, 0), sample(2, "b", 20, 0)], 1, 1 << 30);
    let second: Vec<_> = [1, 2, 3].iter().map(|p| state.find_process(*p)).collect();
    assert_eq!(first, second);
    assert_eq!(second, vec![Ok(0), Ok(1), Err(ControlError::NotFound)]);
    assert_eq!(state.processes[1].cpu_usage, 20);
}

#[test]
fn process_that_exits_between_phases_is_absent() {
    let mut state = SystemState::new(1, 1 << 30);
    state.refresh_processes(vec![sample(1, "a", 0, 0), sample(2, "b", 0, 0), sample(3, "a", 0, 0)], 1, 1 << 30);
    state.refresh_processes(vec![sample(1, "a", 10, 0), sample(2, "b", 20, 0)], 1, 1 << 30);
    let list = get_processes(state.processes.clone(), 1, 1 << 30);
    let mut pids: Vec<u32> = list.iter().map(|r| r.pid).collect();
    pids.sort();
    assert_eq!(pids, vec![1, 2]);
    let apps = get_apps(&to_records(state.processes.clone(), 1, 1 << 30));
    let mut app_pids: Vec<u32> = apps.iter().flat_map(|a| a.pids.clone()).collect();
    app_pids.sort();
    assert_eq!(app_pids, vec![1, 2]);
}
