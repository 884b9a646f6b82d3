use nscontainer::container::cgroup_reader::{Completion, Reader, STAT_COUNT};
use nscontainer::container::ns_reader::{Group, NamespaceSet};
use nscontainer::container::process::Process;
use nscontainer::container::{load_cgroups, new, Action, Container, Event, State};
use nscontainer::error::{Error, ReadFailure};

fn namespaces(net: u32) -> NamespaceSet {
    NamespaceSet { user: 1, ipc: 2, mnt: 3, net, pid: 5, uts: 6 }
}

fn group(net: u32, pids: &[u32]) -> Group {
    let mut processes = Vec::new();
    for pid in pids {
        processes.push(Process { pid: *pid });
    }
    Group { namespaces: namespaces(net), processes }
}

fn membership(path: &str) -> Result<String, ReadFailure> {
    Ok(format!("4:cpu,cpuacct:{}\n3:memory:{}\n2:blkio:{}\n1:net_cls,net_prio:{}\n", path, path, path, path))
}

fn all_done(tag: &str) -> Vec<Completion> {
    let mut completions = Vec::new();
    for key in 0..STAT_COUNT {
        completions.push(Completion { key, outcome: Ok(format!("{} {}", tag, key)) });
    }
    completions
}

fn active(net: u32, pids: &[u32]) -> Container {
    let mut container = new(group(net, pids));
    let mut files = Vec::new();
    for _ in pids {
        files.push(membership("/c"));
    }
    container.update(Event::Tick);
    container.update(Event::Resolved(files));
    container
}

#[test]
fn new_container_waits_for_its_cgroups() {
    let container = new(group(4, &[10, 11]));
    assert_eq!(container.state(), State::Uninitialized);
    assert_eq!(container.processes(), &vec![Process { pid: 10 }, Process { pid: 11 }]);
    assert_eq!(container.namespaces(), namespaces(4));
    assert_eq!(container.cgroups().len(), 0);
    assert_eq!(container.update_intv(), 1);
    assert!(!container.reading());
    assert_eq!(container.snapshot(), &None);
}

#[test]
fn container_of_an_empty_group_is_stopped() {
    let mut container = new(group(4, &[]));
    assert_eq!(container.state(), State::Stopped);
    assert_eq!(container.update(Event::Tick), Action::Idle);
    assert_eq!(container.update(Event::Resolved(Vec::new())), Action::Idle);
    assert_eq!(container.state(), State::Stopped);
}

#[test]
fn first_tick_asks_for_the_membership_files() {
    let mut container = new(group(4, &[10, 11]));
    let action = container.update(Event::Tick);
    assert_eq!(
        action,
        Action::Resolve(vec![String::from("/proc/10/cgroup"), String::from("/proc/11/cgroup")])
    );
    assert_eq!(container.state(), State::Uninitialized);
}

#[test]
fn resolution_makes_the_container_active() {
    let mut container = new(group(4, &[10, 11]));
    container.update(Event::Tick);
    let action = container.update(Event::Resolved(vec![membership("/a"), membership("/b")]));
    assert_eq!(action, Action::Wait(1));
    assert_eq!(container.state(), State::Active);
    assert_eq!(container.cgroups().len(), 2);
    assert_eq!(container.cgroups()[0].pid, 10);
    assert_eq!(container.cgroups()[0].cpu, Ok(String::from("/a")));
    assert_eq!(container.cgroups()[1].pid, 11);
    assert_eq!(container.cgroups()[1].mem, Ok(String::from("/b")));
    assert_eq!(container.snapshot(), &None);
}

#[test]
fn tick_starts_a_poll_with_one_file_per_key() {
    let mut container = active(4, &[10]);
    let action = container.update(Event::Tick);
    match action {
        Action::Read(files) => {
            assert_eq!(files.len(), 22);
            assert_eq!(files[0], Ok(String::from("/sys/fs/cgroup/cpu,cpuacct//c/cpu.shares")));
            assert_eq!(files[12], Ok(String::from("/sys/fs/cgroup/memory//c/memory.usage_in_bytes")));
        }
        other => panic!("unexpected action {:?}", other),
    }
    assert!(container.reading());
}

#[test]
fn polls_do_not_overlap() {
    let mut container = active(4, &[10]);
    container.update(Event::Tick);
    assert_eq!(container.update(Event::Tick), Action::Idle);
    assert!(container.reading());
}

#[test]
fn completion_replaces_the_snapshot() {
    let mut container = active(4, &[10]);
    container.update(Event::Tick);
    assert_eq!(container.update(Event::Completed(all_done("first"))), Action::Wait(1));
    assert!(!container.reading());
    let first = container.snapshot().clone().unwrap();
    assert_eq!(first.len(), 22);
    assert_eq!(first[0], (String::from("cpu.shares"), Ok(String::from("first 0"))));
    container.update(Event::Tick);
    container.update(Event::Completed(all_done("second")));
    let second = container.snapshot().clone().unwrap();
    assert_eq!(second.len(), 22);
    assert_eq!(second[21], (String::from("net_prio.prioidx"), Ok(String::from("second 21"))));
}

#[test]
fn late_completion_overwrites_nothing() {
    let mut container = active(4, &[10]);
    container.update(Event::Tick);
    container.update(Event::Completed(all_done("first")));
    let before = container.snapshot().clone();
    assert_eq!(container.update(Event::Completed(all_done("late"))), Action::Idle);
    assert_eq!(container.snapshot(), &before);
    assert_eq!(container.state(), State::Active);
}

#[test]
fn teardown_abandons_the_poll_in_flight() {
    let mut container = active(4, &[10]);
    container.update(Event::Tick);
    assert_eq!(container.update(Event::Teardown), Action::Cancel);
    assert_eq!(container.state(), State::Stopped);
    assert!(!container.reading());
    assert_eq!(container.update(Event::Completed(all_done("late"))), Action::Idle);
    assert_eq!(container.snapshot(), &None);
}

#[test]
fn stopped_container_keeps_its_last_snapshot() {
    let mut container = active(4, &[10]);
    container.update(Event::Tick);
    container.update(Event::Completed(all_done("last")));
    let last = container.snapshot().clone();
    assert_eq!(container.update(Event::Teardown), Action::Idle);
    assert_eq!(container.state(), State::Stopped);
    assert_eq!(container.update(Event::Tick), Action::Idle);
    assert_eq!(container.update(Event::Completed(all_done("x"))), Action::Idle);
    assert_eq!(container.update(Event::Resolved(Vec::new())), Action::Idle);
    assert_eq!(container.update(Event::Teardown), Action::Idle);
    assert_eq!(container.snapshot(), &last);
    assert_eq!(container.state(), State::Stopped);
}

#[test]
fn teardown_before_resolution_stops_the_container() {
    let mut container = new(group(4, &[10]));
    assert_eq!(container.update(Event::Teardown), Action::Idle);
    assert_eq!(container.state(), State::Stopped);
}

#[test]
fn events_out_of_turn_change_nothing() {
    let mut container = new(group(4, &[10]));
    assert_eq!(container.update(Event::Completed(all_done("x"))), Action::Idle);
    assert_eq!(container.state(), State::Uninitialized);
    let mut container = active(4, &[10]);
    assert_eq!(container.update(Event::Resolved(vec![membership("/z")])), Action::Idle);
    assert_eq!(container.cgroups()[0].cpu, Ok(String::from("/c")));
}

#[test]
fn container_without_controllers_is_active_and_all_failures() {
    let mut container = new(group(4, &[10]));
    container.update(Event::Tick);
    container.update(Event::Resolved(vec![Ok(String::from("12:pids:/only\n"))]));
    assert_eq!(container.state(), State::Active);
    match container.update(Event::Tick) {
        Action::Read(files) => {
            assert_eq!(files.len(), 22);
            for file in files {
                assert_eq!(file, Err(Error::CgroupNotFound));
            }
        }
        other => panic!("unexpected action {:?}", other),
    }
    container.update(Event::Completed(all_done("x")));
    let snapshot = container.snapshot().clone().unwrap();
    assert_eq!(snapshot.len(), 22);
    for stat in snapshot {
        assert_eq!(stat.1, Err(Error::CgroupNotFound));
    }
}

#[test]
fn collectors_are_made_one_per_process() {
    let procs = vec![Process { pid: 1 }, Process { pid: 2 }, Process { pid: 3 }];
    let files = vec![membership("/a"), Err(ReadFailure::PermissionDenied)];
    let cgroups: Vec<Reader> = load_cgroups(&procs, &files);
    assert_eq!(cgroups.len(), 3);
    assert_eq!(cgroups[0].pid, 1);
    assert_eq!(cgroups[0].blkio, Ok(String::from("/a")));
    assert_eq!(cgroups[1].pid, 2);
    assert_eq!(cgroups[1].cpu, Err(Error::PermissionDenied));
    assert_eq!(cgroups[2].pid, 3);
    assert_eq!(cgroups[2].cpu, Err(Error::ProcessVanished));
    assert_eq!(load_cgroups(&Vec::new(), &files).len(), 0);
}

#[test]
fn container_goes_on_for_an_unchanged_group() {
    let container = active(4, &[10, 11]);
    assert!(container.continues(&group(4, &[10, 11])));
    assert!(!container.continues(&group(4, &[10])));
    assert!(!container.continues(&group(4, &[11, 10])));
    assert!(!container.continues(&group(4, &[10, 11, 12])));
    assert!(!container.continues(&group(9, &[10, 11])));
    let mut stopped = active(4, &[10, 11]);
    stopped.update(Event::Teardown);
    assert!(!stopped.continues(&group(4, &[10, 11])));
}
