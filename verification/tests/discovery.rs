use nscontainer::container::cgroup_reader::{Completion, STAT_COUNT};
use nscontainer::container::ns_reader::{Group, NamespaceSet};
use nscontainer::container::process::Process;
use nscontainer::container::{Action, Event, State};
use nscontainer::error::ReadFailure;
use nscontainer::manager::{get_process_groups, match_ns, new, probe, Entry, Manager};

fn links(ids: [u32; 6]) -> [Result<String, ReadFailure>; 6] {
    [
        Ok(format!("user:[{}]", ids[0])),
        Ok(format!("ipc:[{}]", ids[1])),
        Ok(format!("mnt:[{}]", ids[2])),
        Ok(format!("net:[{}]", ids[3])),
        Ok(format!("pid:[{}]", ids[4])),
        Ok(format!("uts:[{}]", ids[5])),
    ]
}

fn entry(name: &str, ids: [u32; 6]) -> Entry {
    Entry { name: String::from(name), links: links(ids) }
}

fn set(ids: [u32; 6]) -> NamespaceSet {
    NamespaceSet { user: ids[0], ipc: ids[1], mnt: ids[2], net: ids[3], pid: ids[4], uts: ids[5] }
}

fn group(ids: [u32; 6], pids: &[u32]) -> Group {
    let mut processes = Vec::new();
    for pid in pids {
        processes.push(Process { pid: *pid });
    }
    Group { namespaces: set(ids), processes }
}

fn as_sets(groups: &Vec<Group>) -> Vec<(NamespaceSet, Vec<u32>)> {
    let mut sets = Vec::new();
    for group in groups {
        let mut pids = Vec::new();
        for process in &group.processes {
            pids.push(process.pid);
        }
        pids.sort();
        sets.push((group.namespaces, pids));
    }
    sets.sort_by_key(|s| (s.0.user, s.0.ipc, s.0.mnt, s.0.net, s.0.pid, s.0.uts));
    sets
}

fn all_done() -> Vec<Completion> {
    let mut completions = Vec::new();
    for key in 0..STAT_COUNT {
        completions.push(Completion { key, outcome: Ok(format!("value {}", key)) });
    }
    completions
}

fn activate(manager: &mut Manager, index: usize) {
    let count = manager.containers()[index].processes().len();
    manager.update(index, Event::Tick);
    let mut files = Vec::new();
    for _ in 0..count {
        files.push(Ok(String::from("4:cpu,cpuacct:/c\n")));
    }
    manager.update(index, Event::Resolved(files));
    manager.update(index, Event::Tick);
    manager.update(index, Event::Completed(all_done()));
}

const HOST: [u32; 6] = [1, 2, 3, 4, 5, 6];
const GUEST: [u32; 6] = [1, 2, 3, 40, 5, 6];

#[test]
fn three_processes_two_sharing_give_two_groups() {
    let entries = vec![entry("100", HOST), entry("200", GUEST), entry("300", HOST)];
    let groups = get_process_groups(&entries);
    assert_eq!(groups, vec![group(HOST, &[100, 300]), group(GUEST, &[200])]);
    let mut manager = new(0);
    let retired = manager.discover(&entries);
    assert_eq!(retired.len(), 0);
    assert_eq!(manager.containers().len(), 2);
    assert_eq!(manager.containers()[0].processes().len(), 2);
    assert_eq!(manager.containers()[1].processes().len(), 1);
}

#[test]
fn a_single_differing_identity_separates_processes() {
    for coordinate in 0..6 {
        let mut other = HOST;
        other[coordinate] = 99;
        let groups = get_process_groups(&vec![entry("1", HOST), entry("2", other)]);
        assert_eq!(groups, vec![group(HOST, &[1]), group(other, &[2])]);
    }
}

#[test]
fn link_prefixes_do_not_matter_for_grouping() {
    let odd = Entry {
        name: String::from("2"),
        links: [
            Ok(String::from("x:[1]")),
            Ok(String::from("[2]")),
            Ok(String::from("mount namespace [3]")),
            Ok(String::from("net:[[4]")),
            Ok(String::from("pid_for_children:[5]")),
            Ok(String::from(":[6]")),
        ],
    };
    let groups = get_process_groups(&vec![entry("1", HOST), odd]);
    assert_eq!(groups, vec![group(HOST, &[1, 2])]);
}

#[test]
fn grouping_does_not_depend_on_the_order_of_entries() {
    let a = vec![
        entry("1", HOST),
        entry("2", GUEST),
        entry("3", HOST),
        entry("4", [9, 9, 9, 9, 9, 9]),
        entry("5", GUEST),
    ];
    let b = vec![
        entry("5", GUEST),
        entry("4", [9, 9, 9, 9, 9, 9]),
        entry("3", HOST),
        entry("2", GUEST),
        entry("1", HOST),
    ];
    let first = get_process_groups(&a);
    let second = get_process_groups(&b);
    assert_eq!(first.len(), 3);
    assert_eq!(as_sets(&first), as_sets(&second));
    assert_eq!(first[0], group(HOST, &[1, 3]));
    assert_eq!(second[0], group(GUEST, &[5, 2]));
}

#[test]
fn entries_that_are_no_processes_are_passed_over() {
    let entries = vec![
        entry("cpuinfo", HOST),
        entry("1", HOST),
        entry("self", HOST),
        entry("0", HOST),
        entry("", HOST),
    ];
    assert_eq!(get_process_groups(&entries), vec![group(HOST, &[1])]);
    assert_eq!(get_process_groups(&Vec::new()), Vec::new());
}

#[test]
fn processes_that_cannot_be_probed_are_passed_over() {
    let mut vanished = entry("2", HOST);
    vanished.links[3] = Err(ReadFailure::NotFound);
    let mut denied = entry("3", HOST);
    denied.links[0] = Err(ReadFailure::PermissionDenied);
    let mut malformed = entry("4", HOST);
    malformed.links[5] = Ok(String::from("uts"));
    let entries = vec![entry("1", HOST), vanished, denied, malformed, entry("5", HOST)];
    assert_eq!(get_process_groups(&entries), vec![group(HOST, &[1, 5])]);
}

#[test]
fn probe_gives_the_process_with_its_namespaces() {
    let seen = probe(&entry("77", GUEST)).unwrap();
    assert_eq!(seen.process, Process { pid: 77 });
    assert_eq!(seen.namespaces, set(GUEST));
    assert_eq!(probe(&entry("x77", GUEST)), None);
}

#[test]
fn a_process_joins_the_first_group_with_its_namespaces() {
    let mut groups = Vec::new();
    match_ns(Process { pid: 1 }, set(HOST), &mut groups);
    assert_eq!(groups, vec![group(HOST, &[1])]);
    match_ns(Process { pid: 2 }, set(GUEST), &mut groups);
    assert_eq!(groups, vec![group(HOST, &[1]), group(GUEST, &[2])]);
    match_ns(Process { pid: 3 }, set(HOST), &mut groups);
    assert_eq!(groups, vec![group(HOST, &[1, 3]), group(GUEST, &[2])]);
    let mut doubled = vec![group(GUEST, &[1]), group(GUEST, &[2])];
    match_ns(Process { pid: 9 }, set(GUEST), &mut doubled);
    assert_eq!(doubled, vec![group(GUEST, &[1, 9]), group(GUEST, &[2])]);
}

#[test]
fn new_manager_has_no_containers() {
    let manager = new(1000);
    assert_eq!(manager.user(), 1000);
    assert_eq!(manager.containers().len(), 0);
}

#[test]
fn rediscovery_keeps_a_live_container_whose_group_is_unchanged() {
    let mut manager = new(0);
    manager.discover(&vec![entry("1", HOST), entry("2", GUEST), entry("3", HOST)]);
    activate(&mut manager, 0);
    let snapshot = manager.containers()[0].snapshot().clone();
    assert!(snapshot.is_some());
    let retired = manager.discover(&vec![entry("2", GUEST), entry("1", HOST), entry("3", HOST)]);
    assert_eq!(retired.len(), 0);
    assert_eq!(manager.containers().len(), 2);
    assert_eq!(manager.containers()[0].namespaces(), set(GUEST));
    assert_eq!(manager.containers()[0].state(), State::Uninitialized);
    assert_eq!(manager.containers()[1].namespaces(), set(HOST));
    assert_eq!(manager.containers()[1].state(), State::Active);
    assert_eq!(manager.containers()[1].snapshot(), &snapshot);
}

#[test]
fn rediscovery_tears_down_containers_whose_group_is_gone() {
    let mut manager = new(0);
    manager.discover(&vec![entry("1", HOST), entry("2", GUEST)]);
    activate(&mut manager, 0);
    activate(&mut manager, 1);
    let last = manager.containers()[1].snapshot().clone();
    let retired = manager.discover(&vec![entry("1", HOST)]);
    assert_eq!(manager.containers().len(), 1);
    assert_eq!(manager.containers()[0].state(), State::Active);
    assert_eq!(retired.len(), 1);
    assert_eq!(retired[0].namespaces(), set(GUEST));
    assert_eq!(retired[0].state(), State::Stopped);
    assert_eq!(retired[0].snapshot(), &last);
    let retired = manager.discover(&Vec::new());
    assert_eq!(manager.containers().len(), 0);
    assert_eq!(retired.len(), 1);
    assert_eq!(retired[0].state(), State::Stopped);
}

#[test]
fn rediscovery_replaces_a_container_whose_membership_changed() {
    let mut manager = new(0);
    manager.discover(&vec![entry("1", HOST), entry("3", HOST)]);
    activate(&mut manager, 0);
    let retired = manager.discover(&vec![entry("1", HOST), entry("3", HOST), entry("4", HOST)]);
    assert_eq!(manager.containers().len(), 1);
    assert_eq!(manager.containers()[0].state(), State::Uninitialized);
    assert_eq!(manager.containers()[0].processes().len(), 3);
    assert_eq!(manager.containers()[0].snapshot(), &None);
    assert_eq!(retired.len(), 1);
    assert_eq!(retired[0].state(), State::Stopped);
    assert_eq!(retired[0].processes().len(), 2);
}

#[test]
fn an_event_for_one_container_leaves_the_others_alone() {
    let mut manager = new(0);
    manager.discover(&vec![entry("1", HOST), entry("2", GUEST)]);
    activate(&mut manager, 0);
    assert_eq!(manager.containers()[0].state(), State::Active);
    assert_eq!(manager.containers()[1].state(), State::Uninitialized);
    assert_eq!(manager.containers()[1].snapshot(), &None);
    assert_eq!(manager.update(1, Event::Teardown), Action::Idle);
    assert_eq!(manager.containers()[0].state(), State::Active);
    assert_eq!(manager.containers()[1].state(), State::Stopped);
}

#[test]
fn an_event_for_no_container_does_nothing() {
    let mut manager = new(0);
    manager.discover(&vec![entry("1", HOST)]);
    assert_eq!(manager.update(1, Event::Tick), Action::Idle);
    assert_eq!(manager.update(usize::MAX, Event::Teardown), Action::Idle);
    assert_eq!(manager.containers()[0].state(), State::Uninitialized);
}
