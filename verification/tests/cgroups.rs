use nscontainer::container::cgroup_reader::{
    cgroup_file, new, read_cgroup, route, stats, which_cgroup, CGroupStat, Completion, Family,
    Reader, STAT_COUNT,
};
use nscontainer::error::{Error, ReadFailure};

const MEMBERSHIP: &str = "11:devices:/docker/abc123\n\
10:net_cls,net_prio:/docker/abc123\n\
9:memory:/docker/abc123/mem\n\
8:blkio:/docker/abc123\n\
4:cpu,cpuacct:/docker/abc123\n\
3:cpuset:/\n\
1:name=systemd:/docker/abc123\n";

fn text(s: &str) -> Result<String, Error> {
    Ok(String::from(s))
}

fn done(key: usize, content: &str) -> Completion {
    Completion { key, outcome: Ok(String::from(content)) }
}

fn failed(key: usize, failure: ReadFailure) -> Completion {
    Completion { key, outcome: Err(failure) }
}

fn docker_reader() -> Reader {
    new(1234, &Ok(String::from(MEMBERSHIP)))
}

fn all_done() -> Vec<Completion> {
    let mut completions = Vec::new();
    for key in 0..STAT_COUNT {
        completions.push(done(key, &format!("value {}\n", key)));
    }
    completions
}

fn key_at(index: usize) -> String {
    String::from(stats()[index])
}

#[test]
fn comma_joined_controllers_match_each_element() {
    assert_eq!(which_cgroup("4:cpu,cpuacct:/docker/abc123", "cpu"), text("/docker/abc123"));
    assert_eq!(which_cgroup("4:cpu,cpuacct:/docker/abc123", "cpuacct"), text("/docker/abc123"));
}

#[test]
fn family_without_a_line_is_not_found() {
    assert_eq!(which_cgroup("4:cpu,cpuacct:/docker/abc123", "memory"), Err(Error::CgroupNotFound));
    assert_eq!(which_cgroup("", "cpu"), Err(Error::CgroupNotFound));
    assert_eq!(which_cgroup(MEMBERSHIP, "pids"), Err(Error::CgroupNotFound));
}

#[test]
fn controllers_are_compared_whole() {
    assert_eq!(which_cgroup("3:cpuset:/", "cpu"), Err(Error::CgroupNotFound));
    assert_eq!(which_cgroup("3:cpu:/", "cpuset"), Err(Error::CgroupNotFound));
    assert_eq!(which_cgroup("3:xcpu,cpux:/", "cpu"), Err(Error::CgroupNotFound));
    assert_eq!(which_cgroup("3:cpu,cpuacct:/", "cpu,cpuacct"), Err(Error::CgroupNotFound));
    assert_eq!(which_cgroup("3:a,b,c:/x", "c"), text("/x"));
    assert_eq!(which_cgroup("3:a,b,c:/x", "b"), text("/x"));
    assert_eq!(which_cgroup("3:a,b,c:/x", "a"), text("/x"));
    assert_eq!(which_cgroup("3:a,b,c:/x", ""), Err(Error::CgroupNotFound));
    assert_eq!(which_cgroup("0::/user.slice", ""), text("/user.slice"));
}

#[test]
fn each_family_is_found_in_a_membership_file() {
    assert_eq!(which_cgroup(MEMBERSHIP, "cpu"), text("/docker/abc123"));
    assert_eq!(which_cgroup(MEMBERSHIP, "memory"), text("/docker/abc123/mem"));
    assert_eq!(which_cgroup(MEMBERSHIP, "blkio"), text("/docker/abc123"));
    assert_eq!(which_cgroup(MEMBERSHIP, "net_cls"), text("/docker/abc123"));
    assert_eq!(which_cgroup(MEMBERSHIP, "net_prio"), text("/docker/abc123"));
    assert_eq!(which_cgroup(MEMBERSHIP, "cpuset"), text("/"));
}

#[test]
fn the_first_matching_line_wins() {
    assert_eq!(which_cgroup("1:cpu:/first\n2:cpu:/second\n", "cpu"), text("/first"));
    assert_eq!(which_cgroup("1:memory:/first\n2:cpu:/second", "cpu"), text("/second"));
}

#[test]
fn lines_of_another_form_are_passed_over() {
    assert_eq!(which_cgroup("garbage\n\ncpu\n4:cpu\n5:cpu:/found\n", "cpu"), text("/found"));
    assert_eq!(which_cgroup("cpu:/not/the/list\n", "cpu"), Err(Error::CgroupNotFound));
    assert_eq!(which_cgroup("4:cpu", "cpu"), Err(Error::CgroupNotFound));
}

#[test]
fn the_path_is_all_that_follows_the_second_colon() {
    assert_eq!(which_cgroup("4:cpu:/a:b/c", "cpu"), text("/a:b/c"));
    assert_eq!(which_cgroup("4:cpu:", "cpu"), text(""));
    assert_eq!(which_cgroup("4:cpu:\n", "cpu"), text(""));
    assert_eq!(which_cgroup("4:cpu:/é/ü\n", "cpu"), text("/é/ü"));
}

#[test]
fn keys_are_routed_by_how_they_begin() {
    let keys = stats();
    for index in 0..6 {
        assert_eq!(route(keys[index]), Family::Cpu);
    }
    for index in 6..13 {
        assert_eq!(route(keys[index]), Family::Memory);
    }
    for index in 13..19 {
        assert_eq!(route(keys[index]), Family::Blkio);
    }
    for index in 19..22 {
        assert_eq!(route(keys[index]), Family::Net);
    }
}

#[test]
fn routing_looks_at_the_beginning_only() {
    assert_eq!(route("cpu"), Family::Cpu);
    assert_eq!(route("cpuacct.usage"), Family::Cpu);
    assert_eq!(route("xcpu.shares"), Family::Net);
    assert_eq!(route("not.cpu"), Family::Net);
    assert_eq!(route("blkio.memory"), Family::Blkio);
    assert_eq!(route("memory.cpu"), Family::Memory);
    assert_eq!(route("a\nmemory"), Family::Net);
    assert_eq!(route("cp"), Family::Net);
    assert_eq!(route("CPU.shares"), Family::Net);
    assert_eq!(route(""), Family::Net);
    assert_eq!(route("cpu\nshares"), Family::Cpu);
}

#[test]
fn keys_that_begin_with_mem_never_go_to_cpu() {
    assert_eq!(route("memory.failcnt"), Family::Memory);
    assert_ne!(route("mem.failcnt"), Family::Cpu);
    assert_ne!(route("mem"), Family::Cpu);
    assert_ne!(route("memcpu"), Family::Cpu);
}

#[test]
fn families_have_query_and_mount_names() {
    assert_eq!(Family::Cpu.query(), "cpu");
    assert_eq!(Family::Memory.query(), "memory");
    assert_eq!(Family::Blkio.query(), "blkio");
    assert_eq!(Family::Net.query(), "net_cls");
    assert_eq!(Family::Cpu.mount(), "cpu,cpuacct");
    assert_eq!(Family::Memory.mount(), "memory");
    assert_eq!(Family::Blkio.mount(), "blkio");
    assert_eq!(Family::Net.mount(), "net_cls,net_prio");
}

#[test]
fn stat_path_follows_the_template() {
    assert_eq!(
        read_cgroup("memory", "/docker/abc123", "memory.usage_in_bytes"),
        "/sys/fs/cgroup/memory//docker/abc123/memory.usage_in_bytes"
    );
    assert_eq!(read_cgroup("cpu,cpuacct", "x", "cpu.shares"), "/sys/fs/cgroup/cpu,cpuacct/x/cpu.shares");
    assert_eq!(read_cgroup("", "", ""), "/sys/fs/cgroup///");
}

#[test]
fn membership_file_path_follows_the_template() {
    assert_eq!(cgroup_file(1234), "/proc/1234/cgroup");
    assert_eq!(cgroup_file(7), "/proc/7/cgroup");
    assert_eq!(cgroup_file(10), "/proc/10/cgroup");
}

#[test]
fn the_keys_are_the_fixed_list() {
    let keys = stats();
    assert_eq!(keys.len(), STAT_COUNT);
    assert_eq!(
        keys,
        vec![
            "cpu.shares",
            "cpu.cfs_period_us",
            "cpu.rt_period_us",
            "cpu.rt_runtime_us",
            "cpuacct.usage",
            "cpuacct.usage_percpu",
            "memory.failcnt",
            "memory.limit_in_bytes",
            "memory.max_usage_in_bytes",
            "memory.move_charge_at_immigrate",
            "memory.pressure_level",
            "memory.swappiness",
            "memory.usage_in_bytes",
            "blkio.io_merged",
            "blkio.io_queued",
            "blkio.io_service_bytes",
            "blkio.io_service_time",
            "blkio.io_wait_time",
            "blkio.io_time",
            "net_cls.classid",
            "net_prio.ifpriomap",
            "net_prio.prioidx",
        ]
    );
}

#[test]
fn collector_resolves_each_family() {
    let reader = docker_reader();
    assert_eq!(
        reader,
        Reader {
            pid: 1234,
            cpu: text("/docker/abc123"),
            mem: text("/docker/abc123/mem"),
            blkio: text("/docker/abc123"),
            net: text("/docker/abc123"),
        }
    );
    assert_eq!(reader.name(Family::Memory), &text("/docker/abc123/mem"));
}

#[test]
fn collector_without_a_family_is_still_made() {
    let reader = new(5, &Ok(String::from("4:cpu,cpuacct:/only\n")));
    assert_eq!(
        reader,
        Reader {
            pid: 5,
            cpu: text("/only"),
            mem: Err(Error::CgroupNotFound),
            blkio: Err(Error::CgroupNotFound),
            net: Err(Error::CgroupNotFound),
        }
    );
}

#[test]
fn collector_of_a_process_that_is_gone() {
    let reader = new(5, &Err(ReadFailure::NotFound));
    assert_eq!(reader.cpu, Err(Error::ProcessVanished));
    assert_eq!(reader.mem, Err(Error::ProcessVanished));
    assert_eq!(reader.blkio, Err(Error::ProcessVanished));
    assert_eq!(reader.net, Err(Error::ProcessVanished));
    let reader = new(5, &Err(ReadFailure::PermissionDenied));
    assert_eq!(reader.cpu, Err(Error::PermissionDenied));
    assert_eq!(reader.net, Err(Error::PermissionDenied));
}

#[test]
fn each_key_is_read_under_its_family() {
    let reader = docker_reader();
    assert_eq!(
        reader.read_res("cpu.shares"),
        text("/sys/fs/cgroup/cpu,cpuacct//docker/abc123/cpu.shares")
    );
    assert_eq!(
        reader.read_res("cpuacct.usage"),
        text("/sys/fs/cgroup/cpu,cpuacct//docker/abc123/cpuacct.usage")
    );
    assert_eq!(
        reader.read_res("memory.usage_in_bytes"),
        text("/sys/fs/cgroup/memory//docker/abc123/mem/memory.usage_in_bytes")
    );
    assert_eq!(
        reader.read_res("blkio.io_time"),
        text("/sys/fs/cgroup/blkio//docker/abc123/blkio.io_time")
    );
    assert_eq!(
        reader.read_res("net_prio.prioidx"),
        text("/sys/fs/cgroup/net_cls,net_prio//docker/abc123/net_prio.prioidx")
    );
}

#[test]
fn key_of_an_unresolved_family_has_no_file() {
    let reader = new(5, &Ok(String::from("4:cpu,cpuacct:/only\n")));
    assert_eq!(reader.read_res("cpu.shares"), text("/sys/fs/cgroup/cpu,cpuacct//only/cpu.shares"));
    assert_eq!(reader.read_res("memory.failcnt"), Err(Error::CgroupNotFound));
    assert_eq!(reader.read_res("blkio.io_time"), Err(Error::CgroupNotFound));
    assert_eq!(reader.read_res("net_cls.classid"), Err(Error::CgroupNotFound));
}

#[test]
fn a_poll_asks_for_one_file_per_key() {
    let reader = docker_reader();
    let files = reader.requests();
    assert_eq!(files.len(), 22);
    let keys = stats();
    for index in 0..22 {
        assert_eq!(files[index], reader.read_res(keys[index]));
    }
    assert_eq!(files[0], text("/sys/fs/cgroup/cpu,cpuacct//docker/abc123/cpu.shares"));
    assert_eq!(files[21], text("/sys/fs/cgroup/net_cls,net_prio//docker/abc123/net_prio.prioidx"));
}

#[test]
fn snapshot_has_every_key_when_all_reads_succeed() {
    let snapshot = docker_reader().read(&all_done());
    assert_eq!(snapshot.len(), 22);
    for index in 0..22 {
        assert_eq!(snapshot[index], (key_at(index), Ok(format!("value {}\n", index))));
    }
}

#[test]
fn snapshot_has_every_key_when_nothing_was_read() {
    let snapshot = docker_reader().read(&Vec::new());
    assert_eq!(snapshot.len(), 22);
    for index in 0..22 {
        assert_eq!(snapshot[index], (key_at(index), Err(Error::CgroupNotFound)));
    }
}

#[test]
fn snapshot_has_every_key_when_every_read_fails() {
    let mut completions = Vec::new();
    for key in 0..22 {
        let failure = if key % 2 == 0 { ReadFailure::NotFound } else { ReadFailure::PermissionDenied };
        completions.push(failed(key, failure));
    }
    let snapshot = docker_reader().read(&completions);
    assert_eq!(snapshot.len(), 22);
    for index in 0..22 {
        let expected = if index % 2 == 0 { Error::CgroupNotFound } else { Error::PermissionDenied };
        assert_eq!(snapshot[index], (key_at(index), Err(expected)));
    }
}

#[test]
fn unreadable_stat_is_marked_and_the_others_stay() {
    let mut completions = all_done();
    completions[12] = failed(12, ReadFailure::PermissionDenied);
    let snapshot = docker_reader().read(&completions);
    assert_eq!(snapshot.len(), 22);
    assert_eq!(
        snapshot[12],
        (String::from("memory.usage_in_bytes"), Err(Error::PermissionDenied))
    );
    for index in 0..22 {
        if index != 12 {
            assert_eq!(snapshot[index], (key_at(index), Ok(format!("value {}\n", index))));
        }
    }
}

#[test]
fn snapshot_of_an_unresolved_family_holds_its_failure() {
    let reader = new(5, &Ok(String::from("4:cpu,cpuacct:/only\n")));
    let snapshot = reader.read(&all_done());
    assert_eq!(snapshot.len(), 22);
    for index in 0..6 {
        assert_eq!(snapshot[index], (key_at(index), Ok(format!("value {}\n", index))));
    }
    for index in 6..22 {
        assert_eq!(snapshot[index], (key_at(index), Err(Error::CgroupNotFound)));
    }
}

#[test]
fn snapshot_of_a_vanished_process_is_all_failures() {
    let reader = new(5, &Err(ReadFailure::NotFound));
    let snapshot: Vec<CGroupStat> = reader.read(&all_done());
    assert_eq!(snapshot.len(), 22);
    for index in 0..22 {
        assert_eq!(snapshot[index], (key_at(index), Err(Error::ProcessVanished)));
    }
}

#[test]
fn snapshot_does_not_depend_on_the_order_of_completion() {
    let reader = docker_reader();
    let in_order = reader.read(&all_done());
    let mut reversed = all_done();
    reversed.reverse();
    assert_eq!(reader.read(&reversed), in_order);
    let mut rotated = all_done();
    rotated.rotate_left(7);
    rotated.swap(0, 13);
    assert_eq!(reader.read(&rotated), in_order);
}

#[test]
fn polling_twice_gives_the_same_snapshot() {
    let reader = docker_reader();
    let first = reader.read(&all_done());
    let second = reader.read(&all_done());
    assert_eq!(first, second);
}

#[test]
fn the_first_completion_for_a_key_counts() {
    let completions = vec![done(0, "first"), done(0, "second"), done(99, "no such key")];
    let snapshot = docker_reader().read(&completions);
    assert_eq!(snapshot.len(), 22);
    assert_eq!(snapshot[0], (String::from("cpu.shares"), Ok(String::from("first"))));
    assert_eq!(snapshot[1], (String::from("cpu.cfs_period_us"), Err(Error::CgroupNotFound)));
}
