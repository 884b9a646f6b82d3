//! The cgroup side of a container: which cgroup a process is in for each
//! controller family, which file holds each statistic, and how the results of
//! reading those files are joined into one snapshot.

use crate::container::pattern::{is_match, lemma_prefix_pattern, prefix_pattern};
use crate::error::{Error, ReadFailure};
use crate::text::{
    chars_of, decimal_digits, head, head_end, lemma_first_position, push_decimal, range_equals,
};
use vstd::prelude::*;

verus! {

/// A resource controller family, as mounted under `/sys/fs/cgroup`.
#[derive(Clone, Copy, Debug, PartialEq, Eq, Structural)]
pub enum Family {
    Cpu,
    Memory,
    Blkio,
    Net,
}

impl Family {
    /// The controller name that is looked up in a membership file.
    pub open spec fn spec_query(self) -> Seq<char> {
        match self {
            Family::Cpu => "cpu"@,
            Family::Memory => "memory"@,
            Family::Blkio => "blkio"@,
            Family::Net => "net_cls"@,
        }
    }

    /// The controller name that is looked up in a membership file.
    pub fn query(self) -> (name: &'static str)
        ensures
            name@ == self.spec_query(),
    {
        match self {
            Family::Cpu => "cpu",
            Family::Memory => "memory",
            Family::Blkio => "blkio",
            Family::Net => "net_cls",
        }
    }

    /// The directory of the family under `/sys/fs/cgroup`.
    pub open spec fn spec_mount(self) -> Seq<char> {
        match self {
            Family::Cpu => "cpu,cpuacct"@,
            Family::Memory => "memory"@,
            Family::Blkio => "blkio"@,
            Family::Net => "net_cls,net_prio"@,
        }
    }

    /// The directory of the family under `/sys/fs/cgroup`.
    pub fn mount(self) -> (name: &'static str)
        ensures
            name@ == self.spec_mount(),
    {
        match self {
            Family::Cpu => "cpu,cpuacct",
            Family::Memory => "memory",
            Family::Blkio => "blkio",
            Family::Net => "net_cls,net_prio",
        }
    }
}

/// The number of statistics in a snapshot.
pub const STAT_COUNT: usize = 22;

/// The keys of the statistics that make up a snapshot, in the order of the
/// snapshot.
pub open spec fn stat_keys() -> Seq<Seq<char>> {
    seq![
        "cpu.shares"@,
        "cpu.cfs_period_us"@,
        "cpu.rt_period_us"@,
        "cpu.rt_runtime_us"@,
        "cpuacct.usage"@,
        "cpuacct.usage_percpu"@,
        "memory.failcnt"@,
        "memory.limit_in_bytes"@,
        "memory.max_usage_in_bytes"@,
        "memory.move_charge_at_immigrate"@,
        "memory.pressure_level"@,
        "memory.swappiness"@,
        "memory.usage_in_bytes"@,
        "blkio.io_merged"@,
        "blkio.io_queued"@,
        "blkio.io_service_bytes"@,
        "blkio.io_service_time"@,
        "blkio.io_wait_time"@,
        "blkio.io_time"@,
        "net_cls.classid"@,
        "net_prio.ifpriomap"@,
        "net_prio.prioidx"@,
    ]
}

/// The keys of the statistics that make up a snapshot, in the order of the
/// snapshot.
pub fn stats() -> (keys: Vec<&'static str>)
    ensures
        keys.len() == STAT_COUNT,
        keys.len() == stat_keys().len(),
        forall|i: int| 0 <= i < keys.len() ==> (#[trigger] keys[i])@ == stat_keys()[i],
{
    vec![
        "cpu.shares",
        "cpu.cfs_period_us",
        "cpu.rt_period_us",
        "cpu.rt_runtime_us",
        "cpuacct.usage",
        "cpuacct.usage_percpu",
        "memory.failcnt",
        "memory.limit_in_bytes",
        "memory.max_usage_in_bytes",
        "memory.move_charge_at_immigrate",
        "memory.pressure_level",
        "memory.swappiness",
        "memory.usage_in_bytes",
        "blkio.io_merged",
        "blkio.io_queued",
        "blkio.io_service_bytes",
        "blkio.io_service_time",
        "blkio.io_wait_time",
        "blkio.io_time",
        "net_cls.classid",
        "net_prio.ifpriomap",
        "net_prio.prioidx",
    ]
}

/// The family whose directory holds the file of a statistic, told by how the
/// key begins: `cpu` (which covers `cpuacct`), `memory`, `blkio`, and the net
/// family for every other key. Only the beginning of the key counts.
pub open spec fn spec_route(key: Seq<char>) -> Family {
    if "cpu"@.is_prefix_of(key) {
        Family::Cpu
    } else if "memory"@.is_prefix_of(key) {
        Family::Memory
    } else if "blkio"@.is_prefix_of(key) {
        Family::Blkio
    } else {
        Family::Net
    }
}

/// The family whose directory holds the file of the statistic `key`.
pub fn route(key: &str) -> (family: Family)
    ensures
        family == spec_route(key@),
{
    proof {
        reveal_strlit("^cpu(.*)");
        reveal_strlit("^memory(.*)");
        reveal_strlit("^blkio(.*)");
        reveal_strlit("cpu");
        reveal_strlit("memory");
        reveal_strlit("blkio");
        assert("^cpu(.*)"@ == prefix_pattern("cpu"@));
        assert("^memory(.*)"@ == prefix_pattern("memory"@));
        assert("^blkio(.*)"@ == prefix_pattern("blkio"@));
        lemma_prefix_pattern("cpu"@);
        lemma_prefix_pattern("memory"@);
        lemma_prefix_pattern("blkio"@);
    }
    if is_match("^cpu(.*)", key) == Some(true) {
        Family::Cpu
    } else if is_match("^memory(.*)", key) == Some(true) {
        Family::Memory
    } else if is_match("^blkio(.*)", key) == Some(true) {
        Family::Blkio
    } else {
        Family::Net
    }
}

/// The path of the file that holds one statistic.
pub open spec fn spec_stat_path(resource: Seq<char>, name: Seq<char>, stat: Seq<char>) -> Seq<
    char,
> {
    "/sys/fs/cgroup/"@ + resource + "/"@ + name + "/"@ + stat
}

/// The path of the file that holds the statistic `stat` of the cgroup `name`
/// in the family directory `resource`:
/// `/sys/fs/cgroup/<resource>/<name>/<stat>`.
pub fn read_cgroup(resource: &str, name: &str, stat: &str) -> (path: String)
    ensures
        path@ == spec_stat_path(resource@, name@, stat@),
{
    let mut path = String::from_str("/sys/fs/cgroup/");
    path.append(resource);
    path.append("/");
    path.append(name);
    path.append("/");
    path.append(stat);
    path
}

/// Whether `item` is one of the elements of the comma-separated `list`.
/// Elements are compared whole: `cpu` is an element of `cpu,cpuacct`, and no
/// element of `cpuacct`.
pub open spec fn has_element(list: Seq<char>, item: Seq<char>) -> bool
    decreases list.len(),
{
    let first = head(list, ',');
    first == item || (first.len() < list.len() && has_element(
        list.skip(first.len() as int + 1),
        item,
    ))
}

/// The cgroup path that one line of a membership file gives for `resource`.
/// A line has the form `<hierarchy>:<controllers>:<path>`: it gives its path
/// where `resource` is an element of its controller list. The path is all that
/// follows the second colon. A line with fewer than two colons gives nothing.
pub open spec fn line_path(line: Seq<char>, resource: Seq<char>) -> Option<Seq<char>> {
    let hierarchy = head(line, ':');
    if hierarchy.len() < line.len() {
        let rest = line.skip(hierarchy.len() as int + 1);
        let controllers = head(rest, ':');
        if controllers.len() < rest.len() && has_element(controllers, resource) {
            Some(rest.skip(controllers.len() as int + 1))
        } else {
            None
        }
    } else {
        None
    }
}

/// The cgroup path that a membership file gives for `resource`: that of its
/// first line that gives one. Lines end at a newline or at the end of the
/// content.
pub open spec fn spec_which_cgroup(content: Seq<char>, resource: Seq<char>) -> Option<
    Seq<char>,
>
    decreases content.len(),
{
    let line = head(content, '\n');
    match line_path(line, resource) {
        Some(path) => Some(path),
        None => if line.len() < content.len() {
            spec_which_cgroup(content.skip(line.len() as int + 1), resource)
        } else {
            None
        },
    }
}

/// Whether `item` is an element of the comma-separated list `s[from..to]`.
fn list_has(s: &Vec<char>, from: usize, to: usize, item: &Vec<char>) -> (found: bool)
    requires
        from <= to <= s.len(),
    ensures
        found == has_element(s@.subrange(from as int, to as int), item@),
{
    let mut start: usize = from;
    loop
        invariant
            from <= start <= to <= s.len(),
            has_element(s@.subrange(from as int, to as int), item@) == has_element(
                s@.subrange(start as int, to as int),
                item@,
            ),
        decreases to - start,
    {
        let ghost list = s@.subrange(start as int, to as int);
        let end = head_end(s, start, to, ',');
        if range_equals(s, start, end, item) {
            return true;
        }
        if end >= to {
            return false;
        }
        proof {
            assert(list.skip(end - start + 1) == s@.subrange(end + 1, to as int));
        }
        start = end + 1;
    }
}

/// The range of the path that the line `s[from..to]` gives for `item`.
fn line_has(s: &Vec<char>, from: usize, to: usize, item: &Vec<char>) -> (path: Option<
    (usize, usize),
>)
    requires
        from <= to <= s.len(),
    ensures
        match path {
            Some((start, end)) => from <= start <= end <= to && line_path(
                s@.subrange(from as int, to as int),
                item@,
            ) == Some(s@.subrange(start as int, end as int)),
            None => line_path(s@.subrange(from as int, to as int), item@) is None,
        },
{
    let ghost line = s@.subrange(from as int, to as int);
    let first = head_end(s, from, to, ':');
    if first >= to {
        return None;
    }
    let ghost rest = line.skip(first - from + 1);
    assert(rest == s@.subrange(first + 1, to as int));
    let second = head_end(s, first + 1, to, ':');
    if second >= to {
        return None;
    }
    assert(rest.skip(second - (first + 1) + 1) == s@.subrange(second + 1, to as int));
    if list_has(s, first + 1, second, item) {
        Some((second + 1, to))
    } else {
        None
    }
}

/// Finds the cgroup that a process is in for one controller, in the content of
/// its membership file `/proc/<pid>/cgroup`. The lines of the file have the
/// form `<hierarchy>:<controllers>:<path>`. The first line whose
/// comma-separated controller list has `resource` as one of its elements gives
/// the result, its path. Lines of another form are passed over. Where no line
/// gives a path the controller is not available: `CgroupNotFound`.
pub fn which_cgroup(content: &str, resource: &str) -> (name: Result<String, Error>)
    ensures
        match spec_which_cgroup(content@, resource@) {
            Some(path) => name is Ok && name->Ok_0@ == path,
            None => name == Err::<String, Error>(Error::CgroupNotFound),
        },
{
    let chars = chars_of(content);
    let item = chars_of(resource);
    let n = chars.len();
    let mut start: usize = 0;
    assert(chars@.subrange(0, n as int) == content@);
    loop
        invariant
            0 <= start <= n,
            n == chars.len(),
            chars@ == content@,
            item@ == resource@,
            spec_which_cgroup(content@, resource@) == spec_which_cgroup(
                chars@.subrange(start as int, n as int),
                resource@,
            ),
        decreases n - start,
    {
        let ghost rest = chars@.subrange(start as int, n as int);
        let end = head_end(&chars, start, n, '\n');
        match line_has(&chars, start, end, &item) {
            Some((from, to)) => {
                let path = content.substring_char(from, to).to_owned();
                return Ok(path);
            },
            None => {},
        }
        if end >= n {
            return Err(Error::CgroupNotFound);
        }
        proof {
            assert(rest.skip(end - start + 1) == chars@.subrange(end + 1, n as int));
        }
        start = end + 1;
    }
}

/// What reading one file gave: its content, or why there is none.
pub type Content = Result<String, ReadFailure>;

/// One statistic of a snapshot: its key, and its raw text or the failure that
/// stands in for it.
pub type CGroupStat = (String, Result<String, Error>);

/// The model of a statistic: key and value as sequences of characters.
pub type StatView = (Seq<char>, Result<Seq<char>, Error>);

/// One finished read of a poll: the place of the key in the snapshot, and what
/// reading the key's file gave.
#[derive(Debug, PartialEq, Eq)]
pub struct Completion {
    pub key: usize,
    pub outcome: Content,
}

/// The collector of one process: for each controller family the cgroup the
/// process is in, or why that is not known.
#[derive(Debug, PartialEq, Eq)]
pub struct Reader {
    pub pid: u32,
    pub cpu: Result<String, Error>,
    pub mem: Result<String, Error>,
    pub blkio: Result<String, Error>,
    pub net: Result<String, Error>,
}

/// The model of a collector: the cgroup of each family as a sequence of
/// characters.
pub struct ReaderView {
    pub pid: u32,
    pub cpu: Result<Seq<char>, Error>,
    pub mem: Result<Seq<char>, Error>,
    pub blkio: Result<Seq<char>, Error>,
    pub net: Result<Seq<char>, Error>,
}

impl View for Reader {
    type V = ReaderView;

    open spec fn view(&self) -> ReaderView {
        ReaderView {
            pid: self.pid,
            cpu: text_view(self.cpu),
            mem: text_view(self.mem),
            blkio: text_view(self.blkio),
            net: text_view(self.net),
        }
    }
}

/// A text or a failure, with the text as a sequence of characters.
pub open spec fn text_view(value: Result<String, Error>) -> Result<Seq<char>, Error> {
    match value {
        Ok(text) => Ok(text@),
        Err(e) => Err(e),
    }
}

/// The model of one statistic.
pub open spec fn stat_view(stat: CGroupStat) -> StatView {
    (stat.0@, text_view(stat.1))
}

/// The model of a snapshot: the models of its statistics, in order.
pub open spec fn snapshot_view(stats: Seq<CGroupStat>) -> Seq<StatView> {
    Seq::new(stats.len(), |i: int| stat_view(stats[i]))
}

/// Whether a snapshot has one statistic for each key, in the order of the
/// keys.
pub open spec fn is_complete(snapshot: Seq<StatView>) -> bool {
    &&& snapshot.len() == STAT_COUNT
    &&& forall|i: int| 0 <= i < STAT_COUNT ==> (#[trigger] snapshot[i]).0 == stat_keys()[i]
}

/// The path of the membership file of a process.
pub open spec fn spec_cgroup_file(pid: u32) -> Seq<char> {
    "/proc/"@ + decimal_digits(pid as nat) + "/cgroup"@
}

/// The path of the membership file of the process `pid`: `/proc/<pid>/cgroup`.
pub fn cgroup_file(pid: u32) -> (path: String)
    ensures
        path@ == spec_cgroup_file(pid),
{
    let mut path = String::from_str("/proc/");
    push_decimal(&mut path, pid);
    path.append("/cgroup");
    path
}

/// The cgroup of a process for one family, from what reading its membership
/// file gave. A file that is not there means the process has exited; a file
/// without a line for the family means the controller is not available.
pub open spec fn spec_resolve(file: Content, family: Family) -> Result<Seq<char>, Error> {
    match file {
        Ok(content) => match spec_which_cgroup(content@, family.spec_query()) {
            Some(path) => Ok(path),
            None => Err(Error::CgroupNotFound),
        },
        Err(ReadFailure::NotFound) => Err(Error::ProcessVanished),
        Err(ReadFailure::PermissionDenied) => Err(Error::PermissionDenied),
    }
}

/// The outcome that a poll delivered for the key at `index`: that of the first
/// completion which names the key. `None` where no completion names it.
pub open spec fn delivered(completions: Seq<Completion>, index: int) -> Option<
    Result<Seq<char>, ReadFailure>,
>
    decreases completions.len(),
{
    if completions.len() == 0 {
        None
    } else if completions[0].key == index {
        Some(
            match completions[0].outcome {
                Ok(text) => Ok(text@),
                Err(e) => Err(e),
            },
        )
    } else {
        delivered(completions.drop_first(), index)
    }
}

/// The value that a delivered outcome gives to a statistic. A file that could
/// not be read, or was never reported on, leaves the failure in its place.
pub open spec fn value_of(outcome: Option<Result<Seq<char>, ReadFailure>>) -> Result<
    Seq<char>,
    Error,
> {
    match outcome {
        Some(Ok(text)) => Ok(text),
        Some(Err(ReadFailure::PermissionDenied)) => Err(Error::PermissionDenied),
        Some(Err(ReadFailure::NotFound)) => Err(Error::CgroupNotFound),
        None => Err(Error::CgroupNotFound),
    }
}

impl ReaderView {
    /// The cgroup of the process for one family.
    pub open spec fn name(self, family: Family) -> Result<Seq<char>, Error> {
        match family {
            Family::Cpu => self.cpu,
            Family::Memory => self.mem,
            Family::Blkio => self.blkio,
            Family::Net => self.net,
        }
    }

    /// The file to read for a statistic: the file named by the key, in the
    /// cgroup of the process, under the directory of the family that the key
    /// is routed to; or the failure for which that cgroup is not known.
    pub open spec fn read_res(self, res: Seq<char>) -> Result<Seq<char>, Error> {
        match self.name(spec_route(res)) {
            Ok(name) => Ok(spec_stat_path(spec_route(res).spec_mount(), name, res)),
            Err(e) => Err(e),
        }
    }

    /// The files to read for one poll: one entry for each key, in order.
    pub open spec fn requests(self) -> Seq<Result<Seq<char>, Error>> {
        Seq::new(STAT_COUNT as nat, |i: int| self.read_res(stat_keys()[i]))
    }

    /// The value of the statistic at `index` after a poll: the failure for
    /// which its file is not known, or what the poll delivered for it.
    pub open spec fn value(self, index: int, completions: Seq<Completion>) -> Result<
        Seq<char>,
        Error,
    > {
        match self.read_res(stat_keys()[index]) {
            Ok(_) => value_of(delivered(completions, index)),
            Err(e) => Err(e),
        }
    }

    /// The snapshot that a poll comes to: one statistic for each key, in the
    /// order of the keys, whatever the poll delivered and in whatever order.
    pub open spec fn snapshot(self, completions: Seq<Completion>) -> Seq<StatView> {
        Seq::new(STAT_COUNT as nat, |i: int| (stat_keys()[i], self.value(i, completions)))
    }
}

/// The model of a list of requests or values: each text as a sequence of
/// characters.
pub open spec fn texts_view(values: Seq<Result<String, Error>>) -> Seq<Result<Seq<char>, Error>> {
    Seq::new(values.len(), |i: int| text_view(values[i]))
}

/// The collector that a membership file makes for a process.
pub open spec fn spec_new(pid: u32, file: Content) -> ReaderView {
    ReaderView {
        pid,
        cpu: spec_resolve(file, Family::Cpu),
        mem: spec_resolve(file, Family::Memory),
        blkio: spec_resolve(file, Family::Blkio),
        net: spec_resolve(file, Family::Net),
    }
}

impl Reader {
    /// The cgroup of the process for one family.
    pub fn name(&self, family: Family) -> (name: &Result<String, Error>)
        ensures
            text_view(*name) == self@.name(family),
    {
        match family {
            Family::Cpu => &self.cpu,
            Family::Memory => &self.mem,
            Family::Blkio => &self.blkio,
            Family::Net => &self.net,
        }
    }

    /// The file to read for the statistic `res`.
    pub fn read_res(&self, res: &str) -> (file: Result<String, Error>)
        ensures
            text_view(file) == self@.read_res(res@),
    {
        let family = route(res);
        match self.name(family) {
            Ok(name) => Ok(read_cgroup(family.mount(), name.as_str(), res)),
            Err(e) => Err(*e),
        }
    }

    /// The files to read for one poll, one entry for each key of the snapshot
    /// and in its order. All of them can be read at the same time.
    pub fn requests(&self) -> (files: Vec<Result<String, Error>>)
        ensures
            files.len() == STAT_COUNT,
            texts_view(files@) == self@.requests(),
    {
        let keys = stats();
        let mut files: Vec<Result<String, Error>> = Vec::new();
        let mut i: usize = 0;
        while i < keys.len()
            invariant
                0 <= i <= keys.len(),
                keys.len() == STAT_COUNT,
                files.len() == i,
                forall|j: int| 0 <= j < keys.len() ==> (#[trigger] keys[j])@ == stat_keys()[j],
                forall|j: int|
                    0 <= j < i ==> text_view(#[trigger] files[j]) == self@.read_res(
                        stat_keys()[j],
                    ),
            decreases keys.len() - i,
        {
            files.push(self.read_res(keys[i]));
            i += 1;
        }
        assert(texts_view(files@) =~= self@.requests());
        files
    }

    /// Joins the finished reads of one poll into a snapshot. The snapshot has
    /// one statistic for each key, in the order of the keys and not in that of
    /// completion. A statistic whose file was read has the content as its
    /// value; one whose file could not be read, whose read was never reported,
    /// or whose family has no known cgroup has a failure as its value.
    pub fn read(&self, completions: &Vec<Completion>) -> (snapshot: Vec<CGroupStat>)
        ensures
            snapshot.len() == STAT_COUNT,
            snapshot_view(snapshot@) == self@.snapshot(completions@),
    {
        let keys = stats();
        let mut snapshot: Vec<CGroupStat> = Vec::new();
        let mut i: usize = 0;
        while i < keys.len()
            invariant
                0 <= i <= keys.len(),
                keys.len() == STAT_COUNT,
                snapshot.len() == i,
                forall|j: int| 0 <= j < keys.len() ==> (#[trigger] keys[j])@ == stat_keys()[j],
                forall|j: int|
                    0 <= j < i ==> stat_view(#[trigger] snapshot[j]) == (
                        stat_keys()[j],
                        self@.value(j, completions@),
                    ),
            decreases keys.len() - i,
        {
            let value = match self.read_res(keys[i]) {
                Ok(_) => collect(completions, i),
                Err(e) => Err(e),
            };
            snapshot.push((keys[i].to_owned(), value));
            i += 1;
        }
        assert(snapshot_view(snapshot@) =~= self@.snapshot(completions@));
        snapshot
    }
}

/// The value that the finished reads give to the statistic at `index`.
fn collect(completions: &Vec<Completion>, index: usize) -> (value: Result<String, Error>)
    ensures
        text_view(value) == value_of(delivered(completions@, index as int)),
{
    let mut i: usize = 0;
    assert(completions@.skip(0) == completions@);
    while i < completions.len()
        invariant
            0 <= i <= completions.len(),
            delivered(completions@, index as int) == delivered(
                completions@.skip(i as int),
                index as int,
            ),
        decreases completions.len() - i,
    {
        let ghost rest = completions@.skip(i as int);
        assert(rest[0] == completions@[i as int]);
        assert(rest.drop_first() == completions@.skip(i + 1));
        if completions[i].key == index {
            return match &completions[i].outcome {
                Ok(text) => Ok(text.clone()),
                Err(ReadFailure::PermissionDenied) => Err(Error::PermissionDenied),
                Err(ReadFailure::NotFound) => Err(Error::CgroupNotFound),
            };
        }
        i += 1;
    }
    Err(Error::CgroupNotFound)
}

/// The collector of the process `pid`, from what reading its membership file
/// gave. A family for which the file names no cgroup stays without one, and
/// the collector is made all the same.
pub fn new(pid: u32, file: &Content) -> (reader: Reader)
    ensures
        reader@ == spec_new(pid, *file),
{
    Reader {
        pid,
        cpu: resolve(file, Family::Cpu),
        mem: resolve(file, Family::Memory),
        blkio: resolve(file, Family::Blkio),
        net: resolve(file, Family::Net),
    }
}

/// The cgroup of a process for one family, from what reading its membership
/// file gave.
fn resolve(file: &Content, family: Family) -> (name: Result<String, Error>)
    ensures
        text_view(name) == spec_resolve(*file, family),
{
    match file {
        Ok(content) => which_cgroup(content.as_str(), family.query()),
        Err(ReadFailure::NotFound) => Err(Error::ProcessVanished),
        Err(ReadFailure::PermissionDenied) => Err(Error::PermissionDenied),
    }
}

/// Whether a path lies under the directory of a family.
pub open spec fn lies_under(path: Seq<char>, family: Family) -> bool {
    ("/sys/fs/cgroup/"@ + family.spec_mount() + "/"@).is_prefix_of(path)
}

/// Routing goes by how a key begins and by nothing else. A key that begins
/// with `cpu`, and so one that begins with `cpuacct`, belongs to the cpu
/// family; a key that begins with `mem` never does.
pub proof fn lemma_route_by_prefix(key: Seq<char>)
    ensures
        "cpu"@.is_prefix_of(key) ==> spec_route(key) == Family::Cpu,
        "cpuacct"@.is_prefix_of(key) ==> spec_route(key) == Family::Cpu,
        "mem"@.is_prefix_of(key) ==> spec_route(key) != Family::Cpu,
{
    reveal_strlit("cpu");
    reveal_strlit("cpuacct");
    reveal_strlit("mem");
    if "cpuacct"@.is_prefix_of(key) {
        assert("cpu"@ =~= key.subrange(0, 3)) by {
            assert forall|i: int| 0 <= i < 3 implies "cpu"@[i] == key.subrange(0, 3)[i] by {
                assert(key.subrange(0, 7)[i] == "cpuacct"@[i]);
            }
        }
    }
    if "mem"@.is_prefix_of(key) && "cpu"@.is_prefix_of(key) {
        assert(key.subrange(0, 3)[0] == 'm');
        assert(key.subrange(0, 3)[0] == 'c');
    }
}

/// The file that a collector names for a key lies under the directory of the
/// family that the key is routed to, and under that of no other family. So
/// the file of a key that begins with `cpu` or `cpuacct` is never looked for
/// under the memory, blkio or net directory, and the file of a key that
/// begins with `mem` never under the cpu directory.
pub proof fn lemma_file_lies_under_its_family(reader: ReaderView, key: Seq<char>, other: Family)
    requires
        reader.read_res(key) is Ok,
    ensures
        lies_under(reader.read_res(key)->Ok_0, other) <==> other == spec_route(key),
{
    reveal_strlit("/sys/fs/cgroup/");
    reveal_strlit("/");
    reveal_strlit("cpu,cpuacct");
    reveal_strlit("memory");
    reveal_strlit("blkio");
    reveal_strlit("net_cls,net_prio");
    let family = spec_route(key);
    let path = reader.read_res(key)->Ok_0;
    let name = reader.name(family)->Ok_0;
    let own = "/sys/fs/cgroup/"@ + family.spec_mount() + "/"@;
    assert(path == own + name + "/"@ + key);
    assert(own =~= path.subrange(0, own.len() as int));
    if other != family {
        let theirs = "/sys/fs/cgroup/"@ + other.spec_mount() + "/"@;
        if theirs.is_prefix_of(path) {
            assert(theirs[15] == path.subrange(0, theirs.len() as int)[15]);
            assert(own[15] == path[15]);
            assert(theirs[16] == path.subrange(0, theirs.len() as int)[16]);
            assert(own[16] == path[16]);
        }
    }
}

/// A poll always gives a complete snapshot: one statistic for each key, in
/// the order of the keys, however many reads failed or were never reported.
pub proof fn lemma_snapshot_is_complete(reader: ReaderView, completions: Seq<Completion>)
    ensures
        is_complete(reader.snapshot(completions)),
{
}

/// A snapshot depends on nothing but what was delivered for each key: two
/// polls that deliver the same for every key give the same snapshot. So
/// polling again while no file has changed gives the same values.
pub proof fn lemma_read_is_repeatable(
    reader: ReaderView,
    first: Seq<Completion>,
    second: Seq<Completion>,
)
    requires
        forall|i: int| 0 <= i < STAT_COUNT ==> delivered(first, i) == delivered(second, i),
    ensures
        reader.snapshot(first) == reader.snapshot(second),
{
    assert(reader.snapshot(first) =~= reader.snapshot(second));
}

/// The completions with the two at `at` and `at + 1` in the other order.
pub open spec fn swapped(completions: Seq<Completion>, at: int) -> Seq<Completion> {
    completions.update(at, completions[at + 1]).update(at + 1, completions[at])
}

/// What is delivered for a key does not depend on which of two reads for
/// different keys finished first.
pub proof fn lemma_delivered_ignores_order(completions: Seq<Completion>, at: int, index: int)
    requires
        0 <= at < completions.len() - 1,
        completions[at].key != completions[at + 1].key,
    ensures
        delivered(swapped(completions, at), index) == delivered(completions, index),
    decreases at,
{
    let other = swapped(completions, at);
    if at == 0 {
        reveal_with_fuel(delivered, 3);
        let rest = completions.drop_first();
        let other_rest = other.drop_first();
        assert(rest.drop_first() =~= other_rest.drop_first());
        assert(rest[0] == completions[1]);
        assert(other_rest[0] == completions[0]);
        assert(other[0] == completions[1]);
    } else {
        assert(other[0] == completions[0]);
        assert(other.drop_first() =~= swapped(completions.drop_first(), at - 1));
        lemma_delivered_ignores_order(completions.drop_first(), at - 1, index);
    }
}

/// The snapshot does not depend on the order in which the reads of a poll
/// finish: exchanging two neighbouring completions for different keys leaves
/// it as it is.
pub proof fn lemma_snapshot_ignores_order(
    reader: ReaderView,
    completions: Seq<Completion>,
    at: int,
)
    requires
        0 <= at < completions.len() - 1,
        completions[at].key != completions[at + 1].key,
    ensures
        reader.snapshot(swapped(completions, at)) == reader.snapshot(completions),
{
    assert forall|i: int| 0 <= i < STAT_COUNT implies delivered(swapped(completions, at), i)
        == delivered(completions, i) by {
        lemma_delivered_ignores_order(completions, at, i);
    }
    lemma_read_is_repeatable(reader, swapped(completions, at), completions);
}

/// A sequence without the separator is its own head, and a sequence that
/// starts with such a part and the separator has that part as its head.
proof fn lemma_head_of(first: Seq<char>, rest: Seq<char>, sep: char)
    requires
        !first.contains(sep),
    ensures
        head(first, sep) == first,
        head(first + seq![sep] + rest, sep) == first,
        (first + seq![sep] + rest).skip(first.len() as int + 1) == rest,
{
    assert forall|j: int| 0 <= j < first.len() implies first[j] != sep by {
        if first[j] == sep {
            assert(first.contains(sep));
        }
    }
    lemma_first_position(first, sep, first.len() as int);
    let whole = first + seq![sep] + rest;
    assert forall|j: int| 0 <= j < first.len() implies whole[j] != sep by {
        assert(whole[j] == first[j]);
    }
    lemma_first_position(whole, sep, first.len() as int);
    assert(whole.take(first.len() as int) =~= first);
    assert(whole.skip(first.len() as int + 1) =~= rest);
}

/// A list of one element has that element and no other.
pub proof fn lemma_has_element_single(only: Seq<char>, item: Seq<char>)
    requires
        !only.contains(','),
    ensures
        has_element(only, item) == (only == item),
{
    lemma_head_of(only, Seq::empty(), ',');
}

/// A list has an element where the element is its first, or where the rest of
/// the list has it: an element is found wherever it stands in the list.
pub proof fn lemma_has_element_step(first: Seq<char>, rest: Seq<char>, item: Seq<char>)
    requires
        !first.contains(','),
    ensures
        has_element(first + seq![','] + rest, item) == (first == item || has_element(rest, item)),
{
    lemma_head_of(first, rest, ',');
}

/// A membership file of one line `<hierarchy>:<controllers>:<path>` gives its
/// path for exactly the controllers that are elements of its list.
pub proof fn lemma_single_line(
    hierarchy: Seq<char>,
    controllers: Seq<char>,
    path: Seq<char>,
    resource: Seq<char>,
)
    requires
        !hierarchy.contains(':'),
        !hierarchy.contains('\n'),
        !controllers.contains(':'),
        !controllers.contains('\n'),
        !path.contains('\n'),
    ensures
        spec_which_cgroup(hierarchy + seq![':'] + controllers + seq![':'] + path, resource) == if
            has_element(controllers, resource) {
            Some(path)
        } else {
            None::<Seq<char>>
        },
{
    let rest = controllers + seq![':'] + path;
    let line = hierarchy + seq![':'] + rest;
    assert(line =~= hierarchy + seq![':'] + controllers + seq![':'] + path);
    if line.contains('\n') {
        let j = choose|j: int| 0 <= j < line.len() && line[j] == '\n';
        if j < hierarchy.len() {
            assert(hierarchy[j] == '\n');
        } else if j > hierarchy.len() && j < hierarchy.len() + 1 + controllers.len() {
            assert(controllers[j - hierarchy.len() - 1] == '\n');
        } else if j > hierarchy.len() + 1 + controllers.len() {
            assert(path[j - hierarchy.len() - controllers.len() - 2] == '\n');
        }
    }
    lemma_head_of(line, Seq::empty(), '\n');
    lemma_head_of(hierarchy, rest, ':');
    lemma_head_of(controllers, path, ':');
}

/// A line whose controller list is `cpu,cpuacct` gives its path for `cpu` and
/// for `cpuacct`, and for no other controller.
pub proof fn lemma_comma_joined_list(hierarchy: Seq<char>, path: Seq<char>, resource: Seq<char>)
    requires
        !hierarchy.contains(':'),
        !hierarchy.contains('\n'),
        !path.contains('\n'),
    ensures
        spec_which_cgroup(
            hierarchy + seq![':'] + "cpu,cpuacct"@ + seq![':'] + path,
            resource,
        ) == if resource == "cpu"@ || resource == "cpuacct"@ {
            Some(path)
        } else {
            None::<Seq<char>>
        },
{
    reveal_strlit("cpu,cpuacct");
    reveal_strlit("cpu");
    reveal_strlit("cpuacct");
    let list = "cpu,cpuacct"@;
    assert(list =~= "cpu"@ + seq![','] + "cpuacct"@);
    assert(!"cpu"@.contains(','));
    assert(!"cpuacct"@.contains(','));
    assert(!list.contains(':'));
    assert(!list.contains('\n'));
    lemma_has_element_step("cpu"@, "cpuacct"@, resource);
    lemma_has_element_single("cpuacct"@, resource);
    lemma_single_line(hierarchy, list, path, resource);
}

} // verus!
