//! The namespace probe: the six namespace identities of a process, read from
//! the targets of its `/proc/<pid>/ns/<kind>` links.

use crate::container::process::Process;
use crate::error::{Error, ReadFailure};
use crate::text::{
    all_digits, chars_of, decimal_digits, decimal_value, digit_of, find_first, find_last,
    is_digit, lemma_decimal_value_prefix, lemma_first_position, lemma_last_position,
    push_decimal,
};
use vstd::prelude::*;

verus! {

/// The six kinds of namespace that tell containers apart.
#[derive(Clone, Copy, Debug, PartialEq, Eq, Structural)]
pub enum Kind {
    User,
    Ipc,
    Mnt,
    Net,
    Pid,
    Uts,
}

/// The namespace identities of one process: for each kind, the inode number of
/// the namespace the process is in. Processes are in the same container
/// exactly when all six agree.
#[derive(Clone, Copy, Debug, PartialEq, Eq, Structural)]
pub struct NamespaceSet {
    pub user: u32,
    pub ipc: u32,
    pub mnt: u32,
    pub net: u32,
    pub pid: u32,
    pub uts: u32,
}

/// The processes that share one set of namespaces, in the order in which they
/// were first seen.
#[derive(Clone, Debug, PartialEq, Eq)]
pub struct Group {
    pub namespaces: NamespaceSet,
    pub processes: Vec<Process>,
}

/// The model of a group: its namespaces and its processes as a sequence.
pub struct GroupView {
    pub namespaces: NamespaceSet,
    pub processes: Seq<Process>,
}

impl View for Group {
    type V = GroupView;

    open spec fn view(&self) -> GroupView {
        GroupView { namespaces: self.namespaces, processes: self.processes@ }
    }
}

/// A process together with its namespaces at discovery time.
#[derive(Clone, Copy, Debug, PartialEq, Eq, Structural)]
pub struct ProcessRef {
    pub process: Process,
    pub namespaces: NamespaceSet,
}

/// What reading one namespace link gave: its target, or why there is none.
pub type Link = Result<String, ReadFailure>;

/// The probe of one process.
#[derive(Clone, Copy, Debug, PartialEq, Eq, Structural)]
pub struct Reader {
    pub pid: u32,
}

/// The predicate that keeps decimal digits.
pub open spec fn digit_pred() -> spec_fn(char) -> bool {
    |c: char| is_digit(c)
}

/// The digits that a link target encloses in its last pair of brackets: those
/// between the last `[` and the first `]` after it. Whatever else stands
/// between, before or after the brackets is left out. `None` where the target
/// has no such pair.
pub open spec fn enclosed_digits(content: Seq<char>) -> Option<Seq<char>> {
    match content.index_of_last('[') {
        None => None,
        Some(open) => {
            let rest = content.subrange(open + 1, content.len() as int);
            match rest.index_of_first(']') {
                None => None,
                Some(close) => Some(rest.take(close).filter(digit_pred())),
            }
        },
    }
}

/// The identity that a link target denotes: the number that its enclosed
/// digits spell, where there is at least one digit and the number fits.
pub open spec fn identity_of(content: Seq<char>) -> Option<u32> {
    match enclosed_digits(content) {
        None => None,
        Some(digits) => if digits.len() > 0 && decimal_value(digits) <= u32::MAX {
            Some(decimal_value(digits) as u32)
        } else {
            None
        },
    }
}

/// What probing one link comes to: the identity its target denotes, or the
/// failure that stands for what went wrong.
pub open spec fn spec_read_ns(link: Link) -> Result<u32, Error> {
    match link {
        Ok(target) => match identity_of(target@) {
            Some(id) => Ok(id),
            None => Err(Error::MalformedRecord),
        },
        Err(ReadFailure::NotFound) => Err(Error::ProcessVanished),
        Err(ReadFailure::PermissionDenied) => Err(Error::PermissionDenied),
    }
}

/// What probing all six links comes to: the first failure in the order user,
/// ipc, mnt, net, pid, uts, or the six identities.
pub open spec fn spec_identities(links: Seq<Link>) -> Result<NamespaceSet, Error>
    recommends
        links.len() == 6,
{
    if spec_read_ns(links[0]) is Err {
        Err(spec_read_ns(links[0])->Err_0)
    } else if spec_read_ns(links[1]) is Err {
        Err(spec_read_ns(links[1])->Err_0)
    } else if spec_read_ns(links[2]) is Err {
        Err(spec_read_ns(links[2])->Err_0)
    } else if spec_read_ns(links[3]) is Err {
        Err(spec_read_ns(links[3])->Err_0)
    } else if spec_read_ns(links[4]) is Err {
        Err(spec_read_ns(links[4])->Err_0)
    } else if spec_read_ns(links[5]) is Err {
        Err(spec_read_ns(links[5])->Err_0)
    } else {
        Ok(
            NamespaceSet {
                user: spec_read_ns(links[0])->Ok_0,
                ipc: spec_read_ns(links[1])->Ok_0,
                mnt: spec_read_ns(links[2])->Ok_0,
                net: spec_read_ns(links[3])->Ok_0,
                pid: spec_read_ns(links[4])->Ok_0,
                uts: spec_read_ns(links[5])->Ok_0,
            },
        )
    }
}

impl Kind {
    /// The name of the kind, as the last segment of a link's path has it.
    pub open spec fn spec_name(self) -> Seq<char> {
        match self {
            Kind::User => "user"@,
            Kind::Ipc => "ipc"@,
            Kind::Mnt => "mnt"@,
            Kind::Net => "net"@,
            Kind::Pid => "pid"@,
            Kind::Uts => "uts"@,
        }
    }

    /// The name of the kind, as the last segment of a link's path has it.
    pub fn name(self) -> (text: &'static str)
        ensures
            text@ == self.spec_name(),
    {
        match self {
            Kind::User => "user",
            Kind::Ipc => "ipc",
            Kind::Mnt => "mnt",
            Kind::Net => "net",
            Kind::Pid => "pid",
            Kind::Uts => "uts",
        }
    }

}

impl NamespaceSet {
    /// The identity for one kind.
    pub open spec fn spec_get(self, kind: Kind) -> u32 {
        match kind {
            Kind::User => self.user,
            Kind::Ipc => self.ipc,
            Kind::Mnt => self.mnt,
            Kind::Net => self.net,
            Kind::Pid => self.pid,
            Kind::Uts => self.uts,
        }
    }

    /// The identity for one kind.
    pub fn get(&self, kind: Kind) -> (id: u32)
        ensures
            id == self.spec_get(kind),
    {
        match kind {
            Kind::User => self.user,
            Kind::Ipc => self.ipc,
            Kind::Mnt => self.mnt,
            Kind::Net => self.net,
            Kind::Pid => self.pid,
            Kind::Uts => self.uts,
        }
    }

    /// Whether two sets agree in all six identities.
    pub fn same(&self, other: &NamespaceSet) -> (equal: bool)
        ensures
            equal == (*self == *other),
            equal == (forall|kind: Kind| self.spec_get(kind) == other.spec_get(kind)),
    {
        let equal = self.user == other.user && self.ipc == other.ipc && self.mnt == other.mnt
            && self.net == other.net && self.pid == other.pid && self.uts == other.uts;
        proof {
            if !equal {
                assert(self.spec_get(Kind::User) == self.user);
                assert(self.spec_get(Kind::Ipc) == self.ipc);
                assert(self.spec_get(Kind::Mnt) == self.mnt);
                assert(self.spec_get(Kind::Net) == self.net);
                assert(self.spec_get(Kind::Pid) == self.pid);
                assert(self.spec_get(Kind::Uts) == self.uts);
            }
        }
        equal
    }
}

/// The digits kept from the first `k` enclosed characters are the first ones
/// kept from all of them.
proof fn lemma_filter_take_is_prefix(s: Seq<char>, k: int)
    requires
        0 <= k <= s.len(),
    ensures
        s.take(k).filter(digit_pred()).len() <= s.filter(digit_pred()).len(),
        s.take(k).filter(digit_pred()) == s.filter(digit_pred()).take(
            s.take(k).filter(digit_pred()).len() as int,
        ),
{
    let head = s.take(k);
    let tail = s.skip(k);
    assert(s == head + tail);
    Seq::filter_distributes_over_add(head, tail, digit_pred());
    let kept = head.filter(digit_pred());
    assert((kept + tail.filter(digit_pred())).take(kept.len() as int) == kept);
}

/// Filtering for digits leaves digits only.
proof fn lemma_filtered_are_digits(s: Seq<char>)
    ensures
        all_digits(s.filter(digit_pred())),
{
    let kept = s.filter(digit_pred());
    assert forall|i: int| 0 <= i < kept.len() implies is_digit(#[trigger] kept[i]) by {
        s.lemma_filter_pred(digit_pred(), i);
    }
}

/// Filtering a sequence of digits for digits keeps all of it.
proof fn lemma_filter_keeps_digits(digits: Seq<char>)
    requires
        all_digits(digits),
    ensures
        digits.filter(digit_pred()) == digits,
    decreases digits.len(),
{
    if digits.len() == 0 {
        reveal(Seq::filter);
    } else {
        let shorter = digits.drop_last();
        assert forall|i: int| 0 <= i < shorter.len() implies is_digit(#[trigger] shorter[i]) by {
            assert(shorter[i] == digits[i]);
        }
        lemma_filter_keeps_digits(shorter);
        assert(digits == shorter.push(digits.last()));
        shorter.lemma_filter_push(digits.last(), digit_pred());
        assert(is_digit(digits[digits.len() - 1]));
    }
}

/// Whatever stands before the brackets, the identity is the number between
/// them: two link targets with the same inode denote the same identity, also
/// where their kinds differ.
pub proof fn lemma_identity_ignores_prefix(prefix: Seq<char>, digits: Seq<char>)
    requires
        digits.len() > 0,
        all_digits(digits),
        decimal_value(digits) <= u32::MAX,
    ensures
        identity_of(prefix + seq!['['] + digits + seq![']']) == Some(decimal_value(digits) as u32),
{
    let content = prefix + seq!['['] + digits + seq![']'];
    let open = prefix.len() as int;
    assert forall|j: int| open < j < content.len() implies content[j] != '[' by {
        if j < content.len() - 1 {
            assert(content[j] == digits[j - open - 1]);
            assert(is_digit(digits[j - open - 1]));
        }
    }
    lemma_last_position(content, '[', open);
    let rest = content.subrange(open + 1, content.len() as int);
    assert(rest =~= digits + seq![']']);
    assert forall|j: int| 0 <= j < digits.len() implies rest[j] != ']' by {
        assert(is_digit(digits[j]));
    }
    lemma_first_position(rest, ']', digits.len() as int);
    assert(rest.take(digits.len() as int) =~= digits);
    lemma_filter_keeps_digits(digits);
}

/// Extracts the identity from the target of a namespace link. The target has
/// the form `<kind>:[<inode>]`: the digits between the last `[` and the first
/// `]` after it are read as a decimal number, and everything else is ignored.
/// A target without such a pair of brackets, without a digit between them, or
/// with a number that does not fit is malformed.
pub fn parse_ns_f(content: &str) -> (id: Result<u32, Error>)
    ensures
        id == match identity_of(content@) {
            Some(n) => Ok::<u32, Error>(n),
            None => Err(Error::MalformedRecord),
        },
{
    let chars = chars_of(content);
    let n = chars.len();
    assert(chars@.subrange(0, n as int) == content@);
    let open = match find_last(&chars, 0, n, '[') {
        Some(at) => at,
        None => {
            return Err(Error::MalformedRecord);
        },
    };
    let close = match find_first(&chars, open + 1, n, ']') {
        Some(at) => at,
        None => {
            return Err(Error::MalformedRecord);
        },
    };
    let ghost rest = content@.subrange(open + 1, n as int);
    let ghost enclosed = rest.take(close - (open + 1));
    assert(enclosed == chars@.subrange(open + 1, close as int));
    assert(enclosed_digits(content@) == Some(enclosed.filter(digit_pred())));
    let mut value: u64 = 0;
    let mut seen = false;
    let mut i: usize = open + 1;
    assert(enclosed.take(0).filter(digit_pred()).len() == 0) by {
        reveal(Seq::filter);
    }
    while i < close
        invariant
            open + 1 <= i <= close < n,
            n == chars.len(),
            enclosed == chars@.subrange(open + 1, close as int),
            enclosed_digits(content@) == Some(enclosed.filter(digit_pred())),
            value == decimal_value(enclosed.take(i - (open + 1)).filter(digit_pred())),
            seen == (enclosed.take(i - (open + 1)).filter(digit_pred()).len() > 0),
            value <= u32::MAX,
        decreases close - i,
    {
        let ghost k = i - (open + 1);
        let ghost before = enclosed.take(k).filter(digit_pred());
        proof {
            assert(enclosed.take(k + 1) == enclosed.take(k).push(chars@[i as int]));
            enclosed.take(k).lemma_filter_push(chars@[i as int], digit_pred());
        }
        match digit_of(chars[i]) {
            Some(d) => {
                let ghost after = before.push(chars@[i as int]);
                assert(after.drop_last() == before);
                value = value * 10 + d as u64;
                seen = true;
                if value > u32::MAX as u64 {
                    proof {
                        let all = enclosed.filter(digit_pred());
                        assert(enclosed.take(k + 1).filter(digit_pred()) == after);
                        assert(value == decimal_value(after));
                        lemma_filter_take_is_prefix(enclosed, k + 1);
                        lemma_filtered_are_digits(enclosed);
                        lemma_decimal_value_prefix(all, after.len() as int);
                        assert(all.take(after.len() as int) == after);
                    }
                    return Err(Error::MalformedRecord);
                }
            },
            None => {},
        }
        i += 1;
    }
    assert(enclosed.take(close - (open + 1)) == enclosed);
    if seen {
        Ok(value as u32)
    } else {
        Err(Error::MalformedRecord)
    }
}

/// Turns what reading one namespace link gave into the identity, or into the
/// failure that the caller is to tolerate: a link that is not there means the
/// process has exited, one that may not be read means the process belongs to
/// somebody else.
pub fn read_ns(link: &Link) -> (id: Result<u32, Error>)
    ensures
        id == spec_read_ns(*link),
{
    match link {
        Ok(target) => parse_ns_f(target.as_str()),
        Err(ReadFailure::NotFound) => Err(Error::ProcessVanished),
        Err(ReadFailure::PermissionDenied) => Err(Error::PermissionDenied),
    }
}

impl Reader {
    /// The path of the process's link for one kind of namespace.
    pub open spec fn spec_path(self, kind: Kind) -> Seq<char> {
        "/proc/"@ + decimal_digits(self.pid as nat) + "/ns/"@ + kind.spec_name()
    }

    /// The path of the process's link for one kind of namespace:
    /// `/proc/<pid>/ns/<kind>`.
    pub fn path(&self, kind: Kind) -> (path: String)
        ensures
            path@ == self.spec_path(kind),
    {
        let mut path = String::from_str("/proc/");
        push_decimal(&mut path, self.pid);
        path.append("/ns/");
        path.append(kind.name());
        path
    }

    /// The paths of the six links of the process, in the order user, ipc, mnt,
    /// net, pid, uts: the order in which `read` takes what reading them gave.
    pub fn paths(&self) -> (paths: [String; 6])
        ensures
            paths[0]@ == self.spec_path(Kind::User),
            paths[1]@ == self.spec_path(Kind::Ipc),
            paths[2]@ == self.spec_path(Kind::Mnt),
            paths[3]@ == self.spec_path(Kind::Net),
            paths[4]@ == self.spec_path(Kind::Pid),
            paths[5]@ == self.spec_path(Kind::Uts),
    {
        [
            self.path(Kind::User),
            self.path(Kind::Ipc),
            self.path(Kind::Mnt),
            self.path(Kind::Net),
            self.path(Kind::Pid),
            self.path(Kind::Uts),
        ]
    }

    /// The six namespace identities of the process, from what reading its six
    /// links gave, in the order user, ipc, mnt, net, pid, uts. The first link
    /// that gives no identity decides the failure.
    pub fn read(&self, links: &[Link; 6]) -> (set: Result<NamespaceSet, Error>)
        ensures
            set == spec_identities(links@),
    {
        let user = match read_ns(&links[0]) {
            Ok(id) => id,
            Err(e) => {
                return Err(e);
            },
        };
        let ipc = match read_ns(&links[1]) {
            Ok(id) => id,
            Err(e) => {
                return Err(e);
            },
        };
        let mnt = match read_ns(&links[2]) {
            Ok(id) => id,
            Err(e) => {
                return Err(e);
            },
        };
        let net = match read_ns(&links[3]) {
            Ok(id) => id,
            Err(e) => {
                return Err(e);
            },
        };
        let pid = match read_ns(&links[4]) {
            Ok(id) => id,
            Err(e) => {
                return Err(e);
            },
        };
        let uts = match read_ns(&links[5]) {
            Ok(id) => id,
            Err(e) => {
                return Err(e);
            },
        };
        Ok(NamespaceSet { user, ipc, mnt, net, pid, uts })
    }
}

/// The probe of the process `pid`.
pub fn new(pid: u32) -> (reader: Reader)
    ensures
        reader.pid == pid,
{
    Reader { pid }
}

} // verus!
