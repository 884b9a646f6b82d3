//! Discovery: from what a walk over `/proc` observed to the groups of
//! processes that share their namespaces, and to one container for each group.

pub mod grouping;

use crate::container::new as new_container;
use crate::container::ns_reader::new as new_probe;
use crate::container::{
    continues, spec_new_container, Action, ActionView, Container, ContainerView, Event,
};
use crate::container::ns_reader::{
    spec_identities, Group, GroupView, Link, NamespaceSet, ProcessRef,
};
use crate::container::process::{parse, pid_of, Process};
use crate::manager::grouping::{grouping, namespaces_of, spec_match_ns};
use vstd::prelude::*;

verus! {

/// What the walk observed of one entry of `/proc`: its name, and what reading
/// the six namespace links under it gave.
#[derive(Debug, PartialEq, Eq)]
pub struct Entry {
    pub name: String,
    pub links: [Link; 6],
}

/// The models of the groups, in order.
pub open spec fn groups_view(groups: Seq<Group>) -> Seq<GroupView> {
    Seq::new(groups.len(), |k: int| groups[k]@)
}

/// The process that an entry stands for, with its namespaces. An entry whose
/// name is no process id stands for none; nor does one whose links did not all
/// give an identity, because the process has exited, belongs to somebody else,
/// or has a link of an unknown form.
pub open spec fn spec_probe(entry: Entry) -> Option<ProcessRef> {
    match pid_of(entry.name@) {
        Some(pid) => match spec_identities(entry.links@) {
            Ok(namespaces) => Some(ProcessRef { process: Process { pid }, namespaces }),
            Err(_) => None,
        },
        None => None,
    }
}

/// The processes that the entries stand for, in the order of the entries.
pub open spec fn probed(entries: Seq<Entry>) -> Seq<ProcessRef> {
    entries.filter_map(probe_of())
}

/// `spec_probe` as a function value.
pub open spec fn probe_of() -> spec_fn(Entry) -> Option<ProcessRef> {
    |entry: Entry| spec_probe(entry)
}

/// The process that an entry stands for, with its namespaces.
pub fn probe(entry: &Entry) -> (seen: Option<ProcessRef>)
    ensures
        seen == spec_probe(*entry),
{
    match parse(entry.name.as_str()) {
        Some(process) => match new_probe(process.pid).read(&entry.links) {
            Ok(namespaces) => Some(ProcessRef { process, namespaces }),
            Err(_) => None,
        },
        None => None,
    }
}

/// Groups the processes that a walk over `/proc` observed. Entries that stand
/// for no process are passed over, and so is a process whose namespaces could
/// not all be read: neither ends the pass. The others are put into groups in
/// the order of the entries, each with the processes that have exactly its six
/// namespace identities.
pub fn get_process_groups(entries: &Vec<Entry>) -> (groups: Vec<Group>)
    ensures
        groups_view(groups@) == grouping(probed(entries@)),
{
    let mut groups: Vec<Group> = Vec::new();
    let mut i: usize = 0;
    assert(groups_view(groups@) =~= grouping(probed(entries@.take(0))));
    while i < entries.len()
        invariant
            0 <= i <= entries.len(),
            groups_view(groups@) == grouping(probed(entries@.take(i as int))),
        decreases entries.len() - i,
    {
        proof {
            entries@.lemma_filter_map_take_succ(probe_of(), i as int);
        }
        match probe(&entries[i]) {
            Some(seen) => {
                proof {
                    let so_far = probed(entries@.take(i as int));
                    let next = probed(entries@.take(i + 1));
                    assert(next.drop_last() == so_far);
                    assert(next.last() == seen);
                }
                match_ns(seen.process, seen.namespaces, &mut groups);
            },
            None => {
                assert(probed(entries@.take(i + 1)) == probed(entries@.take(i as int)));
            },
        }
        i += 1;
    }
    assert(entries@.take(i as int) == entries@);
    groups
}

/// Puts one process into the groups: into the first group that has exactly its
/// six namespace identities, as that group's last member, or into a new last
/// group where no group has them.
pub fn match_ns(process: Process, namespaces: NamespaceSet, groups: &mut Vec<Group>)
    ensures
        groups_view(final(groups)@) == spec_match_ns(
            groups_view(old(groups)@),
            ProcessRef { process, namespaces },
        ),
{
    let ghost before = groups_view(groups@);
    let ghost names = namespaces_of(before);
    let mut i: usize = 0;
    while i < groups.len()
        invariant
            0 <= i <= groups.len(),
            groups@ == old(groups)@,
            before == groups_view(groups@),
            names == namespaces_of(before),
            forall|j: int| 0 <= j < i ==> names[j] != namespaces,
        decreases groups.len() - i,
    {
        if groups[i].namespaces.same(&namespaces) {
            proof {
                lemma_first_of(names, namespaces, i as int);
            }
            groups[i].processes.push(process);
            assert(groups_view(groups@) =~= spec_match_ns(
                before,
                ProcessRef { process, namespaces },
            ));
            return ;
        }
        i += 1;
    }
    proof {
        lemma_first_of(names, namespaces, groups.len() as int);
    }
    let mut processes: Vec<Process> = Vec::new();
    processes.push(process);
    groups.push(Group { namespaces, processes });
    assert(groups_view(groups@) =~= spec_match_ns(before, ProcessRef { process, namespaces }));
}

/// A position with the value at it and none before it is the first position
/// of the value.
proof fn lemma_first_of(names: Seq<NamespaceSet>, namespaces: NamespaceSet, at: int)
    requires
        0 <= at <= names.len(),
        forall|j: int| 0 <= j < at ==> names[j] != namespaces,
        at < names.len() ==> names[at] == namespaces,
    ensures
        names.index_of_first(namespaces) == if at < names.len() {
            Some(at)
        } else {
            None::<int>
        },
{
    names.index_of_first_ensures(namespaces);
}

/// The owner of the containers of one host.
#[derive(Debug, PartialEq, Eq)]
pub struct Manager {
    user: u32,
    containers: Vec<Container>,
}

/// The model of a manager.
pub struct ManagerView {
    /// The user the manager runs as.
    pub user: u32,
    /// The containers of the last discovery, one for each group and in the
    /// order of the groups.
    pub containers: Seq<ContainerView>,
}

/// The models of the containers, in order.
pub open spec fn containers_view(containers: Seq<Container>) -> Seq<ContainerView> {
    Seq::new(containers.len(), |i: int| containers[i]@)
}

/// The place of the first container that goes on as the container of `group`.
pub open spec fn survivor(containers: Seq<ContainerView>, group: GroupView) -> Option<int> {
    if exists|k: int| 0 <= k < containers.len() && continues(#[trigger] containers[k], group) {
        Some(first_survivor(containers, group))
    } else {
        None
    }
}

/// The least place of a container that goes on as the container of `group`,
/// where there is one.
pub open spec fn first_survivor(containers: Seq<ContainerView>, group: GroupView) -> int
    decreases containers.len(),
{
    if containers.len() == 0 || continues(containers[0], group) {
        0
    } else {
        1 + first_survivor(containers.drop_first(), group)
    }
}

/// What a discovery makes of the containers there were: for each group, in
/// order, the first container left that goes on as its container, or else a
/// new one. The result is the new containers together with those that were
/// taken by no group.
pub open spec fn rebuild(containers: Seq<ContainerView>, groups: Seq<GroupView>) -> (
    Seq<ContainerView>,
    Seq<ContainerView>,
)
    decreases groups.len(),
{
    if groups.len() == 0 {
        (Seq::empty(), containers)
    } else {
        let (made, left) = rebuild(containers, groups.drop_last());
        match survivor(left, groups.last()) {
            Some(at) => (made.push(left[at]), left.remove(at)),
            None => (made.push(spec_new_container(groups.last())), left),
        }
    }
}

/// The containers after each of them was told to stop.
pub open spec fn torn_down(containers: Seq<ContainerView>) -> Seq<ContainerView> {
    Seq::new(containers.len(), |i: int| containers[i].after(Event::Teardown))
}

/// What `survivor` finds: the least place of a container that goes on as the
/// container of the group, or that there is none.
pub proof fn lemma_survivor(containers: Seq<ContainerView>, group: GroupView)
    ensures
        match survivor(containers, group) {
            Some(at) => 0 <= at < containers.len() && continues(containers[at], group)
                && forall|k: int| 0 <= k < at ==> !continues(#[trigger] containers[k], group),
            None => forall|k: int|
                0 <= k < containers.len() ==> !continues(#[trigger] containers[k], group),
        },
    decreases containers.len(),
{
    if survivor(containers, group) is Some {
        let w = choose|k: int| 0 <= k < containers.len() && continues(
            #[trigger] containers[k],
            group,
        );
        if !continues(containers[0], group) {
            let rest = containers.drop_first();
            assert(rest[w - 1] == containers[w]);
            lemma_survivor(rest, group);
            let at = first_survivor(rest, group);
            assert(rest[at] == containers[at + 1]);
            assert forall|k: int| 0 <= k < at + 1 implies !continues(
                #[trigger] containers[k],
                group,
            ) by {
                if k > 0 {
                    assert(rest[k - 1] == containers[k]);
                }
            }
        }
    }
}

impl View for Manager {
    type V = ManagerView;

    closed spec fn view(&self) -> ManagerView {
        ManagerView { user: self.user, containers: containers_view(self.containers@) }
    }
}

/// The place of the first container that goes on as the container of `group`.
fn find_survivor(containers: &Vec<Container>, group: &Group) -> (at: Option<usize>)
    ensures
        match at {
            Some(k) => k < containers.len() && survivor(containers_view(containers@), group@)
                == Some(k as int),
            None => survivor(containers_view(containers@), group@) is None,
        },
{
    let ghost views = containers_view(containers@);
    let mut i: usize = 0;
    while i < containers.len()
        invariant
            0 <= i <= containers.len(),
            views == containers_view(containers@),
            forall|k: int| 0 <= k < i ==> !continues(#[trigger] views[k], group@),
        decreases containers.len() - i,
    {
        if containers[i].continues(group) {
            proof {
                assert(continues(views[i as int], group@));
                lemma_survivor(views, group@);
            }
            return Some(i);
        }
        i += 1;
    }
    proof {
        lemma_survivor(views, group@);
    }
    None
}

impl Manager {
    /// The user the manager runs as.
    pub fn user(&self) -> (user: u32)
        ensures
            user == self@.user,
    {
        self.user
    }

    /// The containers of the last discovery.
    pub fn containers(&self) -> (containers: &Vec<Container>)
        ensures
            containers_view(containers@) == self@.containers,
    {
        &self.containers
    }

    /// Replaces the containers by those of a new discovery, one for each
    /// group and in the order of the groups. A container that is not stopped
    /// and whose group is found again, with the same namespaces and the same
    /// processes, goes on as it is, with its state and its snapshot; every
    /// other group gets a new container. The containers that no group took
    /// are torn down and returned, each with its last snapshot.
    pub fn get_containers(&mut self, groups: Vec<Group>) -> (retired: Vec<Container>)
        ensures
            final(self)@.user == old(self)@.user,
            final(self)@.containers == rebuild(old(self)@.containers, groups_view(groups@)).0,
            containers_view(retired@) == torn_down(
                rebuild(old(self)@.containers, groups_view(groups@)).1,
            ),
    {
        broadcast use vstd::std_specs::vec::axiom_spec_into_iter;

        let ghost before = self@.containers;
        let ghost all = groups_view(groups@);
        let ghost given = groups@;
        let mut left: Vec<Container> = Vec::new();
        std::mem::swap(&mut self.containers, &mut left);
        let mut made: Vec<Container> = Vec::new();
        assert(all.take(0) =~= Seq::<GroupView>::empty());
        assert(containers_view(made@) =~= Seq::<ContainerView>::empty());
        for group in it: groups
            invariant
                it.seq() == given,
                all == groups_view(given),
                (containers_view(made@), containers_view(left@)) == rebuild(
                    before,
                    all.take(it.index()),
                ),
        {
            let ghost done = all.take(it.index());
            let ghost next = all.take(it.index() + 1);
            assert(next.drop_last() =~= done);
            assert(next.last() == group@);
            let ghost left_before = containers_view(left@);
            let ghost made_before = containers_view(made@);
            match find_survivor(&left, &group) {
                Some(at) => {
                    let container = left.remove(at);
                    made.push(container);
                    assert(containers_view(left@) =~= left_before.remove(at as int));
                    assert(containers_view(made@) =~= made_before.push(left_before[at as int]));
                },
                None => {
                    made.push(new_container(group));
                    assert(containers_view(made@) =~= made_before.push(
                        spec_new_container(group@),
                    ));
                },
            }
        }
        assert(all.take(given.len() as int) =~= all);
        self.containers = made;
        let ghost rest = containers_view(left@);
        let mut i: usize = 0;
        while i < left.len()
            invariant
                0 <= i <= left.len(),
                left.len() == rest.len(),
                forall|k: int|
                    0 <= k < i ==> (#[trigger] left[k])@ == rest[k].after(Event::Teardown),
                forall|k: int| i <= k < left.len() ==> (#[trigger] left[k])@ == rest[k],
            decreases left.len() - i,
        {
            left[i].update(Event::Teardown);
            i += 1;
        }
        assert(containers_view(left@) =~= torn_down(rest));
        left
    }

    /// One discovery pass: groups the processes that a walk over `/proc`
    /// observed, and replaces the containers by those of the groups, as
    /// `get_process_groups` and `get_containers` say. Returns the containers
    /// that were torn down.
    pub fn discover(&mut self, entries: &Vec<Entry>) -> (retired: Vec<Container>)
        ensures
            final(self)@.user == old(self)@.user,
            final(self)@.containers == rebuild(
                old(self)@.containers,
                grouping(probed(entries@)),
            ).0,
            containers_view(retired@) == torn_down(
                rebuild(old(self)@.containers, grouping(probed(entries@))).1,
            ),
    {
        let groups = get_process_groups(entries);
        self.get_containers(groups)
    }

    /// Tells the container at `index` what happened, and returns what is to be
    /// done next for it. No other container is touched: what happens to one
    /// container never affects another. Where there is no such container,
    /// nothing changes and nothing is to be done.
    pub fn update(&mut self, index: usize, event: Event) -> (action: Action)
        ensures
            final(self)@.user == old(self)@.user,
            index < old(self)@.containers.len() ==> final(self)@.containers == old(
                self,
            )@.containers.update(index as int, old(self)@.containers[index as int].after(event))
                && action@ == old(self)@.containers[index as int].action(event),
            index >= old(self)@.containers.len() ==> final(self)@ == old(self)@ && action@
                == ActionView::Idle,
    {
        if index < self.containers.len() {
            let action = self.containers[index].update(event);
            assert(self@.containers =~= old(self)@.containers.update(
                index as int,
                old(self)@.containers[index as int].after(event),
            ));
            action
        } else {
            Action::Idle
        }
    }
}

/// A manager for the user `user`, with no containers yet.
pub fn new(user: u32) -> (manager: Manager)
    ensures
        manager@.user == user,
        manager@.containers.len() == 0,
{
    Manager { user, containers: Vec::new() }
}

/// What a discovery makes: one container for each group, with the namespaces
/// and the processes of its group, either new or one of the containers there
/// were that goes on for the group. The containers left over are among those
/// there were.
pub proof fn lemma_rebuild_shape(containers: Seq<ContainerView>, groups: Seq<GroupView>)
    ensures
        rebuild(containers, groups).0.len() == groups.len(),
        forall|g: int|
            0 <= g < groups.len() ==> {
                let made = #[trigger] rebuild(containers, groups).0[g];
                &&& made.namespaces == groups[g].namespaces
                &&& made.processes == groups[g].processes
                &&& made == spec_new_container(groups[g]) || (containers.contains(made)
                    && continues(made, groups[g]))
            },
        forall|j: int|
            0 <= j < rebuild(containers, groups).1.len() ==> containers.contains(
                #[trigger] rebuild(containers, groups).1[j],
            ),
    decreases groups.len(),
{
    if groups.len() > 0 {
        let before = groups.drop_last();
        lemma_rebuild_shape(containers, before);
        let (made, left) = rebuild(containers, before);
        let after = rebuild(containers, groups);
        lemma_survivor(left, groups.last());
        assert forall|g: int| 0 <= g < groups.len() implies {
            let one = #[trigger] after.0[g];
            &&& one.namespaces == groups[g].namespaces
            &&& one.processes == groups[g].processes
            &&& one == spec_new_container(groups[g]) || (containers.contains(one) && continues(
                one,
                groups[g],
            ))
        } by {
            if g < groups.len() - 1 {
                assert(after.0[g] == made[g]);
                assert(before[g] == groups[g]);
            } else {
                match survivor(left, groups.last()) {
                    Some(at) => {
                        assert(containers.contains(left[at]));
                    },
                    None => {},
                }
            }
        }
        assert forall|j: int| 0 <= j < after.1.len() implies containers.contains(
            #[trigger] after.1[j],
        ) by {
            match survivor(left, groups.last()) {
                Some(at) => {
                    if j < at {
                        assert(after.1[j] == left[j]);
                    } else {
                        assert(after.1[j] == left[j + 1]);
                    }
                },
                None => {},
            }
        }
    }
}

/// A container that goes on for none of the groups is left over.
proof fn lemma_rebuild_leaves(
    containers: Seq<ContainerView>,
    groups: Seq<GroupView>,
    container: ContainerView,
)
    requires
        containers.contains(container),
        forall|g: int| 0 <= g < groups.len() ==> !continues(container, #[trigger] groups[g]),
    ensures
        rebuild(containers, groups).1.contains(container),
    decreases groups.len(),
{
    if groups.len() > 0 {
        let before = groups.drop_last();
        assert forall|g: int| 0 <= g < before.len() implies !continues(
            container,
            #[trigger] before[g],
        ) by {
            assert(before[g] == groups[g]);
        }
        lemma_rebuild_leaves(containers, before, container);
        let left = rebuild(containers, before).1;
        lemma_survivor(left, groups.last());
        assert(groups.last() == groups[groups.len() - 1]);
        match survivor(left, groups.last()) {
            Some(at) => {
                let j = choose|j: int| 0 <= j < left.len() && left[j] == container;
                assert(j != at);
                if j < at {
                    assert(left.remove(at)[j] == container);
                } else {
                    assert(left.remove(at)[j - 1] == container);
                }
            },
            None => {},
        }
    } else {
        assert(rebuild(containers, groups).1 == containers);
    }
}

/// A discovery drops no live container whose group is found again unchanged.
/// Where a container that is not stopped goes on for one of the groups, with
/// the same namespaces and the same processes, and for no other group, and no
/// other container goes on for that group, the container of that group after
/// the discovery is this very container, with its state and its snapshot.
pub proof fn lemma_rebuild_keeps(
    containers: Seq<ContainerView>,
    groups: Seq<GroupView>,
    container: ContainerView,
    g: int,
)
    requires
        0 <= g < groups.len(),
        containers.contains(container),
        continues(container, groups[g]),
        forall|k: int|
            0 <= k < containers.len() && continues(#[trigger] containers[k], groups[g])
                ==> containers[k] == container,
        forall|h: int| 0 <= h < groups.len() && h != g ==> !continues(container, #[trigger] groups[h]),
    ensures
        rebuild(containers, groups).0[g] == container,
    decreases groups.len(),
{
    let before = groups.drop_last();
    lemma_rebuild_shape(containers, before);
    let (made, left) = rebuild(containers, before);
    if g == groups.len() - 1 {
        assert forall|h: int| 0 <= h < before.len() implies !continues(
            container,
            #[trigger] before[h],
        ) by {
            assert(before[h] == groups[h]);
        }
        lemma_rebuild_leaves(containers, before, container);
        lemma_survivor(left, groups.last());
        let j = choose|j: int| 0 <= j < left.len() && left[j] == container;
        assert(continues(left[j], groups.last()));
        let at = survivor(left, groups.last())->0;
        assert(containers.contains(left[at]));
        let k = choose|k: int| 0 <= k < containers.len() && containers[k] == left[at];
        assert(continues(containers[k], groups[g]));
    } else {
        assert(before[g] == groups[g]);
        assert forall|h: int| 0 <= h < before.len() && h != g implies !continues(
            container,
            #[trigger] before[h],
        ) by {
            assert(before[h] == groups[h]);
        }
        lemma_rebuild_keeps(containers, before, container, g);
        assert(rebuild(containers, groups).0[g] == made[g]);
    }
}

} // verus!
