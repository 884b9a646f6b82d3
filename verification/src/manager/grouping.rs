//! The model of grouping: processes fall into groups by their namespaces, one
//! group for each distinct set of six identities.

use crate::container::ns_reader::{GroupView, Kind, NamespaceSet, ProcessRef};
use crate::container::process::Process;
use vstd::prelude::*;

verus! {

/// The namespaces of the groups, in the order of the groups.
pub open spec fn namespaces_of(groups: Seq<GroupView>) -> Seq<NamespaceSet> {
    Seq::new(groups.len(), |k: int| groups[k].namespaces)
}

/// The place of the first group whose namespaces are `namespaces`.
pub open spec fn position(groups: Seq<GroupView>, namespaces: NamespaceSet) -> Option<int> {
    namespaces_of(groups).index_of_first(namespaces)
}

/// The groups after one more process: it joins the first group that has its
/// namespaces, as that group's last member, or starts a new last group where
/// there is none.
pub open spec fn spec_match_ns(groups: Seq<GroupView>, seen: ProcessRef) -> Seq<GroupView> {
    match position(groups, seen.namespaces) {
        Some(at) => groups.update(
            at,
            GroupView {
                namespaces: groups[at].namespaces,
                processes: groups[at].processes.push(seen.process),
            },
        ),
        None => groups.push(
            GroupView { namespaces: seen.namespaces, processes: seq![seen.process] },
        ),
    }
}

/// The groups that a sequence of processes falls into, taken in order.
pub open spec fn grouping(refs: Seq<ProcessRef>) -> Seq<GroupView>
    decreases refs.len(),
{
    if refs.len() == 0 {
        Seq::empty()
    } else {
        spec_match_ns(grouping(refs.drop_last()), refs.last())
    }
}

/// The processes among `refs` that have the namespaces `namespaces`, in order.
pub open spec fn members(refs: Seq<ProcessRef>, namespaces: NamespaceSet) -> Seq<Process>
    decreases refs.len(),
{
    if refs.len() == 0 {
        Seq::empty()
    } else if refs.last().namespaces == namespaces {
        members(refs.drop_last(), namespaces).push(refs.last().process)
    } else {
        members(refs.drop_last(), namespaces)
    }
}

/// The process ids of a group, as a set.
pub open spec fn pids_of(processes: Seq<Process>) -> Set<u32> {
    Set::new(|pid: u32| processes.contains(Process { pid }))
}

/// The groups as a set: each group by its namespaces and the set of its
/// process ids, with no regard to the order of groups or of members.
pub open spec fn group_set(groups: Seq<GroupView>) -> Set<(NamespaceSet, Set<u32>)> {
    Set::new(
        |e: (NamespaceSet, Set<u32>)|
            exists|k: int|
                0 <= k < groups.len() && (#[trigger] groups[k]).namespaces == e.0 && pids_of(
                    groups[k].processes,
                ) == e.1,
    )
}

/// What grouping comes to, said without the order of arrival: no two groups
/// have the same namespaces, and each group holds exactly the processes that
/// have its namespaces, of which there is at least one.
pub open spec fn is_partition(refs: Seq<ProcessRef>, groups: Seq<GroupView>) -> bool {
    &&& forall|k: int, l: int|
        0 <= k < l < groups.len() ==> (#[trigger] groups[k]).namespaces != (
        #[trigger] groups[l]).namespaces
    &&& forall|k: int|
        0 <= k < groups.len() ==> (#[trigger] groups[k]).processes == members(
            refs,
            groups[k].namespaces,
        ) && groups[k].processes.len() > 0
    &&& forall|i: int|
        0 <= i < refs.len() ==> position(groups, (#[trigger] refs[i]).namespaces) is Some
}

/// What `position` finds: the place of a group with the namespaces asked for,
/// or that there is no such group.
pub proof fn lemma_position(groups: Seq<GroupView>, namespaces: NamespaceSet)
    ensures
        match position(groups, namespaces) {
            Some(at) => 0 <= at < groups.len() && groups[at].namespaces == namespaces,
            None => forall|k: int|
                0 <= k < groups.len() ==> (#[trigger] groups[k]).namespaces != namespaces,
        },
{
    let names = namespaces_of(groups);
    names.index_of_first_ensures(namespaces);
    if position(groups, namespaces) is None {
        assert forall|k: int| 0 <= k < groups.len() implies (#[trigger] groups[k]).namespaces
            != namespaces by {
            assert(names[k] == groups[k].namespaces);
        }
    }
}

/// A group with the namespaces asked for has a position.
proof fn lemma_position_exists(groups: Seq<GroupView>, namespaces: NamespaceSet, k: int)
    requires
        0 <= k < groups.len(),
        groups[k].namespaces == namespaces,
    ensures
        position(groups, namespaces) is Some,
{
    lemma_position(groups, namespaces);
}

/// Where no process has the namespaces, there are no members.
proof fn lemma_members_none(refs: Seq<ProcessRef>, namespaces: NamespaceSet)
    requires
        forall|i: int| 0 <= i < refs.len() ==> (#[trigger] refs[i]).namespaces != namespaces,
    ensures
        members(refs, namespaces).len() == 0,
    decreases refs.len(),
{
    if refs.len() > 0 {
        let shorter = refs.drop_last();
        assert forall|i: int| 0 <= i < shorter.len() implies (#[trigger] shorter[i]).namespaces
            != namespaces by {
            assert(shorter[i] == refs[i]);
        }
        lemma_members_none(shorter, namespaces);
        assert(refs.last() == refs[refs.len() - 1]);
    }
}

/// A process is a member for some namespaces exactly when it was seen with
/// those namespaces.
pub proof fn lemma_members_contains(
    refs: Seq<ProcessRef>,
    namespaces: NamespaceSet,
    process: Process,
)
    ensures
        members(refs, namespaces).contains(process) <==> refs.contains(
            ProcessRef { process, namespaces },
        ),
    decreases refs.len(),
{
    let seen = ProcessRef { process, namespaces };
    if refs.len() > 0 {
        let shorter = refs.drop_last();
        let last = refs.last();
        lemma_members_contains(shorter, namespaces, process);
        let found = members(shorter, namespaces);
        if refs.contains(seen) {
            let i = choose|i: int| 0 <= i < refs.len() && refs[i] == seen;
            if i < refs.len() - 1 {
                assert(shorter[i] == seen);
                assert(found.contains(process));
                let j = choose|j: int| 0 <= j < found.len() && found[j] == process;
                if last.namespaces == namespaces {
                    assert(found.push(last.process)[j] == process);
                }
            } else {
                assert(last == seen);
                assert(found.push(process)[found.len() as int] == process);
            }
        }
        if members(refs, namespaces).contains(process) {
            let all = members(refs, namespaces);
            let j = choose|j: int| 0 <= j < all.len() && all[j] == process;
            if last.namespaces == namespaces && j == found.len() {
                assert(refs[refs.len() - 1] == seen);
            } else {
                assert(found[j] == process);
                assert(shorter.contains(seen));
                let i = choose|i: int| 0 <= i < shorter.len() && shorter[i] == seen;
                assert(refs[i] == seen);
            }
        }
    }
}

/// One more process keeps the groups a partition.
proof fn lemma_match_ns_partition(refs: Seq<ProcessRef>, groups: Seq<GroupView>)
    requires
        refs.len() > 0,
        is_partition(refs.drop_last(), groups),
    ensures
        is_partition(refs, spec_match_ns(groups, refs.last())),
{
    let shorter = refs.drop_last();
    let seen = refs.last();
    let after = spec_match_ns(groups, seen);
    lemma_position(groups, seen.namespaces);
    match position(groups, seen.namespaces) {
        Some(at) => {
            assert(namespaces_of(after) =~= namespaces_of(groups));
            assert forall|k: int| 0 <= k < after.len() implies (#[trigger] after[k]).processes
                == members(refs, after[k].namespaces) && after[k].processes.len() > 0 by {
                assert(groups[k].processes == members(shorter, groups[k].namespaces));
                if k != at {
                    if k < at {
                        assert(groups[k].namespaces != groups[at].namespaces);
                    } else {
                        assert(groups[at].namespaces != groups[k].namespaces);
                    }
                }
            }
            assert forall|k: int, l: int| 0 <= k < l < after.len() implies (
            #[trigger] after[k]).namespaces != (#[trigger] after[l]).namespaces by {
                assert(groups[k].namespaces != groups[l].namespaces);
            }
            assert forall|i: int| 0 <= i < refs.len() implies position(
                after,
                (#[trigger] refs[i]).namespaces,
            ) is Some by {
                if i < refs.len() - 1 {
                    assert(shorter[i] == refs[i]);
                }
            }
        },
        None => {
            assert forall|i: int| 0 <= i < shorter.len() implies (
            #[trigger] shorter[i]).namespaces != seen.namespaces by {
                lemma_position(groups, shorter[i].namespaces);
                let at = position(groups, shorter[i].namespaces)->0;
                assert(groups[at].namespaces == shorter[i].namespaces);
            }
            lemma_members_none(shorter, seen.namespaces);
            assert(members(shorter, seen.namespaces) =~= Seq::<Process>::empty());
            assert(Seq::<Process>::empty().push(seen.process) =~= seq![seen.process]);
            assert forall|k: int| 0 <= k < after.len() implies (#[trigger] after[k]).processes
                == members(refs, after[k].namespaces) && after[k].processes.len() > 0 by {
                if k < groups.len() {
                    assert(after[k] == groups[k]);
                    assert(groups[k].processes == members(shorter, groups[k].namespaces));
                }
            }
            assert forall|k: int, l: int| 0 <= k < l < after.len() implies (
            #[trigger] after[k]).namespaces != (#[trigger] after[l]).namespaces by {
                assert(after[k] == groups[k]);
                if l < groups.len() {
                    assert(after[l] == groups[l]);
                    assert(groups[k].namespaces != groups[l].namespaces);
                }
            }
            assert forall|i: int| 0 <= i < refs.len() implies position(
                after,
                (#[trigger] refs[i]).namespaces,
            ) is Some by {
                if i < refs.len() - 1 {
                    assert(shorter[i] == refs[i]);
                    lemma_position(groups, shorter[i].namespaces);
                    let at = position(groups, shorter[i].namespaces)->0;
                    assert(after[at] == groups[at]);
                    lemma_position_exists(after, refs[i].namespaces, at);
                } else {
                    lemma_position_exists(after, refs[i].namespaces, groups.len() as int);
                }
            }
        },
    }
}

/// Grouping partitions the processes by their namespaces: no two groups have
/// the same namespaces, each group holds exactly the processes with its
/// namespaces, in the order in which they were seen, and every process has the
/// group of its namespaces.
pub proof fn lemma_grouping_is_partition(refs: Seq<ProcessRef>)
    ensures
        is_partition(refs, grouping(refs)),
    decreases refs.len(),
{
    if refs.len() > 0 {
        lemma_grouping_is_partition(refs.drop_last());
        lemma_match_ns_partition(refs, grouping(refs.drop_last()));
    }
}

/// Two processes are put into the same group exactly when they agree in all
/// six namespace identities: with the same namespaces they are members of one
/// group, and with a single identity that differs they are in different
/// groups.
pub proof fn lemma_same_group_iff_same_namespaces(refs: Seq<ProcessRef>, i: int, j: int)
    requires
        0 <= i < refs.len(),
        0 <= j < refs.len(),
    ensures
        position(grouping(refs), refs[i].namespaces) matches Some(k) && 0 <= k < grouping(
            refs,
        ).len() && grouping(refs)[k].namespaces == refs[i].namespaces && grouping(
            refs,
        )[k].processes.contains(refs[i].process),
        refs[i].namespaces == refs[j].namespaces <==> position(
            grouping(refs),
            refs[i].namespaces,
        ) == position(grouping(refs), refs[j].namespaces),
        forall|kind: Kind|
            refs[i].namespaces.spec_get(kind) != refs[j].namespaces.spec_get(kind) ==> position(
                grouping(refs),
                refs[i].namespaces,
            ) != position(grouping(refs), refs[j].namespaces),
{
    let groups = grouping(refs);
    lemma_grouping_is_partition(refs);
    lemma_position(groups, refs[i].namespaces);
    lemma_position(groups, refs[j].namespaces);
    let k = position(groups, refs[i].namespaces)->0;
    assert(position(groups, refs[j].namespaces) is Some);
    assert(groups[k].processes == members(refs, groups[k].namespaces));
    lemma_members_contains(refs, refs[i].namespaces, refs[i].process);
    assert(refs.contains(refs[i]));
}

/// Where two sequences hold the same processes, each group of the first is a
/// group of the second, as a set of process ids.
proof fn lemma_group_set_subset(first: Seq<ProcessRef>, second: Seq<ProcessRef>)
    requires
        forall|seen: ProcessRef| first.contains(seen) <==> second.contains(seen),
    ensures
        group_set(grouping(first)).subset_of(group_set(grouping(second))),
{
    let one = grouping(first);
    let two = grouping(second);
    lemma_grouping_is_partition(first);
    lemma_grouping_is_partition(second);
    assert forall|e: (NamespaceSet, Set<u32>)| group_set(one).contains(e) implies group_set(
        two,
    ).contains(e) by {
        let k = choose|k: int|
            0 <= k < one.len() && (#[trigger] one[k]).namespaces == e.0 && pids_of(
                one[k].processes,
            ) == e.1;
        let namespaces = one[k].namespaces;
        assert(one[k].processes == members(first, namespaces));
        let process = one[k].processes[0];
        assert(members(first, namespaces).contains(process));
        lemma_members_contains(first, namespaces, process);
        let seen = ProcessRef { process, namespaces };
        assert(second.contains(seen));
        let i = choose|i: int| 0 <= i < second.len() && second[i] == seen;
        assert(position(two, second[i].namespaces) is Some);
        lemma_position(two, namespaces);
        let l = position(two, namespaces)->0;
        assert(two[l].processes == members(second, namespaces));
        assert forall|pid: u32|
            pids_of(two[l].processes).contains(pid) <==> pids_of(one[k].processes).contains(
                pid,
            ) by {
            lemma_members_contains(first, namespaces, Process { pid });
            lemma_members_contains(second, namespaces, Process { pid });
        }
        assert(pids_of(two[l].processes) =~= pids_of(one[k].processes));
        assert(two[l].namespaces == e.0 && pids_of(two[l].processes) == e.1);
    }
}

/// Grouping does not depend on the order of arrival: two sequences that hold
/// the same processes, in whatever order, give the same groups, each taken as
/// the set of its process ids.
pub proof fn lemma_grouping_ignores_order(first: Seq<ProcessRef>, second: Seq<ProcessRef>)
    requires
        first.to_multiset() == second.to_multiset(),
    ensures
        group_set(grouping(first)) == group_set(grouping(second)),
{
    assert forall|seen: ProcessRef| first.contains(seen) <==> second.contains(seen) by {
        vstd::seq_lib::to_multiset_contains(first, seen);
        vstd::seq_lib::to_multiset_contains(second, seen);
    }
    lemma_group_set_subset(first, second);
    lemma_group_set_subset(second, first);
    assert(group_set(grouping(first)) =~= group_set(grouping(second)));
}

} // verus!
