//! A container: one group of processes that share their namespaces, with the
//! collectors that read its resource statistics and the latest snapshot.
//!
//! A container does no reading of its own. It is told what happened, as an
//! [`Event`], and answers with what is to be done next, as an [`Action`]: the
//! caller reads the files, keeps the timer, and reports back.

pub mod cgroup_reader;
pub mod ns_reader;
pub mod pattern;
pub mod process;

use crate::container::cgroup_reader::new as new_reader;
use crate::container::cgroup_reader::{
    cgroup_file, is_complete, snapshot_view, spec_cgroup_file, spec_new, texts_view, CGroupStat,
    Completion, Content, Reader, ReaderView, StatView,
};
use crate::container::ns_reader::{Group, GroupView, NamespaceSet};
use crate::container::process::Process;
use crate::error::{Error, ReadFailure};
use vstd::prelude::*;

verus! {

/// Where a container is in its life.
#[derive(Clone, Copy, Debug, PartialEq, Eq, Structural)]
pub enum State {
    /// The cgroups of its processes are not known yet.
    Uninitialized,
    /// It is polled, one poll after the other.
    Active,
    /// It was torn down: it reads no more and keeps its last snapshot.
    Stopped,
}

/// What a container is told.
#[derive(Debug, PartialEq, Eq)]
pub enum Event {
    /// The container was started, or its timer has run out.
    Tick,
    /// The membership files were read: one outcome for each process, in the
    /// order of the processes.
    Resolved(Vec<Content>),
    /// Every read of the poll in flight has finished, in whatever order.
    Completed(Vec<Completion>),
    /// The container is to stop.
    Teardown,
}

/// What a container asks for.
#[derive(Debug, PartialEq, Eq)]
pub enum Action {
    /// Nothing.
    Idle,
    /// Read these membership files and report with `Event::Resolved`.
    Resolve(Vec<String>),
    /// Read these files, all at the same time, and report with
    /// `Event::Completed` once every read has finished. An entry that is a
    /// failure needs no read.
    Read(Vec<Result<String, Error>>),
    /// Report with `Event::Tick` after this many units of time.
    Wait(i32),
    /// Abandon the reads of the poll in flight.
    Cancel,
}

/// The model of an action.
pub enum ActionView {
    Idle,
    Resolve(Seq<Seq<char>>),
    Read(Seq<Result<Seq<char>, Error>>),
    Wait(i32),
    Cancel,
}

impl View for Action {
    type V = ActionView;

    open spec fn view(&self) -> ActionView {
        match *self {
            Action::Idle => ActionView::Idle,
            Action::Resolve(files) => ActionView::Resolve(
                Seq::new(files.len() as nat, |i: int| files[i]@),
            ),
            Action::Read(files) => ActionView::Read(texts_view(files@)),
            Action::Wait(units) => ActionView::Wait(units),
            Action::Cancel => ActionView::Cancel,
        }
    }
}

/// One inferred container.
#[derive(Debug, PartialEq, Eq)]
pub struct Container {
    processes: Vec<Process>,
    namespaces: NamespaceSet,
    cgroups: Vec<Reader>,
    update_intv: i32,
    state: State,
    reading: bool,
    snapshot: Option<Vec<CGroupStat>>,
}

/// The model of a container.
pub struct ContainerView {
    /// The processes of the group, in the order in which they were seen.
    pub processes: Seq<Process>,
    /// The namespaces that the processes share.
    pub namespaces: NamespaceSet,
    /// The collectors, one for each process once the cgroups are known.
    pub cgroups: Seq<ReaderView>,
    /// The time between two polls.
    pub update_intv: i32,
    pub state: State,
    /// Whether a poll is in flight.
    pub reading: bool,
    /// The snapshot of the last poll that finished.
    pub snapshot: Option<Seq<StatView>>,
}

/// The models of the collectors, in order.
pub open spec fn readers_view(readers: Seq<Reader>) -> Seq<ReaderView> {
    Seq::new(readers.len(), |i: int| readers[i]@)
}

/// The outcome for the process at `index`: a file that was not reported on
/// counts as not found.
pub open spec fn file_at(files: Seq<Content>, index: int) -> Content {
    if 0 <= index < files.len() {
        files[index]
    } else {
        Err(ReadFailure::NotFound)
    }
}

/// The collectors that the membership files make, one for each process.
pub open spec fn spec_load_cgroups(processes: Seq<Process>, files: Seq<Content>) -> Seq<
    ReaderView,
> {
    Seq::new(processes.len(), |i: int| spec_new(processes[i].pid, file_at(files, i)))
}

/// The paths of the membership files, one for each process.
pub open spec fn membership_files(processes: Seq<Process>) -> Seq<Seq<char>> {
    Seq::new(processes.len(), |i: int| spec_cgroup_file(processes[i].pid))
}

/// The container that a group starts as. A group without processes has
/// nothing to watch: its container is stopped from the start.
pub open spec fn spec_new_container(group: GroupView) -> ContainerView {
    ContainerView {
        processes: group.processes,
        namespaces: group.namespaces,
        cgroups: Seq::empty(),
        update_intv: 1,
        state: if group.processes.len() == 0 {
            State::Stopped
        } else {
            State::Uninitialized
        },
        reading: false,
        snapshot: None,
    }
}

impl ContainerView {
    /// What holds of every container: a snapshot, once there is one, is
    /// complete; a poll is in flight only while the container is active; an
    /// active container has a collector to poll with; and a container that
    /// is not stopped has processes.
    pub open spec fn wf(self) -> bool {
        &&& self.snapshot matches Some(snapshot) ==> is_complete(snapshot)
        &&& self.reading ==> self.state == State::Active
        &&& self.state == State::Active ==> self.cgroups.len() > 0
        &&& self.state == State::Uninitialized ==> self.processes.len() > 0
    }

    /// The container after an event.
    ///
    /// A stopped container stays as it is. Teardown stops any other. Before
    /// the cgroups are known only their resolution counts, and makes the
    /// container active. An active container starts a poll on a tick, and
    /// takes the snapshot of the poll in flight when it completes; a poll that
    /// completes while none is in flight was abandoned, and changes nothing.
    pub open spec fn after(self, event: Event) -> ContainerView {
        match (self.state, event) {
            (State::Stopped, _) => self,
            (_, Event::Teardown) => ContainerView { state: State::Stopped, reading: false, ..self },
            (State::Uninitialized, Event::Resolved(files)) => ContainerView {
                cgroups: spec_load_cgroups(self.processes, files@),
                state: State::Active,
                ..self
            },
            (State::Active, Event::Tick) => ContainerView { reading: true, ..self },
            (State::Active, Event::Completed(completions)) => if self.reading {
                ContainerView {
                    snapshot: Some(self.cgroups[0].snapshot(completions@)),
                    reading: false,
                    ..self
                }
            } else {
                self
            },
            _ => self,
        }
    }

    /// What the container asks for on an event.
    ///
    /// Before the cgroups are known, a tick asks for the membership files,
    /// and their resolution starts the timer. An active container answers a
    /// tick with the files of the next poll, unless a poll is in flight: polls
    /// never overlap. The completion of the poll in flight starts the timer
    /// again. Teardown abandons the poll in flight, if there is one.
    pub open spec fn action(self, event: Event) -> ActionView {
        match (self.state, event) {
            (State::Stopped, _) => ActionView::Idle,
            (_, Event::Teardown) => if self.reading {
                ActionView::Cancel
            } else {
                ActionView::Idle
            },
            (State::Uninitialized, Event::Tick) => ActionView::Resolve(
                membership_files(self.processes),
            ),
            (State::Uninitialized, Event::Resolved(_)) => ActionView::Wait(self.update_intv),
            (State::Active, Event::Tick) => if self.reading {
                ActionView::Idle
            } else {
                ActionView::Read(self.cgroups[0].requests())
            },
            (State::Active, Event::Completed(_)) => if self.reading {
                ActionView::Wait(self.update_intv)
            } else {
                ActionView::Idle
            },
            _ => ActionView::Idle,
        }
    }
}

/// Whether a container goes on as the container of a group: it is not
/// stopped, and the group has its namespaces and exactly its processes.
pub open spec fn continues(container: ContainerView, group: GroupView) -> bool {
    &&& container.state != State::Stopped
    &&& container.namespaces == group.namespaces
    &&& container.processes == group.processes
}

impl View for Container {
    type V = ContainerView;

    closed spec fn view(&self) -> ContainerView {
        ContainerView {
            processes: self.processes@,
            namespaces: self.namespaces,
            cgroups: readers_view(self.cgroups@),
            update_intv: self.update_intv,
            state: self.state,
            reading: self.reading,
            snapshot: match self.snapshot {
                Some(snapshot) => Some(snapshot_view(snapshot@)),
                None => None,
            },
        }
    }
}

/// Makes the collectors of a group, one for each process and in the order of
/// the processes, from what reading the membership files gave. The outcomes
/// stand in the order of the processes; a process without an outcome is taken
/// for one whose file was not found.
pub fn load_cgroups(procs: &Vec<Process>, files: &Vec<Content>) -> (cgroups: Vec<Reader>)
    ensures
        readers_view(cgroups@) == spec_load_cgroups(procs@, files@),
{
    let missing: Content = Err(ReadFailure::NotFound);
    let mut cgroups: Vec<Reader> = Vec::new();
    let mut i: usize = 0;
    while i < procs.len()
        invariant
            0 <= i <= procs.len(),
            missing == Err::<String, ReadFailure>(ReadFailure::NotFound),
            cgroups.len() == i,
            forall|j: int|
                0 <= j < i ==> (#[trigger] cgroups[j])@ == spec_new(
                    procs[j].pid,
                    file_at(files@, j),
                ),
        decreases procs.len() - i,
    {
        let file = if i < files.len() {
            &files[i]
        } else {
            &missing
        };
        cgroups.push(new_reader(procs[i].pid, file));
        i += 1;
    }
    assert(readers_view(cgroups@) =~= spec_load_cgroups(procs@, files@));
    cgroups
}

impl Container {
    #[verifier::type_invariant]
    spec fn inv(self) -> bool {
        self@.wf()
    }

    /// The processes of the container.
    pub fn processes(&self) -> (processes: &Vec<Process>)
        ensures
            processes@ == self@.processes,
    {
        &self.processes
    }

    /// The namespaces that the processes share.
    pub fn namespaces(&self) -> (namespaces: NamespaceSet)
        ensures
            namespaces == self@.namespaces,
    {
        self.namespaces
    }

    /// The collectors of the container.
    pub fn cgroups(&self) -> (cgroups: &Vec<Reader>)
        ensures
            readers_view(cgroups@) == self@.cgroups,
    {
        &self.cgroups
    }

    /// The time between two polls.
    pub fn update_intv(&self) -> (units: i32)
        ensures
            units == self@.update_intv,
    {
        self.update_intv
    }

    /// Where the container is in its life.
    pub fn state(&self) -> (state: State)
        ensures
            state == self@.state,
    {
        self.state
    }

    /// Whether a poll is in flight.
    pub fn reading(&self) -> (reading: bool)
        ensures
            reading == self@.reading,
            reading ==> self@.state == State::Active,
    {
        proof {
            use_type_invariant(self);
        }
        self.reading
    }

    /// The snapshot of the last poll that finished, if one has. It is
    /// complete: one statistic for each key, in the order of the keys.
    pub fn snapshot(&self) -> (snapshot: &Option<Vec<CGroupStat>>)
        ensures
            match *snapshot {
                Some(stats) => self@.snapshot == Some(snapshot_view(stats@)) && is_complete(
                    snapshot_view(stats@),
                ),
                None => self@.snapshot is None,
            },
    {
        proof {
            use_type_invariant(self);
        }
        &self.snapshot
    }

    /// Whether the container goes on as the container of `group`: it is not
    /// stopped, and the group has its namespaces and exactly its processes.
    pub fn continues(&self, group: &Group) -> (same: bool)
        ensures
            same == continues(self@, group@),
    {
        if self.state == State::Stopped || !self.namespaces.same(&group.namespaces)
            || self.processes.len() != group.processes.len() {
            return false;
        }
        let mut i: usize = 0;
        while i < self.processes.len()
            invariant
                0 <= i <= self.processes.len(),
                self.processes.len() == group.processes.len(),
                forall|j: int| 0 <= j < i ==> self.processes[j] == group.processes[j],
            decreases self.processes.len() - i,
        {
            if self.processes[i].pid != group.processes[i].pid {
                return false;
            }
            i += 1;
        }
        assert(self.processes@ =~= group.processes@);
        true
    }

    /// Tells the container what happened, and returns what is to be done
    /// next. See [`ContainerView::after`] and [`ContainerView::action`] for
    /// the rules.
    pub fn update(&mut self, event: Event) -> (action: Action)
        ensures
            final(self)@ == old(self)@.after(event),
            action@ == old(self)@.action(event),
            final(self)@.wf(),
    {
        proof {
            use_type_invariant(&*self);
        }
        match self.state {
            State::Stopped => Action::Idle,
            State::Uninitialized => match event {
                Event::Teardown => {
                    self.state = State::Stopped;
                    Action::Idle
                },
                Event::Tick => {
                    let mut files: Vec<String> = Vec::new();
                    let mut i: usize = 0;
                    while i < self.processes.len()
                        invariant
                            0 <= i <= self.processes.len(),
                            files.len() == i,
                            forall|j: int|
                                0 <= j < i ==> (#[trigger] files[j])@ == spec_cgroup_file(
                                    self.processes[j].pid,
                                ),
                        decreases self.processes.len() - i,
                    {
                        files.push(cgroup_file(self.processes[i].pid));
                        i += 1;
                    }
                    let action = Action::Resolve(files);
                    assert(action@ =~= old(self)@.action(event)) by {
                        assert(action@->Resolve_0 =~= membership_files(self.processes@));
                    }
                    action
                },
                Event::Resolved(files) => {
                    let cgroups = load_cgroups(&self.processes, &files);
                    self.cgroups = cgroups;
                    self.state = State::Active;
                    Action::Wait(self.update_intv)
                },
                Event::Completed(_) => Action::Idle,
            },
            State::Active => match event {
                Event::Teardown => {
                    let cancel = self.reading;
                    self.reading = false;
                    self.state = State::Stopped;
                    if cancel {
                        Action::Cancel
                    } else {
                        Action::Idle
                    }
                },
                Event::Tick => {
                    if self.reading {
                        Action::Idle
                    } else {
                        let files = self.cgroups[0].requests();
                        self.reading = true;
                        Action::Read(files)
                    }
                },
                Event::Completed(completions) => {
                    if self.reading {
                        let snapshot = self.cgroups[0].read(&completions);
                        self.snapshot = Some(snapshot);
                        self.reading = false;
                        Action::Wait(self.update_intv)
                    } else {
                        Action::Idle
                    }
                },
                Event::Resolved(_) => Action::Idle,
            },
        }
    }
}

/// The container of a group. Its cgroups are not known yet: on its first tick
/// it asks for the membership files of its processes. A group without
/// processes gives a container that is stopped from the start.
pub fn new(group: Group) -> (container: Container)
    ensures
        container@ == spec_new_container(group@),
        container@.wf(),
{
    let state = if group.processes.len() == 0 {
        State::Stopped
    } else {
        State::Uninitialized
    };
    let container = Container {
        processes: group.processes,
        namespaces: group.namespaces,
        cgroups: Vec::new(),
        update_intv: 1,
        state,
        reading: false,
        snapshot: None,
    };
    assert(container@.cgroups =~= Seq::<ReaderView>::empty());
    container
}

/// Whatever it is told, a container stays well formed: its snapshot, once it
/// has one, is complete, and it never has a poll in flight unless it is
/// active.
pub proof fn lemma_update_keeps_wf(container: ContainerView, event: Event)
    requires
        container.wf(),
    ensures
        container.after(event).wf(),
{
    match (container.state, event) {
        (State::Uninitialized, Event::Resolved(files)) => {
            assert(spec_load_cgroups(container.processes, files@).len() > 0);
        },
        _ => {},
    }
}

/// A stopped container stays stopped and keeps its last snapshot: no event
/// changes it, and it asks for nothing.
pub proof fn lemma_stopped_is_final(container: ContainerView, event: Event)
    requires
        container.state == State::Stopped,
    ensures
        container.after(event) == container,
        container.action(event) == ActionView::Idle,
{
}

/// Polls do not overlap, and a late poll overwrites nothing: while a poll is
/// in flight a tick starts no other, and a completion that arrives while no
/// poll is in flight leaves the snapshot as it is.
pub proof fn lemma_polls_are_sequential(container: ContainerView, event: Event)
    requires
        container.wf(),
    ensures
        container.reading && event is Tick ==> container.after(event) == container
            && container.action(event) == ActionView::Idle,
        !container.reading && event is Completed ==> container.after(event) == container
            && container.action(event) == ActionView::Idle,
{
}

} // verus!
