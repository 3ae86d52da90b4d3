//! Whole trees of files on their way: what is read, made and moved next, and when to wait.

use vstd::prelude::*;
use crate::shell;
use crate::text;
use crate::transfer;
use crate::transfer::{
    local_relative, push_entry, remote_join, transfer_jobs, EntryAction, EntryKind, PathPart,
    Totals,
};

verus! {

/// The files that are on their way and those that have arrived.
pub struct JobCount {
    /// How many may be on their way at a time.
    pub limit: nat,
    pub running: nat,
    pub files: nat,
    pub bytes: nat,
}

impl JobCount {
    pub open spec fn first(jobs: usize) -> JobCount {
        JobCount { limit: transfer::job_limit(jobs) as nat, running: 0, files: 0, bytes: 0 }
    }

    pub open spec fn full(self) -> bool {
        self.running >= self.limit
    }

    /// One more file is on its way.
    pub open spec fn started(self) -> JobCount {
        JobCount { running: self.running + 1, ..self }
    }

    /// A file has arrived.
    pub open spec fn moved(self, bytes: nat) -> JobCount {
        JobCount {
            running: (self.running - 1) as nat,
            files: self.files + 1,
            bytes: self.bytes + bytes,
            ..self
        }
    }
}

/// The files that are on their way and those that have arrived.
#[derive(Debug, Clone, Copy, PartialEq, Eq, Structural)]
pub struct Jobs {
    pub limit: usize,
    pub running: usize,
    pub totals: Totals,
}

impl View for Jobs {
    type V = JobCount;

    open spec fn view(&self) -> JobCount {
        JobCount {
            limit: self.limit as nat,
            running: self.running as nat,
            files: self.totals.files as nat,
            bytes: self.totals.bytes as nat,
        }
    }
}

impl Jobs {
    /// There is always room for one file, and never are more on their way than may be.
    pub open spec fn wf(self) -> bool {
        1 <= self.limit && self.running <= self.limit
    }

    pub fn new(jobs: usize) -> (r: Jobs)
        ensures
            r.wf(),
            r@ == JobCount::first(jobs),
    {
        Jobs { limit: transfer_jobs(jobs), running: 0, totals: Totals::new() }
    }

    fn start(&mut self)
        requires
            old(self).wf(),
            old(self).running < old(self).limit,
        ensures
            final(self).wf(),
            final(self)@ == old(self)@.started(),
    {
        self.running = self.running + 1;
    }

    fn arrive(&mut self, bytes: u64) -> (r: Result<(), String>)
        requires
            old(self).wf(),
            old(self).running > 0,
            old(self).totals.files < u64::MAX,
        ensures
            final(self).wf(),
            match r {
                Ok(_) => final(self)@ == old(self)@.moved(bytes as nat),
                Err(message) => {
                    &&& old(self)@.bytes + bytes > u64::MAX
                    &&& message@ == "transfer byte count overflow"@
                    &&& final(self)@ == old(self)@.moved(0)
                },
            },
    {
        self.running = self.running - 1;
        self.totals.add_file(bytes)
    }
}

/// An entry of a local directory, by its path below the root of the tree.
#[derive(Debug)]
pub struct TreeEntry {
    pub kind: EntryKind,
    pub relative: Vec<PathPart>,
    /// The relative path as it is shown.
    pub shown: String,
    /// The whole path as it is shown.
    pub shown_whole: String,
}

/// What has happened since the last action.
#[derive(Debug)]
pub enum WalkEvent {
    /// What was to be done is done.
    Ready,
    /// The directory that is read has this entry.
    Entry(TreeEntry),
    /// It has no more entries.
    End,
    /// A file of so many bytes has arrived.
    Moved(u64),
}

/// What is done next when a tree is pushed.
#[derive(Debug)]
pub enum WalkAction {
    /// Read the directory with this number: the root is zero, the others are counted as they were
    /// made.
    Open(u64),
    /// Read the next entry.
    Next,
    /// Make a directory on the device.
    Make(String),
    /// Wait until a file has arrived.
    Wait,
    /// Send the file of the entry to this path.
    Send(String),
    /// All is done.
    Done,
}

/// What comes of an event: an action, or the end of the push.
pub enum WalkStep {
    Open(int),
    Next,
    Make(Seq<char>),
    Wait,
    Send(Seq<char>),
    Done,
    Fault(Seq<char>),
}

/// Whether this is what came of an event.
pub open spec fn is_step(r: Result<WalkAction, String>, step: WalkStep) -> bool {
    match (r, step) {
        (Ok(WalkAction::Open(n)), WalkStep::Open(m)) => n == m,
        (Ok(WalkAction::Next), WalkStep::Next) => true,
        (Ok(WalkAction::Make(a)), WalkStep::Make(b)) => a@ == b,
        (Ok(WalkAction::Wait), WalkStep::Wait) => true,
        (Ok(WalkAction::Send(a)), WalkStep::Send(b)) => a@ == b,
        (Ok(WalkAction::Done), WalkStep::Done) => true,
        (Err(a), WalkStep::Fault(b)) => a@ == b,
        _ => false,
    }
}

/// A push of a tree, under way.
#[verifier::ext_equal]
pub struct WalkState {
    /// Where the tree goes on the device.
    pub base: Seq<char>,
    /// The numbers of the directories that are still to be read; the last is read first.
    pub pending: Seq<int>,
    /// How many directories there are, with the root.
    pub directories: nat,
    /// Whether a directory is being read.
    pub reading: bool,
    /// Where the file goes that waits for its turn.
    pub held: Option<Seq<char>>,
    pub jobs: JobCount,
}

/// Where an entry goes; `None` where its path has no place on the device.
pub open spec fn entry_path(base: Seq<char>, entry: TreeEntry) -> Option<Seq<char>> {
    match transfer::names_of(entry.relative@) {
        Some(names) => Some(transfer::remote_path(base, names)),
        None => None,
    }
}

impl WalkState {
    pub open spec fn first(base: Seq<char>, jobs: usize) -> WalkState {
        WalkState {
            base,
            pending: seq![0int],
            directories: 1,
            reading: false,
            held: None,
            jobs: JobCount::first(jobs),
        }
    }

    /// Whether an event may come now: entries of a directory that is read, files that are on
    /// their way, and no more of either than can be counted.
    pub open spec fn may_come(self, event: WalkEvent) -> bool {
        match event {
            WalkEvent::Ready => true,
            WalkEvent::Entry(_) => self.reading && self.held is None && self.directories < u64::MAX,
            WalkEvent::End => self.reading && self.held is None,
            WalkEvent::Moved(_) => self.jobs.running > 0 && self.jobs.files < u64::MAX,
        }
    }

    /// A file that waits comes first, then the rest of the directory, then the other directories;
    /// at last, what is on its way must arrive.
    pub open spec fn go_on(self) -> (WalkState, WalkStep) {
        if self.held is Some {
            if self.jobs.full() {
                (self, WalkStep::Wait)
            } else {
                (
                    WalkState { held: None, jobs: self.jobs.started(), ..self },
                    WalkStep::Send(self.held->0),
                )
            }
        } else if self.reading {
            (self, WalkStep::Next)
        } else if self.pending.len() > 0 {
            (
                WalkState { pending: self.pending.drop_last(), reading: true, ..self },
                WalkStep::Open(self.pending.last()),
            )
        } else if self.jobs.running > 0 {
            (self, WalkStep::Wait)
        } else {
            (self, WalkStep::Done)
        }
    }

    /// A directory is made and counted, and read later. A link ends the push.
    pub open spec fn after_entry(self, entry: TreeEntry) -> (WalkState, WalkStep) {
        match entry_path(self.base, entry) {
            None => (
                self,
                WalkStep::Fault("unsupported local path component in "@ + entry.shown@),
            ),
            Some(path) => match entry.kind {
                EntryKind::Symlink => (
                    self,
                    WalkStep::Fault(
                        "recursive push does not follow symlink "@ + entry.shown_whole@,
                    ),
                ),
                EntryKind::Directory => (
                    WalkState {
                        pending: self.pending.push(self.directories as int),
                        directories: self.directories + 1,
                        ..self
                    },
                    WalkStep::Make(path),
                ),
                EntryKind::File => WalkState { held: Some(path), ..self }.go_on(),
                EntryKind::Other => self.go_on(),
            },
        }
    }

    pub open spec fn after(self, event: WalkEvent) -> (WalkState, WalkStep) {
        match event {
            WalkEvent::Ready => self.go_on(),
            WalkEvent::Entry(entry) => self.after_entry(entry),
            WalkEvent::End => WalkState { reading: false, ..self }.go_on(),
            WalkEvent::Moved(bytes) => if self.jobs.bytes + bytes > u64::MAX {
                (
                    WalkState { jobs: self.jobs.moved(0), ..self },
                    WalkStep::Fault("transfer byte count overflow"@),
                )
            } else {
                WalkState { jobs: self.jobs.moved(bytes as nat), ..self }.go_on()
            },
        }
    }
}

pub open spec fn numbers(list: Seq<u64>) -> Seq<int> {
    list.map_values(|n: u64| n as int)
}

/// A push of a tree. What is read, made and sent is up to the caller; this says what, and when.
#[derive(Debug)]
pub struct PushWalk {
    base: String,
    pending: Vec<u64>,
    directories: u64,
    reading: bool,
    held: Option<String>,
    jobs: Jobs,
}

impl View for PushWalk {
    type V = WalkState;

    closed spec fn view(&self) -> WalkState {
        WalkState {
            base: self.base@,
            pending: numbers(self.pending@),
            directories: self.directories as nat,
            reading: self.reading,
            held: match self.held {
                Some(path) => Some(path@),
                None => None,
            },
            jobs: self.jobs@,
        }
    }
}

impl PushWalk {
    pub closed spec fn wf(&self) -> bool {
        self.jobs.wf()
    }

    /// The root has been made on the device and is still to be read.
    pub fn new(base: String, jobs: usize) -> (r: PushWalk)
        ensures
            r.wf(),
            r@ == WalkState::first(base@, jobs),
    {
        let mut pending: Vec<u64> = Vec::new();
        pending.push(0);
        assert(numbers(pending@) =~= seq![0int]);
        PushWalk {
            base,
            pending,
            directories: 1,
            reading: false,
            held: None,
            jobs: Jobs::new(jobs),
        }
    }

    /// What has arrived so far.
    pub fn totals(&self) -> (r: Totals)
        ensures
            r.files == self@.jobs.files,
            r.bytes == self@.jobs.bytes,
    {
        self.jobs.totals
    }

    /// How many directories there are so far, with the root.
    pub fn directories(&self) -> (r: u64)
        ensures
            r == self@.directories,
    {
        self.directories
    }

    pub fn takes(&self, event: &WalkEvent) -> (r: bool)
        ensures
            r == self@.may_come(*event),
    {
        match event {
            WalkEvent::Ready => true,
            WalkEvent::Entry(_) => self.reading && self.held.is_none() && self.directories
                < u64::MAX,
            WalkEvent::End => self.reading && self.held.is_none(),
            WalkEvent::Moved(_) => self.jobs.running > 0 && self.jobs.totals.files < u64::MAX,
        }
    }

    fn go_on(&mut self) -> (r: WalkAction)
        requires
            old(self).wf(),
        ensures
            final(self).wf(),
            final(self)@ == old(self)@.go_on().0,
            is_step(Ok(r), old(self)@.go_on().1),
    {
        if self.held.is_some() {
            if self.jobs.running >= self.jobs.limit {
                return WalkAction::Wait;
            }
            self.jobs.start();
            match self.held.take() {
                Some(path) => WalkAction::Send(path),
                None => WalkAction::Wait,
            }
        } else if self.reading {
            WalkAction::Next
        } else {
            let ghost before = self.pending@;
            match self.pending.pop() {
                Some(number) => {
                    self.reading = true;
                    assert(numbers(self.pending@) =~= numbers(before).drop_last());
                    WalkAction::Open(number)
                },
                None => if self.jobs.running > 0 {
                    WalkAction::Wait
                } else {
                    WalkAction::Done
                },
            }
        }
    }

    fn entry(&mut self, entry: TreeEntry) -> (r: Result<WalkAction, String>)
        requires
            old(self).wf(),
            old(self)@.held is None,
            old(self)@.directories < u64::MAX,
        ensures
            final(self).wf(),
            final(self)@ == old(self)@.after_entry(entry).0,
            is_step(r, old(self)@.after_entry(entry).1),
    {
        let path = match remote_join(
            self.base.as_str(),
            entry.relative.as_slice(),
            entry.shown.as_str(),
        ) {
            Ok(path) => path,
            Err(message) => return Err(message),
        };
        match push_entry(entry.kind, entry.shown_whole.as_str()) {
            Err(message) => Err(message),
            Ok(EntryAction::Walk) => {
                let ghost before = self.pending@;
                self.pending.push(self.directories);
                assert(numbers(self.pending@) =~= numbers(before).push(self.directories as int));
                self.directories = self.directories + 1;
                Ok(WalkAction::Make(path))
            },
            Ok(EntryAction::Send) => {
                self.held = Some(path);
                Ok(self.go_on())
            },
            Ok(EntryAction::Nothing) => Ok(self.go_on()),
        }
    }

    /// Takes an event and says what is done next; an error ends the push.
    pub fn step(&mut self, event: WalkEvent) -> (r: Result<WalkAction, String>)
        requires
            old(self).wf(),
            old(self)@.may_come(event),
        ensures
            final(self).wf(),
            final(self)@ == old(self)@.after(event).0,
            is_step(r, old(self)@.after(event).1),
    {
        match event {
            WalkEvent::Ready => Ok(self.go_on()),
            WalkEvent::Entry(entry) => self.entry(entry),
            WalkEvent::End => {
                self.reading = false;
                Ok(self.go_on())
            },
            WalkEvent::Moved(bytes) => match self.jobs.arrive(bytes) {
                Err(message) => Err(message),
                Ok(_) => Ok(self.go_on()),
            },
        }
    }
}

/// Whether an event answers the last action; the first says that the root has been made.
pub open spec fn answers(steps: Seq<WalkStep>, event: WalkEvent) -> bool {
    if steps.len() == 0 {
        event is Ready
    } else {
        match steps.last() {
            WalkStep::Open(_) | WalkStep::Make(_) | WalkStep::Send(_) => event is Ready,
            WalkStep::Next => event is Entry || event is End,
            WalkStep::Wait => event is Moved,
            WalkStep::Done | WalkStep::Fault(_) => false,
        }
    }
}

/// A push after some events, with all that came of them; `None` where an event does not answer
/// the action before it, or where the push has failed.
pub open spec fn pushed(base: Seq<char>, jobs: usize, events: Seq<WalkEvent>) -> Option<
    (WalkState, Seq<WalkStep>),
>
    decreases events.len(),
{
    if events.len() == 0 {
        Some((WalkState::first(base, jobs), Seq::empty()))
    } else {
        match pushed(base, jobs, events.drop_last()) {
            None => None,
            Some((state, steps)) => {
                let (next, step) = state.after(events.last());
                if !answers(steps, events.last()) || step is Fault {
                    None
                } else {
                    Some((next, steps.push(step)))
                }
            },
        }
    }
}

/// Where the entries of one kind go that were found, in order.
pub open spec fn found(base: Seq<char>, events: Seq<WalkEvent>, kind: EntryKind) -> Seq<Seq<char>>
    decreases events.len(),
{
    if events.len() == 0 {
        Seq::empty()
    } else {
        let before = found(base, events.drop_last(), kind);
        match events.last() {
            WalkEvent::Entry(entry) => if entry.kind == kind {
                before.push(entry_path(base, entry)->0)
            } else {
                before
            },
            _ => before,
        }
    }
}

/// The sizes of the files that have arrived, in order.
pub open spec fn arrived(events: Seq<WalkEvent>) -> Seq<nat>
    decreases events.len(),
{
    if events.len() == 0 {
        Seq::empty()
    } else {
        match events.last() {
            WalkEvent::Moved(bytes) => arrived(events.drop_last()).push(bytes as nat),
            _ => arrived(events.drop_last()),
        }
    }
}

pub open spec fn sum(sizes: Seq<nat>) -> nat
    decreases sizes.len(),
{
    if sizes.len() == 0 {
        0
    } else {
        sum(sizes.drop_last()) + sizes.last()
    }
}

/// Where files were sent, in order.
pub open spec fn sent(steps: Seq<WalkStep>) -> Seq<Seq<char>>
    decreases steps.len(),
{
    if steps.len() == 0 {
        Seq::empty()
    } else {
        match steps.last() {
            WalkStep::Send(path) => sent(steps.drop_last()).push(path),
            _ => sent(steps.drop_last()),
        }
    }
}

/// The directories that were made, in order.
pub open spec fn made(steps: Seq<WalkStep>) -> Seq<Seq<char>>
    decreases steps.len(),
{
    if steps.len() == 0 {
        Seq::empty()
    } else {
        match steps.last() {
            WalkStep::Make(path) => made(steps.drop_last()).push(path),
            _ => made(steps.drop_last()),
        }
    }
}

/// The numbers of the directories that were read, in order.
pub open spec fn opened(steps: Seq<WalkStep>) -> Seq<int>
    decreases steps.len(),
{
    if steps.len() == 0 {
        Seq::empty()
    } else {
        match steps.last() {
            WalkStep::Open(number) => opened(steps.drop_last()).push(number),
            _ => opened(steps.drop_last()),
        }
    }
}

spec fn held_list(state: WalkState) -> Seq<Seq<char>> {
    match state.held {
        Some(path) => seq![path],
        None => Seq::empty(),
    }
}

/// How often a number stands in a list.
pub open spec fn times(list: Seq<int>, n: int) -> nat {
    list.to_multiset().count(n)
}

/// What holds between a push and its history, whatever was done last.
spec fn accounted_but_last(
    base: Seq<char>,
    jobs: usize,
    events: Seq<WalkEvent>,
    state: WalkState,
    steps: Seq<WalkStep>,
) -> bool {
    &&& state.base == base
    &&& state.jobs.limit == transfer::job_limit(jobs)
    &&& state.jobs.running <= state.jobs.limit
    &&& sent(steps) + held_list(state) == found(base, events, EntryKind::File)
    &&& made(steps) == found(base, events, EntryKind::Directory)
    &&& state.directories == 1 + made(steps).len()
    &&& forall|n: int|
        #![trigger times(opened(steps), n)]
        times(opened(steps), n) + times(state.pending, n) == if 0 <= n < state.directories {
            1nat
        } else {
            0
        }
    &&& state.jobs.files == arrived(events).len()
    &&& state.jobs.bytes == sum(arrived(events))
    &&& state.jobs.files + state.jobs.running == sent(steps).len()
    &&& found(base, events, EntryKind::Symlink).len() == 0
}

/// What holds between a push and its history.
spec fn accounted(
    base: Seq<char>,
    jobs: usize,
    events: Seq<WalkEvent>,
    state: WalkState,
    steps: Seq<WalkStep>,
) -> bool {
    &&& accounted_but_last(base, jobs, events, state, steps)
    &&& steps.len() > 0 ==> match steps.last() {
        WalkStep::Open(_) | WalkStep::Make(_) | WalkStep::Next => state.reading && state.held
            is None,
        WalkStep::Send(_) => state.held is None,
        WalkStep::Wait => state.jobs.running > 0,
        WalkStep::Done => state.held is None && !state.reading && state.pending.len() == 0
            && state.jobs.running == 0,
        WalkStep::Fault(_) => false,
    }
    &&& steps.len() == 0 ==> state.held is None
}

proof fn lemma_one_more(list: Seq<int>, added: int, n: int)
    ensures
        times(list.push(added), n) == times(list, n) + if n == added {
            1nat
        } else {
            0
        },
{
    broadcast use vstd::seq_lib::group_to_multiset_ensures;

}

proof fn lemma_go_on_accounted(
    base: Seq<char>,
    jobs: usize,
    events: Seq<WalkEvent>,
    state: WalkState,
    steps: Seq<WalkStep>,
)
    requires
        accounted_but_last(base, jobs, events, state, steps),
    ensures
        ({
            let (next, step) = state.go_on();
            accounted(base, jobs, events, next, steps.push(step))
        }),
{
    let (next, step) = state.go_on();
    let after = steps.push(step);
    assert(after.drop_last() =~= steps);
    assert(sent(after) + held_list(next) =~= found(base, events, EntryKind::File));
    assert forall|n: int|
        #![trigger times(opened(after), n)]
        times(opened(after), n) + times(next.pending, n) == if 0 <= n < next.directories {
            1nat
        } else {
            0
        } by {
        assert(times(opened(steps), n) + times(state.pending, n) == if 0 <= n < state.directories {
            1nat
        } else {
            0
        });
        if let WalkStep::Open(number) = step {
            lemma_one_more(opened(steps), number, n);
            lemma_one_more(state.pending.drop_last(), number, n);
            assert(state.pending.drop_last().push(number) =~= state.pending);
        }
    }
}

proof fn lemma_push_is_accounted(base: Seq<char>, jobs: usize, events: Seq<WalkEvent>)
    requires
        pushed(base, jobs, events) is Some,
    ensures
        ({
            let (state, steps) = pushed(base, jobs, events)->0;
            accounted(base, jobs, events, state, steps)
        }),
    decreases events.len(),
{
    if events.len() == 0 {
        let state = WalkState::first(base, jobs);
        let steps = Seq::<WalkStep>::empty();
        assert(sent(steps) + held_list(state) =~= found(base, events, EntryKind::File));
        assert forall|n: int|
            #![trigger times(opened(steps), n)]
            times(opened(steps), n) + times(state.pending, n) == if 0 <= n < 1 {
                1nat
            } else {
                0
            } by {
            lemma_one_more(Seq::empty(), 0, n);
            assert(Seq::<int>::empty().push(0) =~= seq![0int]);
            broadcast use vstd::seq_lib::group_to_multiset_ensures;

            assert(Seq::<int>::empty().to_multiset() =~= vstd::multiset::Multiset::empty());
        }
    } else {
        let (state, steps) = pushed(base, jobs, events.drop_last())->0;
        lemma_push_is_accounted(base, jobs, events.drop_last());
        match events.last() {
            WalkEvent::Ready => {
                lemma_go_on_accounted(base, jobs, events, state, steps);
            },
            WalkEvent::End => {
                let closed = WalkState { reading: false, ..state };
                lemma_go_on_accounted(base, jobs, events, closed, steps);
            },
            WalkEvent::Moved(bytes) => {
                let fewer = WalkState { jobs: state.jobs.moved(bytes as nat), ..state };
                let sizes = arrived(events.drop_last());
                assert(sizes.push(bytes as nat).drop_last() =~= sizes);
                lemma_go_on_accounted(base, jobs, events, fewer, steps);
            },
            WalkEvent::Entry(entry) => {
                let path = entry_path(base, entry)->0;
                match entry.kind {
                    EntryKind::Symlink => {},
                    EntryKind::Other => {
                        lemma_go_on_accounted(base, jobs, events, state, steps);
                    },
                    EntryKind::File => {
                        let holding = WalkState { held: Some(path), ..state };
                        assert(sent(steps) + held_list(holding) =~= found(
                            base,
                            events,
                            EntryKind::File,
                        ));
                        lemma_go_on_accounted(base, jobs, events, holding, steps);
                    },
                    EntryKind::Directory => {
                        let (next, step) = state.after_entry(entry);
                        let after = steps.push(step);
                        assert(after.drop_last() =~= steps);
                        assert forall|n: int|
                            #![trigger times(opened(after), n)]
                            times(opened(after), n) + times(next.pending, n) == if 0 <= n
                                < next.directories {
                                1nat
                            } else {
                                0
                            } by {
                            assert(times(opened(steps), n) + times(state.pending, n) == if 0 <= n
                                < state.directories {
                                1nat
                            } else {
                                0
                            });
                            lemma_one_more(state.pending, state.directories as int, n);
                        }
                    },
                }
            },
        }
    }
}

/// At any time of a push: files are sent in the order in which they were found, each once, and
/// never more at a time than may be; directories are made in the order in which they were found;
/// none is read twice, and none but the root before it was made.
pub proof fn lemma_push_keeps_order(base: Seq<char>, jobs: usize, events: Seq<WalkEvent>)
    requires
        pushed(base, jobs, events) is Some,
    ensures
        ({
            let (state, steps) = pushed(base, jobs, events)->0;
            &&& sent(steps).is_prefix_of(found(base, events, EntryKind::File))
            &&& found(base, events, EntryKind::File).len() <= sent(steps).len() + 1
            &&& made(steps) == found(base, events, EntryKind::Directory)
            &&& state.jobs.running == sent(steps).len() - arrived(events).len()
            &&& state.jobs.running <= transfer::job_limit(jobs)
            &&& forall|n: int|
                times(opened(steps), n) <= 1 && (times(opened(steps), n) > 0 ==> 0 <= n
                    <= made(steps).len())
            &&& found(base, events, EntryKind::Symlink).len() == 0
        }),
{
    lemma_push_is_accounted(base, jobs, events);
    let (state, steps) = pushed(base, jobs, events)->0;
    assert(sent(steps) =~= (sent(steps) + held_list(state)).take(sent(steps).len() as int));
}

/// A push that is done has made every directory, read each once, sent every file once and seen
/// it arrive, and counts them all.
pub proof fn lemma_whole_tree_is_pushed(base: Seq<char>, jobs: usize, events: Seq<WalkEvent>)
    requires
        pushed(base, jobs, events) is Some,
        (pushed(base, jobs, events)->0).1.len() > 0,
        (pushed(base, jobs, events)->0).1.last() is Done,
    ensures
        ({
            let (state, steps) = pushed(base, jobs, events)->0;
            &&& sent(steps) == found(base, events, EntryKind::File)
            &&& made(steps) == found(base, events, EntryKind::Directory)
            &&& state.directories == 1 + made(steps).len()
            &&& forall|n: int|
                times(opened(steps), n) == if 0 <= n < state.directories {
                    1nat
                } else {
                    0
                }
            &&& state.jobs.files == sent(steps).len()
            &&& state.jobs.files == arrived(events).len()
            &&& state.jobs.bytes == sum(arrived(events))
        }),
{
    lemma_push_is_accounted(base, jobs, events);
    let (state, steps) = pushed(base, jobs, events)->0;
    assert(sent(steps) + held_list(state) =~= sent(steps));
    assert forall|n: int|
        times(opened(steps), n) == if 0 <= n < state.directories {
            1nat
        } else {
            0
        } by {
        broadcast use vstd::seq_lib::group_to_multiset_ensures;

        assert(times(opened(steps), n) + times(state.pending, n) <= 1);
        assert(state.pending =~= Seq::empty());
        assert(times(state.pending, n) == 0);
    }
}

/// Whoever answers each action with its own event never sends one that may not come, as long as
/// the counts have room.
pub proof fn lemma_push_takes_answers(
    base: Seq<char>,
    jobs: usize,
    events: Seq<WalkEvent>,
    event: WalkEvent,
)
    requires
        pushed(base, jobs, events) is Some,
        answers((pushed(base, jobs, events)->0).1, event),
        (pushed(base, jobs, events)->0).0.directories < u64::MAX,
        (pushed(base, jobs, events)->0).0.jobs.files < u64::MAX,
    ensures
        (pushed(base, jobs, events)->0).0.may_come(event),
{
    lemma_push_is_accounted(base, jobs, events);
}

/// What has happened since the last action of a pull.
#[derive(Debug, Clone, Copy, PartialEq, Eq, Structural)]
pub enum PullEvent {
    /// What was to be done is done.
    Ready,
    /// A file of so many bytes has arrived.
    Moved(u64),
}

/// What is done next when a tree is pulled; local paths are names below the local directory.
#[derive(Debug)]
pub enum PullAction {
    /// Make the directory that the file at this local path lies in.
    Prepare(Vec<String>),
    /// Wait until a file has arrived.
    Wait,
    /// Fetch a remote file to a local path.
    Fetch(String, Vec<String>),
    /// All is done.
    Done,
}

/// What comes of an event: an action, or the end of the pull.
pub enum PullStep {
    Prepare(Seq<Seq<char>>),
    Wait,
    Fetch(Seq<char>, Seq<Seq<char>>),
    Done,
    Fault(Seq<char>),
}

/// Whether this is what came of an event.
pub open spec fn is_pull_step(r: Result<PullAction, String>, step: PullStep) -> bool {
    match (r, step) {
        (Ok(PullAction::Prepare(a)), PullStep::Prepare(b)) => shell::views(a@) == b,
        (Ok(PullAction::Wait), PullStep::Wait) => true,
        (Ok(PullAction::Fetch(a, to)), PullStep::Fetch(b, at)) => a@ == b && shell::views(to@)
            == at,
        (Ok(PullAction::Done), PullStep::Done) => true,
        (Err(a), PullStep::Fault(b)) => a@ == b,
        _ => false,
    }
}

/// Where a remote file goes, or why it goes nowhere.
pub open spec fn local_place(root: Seq<char>, path: Seq<char>, windows: bool) -> Result<
    Seq<Seq<char>>,
    Seq<char>,
> {
    match transfer::below(root, path) {
        None => Err("'"@ + path + "' is outside '"@ + root + "'"@),
        Some(rest) => match transfer::local_names(text::split(rest, '/'), windows) {
            Some(names) => Ok(names),
            None => Err("unsafe remote path '"@ + path + "'"@),
        },
    }
}

/// A pull of a tree, under way.
#[verifier::ext_equal]
pub struct PullState {
    pub root: Seq<char>,
    pub windows: bool,
    /// The remote files that are still to be fetched.
    pub files: Seq<Seq<char>>,
    /// The local path of the first of them, once it is prepared.
    pub held: Option<Seq<Seq<char>>>,
    pub jobs: JobCount,
}

impl PullState {
    pub open spec fn go_on(self) -> (PullState, PullStep) {
        if self.files.len() == 0 {
            if self.jobs.running > 0 {
                (self, PullStep::Wait)
            } else {
                (self, PullStep::Done)
            }
        } else {
            match self.held {
                None => match local_place(self.root, self.files[0], self.windows) {
                    Err(message) => (self, PullStep::Fault(message)),
                    Ok(names) => (
                        PullState { held: Some(names), ..self },
                        PullStep::Prepare(names),
                    ),
                },
                Some(names) => if self.jobs.full() {
                    (self, PullStep::Wait)
                } else {
                    (
                        PullState {
                            files: self.files.drop_first(),
                            held: None,
                            jobs: self.jobs.started(),
                            ..self
                        },
                        PullStep::Fetch(self.files[0], names),
                    )
                },
            }
        }
    }

    pub open spec fn after(self, event: PullEvent) -> (PullState, PullStep) {
        match event {
            PullEvent::Ready => self.go_on(),
            PullEvent::Moved(bytes) => if self.jobs.bytes + bytes > u64::MAX {
                (
                    PullState { jobs: self.jobs.moved(0), ..self },
                    PullStep::Fault("transfer byte count overflow"@),
                )
            } else {
                PullState { jobs: self.jobs.moved(bytes as nat), ..self }.go_on()
            },
        }
    }

    /// Whether an event may come now.
    pub open spec fn may_come(self, event: PullEvent) -> bool {
        event is Moved ==> self.jobs.running > 0 && self.jobs.files < u64::MAX
    }
}

/// A pull of the files of a tree.
#[derive(Debug)]
pub struct PullWalk {
    root: String,
    windows: bool,
    files: Vec<String>,
    at: usize,
    held: Option<Vec<String>>,
    jobs: Jobs,
}

impl View for PullWalk {
    type V = PullState;

    closed spec fn view(&self) -> PullState {
        PullState {
            root: self.root@,
            windows: self.windows,
            files: shell::views(self.files@).skip(self.at as int),
            held: match self.held {
                Some(names) => Some(shell::views(names@)),
                None => None,
            },
            jobs: self.jobs@,
        }
    }
}

impl PullWalk {
    pub closed spec fn wf(&self) -> bool {
        self.jobs.wf() && self.at <= self.files@.len()
    }

    /// The files are those that the device reports below the root.
    pub fn new(root: String, files: Vec<String>, jobs: usize, windows: bool) -> (r: PullWalk)
        ensures
            r.wf(),
            r@ == (PullState {
                root: root@,
                windows,
                files: shell::views(files@),
                held: None,
                jobs: JobCount::first(jobs),
            }),
    {
        assert(shell::views(files@).skip(0) =~= shell::views(files@));
        PullWalk { root, windows, files, at: 0, held: None, jobs: Jobs::new(jobs) }
    }

    /// What has arrived so far.
    pub fn totals(&self) -> (r: Totals)
        ensures
            r.files == self@.jobs.files,
            r.bytes == self@.jobs.bytes,
    {
        self.jobs.totals
    }

    pub fn takes(&self, event: PullEvent) -> (r: bool)
        ensures
            r == self@.may_come(event),
    {
        match event {
            PullEvent::Ready => true,
            PullEvent::Moved(_) => self.jobs.running > 0 && self.jobs.totals.files < u64::MAX,
        }
    }

    fn go_on(&mut self) -> (r: Result<PullAction, String>)
        requires
            old(self).wf(),
        ensures
            final(self).wf(),
            final(self)@ == old(self)@.go_on().0,
            is_pull_step(r, old(self)@.go_on().1),
    {
        if self.at >= self.files.len() {
            return if self.jobs.running > 0 {
                Ok(PullAction::Wait)
            } else {
                Ok(PullAction::Done)
            };
        }
        let ghost left = self@.files;
        assert(left[0] == self.files@[self.at as int]@);
        match self.held.take() {
            None => {
                match local_relative(
                    self.root.as_str(),
                    self.files[self.at].as_str(),
                    self.windows,
                ) {
                    Err(message) => Err(message),
                    Ok(names) => {
                        let shown = shell::copy_args(names.as_slice());
                        self.held = Some(names);
                        Ok(PullAction::Prepare(shown))
                    },
                }
            },
            Some(names) => {
                if self.jobs.running >= self.jobs.limit {
                    self.held = Some(names);
                    return Ok(PullAction::Wait);
                }
                let remote = String::from_str(self.files[self.at].as_str());
                self.at = self.at + 1;
                assert(self@.files =~= left.drop_first());
                self.jobs.start();
                Ok(PullAction::Fetch(remote, names))
            },
        }
    }

    /// Takes an event and says what is done next; an error ends the pull.
    pub fn step(&mut self, event: PullEvent) -> (r: Result<PullAction, String>)
        requires
            old(self).wf(),
            old(self)@.may_come(event),
        ensures
            final(self).wf(),
            final(self)@ == old(self)@.after(event).0,
            is_pull_step(r, old(self)@.after(event).1),
    {
        match event {
            PullEvent::Ready => self.go_on(),
            PullEvent::Moved(bytes) => match self.jobs.arrive(bytes) {
                Err(message) => Err(message),
                Ok(_) => self.go_on(),
            },
        }
    }
}

/// Whether an event answers the last action of a pull.
pub open spec fn answers_pull(steps: Seq<PullStep>, event: PullEvent) -> bool {
    if steps.len() == 0 {
        event is Ready
    } else {
        match steps.last() {
            PullStep::Prepare(_) | PullStep::Fetch(_, _) => event is Ready,
            PullStep::Wait => event is Moved,
            PullStep::Done | PullStep::Fault(_) => false,
        }
    }
}

/// A pull after some events, with all that came of them; `None` where an event does not answer
/// the action before it, or where the pull has failed.
pub open spec fn pulled(first: PullState, events: Seq<PullEvent>) -> Option<
    (PullState, Seq<PullStep>),
>
    decreases events.len(),
{
    if events.len() == 0 {
        Some((first, Seq::empty()))
    } else {
        match pulled(first, events.drop_last()) {
            None => None,
            Some((state, steps)) => {
                let (next, step) = state.after(events.last());
                if !answers_pull(steps, events.last()) || step is Fault {
                    None
                } else {
                    Some((next, steps.push(step)))
                }
            },
        }
    }
}

/// The remote files that were fetched and where they went, in order.
pub open spec fn fetched(steps: Seq<PullStep>) -> Seq<(Seq<char>, Seq<Seq<char>>)>
    decreases steps.len(),
{
    if steps.len() == 0 {
        Seq::empty()
    } else {
        match steps.last() {
            PullStep::Fetch(remote, local) => fetched(steps.drop_last()).push((remote, local)),
            _ => fetched(steps.drop_last()),
        }
    }
}

/// The sizes of the files that have arrived, in order.
pub open spec fn pulled_sizes(events: Seq<PullEvent>) -> Seq<nat>
    decreases events.len(),
{
    if events.len() == 0 {
        Seq::empty()
    } else {
        match events.last() {
            PullEvent::Moved(bytes) => pulled_sizes(events.drop_last()).push(bytes as nat),
            _ => pulled_sizes(events.drop_last()),
        }
    }
}

/// What holds between a pull and its history, whatever was done last.
spec fn pull_accounted_but_last(
    first: PullState,
    events: Seq<PullEvent>,
    state: PullState,
    steps: Seq<PullStep>,
) -> bool {
    let done = fetched(steps);
    &&& state.root == first.root && state.windows == first.windows
    &&& state.jobs.limit == first.jobs.limit && state.jobs.running <= state.jobs.limit
    &&& done.len() <= first.files.len()
    &&& state.files == first.files.skip(done.len() as int)
    &&& forall|i: int|
        0 <= i < done.len() ==> (#[trigger] done[i]).0 == first.files[i] && local_place(
            first.root,
            done[i].0,
            first.windows,
        ) == Ok::<Seq<Seq<char>>, Seq<char>>(done[i].1)
    &&& state.held matches Some(names) ==> state.files.len() > 0 && local_place(
        first.root,
        state.files[0],
        first.windows,
    ) == Ok::<Seq<Seq<char>>, Seq<char>>(names)
    &&& state.jobs.files == pulled_sizes(events).len()
    &&& state.jobs.bytes == sum(pulled_sizes(events))
    &&& state.jobs.files + state.jobs.running == done.len()
}

/// What holds between a pull and its history.
spec fn pull_accounted(
    first: PullState,
    events: Seq<PullEvent>,
    state: PullState,
    steps: Seq<PullStep>,
) -> bool {
    &&& pull_accounted_but_last(first, events, state, steps)
    &&& steps.len() > 0 ==> match steps.last() {
        PullStep::Prepare(_) | PullStep::Fetch(_, _) => true,
        PullStep::Wait => state.jobs.running > 0,
        PullStep::Done => state.files.len() == 0 && state.jobs.running == 0,
        PullStep::Fault(_) => false,
    }
}

/// A pull at its beginning.
pub open spec fn pull_begins(first: PullState) -> bool {
    &&& first.held is None
    &&& first.jobs.limit > 0
    &&& first.jobs.running == 0 && first.jobs.files == 0 && first.jobs.bytes == 0
}

proof fn lemma_pull_goes_on(
    first: PullState,
    events: Seq<PullEvent>,
    state: PullState,
    steps: Seq<PullStep>,
)
    requires
        pull_begins(first),
        pull_accounted_but_last(first, events, state, steps),
        !(state.go_on().1 is Fault),
    ensures
        pull_accounted(first, events, state.go_on().0, steps.push(state.go_on().1)),
{
    let (next, step) = state.go_on();
    let after = steps.push(step);
    assert(after.drop_last() =~= steps);
    let done = fetched(steps);
    if step is Fetch {
        assert(state.files.drop_first() =~= first.files.skip((done.len() + 1) as int));
        assert(fetched(after).len() == done.len() + 1);
    }
}

proof fn lemma_pull_is_accounted(first: PullState, events: Seq<PullEvent>)
    requires
        pull_begins(first),
        pulled(first, events) is Some,
    ensures
        ({
            let (state, steps) = pulled(first, events)->0;
            pull_accounted(first, events, state, steps)
        }),
    decreases events.len(),
{
    if events.len() == 0 {
        assert(first.files.skip(0) =~= first.files);
    } else {
        let (state, steps) = pulled(first, events.drop_last())->0;
        lemma_pull_is_accounted(first, events.drop_last());
        match events.last() {
            PullEvent::Ready => {
                lemma_pull_goes_on(first, events, state, steps);
            },
            PullEvent::Moved(bytes) => {
                let fewer = PullState { jobs: state.jobs.moved(bytes as nat), ..state };
                let sizes = pulled_sizes(events.drop_last());
                assert(sizes.push(bytes as nat).drop_last() =~= sizes);
                lemma_pull_goes_on(first, events, fewer, steps);
            },
        }
    }
}

/// At any time of a pull no more files are on their way than may be, and whoever answers each
/// action with its own event never sends one that may not come, as long as the count has room.
pub proof fn lemma_pull_takes_answers(
    first: PullState,
    events: Seq<PullEvent>,
    event: PullEvent,
)
    requires
        pull_begins(first),
        pulled(first, events) is Some,
    ensures
        ({
            let (state, steps) = pulled(first, events)->0;
            &&& state.jobs.running <= first.jobs.limit
            &&& answers_pull(steps, event) && state.jobs.files < u64::MAX ==> state.may_come(event)
        }),
{
    lemma_pull_is_accounted(first, events);
}

/// A pull that is done has fetched every file once, in order, each to its own place, has seen
/// them arrive, and counts them all.
pub proof fn lemma_whole_tree_is_pulled(first: PullState, events: Seq<PullEvent>)
    requires
        pull_begins(first),
        pulled(first, events) is Some,
        (pulled(first, events)->0).1.len() > 0,
        (pulled(first, events)->0).1.last() is Done,
    ensures
        ({
            let (state, steps) = pulled(first, events)->0;
            let done = fetched(steps);
            &&& done.len() == first.files.len()
            &&& forall|i: int|
                0 <= i < done.len() ==> (#[trigger] done[i]).0 == first.files[i] && local_place(
                    first.root,
                    first.files[i],
                    first.windows,
                ) == Ok::<Seq<Seq<char>>, Seq<char>>(done[i].1)
            &&& state.jobs.files == first.files.len()
            &&& state.jobs.files == pulled_sizes(events).len()
            &&& state.jobs.bytes == sum(pulled_sizes(events))
        }),
{
    lemma_pull_is_accounted(first, events);
}

/// A push waits only when it must: a file that was found is sent at once while fewer than may be
/// are on their way, and otherwise as soon as one of them has arrived; when nothing is left to
/// read or send, what is on its way must arrive. It is done only when nothing is left at all.
pub proof fn lemma_push_waits_only_when_it_must(s: WalkState, path: Seq<char>, bytes: u64)
    ensures
        s.go_on().1 is Wait <==> if s.held is Some {
            s.jobs.running >= s.jobs.limit
        } else {
            !s.reading && s.pending.len() == 0 && s.jobs.running > 0
        },
        s.go_on().1 is Done <==> s.held is None && !s.reading && s.pending.len() == 0
            && s.jobs.running == 0,
        s.held == Some(path) && s.jobs.running < s.jobs.limit ==> s.go_on().1 == WalkStep::Send(
            path,
        ),
        s.held == Some(path) && 0 < s.jobs.running <= s.jobs.limit && s.jobs.bytes + bytes
            <= u64::MAX ==> s.after(WalkEvent::Moved(bytes)).1 == WalkStep::Send(path),
        s.after(WalkEvent::Moved(bytes)).1 is Fault <==> s.jobs.bytes + bytes > u64::MAX,
        JobCount::first(0).limit == 1,
{
}

/// Each entry of a tree is treated by what it is: a directory is made and read later, a file is
/// sent, anything else is passed over. Only a link, or a path that has no place on the device,
/// ends the push.
pub proof fn lemma_entries_are_treated_by_kind(s: WalkState, entry: TreeEntry)
    requires
        s.held is None,
        s.jobs.running < s.jobs.limit,
    ensures
        ({
            let (after, step) = s.after_entry(entry);
            let place = entry_path(s.base, entry);
            &&& step is Fault <==> entry.kind == EntryKind::Symlink || place is None
            &&& place matches Some(path) ==> {
                &&& entry.kind == EntryKind::Directory ==> step == WalkStep::Make(path)
                    && after.pending.len() == s.pending.len() + 1 && after.pending.last()
                    == s.directories && after.directories == s.directories + 1
                &&& entry.kind == EntryKind::File ==> step == WalkStep::Send(path)
                    && after.jobs.running == s.jobs.running + 1
                &&& entry.kind == EntryKind::Other ==> (after, step) == s.go_on()
            }
            &&& entry.kind == EntryKind::Symlink && place is Some ==> transfer::entry_action(
                entry.kind,
            ) is None
        }),
{
}

/// A pull waits only when it must: a file whose place is prepared is fetched at once while fewer
/// than may be are on their way. It is done only when every file was fetched and has arrived, and
/// a file is fetched to the place that was prepared for it.
pub proof fn lemma_pull_waits_only_when_it_must(s: PullState, names: Seq<Seq<char>>, bytes: u64)
    ensures
        s.go_on().1 is Wait <==> if s.files.len() == 0 {
            s.jobs.running > 0
        } else {
            s.held is Some && s.jobs.running >= s.jobs.limit
        },
        s.go_on().1 is Done <==> s.files.len() == 0 && s.jobs.running == 0,
        s.files.len() > 0 && s.held == Some(names) && s.jobs.running < s.jobs.limit ==> s.go_on().1
            == PullStep::Fetch(s.files[0], names),
        s.files.len() > 0 && s.held is None && local_place(s.root, s.files[0], s.windows) == Ok::<
            Seq<Seq<char>>,
            Seq<char>,
        >(names) ==> s.go_on().1 == PullStep::Prepare(names) && s.go_on().0.held == Some(names)
            && s.go_on().0.files == s.files,
        s.files.len() > 0 && s.held is None && local_place(s.root, s.files[0], s.windows) is Err
            ==> s.go_on().1 is Fault,
        s.jobs.bytes + bytes > u64::MAX ==> s.after(PullEvent::Moved(bytes)).1 is Fault,
{
}

} // verus!
