//! What holds of a boundary that any number of processes move at the same time.
//!
//! All of them work on one file. Each may have any number of advances under way, and may read the
//! boundary for checks besides. The store serves each request at some time after it was made, and
//! its reply is handled at some time after that; in between, anything else may happen. A reply may
//! be lost, and a failure be reported of a request that was served. Of the store it is only taken
//! for granted that it honours the conditions of writes, gives each state of the file a version of
//! its own, and does not lose the file.
use crate::boundary::{
    advance_on_get, advance_on_put, advance_start, boundary_bytes, boundary_read, check_start,
    checked, lemma_boundary_is_read_back, parsed_boundary, AdvanceStepView, BoundaryView,
};
use crate::boundary_laws::{
    boundary_of, greater, holds_boundary, lemma_advance_moves_boundary,
    lemma_check_compares_with_file, read_reply, reached, run_advance,
    run_check, truly_seen, write_reply, writes_up,
};
use crate::error::{StoreError, TransactionalObjectError};
use crate::store::{FetchedObjectView, PutModeView, UpdateVersionView};
use vstd::prelude::*;

verus! {

/// What the store replied to an advance.
pub enum Reply<E> {
    Got(Result<FetchedObjectView, StoreError<E>>),
    Put(Result<UpdateVersionView, StoreError<E>>),
}

/// An advance that some process has under way, or had: where it is to move the boundary, what it
/// does next, and the reply that it has yet to handle.
pub struct Advance<E> {
    pub owner: int,
    pub target: u64,
    pub step: AdvanceStepView<E>,
    pub reply: Option<Reply<E>>,
}

/// The processes that work on one boundary, and its file.
pub struct Processes<E> {
    /// Where the file lies.
    pub path: Seq<char>,
    /// The states that the file has had, the last one being that it has; none before it is made.
    pub history: Seq<FetchedObjectView>,
    /// What each process has seen of the boundary.
    pub seen: Map<int, BoundaryView>,
    /// The advances of all processes.
    pub advances: Map<int, Advance<E>>,
}

/// Something that happens.
pub enum Event<E> {
    /// A process starts, with nothing seen.
    Open { owner: int },
    /// A process starts an advance.
    Start { owner: int, advance: int, target: u64 },
    /// The store serves the request of an advance. Where that is a write, and it is taken, the file
    /// gets the version `stamp`.
    Serve { advance: int, stamp: UpdateVersionView, source: E },
    /// The request of an advance fails, or the reply to it is lost; it may have been served.
    Fail { advance: int, error: StoreError<E> },
    /// A process handles the reply to an advance.
    Handle { advance: int },
    /// A process handles a reply to a check, which holds the file as it was at some time.
    See { owner: int, state: int },
}

impl<E> Processes<E> {
    /// The file as it is.
    pub open spec fn file(self) -> Option<FetchedObjectView> {
        if self.history.len() == 0 {
            None
        } else {
            Some(self.history.last())
        }
    }

    /// Whether no state of the file has had the version `stamp`, or its entity tag.
    pub open spec fn is_new(self, stamp: UpdateVersionView) -> bool {
        forall|i: int|
            0 <= i < self.history.len() ==> {
                &&& (#[trigger] self.history[i]).version != stamp
                &&& stamp.e_tag is Some ==> self.history[i].version.e_tag != stamp.e_tag
            }
    }

    /// The processes after the advance `advance` has become `now`.
    pub open spec fn with_advance(self, advance: int, now: Advance<E>) -> Processes<E> {
        Processes { advances: self.advances.insert(advance, now), ..self }
    }

    /// The processes after `event`; none where it cannot happen.
    pub open spec fn after(self, event: Event<E>) -> Option<Processes<E>> {
        match event {
            Event::Open { owner } => if self.seen.contains_key(owner) {
                None
            } else {
                let at = BoundaryView { path: self.path, cache: None };
                Some(Processes { seen: self.seen.insert(owner, at), ..self })
            },
            Event::Start { owner, advance, target } => if !self.seen.contains_key(owner)
                || self.advances.contains_key(advance) {
                None
            } else {
                let step = advance_start::<E>(self.seen[owner], target);
                Some(self.with_advance(advance, Advance { owner, target, step, reply: None }))
            },
            Event::Serve { advance, stamp, source } => if !self.advances.contains_key(advance)
                || self.advances[advance].reply is Some || !self.is_new(stamp) {
                None
            } else {
                let task = self.advances[advance];
                match task.step {
                    AdvanceStepView::Get { request, .. } => {
                        let reply = Reply::Got(read_reply(self.file(), request, source));
                        Some(self.with_advance(advance, Advance { reply: Some(reply), ..task }))
                    },
                    AdvanceStepView::Put { request, .. } => {
                        let (file, reply) = write_reply(self.file(), request, stamp, source);
                        let served = self.with_advance(
                            advance,
                            Advance { reply: Some(Reply::Put(reply)), ..task },
                        );
                        Some(
                            if reply is Ok {
                                Processes { history: self.history.push(file->0), ..served }
                            } else {
                                served
                            },
                        )
                    },
                    AdvanceStepView::Done(_) => None,
                }
            },
            Event::Fail { advance, error } => if !self.advances.contains_key(advance) {
                None
            } else {
                let task = self.advances[advance];
                match task.step {
                    AdvanceStepView::Get { .. } => Some(
                        self.with_advance(
                            advance,
                            Advance { reply: Some(Reply::Got(Err(error))), ..task },
                        ),
                    ),
                    AdvanceStepView::Put { .. } => Some(
                        self.with_advance(
                            advance,
                            Advance { reply: Some(Reply::Put(Err(error))), ..task },
                        ),
                    ),
                    AdvanceStepView::Done(_) => None,
                }
            },
            Event::Handle { advance } => if !self.advances.contains_key(advance) {
                None
            } else {
                let task = self.advances[advance];
                let at = self.seen[task.owner];
                match (task.step, task.reply) {
                    (AdvanceStepView::Get { pending, .. }, Some(Reply::Got(reply))) => {
                        let (now, step) = advance_on_get(at, pending, reply);
                        let task_now = Advance { step, reply: None, ..task };
                        let next = self.with_advance(advance, task_now);
                        Some(Processes { seen: self.seen.insert(task.owner, now), ..next })
                    },
                    (AdvanceStepView::Put { pending, .. }, Some(Reply::Put(reply))) => {
                        let (now, step) = advance_on_put(at, pending, reply);
                        let task_now = Advance { step, reply: None, ..task };
                        let next = self.with_advance(advance, task_now);
                        Some(Processes { seen: self.seen.insert(task.owner, now), ..next })
                    },
                    _ => None,
                }
            },
            Event::See { owner, state } => if self.seen.contains_key(owner) && 0 <= state
                < self.history.len() {
                let now = boundary_read::<E>(self.seen[owner], Ok(self.history[state])).0;
                Some(Processes { seen: self.seen.insert(owner, now), ..self })
            } else {
                None
            },
        }
    }

    /// The processes after `events`, one after the other; none where they cannot happen so.
    pub open spec fn after_all(self, events: Seq<Event<E>>) -> Option<Processes<E>>
        decreases events.len(),
    {
        if events.len() == 0 {
            Some(self)
        } else {
            match self.after_all(events.drop_last()) {
                Some(processes) => processes.after(events.last()),
                None => None,
            }
        }
    }

    /// Whether the file has held `boundary` in the version `version`.
    pub open spec fn recorded(self, boundary: u64, version: UpdateVersionView) -> bool {
        exists|i: int| #[trigger] self.recorded_at(i, boundary, version)
    }

    /// Whether the file held `boundary` in the version `version` in its state `i`.
    pub open spec fn recorded_at(self, i: int, boundary: u64, version: UpdateVersionView) -> bool {
        &&& 0 <= i < self.history.len()
        &&& self.history[i].version == version
        &&& parsed_boundary(self.history[i].bytes) == Some(boundary)
    }

    /// Whether the boundary has moved up with each state of the file, and each state has a version
    /// and an entity tag of its own.
    pub open spec fn rises(self) -> bool {
        &&& forall|i: int|
            0 <= i < self.history.len() ==> parsed_boundary(
                (#[trigger] self.history[i]).bytes,
            ) is Some
        &&& forall|i: int, j: int|
            #![trigger self.history[i], self.history[j]]
            0 <= i < j < self.history.len() ==> {
                &&& parsed_boundary(self.history[i].bytes)->0 < parsed_boundary(
                    self.history[j].bytes,
                )->0
                &&& self.history[i].version != self.history[j].version
                &&& self.history[j].version.e_tag is Some ==> self.history[i].version.e_tag
                    != self.history[j].version.e_tag
            }
    }

    /// Whether what a process has seen of the boundary has stood in the file.
    pub open spec fn true_view(self, at: BoundaryView) -> bool {
        &&& at.path == self.path
        &&& at.cache matches Some((boundary, version)) ==> self.recorded(boundary, version)
    }

    /// Whether an advance asks for this file, writes only over a lesser boundary that has stood in
    /// it, handles only what the store has sent, and has succeeded only where its target was
    /// reached.
    pub open spec fn true_advance(self, task: Advance<E>) -> bool {
        &&& self.seen.contains_key(task.owner)
        &&& match task.step {
            AdvanceStepView::Get { request, pending } => {
                &&& request.path == self.path
                &&& pending.target.id == task.target
                &&& task.reply matches Some(Reply::Got(Ok(object))) ==> self.history.contains(
                    object,
                )
            },
            AdvanceStepView::Put { request, pending } => {
                &&& request.path == self.path
                &&& pending.target.id == task.target
                &&& request.payload == boundary_bytes(task.target)
                &&& match request.mode {
                    PutModeView::Update(version) => exists|boundary: u64| #[trigger]
                        self.recorded(boundary, version) && boundary < task.target,
                    PutModeView::Create => task.target > 0,
                }
                &&& task.reply matches Some(Reply::Put(Ok(version))) ==> self.recorded(
                    task.target,
                    version,
                )
            },
            AdvanceStepView::Done(Ok(_)) => task.target == 0 || exists|
                boundary: u64,
                version: UpdateVersionView,
            | #[trigger] self.recorded(boundary, version) && boundary >= task.target,
            AdvanceStepView::Done(Err(_)) => true,
        }
    }

    /// Whether the processes can have come to where they are.
    pub open spec fn sound(self) -> bool {
        &&& self.rises()
        &&& forall|owner: int| #[trigger]
            self.seen.contains_key(owner) ==> self.true_view(self.seen[owner])
        &&& forall|advance: int| #[trigger]
            self.advances.contains_key(advance) ==> self.true_advance(self.advances[advance])
    }

    /// Whether these processes come after `earlier`: the file has had all the states that it had
    /// had, and maybe more.
    pub open spec fn continues(self, earlier: Processes<E>) -> bool {
        &&& self.path == earlier.path
        &&& earlier.history.len() <= self.history.len()
        &&& forall|i: int|
            0 <= i < earlier.history.len() ==> #[trigger] self.history[i] == earlier.history[i]
        &&& forall|owner: int| #[trigger]
            earlier.seen.contains_key(owner) ==> self.seen.contains_key(owner)
    }
}

/// What stood in the file once has stood there ever after.
proof fn lemma_recorded_stays<E>(
    earlier: Processes<E>,
    later: Processes<E>,
    boundary: u64,
    version: UpdateVersionView,
)
    requires
        later.continues(earlier),
        earlier.recorded(boundary, version),
    ensures
        later.recorded(boundary, version),
{
    let i = choose|i: int| #[trigger] earlier.recorded_at(i, boundary, version);
    assert(later.history[i] == earlier.history[i]);
    assert(later.recorded_at(i, boundary, version));
}

/// What a process has seen of the boundary stays true.
proof fn lemma_view_stays_true<E>(earlier: Processes<E>, later: Processes<E>, at: BoundaryView)
    requires
        later.continues(earlier),
        earlier.true_view(at),
    ensures
        later.true_view(at),
{
    if at.cache is Some {
        lemma_recorded_stays(earlier, later, (at.cache->0).0, (at.cache->0).1);
    }
}

/// What is true of an advance stays true.
proof fn lemma_advance_stays_true<E>(earlier: Processes<E>, later: Processes<E>, task: Advance<E>)
    requires
        later.continues(earlier),
        earlier.true_advance(task),
    ensures
        later.true_advance(task),
{
    match task.step {
        AdvanceStepView::Get { .. } => {
            if let Some(Reply::Got(Ok(object))) = task.reply {
                let i = choose|i: int|
                    0 <= i < earlier.history.len() && earlier.history[i] == object;
                assert(later.history[i] == object);
            }
        },
        AdvanceStepView::Put { request, .. } => {
            if let PutModeView::Update(version) = request.mode {
                let boundary = choose|boundary: u64| #[trigger]
                    earlier.recorded(boundary, version) && boundary < task.target;
                lemma_recorded_stays(earlier, later, boundary, version);
            }
            if let Some(Reply::Put(Ok(version))) = task.reply {
                lemma_recorded_stays(earlier, later, task.target, version);
            }
        },
        AdvanceStepView::Done(Ok(_)) => {
            if task.target > 0 {
                let (boundary, version) = choose|boundary: u64, version: UpdateVersionView|
                    #[trigger]
                    earlier.recorded(boundary, version) && boundary >= task.target;
                lemma_recorded_stays(earlier, later, boundary, version);
            }
        },
        AdvanceStepView::Done(Err(_)) => {},
    }
}

/// What stood in the file is no greater than what stands in it.
proof fn lemma_file_is_greatest<E>(
    processes: Processes<E>,
    boundary: u64,
    version: UpdateVersionView,
)
    requires
        processes.rises(),
        processes.recorded(boundary, version),
    ensures
        processes.file() is Some,
        boundary <= boundary_of(processes.file()),
        version == processes.file()->0.version ==> boundary == boundary_of(processes.file()),
        version.e_tag is Some && version.e_tag == processes.file()->0.version.e_tag ==> version
            == processes.file()->0.version,
{
    let i = choose|i: int| #[trigger] processes.recorded_at(i, boundary, version);
    let last = processes.history.len() - 1;
    assert(processes.history[last] == processes.history.last());
    if i < last {
        assert(processes.history[i].version != processes.history[last].version);
    }
}

/// What a process has seen of the boundary is true of the file as it is.
proof fn lemma_true_view_is_truly_seen<E>(processes: Processes<E>, at: BoundaryView)
    requires
        processes.rises(),
        processes.true_view(at),
    ensures
        holds_boundary(processes.file()),
        truly_seen(at, processes.file()),
{
    if processes.history.len() > 0 {
        let last = processes.history.len() - 1;
        assert(processes.history[last] == processes.history.last());
    }
    if at.cache is Some {
        lemma_file_is_greatest(processes, (at.cache->0).0, (at.cache->0).1);
    }
}

/// A write of an advance that the store takes moves the boundary up.
proof fn lemma_write_rises<E>(
    processes: Processes<E>,
    advance: int,
    stamp: UpdateVersionView,
    source: E,
)
    requires
        processes.sound(),
        processes.advances.contains_key(advance),
        processes.advances[advance].step is Put,
        processes.after(Event::Serve { advance, stamp, source }) is Some,
    ensures
        ({
            let next = processes.after(Event::Serve { advance, stamp, source })->0;
            &&& next.rises()
            &&& next.continues(processes)
            &&& next.true_advance(next.advances[advance])
        }),
{
    let task = processes.advances[advance];
    let next = processes.after(Event::Serve { advance, stamp, source })->0;
    assert(processes.true_advance(task));
    if let AdvanceStepView::Put { request, pending } = task.step {
        let (file, reply) = write_reply(processes.file(), request, stamp, source);
        if reply is Ok {
            lemma_boundary_is_read_back(task.target);
            let written = file->0;
            assert(next.history == processes.history.push(written));
            if processes.history.len() > 0 {
                if let PutModeView::Update(version) = request.mode {
                    let boundary = choose|boundary: u64| #[trigger]
                        processes.recorded(boundary, version) && boundary < task.target;
                    lemma_file_is_greatest(processes, boundary, version);
                    assert(boundary_of(processes.file()) < task.target);
                }
            }
            let last = processes.history.len() - 1;
            assert forall|i: int, j: int|
                #![trigger next.history[i], next.history[j]]
                0 <= i < j < next.history.len() implies {
                &&& parsed_boundary(next.history[i].bytes)->0 < parsed_boundary(
                    next.history[j].bytes,
                )->0
                &&& next.history[i].version != next.history[j].version
                &&& next.history[j].version.e_tag is Some ==> next.history[i].version.e_tag
                    != next.history[j].version.e_tag
            } by {
                assert(next.history[i] == processes.history[i]);
                if j <= last {
                    assert(next.history[j] == processes.history[j]);
                } else {
                    assert(processes.history[last] == processes.history.last());
                    if i < last {
                        assert(parsed_boundary(processes.history[i].bytes)->0 < parsed_boundary(
                            processes.history[last].bytes,
                        )->0);
                    }
                }
            }
            assert(next.recorded_at(last + 1, task.target, stamp));
        }
        lemma_advance_stays_true(processes, next, task);
    }
}

/// Handling a reply keeps what a process has seen, and its advance, true.
proof fn lemma_handling_is_true<E>(processes: Processes<E>, advance: int)
    requires
        processes.sound(),
        processes.after(Event::Handle { advance }) is Some,
    ensures
        ({
            let next = processes.after(Event::Handle { advance })->0;
            let task = processes.advances[advance];
            &&& next.continues(processes)
            &&& next.history == processes.history
            &&& next.true_view(next.seen[task.owner])
            &&& next.true_advance(next.advances[advance])
        }),
{
    let task = processes.advances[advance];
    let at = processes.seen[task.owner];
    let next = processes.after(Event::Handle { advance })->0;
    assert(processes.true_advance(task));
    assert(processes.true_view(at));
    let now = next.seen[task.owner];
    let step = next.advances[advance].step;
    match (task.step, task.reply) {
        (AdvanceStepView::Get { pending, .. }, Some(Reply::Got(reply))) => {
            if let Ok(object) = reply {
                let i = choose|i: int|
                    0 <= i < processes.history.len() && processes.history[i] == object;
                assert(parsed_boundary(processes.history[i].bytes) is Some);
                assert(next.recorded_at(
                    i,
                    parsed_boundary(object.bytes)->0,
                    object.version,
                ));
            }
        },
        (AdvanceStepView::Put { pending, .. }, Some(Reply::Put(reply))) => {
            if let Ok(version) = reply {
                lemma_recorded_stays(processes, next, task.target, version);
            }
        },
        _ => {},
    }
    if at.cache is Some {
        lemma_recorded_stays(processes, next, (at.cache->0).0, (at.cache->0).1);
    }
    assert(next.true_view(now));
    assert(writes_up(now, step));
    assert(step == AdvanceStepView::<E>::Done(Ok(())) ==> reached(now, task.target));
    if now.cache is Some {
        assert(next.recorded((now.cache->0).0, (now.cache->0).1));
    }
}

/// Whatever happens next, the processes stay sound, and the file keeps its history.
proof fn lemma_event_is_sound<E>(processes: Processes<E>, event: Event<E>)
    requires
        processes.sound(),
        processes.after(event) is Some,
    ensures
        processes.after(event)->0.sound(),
        processes.after(event)->0.continues(processes),
{
    let next = processes.after(event)->0;
    match event {
        Event::Serve { advance, stamp, source } => {
            let task = processes.advances[advance];
            assert(processes.true_advance(task));
            if task.step is Put {
                lemma_write_rises(processes, advance, stamp, source);
            } else {
                assert(next.history == processes.history);
                if processes.history.len() > 0 {
                    let last = processes.history.len() - 1;
                    assert(processes.history[last] == processes.history.last());
                    assert(processes.history.contains(processes.history.last()));
                }
                assert(next.true_advance(next.advances[advance]));
            }
        },
        Event::Handle { advance } => {
            lemma_handling_is_true(processes, advance);
        },
        Event::Start { owner, advance, target } => {
            let at = processes.seen[owner];
            assert(processes.true_view(at));
            if at.cache is Some {
                lemma_recorded_stays(processes, next, (at.cache->0).0, (at.cache->0).1);
            }
            assert(next.true_advance(next.advances[advance]));
        },
        Event::Fail { advance, .. } => {
            let task = processes.advances[advance];
            assert(processes.true_advance(task));
            lemma_advance_stays_true(processes, next, task);
            assert(next.true_advance(next.advances[advance]));
        },
        Event::See { owner, state } => {
            let at = processes.seen[owner];
            assert(processes.true_view(at));
            let object = processes.history[state];
            assert(parsed_boundary(object.bytes) is Some);
            assert(next.recorded_at(state, parsed_boundary(object.bytes)->0, object.version));
            if at.cache is Some {
                lemma_recorded_stays(processes, next, (at.cache->0).0, (at.cache->0).1);
            }
            assert(next.true_view(next.seen[owner]));
        },
        Event::Open { .. } => {},
    }
    assert(next.rises());
    assert forall|owner: int| #[trigger] next.seen.contains_key(owner) implies next.true_view(
        next.seen[owner],
    ) by {
        if processes.seen.contains_key(owner) {
            lemma_view_stays_true(processes, next, processes.seen[owner]);
        }
    }
    assert forall|advance: int| #[trigger]
        next.advances.contains_key(advance) implies next.true_advance(next.advances[advance]) by {
        if processes.advances.contains_key(advance) && next.advances[advance]
            == processes.advances[advance] {
            let task = processes.advances[advance];
            lemma_advance_stays_true(processes, next, task);
        }
    }
}

/// Whatever happens, the processes stay sound, and the file keeps its history.
proof fn lemma_events_are_sound<E>(first: Processes<E>, events: Seq<Event<E>>)
    requires
        first.sound(),
        first.after_all(events) is Some,
    ensures
        first.after_all(events)->0.sound(),
        first.after_all(events)->0.continues(first),
    decreases events.len(),
{
    if events.len() > 0 {
        let before = first.after_all(events.drop_last())->0;
        lemma_events_are_sound(first, events.drop_last());
        lemma_event_is_sound(before, events.last());
        let last = first.after_all(events)->0;
        assert forall|i: int| 0 <= i < first.history.len() implies #[trigger] last.history[i]
            == first.history[i] by {
            assert(before.history[i] == first.history[i]);
            assert(last.history[i] == before.history[i]);
        }
    }
}

/// The processes that have yet to start, with the file as it is found.
pub open spec fn no_processes<E>(
    path: Seq<char>,
    file: Option<FetchedObjectView>,
) -> Processes<E> {
    Processes {
        path,
        history: match file {
            Some(object) => seq![object],
            None => Seq::empty(),
        },
        seen: Map::empty(),
        advances: Map::empty(),
    }
}

/// Before any process starts, there is nothing that could be wrong, as long as the file is missing
/// or holds a boundary.
pub proof fn lemma_no_processes_are_sound<E>(path: Seq<char>, file: Option<FetchedObjectView>)
    requires
        holds_boundary(file),
    ensures
        no_processes::<E>(path, file).sound(),
        no_processes::<E>(path, file).file() == file,
{
}

/// However many processes move a boundary at the same time, and whichever of their requests fail,
/// the boundary never moves back. Once an advance has succeeded, the boundary is, and stays, no
/// less than its target. And what any process has seen of the boundary is true at any time.
pub proof fn lemma_boundary_only_rises<E>(first: Processes<E>, events: Seq<Event<E>>)
    requires
        first.sound(),
        first.after_all(events) is Some,
    ensures
        ({
            let last = first.after_all(events)->0;
            &&& last.sound()
            &&& holds_boundary(last.file())
            &&& boundary_of(last.file()) >= boundary_of(first.file())
            &&& forall|advance: int| #[trigger]
                last.advances.contains_key(advance) && last.advances[advance].step
                    == AdvanceStepView::<E>::Done(Ok(())) ==> boundary_of(last.file())
                    >= last.advances[advance].target
            &&& forall|owner: int| #[trigger]
                last.seen.contains_key(owner) ==> truly_seen(last.seen[owner], last.file())
        }),
{
    let last = first.after_all(events)->0;
    lemma_events_are_sound(first, events);
    lemma_true_view_is_truly_seen(last, BoundaryView { path: last.path, cache: None });
    if first.history.len() > 0 {
        let object = first.history.last();
        let i = first.history.len() - 1;
        assert(last.history[i] == first.history[i]);
        assert(last.recorded_at(i, boundary_of(first.file()), object.version));
        lemma_file_is_greatest(last, boundary_of(first.file()), object.version);
    }
    assert forall|advance: int| #[trigger]
        last.advances.contains_key(advance) && last.advances[advance].step
            == AdvanceStepView::<E>::Done(Ok(())) implies boundary_of(last.file())
        >= last.advances[advance].target by {
        let task = last.advances[advance];
        assert(last.true_advance(task));
        if task.target > 0 {
            let (boundary, version) = choose|boundary: u64, version: UpdateVersionView|
                #[trigger]
                last.recorded(boundary, version) && boundary >= task.target;
            lemma_file_is_greatest(last, boundary, version);
        }
    }
    assert forall|owner: int| #[trigger] last.seen.contains_key(owner) implies truly_seen(
        last.seen[owner],
        last.file(),
    ) by {
        lemma_true_view_is_truly_seen(last, last.seen[owner]);
    }
}

/// After whatever has happened, a process that is left to itself can move the boundary: its advance
/// succeeds, and the file then holds the greater of the boundary that it held and the one asked
/// for.
pub proof fn lemma_undisturbed_advance_moves_boundary<E>(
    first: Processes<E>,
    events: Seq<Event<E>>,
    owner: int,
    target: u64,
    stamp: UpdateVersionView,
    source: E,
    fuel: nat,
)
    requires
        first.sound(),
        first.after_all(events) is Some,
        first.after_all(events)->0.seen.contains_key(owner),
        fuel >= 3,
    ensures
        ({
            let last = first.after_all(events)->0;
            let at = last.seen[owner];
            let run = run_advance(
                last.file(),
                at,
                advance_start::<E>(at, target),
                stamp,
                source,
                fuel,
            );
            &&& run is Some
            &&& run->0.result == Ok::<(), TransactionalObjectError<E>>(())
            &&& boundary_of(run->0.file) == greater(boundary_of(last.file()), target)
        }),
{
    lemma_boundary_only_rises(first, events);
    let last = first.after_all(events)->0;
    lemma_advance_moves_boundary(last.file(), last.seen[owner], target, stamp, source, fuel);
}

/// Once an advance has succeeded, every check, by whichever process and whatever else has happened,
/// refuses the ids at or below its target.
pub proof fn lemma_check_after_success<E>(
    first: Processes<E>,
    events: Seq<Event<E>>,
    advance: int,
    owner: int,
    id: u64,
    source: E,
)
    requires
        first.sound(),
        first.after_all(events) is Some,
        first.after_all(events)->0.advances.contains_key(advance),
        first.after_all(events)->0.advances[advance].step == AdvanceStepView::<E>::Done(Ok(())),
        first.after_all(events)->0.seen.contains_key(owner),
    ensures
        ({
            let last = first.after_all(events)->0;
            let at = last.seen[owner];
            let result = run_check(last.file(), at, id, check_start::<E>(at, id), source);
            &&& result == checked::<E>(id, boundary_of(last.file()))
            &&& id <= last.advances[advance].target ==> result == Err::<(), _>(
                TransactionalObjectError::<E>::ObjectVersionExists,
            )
        }),
{
    lemma_boundary_only_rises(first, events);
    let last = first.after_all(events)->0;
    lemma_check_compares_with_file(last.file(), last.seen[owner], id, source);
}

} // verus!
