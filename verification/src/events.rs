//! The event watch: everything related to watching files for creations,
//! modifications, deletions, and so on.
use crate::absolutify::result_view;
use crate::add_file::{add_next, add_ok, add_request, add_start, start_adding, AddFile, AddStep};
use crate::error::{io_error_of, notify_to_io_error, IoError};
use crate::event::{Event, EventKind, EventView, ModifyKind, Platform, RemoveKind, RenameMode};
use crate::path::{parent_of, FilePath, PathView};
use crate::request::{Reply, Request};
use crate::watch::{WatchView, Watches};
use vstd::prelude::*;

verus! {

/// How far the handling of one path of an event has come.
#[derive(Debug)]
pub enum HandleStage<P, N> {
    /// The path may not exist.
    Exists,
    /// The directory of a file that was missing is no longer to be watched.
    Unwatch(P),
    /// The file is being added again.
    Adding(AddFile<P, N>),
}

/// What one step of the handling of a path leads to.
#[derive(Debug)]
pub enum PathStep<P, N> {
    Continue(HandleStage<P, N>),
    Done,
}

/// What the event watch is doing.
#[derive(Debug)]
pub enum Task {
    /// Nothing.
    Idle,
    /// A file is being added, with or without an event for it.
    Adding(AddFile<FilePath, Vec<u8>>, bool),
    /// The next event is being waited for.
    Receiving,
    /// An event is being handled, and has come to the path at this place.
    Handling(Event, usize, HandleStage<FilePath, Vec<u8>>),
}

/// What the event watch is doing, as contracts speak of it.
pub enum TaskView {
    Idle,
    Adding(AddFile<PathView, Seq<u8>>, bool),
    Receiving,
    Handling(EventView, nat, HandleStage<PathView, Seq<u8>>),
}

/// What one step of the event watch leads to.
#[derive(Debug)]
pub enum Step<P, E> {
    /// Something has to be done first.
    Ask(Request<P, E>),
    /// A file was added under this path, or could not be added.
    Added(Result<P, IoError>),
    /// The next event, if there is one.
    Next(Result<Option<E>, IoError>),
    /// There was nothing to do.
    Idle,
}

impl View for HandleStage<FilePath, Vec<u8>> {
    type V = HandleStage<PathView, Seq<u8>>;

    open spec fn view(&self) -> HandleStage<PathView, Seq<u8>> {
        match self {
            HandleStage::Exists => HandleStage::Exists,
            HandleStage::Unwatch(dir) => HandleStage::Unwatch(dir@),
            HandleStage::Adding(state) => HandleStage::Adding(state@),
        }
    }
}

impl View for PathStep<FilePath, Vec<u8>> {
    type V = PathStep<PathView, Seq<u8>>;

    open spec fn view(&self) -> PathStep<PathView, Seq<u8>> {
        match self {
            PathStep::Continue(stage) => PathStep::Continue(stage@),
            PathStep::Done => PathStep::Done,
        }
    }
}

impl View for Task {
    type V = TaskView;

    open spec fn view(&self) -> TaskView {
        match self {
            Task::Idle => TaskView::Idle,
            Task::Adding(state, initial_event) => TaskView::Adding(state@, *initial_event),
            Task::Receiving => TaskView::Receiving,
            Task::Handling(event, index, stage) => TaskView::Handling(
                event@,
                *index as nat,
                stage@,
            ),
        }
    }
}

impl View for Step<FilePath, Event> {
    type V = Step<PathView, EventView>;

    open spec fn view(&self) -> Step<PathView, EventView> {
        match self {
            Step::Ask(request) => Step::Ask(request@),
            Step::Added(result) => Step::Added(result_view(*result)),
            Step::Next(Ok(Some(event))) => Step::Next(Ok(Some(event@))),
            Step::Next(Ok(None)) => Step::Next(Ok(None)),
            Step::Next(Err(error)) => Step::Next(Err(*error)),
            Step::Idle => Step::Idle,
        }
    }
}

/// What the event watch has come to: what is watched, what it is doing, and what
/// it tells its caller.
pub struct Turn {
    pub watch: WatchView,
    pub task: TaskView,
    pub step: Step<PathView, EventView>,
}

/// What a task asks for.
pub open spec fn task_step(task: TaskView) -> Step<PathView, EventView> {
    match task {
        TaskView::Idle => Step::Idle,
        TaskView::Adding(state, _) => Step::Ask(add_request(state)),
        TaskView::Receiving => Step::Ask(Request::Receive),
        TaskView::Handling(event, index, HandleStage::Exists) => Step::Ask(
            Request::Exists(event.paths[index as int]),
        ),
        TaskView::Handling(_, _, HandleStage::Unwatch(dir)) => Step::Ask(Request::Unwatch(dir)),
        TaskView::Handling(_, _, HandleStage::Adding(state)) => Step::Ask(add_request(state)),
    }
}

/// Whether a task is the wait for an event, or its handling.
pub open spec fn waiting_for_event(task: TaskView) -> bool {
    task is Receiving || task is Handling
}

/// A task that goes on.
pub open spec fn ongoing(watch: WatchView, task: TaskView) -> Turn {
    Turn { watch, task, step: task_step(task) }
}

/// A task that has ended.
pub open spec fn ended(watch: WatchView, step: Step<PathView, EventView>) -> Turn {
    Turn { watch, task: TaskView::Idle, step }
}

/// What the kind of an event says of whether its paths still exist, if anything:
/// after a file was removed or renamed away the filesystem is not asked, since it
/// may hold another file there already.
pub open spec fn known_existence(platform: Platform, kind: EventKind) -> Option<bool> {
    match kind {
        EventKind::Remove(RemoveKind::File) => Some(false),
        EventKind::Modify(ModifyKind::Name(RenameMode::From)) => if platform == Platform::MacOs {
            None
        } else {
            Some(false)
        },
        _ => None,
    }
}

/// A path of an event is added again, as it was added first.
pub open spec fn path_added_again(watch: WatchView, path: PathView) -> (
    WatchView,
    PathStep<PathView, Seq<u8>>,
) {
    match add_start(path) {
        AddStep::Continue(state) => (watch, PathStep::Continue(HandleStage::Adding(state))),
        AddStep::Done(_) => (watch, PathStep::Done),
    }
}

/// What is done with a path of an event of which it is known whether it exists: a
/// missing file that has appeared and a watched file that has disappeared are let
/// go of and added again.
pub open spec fn path_known(watch: WatchView, path: PathView, exists: bool) -> (
    WatchView,
    PathStep<PathView, Seq<u8>>,
) {
    if exists && watch.pending.contains(path) {
        let parent = parent_of(path)->0;
        let after = watch.without_pending(path, parent);
        if after.directories.contains_key(parent) {
            path_added_again(after, path)
        } else {
            (after, PathStep::Continue(HandleStage::Unwatch(parent)))
        }
    } else if !exists && watch.files.contains(path) {
        path_added_again(watch.without_file(path), path)
    } else {
        (watch, PathStep::Done)
    }
}

/// The first step of the handling of a path of an event.
pub open spec fn path_start(
    platform: Platform,
    watch: WatchView,
    kind: EventKind,
    path: PathView,
) -> (WatchView, PathStep<PathView, Seq<u8>>) {
    match known_existence(platform, kind) {
        Some(exists) => path_known(watch, path, exists),
        None => (watch, PathStep::Continue(HandleStage::Exists)),
    }
}

/// The step that a reply allows in the handling of a path of an event. What comes
/// of the unwatching and of the adding does not matter.
pub open spec fn path_next(
    watch: WatchView,
    path: PathView,
    stage: HandleStage<PathView, Seq<u8>>,
    reply: Reply<PathView, EventView>,
) -> (WatchView, PathStep<PathView, Seq<u8>>) {
    match (stage, reply) {
        (HandleStage::Exists, Reply::Flag(exists)) => path_known(watch, path, exists),
        (HandleStage::Unwatch(_), Reply::Watched(_)) => path_added_again(watch, path),
        (HandleStage::Adding(state), reply) => {
            let (after, step) = add_next(watch, state, false, reply);
            match step {
                AddStep::Continue(state) => (
                    after,
                    PathStep::Continue(HandleStage::Adding(state)),
                ),
                AddStep::Done(_) => (after, PathStep::Done),
            }
        },
        _ => (watch, PathStep::Continue(stage)),
    }
}

/// Whether a path stays in an event that has been handled: in an event about a
/// removal if it is missing now, in any other if it is watched now.
pub open spec fn path_stays(watch: WatchView, kind: EventKind, path: PathView) -> bool {
    if kind is Remove {
        watch.pending.contains(path)
    } else {
        watch.files.contains(path)
    }
}

/// An event without the path at that place.
pub open spec fn without_path(event: EventView, index: int) -> EventView {
    EventView { paths: event.paths.remove(index), ..event }
}

/// The handling of an event from the path at that place on.
pub open spec fn handle_from(
    platform: Platform,
    watch: WatchView,
    event: EventView,
    index: nat,
) -> Turn
    decreases event.paths.len() - index,
{
    if index >= event.paths.len() {
        ended(watch, Step::Next(Ok(Some(event))))
    } else {
        let path = event.paths[index as int];
        let (after, step) = path_start(platform, watch, event.kind, path);
        match step {
            PathStep::Continue(stage) => ongoing(after, TaskView::Handling(event, index, stage)),
            PathStep::Done => if path_stays(after, event.kind, path) {
                handle_from(platform, after, event, index + 1nat)
            } else {
                handle_from(platform, after, without_path(event, index as int), index)
            },
        }
    }
}

/// The handling of an event after a path has been dealt with.
pub open spec fn handle_after(
    platform: Platform,
    watch: WatchView,
    event: EventView,
    index: nat,
) -> Turn {
    if path_stays(watch, event.kind, event.paths[index as int]) {
        handle_from(platform, watch, event, index + 1nat)
    } else {
        handle_from(platform, watch, without_path(event, index as int), index)
    }
}

/// The beginning of the adding of a file.
pub open spec fn adding(watch: WatchView, path: PathView, initial_event: bool) -> Turn {
    match add_start(path) {
        AddStep::Continue(state) => ongoing(watch, TaskView::Adding(state, initial_event)),
        AddStep::Done(result) => ended(watch, Step::Added(result)),
    }
}

/// The beginning of the wait for an event: there is none to wait for if no file
/// was added.
pub open spec fn receiving(watch: WatchView) -> Turn {
    if watch.is_empty() {
        ended(watch, Step::Next(Ok(None)))
    } else {
        ongoing(watch, TaskView::Receiving)
    }
}

/// What asking for the next event leads to: an event that is being handled is gone on
/// with, and otherwise the wait for one begins.
pub open spec fn polling(watch: WatchView, task: TaskView) -> Turn {
    if task is Handling {
        ongoing(watch, task)
    } else {
        receiving(watch)
    }
}

/// What a reply leads to. A reply to another request changes nothing.
pub open spec fn next_turn(
    platform: Platform,
    watch: WatchView,
    task: TaskView,
    reply: Reply<PathView, EventView>,
) -> Turn {
    match (task, reply) {
        (TaskView::Adding(state, initial_event), reply) => {
            let (after, step) = add_next(watch, state, initial_event, reply);
            match step {
                AddStep::Continue(state) => ongoing(after, TaskView::Adding(state, initial_event)),
                AddStep::Done(result) => ended(after, Step::Added(result)),
            }
        },
        (TaskView::Receiving, Reply::Received(None)) => ended(watch, Step::Next(Ok(None))),
        (TaskView::Receiving, Reply::Received(Some(Err(error)))) => ended(
            watch,
            Step::Next(Err(io_error_of(error))),
        ),
        (TaskView::Receiving, Reply::Received(Some(Ok(event)))) => handle_from(
            platform,
            watch,
            event,
            0,
        ),
        (TaskView::Handling(event, index, stage), reply) => {
            let (after, step) = path_next(watch, event.paths[index as int], stage, reply);
            match step {
                PathStep::Continue(stage) => ongoing(
                    after,
                    TaskView::Handling(event, index, stage),
                ),
                PathStep::Done => handle_after(platform, after, event, index),
            }
        },
        _ => ongoing(watch, task),
    }
}

/// What the handling of a path relies on. A directory that is to be unwatched is
/// no longer held for any missing file.
pub open spec fn stage_ok(watch: WatchView, step: PathStep<PathView, Seq<u8>>) -> bool {
    match step {
        PathStep::Continue(HandleStage::Adding(state)) => add_ok(watch, state),
        PathStep::Continue(HandleStage::Unwatch(dir)) => !watch.directories.contains_key(dir),
        _ => true,
    }
}

/// What a task relies on.
pub open spec fn task_ok(watch: WatchView, task: TaskView) -> bool {
    match task {
        TaskView::Idle => true,
        TaskView::Adding(state, _) => add_ok(watch, state),
        TaskView::Receiving => true,
        TaskView::Handling(event, index, stage) => index < event.paths.len() && stage_ok(
            watch,
            PathStep::Continue(stage),
        ),
    }
}

impl Watches {
    /// Adds a path of an event again, as it was added first.
    fn add_path_again(&mut self, path: &FilePath) -> (step: PathStep<FilePath, Vec<u8>>)
        requires
            old(self).wf(),
        ensures
            final(self).wf(),
            (final(self)@, step@) == path_added_again(old(self)@, path@),
            stage_ok(final(self)@, step@),
    {
        match start_adding(path.clone()) {
            AddStep::Continue(state) => PathStep::Continue(HandleStage::Adding(state)),
            AddStep::Done(_) => PathStep::Done,
        }
    }

    /// Deals with a path of an event of which it is known whether it exists.
    fn handle_known_path(&mut self, path: &FilePath, exists: bool) -> (step: PathStep<
        FilePath,
        Vec<u8>,
    >)
        requires
            old(self).wf(),
        ensures
            final(self).wf(),
            (final(self)@, step@) == path_known(old(self)@, path@, exists),
            stage_ok(final(self)@, step@),
    {
        if exists && self.pending_watched_files().contains(path) {
            match self.remove_pending(path) {
                Some(dir) => PathStep::Continue(HandleStage::Unwatch(dir)),
                None => self.add_path_again(path),
            }
        } else if !exists && self.watched_files().contains(path) {
            self.remove_file(path);
            self.add_path_again(path)
        } else {
            PathStep::Done
        }
    }

    /// Begins to deal with a path of an event.
    fn handle_path(&mut self, platform: Platform, kind: EventKind, path: &FilePath) -> (step:
        PathStep<FilePath, Vec<u8>>)
        requires
            old(self).wf(),
        ensures
            final(self).wf(),
            (final(self)@, step@) == path_start(platform, old(self)@, kind, path@),
            stage_ok(final(self)@, step@),
    {
        // Fixes a potential race when detecting file rotations.
        let gone = match kind {
            EventKind::Remove(RemoveKind::File) => true,
            EventKind::Modify(ModifyKind::Name(RenameMode::From)) => platform != Platform::MacOs,
            _ => false,
        };
        if gone {
            self.handle_known_path(path, false)
        } else {
            PathStep::Continue(HandleStage::Exists)
        }
    }

    /// Goes on dealing with a path of an event with the answer to what was asked
    /// for.
    fn resume_path(
        &mut self,
        path: &FilePath,
        stage: HandleStage<FilePath, Vec<u8>>,
        reply: Reply<FilePath, Event>,
    ) -> (step: PathStep<FilePath, Vec<u8>>)
        requires
            old(self).wf(),
            stage_ok(old(self)@, PathStep::Continue(stage@)),
        ensures
            final(self).wf(),
            (final(self)@, step@) == path_next(old(self)@, path@, stage@, reply@),
            stage_ok(final(self)@, step@),
    {
        match (stage, reply) {
            (HandleStage::Exists, Reply::Flag(exists)) => self.handle_known_path(path, exists),
            (HandleStage::Unwatch(_), Reply::Watched(_)) => self.add_path_again(path),
            (HandleStage::Adding(state), reply) => {
                match self.resume_adding(state, false, reply) {
                    AddStep::Continue(state) => PathStep::Continue(HandleStage::Adding(state)),
                    AddStep::Done(_) => PathStep::Done,
                }
            },
            (stage, _) => PathStep::Continue(stage),
        }
    }

    /// Whether a path stays in an event that has been handled.
    fn keep_path(&self, kind: EventKind, path: &FilePath) -> (keep: bool)
        requires
            self.wf(),
        ensures
            keep == path_stays(self@, kind, path@),
    {
        if kind.is_remove() {
            self.pending_watched_files().contains(path)
        } else {
            self.watched_files().contains(path)
        }
    }
}

/// Manages filesystem event watches.
///
/// Files that do not exist can be added too. The watch asks for what it needs from
/// the filesystem, and is resumed with the answers.
#[derive(Debug)]
pub struct MuxedEvents {
    platform: Platform,
    watches: Watches,
    task: Task,
}

impl View for MuxedEvents {
    type V = WatchView;

    closed spec fn view(&self) -> WatchView {
        self.watches@
    }
}

impl MuxedEvents {
    /// The platform that events come from.
    pub closed spec fn platform(&self) -> Platform {
        self.platform
    }

    /// What the watch is doing.
    pub closed spec fn task(&self) -> TaskView {
        self.task@
    }

    /// What is watched fits together, and with what the watch is doing.
    pub closed spec fn wf(&self) -> bool {
        self.watches.wf() && task_ok(self.watches@, self.task@)
    }

    /// What is watched fits together, and with what the watch is doing.
    pub proof fn lemma_wf(&self)
        requires
            self.wf(),
        ensures
            self@.wf(),
            task_ok(self@, self.task()),
    {
        self.watches.lemma_wf();
    }

    /// What the watch has come to with this step.
    pub open spec fn turn(&self, step: Step<FilePath, Event>) -> Turn {
        Turn { watch: self@, task: self.task(), step: step@ }
    }

    /// Constructs a new `MuxedEvents` instance, in which nothing is watched.
    pub fn new(platform: Platform) -> (events: MuxedEvents)
        ensures
            events.wf(),
            events@ == WatchView::empty(),
            events.platform() == platform,
            events.task() == TaskView::Idle,
    {
        MuxedEvents { platform, watches: Watches::new(), task: Task::Idle }
    }

    /// What is watched.
    pub fn watches(&self) -> (watches: &Watches)
        requires
            self.wf(),
        ensures
            watches.wf(),
            watches@ == self@,
    {
        &self.watches
    }

    /// Whether no file was added, missing or not.
    pub fn is_empty(&self) -> (empty: bool)
        requires
            self.wf(),
        ensures
            empty == self@.is_empty(),
    {
        self.watches.is_empty()
    }

    /// Whether the path is held in any way.
    pub fn watch_exists(&self, path: &FilePath) -> (exists: bool)
        requires
            self.wf(),
        ensures
            exists == self@.watch_exists(path@),
    {
        self.watches.watch_exists(path)
    }

    /// What the watch asks for, if it is doing anything.
    pub fn asked(&self) -> (step: Step<FilePath, Event>)
        requires
            self.wf(),
        ensures
            step@ == task_step(self.task()),
    {
        match &self.task {
            Task::Idle => Step::Idle,
            Task::Adding(state, _) => Step::Ask(state.request()),
            Task::Receiving => Step::Ask(Request::Receive),
            Task::Handling(event, index, HandleStage::Exists) => Step::Ask(
                Request::Exists(event.paths[*index].clone()),
            ),
            Task::Handling(_, _, HandleStage::Unwatch(dir)) => Step::Ask(
                Request::Unwatch(dir.clone()),
            ),
            Task::Handling(_, _, HandleStage::Adding(state)) => Step::Ask(state.request()),
        }
    }

    /// Whether an event is being waited for or handled.
    pub fn is_waiting(&self) -> (waiting: bool)
        ensures
            waiting == waiting_for_event(self.task()),
    {
        matches!(&self.task, Task::Receiving | Task::Handling(_, _, _))
    }

    /// Whether an event is being handled.
    pub fn is_handling(&self) -> (handling: bool)
        ensures
            handling == (self.task() is Handling),
    {
        matches!(&self.task, Task::Handling(_, _, _))
    }

    /// Sets the task, and asks for what it needs.
    fn go_on(&mut self, task: Task) -> (step: Step<FilePath, Event>)
        requires
            old(self).wf(),
            task_ok(old(self)@, task@),
        ensures
            final(self).wf(),
            final(self).turn(step) == ongoing(old(self)@, task@),
            final(self).platform() == old(self).platform(),
    {
        self.task = task;
        self.asked()
    }

    /// Adds a given file to the event watch, allowing for files which do not yet
    /// exist.
    ///
    /// In the end this yields the canonicalized version of the path originally supplied,
    /// to match against the one contained in each event received, or an error.
    ///
    /// What was asked for before must have been answered: whatever the watch is doing is
    /// given up, and an event that is being handled is lost, with a file that was let go
    /// of for it.
    pub fn add_file(&mut self, path: FilePath) -> (step: Step<FilePath, Event>)
        requires
            old(self).wf(),
        ensures
            final(self).wf(),
            final(self).turn(step) == adding(old(self)@, path@, false),
            final(self).platform() == old(self).platform(),
    {
        self._add_file(path, false)
    }

    /// Adds a given file to the event watch, allowing for files which do not yet
    /// exist. Once an existing file is added, an event is immediately created for
    /// the file to trigger reading it as soon as events are being read.
    ///
    /// In the end this yields the canonicalized version of the path originally supplied,
    /// to match against the one contained in each event received, or an error.
    ///
    /// What was asked for before must have been answered, as for `add_file`.
    pub fn add_file_initial_event(&mut self, path: FilePath) -> (step: Step<FilePath, Event>)
        requires
            old(self).wf(),
        ensures
            final(self).wf(),
            final(self).turn(step) == adding(old(self)@, path@, true),
            final(self).platform() == old(self).platform(),
    {
        self._add_file(path, true)
    }

    fn _add_file(&mut self, path: FilePath, initial_event: bool) -> (step: Step<FilePath, Event>)
        requires
            old(self).wf(),
        ensures
            final(self).wf(),
            final(self).turn(step) == adding(old(self)@, path@, initial_event),
            final(self).platform() == old(self).platform(),
    {
        match start_adding(path) {
            AddStep::Continue(state) => self.go_on(Task::Adding(state, initial_event)),
            AddStep::Done(result) => {
                self.task = Task::Idle;
                Step::Added(result)
            },
        }
    }

    /// Waits for the next event; there is none if no file was added. An event that is
    /// being handled is gone on with.
    ///
    /// What was asked for to add a file must have been answered, as for `add_file`.
    pub fn poll_next_event(&mut self) -> (step: Step<FilePath, Event>)
        requires
            old(self).wf(),
        ensures
            final(self).wf(),
            final(self).turn(step) == polling(old(self)@, old(self).task()),
            final(self).platform() == old(self).platform(),
    {
        if self.is_handling() {
            self.asked()
        } else {
            self.receive()
        }
    }

    /// Begins to wait for the next event; there is none if no file was added.
    pub(crate) fn receive(&mut self) -> (step: Step<FilePath, Event>)
        requires
            old(self).wf(),
        ensures
            final(self).wf(),
            final(self).turn(step) == receiving(old(self)@),
            final(self).platform() == old(self).platform(),
    {
        if self.is_empty() {
            self.task = Task::Idle;
            Step::Next(Ok(None))
        } else {
            self.go_on(Task::Receiving)
        }
    }

    /// Handles an event from the path at that place on: what the event says of the
    /// files that are watched is taken in, and the event keeps the paths that it
    /// still concerns.
    fn handle_event(&mut self, received: Event, from: usize) -> (step: Step<FilePath, Event>)
        requires
            old(self).wf(),
            from <= received@.paths.len(),
        ensures
            final(self).wf(),
            final(self).turn(step) == handle_from(
                old(self).platform(),
                old(self)@,
                received@,
                from as nat,
            ),
            step@ !is Added,
            final(self).platform() == old(self).platform(),
    {
        let mut event = received;
        let mut index: usize = from;
        self.task = Task::Idle;
        while index < event.paths.len()
            invariant
                self.wf(),
                self.task() == TaskView::Idle,
                index <= event@.paths.len(),
                self.platform() == old(self).platform(),
                handle_from(self.platform(), self@, event@, index as nat) == handle_from(
                    old(self).platform(),
                    old(self)@,
                    received@,
                    from as nat,
                ),
            decreases event.paths.len() - index,
        {
            match self.watches.handle_path(self.platform, event.kind, &event.paths[index]) {
                PathStep::Continue(stage) => {
                    return self.go_on(Task::Handling(event, index, stage));
                },
                PathStep::Done => {
                    if self.watches.keep_path(event.kind, &event.paths[index]) {
                        index += 1;
                    } else {
                        let ghost before = event@;
                        let _ = event.paths.remove(index);
                        assert(event@.paths =~= without_path(before, index as int).paths);
                    }
                },
            }
        }
        Step::Next(Ok(Some(event)))
    }

    /// Goes on with the answer to what was asked for.
    pub fn resume(&mut self, reply: Reply<FilePath, Event>) -> (step: Step<FilePath, Event>)
        requires
            old(self).wf(),
        ensures
            final(self).wf(),
            final(self).turn(step) == next_turn(
                old(self).platform(),
                old(self)@,
                old(self).task(),
                reply@,
            ),
            step@ matches Step::Added(Ok(path)) ==> final(self)@.watch_exists(path),
            final(self).platform() == old(self).platform(),
    {
        let mut task = Task::Idle;
        std::mem::swap(&mut self.task, &mut task);
        match (task, reply) {
            (Task::Adding(state, initial_event), reply) => {
                match self.watches.resume_adding(state, initial_event, reply) {
                    AddStep::Continue(state) => self.go_on(Task::Adding(state, initial_event)),
                    AddStep::Done(result) => Step::Added(result),
                }
            },
            (Task::Receiving, Reply::Received(None)) => Step::Next(Ok(None)),
            (Task::Receiving, Reply::Received(Some(Err(error)))) => Step::Next(
                Err(notify_to_io_error(error)),
            ),
            (Task::Receiving, Reply::Received(Some(Ok(event)))) => self.handle_event(event, 0),
            (Task::Handling(event, index, stage), reply) => {
                match self.watches.resume_path(&event.paths[index], stage, reply) {
                    PathStep::Continue(stage) => self.go_on(Task::Handling(event, index, stage)),
                    PathStep::Done => {
                        if self.watches.keep_path(event.kind, &event.paths[index]) {
                            assert(index < event.paths.len());
                            self.handle_event(event, index + 1)
                        } else {
                            let mut event = event;
                            let ghost before = event@;
                            let _ = event.paths.remove(index);
                            assert(event@.paths =~= without_path(before, index as int).paths);
                            self.handle_event(event, index)
                        }
                    },
                }
            },
            (task, _) => self.go_on(task),
        }
    }
}

} // verus!
