//! Everything related to reading lines for a given event.
use crate::absolutify::result_view;
use crate::error::IoError;
use crate::event::{path_views, Event, EventView, Platform};
use crate::events::{
    adding, next_turn, receiving, task_step, waiting_for_event, MuxedEvents, Step, TaskView, Turn,
};
use crate::handle_event::{
    files_from, files_next, handling_ok, poll_handle_event, FileReply, HandleEventAwaitState,
    HandleEventState, HandleEventStateView,
};
use crate::inner::{Inner, InnerView};
use crate::line::{Line, LineView};
use crate::path::{FilePath, PathView};
use crate::request::{Reply, Request};
use crate::watch::WatchView;
use vstd::prelude::*;

verus! {

/// What the reading of lines is doing.
#[derive(Debug)]
pub enum StreamState {
    /// It waits for the next event.
    Events,
    /// It handles an event.
    HandleEvent(Event, HandleEventState),
    /// It reads the files of an event, and has come to the one at this place.
    ReadLines(Vec<FilePath>, usize),
}

/// What the reading of lines is doing, as contracts speak of it.
pub enum StreamStateView {
    Events,
    HandleEvent(EventView, HandleEventStateView),
    ReadLines(Seq<PathView>, nat),
}

impl View for StreamState {
    type V = StreamStateView;

    open spec fn view(&self) -> StreamStateView {
        match self {
            StreamState::Events => StreamStateView::Events,
            StreamState::HandleEvent(event, state) => StreamStateView::HandleEvent(event@, state@),
            StreamState::ReadLines(paths, path_index) => StreamStateView::ReadLines(
                path_views(paths@),
                *path_index as nat,
            ),
        }
    }
}

impl Default for StreamState {
    fn default() -> (state: StreamState)
        ensures
            state@ == StreamStateView::Events,
    {
        StreamState::Events
    }
}

impl StreamState {
    /// Sets the state, and hands out the one before.
    pub fn replace(&mut self, new_state: StreamState) -> (previous: StreamState)
        ensures
            *final(self) == new_state,
            previous == *old(self),
    {
        let mut old_state = new_state;

        std::mem::swap(self, &mut old_state);

        old_state
    }

    /// Whether there is more to do before the next event is waited for.
    pub fn is_transient(&self) -> (transient: bool)
        ensures
            transient == (self@ !is Events),
    {
        if let StreamState::Events = self {
            false
        } else {
            true
        }
    }
}

/// How far the adding of a file has come. `P` is the type of paths.
#[derive(Debug)]
pub enum AddState<P> {
    /// No file is being added.
    Idle,
    /// The file is being added to the event watch; it is to be read from its start, or
    /// else from its end.
    Register(bool),
    /// The file may not exist yet; it is to be read from its start, or else from its
    /// end.
    Exists(P, bool),
    /// The size of the file is asked for.
    Metadata(P),
    /// The file is being opened at this position.
    NewLineReader(P, u64),
}

impl View for AddState<FilePath> {
    type V = AddState<PathView>;

    open spec fn view(&self) -> AddState<PathView> {
        match self {
            AddState::Idle => AddState::Idle,
            AddState::Register(from_start) => AddState::Register(*from_start),
            AddState::Exists(source, from_start) => AddState::Exists(source@, *from_start),
            AddState::Metadata(source) => AddState::Metadata(source@),
            AddState::NewLineReader(source, size) => AddState::NewLineReader(source@, *size),
        }
    }
}

/// Something that the reading of lines needs done. `P` is the type of paths and `E`
/// that of events.
#[derive(Debug)]
pub enum LineRequest<P, E> {
    /// What the event watch needs done.
    Watch(Request<P, E>),
    /// Is there anything at the path?
    Exists(P),
    /// What is the size of the file?
    Metadata(P),
    /// Open the file for reading by lines, from this position on or else from its
    /// start.
    NewLineReader(P, Option<u64>),
    /// Read a line from the file.
    ReadLine(P),
    /// Nothing: there was no event, and another one is waited for next.
    Again,
}

/// What came of a request. `P` is the type of paths, `E` that of events, `S` that of
/// text and `R` that of readers.
#[derive(Debug)]
pub enum LineReply<P, E, S, R> {
    /// Of `Watch`.
    Watch(Reply<P, E>),
    /// Of `Exists`.
    Exists(bool),
    /// Of `Metadata` and `NewLineReader`.
    File(FileReply<R>),
    /// Of `ReadLine`; `None` at the end of the file.
    Line(Result<Option<S>, std::io::Error>),
    /// Of `Again`.
    Again,
}

/// What one step of the reading of lines leads to. `P` is the type of paths, `E` that
/// of events and `L` that of lines.
#[derive(Debug)]
pub enum LineStep<P, E, L> {
    /// Something has to be done first.
    Ask(LineRequest<P, E>),
    /// A file was added under this path, or could not be added.
    Added(Result<P, IoError>),
    /// The next line, if there is one.
    Line(Result<Option<L>, IoError>),
    /// There was nothing to do.
    Idle,
}

impl View for LineRequest<FilePath, Event> {
    type V = LineRequest<PathView, EventView>;

    open spec fn view(&self) -> LineRequest<PathView, EventView> {
        match self {
            LineRequest::Watch(request) => LineRequest::Watch(request@),
            LineRequest::Exists(path) => LineRequest::Exists(path@),
            LineRequest::Metadata(path) => LineRequest::Metadata(path@),
            LineRequest::NewLineReader(path, pos) => LineRequest::NewLineReader(path@, *pos),
            LineRequest::ReadLine(path) => LineRequest::ReadLine(path@),
            LineRequest::Again => LineRequest::Again,
        }
    }
}

impl<R> View for LineReply<FilePath, Event, String, R> {
    type V = LineReply<PathView, EventView, Seq<char>, R>;

    open spec fn view(&self) -> LineReply<PathView, EventView, Seq<char>, R> {
        match self {
            LineReply::Watch(reply) => LineReply::Watch(reply@),
            LineReply::Exists(exists) => LineReply::Exists(*exists),
            LineReply::File(reply) => LineReply::File(*reply),
            LineReply::Line(Ok(Some(text))) => LineReply::Line(Ok(Some(text@))),
            LineReply::Line(Ok(None)) => LineReply::Line(Ok(None)),
            LineReply::Line(Err(error)) => LineReply::Line(Err(*error)),
            LineReply::Again => LineReply::Again,
        }
    }
}

impl View for LineStep<FilePath, Event, Line> {
    type V = LineStep<PathView, EventView, LineView>;

    open spec fn view(&self) -> LineStep<PathView, EventView, LineView> {
        match self {
            LineStep::Ask(request) => LineStep::Ask(request@),
            LineStep::Added(result) => LineStep::Added(result_view(*result)),
            LineStep::Line(Ok(Some(line))) => LineStep::Line(Ok(Some(line@))),
            LineStep::Line(Ok(None)) => LineStep::Line(Ok(None)),
            LineStep::Line(Err(error)) => LineStep::Line(Err(*error)),
            LineStep::Idle => LineStep::Idle,
        }
    }
}

/// The event watch as it stands: what is watched, and what it is doing.
pub struct Watching {
    pub watch: WatchView,
    pub task: TaskView,
}

/// The event watch as a turn leaves it.
pub open spec fn watching(turn: Turn) -> Watching {
    Watching { watch: turn.watch, task: turn.task }
}

/// What the adding of a file has come to: the event watch, what is known of the files,
/// how far the adding has come, and what the caller is told.
#[verifier::reject_recursive_types(R)]
pub struct AddTurn<R> {
    pub events: Watching,
    pub inner: InnerView<R>,
    pub state: AddState<PathView>,
    pub step: LineStep<PathView, EventView, LineView>,
}

/// The adding of a file goes on, and asks for what it needs.
pub open spec fn add_asks<R>(
    events: Watching,
    inner: InnerView<R>,
    state: AddState<PathView>,
) -> AddTurn<R> {
    AddTurn {
        events,
        inner,
        state,
        step: match state {
            AddState::Idle => LineStep::Idle,
            AddState::Register(_) => match task_step(events.task) {
                Step::Ask(request) => LineStep::Ask(LineRequest::Watch(request)),
                _ => LineStep::Idle,
            },
            AddState::Exists(source, _) => LineStep::Ask(LineRequest::Exists(source)),
            AddState::Metadata(source) => LineStep::Ask(LineRequest::Metadata(source)),
            AddState::NewLineReader(source, size) => LineStep::Ask(
                LineRequest::NewLineReader(source, Some(size)),
            ),
        },
    }
}

/// The adding of a file has ended.
pub open spec fn add_ends<R>(
    events: Watching,
    inner: InnerView<R>,
    result: Result<PathView, IoError>,
) -> AddTurn<R> {
    AddTurn { events, inner, state: AddState::Idle, step: LineStep::Added(result) }
}

/// What follows a turn of the event watch to which the file is being added. Once it has
/// been added there, the file is opened if it has no reader.
pub open spec fn registering<R>(turn: Turn, inner: InnerView<R>, from_start: bool) -> AddTurn<R> {
    match turn.step {
        Step::Added(Ok(source)) => if inner.reader_exists(source) {
            add_ends(watching(turn), inner, Ok(source))
        } else {
            add_asks(watching(turn), inner, AddState::Exists(source, from_start))
        },
        Step::Added(Err(error)) => add_ends(watching(turn), inner, Err(error)),
        _ => add_asks(watching(turn), inner, AddState::Register(from_start)),
    }
}

/// The beginning of the adding of a file: it is added to the event watch first.
pub open spec fn add_begins<R>(
    watch: WatchView,
    inner: InnerView<R>,
    path: PathView,
    from_start: bool,
) -> AddTurn<R> {
    registering(adding(watch, path, false), inner, from_start)
}

/// What a reply leads to in the adding of a file. A reply to another request
/// changes nothing.
pub open spec fn add_line_next<R>(
    platform: Platform,
    events: Watching,
    inner: InnerView<R>,
    state: AddState<PathView>,
    reply: LineReply<PathView, EventView, Seq<char>, R>,
) -> AddTurn<R> {
    match (state, reply) {
        (AddState::Register(from_start), LineReply::Watch(reply)) => registering(
            next_turn(platform, events.watch, events.task, reply),
            inner,
            from_start,
        ),
        (AddState::Exists(source, from_start), LineReply::Exists(exists)) => if !exists {
            add_ends(events, inner.with_pending(source), Ok(source))
        } else if from_start {
            add_asks(events, inner, AddState::NewLineReader(source, 0))
        } else {
            add_asks(events, inner, AddState::Metadata(source))
        },
        (AddState::Metadata(source), LineReply::File(FileReply::Metadata(result))) => match result {
            Err(error) => add_ends(events, inner, Err(IoError::System(error))),
            Ok(size) => add_asks(events, inner, AddState::NewLineReader(source, size)),
        },
        (
            AddState::NewLineReader(source, size),
            LineReply::File(FileReply::Reader(result)),
        ) => match result {
            Err(error) => add_ends(events, inner, Err(IoError::System(error))),
            Ok(reader) => add_ends(
                events,
                inner.with_position(source, size).with_reader(source, reader),
                Ok(source),
            ),
        },
        _ => add_asks(events, inner, state),
    }
}

/// What the adding of a file relies on: the event watch is adding it, or holds it
/// already, and the file has no reader yet.
pub open spec fn add_line_ok<R>(
    events: Watching,
    inner: InnerView<R>,
    state: AddState<PathView>,
) -> bool {
    match state {
        AddState::Idle => true,
        AddState::Register(_) => events.task is Adding,
        AddState::Exists(source, _) => source_ok(events, inner, source),
        AddState::Metadata(source) => source_ok(events, inner, source),
        AddState::NewLineReader(source, _) => source_ok(events, inner, source),
    }
}

/// The event watch holds the file, and it has no reader yet.
pub open spec fn source_ok<R>(events: Watching, inner: InnerView<R>, source: PathView) -> bool {
    events.watch.watch_exists(source) && !inner.reader_exists(source)
}

/// What the reading of lines has come to: the event watch, what is known of the files,
/// what the reading is doing, and what the caller is told.
#[verifier::reject_recursive_types(R)]
pub struct LineTurn<R> {
    pub events: Watching,
    pub inner: InnerView<R>,
    pub state: StreamStateView,
    pub step: LineStep<PathView, EventView, LineView>,
}

/// What the reading of lines asks for.
pub open spec fn stream_request(events: Watching, state: StreamStateView) -> LineRequest<
    PathView,
    EventView,
> {
    match state {
        StreamStateView::Events => match task_step(events.task) {
            Step::Ask(request) if waiting_for_event(events.task) => LineRequest::Watch(request),
            _ => LineRequest::Again,
        },
        StreamStateView::HandleEvent(event, state) => {
            let path = event.paths[state.path_index as int];
            match state.await_state {
                HandleEventAwaitState::NewLineReader(position) => LineRequest::NewLineReader(
                    path,
                    position,
                ),
                _ => LineRequest::Metadata(path),
            }
        },
        StreamStateView::ReadLines(paths, index) => LineRequest::ReadLine(paths[index as int]),
    }
}

/// The reading of lines goes on.
pub open spec fn line_asks<R>(
    events: Watching,
    inner: InnerView<R>,
    state: StreamStateView,
) -> LineTurn<R> {
    LineTurn { events, inner, state, step: LineStep::Ask(stream_request(events, state)) }
}

/// The reading of lines waits for the next event. If nothing is watched there is none,
/// and it tries again.
pub open spec fn waits<R>(watch: WatchView, inner: InnerView<R>) -> LineTurn<R> {
    line_asks(watching(receiving(watch)), inner, StreamStateView::Events)
}

/// The reading of the files of an event from that place on: those without a reader
/// are skipped.
pub open spec fn read_from<R>(
    events: Watching,
    inner: InnerView<R>,
    paths: Seq<PathView>,
    index: nat,
) -> LineTurn<R>
    decreases paths.len() - index,
{
    if index >= paths.len() {
        waits(events.watch, inner)
    } else if inner.readers.contains_key(paths[index as int]) {
        line_asks(events, inner, StreamStateView::ReadLines(paths, index))
    } else {
        read_from(events, inner, paths, index + 1nat)
    }
}

/// What follows a step of the handling of an event: its files are read once it has
/// been handled.
pub open spec fn event_handled<R>(
    events: Watching,
    inner: InnerView<R>,
    event: EventView,
    state: HandleEventStateView,
) -> LineTurn<R> {
    if state.await_state is Idle {
        read_from(events, inner, event.paths, 0)
    } else {
        line_asks(events, inner, StreamStateView::HandleEvent(event, state))
    }
}

/// What follows a turn of the event watch that an event is waited for from. An event is
/// handled, an error in place of one is handed on, and that there is none is passed over.
pub open spec fn event_awaited<R>(
    platform: Platform,
    turn: Turn,
    inner: InnerView<R>,
) -> LineTurn<R> {
    match turn.step {
        Step::Next(Ok(Some(event))) => {
            let (after, state) = files_from(platform, inner, event, 0);
            event_handled(watching(turn), after, event, state)
        },
        Step::Next(Err(error)) => LineTurn {
            events: watching(turn),
            inner,
            state: StreamStateView::Events,
            step: LineStep::Line(Err(error)),
        },
        _ => line_asks(watching(turn), inner, StreamStateView::Events),
    }
}

/// What asking for a line leads to: there is none to wait for if there is no file to read
/// from and nothing else to do first, and an event that is being handled is gone on with.
pub open spec fn line_start<R>(
    events: Watching,
    inner: InnerView<R>,
    state: StreamStateView,
) -> LineTurn<R> {
    if state !is Events {
        line_asks(events, inner, state)
    } else if inner.is_empty() {
        LineTurn { events, inner, state, step: LineStep::Line(Ok(None)) }
    } else if events.task is Handling {
        line_asks(events, inner, state)
    } else {
        waits(events.watch, inner)
    }
}

/// What a reply leads to in the reading of lines. A reply to another request changes
/// nothing.
pub open spec fn line_next<R>(
    platform: Platform,
    events: Watching,
    inner: InnerView<R>,
    state: StreamStateView,
    reply: LineReply<PathView, EventView, Seq<char>, R>,
) -> LineTurn<R> {
    match (state, reply) {
        (StreamStateView::Events, LineReply::Watch(reply)) if waiting_for_event(
            events.task,
        ) => event_awaited(platform, next_turn(platform, events.watch, events.task, reply), inner),
        (StreamStateView::Events, LineReply::Again) if !waiting_for_event(events.task) => waits(
            events.watch,
            inner,
        ),
        (StreamStateView::HandleEvent(event, state), LineReply::File(reply)) => {
            let (after, state) = files_next(platform, inner, event, state, reply);
            event_handled(events, after, event, state)
        },
        (StreamStateView::ReadLines(paths, index), LineReply::Line(Ok(Some(text)))) => LineTurn {
            events,
            inner,
            state,
            step: LineStep::Line(
                Ok(Some(LineView { source: paths[index as int], line: text })),
            ),
        },
        (StreamStateView::ReadLines(paths, index), LineReply::Line(Ok(None))) => read_from(
            events,
            inner,
            paths,
            index + 1nat,
        ),
        (StreamStateView::ReadLines(_, _), LineReply::Line(Err(error))) => LineTurn {
            events,
            inner,
            state: StreamStateView::Events,
            step: LineStep::Line(Err(IoError::System(error))),
        },
        _ => line_asks(events, inner, state),
    }
}

/// What the reading of lines relies on: an event in progress waits for something,
/// and a file that is being read has a reader.
pub open spec fn stream_ok<R>(
    platform: Platform,
    inner: InnerView<R>,
    state: StreamStateView,
) -> bool {
    match state {
        StreamStateView::Events => true,
        StreamStateView::HandleEvent(event, state) => handling_ok(platform, inner, event, state),
        StreamStateView::ReadLines(paths, index) => index < paths.len()
            && inner.readers.contains_key(paths[index as int]),
    }
}

/// Manages file watches, and yields the lines of the files.
///
/// Lines are read by events:
///   1. A new event is taken from the `MuxedEvents` that the files are added to.
///   2. Housekeeping is performed for the event, such as moving pending file readers
///      to active, handling file rotation, etc.
///   3. The file readers of the event are read, if there are any.
///   4. A `Line` is yielded for each line that could be read.
///
/// `R` is the type of file readers.
#[derive(Debug)]
pub struct MuxedLines<R> {
    events: MuxedEvents,
    platform: Platform,
    inner: Inner<R>,
    stream_state: StreamState,
    adding: AddState<FilePath>,
}

impl<R> View for MuxedLines<R> {
    type V = InnerView<R>;

    closed spec fn view(&self) -> InnerView<R> {
        self.inner@
    }
}

impl<R> MuxedLines<R> {
    /// The event watch.
    pub closed spec fn watch(&self) -> MuxedEvents {
        self.events
    }

    /// The event watch as it stands.
    pub open spec fn watching(&self) -> Watching {
        Watching { watch: self.watch()@, task: self.watch().task() }
    }

    /// The platform that events come from.
    pub closed spec fn platform(&self) -> Platform {
        self.platform
    }

    /// What the reading of lines is doing.
    pub closed spec fn stream(&self) -> StreamStateView {
        self.stream_state@
    }

    /// How far the adding of a file has come.
    pub closed spec fn adding(&self) -> AddState<PathView> {
        self.adding@
    }

    /// The event watch and the collections are sound, every file with a reader has a
    /// position, and all that fits together with what is being done.
    pub closed spec fn wf(&self) -> bool {
        &&& self.wf_but_stream()
        &&& stream_ok(self.platform, self.inner@, self.stream_state@)
    }

    /// Every file with a reader has a position, and that fits together with what is
    /// being done.
    pub proof fn lemma_wf(&self)
        requires
            self.wf(),
        ensures
            self.watch().wf(),
            self.watch().platform() == self.platform(),
            has_positions(self@),
            stream_ok(self.platform(), self@, self.stream()),
            add_line_ok(self.watching(), self@, self.adding()),
    {
    }

    /// Sound but for what the reading of lines is doing.
    spec fn wf_but_stream(&self) -> bool {
        &&& self.events.wf()
        &&& self.events.platform() == self.platform
        &&& self.inner.wf()
        &&& has_positions(self.inner@)
        &&& add_line_ok(self.watching(), self.inner@, self.adding@)
    }

    /// What the adding of a file has come to with this step.
    pub open spec fn add_turn(&self, step: LineStep<FilePath, Event, Line>) -> AddTurn<R> {
        AddTurn { events: self.watching(), inner: self@, state: self.adding(), step: step@ }
    }

    /// What the reading of lines has come to with this step.
    pub open spec fn line_turn(&self, step: LineStep<FilePath, Event, Line>) -> LineTurn<R> {
        LineTurn { events: self.watching(), inner: self@, state: self.stream(), step: step@ }
    }

    /// Whether a file that this step says was added is held by the event watch, and has
    /// a reader or will have one when it exists.
    pub open spec fn holds_added(&self, step: LineStep<FilePath, Event, Line>) -> bool {
        step@ matches LineStep::Added(Ok(source)) ==> self.watch()@.watch_exists(source)
            && self@.reader_exists(source)
    }

    /// Constructs a new `MuxedLines` instance, without files.
    pub fn new(platform: Platform) -> (lines: MuxedLines<R>)
        ensures
            lines.wf(),
            lines@ == InnerView::<R>::empty(),
            lines.stream() == StreamStateView::Events,
            lines.adding() == AddState::<PathView>::Idle,
            lines.platform() == platform,
            lines.watch()@ == WatchView::empty(),
            lines.watch().task() == TaskView::Idle,
            lines.watch().platform() == platform,
    {
        MuxedLines {
            events: MuxedEvents::new(platform),
            platform,
            inner: Inner::new(),
            stream_state: StreamState::default(),
            adding: AddState::Idle,
        }
    }

    /// The event watch.
    pub fn events(&self) -> (events: &MuxedEvents)
        requires
            self.wf(),
        ensures
            *events == self.watch(),
            events.wf(),
    {
        &self.events
    }

    /// What is known of the files.
    pub fn inner(&self) -> (inner: &Inner<R>)
        requires
            self.wf(),
        ensures
            inner.wf(),
            inner@ == self@,
    {
        &self.inner
    }

    /// What the reading of lines is doing.
    pub fn stream_state(&self) -> (state: &StreamState)
        ensures
            state@ == self.stream(),
    {
        &self.stream_state
    }

    /// Whether the file has a reader, or will have one when it exists.
    pub fn reader_exists(&self, path: &FilePath) -> (exists: bool)
        requires
            self.wf(),
        ensures
            exists == self@.reader_exists(path@),
    {
        // Make sure there isn't already a reader for the file
        self.inner.reader_exists(path)
    }

    /// Whether there is no file to read from, now or later.
    pub fn is_empty(&self) -> (empty: bool)
        requires
            self.wf(),
        ensures
            empty == self@.is_empty(),
    {
        self.inner.is_empty()
    }

    /// The reader of the file, if it has one, to be read from.
    pub fn reader_mut(&mut self, path: &FilePath) -> (reader: Option<&mut R>)
        requires
            old(self).wf(),
        ensures
            final(self).wf(),
            final(self).watch() == old(self).watch(),
            final(self).platform() == old(self).platform(),
            final(self).stream() == old(self).stream(),
            final(self).adding() == old(self).adding(),
            match reader {
                Some(reader) => {
                    &&& old(self)@.readers.contains_key(path@)
                    &&& *reader == old(self)@.readers[path@]
                    &&& final(self)@ == old(self)@.with_reader(path@, *final(reader))
                },
                None => !old(self)@.readers.contains_key(path@) && final(self)@ == old(self)@,
            },
    {
        self.inner.reader_mut(path)
    }

    /// Goes on adding a file, and asks for what is needed.
    fn ask_to_add(&mut self, state: AddState<FilePath>) -> (step: LineStep<FilePath, Event, Line>)
        requires
            old(self).wf(),
            add_line_ok(old(self).watching(), old(self)@, state@),
        ensures
            final(self).wf(),
            final(self).add_turn(step) == add_asks(old(self).watching(), old(self)@, state@),
            final(self).stream() == old(self).stream(),
            final(self).platform() == old(self).platform(),
    {
        let step = match &state {
            AddState::Idle => LineStep::Idle,
            AddState::Register(_) => match self.events.asked() {
                Step::Ask(request) => LineStep::Ask(LineRequest::Watch(request)),
                _ => LineStep::Idle,
            },
            AddState::Exists(source, _) => LineStep::Ask(LineRequest::Exists(source.clone())),
            AddState::Metadata(source) => LineStep::Ask(LineRequest::Metadata(source.clone())),
            AddState::NewLineReader(source, size) => LineStep::Ask(
                LineRequest::NewLineReader(source.clone(), Some(*size)),
            ),
        };
        self.adding = state;
        step
    }

    /// Goes on adding a file after a step of the event watch that it is being added to.
    fn register(&mut self, watched: Step<FilePath, Event>, from_start: bool) -> (step: LineStep<
        FilePath,
        Event,
        Line,
    >)
        requires
            old(self).wf(),
            old(self).adding() is Idle,
            match watched@ {
                Step::Added(Ok(source)) => old(self).watch()@.watch_exists(source),
                Step::Added(Err(_)) => true,
                _ => old(self).watch().task() is Adding,
            },
        ensures
            final(self).wf(),
            final(self).add_turn(step) == registering(
                old(self).watch().turn(watched),
                old(self)@,
                from_start,
            ),
            final(self).holds_added(step),
            final(self).stream() == old(self).stream(),
            final(self).platform() == old(self).platform(),
    {
        match watched {
            Step::Added(Ok(source)) => {
                if self.reader_exists(&source) {
                    LineStep::Added(Ok(source))
                } else {
                    self.ask_to_add(AddState::Exists(source, from_start))
                }
            },
            Step::Added(Err(error)) => LineStep::Added(Err(error)),
            _ => self.ask_to_add(AddState::Register(from_start)),
        }
    }

    fn _add_file(&mut self, path: FilePath, from_start: bool) -> (step: LineStep<
        FilePath,
        Event,
        Line,
    >)
        requires
            old(self).wf(),
        ensures
            final(self).wf(),
            final(self).add_turn(step) == add_begins(
                old(self).watch()@,
                old(self)@,
                path@,
                from_start,
            ),
            final(self).stream() == old(self).stream(),
            final(self).platform() == old(self).platform(),
    {
        self.adding = AddState::Idle;
        let watched = self.events.add_file(path);
        self.register(watched, from_start)
    }

    /// Adds a given file to the lines watch, allowing for files which do not yet
    /// exist. A file that exists is read from its end.
    ///
    /// In the end this yields the canonicalized version of the path originally supplied,
    /// to match against the one contained in each `Line` received, or an error.
    ///
    /// What the event watch asked for before must have been answered, unless it was an
    /// event: whatever it is doing is given up, and an event that it is handling is lost,
    /// with a file that was let go of for it.
    pub fn add_file(&mut self, path: FilePath) -> (step: LineStep<FilePath, Event, Line>)
        requires
            old(self).wf(),
        ensures
            final(self).wf(),
            final(self).add_turn(step) == add_begins(old(self).watch()@, old(self)@, path@, false),
            final(self).stream() == old(self).stream(),
            final(self).platform() == old(self).platform(),
    {
        self._add_file(path, false)
    }

    /// Adds a given file to the lines watch, allowing for files which do not yet
    /// exist. A file that exists is read from its start.
    ///
    /// In the end this yields the canonicalized version of the path originally supplied,
    /// to match against the one contained in each `Line` received, or an error.
    ///
    /// What the event watch asked for before must have been answered, as for `add_file`.
    pub fn add_file_from_start(&mut self, path: FilePath) -> (step: LineStep<
        FilePath,
        Event,
        Line,
    >)
        requires
            old(self).wf(),
        ensures
            final(self).wf(),
            final(self).add_turn(step) == add_begins(old(self).watch()@, old(self)@, path@, true),
            final(self).stream() == old(self).stream(),
            final(self).platform() == old(self).platform(),
    {
        self._add_file(path, true)
    }

    /// Goes on adding a file with the answer to what was asked for. A file that has been
    /// added is held by the event watch under the same path.
    pub fn resume_add_file(&mut self, reply: LineReply<FilePath, Event, String, R>) -> (step:
        LineStep<FilePath, Event, Line>)
        requires
            old(self).wf(),
        ensures
            final(self).wf(),
            final(self).add_turn(step) == add_line_next(
                old(self).platform(),
                old(self).watching(),
                old(self)@,
                old(self).adding(),
                reply@,
            ),
            final(self).holds_added(step),
            final(self).stream() == old(self).stream(),
            final(self).platform() == old(self).platform(),
    {
        let mut state = AddState::Idle;
        std::mem::swap(&mut self.adding, &mut state);
        match (state, reply) {
            (AddState::Register(from_start), LineReply::Watch(reply)) => {
                let watched = self.events.resume(reply);
                self.register(watched, from_start)
            },
            (AddState::Exists(source, from_start), LineReply::Exists(exists)) => {
                if !exists {
                    let didnt_exist = self.inner.insert_pending(source.clone());
                    // If this fails it's a bug
                    assert(didnt_exist);
                    LineStep::Added(Ok(source))
                } else if from_start {
                    self.ask_to_add(AddState::NewLineReader(source, 0))
                } else {
                    self.ask_to_add(AddState::Metadata(source))
                }
            },
            (AddState::Metadata(source), LineReply::File(FileReply::Metadata(result))) => {
                match result {
                    Err(error) => LineStep::Added(Err(IoError::System(error))),
                    Ok(size) => self.ask_to_add(AddState::NewLineReader(source, size)),
                }
            },
            (
                AddState::NewLineReader(source, size),
                LineReply::File(FileReply::Reader(result)),
            ) => match result {
                Err(error) => LineStep::Added(Err(IoError::System(error))),
                Ok(reader) => {
                    let _ = self.inner.insert_reader_position(source.clone(), size);
                    let last = self.inner.insert_reader(source.clone(), reader);
                    // If this fails it's a bug
                    assert(last is None);
                    LineStep::Added(Ok(source))
                },
            },
            (state, _) => self.ask_to_add(state),
        }
    }

    /// Goes on reading lines, and asks for what is needed.
    fn ask_to_read(&mut self, state: StreamState) -> (step: LineStep<FilePath, Event, Line>)
        requires
            old(self).wf_but_stream(),
            stream_ok(old(self).platform(), old(self)@, state@),
        ensures
            final(self).wf(),
            final(self).line_turn(step) == line_asks(old(self).watching(), old(self)@, state@),
            final(self).platform() == old(self).platform(),
            final(self).adding() == old(self).adding(),
    {
        let request = match &state {
            StreamState::Events => {
                if self.events.is_waiting() {
                    match self.events.asked() {
                        Step::Ask(request) => LineRequest::Watch(request),
                        _ => LineRequest::Again,
                    }
                } else {
                    LineRequest::Again
                }
            },
            StreamState::HandleEvent(event, state) => {
                let path = event.paths[state.path_index()].clone();
                match state.await_state() {
                    HandleEventAwaitState::NewLineReader(position) => LineRequest::NewLineReader(
                        path,
                        position,
                    ),
                    _ => LineRequest::Metadata(path),
                }
            },
            StreamState::ReadLines(paths, path_index) => LineRequest::ReadLine(
                paths[*path_index].clone(),
            ),
        };
        let _ = self.stream_state.replace(state);
        LineStep::Ask(request)
    }

    /// Waits for the next event.
    fn wait_for_event(&mut self) -> (step: LineStep<FilePath, Event, Line>)
        requires
            old(self).wf_but_stream(),
            old(self).adding() is Idle,
        ensures
            final(self).wf(),
            final(self).line_turn(step) == waits(old(self).watch()@, old(self)@),
            final(self).platform() == old(self).platform(),
            final(self).adding() is Idle,
    {
        let _ = self.events.receive();
        self.ask_to_read(StreamState::Events)
    }

    /// Reads the files of an event from that place on.
    fn read_lines(&mut self, paths: Vec<FilePath>, from: usize) -> (step: LineStep<
        FilePath,
        Event,
        Line,
    >)
        requires
            old(self).wf_but_stream(),
            old(self).adding() is Idle,
        ensures
            final(self).wf(),
            final(self).line_turn(step) == read_from(
                old(self).watching(),
                old(self)@,
                path_views(paths@),
                from as nat,
            ),
            final(self).platform() == old(self).platform(),
            final(self).adding() is Idle,
    {
        let mut path_index: usize = from;
        while path_index < paths.len()
            invariant
                *self == *old(self),
                self.wf_but_stream(),
                self.adding() is Idle,
                read_from(self.watching(), self@, path_views(paths@), path_index as nat)
                    == read_from(self.watching(), self@, path_views(paths@), from as nat),
            decreases paths.len() - path_index,
        {
            if self.inner.readers().contains_key(&paths[path_index]) {
                return self.ask_to_read(StreamState::ReadLines(paths, path_index));
            }
            path_index += 1;
        }
        self.wait_for_event()
    }

    /// Goes on with an event that is being handled, and reads its files once it has
    /// been handled.
    fn handle_event(
        &mut self,
        event: Event,
        state: HandleEventState,
        reply: Option<FileReply<R>>,
    ) -> (step: LineStep<FilePath, Event, Line>)
        requires
            old(self).wf_but_stream(),
            old(self).adding() is Idle,
            reply is None ==> state@.path_index == 0,
            reply is Some ==> handling_ok(old(self).platform(), old(self)@, event@, state@),
        ensures
            final(self).wf(),
            final(self).line_turn(step) == {
                let (after, state) = match reply {
                    None => files_from(old(self).platform(), old(self)@, event@, 0),
                    Some(reply) => files_next(
                        old(self).platform(),
                        old(self)@,
                        event@,
                        state@,
                        reply,
                    ),
                };
                event_handled(old(self).watching(), after, event@, state)
            },
            final(self).platform() == old(self).platform(),
            final(self).adding() is Idle,
    {
        let mut state = state;
        poll_handle_event(self.platform, &mut self.inner, &event, &mut state, reply);
        if let HandleEventAwaitState::Idle = state.await_state() {
            self.read_lines(event.paths, 0)
        } else {
            self.ask_to_read(StreamState::HandleEvent(event, state))
        }
    }

    /// Waits for the next line; there is none if there is no file to read from. What is
    /// being waited for already is gone on with. A file that is being added is no longer.
    ///
    /// What the event watch asked for to add a file must have been answered, as for
    /// `add_file`.
    pub fn poll_next_line(&mut self) -> (step: LineStep<FilePath, Event, Line>)
        requires
            old(self).wf(),
        ensures
            final(self).wf(),
            final(self).line_turn(step) == line_start(
                old(self).watching(),
                old(self)@,
                old(self).stream(),
            ),
            final(self).platform() == old(self).platform(),
            final(self).adding() is Idle,
    {
        self.adding = AddState::Idle;
        if self.stream_state.is_transient() {
            let state = self.stream_state.replace(StreamState::Events);
            return self.ask_to_read(state);
        }
        if self.is_empty() {
            return LineStep::Line(Ok(None));
        }
        if self.events.is_handling() {
            return self.ask_to_read(StreamState::Events);
        }
        self.wait_for_event()
    }

    /// Goes on waiting for the next line with the answer to what was asked for. A file
    /// that is being added is no longer.
    pub fn resume_next_line(&mut self, reply: LineReply<FilePath, Event, String, R>) -> (step:
        LineStep<FilePath, Event, Line>)
        requires
            old(self).wf(),
        ensures
            final(self).wf(),
            final(self).line_turn(step) == line_next(
                old(self).platform(),
                old(self).watching(),
                old(self)@,
                old(self).stream(),
                reply@,
            ),
            final(self).platform() == old(self).platform(),
            final(self).adding() is Idle,
    {
        self.adding = AddState::Idle;
        let waiting = self.events.is_waiting();
        let state = self.stream_state.replace(StreamState::Events);
        match (state, reply) {
            (StreamState::Events, LineReply::Watch(reply)) if waiting => {
                match self.events.resume(reply) {
                    Step::Next(Ok(Some(event))) => {
                        self.handle_event(event, HandleEventState::new(), None)
                    },
                    Step::Next(Err(error)) => LineStep::Line(Err(error)),
                    _ => self.ask_to_read(StreamState::Events),
                }
            },
            (StreamState::Events, LineReply::Again) if !waiting => self.wait_for_event(),
            (StreamState::HandleEvent(event, state), LineReply::File(reply)) => {
                self.handle_event(event, state, Some(reply))
            },
            (StreamState::ReadLines(paths, path_index), LineReply::Line(Ok(Some(line)))) => {
                let line = Line::new(paths[path_index].clone(), line);
                let _ = self.stream_state.replace(StreamState::ReadLines(paths, path_index));
                LineStep::Line(Ok(Some(line)))
            },
            (StreamState::ReadLines(paths, path_index), LineReply::Line(Ok(None))) => {
                assert(path_index < paths.len());
                self.read_lines(paths, path_index + 1)
            },
            (StreamState::ReadLines(_, _), LineReply::Line(Err(error))) => LineStep::Line(
                Err(IoError::System(error)),
            ),
            (state, _) => self.ask_to_read(state),
        }
    }
}

/// Every file with a reader has a position.
pub open spec fn has_positions<R>(inner: InnerView<R>) -> bool {
    forall|path: PathView| #[trigger]
        inner.readers.contains_key(path) ==> inner.positions.contains_key(path)
}

} // verus!
