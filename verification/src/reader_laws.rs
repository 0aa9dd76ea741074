//! What the reading of lines comes to when all that it asks for is answered.
use crate::absolutify::absolutified;
use crate::add_file::created;
use crate::error::{io_error_of, IoError, NotifyError};
use crate::event::{EventKind, EventView, Platform};
use crate::events::{
    adding, handle_from, next_turn, path_next, task_step, without_path, TaskView, Turn,
};
use crate::events_laws::{
    add_outcome, file_that_appears_is_watched, handled, handled_event_has_no_more_paths,
    handling_asks_or_ends, handling_comes_to_its_outcome, run,
};
use crate::handle_event::{
    event_matters, file_opened, file_sized, files_from, files_next, FileReply,
    HandleEventAwaitState, HandleEventStateView,
};
use crate::inner::InnerView;
use crate::line::LineView;
use crate::path::PathView;
use crate::reader::{
    add_begins, add_ends, add_line_next, event_awaited, event_handled, has_positions, line_next,
    line_start, read_from, registering, stream_ok, stream_request, waits, AddTurn, LineReply,
    LineRequest, LineStep, LineTurn, StreamStateView, Watching,
};
use crate::request::{Answers, Reply};
use crate::watch::WatchView;
use vstd::prelude::*;

verus! {

/// What is answered to every request, at one moment. `R` is the type of readers.
#[verifier::reject_recursive_types(R)]
pub struct FileAnswers<R> {
    /// What the event watch is answered.
    pub watch: Answers,
    /// The size of a file.
    pub size: spec_fn(PathView) -> Result<u64, std::io::Error>,
    /// A reader of a file, from a position on or else from its start.
    pub open: spec_fn(PathView, Option<u64>) -> Result<R, std::io::Error>,
}

impl<R> FileAnswers<R> {
    /// What the handling of an event waits for.
    pub open spec fn awaited(self, event: EventView, state: HandleEventStateView) -> FileReply<R> {
        let path = event.paths[state.path_index as int];
        match state.await_state {
            HandleEventAwaitState::NewLineReader(position) => FileReply::Reader(
                (self.open)(path, position),
            ),
            _ => FileReply::Metadata((self.size)(path)),
        }
    }

    /// The answer to one request. What a file holds is not answered here: to a request
    /// for a line there is none.
    pub open spec fn to(self, request: LineRequest<PathView, EventView>) -> LineReply<
        PathView,
        EventView,
        Seq<char>,
        R,
    > {
        match request {
            LineRequest::Watch(request) => LineReply::Watch(self.watch.to(request)),
            LineRequest::Exists(path) => LineReply::Exists((self.watch.exists)(path)),
            LineRequest::Metadata(path) => LineReply::File(
                FileReply::Metadata((self.size)(path)),
            ),
            LineRequest::NewLineReader(path, position) => LineReply::File(
                FileReply::Reader((self.open)(path, position)),
            ),
            LineRequest::ReadLine(_) => LineReply::Line(Ok(None)),
            LineRequest::Again => LineReply::Again,
        }
    }
}

/// What is known of the files once one file of an event has been dealt with.
pub open spec fn file_outcome<R>(
    inner: InnerView<R>,
    kind: EventKind,
    path: PathView,
    answers: FileAnswers<R>,
) -> InnerView<R> {
    if kind is Create {
        match (answers.open)(path, None) {
            Ok(reader) => inner.without_pending(path).with_reader(path, reader).with_position(
                path,
                0,
            ),
            Err(_) => inner.without_pending(path),
        }
    } else {
        match (answers.size)(path) {
            Ok(size) => {
                let (after, open) = file_sized(inner, path, size);
                match open {
                    Some(position) => match (answers.open)(path, position) {
                        Ok(reader) => after.with_reader(path, reader),
                        Err(_) => after,
                    },
                    None => after,
                }
            },
            Err(_) => inner,
        }
    }
}

/// What is known of the files once an event has been handled from the path at that
/// place on.
pub open spec fn files_handled<R>(
    platform: Platform,
    inner: InnerView<R>,
    event: EventView,
    index: nat,
    answers: FileAnswers<R>,
) -> InnerView<R>
    decreases event.paths.len() - index,
{
    if index >= event.paths.len() || !event_matters(platform, event.kind) {
        inner
    } else {
        files_handled(
            platform,
            file_outcome(inner, event.kind, event.paths[index as int], answers),
            event,
            index + 1nat,
            answers,
        )
    }
}

/// The handling of an event, and at most `turns` more steps of it with what they
/// wait for.
pub open spec fn files_run<R>(
    platform: Platform,
    inner: InnerView<R>,
    event: EventView,
    state: HandleEventStateView,
    answers: FileAnswers<R>,
    turns: nat,
) -> (InnerView<R>, HandleEventStateView)
    decreases turns,
{
    if turns == 0 || state.await_state is Idle {
        (inner, state)
    } else {
        let (after, next) = files_next(
            platform,
            inner,
            event,
            state,
            answers.awaited(event, state),
        );
        files_run(platform, after, event, next, answers, (turns - 1) as nat)
    }
}

/// What has been handled stays handled.
proof fn lemma_files_run_more<R>(
    platform: Platform,
    inner: InnerView<R>,
    event: EventView,
    state: HandleEventStateView,
    answers: FileAnswers<R>,
    few: nat,
    many: nat,
)
    requires
        few <= many,
        files_run(platform, inner, event, state, answers, few).1.await_state is Idle,
    ensures
        files_run(platform, inner, event, state, answers, many) == files_run(
            platform,
            inner,
            event,
            state,
            answers,
            few,
        ),
    decreases few,
{
    if few > 0 && state.await_state !is Idle {
        let (after, next) = files_next(
            platform,
            inner,
            event,
            state,
            answers.awaited(event, state),
        );
        lemma_files_run_more(
            platform,
            after,
            event,
            next,
            answers,
            (few - 1) as nat,
            (many - 1) as nat,
        );
    }
}

/// With two answers at most for each path, an event has been handled: its files are
/// known as `files_handled` says.
pub proof fn handling_opens_files<R>(
    platform: Platform,
    inner: InnerView<R>,
    event: EventView,
    index: nat,
    answers: FileAnswers<R>,
)
    requires
        index <= event.paths.len(),
    ensures
        ({
            let (after, state) = files_from(platform, inner, event, index);
            let turns = (2 * (event.paths.len() - index)) as nat;
            files_run(platform, after, event, state, answers, turns) == (
                files_handled(platform, inner, event, index, answers),
                HandleEventStateView {
                    path_index: event.paths.len(),
                    await_state: HandleEventAwaitState::Idle,
                },
            )
        }),
    decreases event.paths.len() - index,
{
    if index < event.paths.len() && event_matters(platform, event.kind) {
        let path = event.paths[index as int];
        let done = file_outcome(inner, event.kind, path, answers);
        let turns = (2 * (event.paths.len() - index)) as nat;
        handling_opens_files(platform, done, event, index + 1nat, answers);
        let (first, state) = files_from(platform, inner, event, index);
        let (second, next) = files_next(
            platform,
            first,
            event,
            state,
            answers.awaited(event, state),
        );
        let (rest, last) = files_from(platform, done, event, index + 1nat);
        lemma_files_run_more(
            platform,
            rest,
            event,
            last,
            answers,
            (turns - 2) as nat,
            (turns - 1) as nat,
        );
        assert(files_run(platform, first, event, state, answers, turns) == files_run(
            platform,
            second,
            event,
            next,
            answers,
            (turns - 1) as nat,
        ));
        if next.path_index == index && next.await_state is NewLineReader {
            let third = files_next(
                platform,
                second,
                event,
                next,
                answers.awaited(event, next),
            );
            assert(third == (rest, last));
        } else {
            assert((second, next) == (rest, last));
        }
    }
}

/// An event of a kind that does not matter changes nothing about the files.
pub proof fn other_events_leave_files<R>(
    platform: Platform,
    inner: InnerView<R>,
    event: EventView,
    answers: FileAnswers<R>,
)
    requires
        !event_matters(platform, event.kind),
    ensures
        files_handled(platform, inner, event, 0, answers) == inner,
{
}

/// A file that was created is read from its start.
pub proof fn created_file_is_read_from_its_start<R>(
    platform: Platform,
    inner: InnerView<R>,
    event: EventView,
    path: PathView,
    answers: FileAnswers<R>,
)
    requires
        event.kind is Create,
        event_matters(platform, event.kind),
        event.paths == seq![path],
        (answers.open)(path, None) is Ok,
    ensures
        ({
            let after = files_handled(platform, inner, event, 0, answers);
            &&& after.readers == inner.readers.insert(path, (answers.open)(path, None)->Ok_0)
            &&& after.positions == inner.positions.insert(path, 0)
            &&& after.pending == inner.pending.remove(path)
        }),
{
    reveal_with_fuel(files_handled, 2);
    assert(event.paths[0] == path);
}

/// A file that is smaller than it was has rolled, and is read from its start again.
pub proof fn rolled_file_is_read_from_its_start<R>(
    platform: Platform,
    inner: InnerView<R>,
    event: EventView,
    path: PathView,
    answers: FileAnswers<R>,
)
    requires
        event.kind is Modify,
        event_matters(platform, event.kind),
        event.paths == seq![path],
        inner.positions.contains_key(path),
        (answers.size)(path) is Ok,
        (answers.size)(path)->Ok_0 < inner.positions[path],
        (answers.open)(path, None) is Ok,
    ensures
        ({
            let after = files_handled(platform, inner, event, 0, answers);
            &&& after.readers == inner.readers.insert(path, (answers.open)(path, None)->Ok_0)
            &&& after.positions == inner.positions.insert(path, 0)
            &&& after.pending == inner.pending
        }),
{
    reveal_with_fuel(files_handled, 2);
    assert(event.paths[0] == path);
}

/// A file that is no smaller than it was keeps its reader, and its size is noted.
pub proof fn grown_file_keeps_its_reader<R>(
    platform: Platform,
    inner: InnerView<R>,
    event: EventView,
    path: PathView,
    answers: FileAnswers<R>,
)
    requires
        event.kind is Modify,
        event_matters(platform, event.kind),
        event.paths == seq![path],
        inner.positions.contains_key(path),
        (answers.size)(path) is Ok,
        (answers.size)(path)->Ok_0 >= inner.positions[path],
    ensures
        ({
            let after = files_handled(platform, inner, event, 0, answers);
            &&& after.readers == inner.readers
            &&& after.positions == inner.positions.insert(path, (answers.size)(path)->Ok_0)
            &&& after.pending == inner.pending
        }),
{
    reveal_with_fuel(files_handled, 2);
    assert(event.paths[0] == path);
}

/// A file that comes to be known by its modification, such as one that another file
/// was renamed to, is read from its end.
pub proof fn modified_file_is_read_from_its_end<R>(
    platform: Platform,
    inner: InnerView<R>,
    event: EventView,
    path: PathView,
    answers: FileAnswers<R>,
)
    requires
        event.kind is Modify,
        event_matters(platform, event.kind),
        event.paths == seq![path],
        !inner.positions.contains_key(path),
        (answers.size)(path) is Ok,
        (answers.open)(path, Some((answers.size)(path)->Ok_0)) is Ok,
    ensures
        ({
            let size = (answers.size)(path)->Ok_0;
            let after = files_handled(platform, inner, event, 0, answers);
            &&& after.readers == inner.readers.insert(
                path,
                (answers.open)(path, Some(size))->Ok_0,
            )
            &&& after.positions == inner.positions.insert(path, size)
            &&& after.pending == inner.pending.remove(path)
        }),
{
    reveal_with_fuel(files_handled, 2);
    assert(event.paths[0] == path);
}

/// The handling of an event takes no reader and no position away, and gives every
/// file that it gives a reader a position too.
pub proof fn handling_keeps_readers<R>(
    platform: Platform,
    inner: InnerView<R>,
    event: EventView,
    index: nat,
    answers: FileAnswers<R>,
)
    ensures
        ({
            let after = files_handled(platform, inner, event, index, answers);
            &&& inner.readers.dom().subset_of(after.readers.dom())
            &&& inner.positions.dom().subset_of(after.positions.dom())
            &&& has_positions(inner) ==> has_positions(after)
        }),
    decreases event.paths.len() - index,
{
    if index < event.paths.len() && event_matters(platform, event.kind) {
        let done = file_outcome(inner, event.kind, event.paths[index as int], answers);
        handling_keeps_readers(platform, done, event, index + 1nat, answers);
        assert(inner.readers.dom().subset_of(done.readers.dom()));
        assert(inner.positions.dom().subset_of(done.positions.dom()));
        if has_positions(inner) {
            assert(has_positions(done));
        }
    }
}

/// What comes of the adding of a file: what is watched and what is known of the files
/// then, and the path that its lines come under or the error.
pub open spec fn add_line_outcome<R>(
    watch: WatchView,
    inner: InnerView<R>,
    path: PathView,
    from_start: bool,
    answers: FileAnswers<R>,
) -> (WatchView, InnerView<R>, Result<PathView, IoError>) {
    let (after, result) = add_outcome(watch, path, answers.watch);
    match result {
        Err(error) => (after, inner, Err(error)),
        Ok(source) => if inner.reader_exists(source) {
            (after, inner, Ok(source))
        } else if !(answers.watch.exists)(source) {
            (after, inner.with_pending(source), Ok(source))
        } else if !from_start && (answers.size)(source) is Err {
            (after, inner, Err(IoError::System((answers.size)(source)->Err_0)))
        } else {
            let size = if from_start { 0u64 } else { (answers.size)(source)->Ok_0 };
            match (answers.open)(source, Some(size)) {
                Err(error) => (after, inner, Err(IoError::System(error))),
                Ok(reader) => (
                    after,
                    inner.with_position(source, size).with_reader(source, reader),
                    Ok(source),
                ),
            }
        },
    }
}

/// A turn of the adding of a file, and at most `turns` more with the answers to what
/// they ask for.
pub open spec fn add_line_run<R>(
    platform: Platform,
    turn: AddTurn<R>,
    answers: FileAnswers<R>,
    turns: nat,
) -> AddTurn<R>
    decreases turns,
{
    match turn.step {
        LineStep::Ask(request) if turns > 0 => add_line_run(
            platform,
            add_line_next(platform, turn.events, turn.inner, turn.state, answers.to(request)),
            answers,
            (turns - 1) as nat,
        ),
        _ => turn,
    }
}

/// What has been added stays added.
proof fn lemma_add_line_run_more<R>(
    platform: Platform,
    turn: AddTurn<R>,
    answers: FileAnswers<R>,
    few: nat,
    many: nat,
)
    requires
        few <= many,
        add_line_run(platform, turn, answers, few).step !is Ask,
    ensures
        add_line_run(platform, turn, answers, many) == add_line_run(platform, turn, answers, few),
    decreases few,
{
    if turn.step is Ask && few > 0 {
        lemma_add_line_run_more(
            platform,
            add_line_next(
                platform,
                turn.events,
                turn.inner,
                turn.state,
                answers.to(turn.step->Ask_0),
            ),
            answers,
            (few - 1) as nat,
            (many - 1) as nat,
        );
    }
}

/// A file is first added to the event watch.
proof fn lemma_register_run<R>(
    platform: Platform,
    turn: Turn,
    inner: InnerView<R>,
    from_start: bool,
    answers: FileAnswers<R>,
    turns: nat,
    rest: nat,
)
    requires
        (turn.task is Adding && turn.step == task_step(turn.task)) || turn.step is Added,
        run(platform, turn, answers.watch, turns).step is Added,
        add_line_run(
            platform,
            registering(run(platform, turn, answers.watch, turns), inner, from_start),
            answers,
            rest,
        ).step !is Ask,
    ensures
        add_line_run(platform, registering(turn, inner, from_start), answers, turns + rest)
            == add_line_run(
            platform,
            registering(run(platform, turn, answers.watch, turns), inner, from_start),
            answers,
            rest,
        ),
    decreases turns,
{
    if turn.step is Added {
        lemma_add_line_run_more(
            platform,
            registering(turn, inner, from_start),
            answers,
            rest,
            turns + rest,
        );
    } else {
        let request = turn.step->Ask_0;
        let next = next_turn(platform, turn.watch, turn.task, answers.watch.to(request));
        lemma_register_run(
            platform,
            next,
            inner,
            from_start,
            answers,
            (turns - 1) as nat,
            rest,
        );
    }
}

/// To add a file is to come to the outcome, with ten answers at most.
pub proof fn adding_comes_to_its_outcome<R>(
    platform: Platform,
    watch: WatchView,
    inner: InnerView<R>,
    path: PathView,
    from_start: bool,
    answers: FileAnswers<R>,
)
    ensures
        add_line_run(platform, add_begins(watch, inner, path, from_start), answers, 10) == {
            let (after, files, result) = add_line_outcome(watch, inner, path, from_start, answers);
            add_ends(Watching { watch: after, task: TaskView::Idle }, files, result)
        },
{
    reveal_with_fuel(add_line_run, 4);
    crate::events_laws::adding_comes_to_its_outcome(platform, watch, path, false, answers.watch);
    let turn = adding(watch, path, false);
    lemma_register_run(platform, turn, inner, from_start, answers, 7, 3);
}

/// A file that was added has a reader or will have one when it exists, and the event
/// watch holds it under the same path. One that could not be added leaves what is known
/// of the files as it was.
pub proof fn added_file_is_watched_and_read<R>(
    watch: WatchView,
    inner: InnerView<R>,
    path: PathView,
    from_start: bool,
    answers: FileAnswers<R>,
)
    ensures
        match add_line_outcome(watch, inner, path, from_start, answers) {
            (after, files, Ok(source)) => after.watch_exists(source) && files.reader_exists(source)
                && !files.is_empty(),
            (_, files, Err(_)) => files == inner,
        },
{
    match add_line_outcome(watch, inner, path, from_start, answers) {
        (_, files, Ok(source)) => {
            assert(files.readers.contains_key(source) || files.pending.contains(source));
        },
        (_, _, Err(_)) => {},
    }
}

/// To add a file again changes nothing, and yields the same path or error.
pub proof fn adding_again_changes_nothing<R>(
    watch: WatchView,
    inner: InnerView<R>,
    path: PathView,
    from_start: bool,
    answers: FileAnswers<R>,
)
    ensures
        ({
            let outcome = add_line_outcome(watch, inner, path, from_start, answers);
            add_line_outcome(outcome.0, outcome.1, path, from_start, answers) == outcome
        }),
{
    crate::events_laws::adding_again_changes_nothing(watch, path, answers.watch);
}

/// An existing file is read from its start, or else from its end, as was asked.
pub proof fn added_file_is_read_from_where_asked<R>(
    watch: WatchView,
    inner: InnerView<R>,
    path: PathView,
    from_start: bool,
    answers: FileAnswers<R>,
)
    requires
        add_line_outcome(watch, inner, path, from_start, answers).2 is Ok,
        ({
            let source = add_line_outcome(watch, inner, path, from_start, answers).2->Ok_0;
            (answers.watch.exists)(source) && !inner.reader_exists(source)
        }),
    ensures
        ({
            let (_, after, result) = add_line_outcome(watch, inner, path, from_start, answers);
            let source = result->Ok_0;
            let position = if from_start { 0u64 } else { (answers.size)(source)->Ok_0 };
            &&& after.positions[source] == position
            &&& (answers.open)(source, Some(position)) == Ok::<R, std::io::Error>(
                after.readers[source],
            )
        }),
{
}

/// A missing file that is created, for the first time or after a rotation, is watched
/// and read from its start: the event that says so passes the event watch as it is, and
/// opens the file. The path must not itself be that of a directory that is watched.
pub proof fn missing_file_that_is_created_is_read<R>(
    platform: Platform,
    watch: WatchView,
    inner: InnerView<R>,
    path: PathView,
    answers: FileAnswers<R>,
)
    requires
        watch.wf(),
        watch.pending.contains(path),
        !watch.directories.contains_key(path),
        absolutified(path, true, answers.watch) == Ok::<PathView, IoError>(path),
        (answers.watch.exists)(path),
        !(answers.watch.is_dir)(path),
        (answers.watch.watch)(path) is Ok,
        (answers.open)(path, None) is Ok,
    ensures
        ({
            let (watched, event) = handled(platform, watch, created(path), 0, answers.watch);
            let after = files_handled(platform, inner, event, 0, answers);
            &&& event == created(path)
            &&& watched.files == watch.files.insert(path)
            &&& after.readers == inner.readers.insert(path, (answers.open)(path, None)->Ok_0)
            &&& after.positions == inner.positions.insert(path, 0)
            &&& after.pending == inner.pending.remove(path)
        }),
{
    file_that_appears_is_watched(platform, watch, created(path), path, answers.watch);
    created_file_is_read_from_its_start(platform, inner, created(path), path, answers);
}

/// An error in place of an event is handed on as it is, and then the next event is waited
/// for: nothing else has changed.
pub proof fn stream_error_is_handed_on<R>(
    platform: Platform,
    watch: WatchView,
    inner: InnerView<R>,
    error: NotifyError,
)
    ensures
        ({
            let turn = line_next(
                platform,
                Watching { watch, task: TaskView::Receiving },
                inner,
                StreamStateView::Events,
                LineReply::Watch(Reply::Received(Some(Err(error)))),
            );
            &&& turn.step == LineStep::<PathView, EventView, LineView>::Line(
                Err(io_error_of(error)),
            )
            &&& turn.inner == inner && turn.state is Events && turn.events.watch == watch
            &&& !inner.is_empty() ==> line_start(turn.events, turn.inner, turn.state) == waits(
                watch,
                inner,
            )
        }),
{
}

/// Whether there is a file to read from, now or later, or one that is being opened.
pub open spec fn has_files<R>(inner: InnerView<R>, state: StreamStateView) -> bool {
    !inner.is_empty() || (state matches StreamStateView::HandleEvent(_, state)
        && state.await_state is NewLineReader)
}

/// Whether the reply gives up the last file: it was only expected, it cannot be opened,
/// and no other file is opened next.
pub open spec fn gives_up<R>(
    inner: InnerView<R>,
    state: StreamStateView,
    reply: LineReply<PathView, EventView, Seq<char>, R>,
) -> bool {
    &&& inner.is_empty()
    &&& reply matches LineReply::File(FileReply::Reader(Err(_)))
    &&& state matches StreamStateView::HandleEvent(event, state) && !(event.kind is Create
        && state.path_index + 1 < event.paths.len())
}

/// As long as there is a file to read from, a line is waited for: that there is none
/// is not said, and there goes on being a file, unless the last one is given up.
pub proof fn lines_do_not_end<R>(
    platform: Platform,
    events: Watching,
    inner: InnerView<R>,
    state: StreamStateView,
    reply: LineReply<PathView, EventView, Seq<char>, R>,
)
    requires
        stream_ok(platform, inner, state),
        has_files(inner, state),
    ensures
        line_start(events, inner, state).step is Ask,
        line_next(platform, events, inner, state, reply).step != LineStep::<
            PathView,
            EventView,
            LineView,
        >::Line(Ok(None)),
        ({
            let turn = line_next(platform, events, inner, state, reply);
            has_files(turn.inner, turn.state) <==> !gives_up(inner, state, reply)
        }),
{
    assert forall|events: Watching, inner: InnerView<R>, paths: Seq<PathView>, index: nat|
        true implies {
        let turn = #[trigger] read_from(events, inner, paths, index);
        turn.step is Ask && has_files(turn.inner, turn.state) == !inner.is_empty()
    } by {
        lemma_reading(events, inner, paths, index);
    }
    match (state, reply) {
        (
            StreamStateView::HandleEvent(event, state),
            LineReply::File(FileReply::Reader(Ok(reader))),
        ) => {
            let path = event.paths[state.path_index as int];
            let opened = file_opened(inner, event.kind, path, reader);
            assert(opened.readers.contains_key(path));
            assert(!opened.is_empty());
            if event.kind is Create {
                let next = opened.without_pending(event.paths[(state.path_index + 1) as int]);
                assert(next.readers.contains_key(path));
                assert(!next.is_empty());
            }
        },
        _ => {},
    }
}

/// The reading of the files of an event does not change what is known of them, and
/// asks for a line or the next event.
proof fn lemma_reading<R>(
    events: Watching,
    inner: InnerView<R>,
    paths: Seq<PathView>,
    index: nat,
)
    ensures
        read_from(events, inner, paths, index).inner == inner,
        read_from(events, inner, paths, index).state !is HandleEvent,
        read_from(events, inner, paths, index).step matches LineStep::Ask(request) && !answerable(
            request,
        ),
    decreases paths.len() - index,
{
    if index < paths.len() && !inner.readers.contains_key(paths[index as int]) {
        lemma_reading(events, inner, paths, index + 1nat);
    }
}

/// How readers read. `R` is the type of readers.
#[verifier::reject_recursive_types(R)]
pub struct Reading<R> {
    /// The file that a reader has open. What is at a path can change, what a reader has
    /// open does not.
    pub file: spec_fn(R) -> int,
    /// How many lines a reader has read.
    pub read: spec_fn(R) -> nat,
    /// A reader once it has read a line more.
    pub next: spec_fn(R) -> R,
}

impl<R> Reading<R> {
    /// To read a line is to have read one more of the same file.
    pub open spec fn wf(self) -> bool {
        forall|reader: R| #![trigger (self.next)(reader)]
            (self.file)((self.next)(reader)) == (self.file)(reader) && (self.read)(
                (self.next)(reader),
            ) == (self.read)(reader) + 1
    }

    /// The lines that a reader has yet to read, where the files hold these lines.
    pub open spec fn unread(self, reader: R, contents: spec_fn(int) -> Seq<Seq<char>>) -> Seq<
        Seq<char>,
    > {
        let lines = contents((self.file)(reader));
        if (self.read)(reader) <= lines.len() {
            lines.skip((self.read)(reader) as int)
        } else {
            Seq::empty()
        }
    }

    /// A reader once it has read so many lines more.
    pub open spec fn after(self, reader: R, lines: nat) -> R
        decreases lines,
    {
        if lines == 0 {
            reader
        } else {
            self.after((self.next)(reader), (lines - 1) as nat)
        }
    }

    /// A reader once it has read all that there is.
    pub open spec fn caught_up(self, reader: R, contents: spec_fn(int) -> Seq<Seq<char>>) -> R {
        self.after(reader, self.unread(reader, contents).len())
    }

    /// A reader that has read some lines more has the same file open.
    pub proof fn lemma_after(self, reader: R, lines: nat)
        requires
            self.wf(),
        ensures
            (self.file)(self.after(reader, lines)) == (self.file)(reader),
            (self.read)(self.after(reader, lines)) == (self.read)(reader) + lines,
        decreases lines,
    {
        if lines > 0 {
            self.lemma_after((self.next)(reader), (lines - 1) as nat);
        }
    }
}

/// Lines of a file, with its path.
pub open spec fn labelled(path: PathView, lines: Seq<Seq<char>>) -> Seq<LineView> {
    lines.map_values(|line: Seq<char>| LineView { source: path, line })
}

/// The lines that the files of an event have left to read, from the file at that place
/// on, and what is known of the files once they are read: those of each file with a
/// reader, in the order of the files and as they stand there.
pub open spec fn lines_of<R>(
    inner: InnerView<R>,
    paths: Seq<PathView>,
    index: nat,
    reading: Reading<R>,
    contents: spec_fn(int) -> Seq<Seq<char>>,
) -> (Seq<LineView>, InnerView<R>)
    decreases paths.len() - index,
{
    if index >= paths.len() {
        (Seq::empty(), inner)
    } else {
        let path = paths[index as int];
        if inner.readers.contains_key(path) {
            let reader = inner.readers[path];
            let (rest, end) = lines_of(
                inner.with_reader(path, reading.caught_up(reader, contents)),
                paths,
                index + 1nat,
                reading,
                contents,
            );
            (labelled(path, reading.unread(reader, contents)) + rest, end)
        } else {
            lines_of(inner, paths, index + 1nat, reading, contents)
        }
    }
}

/// The lines that a turn and at most `reads` attempts to read yield, and what it
/// comes to, where the files hold these lines. Each line is waited for anew.
pub open spec fn read_all<R>(
    platform: Platform,
    turn: LineTurn<R>,
    reading: Reading<R>,
    contents: spec_fn(int) -> Seq<Seq<char>>,
    reads: nat,
) -> (Seq<LineView>, LineTurn<R>)
    decreases reads,
{
    match turn.step {
        LineStep::Ask(LineRequest::ReadLine(path)) if reads > 0 => {
            let reader = turn.inner.readers[path];
            let left = reading.unread(reader, contents);
            let (inner, reply) = if left.len() > 0 {
                (
                    turn.inner.with_reader(path, (reading.next)(reader)),
                    LineReply::Line(Ok(Some(left.first()))),
                )
            } else {
                (turn.inner, LineReply::Line(Ok(None)))
            };
            let next = line_next(platform, turn.events, inner, turn.state, reply);
            match next.step {
                LineStep::Line(Ok(Some(line))) => {
                    let (lines, end) = read_all(
                        platform,
                        line_start(next.events, next.inner, next.state),
                        reading,
                        contents,
                        (reads - 1) as nat,
                    );
                    (seq![line] + lines, end)
                },
                _ => read_all(platform, next, reading, contents, (reads - 1) as nat),
            }
        },
        _ => (Seq::empty(), turn),
    }
}

/// Every line that the files of an event have left to read is yielded, once and in order
/// and with the path of its file, and then the next event is waited for.
pub proof fn every_line_is_yielded<R>(
    platform: Platform,
    events: Watching,
    inner: InnerView<R>,
    paths: Seq<PathView>,
    index: nat,
    reading: Reading<R>,
    contents: spec_fn(int) -> Seq<Seq<char>>,
    reads: nat,
)
    requires
        reading.wf(),
        index <= paths.len(),
        reads >= lines_of(inner, paths, index, reading, contents).0.len() + (paths.len() - index),
    ensures
        read_all(platform, read_from(events, inner, paths, index), reading, contents, reads) == {
            let (lines, after) = lines_of(inner, paths, index, reading, contents);
            (lines, waits(events.watch, after))
        },
    decreases paths.len() - index, reads,
{
    if index < paths.len() {
        let path = paths[index as int];
        if !inner.readers.contains_key(path) {
            every_line_is_yielded(
                platform,
                events,
                inner,
                paths,
                index + 1nat,
                reading,
                contents,
                reads,
            );
        } else {
            let reader = inner.readers[path];
            let left = reading.unread(reader, contents);
            if left.len() > 0 {
                let next = (reading.next)(reader);
                let further = inner.with_reader(path, next);
                assert(reading.unread(next, contents) =~= left.drop_first());
                assert(labelled(path, left) =~= labelled(path, seq![left.first()]) + labelled(
                    path,
                    left.drop_first(),
                ));
                let done = reading.caught_up(reader, contents);
                assert(reading.caught_up(next, contents) == done);
                assert(further.with_reader(path, done) =~= inner.with_reader(path, done));
                let (lines, after) = lines_of(further, paths, index, reading, contents);
                assert(lines_of(inner, paths, index, reading, contents).0 =~= labelled(
                    path,
                    seq![left.first()],
                ) + lines);
                assert(labelled(path, seq![left.first()]) =~= seq![
                    LineView { source: path, line: left.first() },
                ]);
                every_line_is_yielded(
                    platform,
                    events,
                    further,
                    paths,
                    index,
                    reading,
                    contents,
                    (reads - 1) as nat,
                );
            } else {
                assert(inner.with_reader(path, reader) =~= inner);
                assert(labelled(path, left) =~= Seq::empty());
                let (lines, after) = lines_of(inner, paths, index + 1nat, reading, contents);
                assert(lines_of(inner, paths, index, reading, contents).0 =~= lines);
                every_line_is_yielded(
                    platform,
                    events,
                    inner,
                    paths,
                    index + 1nat,
                    reading,
                    contents,
                    (reads - 1) as nat,
                );
            }
        }
    }
}

/// Whether a request is neither for a line nor for an event.
pub open spec fn answerable(request: LineRequest<PathView, EventView>) -> bool {
    match request {
        LineRequest::Watch(request) => request !is Receive,
        LineRequest::ReadLine(_) => false,
        LineRequest::Again => false,
        _ => true,
    }
}

/// A turn of the reading of lines, and at most `turns` more with the answers to what
/// they ask for, up to where a line or an event is asked for.
pub open spec fn line_run<R>(
    platform: Platform,
    turn: LineTurn<R>,
    answers: FileAnswers<R>,
    turns: nat,
) -> LineTurn<R>
    decreases turns,
{
    match turn.step {
        LineStep::Ask(request) if turns > 0 && answerable(request) => line_run(
            platform,
            line_next(platform, turn.events, turn.inner, turn.state, answers.to(request)),
            answers,
            (turns - 1) as nat,
        ),
        _ => turn,
    }
}

/// Whether there is nothing to answer but for lines and events.
spec fn at_rest<R>(turn: LineTurn<R>) -> bool {
    turn.step matches LineStep::Ask(request) ==> !answerable(request)
}

/// What is at rest stays at rest.
proof fn lemma_line_run_more<R>(
    platform: Platform,
    turn: LineTurn<R>,
    answers: FileAnswers<R>,
    few: nat,
    many: nat,
)
    requires
        few <= many,
        at_rest(line_run(platform, turn, answers, few)),
    ensures
        line_run(platform, turn, answers, many) == line_run(platform, turn, answers, few),
    decreases few,
{
    if !at_rest(turn) && few > 0 {
        lemma_line_run_more(
            platform,
            line_next(
                platform,
                turn.events,
                turn.inner,
                turn.state,
                answers.to(turn.step->Ask_0),
            ),
            answers,
            (few - 1) as nat,
            (many - 1) as nat,
        );
    }
}

/// The handling of an event by the event watch is part of the reading of lines.
proof fn lemma_watch_run<R>(
    platform: Platform,
    turn: Turn,
    inner: InnerView<R>,
    answers: FileAnswers<R>,
    turns: nat,
    rest: nat,
)
    requires
        (turn.task is Handling && turn.step == task_step(turn.task)) || turn.step is Next,
        run(platform, turn, answers.watch, turns).step is Next,
        at_rest(
            line_run(
                platform,
                event_awaited(platform, run(platform, turn, answers.watch, turns), inner),
                answers,
                rest,
            ),
        ),
    ensures
        line_run(platform, event_awaited(platform, turn, inner), answers, turns + rest)
            == line_run(
            platform,
            event_awaited(platform, run(platform, turn, answers.watch, turns), inner),
            answers,
            rest,
        ),
    decreases turns,
{
    if turn.step is Next {
        lemma_line_run_more(
            platform,
            event_awaited(platform, turn, inner),
            answers,
            rest,
            turns + rest,
        );
    } else {
        let request = turn.step->Ask_0;
        assert(answerable(LineRequest::Watch(request)));
        let next = next_turn(platform, turn.watch, turn.task, answers.watch.to(request));
        let event = turn.task->Handling_0;
        let index = turn.task->Handling_1;
        let (after, _) = path_next(
            turn.watch,
            event.paths[index as int],
            turn.task->Handling_2,
            answers.watch.to(request),
        );
        handling_asks_or_ends(platform, after, event, index + 1nat);
        handling_asks_or_ends(platform, after, without_path(event, index as int), index);
        lemma_watch_run(platform, next, inner, answers, (turns - 1) as nat, rest);
    }
}

/// The handling of an event is part of the reading of lines.
proof fn lemma_open_run<R>(
    platform: Platform,
    events: Watching,
    inner: InnerView<R>,
    event: EventView,
    state: HandleEventStateView,
    answers: FileAnswers<R>,
    turns: nat,
)
    ensures
        line_run(platform, event_handled(events, inner, event, state), answers, turns) == {
            let (after, end) = files_run(platform, inner, event, state, answers, turns);
            event_handled(events, after, event, end)
        },
    decreases turns,
{
    if state.await_state is Idle {
        lemma_reading(events, inner, event.paths, 0);
    } else if turns > 0 {
        let request = stream_request(events, StreamStateView::HandleEvent(event, state));
        assert(answers.to(request) == LineReply::<PathView, EventView, Seq<char>, R>::File(
            answers.awaited(event, state),
        ));
        let (after, next) = files_next(
            platform,
            inner,
            event,
            state,
            answers.awaited(event, state),
        );
        lemma_open_run(platform, events, after, event, next, answers, (turns - 1) as nat);
    }
}

/// The reading of lines once it hears of an event: the lines that the event and at most
/// `reads` attempts to read yield, and what it comes to.
pub open spec fn heard<R>(
    platform: Platform,
    turn: LineTurn<R>,
    moment: Moment<R>,
    reading: Reading<R>,
    reads: nat,
) -> (Seq<LineView>, LineTurn<R>) {
    let begun = line_next(
        platform,
        turn.events,
        turn.inner,
        turn.state,
        LineReply::Watch(Reply::Received(Some(Ok(moment.event)))),
    );
    let turns = (11 * moment.event.paths.len()) as nat;
    read_all(
        platform,
        line_run(platform, begun, moment.answers, turns),
        reading,
        moment.contents,
        reads,
    )
}

/// An event, and all that is answered while it is handled and its files are read.
#[verifier::reject_recursive_types(R)]
pub struct Moment<R> {
    pub event: EventView,
    pub answers: FileAnswers<R>,
    /// The lines that the files hold.
    pub contents: spec_fn(int) -> Seq<Seq<char>>,
}

/// An event passes the event watch, opens its files, and then yields every line that
/// these have left to read: once and in order and with the path of its file. Then the
/// next event is waited for.
pub proof fn event_yields_its_lines<R>(
    platform: Platform,
    turn: LineTurn<R>,
    moment: Moment<R>,
    reading: Reading<R>,
    reads: nat,
)
    requires
        turn.state is Events,
        turn.events.task is Receiving,
        reading.wf(),
        ({
            let (watched, event) = handled(
                platform,
                turn.events.watch,
                moment.event,
                0,
                moment.answers.watch,
            );
            let after = files_handled(platform, turn.inner, event, 0, moment.answers);
            reads >= lines_of(after, event.paths, 0, reading, moment.contents).0.len()
                + event.paths.len()
        }),
    ensures
        heard(platform, turn, moment, reading, reads) == {
            let (watched, event) = handled(
                platform,
                turn.events.watch,
                moment.event,
                0,
                moment.answers.watch,
            );
            let after = files_handled(platform, turn.inner, event, 0, moment.answers);
            let (lines, end) = lines_of(after, event.paths, 0, reading, moment.contents);
            (lines, waits(watched, end))
        },
{
    let watch = turn.events.watch;
    let answers = moment.answers;
    let (watched, event) = handled(platform, watch, moment.event, 0, answers.watch);
    let after = files_handled(platform, turn.inner, event, 0, answers);
    let nine = (9 * moment.event.paths.len()) as nat;
    let two = (2 * moment.event.paths.len()) as nat;
    let fewer = (2 * event.paths.len()) as nat;
    handled_event_has_no_more_paths(platform, watch, moment.event, 0, answers.watch);
    handling_comes_to_its_outcome(platform, watch, moment.event, 0, answers.watch);
    handling_asks_or_ends(platform, watch, moment.event, 0);
    let begun = handle_from(platform, watch, moment.event, 0);
    let idle = Watching { watch: watched, task: TaskView::Idle };
    let (first, state) = files_from(platform, turn.inner, event, 0);
    handling_opens_files(platform, turn.inner, event, 0, answers);
    lemma_files_run_more(platform, first, event, state, answers, fewer, two);
    lemma_open_run(platform, idle, first, event, state, answers, two);
    lemma_reading(idle, after, event.paths, 0);
    lemma_watch_run(platform, begun, turn.inner, answers, nine, two);
    assert(nine + two == 11 * moment.event.paths.len());
    every_line_is_yielded(
        platform,
        idle,
        after,
        event.paths,
        0,
        reading,
        moment.contents,
        reads,
    );
}

} // verus!
