//! Which files are opened where and which lines come, said of the kinds of events by their
//! names and of what is answered about files.
use crate::absolutify::result_view;
use crate::error::IoError;
use crate::event::{CreateKind, Event, EventKind, EventView, ModifyKind, Platform, RenameMode};
use crate::events::{ended, next_turn, task_step, Step, TaskView};
use crate::events_laws::{add_outcome, handling_asks_or_ends};
use crate::handle_event::{event_matters, files_from, files_next, FileReply};
use crate::inner::InnerView;
use crate::line::{Line, LineView};
use crate::path::{FilePath, PathView};
use crate::reader::{
    add_begins, add_line_next, event_awaited, line_next, line_start, read_from, stream_ok, AddState,
    LineReply, LineRequest, LineStep, LineTurn, StreamStateView, Watching,
};
use crate::reader_laws::{
    add_line_run, adding_comes_to_its_outcome, answerable, file_outcome, files_handled, labelled,
    line_run, lines_of, FileAnswers, Reading,
};
use crate::request::{Reply, Request};
use crate::watch::WatchView;
use crate::watching_laws::{fits, other_replies_change_nothing};
use vstd::prelude::*;

verus! {

/// The kinds of events that make files be looked at: that a file was created, that its data
/// changed in any way, and that another file was renamed to it; on Windows also that
/// something was created or modified, and on macOS also that a file was renamed away. No
/// other kind does.
pub proof fn kinds_that_matter(platform: Platform, kind: EventKind)
    ensures
        event_matters(platform, kind) <==> {
            ||| kind == EventKind::Create(CreateKind::File)
            ||| kind == EventKind::Create(CreateKind::Any) && platform == Platform::Windows
            ||| kind is Modify && kind->Modify_0 is Data
            ||| kind == EventKind::Modify(ModifyKind::Name(RenameMode::To))
            ||| kind == EventKind::Modify(ModifyKind::Name(RenameMode::From)) && platform
                == Platform::MacOs
            ||| kind == EventKind::Modify(ModifyKind::Any) && platform == Platform::Windows
        },
{
}

/// A file has a reader or is expected if it is in the one collection or the other, and there
/// are no files if both are empty. To change one of the collections leaves the others.
pub proof fn files_are_open_or_expected<R>(
    inner: InnerView<R>,
    path: PathView,
    reader: R,
    position: u64,
)
    ensures
        inner.reader_exists(path) <==> inner.readers.contains_key(path) || inner.pending.contains(
            path,
        ),
        inner.is_empty() <==> (forall|file: PathView|
            !(#[trigger] inner.readers.contains_key(file)) && !inner.pending.contains(file)),
        inner.with_reader(path, reader) == (InnerView {
            positions: inner.positions,
            readers: inner.readers.insert(path, reader),
            pending: inner.pending,
        }),
        inner.with_position(path, position) == (InnerView {
            positions: inner.positions.insert(path, position),
            readers: inner.readers,
            pending: inner.pending,
        }),
        inner.with_pending(path) == (InnerView {
            positions: inner.positions,
            readers: inner.readers,
            pending: inner.pending.insert(path),
        }),
        inner.without_pending(path) == (InnerView {
            positions: inner.positions,
            readers: inner.readers,
            pending: inner.pending.remove(path),
        }),
{
    if forall|file: PathView|
        !(#[trigger] inner.readers.contains_key(file)) && !inner.pending.contains(file) {
        assert(inner.readers =~= Map::empty());
        assert forall|file: PathView| !inner.pending.contains(file) by {
            assert(!inner.readers.contains_key(file));
        }
        assert(inner.pending =~= Set::empty());
    }
}

/// The turn in which an event that has passed the event watch is taken up.
pub open spec fn taken_up<R>(
    platform: Platform,
    watch: WatchView,
    inner: InnerView<R>,
    event: EventView,
) -> LineTurn<R> {
    event_awaited(platform, ended(watch, Step::Next(Ok(Some(event)))), inner)
}

/// What an event asks about its first file: one that was created is opened from its start
/// and no longer expected, and of one that was modified the size is asked for. Any other
/// event asks for the lines of its first file, if that has a reader.
pub proof fn event_asks_about_its_file<R>(
    platform: Platform,
    watch: WatchView,
    inner: InnerView<R>,
    event: EventView,
)
    requires
        event.paths.len() > 0,
    ensures
        ({
            let turn = taken_up(platform, watch, inner, event);
            let path = event.paths[0];
            let created = event.kind == EventKind::Create(CreateKind::File) || (event.kind
                == EventKind::Create(CreateKind::Any) && platform == Platform::Windows);
            let modified = (event.kind is Modify && event.kind->Modify_0 is Data) || event.kind
                == EventKind::Modify(ModifyKind::Name(RenameMode::To)) || (event.kind
                == EventKind::Modify(ModifyKind::Name(RenameMode::From)) && platform
                == Platform::MacOs) || (event.kind == EventKind::Modify(ModifyKind::Any)
                && platform == Platform::Windows);
            &&& turn.events.watch == watch
            &&& turn.inner.readers == inner.readers && turn.inner.positions == inner.positions
            &&& created ==> turn.step == LineStep::<PathView, EventView, LineView>::Ask(
                LineRequest::NewLineReader(path, None),
            ) && turn.inner.pending == inner.pending.remove(path)
            &&& modified ==> turn.step == LineStep::<PathView, EventView, LineView>::Ask(
                LineRequest::Metadata(path),
            )
            &&& !created ==> turn.inner.pending == inner.pending
            &&& !created && !modified && inner.readers.contains_key(path) ==> turn.step
                == LineStep::<PathView, EventView, LineView>::Ask(LineRequest::ReadLine(path))
        }),
{
    if !event_matters(platform, event.kind) {
        lemma_read_from_keeps(
            Watching { watch, task: TaskView::Idle },
            inner,
            event.paths,
            0,
        );
    }
}

/// The reading of files leaves what is watched and what is known of the files.
proof fn lemma_read_from_keeps<R>(
    events: Watching,
    inner: InnerView<R>,
    paths: Seq<PathView>,
    index: nat,
)
    ensures
        read_from(events, inner, paths, index).events.watch == events.watch,
        read_from(events, inner, paths, index).inner == inner,
    decreases paths.len() - index,
{
    if index < paths.len() && !inner.readers.contains_key(paths[index as int]) {
        lemma_read_from_keeps(events, inner, paths, index + 1nat);
    }
}

/// A file that was created is read from its start if it can be opened: it has that reader
/// and position then. If it cannot, nothing but the expectation of it changes.
pub proof fn created_file_is_opened<R>(
    platform: Platform,
    inner: InnerView<R>,
    event: EventView,
    path: PathView,
    answers: FileAnswers<R>,
)
    requires
        event.kind == EventKind::Create(CreateKind::File) || (event.kind == EventKind::Create(
            CreateKind::Any,
        ) && platform == Platform::Windows),
        event.paths == seq![path],
    ensures
        ({
            let after = files_handled(platform, inner, event, 0, answers);
            &&& after.pending == inner.pending.remove(path)
            &&& match (answers.open)(path, None) {
                Ok(reader) => after.readers == inner.readers.insert(path, reader)
                    && after.positions == inner.positions.insert(path, 0),
                Err(_) => after.readers == inner.readers && after.positions == inner.positions,
            }
        }),
{
    reveal_with_fuel(files_handled, 2);
    assert(event.paths[0] == path);
}

/// A file whose data changed in any way, that another was renamed to, or that the platform
/// reports so, is judged by its size. One that is smaller than it was is read from its start
/// again, one that is not goes on being read, and one that was not known is read from its
/// end. Without its size nothing changes.
pub proof fn modified_file_is_judged_by_its_size<R>(
    platform: Platform,
    inner: InnerView<R>,
    event: EventView,
    path: PathView,
    answers: FileAnswers<R>,
)
    requires
        (event.kind is Modify && event.kind->Modify_0 is Data) || event.kind == EventKind::Modify(
            ModifyKind::Name(RenameMode::To),
        ) || (event.kind == EventKind::Modify(ModifyKind::Name(RenameMode::From)) && platform
            == Platform::MacOs) || (event.kind == EventKind::Modify(ModifyKind::Any) && platform
            == Platform::Windows),
        event.paths == seq![path],
    ensures
        ({
            let after = files_handled(platform, inner, event, 0, answers);
            match (answers.size)(path) {
                Err(_) => after == inner,
                Ok(size) => if !inner.positions.contains_key(path) {
                    &&& after.positions == inner.positions.insert(path, size)
                    &&& after.pending == inner.pending.remove(path)
                    &&& match (answers.open)(path, Some(size)) {
                        Ok(reader) => after.readers == inner.readers.insert(path, reader),
                        Err(_) => after.readers == inner.readers,
                    }
                } else if size < inner.positions[path] {
                    &&& after.positions == inner.positions.insert(path, 0)
                    &&& after.pending == inner.pending
                    &&& match (answers.open)(path, None) {
                        Ok(reader) => after.readers == inner.readers.insert(path, reader),
                        Err(_) => after.readers == inner.readers,
                    }
                } else {
                    &&& after.positions == inner.positions.insert(path, size)
                    &&& after.pending == inner.pending
                    &&& after.readers == inner.readers
                },
            }
        }),
{
    reveal_with_fuel(files_handled, 2);
    assert(event.paths[0] == path);
}

/// No other event opens or forgets a file: not that something was accessed or removed, nor
/// that a folder was created, metadata changed or a file was renamed otherwise.
pub proof fn no_other_event_opens_files<R>(
    platform: Platform,
    inner: InnerView<R>,
    event: EventView,
    answers: FileAnswers<R>,
)
    requires
        match event.kind {
            EventKind::Create(CreateKind::File) => false,
            EventKind::Create(CreateKind::Any) => platform != Platform::Windows,
            EventKind::Modify(ModifyKind::Data(_)) => false,
            EventKind::Modify(ModifyKind::Name(RenameMode::To)) => false,
            EventKind::Modify(ModifyKind::Name(RenameMode::From)) => platform != Platform::MacOs,
            EventKind::Modify(ModifyKind::Any) => platform != Platform::Windows,
            _ => true,
        },
    ensures
        files_handled(platform, inner, event, 0, answers) == inner,
{
}

/// The files of an event are dealt with one after another: what its first files come to is
/// what the others are dealt with in.
pub proof fn files_are_dealt_with_one_by_one<R>(
    platform: Platform,
    inner: InnerView<R>,
    kind: EventKind,
    first: Seq<PathView>,
    rest: Seq<PathView>,
    answers: FileAnswers<R>,
)
    ensures
        files_handled(platform, inner, EventView { kind, paths: first + rest }, 0, answers)
            == files_handled(
            platform,
            files_handled(platform, inner, EventView { kind, paths: first }, 0, answers),
            EventView { kind, paths: rest },
            0,
            answers,
        ),
    decreases first.len(),
{
    let whole = EventView { kind, paths: first + rest };
    let event = EventView { kind, paths: first };
    if first.len() == 0 {
        assert(first + rest =~= rest);
    } else if event_matters(platform, kind) {
        let later = first.drop_first();
        let done = file_outcome(inner, kind, first[0], answers);
        assert(whole.paths[0] == first[0]);
        assert(event.paths[0] == first[0]);
        files_are_dealt_with_one_by_one(platform, done, kind, later, rest, answers);
        lemma_files_skip(platform, done, kind, whole.paths, 1, answers);
        lemma_files_skip(platform, done, kind, first, 1, answers);
        assert(whole.paths.skip(1) =~= later + rest);
        assert(first.skip(1) =~= later);
    }
}

/// To deal with files from some place on is to deal with those from there on.
proof fn lemma_files_skip<R>(
    platform: Platform,
    inner: InnerView<R>,
    kind: EventKind,
    paths: Seq<PathView>,
    index: nat,
    answers: FileAnswers<R>,
)
    requires
        index <= paths.len(),
    ensures
        files_handled(platform, inner, EventView { kind, paths }, index, answers)
            == files_handled(
            platform,
            inner,
            EventView { kind, paths: paths.skip(index as int) },
            0,
            answers,
        ),
    decreases paths.len() - index,
{
    let rest = paths.skip(index as int);
    if index < paths.len() && event_matters(platform, kind) {
        let done = file_outcome(inner, kind, paths[index as int], answers);
        assert(rest[0] == paths[index as int]);
        lemma_files_skip(platform, done, kind, paths, index + 1nat, answers);
        lemma_files_skip(platform, done, kind, rest, 1, answers);
        assert(rest.skip(1) =~= paths.skip(index as int + 1));
    }
}

/// The lines of one file are those that its reader has left, in their order and with its
/// path, and they are read then. A file without a reader yields none.
pub proof fn lines_of_a_file<R>(
    inner: InnerView<R>,
    path: PathView,
    reading: Reading<R>,
    contents: spec_fn(int) -> Seq<Seq<char>>,
)
    ensures
        ({
            let (lines, after) = lines_of(inner, seq![path], 0, reading, contents);
            if inner.readers.contains_key(path) {
                let reader = inner.readers[path];
                let left = reading.unread(reader, contents);
                &&& lines.len() == left.len()
                &&& forall|i: int|
                    0 <= i < lines.len() ==> #[trigger] lines[i] == (LineView {
                        source: path,
                        line: left[i],
                    })
                &&& after.readers == inner.readers.insert(
                    path,
                    reading.after(reader, left.len()),
                )
                &&& after.positions == inner.positions
                &&& after.pending == inner.pending
            } else {
                lines.len() == 0 && after == inner
            }
        }),
{
    reveal_with_fuel(lines_of, 2);
    assert(seq![path][0] == path);
}

/// The files of an event are read one after another, in the order of its paths.
pub proof fn files_are_read_one_by_one<R>(
    inner: InnerView<R>,
    first: Seq<PathView>,
    rest: Seq<PathView>,
    reading: Reading<R>,
    contents: spec_fn(int) -> Seq<Seq<char>>,
)
    ensures
        ({
            let (some, middle) = lines_of(inner, first, 0, reading, contents);
            let (others, end) = lines_of(middle, rest, 0, reading, contents);
            lines_of(inner, first + rest, 0, reading, contents) == (some + others, end)
        }),
    decreases first.len(),
{
    let whole = first + rest;
    if first.len() == 0 {
        assert(whole =~= rest);
        let (others, end) = lines_of(inner, rest, 0, reading, contents);
        assert(Seq::<LineView>::empty() + others =~= others);
    } else {
        let path = first[0];
        let later = first.drop_first();
        assert(whole[0] == path);
        let next = if inner.readers.contains_key(path) {
            inner.with_reader(path, reading.caught_up(inner.readers[path], contents))
        } else {
            inner
        };
        lemma_lines_skip(next, whole, 1, reading, contents);
        lemma_lines_skip(next, first, 1, reading, contents);
        assert(whole.skip(1) =~= later + rest);
        assert(first.skip(1) =~= later);
        files_are_read_one_by_one(next, later, rest, reading, contents);
        if inner.readers.contains_key(path) {
            let own = labelled(path, reading.unread(inner.readers[path], contents));
            let (some, middle) = lines_of(next, later, 0, reading, contents);
            let (others, end) = lines_of(middle, rest, 0, reading, contents);
            assert(own + (some + others) =~= (own + some) + others);
        }
    }
}

/// To read files from some place on is to read those from there on.
proof fn lemma_lines_skip<R>(
    inner: InnerView<R>,
    paths: Seq<PathView>,
    index: nat,
    reading: Reading<R>,
    contents: spec_fn(int) -> Seq<Seq<char>>,
)
    requires
        index <= paths.len(),
    ensures
        lines_of(inner, paths, index, reading, contents) == lines_of(
            inner,
            paths.skip(index as int),
            0,
            reading,
            contents,
        ),
    decreases paths.len() - index,
{
    let rest = paths.skip(index as int);
    if index < paths.len() {
        let path = paths[index as int];
        assert(rest[0] == path);
        let next = if inner.readers.contains_key(path) {
            inner.with_reader(path, reading.caught_up(inner.readers[path], contents))
        } else {
            inner
        };
        lemma_lines_skip(next, paths, index + 1nat, reading, contents);
        lemma_lines_skip(next, rest, 1, reading, contents);
        assert(rest.skip(1) =~= paths.skip(index as int + 1));
    }
}

/// That there is no event is passed over, and the next event is waited for. So it is after
/// an event that has no paths left.
pub proof fn no_event_is_passed_over<R>(
    platform: Platform,
    watch: WatchView,
    inner: InnerView<R>,
    kind: EventKind,
)
    requires
        !watch.is_empty(),
    ensures
        ({
            let none = line_next(
                platform,
                Watching { watch, task: TaskView::Receiving },
                inner,
                StreamStateView::Events,
                LineReply::Watch(Reply::Received(None)),
            );
            let receive = LineTurn::<R> {
                events: Watching { watch, task: TaskView::Receiving },
                inner,
                state: StreamStateView::Events,
                step: LineStep::Ask(LineRequest::Watch(Request::Receive)),
            };
            &&& none.inner == inner && none.state is Events && none.events.watch == watch
            &&& none.step == LineStep::<PathView, EventView, LineView>::Ask(LineRequest::Again)
            &&& line_next(platform, none.events, none.inner, none.state, LineReply::Again)
                == receive
            &&& taken_up(platform, watch, inner, EventView { kind, paths: Seq::empty() })
                == receive
        }),
{
}

/// A line that was read is yielded with the path of the file that it was asked for from, and
/// the same file is read on. An error is handed on, and ends the event.
pub proof fn line_comes_from_the_file_that_was_asked<R>(
    platform: Platform,
    events: Watching,
    inner: InnerView<R>,
    paths: Seq<PathView>,
    index: nat,
    text: Seq<char>,
    error: std::io::Error,
)
    requires
        index < paths.len(),
    ensures
        ({
            let state = StreamStateView::ReadLines(paths, index);
            let asked = LineStep::<PathView, EventView, LineView>::Ask(
                LineRequest::ReadLine(paths[index as int]),
            );
            let read = line_next(
                platform,
                events,
                inner,
                state,
                LineReply::Line(Ok(Some(text))),
            );
            &&& line_start(events, inner, state).step == asked
            &&& read == (LineTurn {
                events,
                inner,
                state,
                step: LineStep::Line(
                    Ok(Some(LineView { source: paths[index as int], line: text })),
                ),
            })
            &&& line_next(platform, events, inner, state, LineReply::Line(Err(error))) == (
            LineTurn {
                events,
                inner,
                state: StreamStateView::Events,
                step: LineStep::Line(Err(IoError::System(error))),
            })
        }),
{
}

/// At the end of a file the next file of the event that has a reader is read.
pub proof fn next_file_with_a_reader_is_read<R>(
    platform: Platform,
    events: Watching,
    inner: InnerView<R>,
    paths: Seq<PathView>,
    index: nat,
    next: nat,
)
    requires
        index < next < paths.len(),
        inner.readers.contains_key(paths[next as int]),
        forall|i: int|
            index < i < next ==> !inner.readers.contains_key(#[trigger] paths[i]),
    ensures
        line_next(
            platform,
            events,
            inner,
            StreamStateView::ReadLines(paths, index),
            LineReply::Line(Ok(None)),
        ) == (LineTurn {
            events,
            inner,
            state: StreamStateView::ReadLines(paths, next),
            step: LineStep::Ask(LineRequest::ReadLine(paths[next as int])),
        }),
{
    lemma_read_from_next(events, inner, paths, index + 1nat, next);
}

/// The first file with a reader is read.
proof fn lemma_read_from_next<R>(
    events: Watching,
    inner: InnerView<R>,
    paths: Seq<PathView>,
    index: nat,
    next: nat,
)
    requires
        index <= next < paths.len(),
        inner.readers.contains_key(paths[next as int]),
        forall|i: int|
            index <= i < next ==> !inner.readers.contains_key(#[trigger] paths[i]),
    ensures
        read_from(events, inner, paths, index) == (LineTurn {
            events,
            inner,
            state: StreamStateView::ReadLines(paths, next),
            step: LineStep::Ask(LineRequest::ReadLine(paths[next as int])),
        }),
    decreases next - index,
{
    if index < next {
        assert(!inner.readers.contains_key(paths[index as int]));
        lemma_read_from_next(events, inner, paths, index + 1nat, next);
    }
}

/// At the end of the last file that has a reader the next event is waited for.
pub proof fn event_follows_the_last_file<R>(
    platform: Platform,
    events: Watching,
    inner: InnerView<R>,
    paths: Seq<PathView>,
    index: nat,
)
    requires
        index < paths.len(),
        forall|i: int|
            index < i < paths.len() ==> !inner.readers.contains_key(#[trigger] paths[i]),
    ensures
        ({
            let turn = line_next(
                platform,
                events,
                inner,
                StreamStateView::ReadLines(paths, index),
                LineReply::Line(Ok(None)),
            );
            &&& turn.inner == inner && turn.events.watch == events.watch && turn.state is Events
            &&& !events.watch.is_empty() ==> turn.step == LineStep::<
                PathView,
                EventView,
                LineView,
            >::Ask(LineRequest::Watch(Request::Receive))
            &&& events.watch.is_empty() ==> turn.step == LineStep::<
                PathView,
                EventView,
                LineView,
            >::Ask(LineRequest::Again)
        }),
{
    lemma_read_from_end(events, inner, paths, index + 1nat);
}

/// Without a file to read the next event is waited for.
proof fn lemma_read_from_end<R>(
    events: Watching,
    inner: InnerView<R>,
    paths: Seq<PathView>,
    index: nat,
)
    requires
        forall|i: int|
            index <= i < paths.len() ==> !inner.readers.contains_key(#[trigger] paths[i]),
    ensures
        read_from(events, inner, paths, index) == read_from(events, inner, paths, paths.len()),
    decreases paths.len() - index,
{
    if index < paths.len() {
        assert(!inner.readers.contains_key(paths[index as int]));
        lemma_read_from_end(events, inner, paths, index + 1nat);
    }
}

/// That there is no line is said exactly if no file has a reader or is expected and nothing
/// is in progress. Otherwise, if nothing is in progress, an event is waited for.
pub proof fn there_is_no_line_only_without_files<R>(
    events: Watching,
    inner: InnerView<R>,
    state: StreamStateView,
)
    ensures
        line_start(events, inner, state).step == LineStep::<PathView, EventView, LineView>::Line(
            Ok(None),
        ) <==> (state is Events && without_files(inner)),
        line_start(events, inner, state).inner == inner,
        line_start(events, inner, state).events.watch == events.watch,
        state is Events && !inner.is_empty() && events.task !is Handling && !events.watch.is_empty()
            ==> line_start(events, inner, state) == (LineTurn {
            events: Watching { watch: events.watch, task: TaskView::Receiving },
            inner,
            state,
            step: LineStep::Ask(LineRequest::Watch(Request::Receive)),
        }),
{
    lemma_without_files(inner);
    if state is Events && without_files(inner) {
        assert(inner.is_empty());
    }
}

/// Whether no file has a reader or is expected.
pub open spec fn without_files<R>(inner: InnerView<R>) -> bool {
    forall|file: PathView|
        !(#[trigger] inner.readers.contains_key(file)) && !inner.pending.contains(file)
}

proof fn lemma_without_files<R>(inner: InnerView<R>)
    ensures
        inner.is_empty() <==> without_files(inner),
{
    if forall|file: PathView|
        !(#[trigger] inner.readers.contains_key(file)) && !inner.pending.contains(file) {
        assert(inner.readers =~= Map::empty());
        assert forall|file: PathView| !inner.pending.contains(file) by {
            assert(!inner.readers.contains_key(file));
        }
        assert(inner.pending =~= Set::empty());
    }
}

/// To ask for a line while something is in progress changes nothing: what was asked for last
/// is asked for again, whether it is what the event watch needs to handle an event, the size
/// or the opening of a file, a line, or an event.
pub proof fn asking_again_changes_nothing<R>(
    platform: Platform,
    events: Watching,
    inner: InnerView<R>,
    state: StreamStateView,
    reply: LineReply<PathView, EventView, Seq<char>, R>,
)
    requires
        stream_ok(platform, inner, state),
        events.task is Receiving ==> !events.watch.is_empty(),
    ensures
        ({
            let turn = line_next(platform, events, inner, state, reply);
            turn.step is Ask && turn.step != LineStep::<PathView, EventView, LineView>::Ask(
                LineRequest::Again,
            ) && (turn.state is Events ==> !turn.inner.is_empty()) ==> line_start(
                turn.events,
                turn.inner,
                turn.state,
            ) == turn
        }),
        ({
            let turn = line_start(events, inner, state);
            turn.step != LineStep::<PathView, EventView, LineView>::Ask(LineRequest::Again)
                ==> line_start(turn.events, turn.inner, turn.state) == turn
        }),
        state is HandleEvent || state is ReadLines ==> ({
            let turn = line_start(events, inner, state);
            turn.events == events && turn.inner == inner && turn.state == state
        }),
{
    lemma_turn_can_be_asked_again(platform, events, inner, state, reply);
}

/// Whether to ask for a line again gives the same turn.
spec fn can_be_asked_again<R>(turn: LineTurn<R>) -> bool {
    turn.step is Ask && turn.step != LineStep::<PathView, EventView, LineView>::Ask(
        LineRequest::Again,
    ) && (turn.state is Events ==> !turn.inner.is_empty()) ==> line_start(
        turn.events,
        turn.inner,
        turn.state,
    ) == turn
}

proof fn lemma_read_from_can_be_asked_again<R>(
    events: Watching,
    inner: InnerView<R>,
    paths: Seq<PathView>,
    index: nat,
)
    ensures
        can_be_asked_again(read_from(events, inner, paths, index)),
    decreases paths.len() - index,
{
    if index < paths.len() && !inner.readers.contains_key(paths[index as int]) {
        lemma_read_from_can_be_asked_again(events, inner, paths, index + 1nat);
    }
}

proof fn lemma_turn_can_be_asked_again<R>(
    platform: Platform,
    events: Watching,
    inner: InnerView<R>,
    state: StreamStateView,
    reply: LineReply<PathView, EventView, Seq<char>, R>,
)
    requires
        events.task is Receiving ==> !events.watch.is_empty(),
    ensures
        can_be_asked_again(line_next(platform, events, inner, state, reply)),
{
    match (state, reply) {
        (StreamStateView::Events, LineReply::Watch(reply)) => {
            let turn = next_turn(platform, events.watch, events.task, reply);
            if let Step::Next(Ok(Some(event))) = turn.step {
                let (after, state) = files_from(platform, inner, event, 0);
                lemma_read_from_can_be_asked_again(
                    Watching { watch: turn.watch, task: turn.task },
                    after,
                    event.paths,
                    0,
                );
            } else {
                match events.task {
                    TaskView::Receiving => {
                        if let Reply::Received(Some(Ok(event))) = reply {
                            handling_asks_or_ends(platform, events.watch, event, 0);
                        }
                    },
                    TaskView::Handling(event, index, stage) => {
                        lemma_handling_turn(platform, events.watch, events.task, reply);
                    },
                    _ => {},
                }
            }
        },
        (StreamStateView::HandleEvent(event, state), LineReply::File(reply)) => {
            let (after, state) = files_next(platform, inner, event, state, reply);
            lemma_read_from_can_be_asked_again(events, after, event.paths, 0);
        },
        (StreamStateView::ReadLines(paths, index), LineReply::Line(Ok(None))) => {
            lemma_read_from_can_be_asked_again(events, inner, paths, index + 1nat);
        },
        _ => {},
    }
}

/// A turn of the handling of an event goes on handling, or has come to the event.
proof fn lemma_handling_turn(
    platform: Platform,
    watch: WatchView,
    task: TaskView,
    reply: Reply<PathView, EventView>,
)
    requires
        task is Handling,
    ensures
        ({
            let turn = next_turn(platform, watch, task, reply);
            (turn.task is Handling && turn.step == task_step(turn.task)) || (turn.task is Idle
                && turn.step is Next)
        }),
{
    let event = task->Handling_0;
    let index = task->Handling_1;
    let (after, step) = crate::events::path_next(
        watch,
        event.paths[index as int],
        task->Handling_2,
        reply,
    );
    if step is Done {
        handling_asks_or_ends(platform, after, event, index + 1nat);
        handling_asks_or_ends(
            platform,
            after,
            crate::events::without_path(event, index as int),
            index,
        );
    }
}

/// A turn of the reading of lines, and at most `turns` more with the answers to what they ask
/// for, where a line is asked for again before some of the answers.
pub open spec fn polled_run<R>(
    platform: Platform,
    turn: LineTurn<R>,
    answers: FileAnswers<R>,
    polls: spec_fn(nat) -> bool,
    turns: nat,
) -> LineTurn<R>
    decreases turns,
{
    match turn.step {
        LineStep::Ask(request) if turns > 0 && answerable(request) => {
            let again = if polls(turns) {
                line_start(turn.events, turn.inner, turn.state)
            } else {
                turn
            };
            match again.step {
                LineStep::Ask(request) => polled_run(
                    platform,
                    line_next(
                        platform,
                        again.events,
                        again.inner,
                        again.state,
                        answers.to(request),
                    ),
                    answers,
                    polls,
                    (turns - 1) as nat,
                ),
                _ => again,
            }
        },
        _ => turn,
    }
}

/// However often a line is asked for between the answers, an event comes to the same: to be
/// polled takes nothing from an event that is in progress.
pub proof fn polls_take_nothing_from_an_event<R>(
    platform: Platform,
    turn: LineTurn<R>,
    answers: FileAnswers<R>,
    polls: spec_fn(nat) -> bool,
    turns: nat,
)
    requires
        turn.state is HandleEvent || !turn.inner.is_empty(),
        turn.events.task is Receiving ==> !turn.events.watch.is_empty(),
        line_start(turn.events, turn.inner, turn.state) == turn,
    ensures
        polled_run(platform, turn, answers, polls, turns) == line_run(
            platform,
            turn,
            answers,
            turns,
        ),
    decreases turns,
{
    if turn.step matches LineStep::Ask(request) && turns > 0 && answerable(request) {
        let request = turn.step->Ask_0;
        let reply = answers.to(request);
        let next = line_next(platform, turn.events, turn.inner, turn.state, reply);
        lemma_turn_can_be_asked_again(platform, turn.events, turn.inner, turn.state, reply);
        if next.step matches LineStep::Ask(request) && answerable(request) {
            lemma_next_is_in_progress(
                platform,
                turn.events,
                turn.inner,
                turn.state,
                answers,
                request,
            );
            polls_take_nothing_from_an_event(platform, next, answers, polls, (turns - 1) as nat);
        }
    }
}

/// What goes on to ask for something that can be answered is in progress.
proof fn lemma_next_is_in_progress<R>(
    platform: Platform,
    events: Watching,
    inner: InnerView<R>,
    state: StreamStateView,
    answers: FileAnswers<R>,
    request: LineRequest<PathView, EventView>,
)
    requires
        state is HandleEvent || !inner.is_empty(),
        events.task is Receiving ==> !events.watch.is_empty(),
        answerable(request),
        line_start(events, inner, state).step == LineStep::<PathView, EventView, LineView>::Ask(
            request,
        ),
        line_start(events, inner, state).state == state,
        line_start(events, inner, state).events == events,
        ({
            let next = line_next(platform, events, inner, state, answers.to(request));
            next.step matches LineStep::Ask(request) && answerable(request)
        }),
    ensures
        ({
            let next = line_next(platform, events, inner, state, answers.to(request));
            &&& next.state is HandleEvent || !next.inner.is_empty()
            &&& next.events.task is Receiving ==> !next.events.watch.is_empty()
        }),
{
    let reply = answers.to(request);
    match (state, reply) {
        (StreamStateView::Events, LineReply::Watch(reply)) => {
            let turn = next_turn(platform, events.watch, events.task, reply);
            lemma_handling_turn(platform, events.watch, events.task, reply);
            if let Step::Next(Ok(Some(event))) = turn.step {
                let (after, state) = files_from(platform, inner, event, 0);
                lemma_read_from_at_rest(
                    Watching { watch: turn.watch, task: turn.task },
                    after,
                    event.paths,
                    0,
                );
            }
        },
        (StreamStateView::HandleEvent(event, state), LineReply::File(reply)) => {
            let (after, state) = files_next(platform, inner, event, state, reply);
            lemma_read_from_at_rest(events, after, event.paths, 0);
        },
        _ => {},
    }
}

/// The reading of files asks for a line or an event.
proof fn lemma_read_from_at_rest<R>(
    events: Watching,
    inner: InnerView<R>,
    paths: Seq<PathView>,
    index: nat,
)
    ensures
        read_from(events, inner, paths, index).step matches LineStep::Ask(request) && !answerable(
            request,
        ),
    decreases paths.len() - index,
{
    if index < paths.len() && !inner.readers.contains_key(paths[index as int]) {
        lemma_read_from_at_rest(events, inner, paths, index + 1nat);
    }
}

/// What the adding of a file to the lines comes to, by what the event watch says and what
/// there is: whether it is to be read from its start or not, a file that is missing is
/// expected, and one that is known already stays as it is. One that exists is opened where it
/// was asked. It cannot be added exactly if the event watch cannot, or if it exists and its
/// size or its opening is refused.
pub proof fn adding_to_the_lines_goes_by_what_there_is<R>(
    platform: Platform,
    watch: WatchView,
    inner: InnerView<R>,
    path: PathView,
    from_start: bool,
    answers: FileAnswers<R>,
)
    ensures
        ({
            let turn = add_line_run(
                platform,
                add_begins(watch, inner, path, from_start),
                answers,
                10,
            );
            let (watched, registered) = add_outcome(watch, path, answers.watch);
            &&& turn.state is Idle
            &&& turn.events.watch == watched
            &&& match registered {
                Err(error) => turn.inner == inner && turn.step == LineStep::<
                    PathView,
                    EventView,
                    LineView,
                >::Added(Err(error)),
                Ok(source) => {
                    let added = LineStep::<PathView, EventView, LineView>::Added(Ok(source));
                    if inner.readers.contains_key(source) || inner.pending.contains(source) {
                        turn.inner == inner && turn.step == added
                    } else if !(answers.watch.exists)(source) {
                        &&& turn.step == added
                        &&& turn.inner.pending == inner.pending.insert(source)
                        &&& turn.inner.readers == inner.readers
                        &&& turn.inner.positions == inner.positions
                    } else if from_start {
                        opened_at(turn.inner, turn.step, inner, source, 0, answers)
                    } else {
                        match (answers.size)(source) {
                            Ok(size) => opened_at(
                                turn.inner,
                                turn.step,
                                inner,
                                source,
                                size,
                                answers,
                            ),
                            Err(error) => turn.inner == inner && turn.step == LineStep::<
                                PathView,
                                EventView,
                                LineView,
                            >::Added(Err(IoError::System(error))),
                        }
                    }
                },
            }
        }),
{
    adding_comes_to_its_outcome(platform, watch, inner, path, from_start, answers);
}

/// Whether a file was opened at that position and added, or could not be opened and was not.
pub open spec fn opened_at<R>(
    after: InnerView<R>,
    step: LineStep<PathView, EventView, LineView>,
    before: InnerView<R>,
    source: PathView,
    position: u64,
    answers: FileAnswers<R>,
) -> bool {
    match (answers.open)(source, Some(position)) {
        Ok(reader) => {
            &&& step == LineStep::<PathView, EventView, LineView>::Added(Ok(source))
            &&& after.readers == before.readers.insert(source, reader)
            &&& after.positions == before.positions.insert(source, position)
            &&& after.pending == before.pending
        },
        Err(error) => {
            &&& step == LineStep::<PathView, EventView, LineView>::Added(
                Err(IoError::System(error)),
            )
            &&& after == before
        },
    }
}

/// To add a file that is missing does not depend on where it is to be read from.
pub proof fn missing_file_is_expected_either_way<R>(
    platform: Platform,
    watch: WatchView,
    inner: InnerView<R>,
    path: PathView,
    source: PathView,
    answers: FileAnswers<R>,
)
    requires
        add_outcome(watch, path, answers.watch).1 == Ok::<PathView, IoError>(source),
        !(answers.watch.exists)(source),
    ensures
        ({
            let from_start = add_line_run(
                platform,
                add_begins(watch, inner, path, true),
                answers,
                10,
            );
            let from_end = add_line_run(
                platform,
                add_begins(watch, inner, path, false),
                answers,
                10,
            );
            &&& from_start.inner == from_end.inner
            &&& from_start.step == from_end.step
            &&& from_start.step == LineStep::<PathView, EventView, LineView>::Added(Ok(source))
            &&& from_start.inner.pending.contains(source) || inner.readers.contains_key(source)
        }),
{
    adding_comes_to_its_outcome(platform, watch, inner, path, true, answers);
    adding_comes_to_its_outcome(platform, watch, inner, path, false, answers);
}

/// Whether the reply is one to the request.
pub open spec fn line_fits<R>(
    request: LineRequest<PathView, EventView>,
    reply: LineReply<PathView, EventView, Seq<char>, R>,
) -> bool {
    match (request, reply) {
        (LineRequest::Watch(request), LineReply::Watch(reply)) => fits(request, reply),
        (LineRequest::Exists(_), LineReply::Exists(_)) => true,
        (LineRequest::Metadata(_), LineReply::File(reply)) => reply is Metadata,
        (LineRequest::NewLineReader(_, _), LineReply::File(reply)) => reply is Reader,
        (LineRequest::ReadLine(_), LineReply::Line(_)) => true,
        (LineRequest::Again, LineReply::Again) => true,
        _ => false,
    }
}

/// A reply that does not fit what the reading of lines asks for changes nothing, and the same
/// is asked for again.
pub proof fn other_replies_leave_the_reading<R>(
    platform: Platform,
    events: Watching,
    inner: InnerView<R>,
    state: StreamStateView,
    request: LineRequest<PathView, EventView>,
    reply: LineReply<PathView, EventView, Seq<char>, R>,
)
    requires
        stream_ok(platform, inner, state),
        line_start(events, inner, state) == (LineTurn {
            events,
            inner,
            state,
            step: LineStep::Ask(request),
        }),
        request !is Again,
        !line_fits(request, reply),
    ensures
        line_next(platform, events, inner, state, reply) == line_start(events, inner, state),
{
    if let LineReply::Watch(reply) = reply {
        other_replies_change_nothing(platform, events.watch, events.task, reply);
    }
}

/// Where nothing is asked for but to try again, no other reply does anything.
pub proof fn only_trying_again_goes_on<R>(
    platform: Platform,
    events: Watching,
    inner: InnerView<R>,
    reply: LineReply<PathView, EventView, Seq<char>, R>,
)
    requires
        events.task is Idle || events.task is Adding,
        reply !is Again,
    ensures
        line_next(platform, events, inner, StreamStateView::Events, reply) == (LineTurn {
            events,
            inner,
            state: StreamStateView::Events,
            step: LineStep::Ask(LineRequest::Again),
        }),
{
}

/// A reply that does not fit what the adding of a file asks for changes nothing, and the same
/// is asked for again.
pub proof fn other_replies_leave_the_adding<R>(
    platform: Platform,
    events: Watching,
    inner: InnerView<R>,
    state: AddState<PathView>,
    reply: LineReply<PathView, EventView, Seq<char>, R>,
)
    ensures
        ({
            let request = match state {
                AddState::Idle => None,
                AddState::Register(_) => match task_step(events.task) {
                    Step::Ask(request) if events.task is Adding => Some(
                        LineRequest::<PathView, EventView>::Watch(request),
                    ),
                    _ => None,
                },
                AddState::Exists(source, _) => Some(LineRequest::Exists(source)),
                AddState::Metadata(source) => Some(LineRequest::Metadata(source)),
                AddState::NewLineReader(source, size) => Some(
                    LineRequest::NewLineReader(source, Some(size)),
                ),
            };
            request matches Some(request) ==> !line_fits(request, reply) ==> ({
                let turn = add_line_next(platform, events, inner, state, reply);
                &&& turn.events == events && turn.inner == inner && turn.state == state
                &&& turn.step == LineStep::<PathView, EventView, LineView>::Ask(request)
            })
        }),
{
    if let LineReply::Watch(reply) = reply {
        other_replies_change_nothing(platform, events.watch, events.task, reply);
    }
}

/// Contracts speak of replies and results as they are: what is said is not changed by the
/// view of it.
pub proof fn views_show_what_there_is<R>(
    path: FilePath,
    event: Event,
    line: Line,
    text: String,
    flag: bool,
    file: FileReply<R>,
    error: IoError,
    system: std::io::Error,
)
    ensures
        Reply::<FilePath, Event>::Flag(flag)@ == Reply::<PathView, EventView>::Flag(flag),
        Reply::<FilePath, Event>::Path(Ok(path))@ == Reply::<PathView, EventView>::Path(Ok(path@)),
        Reply::<FilePath, Event>::Path(Err(system))@ == Reply::<PathView, EventView>::Path(
            Err(system),
        ),
        Reply::<FilePath, Event>::Received(None)@ == Reply::<PathView, EventView>::Received(None),
        Reply::<FilePath, Event>::Received(Some(Ok(event)))@ == Reply::<
            PathView,
            EventView,
        >::Received(Some(Ok(event@))),
        LineReply::<FilePath, Event, String, R>::Exists(flag)@ == LineReply::<
            PathView,
            EventView,
            Seq<char>,
            R,
        >::Exists(flag),
        LineReply::<FilePath, Event, String, R>::File(file)@ == LineReply::<
            PathView,
            EventView,
            Seq<char>,
            R,
        >::File(file),
        LineReply::<FilePath, Event, String, R>::Line(Ok(Some(text)))@ == LineReply::<
            PathView,
            EventView,
            Seq<char>,
            R,
        >::Line(Ok(Some(text@))),
        LineReply::<FilePath, Event, String, R>::Line(Ok(None))@ == LineReply::<
            PathView,
            EventView,
            Seq<char>,
            R,
        >::Line(Ok(None)),
        LineReply::<FilePath, Event, String, R>::Line(Err(system))@ == LineReply::<
            PathView,
            EventView,
            Seq<char>,
            R,
        >::Line(Err(system)),
        Step::<FilePath, Event>::Next(Ok(Some(event)))@ == Step::<PathView, EventView>::Next(
            Ok(Some(event@)),
        ),
        Step::<FilePath, Event>::Next(Ok(None))@ == Step::<PathView, EventView>::Next(Ok(None)),
        Step::<FilePath, Event>::Added(Ok(path))@ == Step::<PathView, EventView>::Added(Ok(path@)),
        LineStep::<FilePath, Event, Line>::Line(Ok(Some(line)))@ == LineStep::<
            PathView,
            EventView,
            LineView,
        >::Line(Ok(Some(line@))),
        LineStep::<FilePath, Event, Line>::Line(Ok(None))@ == LineStep::<
            PathView,
            EventView,
            LineView,
        >::Line(Ok(None)),
        LineStep::<FilePath, Event, Line>::Line(Err(error))@ == LineStep::<
            PathView,
            EventView,
            LineView,
        >::Line(Err(error)),
        LineStep::<FilePath, Event, Line>::Added(Ok(path))@ == LineStep::<
            PathView,
            EventView,
            LineView,
        >::Added(Ok(path@)),
        event@.kind == event.kind,
        event@.paths.len() == event.paths@.len(),
        forall|i: int| 0 <= i < event.paths@.len() ==> #[trigger] event@.paths[i]
            == event.paths@[i]@,
        result_view(Ok(path)) == Ok::<PathView, IoError>(path@),
        result_view(Err(error)) == Err::<PathView, IoError>(error),
{
}

} // verus!
