//! What the reading of lines comes to over the life of a log: its writing, its rotation,
//! and whatever else is heard of meanwhile.
use crate::absolutify::absolutified;
use crate::error::IoError;
use crate::event::{EventView, Platform};
use crate::events::{known_existence, path_stays, without_path, TaskView};
use crate::events_laws::{
    added_file_is_watched_or_missing, adding_keeps_the_watch_consistent,
    file_that_appears_is_watched, file_that_has_gone_is_missing, handled,
    handling_keeps_the_watch_consistent, path_outcome,
};
use crate::handle_event::event_matters;
use crate::inner::InnerView;
use crate::line::LineView;
use crate::path::{parent_of, PathView};
use crate::reader::{line_start, LineTurn, StreamStateView, Watching};
use crate::reader_laws::{
    add_line_outcome, created_file_is_read_from_its_start, event_yields_its_lines, file_outcome,
    files_handled, grown_file_keeps_its_reader, heard, labelled, lines_of,
    rolled_file_is_read_from_its_start, FileAnswers, Moment, Reading,
};
use crate::request::Answers;
use crate::watch::WatchView;
use vstd::prelude::*;

verus! {

/// Something that happens to a log, together with how it is heard of. Files are told
/// apart by numbers.
pub enum Happening {
    /// A new file is there, with these lines, and its creation is heard of.
    Created(int, Seq<Seq<char>>),
    /// These lines are written behind the others, and the modification is heard of.
    Written(Seq<Seq<char>>),
    /// The log is heard of in a way that is not looked into, such as its being accessed.
    /// These lines were written behind the others.
    Touched(Seq<Seq<char>>),
    /// The file is renamed away or removed, which is heard of.
    Away,
    /// The file is renamed away or removed, which is heard of when there is a new file
    /// with these lines already.
    Replaced(int, Seq<Seq<char>>),
    /// These lines are written behind the others in a new file that was not opened yet,
    /// and its creation is heard of, or a modification that shows that it is smaller.
    Noticed(Seq<Seq<char>>),
    /// The file was cut to these lines, or a file with these lines is in its place, and
    /// a modification that shows that it is smaller is heard of.
    Shorter(int, Seq<Seq<char>>),
    /// Something is heard of that is not about the log.
    Elsewhere,
}

/// What there is of a log, and what was read of it.
pub enum LogState {
    /// There is no file.
    Missing,
    /// There is a file that was not opened yet.
    Unopened,
    /// There is a file, and so many of its lines were read.
    Open(nat),
}

/// A log: its path, the file that is or was last there, the lines of that file, the size
/// that was noted last, and what there is of it.
pub struct Log {
    pub path: PathView,
    pub file: int,
    pub lines: Seq<Seq<char>>,
    pub position: u64,
    pub state: LogState,
}

impl Log {
    /// Whether all of the file that is there was read.
    pub open spec fn caught_up(self) -> bool {
        self.state == LogState::Open(self.lines.len())
    }

    /// The lines that are left to read.
    pub open spec fn left(self) -> Seq<Seq<char>> {
        match self.state {
            LogState::Missing => Seq::empty(),
            LogState::Unopened => self.lines,
            LogState::Open(read) => self.lines.skip(read as int),
        }
    }

    /// Whether this can happen, without lines that were left to read being taken away.
    pub open spec fn allows(self, happening: Happening) -> bool {
        match happening {
            Happening::Created(_, _) => self.state is Missing || self.caught_up(),
            Happening::Written(_) => self.state is Open,
            Happening::Touched(_) => self.state is Open,
            Happening::Away => self.caught_up(),
            Happening::Replaced(file, _) => self.caught_up() && file != self.file,
            Happening::Noticed(_) => self.state is Unopened,
            Happening::Shorter(_, _) => self.caught_up(),
            Happening::Elsewhere => true,
        }
    }

    /// The log once this has happened and all that it leads to was read.
    pub open spec fn after(
        self,
        happening: Happening,
        size_of: spec_fn(Seq<Seq<char>>) -> u64,
    ) -> Log {
        match happening {
            Happening::Created(file, lines) => Log {
                file,
                lines,
                position: 0,
                state: LogState::Open(lines.len()),
                ..self
            },
            Happening::Written(more) => {
                let lines = self.lines + more;
                Log {
                    lines,
                    position: size_of(lines),
                    state: LogState::Open(lines.len()),
                    ..self
                }
            },
            Happening::Touched(more) => {
                let lines = self.lines + more;
                Log { lines, state: LogState::Open(lines.len()), ..self }
            },
            Happening::Away => Log { state: LogState::Missing, ..self },
            Happening::Replaced(file, lines) => Log {
                file,
                lines,
                state: LogState::Unopened,
                ..self
            },
            Happening::Noticed(more) => {
                let lines = self.lines + more;
                Log { lines, position: 0, state: LogState::Open(lines.len()), ..self }
            },
            Happening::Shorter(file, lines) => Log {
                file,
                lines,
                position: 0,
                state: LogState::Open(lines.len()),
                ..self
            },
            Happening::Elsewhere => self,
        }
    }
}

/// The lines that come with a happening.
pub open spec fn new_lines(happening: Happening) -> Seq<Seq<char>> {
    match happening {
        Happening::Created(_, lines) => lines,
        Happening::Written(more) => more,
        Happening::Touched(more) => more,
        Happening::Away => Seq::empty(),
        Happening::Replaced(_, lines) => lines,
        Happening::Noticed(more) => more,
        Happening::Shorter(_, lines) => lines,
        Happening::Elsewhere => Seq::empty(),
    }
}

/// The lines that come with all happenings, one after another.
pub open spec fn all_lines(happenings: Seq<Happening>) -> Seq<Seq<char>>
    decreases happenings.len(),
{
    if happenings.len() == 0 {
        Seq::empty()
    } else {
        new_lines(happenings.first()) + all_lines(happenings.drop_first())
    }
}

/// The log once all of this has happened.
pub open spec fn after_all(
    log: Log,
    happenings: Seq<Happening>,
    size_of: spec_fn(Seq<Seq<char>>) -> u64,
) -> Log
    decreases happenings.len(),
{
    if happenings.len() == 0 {
        log
    } else {
        after_all(log.after(happenings.first(), size_of), happenings.drop_first(), size_of)
    }
}

/// The number of paths in the events of all moments.
pub open spec fn all_paths<R>(moments: Seq<Moment<R>>) -> nat
    decreases moments.len(),
{
    if moments.len() == 0 {
        0
    } else {
        moments.first().event.paths.len() + all_paths(moments.drop_first())
    }
}

/// A file does not get smaller when lines are written behind the others.
pub open spec fn grows(size_of: spec_fn(Seq<Seq<char>>) -> u64) -> bool {
    forall|lines: Seq<Seq<char>>, more: Seq<Seq<char>>|
        size_of(lines) <= #[trigger] size_of(lines + more)
}

/// Whether the file at the path can be opened, and is then read from its start.
pub open spec fn opens<R>(
    path: PathView,
    file: int,
    moment: Moment<R>,
    reading: Reading<R>,
) -> bool {
    (moment.answers.open)(path, None) matches Ok(reader) && (reading.file)(reader) == file && (
    reading.read)(reader) == 0
}

/// Whether the event reports a creation that matters.
pub open spec fn says_created(platform: Platform, event: EventView) -> bool {
    event.kind is Create && event_matters(platform, event.kind)
}

/// Whether the event reports a modification that matters, and not that the file has
/// gone.
pub open spec fn says_modified(platform: Platform, event: EventView) -> bool {
    &&& event.kind is Modify
    &&& event_matters(platform, event.kind)
    &&& known_existence(platform, event.kind) is None
}

/// Whether the log has that size.
pub open spec fn has_size<R>(log: Log, moment: Moment<R>, size: u64) -> bool {
    (moment.answers.size)(log.path) == Ok::<u64, std::io::Error>(size)
}

/// Whether the event of a moment has nothing to say of the log: it is not about its path,
/// unless to say that a missing log is still missing, nor about what is below it.
pub open spec fn not_about<R>(log: Log, moment: Moment<R>) -> bool {
    forall|i: int|
        0 <= i < moment.event.paths.len() ==> {
            let path = #[trigger] moment.event.paths[i];
            &&& path == log.path ==> log.state is Missing && moment.event.kind !is Remove && !(
            moment.answers.watch.exists)(path)
            &&& absolutified(path, true, moment.answers.watch) matches Ok(canonical) ==> parent_of(
                canonical,
            ) != Some(log.path)
        }
}

/// Whether a moment reports what has just happened to a log: the answers are true of it.
pub open spec fn reports<R>(
    platform: Platform,
    log: Log,
    happening: Happening,
    moment: Moment<R>,
    reading: Reading<R>,
    size_of: spec_fn(Seq<Seq<char>>) -> u64,
) -> bool {
    let answers = moment.answers;
    let after = log.after(happening, size_of);
    if happening is Elsewhere {
        not_about(log, moment)
    } else {
        &&& moment.event.paths == seq![log.path]
        &&& (moment.contents)(after.file) == after.lines
        &&& absolutified(log.path, true, answers.watch) == Ok::<PathView, IoError>(log.path)
        &&& !(answers.watch.is_dir)(log.path)
        &&& (answers.watch.exists)(log.path) == (after.state !is Missing)
        &&& match happening {
            Happening::Created(file, _) => {
                &&& says_created(platform, moment.event)
                &&& opens(log.path, file, moment, reading)
                &&& log.state is Missing ==> (answers.watch.watch)(log.path) is Ok
            },
            Happening::Written(_) => {
                &&& says_modified(platform, moment.event)
                &&& has_size(log, moment, size_of(after.lines))
            },
            Happening::Touched(_) => {
                &&& !event_matters(platform, moment.event.kind)
                &&& moment.event.kind !is Remove
                &&& known_existence(platform, moment.event.kind) is None
            },
            Happening::Away => (answers.watch.watch)(parent_of(log.path)->0) is Ok,
            Happening::Replaced(_, _) => {
                &&& !event_matters(platform, moment.event.kind)
                &&& (answers.watch.watch)(log.path) is Ok
                &&& (moment.contents)(log.file) == log.lines
            },
            Happening::Noticed(_) => {
                &&& opens(log.path, log.file, moment, reading)
                &&& says_created(platform, moment.event) || (says_modified(platform, moment.event)
                    && has_size(log, moment, size_of(after.lines)) && size_of(after.lines)
                    < log.position)
            },
            Happening::Shorter(file, lines) => {
                &&& says_modified(platform, moment.event)
                &&& has_size(log, moment, size_of(lines))
                &&& size_of(lines) < log.position
                &&& opens(log.path, file, moment, reading)
            },
            Happening::Elsewhere => true,
        }
    }
}

/// Whether each moment reports a happening, before the next one happens.
pub open spec fn reports_all<R>(
    platform: Platform,
    log: Log,
    happenings: Seq<Happening>,
    moments: Seq<Moment<R>>,
    reading: Reading<R>,
    size_of: spec_fn(Seq<Seq<char>>) -> u64,
) -> bool
    decreases happenings.len(),
{
    &&& happenings.len() == moments.len()
    &&& happenings.len() > 0 ==> {
        &&& log.allows(happenings.first())
        &&& reports(platform, log, happenings.first(), moments.first(), reading, size_of)
        &&& reports_all(
            platform,
            log.after(happenings.first(), size_of),
            happenings.drop_first(),
            moments.drop_first(),
            reading,
            size_of,
        )
    }
}

/// Whether an event is waited for and the log is followed: one that is there is watched,
/// and its reader and position are as the log says, and one that is not is held as
/// missing. Its path must not be that of a directory that is watched, and so many more
/// missing files can be counted.
pub open spec fn follows<R>(
    turn: LineTurn<R>,
    log: Log,
    reading: Reading<R>,
    size_of: spec_fn(Seq<Seq<char>>) -> u64,
    room: nat,
) -> bool {
    let watch = turn.events.watch;
    let inner = turn.inner;
    &&& turn.state is Events
    &&& turn.events.task is Receiving
    &&& watch.wf()
    &&& watch.pending.insert(log.path).len() + room < usize::MAX
    &&& !watch.directories.contains_key(log.path)
    &&& if log.state is Missing {
        watch.pending.contains(log.path)
    } else {
        &&& watch.files.contains(log.path)
        &&& inner.readers.contains_key(log.path)
        &&& inner.positions.contains_key(log.path)
        &&& inner.positions[log.path] == log.position
    }
    &&& log.state matches LogState::Open(read) ==> {
        &&& read <= log.lines.len()
        &&& (reading.file)(inner.readers[log.path]) == log.file
        &&& (reading.read)(inner.readers[log.path]) == read
        &&& log.position <= size_of(log.lines)
    }
}

/// How many attempts to read the event of a moment takes: one for each line, and one for
/// each file to find that there are no more.
pub open spec fn attempts<R>(
    platform: Platform,
    turn: LineTurn<R>,
    moment: Moment<R>,
    reading: Reading<R>,
) -> nat {
    let (_, event) = handled(
        platform,
        turn.events.watch,
        moment.event,
        0,
        moment.answers.watch,
    );
    let after = files_handled(platform, turn.inner, event, 0, moment.answers);
    lines_of(after, event.paths, 0, reading, moment.contents).0.len() + event.paths.len()
}

/// The lines that a sequence of moments yields, and what the reading of lines comes to,
/// with as many attempts to read as it takes.
pub open spec fn heard_all<R>(
    platform: Platform,
    turn: LineTurn<R>,
    moments: Seq<Moment<R>>,
    reading: Reading<R>,
) -> (Seq<LineView>, LineTurn<R>)
    decreases moments.len(),
{
    if moments.len() == 0 {
        (Seq::empty(), turn)
    } else {
        let (lines, next) = heard(
            platform,
            turn,
            moments.first(),
            reading,
            attempts(platform, turn, moments.first(), reading),
        );
        let (rest, end) = heard_all(platform, next, moments.drop_first(), reading);
        (lines + rest, end)
    }
}

/// Those of the lines that come from the file at the path.
pub open spec fn lines_from(lines: Seq<LineView>, path: PathView) -> Seq<LineView> {
    lines.filter(|line: LineView| line.source == path)
}

/// All lines with the path come from there.
proof fn lemma_lines_from_labelled(path: PathView, lines: Seq<Seq<char>>)
    ensures
        lines_from(labelled(path, lines), path) == labelled(path, lines),
    decreases lines.len(),
{
    reveal_with_fuel(Seq::filter, 2);
    if lines.len() > 0 {
        lemma_lines_from_labelled(path, lines.drop_last());
        assert(labelled(path, lines).drop_last() =~= labelled(path, lines.drop_last()));
        assert(labelled(path, lines) =~= labelled(path, lines.drop_last()).push(
            labelled(path, lines).last(),
        ));
    } else {
        assert(labelled(path, lines) =~= Seq::empty());
    }
}

/// Lines with other paths do not come from there.
proof fn lemma_lines_from_elsewhere(lines: Seq<LineView>, path: PathView)
    requires
        forall|i: int| 0 <= i < lines.len() ==> (#[trigger] lines[i]).source != path,
    ensures
        lines_from(lines, path) == Seq::<LineView>::empty(),
    decreases lines.len(),
{
    reveal_with_fuel(Seq::filter, 2);
    if lines.len() > 0 {
        assert forall|i: int| 0 <= i < lines.drop_last().len() implies (
        #[trigger] lines.drop_last()[i]).source != path by {
            assert(lines.drop_last()[i] == lines[i]);
        }
        lemma_lines_from_elsewhere(lines.drop_last(), path);
        assert(lines.last() == lines[lines.len() - 1]);
    }
}

/// The lines of one file with a reader.
proof fn lemma_lines_of_one<R>(
    inner: InnerView<R>,
    path: PathView,
    reading: Reading<R>,
    contents: spec_fn(int) -> Seq<Seq<char>>,
)
    requires
        reading.wf(),
        inner.readers.contains_key(path),
    ensures
        ({
            let reader = inner.readers[path];
            let (lines, after) = lines_of(inner, seq![path], 0, reading, contents);
            let left = reading.unread(reader, contents);
            &&& lines == labelled(path, left)
            &&& after.positions == inner.positions
            &&& after.readers.contains_key(path)
            &&& (reading.file)(after.readers[path]) == (reading.file)(reader)
            &&& (reading.read)(after.readers[path]) == (reading.read)(reader) + left.len()
        }),
{
    reveal_with_fuel(lines_of, 2);
    let reader = inner.readers[path];
    let left = reading.unread(reader, contents);
    reading.lemma_after(reader, left.len());
    assert(seq![path][0] == path);
    assert(labelled(path, left) + Seq::<LineView>::empty() =~= labelled(path, left));
}

/// The reading of other files yields no line of this one, and leaves its reader.
proof fn lemma_lines_of_others<R>(
    inner: InnerView<R>,
    paths: Seq<PathView>,
    index: nat,
    path: PathView,
    reading: Reading<R>,
    contents: spec_fn(int) -> Seq<Seq<char>>,
)
    requires
        !paths.contains(path),
    ensures
        ({
            let (lines, after) = lines_of(inner, paths, index, reading, contents);
            &&& forall|i: int| 0 <= i < lines.len() ==> (#[trigger] lines[i]).source != path
            &&& after.positions == inner.positions
            &&& after.readers.contains_key(path) == inner.readers.contains_key(path)
            &&& inner.readers.contains_key(path) ==> after.readers[path] == inner.readers[path]
        }),
    decreases paths.len() - index,
{
    if index < paths.len() {
        let other = paths[index as int];
        assert(other != path);
        if inner.readers.contains_key(other) {
            let further = inner.with_reader(
                other,
                reading.caught_up(inner.readers[other], contents),
            );
            lemma_lines_of_others(further, paths, index + 1nat, path, reading, contents);
            let left = reading.unread(inner.readers[other], contents);
            let (lines, _) = lines_of(inner, paths, index, reading, contents);
            let (rest, _) = lines_of(further, paths, index + 1nat, reading, contents);
            assert forall|i: int| 0 <= i < lines.len() implies (#[trigger] lines[i]).source
                != path by {
                if i < left.len() {
                    assert(lines[i] == labelled(other, left)[i]);
                } else {
                    assert(lines[i] == rest[i - left.len()]);
                }
            }
        } else {
            lemma_lines_of_others(inner, paths, index + 1nat, path, reading, contents);
        }
    }
}

/// The handling of an event about other files leaves the reader and the position of this
/// one.
proof fn lemma_others_handled<R>(
    platform: Platform,
    inner: InnerView<R>,
    event: EventView,
    index: nat,
    path: PathView,
    answers: FileAnswers<R>,
)
    requires
        !event.paths.contains(path),
    ensures
        ({
            let after = files_handled(platform, inner, event, index, answers);
            &&& after.positions.contains_key(path) == inner.positions.contains_key(path)
            &&& inner.positions.contains_key(path) ==> after.positions[path]
                == inner.positions[path]
            &&& after.readers.contains_key(path) == inner.readers.contains_key(path)
            &&& inner.readers.contains_key(path) ==> after.readers[path] == inner.readers[path]
        }),
    decreases event.paths.len() - index,
{
    if index < event.paths.len() && event_matters(platform, event.kind) {
        let other = event.paths[index as int];
        assert(other != path);
        let done = file_outcome(inner, event.kind, other, answers);
        lemma_others_handled(platform, done, event, index + 1nat, path, answers);
    }
}

/// What the event watch holds of a path: whether it is watched, missing, or counted as a
/// directory.
spec fn held_as(watch: WatchView, path: PathView) -> (bool, bool, bool) {
    (watch.files.contains(path), watch.pending.contains(path), watch.directories.contains_key(path))
}

/// An event that is not about the log changes nothing about what the event watch holds of
/// it, and is not about it when it has passed.
proof fn lemma_others_watched<R>(
    platform: Platform,
    watch: WatchView,
    log: Log,
    moment: Moment<R>,
    event: EventView,
    index: nat,
)
    requires
        index <= event.paths.len(),
        event.kind == moment.event.kind,
        watch.files.contains(log.path) || watch.pending.contains(log.path),
        log.state is Missing ==> !watch.files.contains(log.path),
        !watch.directories.contains_key(log.path),
        forall|i: int|
            0 <= i < event.paths.len() ==> moment.event.paths.contains(
                #[trigger] event.paths[i],
            ),
        forall|i: int| 0 <= i < index ==> #[trigger] event.paths[i] != log.path,
        not_about(log, moment),
    ensures
        ({
            let (after, kept) = handled(platform, watch, event, index, moment.answers.watch);
            &&& held_as(after, log.path) == held_as(watch, log.path)
            &&& !kept.paths.contains(log.path)
        }),
    decreases event.paths.len() - index,
{
    let answers = moment.answers.watch;
    if index < event.paths.len() {
        let path = event.paths[index as int];
        let place = moment.event.paths.index_of(path);
        assert(moment.event.paths[place] == path);
        let done = path_outcome(platform, watch, event.kind, path, answers);
        assert(held_as(done, log.path) == held_as(watch, log.path));
        if path_stays(done, event.kind, path) {
            assert(path != log.path);
            lemma_others_watched(platform, done, log, moment, event, index + 1nat);
        } else {
            let fewer = without_path(event, index as int);
            assert forall|i: int| 0 <= i < fewer.paths.len() implies moment.event.paths.contains(
                #[trigger] fewer.paths[i],
            ) by {
                if i < index {
                    assert(fewer.paths[i] == event.paths[i]);
                } else {
                    assert(fewer.paths[i] == event.paths[i + 1]);
                }
            }
            assert forall|i: int| 0 <= i < index implies #[trigger] fewer.paths[i]
                != log.path by {
                assert(fewer.paths[i] == event.paths[i]);
            }
            lemma_others_watched(platform, done, log, moment, fewer, index);
        }
    }
}

/// What is heard of elsewhere yields none of the lines of the log, which is followed on.
proof fn lemma_elsewhere_is_heard<R>(
    platform: Platform,
    turn: LineTurn<R>,
    log: Log,
    moment: Moment<R>,
    reading: Reading<R>,
    size_of: spec_fn(Seq<Seq<char>>) -> u64,
    room: nat,
)
    requires
        reading.wf(),
        follows(turn, log, reading, size_of, room),
        not_about(log, moment),
        room >= moment.event.paths.len(),
    ensures
        ({
            let reads = attempts(platform, turn, moment, reading);
            let (lines, next) = heard(platform, turn, moment, reading, reads);
            &&& lines_from(lines, log.path) == Seq::<LineView>::empty()
            &&& follows(
                next,
                log,
                reading,
                size_of,
                (room - moment.event.paths.len()) as nat,
            )
        }),
{
    broadcast use vstd::set_lib::group_set_lib_default;

    let watch = turn.events.watch;
    let path = log.path;
    let answers = moment.answers;
    let (watched, event) = handled(platform, watch, moment.event, 0, answers.watch);
    let after = files_handled(platform, turn.inner, event, 0, answers);
    let (lines, end) = lines_of(after, event.paths, 0, reading, moment.contents);
    assert(watch.pending.len() <= watch.pending.insert(path).len());
    handling_keeps_the_watch_consistent(platform, watch, moment.event, 0, answers.watch);
    lemma_others_watched(platform, watch, log, moment, moment.event, 0);
    lemma_others_handled(platform, turn.inner, event, 0, path, answers);
    lemma_lines_of_others(after, event.paths, 0, path, reading, moment.contents);
    lemma_lines_from_elsewhere(lines, path);
    if log.state is Missing {
        assert(watch.pending.insert(path) =~= watch.pending);
        assert(watched.pending.insert(path) =~= watched.pending);
    }
    assert(watched.files.contains(path) || watched.pending.contains(path));
    event_yields_its_lines(
        platform,
        turn,
        moment,
        reading,
        attempts(platform, turn, moment, reading),
    );
}

/// The event that passes the event watch when something happens to a log, other than
/// elsewhere: it keeps its path unless the log was renamed away, or was removed and is
/// back.
spec fn passed(log: Log, happening: Happening, event: EventView) -> EventView {
    if (happening is Away && event.kind !is Remove) || (happening is Replaced
        && event.kind is Remove) {
        EventView { paths: Seq::empty(), ..event }
    } else {
        event
    }
}

/// What happens to a log passes the event watch, which then holds the log as it is.
proof fn lemma_happening_passes<R>(
    platform: Platform,
    watch: WatchView,
    log: Log,
    happening: Happening,
    moment: Moment<R>,
    reading: Reading<R>,
    size_of: spec_fn(Seq<Seq<char>>) -> u64,
)
    requires
        watch.wf(),
        watch.pending.insert(log.path).len() < usize::MAX,
        !watch.directories.contains_key(log.path),
        if log.state is Missing {
            watch.pending.contains(log.path)
        } else {
            watch.files.contains(log.path)
        },
        log.allows(happening),
        happening !is Elsewhere,
        reports(platform, log, happening, moment, reading, size_of),
    ensures
        ({
            let (after, event) = handled(platform, watch, moment.event, 0, moment.answers.watch);
            &&& event == passed(log, happening, moment.event)
            &&& after.wf()
            &&& after.pending.insert(log.path) == watch.pending.insert(log.path)
            &&& !after.directories.contains_key(log.path)
            &&& !after.is_empty()
            &&& if happening is Away {
                after.pending.contains(log.path)
            } else {
                after.files.contains(log.path)
            }
        }),
{
    broadcast use vstd::set_lib::group_set_lib_default;

    let path = log.path;
    let answers = moment.answers.watch;
    let (after, event) = handled(platform, watch, moment.event, 0, answers);
    assert(watch.pending.len() <= watch.pending.insert(path).len());
    handling_keeps_the_watch_consistent(platform, watch, moment.event, 0, answers);
    if happening is Away {
        file_that_has_gone_is_missing(platform, watch, moment.event, path, answers);
    } else if log.state is Missing {
        file_that_appears_is_watched(platform, watch, moment.event, path, answers);
    } else {
        lemma_present_log_stays_watched(platform, watch, log, moment);
    }
    assert(after.pending.insert(path) =~= watch.pending.insert(path));
    assert(after.files.contains(path) || after.pending.contains(path));
    assert(event.paths =~= passed(log, happening, moment.event).paths);
}

/// What happens to a log and has passed the event watch leaves the log open where it is to
/// be read from, and yields what there is to read.
proof fn lemma_happening_opens<R>(
    platform: Platform,
    inner: InnerView<R>,
    log: Log,
    happening: Happening,
    moment: Moment<R>,
    reading: Reading<R>,
    size_of: spec_fn(Seq<Seq<char>>) -> u64,
)
    requires
        reading.wf(),
        grows(size_of),
        log.state !is Missing ==> inner.readers.contains_key(log.path)
            && inner.positions.contains_key(log.path) && inner.positions[log.path]
            == log.position,
        log.state matches LogState::Open(read) ==> read <= log.lines.len() && (reading.file)(
            inner.readers[log.path],
        ) == log.file && (reading.read)(inner.readers[log.path]) == read && log.position
            <= size_of(log.lines),
        log.allows(happening),
        happening !is Elsewhere,
        reports(platform, log, happening, moment, reading, size_of),
    ensures
        ({
            let event = passed(log, happening, moment.event);
            let next = log.after(happening, size_of);
            let opened = files_handled(platform, inner, event, 0, moment.answers);
            let (lines, after) = lines_of(opened, event.paths, 0, reading, moment.contents);
            &&& lines_from(lines, log.path) + labelled(log.path, next.left()) == labelled(
                log.path,
                log.left() + new_lines(happening),
            )
            &&& next.state !is Missing ==> after.readers.contains_key(log.path)
                && after.positions.contains_key(log.path) && after.positions[log.path]
                == next.position
            &&& next.state matches LogState::Open(read) ==> read <= next.lines.len() && (
            reading.file)(after.readers[log.path]) == next.file && (reading.read)(
                after.readers[log.path],
            ) == read && next.position <= size_of(next.lines)
        }),
{
    let path = log.path;
    let answers = moment.answers;
    let event = passed(log, happening, moment.event);
    let next = log.after(happening, size_of);
    let opened = files_handled(platform, inner, event, 0, answers);
    let (lines, after) = lines_of(opened, event.paths, 0, reading, moment.contents);
    match happening {
        Happening::Away => {
            reveal_with_fuel(files_handled, 2);
            assert(opened == inner);
        },
        Happening::Written(more) => {
            assert(size_of(log.lines) <= size_of(log.lines + more));
            grown_file_keeps_its_reader(platform, inner, event, path, answers);
        },
        Happening::Touched(more) => {
            assert(size_of(log.lines) <= size_of(log.lines + more));
        },
        Happening::Replaced(_, _) => {},
        _ => {
            if says_created(platform, event) {
                created_file_is_read_from_its_start(platform, inner, event, path, answers);
            } else {
                rolled_file_is_read_from_its_start(platform, inner, event, path, answers);
            }
            assert(next.lines.skip(0) =~= next.lines);
        },
    }
    if event.paths.len() > 0 {
        lemma_lines_of_one(opened, path, reading, moment.contents);
    } else {
        reveal_with_fuel(lines_of, 1);
    }
    lemma_yield(log, happening, size_of, lines);
}

/// What happens to a log that is followed yields the lines that were left and those that
/// come with it, but for those that are left then, and the log is followed on.
proof fn lemma_happening_is_heard<R>(
    platform: Platform,
    turn: LineTurn<R>,
    log: Log,
    happening: Happening,
    moment: Moment<R>,
    reading: Reading<R>,
    size_of: spec_fn(Seq<Seq<char>>) -> u64,
    room: nat,
)
    requires
        reading.wf(),
        grows(size_of),
        follows(turn, log, reading, size_of, room),
        log.allows(happening),
        reports(platform, log, happening, moment, reading, size_of),
        room >= moment.event.paths.len(),
    ensures
        ({
            let reads = attempts(platform, turn, moment, reading);
            let (lines, next) = heard(platform, turn, moment, reading, reads);
            let after = log.after(happening, size_of);
            &&& lines_from(lines, log.path) + labelled(log.path, after.left()) == labelled(
                log.path,
                log.left() + new_lines(happening),
            )
            &&& follows(
                next,
                after,
                reading,
                size_of,
                (room - moment.event.paths.len()) as nat,
            )
        }),
{
    if happening is Elsewhere {
        let left = log.left();
        lemma_elsewhere_is_heard(platform, turn, log, moment, reading, size_of, room);
        assert(left + new_lines(happening) =~= left);
        assert(Seq::<LineView>::empty() + labelled(log.path, left) =~= labelled(log.path, left));
    } else {
        let watch = turn.events.watch;
        let reads = attempts(platform, turn, moment, reading);
        lemma_happening_passes(platform, watch, log, happening, moment, reading, size_of);
        lemma_happening_opens(platform, turn.inner, log, happening, moment, reading, size_of);
        event_yields_its_lines(platform, turn, moment, reading, reads);
    }
}

/// The lines that a happening yields are those that were left and those that come with
/// it, but for those that are left then.
proof fn lemma_yield(
    log: Log,
    happening: Happening,
    size_of: spec_fn(Seq<Seq<char>>) -> u64,
    lines: Seq<LineView>,
)
    requires
        log.allows(happening),
        log.state matches LogState::Open(read) ==> read <= log.lines.len(),
        happening !is Elsewhere,
        match happening {
            Happening::Written(more) => lines == labelled(
                log.path,
                (log.lines + more).skip(log.state->Open_0 as int),
            ),
            Happening::Touched(more) => lines == labelled(
                log.path,
                (log.lines + more).skip(log.state->Open_0 as int),
            ),
            Happening::Away => lines.len() == 0,
            Happening::Replaced(_, _) => lines.len() == 0,
            _ => lines == labelled(log.path, log.after(happening, size_of).lines),
        },
    ensures
        lines_from(lines, log.path) + labelled(log.path, log.after(happening, size_of).left())
            == labelled(log.path, log.left() + new_lines(happening)),
{
    let after = log.after(happening, size_of);
    let all = log.left() + new_lines(happening);
    assert(log.caught_up() ==> log.left() =~= Seq::empty());
    assert(after.caught_up() ==> after.left() =~= Seq::empty());
    assert(labelled(log.path, Seq::empty()) =~= Seq::<LineView>::empty());
    match happening {
        Happening::Away => {
            lemma_lines_from_elsewhere(lines, log.path);
            assert(all =~= Seq::empty());
        },
        Happening::Replaced(_, new) => {
            lemma_lines_from_elsewhere(lines, log.path);
            assert(all =~= new);
            assert(Seq::<LineView>::empty() + labelled(log.path, new) =~= labelled(log.path, new));
        },
        Happening::Written(more) => {
            assert((log.lines + more).skip(log.state->Open_0 as int) =~= all);
            lemma_lines_from_labelled(log.path, all);
        },
        Happening::Touched(more) => {
            assert((log.lines + more).skip(log.state->Open_0 as int) =~= all);
            lemma_lines_from_labelled(log.path, all);
        },
        _ => {
            assert(after.lines =~= all);
            lemma_lines_from_labelled(log.path, all);
        },
    }
    assert(lines_from(lines, log.path) + labelled(log.path, after.left()) =~= labelled(
        log.path,
        all,
    ));
}

/// A log that is watched stays watched when an event about it is handled while there is a
/// file. The event keeps its path unless it is about a removal.
proof fn lemma_present_log_stays_watched<R>(
    platform: Platform,
    watch: WatchView,
    log: Log,
    moment: Moment<R>,
)
    requires
        watch.wf(),
        watch.files.contains(log.path),
        !watch.directories.contains_key(log.path),
        moment.event.paths == seq![log.path],
        absolutified(log.path, true, moment.answers.watch) == Ok::<PathView, IoError>(log.path),
        !(moment.answers.watch.is_dir)(log.path),
        (moment.answers.watch.exists)(log.path),
        known_existence(platform, moment.event.kind) is None || (moment.answers.watch.watch)(
            log.path,
        ) is Ok,
    ensures
        ({
            let (after, kept) = handled(
                platform,
                watch,
                moment.event,
                0,
                moment.answers.watch,
            );
            &&& after.files.contains(log.path)
            &&& after.pending == watch.pending
            &&& after.directories == watch.directories
            &&& kept.kind == moment.event.kind
            &&& kept.paths == if moment.event.kind is Remove {
                Seq::empty()
            } else {
                moment.event.paths
            }
        }),
{
    reveal_with_fuel(handled, 2);
    assert(moment.event.paths[0] == log.path);
    assert(!watch.pending.contains(log.path));
    let base = watch.without_file(log.path);
    assert(!base.watch_exists(log.path));
}

/// A log that is followed is read over its whole life: through any number of rotations,
/// whether a new file comes after the old one was heard to go or was there before, when it
/// is cut, and whatever else is heard of meanwhile. The lines that come from it, followed
/// by those that are left to read in the end, are those that were left at first, followed
/// by all that were written since: each once, in the order of the writing and with the path
/// of the log. And the log is followed on.
///
/// Each happening must be heard of and its lines read before the next one: what is written
/// to a file that is taken away or cut before it was heard of can be lost.
pub proof fn log_is_read_once_and_in_order<R>(
    platform: Platform,
    turn: LineTurn<R>,
    log: Log,
    happenings: Seq<Happening>,
    moments: Seq<Moment<R>>,
    reading: Reading<R>,
    size_of: spec_fn(Seq<Seq<char>>) -> u64,
    room: nat,
)
    requires
        reading.wf(),
        grows(size_of),
        follows(turn, log, reading, size_of, room),
        reports_all(platform, log, happenings, moments, reading, size_of),
        room >= all_paths(moments),
    ensures
        ({
            let (lines, end) = heard_all(platform, turn, moments, reading);
            let last = after_all(log, happenings, size_of);
            &&& lines_from(lines, log.path) + labelled(log.path, last.left()) == labelled(
                log.path,
                log.left() + all_lines(happenings),
            )
            &&& follows(end, last, reading, size_of, (room - all_paths(moments)) as nat)
        }),
    decreases happenings.len(),
{
    let path = log.path;
    if happenings.len() == 0 {
        reveal_with_fuel(Seq::filter, 1);
        assert(log.left() + all_lines(happenings) =~= log.left());
        assert(lines_from(Seq::empty(), path) + labelled(path, log.left()) =~= labelled(
            path,
            log.left(),
        ));
    } else {
        let first = happenings.first();
        let rest = happenings.drop_first();
        let moment = moments.first();
        let next = log.after(first, size_of);
        let last = after_all(log, happenings, size_of);
        let (head, then) = heard(
            platform,
            turn,
            moment,
            reading,
            attempts(platform, turn, moment, reading),
        );
        let (tail, _) = heard_all(platform, then, moments.drop_first(), reading);
        lemma_happening_is_heard(platform, turn, log, first, moment, reading, size_of, room);
        log_is_read_once_and_in_order(
            platform,
            then,
            next,
            rest,
            moments.drop_first(),
            reading,
            size_of,
            (room - moment.event.paths.len()) as nat,
        );
        Seq::filter_distributes_over_add(head, tail, |line: LineView| line.source == path);
        let left = labelled(path, last.left());
        assert(labelled(path, next.left() + all_lines(rest)) =~= labelled(path, next.left())
            + labelled(path, all_lines(rest)));
        assert(lines_from(head + tail, path) + left =~= lines_from(head, path) + (lines_from(
            tail,
            path,
        ) + left));
        assert(lines_from(head, path) + (labelled(path, next.left()) + labelled(
            path,
            all_lines(rest),
        )) =~= (lines_from(head, path) + labelled(path, next.left())) + labelled(
            path,
            all_lines(rest),
        ));
        assert(labelled(path, log.left() + new_lines(first)) + labelled(path, all_lines(rest))
            =~= labelled(path, log.left() + all_lines(happenings)));
    }
}

/// The log as it is once it was added: missing if there is no file, read to its end if that
/// is where it is read from, and otherwise still to be read.
pub open spec fn added_log(
    path: PathView,
    file: int,
    lines: Seq<Seq<char>>,
    exists: bool,
    from_start: bool,
    size_of: spec_fn(Seq<Seq<char>>) -> u64,
) -> Log {
    if !exists {
        Log { path, file, lines, position: 0, state: LogState::Missing }
    } else if from_start {
        Log { path, file, lines, position: 0, state: LogState::Open(0) }
    } else {
        Log { path, file, lines, position: size_of(lines), state: LogState::Open(lines.len()) }
    }
}

/// Whether a log can be added, and what is answered is true of it: the path that it is
/// added under is not held yet and, if there is a file, its reader stands where it is to
/// be read from.
pub open spec fn adds_log<R>(
    watch: WatchView,
    inner: InnerView<R>,
    path: PathView,
    file: int,
    lines: Seq<Seq<char>>,
    from_start: bool,
    answers: FileAnswers<R>,
    reading: Reading<R>,
    size_of: spec_fn(Seq<Seq<char>>) -> u64,
) -> bool {
    let result = add_line_outcome(watch, inner, path, from_start, answers).2;
    let source = result->Ok_0;
    let size = if from_start { 0u64 } else { size_of(lines) };
    let read = if from_start { 0 } else { lines.len() };
    &&& result is Ok
    &&& !watch.watch_exists(source)
    &&& !inner.reader_exists(source)
    &&& (answers.watch.exists)(source) ==> {
        &&& !from_start ==> (answers.size)(source) == Ok::<u64, std::io::Error>(size)
        &&& (answers.open)(source, Some(size)) matches Ok(reader) && (reading.file)(reader) == file
            && (reading.read)(reader) == read
    }
}

/// The wait for the first line after a log was added.
pub open spec fn first_wait<R>(
    watch: WatchView,
    inner: InnerView<R>,
    path: PathView,
    from_start: bool,
    answers: FileAnswers<R>,
) -> LineTurn<R> {
    let (watched, files, _) = add_line_outcome(watch, inner, path, from_start, answers);
    let events = Watching { watch: watched, task: TaskView::Idle };
    line_start(events, files, StreamStateView::Events)
}

/// A log that was added is followed from then on, whether it was missing or not, and
/// whether it is read from its start or from its end.
pub proof fn added_log_is_followed<R>(
    watch: WatchView,
    inner: InnerView<R>,
    path: PathView,
    file: int,
    lines: Seq<Seq<char>>,
    from_start: bool,
    answers: FileAnswers<R>,
    reading: Reading<R>,
    size_of: spec_fn(Seq<Seq<char>>) -> u64,
    room: nat,
)
    requires
        watch.wf(),
        watch.pending.len() + 1 + room < usize::MAX,
        adds_log(watch, inner, path, file, lines, from_start, answers, reading, size_of),
        grows(size_of),
    ensures
        ({
            let source = add_line_outcome(watch, inner, path, from_start, answers).2->Ok_0;
            let exists = (answers.watch.exists)(source);
            follows(
                first_wait(watch, inner, path, from_start, answers),
                added_log(source, file, lines, exists, from_start, size_of),
                reading,
                size_of,
                room,
            )
        }),
{
    broadcast use vstd::set_lib::group_set_lib_default;

    let (watched, files, result) = add_line_outcome(watch, inner, path, from_start, answers);
    let source = result->Ok_0;
    added_file_is_watched_or_missing(watch, path, answers.watch);
    adding_keeps_the_watch_consistent(watch, path, answers.watch);
    assert(files.pending.contains(source) || files.readers.contains_key(source));
    if !(answers.watch.exists)(source) {
        assert(watched.pending.insert(source) =~= watched.pending);
    } else {
        assert(watched == watch.with_file(source));
    }
    assert(parent_of(source)->0.len() < source.len());
    assert(watched.files.contains(source) || watched.pending.contains(source));
}

/// From its adding on, a log is read over its whole life: if nothing is left to read in
/// the end, the lines that come from it are all that were written since, each once and in
/// order, after those that it held already if it is read from its start.
pub proof fn added_log_is_read_once_and_in_order<R>(
    platform: Platform,
    watch: WatchView,
    inner: InnerView<R>,
    path: PathView,
    file: int,
    lines: Seq<Seq<char>>,
    from_start: bool,
    answers: FileAnswers<R>,
    happenings: Seq<Happening>,
    moments: Seq<Moment<R>>,
    reading: Reading<R>,
    size_of: spec_fn(Seq<Seq<char>>) -> u64,
)
    requires
        watch.wf(),
        watch.pending.len() + 1 + all_paths(moments) < usize::MAX,
        adds_log(watch, inner, path, file, lines, from_start, answers, reading, size_of),
        reading.wf(),
        grows(size_of),
        ({
            let source = add_line_outcome(watch, inner, path, from_start, answers).2->Ok_0;
            let exists = (answers.watch.exists)(source);
            let log = added_log(source, file, lines, exists, from_start, size_of);
            &&& reports_all(platform, log, happenings, moments, reading, size_of)
            &&& after_all(log, happenings, size_of).left().len() == 0
        }),
    ensures
        ({
            let source = add_line_outcome(watch, inner, path, from_start, answers).2->Ok_0;
            let held = if (answers.watch.exists)(source) && from_start {
                lines
            } else {
                Seq::empty()
            };
            let turn = first_wait(watch, inner, path, from_start, answers);
            lines_from(heard_all(platform, turn, moments, reading).0, source) == labelled(
                source,
                held + all_lines(happenings),
            )
        }),
{
    let source = add_line_outcome(watch, inner, path, from_start, answers).2->Ok_0;
    let exists = (answers.watch.exists)(source);
    let log = added_log(source, file, lines, exists, from_start, size_of);
    let turn = first_wait(watch, inner, path, from_start, answers);
    let room = all_paths(moments);
    added_log_is_followed(
        watch,
        inner,
        path,
        file,
        lines,
        from_start,
        answers,
        reading,
        size_of,
        room,
    );
    log_is_read_once_and_in_order(
        platform,
        turn,
        log,
        happenings,
        moments,
        reading,
        size_of,
        room,
    );
    let heard = lines_from(heard_all(platform, turn, moments, reading).0, source);
    let left = after_all(log, happenings, size_of).left();
    assert(log.left() =~= if exists && from_start {
        lines
    } else {
        Seq::empty()
    });
    assert(heard + labelled(source, left) =~= heard);
}

/// What a log that was added to be read from its start holds already comes with the next
/// event about it, together with what was written since.
pub proof fn log_is_read_from_its_start_with_the_next_event<R>(
    platform: Platform,
    turn: LineTurn<R>,
    log: Log,
    happening: Happening,
    moment: Moment<R>,
    reading: Reading<R>,
    size_of: spec_fn(Seq<Seq<char>>) -> u64,
    room: nat,
)
    requires
        reading.wf(),
        grows(size_of),
        follows(turn, log, reading, size_of, room),
        log.state == LogState::Open(0),
        happening is Written || happening is Touched,
        reports(platform, log, happening, moment, reading, size_of),
        room >= 1,
    ensures
        lines_from(
            heard(
                platform,
                turn,
                moment,
                reading,
                attempts(platform, turn, moment, reading),
            ).0,
            log.path,
        ) == labelled(log.path, log.lines + new_lines(happening)),
{
    lemma_happening_is_heard(platform, turn, log, happening, moment, reading, size_of, room);
    let after = log.after(happening, size_of);
    assert(after.left() =~= Seq::empty());
    assert(log.left() =~= log.lines);
    let lines = lines_from(
        heard(
            platform,
            turn,
            moment,
            reading,
            attempts(platform, turn, moment, reading),
        ).0,
        log.path,
    );
    assert(labelled(log.path, after.left()) =~= Seq::<LineView>::empty());
    assert(lines + Seq::<LineView>::empty() =~= lines);
}

} // verus!
