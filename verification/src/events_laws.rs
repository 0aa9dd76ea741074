//! What the event watch comes to when all that it asks for is answered.
use crate::absolutify::{
    absolutified, absolutify_next, absolutify_request, absolutify_run, absolutify_start,
    absolutify_yields_the_canonical_path, AbsolutifyStep,
};
use crate::add_file::{
    add_canonical, add_next, add_ok, add_request, add_start, created, AddFile, AddStep,
};
use crate::error::{io_error_of, IoError, NotifyError};
use crate::event::{EventKind, EventView, Platform};
use crate::events::{
    adding, ended, handle_after, handle_from, known_existence, next_turn, ongoing,
    path_added_again, path_known, path_next, path_start, path_stays, receiving, task_ok, task_step,
    without_path, HandleStage, PathStep, Step, TaskView, Turn,
};
use crate::path::{file_name_of, joined_path_has_parent_and_name, parent_of, PathView};
use crate::request::{Answers, Reply, Request};
use crate::watch::{children, WatchView};
use vstd::prelude::*;

verus! {

/// A turn, and at most `turns` more with the answers to what they ask for.
pub open spec fn run(platform: Platform, turn: Turn, answers: Answers, turns: nat) -> Turn
    decreases turns,
{
    match turn.step {
        Step::Ask(request) if turns > 0 => run(
            platform,
            next_turn(platform, turn.watch, turn.task, answers.to(request)),
            answers,
            (turns - 1) as nat,
        ),
        _ => turn,
    }
}

/// What comes of the adding of a file: what is watched then, and the path that the
/// file is watched under or the error.
pub open spec fn add_outcome(watch: WatchView, path: PathView, answers: Answers) -> (
    WatchView,
    Result<PathView, IoError>,
) {
    match absolutified(path, true, answers) {
        Err(error) => (watch, Err(error)),
        Ok(path) => {
            let parent = parent_of(path)->0;
            if (answers.is_dir)(path) {
                (watch, Err(IoError::IsADirectory))
            } else if watch.watch_exists(path) {
                (watch, Ok(path))
            } else if (answers.exists)(path) {
                match (answers.watch)(path) {
                    Ok(_) => (watch.with_file(path), Ok(path)),
                    Err(error) => (watch, Err(io_error_of(error))),
                }
            } else if watch.watch_exists(parent) {
                (watch.with_pending(path, parent), Ok(path))
            } else {
                match (answers.watch)(parent) {
                    Ok(_) => (watch.with_pending(path, parent), Ok(path)),
                    Err(error) => (watch, Err(io_error_of(error))),
                }
            }
        },
    }
}

/// Whether a path of an event is taken to exist: by the kind of the event if that says
/// anything, or else by the filesystem.
pub open spec fn taken_to_exist(
    platform: Platform,
    kind: EventKind,
    path: PathView,
    answers: Answers,
) -> bool {
    match known_existence(platform, kind) {
        Some(exists) => exists,
        None => (answers.exists)(path),
    }
}

/// What is watched after one path of an event has been dealt with.
pub open spec fn path_outcome(
    platform: Platform,
    watch: WatchView,
    kind: EventKind,
    path: PathView,
    answers: Answers,
) -> WatchView {
    let exists = taken_to_exist(platform, kind, path, answers);
    if exists && watch.pending.contains(path) {
        add_outcome(watch.without_pending(path, parent_of(path)->0), path, answers).0
    } else if !exists && watch.files.contains(path) {
        add_outcome(watch.without_file(path), path, answers).0
    } else {
        watch
    }
}

/// What comes of the handling of an event from the path at that place on: what is
/// watched then, and the event with the paths that it keeps.
pub open spec fn handled(
    platform: Platform,
    watch: WatchView,
    event: EventView,
    index: nat,
    answers: Answers,
) -> (WatchView, EventView)
    decreases event.paths.len() - index,
{
    if index >= event.paths.len() {
        (watch, event)
    } else {
        let path = event.paths[index as int];
        let after = path_outcome(platform, watch, event.kind, path, answers);
        if path_stays(after, event.kind, path) {
            handled(platform, after, event, index + 1nat, answers)
        } else {
            handled(platform, after, without_path(event, index as int), index, answers)
        }
    }
}

/// A step of the adding of a file, and at most `turns` more.
spec fn add_run(
    watch: WatchView,
    step: AddStep<PathView, Seq<u8>>,
    initial_event: bool,
    answers: Answers,
    turns: nat,
) -> (WatchView, AddStep<PathView, Seq<u8>>)
    decreases turns,
{
    match step {
        AddStep::Continue(state) if turns > 0 => {
            let (after, next) = add_next(
                watch,
                state,
                initial_event,
                answers.to(add_request(state)),
            );
            add_run(after, next, initial_event, answers, (turns - 1) as nat)
        },
        _ => (watch, step),
    }
}

/// A step of the handling of a path, and at most `turns` more.
spec fn path_run(
    watch: WatchView,
    step: PathStep<PathView, Seq<u8>>,
    path: PathView,
    answers: Answers,
    turns: nat,
) -> (WatchView, PathStep<PathView, Seq<u8>>)
    decreases turns,
{
    match step {
        PathStep::Continue(stage) if turns > 0 => {
            let request = stage_request(path, stage);
            let (after, next) = path_next(watch, path, stage, answers.to(request));
            path_run(after, next, path, answers, (turns - 1) as nat)
        },
        _ => (watch, step),
    }
}

/// What the handling of a path asks for.
spec fn stage_request(path: PathView, stage: HandleStage<PathView, Seq<u8>>) -> Request<
    PathView,
    EventView,
> {
    match stage {
        HandleStage::Exists => Request::Exists(path),
        HandleStage::Unwatch(dir) => Request::Unwatch(dir),
        HandleStage::Adding(state) => add_request(state),
    }
}

/// What has ended stays as it is.
proof fn lemma_run_more(platform: Platform, turn: Turn, answers: Answers, few: nat, many: nat)
    requires
        few <= many,
        run(platform, turn, answers, few).step !is Ask,
    ensures
        run(platform, turn, answers, many) == run(platform, turn, answers, few),
    decreases few,
{
    if turn.step is Ask && few > 0 {
        lemma_run_more(
            platform,
            next_turn(platform, turn.watch, turn.task, answers.to(turn.step->Ask_0)),
            answers,
            (few - 1) as nat,
            (many - 1) as nat,
        );
    }
}

/// What has been added stays added.
proof fn lemma_add_run_more(
    watch: WatchView,
    step: AddStep<PathView, Seq<u8>>,
    initial_event: bool,
    answers: Answers,
    few: nat,
    many: nat,
)
    requires
        few <= many,
        add_run(watch, step, initial_event, answers, few).1 is Done,
    ensures
        add_run(watch, step, initial_event, answers, many) == add_run(
            watch,
            step,
            initial_event,
            answers,
            few,
        ),
    decreases few,
{
    if step is Continue && few > 0 {
        let state = step->Continue_0;
        let (after, next) = add_next(watch, state, initial_event, answers.to(add_request(state)));
        lemma_add_run_more(
            after,
            next,
            initial_event,
            answers,
            (few - 1) as nat,
            (many - 1) as nat,
        );
    }
}

/// The adding of a file first makes its path canonical.
proof fn lemma_add_absolutifies(
    watch: WatchView,
    step: AbsolutifyStep<PathView, Seq<u8>>,
    initial_event: bool,
    answers: Answers,
    turns: nat,
    rest: nat,
)
    requires
        absolutify_run(step, answers, turns) is Done,
        add_run(
            watch,
            add_canonical(absolutify_run(step, answers, turns)),
            initial_event,
            answers,
            rest,
        ).1 is Done,
    ensures
        add_run(watch, add_canonical(step), initial_event, answers, turns + rest) == add_run(
            watch,
            add_canonical(absolutify_run(step, answers, turns)),
            initial_event,
            answers,
            rest,
        ),
    decreases turns,
{
    match step {
        AbsolutifyStep::Done(_) => {
            lemma_add_run_more(
                watch,
                add_canonical(step),
                initial_event,
                answers,
                rest,
                turns + rest,
            );
        },
        AbsolutifyStep::Continue(state) => {
            let next = absolutify_next(state, answers.to(absolutify_request(state)));
            lemma_add_absolutifies(
                watch,
                next,
                initial_event,
                answers,
                (turns - 1) as nat,
                rest,
            );
            assert(add_canonical(step) == AddStep::<PathView, Seq<u8>>::Continue(
                AddFile::Absolutify(state),
            ));
        },
    }
}

/// With seven answers at most, a file has been added.
proof fn lemma_add_run(watch: WatchView, path: PathView, initial_event: bool, answers: Answers)
    ensures
        add_run(watch, add_start(path), initial_event, answers, 7) == (
            add_outcome(watch, path, answers).0,
            AddStep::<PathView, Seq<u8>>::Done(add_outcome(watch, path, answers).1),
        ),
{
    reveal_with_fuel(add_run, 5);
    absolutify_yields_the_canonical_path(path, true, answers);
    match absolutified(path, true, answers) {
        Ok(canonical) => {
            joined_path_has_parent_and_name(canonical.drop_last(), canonical.last()->Normal_0);
            assert(parent_of(canonical) is Some);
        },
        Err(_) => {},
    }
    lemma_add_absolutifies(
        watch,
        absolutify_start(path, true),
        initial_event,
        answers,
        3,
        4,
    );
}

/// The adding of a file, in turns.
proof fn lemma_run_adding(
    platform: Platform,
    watch: WatchView,
    state: AddFile<PathView, Seq<u8>>,
    initial_event: bool,
    answers: Answers,
    turns: nat,
)
    ensures
        run(platform, ongoing(watch, TaskView::Adding(state, initial_event)), answers, turns) == {
            let (after, step) = add_run(
                watch,
                AddStep::Continue(state),
                initial_event,
                answers,
                turns,
            );
            match step {
                AddStep::Continue(state) => ongoing(after, TaskView::Adding(state, initial_event)),
                AddStep::Done(result) => ended(after, Step::Added(result)),
            }
        },
    decreases turns,
{
    reveal_with_fuel(run, 2);
    reveal_with_fuel(add_run, 2);
    if turns > 0 {
        let (after, next) = add_next(watch, state, initial_event, answers.to(add_request(state)));
        match next {
            AddStep::Continue(state) => {
                lemma_run_adding(
                    platform,
                    after,
                    state,
                    initial_event,
                    answers,
                    (turns - 1) as nat,
                );
            },
            AddStep::Done(_) => {},
        }
    }
}

/// To add a file is to come to the outcome, with seven answers at most.
pub proof fn adding_comes_to_its_outcome(
    platform: Platform,
    watch: WatchView,
    path: PathView,
    initial_event: bool,
    answers: Answers,
)
    ensures
        run(platform, adding(watch, path, initial_event), answers, 7) == ended(
            add_outcome(watch, path, answers).0,
            Step::Added(add_outcome(watch, path, answers).1),
        ),
{
    lemma_add_run(watch, path, initial_event, answers);
    match add_start(path) {
        AddStep::Continue(state) => {
            lemma_run_adding(platform, watch, state, initial_event, answers, 7);
        },
        AddStep::Done(_) => {},
    }
}

/// The adding of a file again, as part of the handling of a path.
proof fn lemma_path_adds(
    watch: WatchView,
    state: AddFile<PathView, Seq<u8>>,
    path: PathView,
    answers: Answers,
    turns: nat,
)
    requires
        add_run(watch, AddStep::Continue(state), false, answers, turns).1 is Done,
    ensures
        path_run(watch, PathStep::Continue(HandleStage::Adding(state)), path, answers, turns) == (
            add_run(watch, AddStep::Continue(state), false, answers, turns).0,
            PathStep::<PathView, Seq<u8>>::Done,
        ),
    decreases turns,
{
    reveal_with_fuel(path_run, 2);
    reveal_with_fuel(add_run, 2);
    let (after, next) = add_next(watch, state, false, answers.to(add_request(state)));
    match next {
        AddStep::Continue(state) => {
            lemma_path_adds(after, state, path, answers, (turns - 1) as nat);
        },
        AddStep::Done(_) => {},
    }
}

/// What has been dealt with stays dealt with.
proof fn lemma_path_run_more(
    watch: WatchView,
    step: PathStep<PathView, Seq<u8>>,
    path: PathView,
    answers: Answers,
    few: nat,
    many: nat,
)
    requires
        few <= many,
        path_run(watch, step, path, answers, few).1 is Done,
    ensures
        path_run(watch, step, path, answers, many) == path_run(watch, step, path, answers, few),
    decreases few,
{
    if step is Continue && few > 0 {
        let stage = step->Continue_0;
        let (after, next) = path_next(watch, path, stage, answers.to(stage_request(path, stage)));
        lemma_path_run_more(after, next, path, answers, (few - 1) as nat, (many - 1) as nat);
    }
}

/// A path that is added again has been dealt with after seven answers at most.
proof fn lemma_path_added_again(watch: WatchView, path: PathView, answers: Answers)
    ensures
        ({
            let (after, step) = path_added_again(watch, path);
            path_run(after, step, path, answers, 7) == (
                add_outcome(watch, path, answers).0,
                PathStep::<PathView, Seq<u8>>::Done,
            )
        }),
{
    lemma_add_run(watch, path, false, answers);
    match add_start(path) {
        AddStep::Continue(state) => {
            lemma_path_adds(watch, state, path, answers, 7);
        },
        AddStep::Done(_) => {},
    }
}

/// A path of which it is known whether it exists has been dealt with after eight
/// answers at most.
proof fn lemma_path_known(watch: WatchView, path: PathView, exists: bool, answers: Answers)
    ensures
        ({
            let (after, step) = path_known(watch, path, exists);
            path_run(after, step, path, answers, 8) == (
                if exists && watch.pending.contains(path) {
                    add_outcome(watch.without_pending(path, parent_of(path)->0), path, answers).0
                } else if !exists && watch.files.contains(path) {
                    add_outcome(watch.without_file(path), path, answers).0
                } else {
                    watch
                },
                PathStep::<PathView, Seq<u8>>::Done,
            )
        }),
{
    let (after, step) = path_known(watch, path, exists);
    if exists && watch.pending.contains(path) {
        let base = watch.without_pending(path, parent_of(path)->0);
        lemma_path_added_again(base, path, answers);
        if step matches PathStep::Continue(HandleStage::Unwatch(dir)) {
            let next = path_added_again(base, path);
            assert(path_run(after, step, path, answers, 8) == path_run(
                next.0,
                next.1,
                path,
                answers,
                7,
            ));
        } else {
            lemma_path_run_more(after, step, path, answers, 7, 8);
        }
    } else if !exists && watch.files.contains(path) {
        lemma_path_added_again(watch.without_file(path), path, answers);
        lemma_path_run_more(after, step, path, answers, 7, 8);
    }
}

/// A path of an event has been dealt with after nine answers at most.
proof fn lemma_path_run(
    platform: Platform,
    watch: WatchView,
    kind: EventKind,
    path: PathView,
    answers: Answers,
)
    ensures
        ({
            let (after, step) = path_start(platform, watch, kind, path);
            path_run(after, step, path, answers, 9) == (
                path_outcome(platform, watch, kind, path, answers),
                PathStep::<PathView, Seq<u8>>::Done,
            )
        }),
{
    let (after, step) = path_start(platform, watch, kind, path);
    match known_existence(platform, kind) {
        Some(exists) => {
            lemma_path_known(watch, path, exists, answers);
            lemma_path_run_more(after, step, path, answers, 8, 9);
        },
        None => {
            let exists = (answers.exists)(path);
            lemma_path_known(watch, path, exists, answers);
            let next = path_known(watch, path, exists);
            assert(path_run(after, step, path, answers, 9) == path_run(
                next.0,
                next.1,
                path,
                answers,
                8,
            ));
        },
    }
}

/// The handling of a path, in turns, and what follows it.
proof fn lemma_run_handling(
    platform: Platform,
    watch: WatchView,
    event: EventView,
    index: nat,
    stage: HandleStage<PathView, Seq<u8>>,
    answers: Answers,
    turns: nat,
    rest: nat,
)
    requires
        index < event.paths.len(),
        ({
            let (after, step) = path_run(
                watch,
                PathStep::Continue(stage),
                event.paths[index as int],
                answers,
                turns,
            );
            step is Done && run(
                platform,
                handle_after(platform, after, event, index),
                answers,
                rest,
            ).step !is Ask
        }),
    ensures
        run(
            platform,
            ongoing(watch, TaskView::Handling(event, index, stage)),
            answers,
            turns + rest,
        ) == run(
            platform,
            handle_after(
                platform,
                path_run(
                    watch,
                    PathStep::Continue(stage),
                    event.paths[index as int],
                    answers,
                    turns,
                ).0,
                event,
                index,
            ),
            answers,
            rest,
        ),
    decreases turns,
{
    reveal_with_fuel(path_run, 2);
    let path = event.paths[index as int];
    assert(task_step(TaskView::Handling(event, index, stage)) == Step::<PathView, EventView>::Ask(
        stage_request(path, stage),
    ));
    let (after, next) = path_next(watch, path, stage, answers.to(stage_request(path, stage)));
    match next {
        PathStep::Continue(stage) => {
            lemma_run_handling(
                platform,
                after,
                event,
                index,
                stage,
                answers,
                (turns - 1) as nat,
                rest,
            );
        },
        PathStep::Done => {
            lemma_run_more(
                platform,
                handle_after(platform, after, event, index),
                answers,
                rest,
                (turns - 1 + rest) as nat,
            );
        },
    }
}

/// To handle an event is to come to what `handled` says, with nine answers at most
/// for each path.
pub proof fn handling_comes_to_its_outcome(
    platform: Platform,
    watch: WatchView,
    event: EventView,
    index: nat,
    answers: Answers,
)
    requires
        index <= event.paths.len(),
    ensures
        run(
            platform,
            handle_from(platform, watch, event, index),
            answers,
            (9 * (event.paths.len() - index)) as nat,
        ) == ended(
            handled(platform, watch, event, index, answers).0,
            Step::Next(Ok(Some(handled(platform, watch, event, index, answers).1))),
        ),
    decreases event.paths.len() - index,
{
    if index < event.paths.len() {
        let path = event.paths[index as int];
        let rest = (9 * (event.paths.len() - index - 1)) as nat;
        let done = path_outcome(platform, watch, event.kind, path, answers);
        if path_stays(done, event.kind, path) {
            handling_comes_to_its_outcome(platform, done, event, index + 1nat, answers);
        } else {
            handling_comes_to_its_outcome(
                platform,
                done,
                without_path(event, index as int),
                index,
                answers,
            );
        }
        lemma_path_run(platform, watch, event.kind, path, answers);
        let (after, step) = path_start(platform, watch, event.kind, path);
        match step {
            PathStep::Continue(stage) => {
                lemma_run_handling(platform, after, event, index, stage, answers, 9, rest);
            },
            PathStep::Done => {
                assert(after == done);
                lemma_run_more(
                    platform,
                    handle_after(platform, after, event, index),
                    answers,
                    rest,
                    rest + 9,
                );
            },
        }
    }
}

/// The handling of an event asks for something, or has come to the event.
pub proof fn handling_asks_or_ends(
    platform: Platform,
    watch: WatchView,
    event: EventView,
    index: nat,
)
    ensures
        ({
            let turn = handle_from(platform, watch, event, index);
            ||| turn.task is Handling && turn.step == task_step(turn.task)
            ||| turn.task is Idle && turn.step is Next
        }),
    decreases event.paths.len() - index,
{
    if index < event.paths.len() {
        let path = event.paths[index as int];
        let (after, step) = path_start(platform, watch, event.kind, path);
        if step is Done {
            if path_stays(after, event.kind, path) {
                handling_asks_or_ends(platform, after, event, index + 1nat);
            } else {
                handling_asks_or_ends(platform, after, without_path(event, index as int), index);
            }
        }
    }
}

/// A handled event has no more paths than it had.
pub proof fn handled_event_has_no_more_paths(
    platform: Platform,
    watch: WatchView,
    event: EventView,
    index: nat,
    answers: Answers,
)
    ensures
        handled(platform, watch, event, index, answers).1.paths.len() <= event.paths.len(),
    decreases event.paths.len() - index,
{
    if index < event.paths.len() {
        let path = event.paths[index as int];
        let done = path_outcome(platform, watch, event.kind, path, answers);
        if path_stays(done, event.kind, path) {
            handled_event_has_no_more_paths(platform, done, event, index + 1nat, answers);
        } else {
            handled_event_has_no_more_paths(
                platform,
                done,
                without_path(event, index as int),
                index,
                answers,
            );
        }
    }
}

/// The next event is the one that is received, handled.
pub proof fn next_event_is_handled(
    platform: Platform,
    watch: WatchView,
    event: EventView,
    answers: Answers,
)
    requires
        !watch.is_empty(),
        answers.receive == Some(Ok::<EventView, NotifyError>(event)),
    ensures
        run(platform, receiving(watch), answers, (9 * event.paths.len() + 1) as nat) == ended(
            handled(platform, watch, event, 0, answers).0,
            Step::Next(Ok(Some(handled(platform, watch, event, 0, answers).1))),
        ),
{
    handling_comes_to_its_outcome(platform, watch, event, 0, answers);
}

/// A file that was added is held under the path that the caller is given, and one
/// that could not be added leaves everything as it was.
pub proof fn added_file_is_held(watch: WatchView, path: PathView, answers: Answers)
    ensures
        match add_outcome(watch, path, answers) {
            (after, Ok(canonical)) => after.watch_exists(canonical),
            (after, Err(_)) => after == watch,
        },
{
}

/// To add a file again changes nothing, and yields the same path or error.
pub proof fn adding_again_changes_nothing(watch: WatchView, path: PathView, answers: Answers)
    ensures
        add_outcome(add_outcome(watch, path, answers).0, path, answers) == add_outcome(
            watch,
            path,
            answers,
        ),
{
}

/// What has no file name, and what is a directory, cannot be added.
pub proof fn only_files_are_added(watch: WatchView, path: PathView, answers: Answers)
    ensures
        file_name_of(path) is None ==> add_outcome(watch, path, answers).1 is Err,
        absolutified(path, true, answers) matches Ok(canonical) ==> (answers.is_dir)(canonical)
            ==> add_outcome(watch, path, answers) == (
            watch,
            Err::<PathView, IoError>(IoError::IsADirectory),
        ),
{
}

/// A file that exists is watched once it is added, and one that does not is held
/// as missing, with its parent directory watched for it.
pub proof fn added_file_is_watched_or_missing(watch: WatchView, path: PathView, answers: Answers)
    requires
        add_outcome(watch, path, answers).1 is Ok,
        !watch.watch_exists(add_outcome(watch, path, answers).1->Ok_0),
    ensures
        ({
            let (after, result) = add_outcome(watch, path, answers);
            let canonical = result->Ok_0;
            if (answers.exists)(canonical) {
                after.files.contains(canonical)
            } else {
                &&& after.pending.contains(canonical)
                &&& parent_of(canonical) is Some
                &&& after.directories.contains_key(parent_of(canonical)->0)
            }
        }),
{
    let canonical = add_outcome(watch, path, answers).1->Ok_0;
    joined_path_has_parent_and_name(canonical.drop_last(), canonical.last()->Normal_0);
}

/// When a missing file has appeared, an event about it makes it watched. The event
/// keeps its path, and its parent directory stays watched exactly if another file
/// is missing there. The path must not itself be that of a directory that is
/// watched.
pub proof fn file_that_appears_is_watched(
    platform: Platform,
    watch: WatchView,
    event: EventView,
    path: PathView,
    answers: Answers,
)
    requires
        watch.wf(),
        watch.pending.contains(path),
        !watch.directories.contains_key(path),
        event.paths == seq![path],
        event.kind !is Remove,
        known_existence(platform, event.kind) is None,
        absolutified(path, true, answers) == Ok::<PathView, IoError>(path),
        (answers.exists)(path),
        !(answers.is_dir)(path),
        (answers.watch)(path) is Ok,
    ensures
        ({
            let (after, kept) = handled(platform, watch, event, 0, answers);
            &&& kept == event
            &&& after.files == watch.files.insert(path)
            &&& after.pending == watch.pending.remove(path)
            &&& !after.directories.contains_key(path)
            &&& after.directories.contains_key(parent_of(path)->0) <==> children(
                after.pending,
                parent_of(path)->0,
            ).len() > 0
        }),
{
    reveal_with_fuel(handled, 2);
    watch.lemma_without_pending(path, parent_of(path)->0);
    let base = watch.without_pending(path, parent_of(path)->0);
    assert(!base.watch_exists(path));
    assert(event.paths[0] == path);
}

/// When a watched file has gone, an event about it makes it missing, with its parent
/// directory watched. The event keeps its path exactly if it is about a removal. The
/// path must not itself be that of a directory that is watched.
pub proof fn file_that_has_gone_is_missing(
    platform: Platform,
    watch: WatchView,
    event: EventView,
    path: PathView,
    answers: Answers,
)
    requires
        watch.wf(),
        watch.files.contains(path),
        !watch.directories.contains_key(path),
        event.paths == seq![path],
        absolutified(path, true, answers) == Ok::<PathView, IoError>(path),
        !(answers.exists)(path),
        !(answers.is_dir)(path),
        (answers.watch)(parent_of(path)->0) is Ok,
    ensures
        ({
            let (after, kept) = handled(platform, watch, event, 0, answers);
            &&& kept.kind == event.kind
            &&& kept.paths == if event.kind is Remove {
                event.paths
            } else {
                Seq::empty()
            }
            &&& after.files == watch.files.remove(path)
            &&& after.pending == watch.pending.insert(path)
            &&& !after.directories.contains_key(path)
            &&& after.directories.contains_key(parent_of(path)->0)
        }),
{
    reveal_with_fuel(handled, 2);
    let base = watch.without_file(path);
    assert(!watch.pending.contains(path));
    assert(!base.watch_exists(path));
    assert(event.paths[0] == path);
}

/// An event that says that a watched file was removed, or renamed away, is believed
/// whatever there is at the path by now: the file is let go of and added again.
pub proof fn removal_is_believed(
    platform: Platform,
    watch: WatchView,
    event: EventView,
    path: PathView,
    answers: Answers,
)
    requires
        watch.files.contains(path),
        event.paths == seq![path],
        known_existence(platform, event.kind) == Some(false),
    ensures
        handled(platform, watch, event, 0, answers).0 == add_outcome(
            watch.without_file(path),
            path,
            answers,
        ).0,
{
    reveal_with_fuel(handled, 2);
    assert(event.paths[0] == path);
}

/// No file is both watched and missing.
spec fn told_apart(watch: WatchView) -> bool {
    forall|path: PathView| #[trigger]
        watch.pending.contains(path) ==> !watch.files.contains(path)
}

/// Whether a path that an event keeps is kept again if it occurs in the event again.
spec fn repeats_stay(platform: Platform, kind: EventKind) -> bool {
    kind is Remove || known_existence(platform, kind) is None
}

/// Whether a path stays in an event and, where it may occur again, exists if it is
/// watched and does not if it is missing.
spec fn settled(
    platform: Platform,
    watch: WatchView,
    kind: EventKind,
    path: PathView,
    answers: Answers,
) -> bool {
    &&& path_stays(watch, kind, path)
    &&& repeats_stay(platform, kind) ==> taken_to_exist(platform, kind, path, answers) == !(
    kind is Remove)
}

/// When one path is dealt with, what was kept before stays, and so does the path
/// itself if it is kept.
proof fn lemma_settled(
    platform: Platform,
    watch: WatchView,
    kind: EventKind,
    path: PathView,
    other: PathView,
    answers: Answers,
)
    requires
        told_apart(watch),
    ensures
        ({
            let after = path_outcome(platform, watch, kind, path, answers);
            &&& told_apart(after)
            &&& path_stays(after, kind, path) ==> settled(platform, after, kind, path, answers)
            &&& settled(platform, watch, kind, other, answers) && (other != path || repeats_stay(
                platform,
                kind,
            )) ==> settled(platform, after, kind, other, answers)
        }),
{
}

/// The handling of an event from some place on leaves what it kept before.
proof fn lemma_kept_paths_stay(
    platform: Platform,
    watch: WatchView,
    event: EventView,
    index: nat,
    answers: Answers,
)
    requires
        index <= event.paths.len(),
        told_apart(watch),
        event.paths.no_duplicates() || repeats_stay(platform, event.kind),
        forall|i: int|
            0 <= i < index ==> settled(
                platform,
                watch,
                event.kind,
                #[trigger] event.paths[i],
                answers,
            ),
    ensures
        ({
            let (after, kept) = handled(platform, watch, event, index, answers);
            &&& kept.kind == event.kind
            &&& forall|i: int|
                0 <= i < kept.paths.len() ==> event.paths.contains(#[trigger] kept.paths[i])
                    && path_stays(after, event.kind, kept.paths[i])
        }),
    decreases event.paths.len() - index,
{
    if index < event.paths.len() {
        let path = event.paths[index as int];
        let done = path_outcome(platform, watch, event.kind, path, answers);
        lemma_settled(platform, watch, event.kind, path, path, answers);
        assert forall|i: int| 0 <= i < index implies settled(
            platform,
            done,
            event.kind,
            #[trigger] event.paths[i],
            answers,
        ) by {
            lemma_settled(platform, watch, event.kind, path, event.paths[i], answers);
        }
        if path_stays(done, event.kind, path) {
            lemma_kept_paths_stay(platform, done, event, index + 1nat, answers);
        } else {
            let fewer = without_path(event, index as int);
            assert forall|i: int| 0 <= i < index implies settled(
                platform,
                done,
                event.kind,
                #[trigger] fewer.paths[i],
                answers,
            ) by {
                assert(fewer.paths[i] == event.paths[i]);
            }
            assert forall|i: int| 0 <= i < fewer.paths.len() implies event.paths.contains(
                #[trigger] fewer.paths[i],
            ) by {
                if i < index {
                    assert(fewer.paths[i] == event.paths[i]);
                } else {
                    assert(fewer.paths[i] == event.paths[i + 1]);
                }
            }
            lemma_kept_paths_stay(platform, done, fewer, index, answers);
        }
    }
}

/// A handled event keeps its kind and some of its paths. All that it keeps are missing
/// files, in an event about a removal, or watched files, in any other. In an event that
/// renames files away no path may occur twice.
pub proof fn handled_event_keeps_what_it_concerns(
    platform: Platform,
    watch: WatchView,
    event: EventView,
    answers: Answers,
)
    requires
        watch.wf(),
        event.paths.no_duplicates() || event.kind is Remove || known_existence(
            platform,
            event.kind,
        ) is None,
    ensures
        ({
            let (after, kept) = handled(platform, watch, event, 0, answers);
            &&& kept.kind == event.kind
            &&& forall|i: int|
                0 <= i < kept.paths.len() ==> event.paths.contains(#[trigger] kept.paths[i])
                    && path_stays(after, event.kind, kept.paths[i])
        }),
{
    lemma_kept_paths_stay(platform, watch, event, 0, answers);
}

/// Whether the path, if it is held as a file, is in its canonical form.
pub open spec fn held_canonically(watch: WatchView, path: PathView, answers: Answers) -> bool {
    watch.files.contains(path) || watch.pending.contains(path) ==> absolutified(
        path,
        true,
        answers,
    ) == Ok::<PathView, IoError>(path)
}

/// Whether it makes no difference to keep or not to keep the path that it is dealt with
/// again.
spec fn stable(
    platform: Platform,
    watch: WatchView,
    kind: EventKind,
    path: PathView,
    answers: Answers,
) -> bool {
    if taken_to_exist(platform, kind, path, answers) {
        !watch.pending.contains(path)
    } else {
        watch.files.contains(path) ==> (answers.exists)(path)
    }
}

/// To deal with a path that is held in its canonical form changes nothing about others,
/// and settles whether it is kept.
proof fn lemma_one_path_changes(
    platform: Platform,
    watch: WatchView,
    kind: EventKind,
    path: PathView,
    answers: Answers,
)
    requires
        told_apart(watch),
        held_canonically(watch, path, answers),
    ensures
        ({
            let after = path_outcome(platform, watch, kind, path, answers);
            &&& told_apart(after)
            &&& stable(platform, after, kind, path, answers)
            &&& held_canonically(after, path, answers)
            &&& stable(platform, watch, kind, path, answers) && repeats_stay(platform, kind) ==> (
            path_stays(after, kind, path) == path_stays(watch, kind, path))
            &&& forall|other: PathView|
                other != path ==> #[trigger] after.files.contains(other) == watch.files.contains(
                    other,
                )
            &&& forall|other: PathView|
                other != path ==> #[trigger] after.pending.contains(other)
                    == watch.pending.contains(other)
        }),
{
}

/// The handling of an event from some place on keeps exactly the paths that are to be
/// kept in the end, and changes nothing about paths that are settled.
proof fn lemma_kept_exactly(
    platform: Platform,
    watch: WatchView,
    event: EventView,
    index: nat,
    answers: Answers,
)
    requires
        index <= event.paths.len(),
        told_apart(watch),
        event.paths.no_duplicates() || repeats_stay(platform, event.kind),
        forall|i: int|
            index <= i < event.paths.len() ==> held_canonically(
                watch,
                #[trigger] event.paths[i],
                answers,
            ),
    ensures
        ({
            let (after, kept) = handled(platform, watch, event, index, answers);
            &&& kept.paths == event.paths.take(index as int) + event.paths.skip(
                index as int,
            ).filter(|path: PathView| path_stays(after, event.kind, path))
            &&& forall|path: PathView|
                (stable(platform, watch, event.kind, path, answers) && repeats_stay(
                    platform,
                    event.kind,
                )) || !event.paths.skip(index as int).contains(path) ==> (#[trigger] path_stays(
                    after,
                    event.kind,
                    path,
                ) == path_stays(watch, event.kind, path))
        }),
    decreases event.paths.len() - index,
{
    let (after, kept) = handled(platform, watch, event, index, answers);
    let stays = |path: PathView| path_stays(after, event.kind, path);
    let rest = event.paths.skip(index as int);
    if index < event.paths.len() {
        let path = event.paths[index as int];
        let done = path_outcome(platform, watch, event.kind, path, answers);
        let later = event.paths.skip(index as int + 1);
        lemma_one_path_changes(platform, watch, event.kind, path, answers);
        assert(rest =~= seq![path] + later);
        assert(rest[0] == path);
        let (next, place) = if path_stays(done, event.kind, path) {
            (event, index + 1nat)
        } else {
            (without_path(event, index as int), index)
        };
        assert(next.paths.skip(place as int) =~= later);
        assert forall|i: int| place <= i < next.paths.len() implies held_canonically(
            done,
            #[trigger] next.paths[i],
            answers,
        ) by {
            assert(next.paths[i] == later[i - place]);
            assert(held_canonically(watch, event.paths[i - place + index + 1], answers));
        }
        if event.paths.no_duplicates() {
            assert(next.paths.no_duplicates());
            assert(!later.contains(path));
        }
        lemma_kept_exactly(platform, done, next, place, answers);
        assert(path_stays(after, event.kind, path) == path_stays(done, event.kind, path));
        assert forall|other: PathView|
            (stable(platform, watch, event.kind, other, answers) && repeats_stay(
                platform,
                event.kind,
            )) || !rest.contains(other) implies #[trigger] path_stays(after, event.kind, other)
            == path_stays(watch, event.kind, other) by {
            if other != path {
                assert(done.files.contains(other) == watch.files.contains(other));
                assert(done.pending.contains(other) == watch.pending.contains(other));
                if !rest.contains(other) {
                    assert forall|i: int| 0 <= i < later.len() implies later[i] != other by {
                        assert(rest[i + 1] == later[i]);
                    }
                }
            }
        }
        Seq::filter_distributes_over_add(seq![path], later, stays);
        reveal_with_fuel(Seq::filter, 2);
        assert(seq![path].drop_last() =~= Seq::<PathView>::empty());
        if stays(path) {
            assert(seq![path].filter(stays) =~= seq![path]);
            assert(next.paths.take(place as int) =~= event.paths.take(index as int) + seq![path]);
        } else {
            assert(seq![path].filter(stays) =~= Seq::<PathView>::empty());
            assert(next.paths.take(place as int) =~= event.paths.take(index as int));
        }
        assert(kept.paths =~= event.paths.take(index as int) + rest.filter(stays));
    } else {
        reveal_with_fuel(Seq::filter, 1);
        assert(rest =~= Seq::<PathView>::empty());
        assert(kept.paths =~= event.paths.take(index as int) + rest.filter(stays));
    }
}

/// A handled event keeps exactly those of its paths, in their order, that are missing
/// files in the end, in an event about a removal, or watched files, in any other. The
/// files among them must be held in their canonical form. In an event that renames files
/// away no path may occur twice.
pub proof fn handled_event_keeps_exactly_what_it_concerns(
    platform: Platform,
    watch: WatchView,
    event: EventView,
    answers: Answers,
)
    requires
        watch.wf(),
        event.paths.no_duplicates() || event.kind is Remove || known_existence(
            platform,
            event.kind,
        ) is None,
        forall|i: int|
            0 <= i < event.paths.len() ==> held_canonically(
                watch,
                #[trigger] event.paths[i],
                answers,
            ),
    ensures
        ({
            let (after, kept) = handled(platform, watch, event, 0, answers);
            kept.paths == event.paths.filter(
                |path: PathView| path_stays(after, event.kind, path),
            )
        }),
{
    lemma_kept_exactly(platform, watch, event, 0, answers);
    assert(event.paths.skip(0) =~= event.paths);
    let (after, kept) = handled(platform, watch, event, 0, answers);
    let filtered = event.paths.filter(|path: PathView| path_stays(after, event.kind, path));
    assert(event.paths.take(0) + filtered =~= filtered);
}

/// A file that is added leaves what is watched consistent, whatever comes of it.
pub proof fn adding_keeps_the_watch_consistent(watch: WatchView, path: PathView, answers: Answers)
    requires
        watch.wf(),
        watch.pending.len() < usize::MAX,
    ensures
        add_outcome(watch, path, answers).0.wf(),
        add_outcome(watch, path, answers).0.pending.len() <= watch.pending.len() + 1,
{
    let (after, result) = add_outcome(watch, path, answers);
    if let Ok(canonical) = result {
        joined_path_has_parent_and_name(canonical.drop_last(), canonical.last()->Normal_0);
        let parent = parent_of(canonical)->0;
        if !watch.watch_exists(canonical) {
            watch.lemma_with_pending(canonical, parent);
        }
    }
}

/// One path of an event leaves what is watched consistent.
proof fn lemma_path_keeps_consistent(
    platform: Platform,
    watch: WatchView,
    kind: EventKind,
    path: PathView,
    answers: Answers,
)
    requires
        watch.wf(),
        watch.pending.len() < usize::MAX,
    ensures
        path_outcome(platform, watch, kind, path, answers).wf(),
        path_outcome(platform, watch, kind, path, answers).pending.len() <= watch.pending.len()
            + 1,
{
    if watch.pending.contains(path) {
        let base = watch.without_pending(path, parent_of(path)->0);
        watch.lemma_without_pending(path, parent_of(path)->0);
        adding_keeps_the_watch_consistent(base, path, answers);
    }
    if watch.files.contains(path) {
        adding_keeps_the_watch_consistent(watch.without_file(path), path, answers);
    }
}

/// A handled event leaves what is watched consistent, whatever is answered: no file is
/// both watched and missing, and each directory is counted once for each file that is
/// missing there. For each path at most one more file is missing.
pub proof fn handling_keeps_the_watch_consistent(
    platform: Platform,
    watch: WatchView,
    event: EventView,
    index: nat,
    answers: Answers,
)
    requires
        watch.wf(),
        index <= event.paths.len(),
        watch.pending.len() + (event.paths.len() - index) <= usize::MAX,
    ensures
        handled(platform, watch, event, index, answers).0.wf(),
        handled(platform, watch, event, index, answers).0.pending.len() <= watch.pending.len() + (
        event.paths.len() - index),
    decreases event.paths.len() - index,
{
    if index < event.paths.len() {
        let path = event.paths[index as int];
        let done = path_outcome(platform, watch, event.kind, path, answers);
        lemma_path_keeps_consistent(platform, watch, event.kind, path, answers);
        if path_stays(done, event.kind, path) {
            handling_keeps_the_watch_consistent(platform, done, event, index + 1nat, answers);
        } else {
            handling_keeps_the_watch_consistent(
                platform,
                done,
                without_path(event, index as int),
                index,
                answers,
            );
        }
    }
}

/// The handling of an event leaves what is watched consistent up to where it asks for
/// something, and with what it does then.
proof fn lemma_handling_keeps_consistent(
    platform: Platform,
    watch: WatchView,
    event: EventView,
    index: nat,
)
    requires
        watch.wf(),
    ensures
        ({
            let turn = handle_from(platform, watch, event, index);
            turn.watch.wf() && task_ok(turn.watch, turn.task)
        }),
    decreases event.paths.len() - index,
{
    if index < event.paths.len() {
        let path = event.paths[index as int];
        let (after, step) = path_start(platform, watch, event.kind, path);
        if watch.pending.contains(path) {
            watch.lemma_without_pending(path, parent_of(path)->0);
        }
        if step is Done {
            if path_stays(after, event.kind, path) {
                lemma_handling_keeps_consistent(platform, after, event, index + 1nat);
            } else {
                lemma_handling_keeps_consistent(
                    platform,
                    after,
                    without_path(event, index as int),
                    index,
                );
            }
        }
    }
}

/// A step of the adding of a file leaves what is watched consistent, and with what the
/// adding does then.
proof fn lemma_add_step_keeps_consistent(
    watch: WatchView,
    state: AddFile<PathView, Seq<u8>>,
    initial_event: bool,
    reply: Reply<PathView, EventView>,
)
    requires
        watch.wf(),
        watch.pending.len() < usize::MAX,
        add_ok(watch, state),
    ensures
        ({
            let (after, step) = add_next(watch, state, initial_event, reply);
            after.wf() && (step matches AddStep::Continue(state) ==> add_ok(after, state))
        }),
{
    match state {
        AddFile::Exists(path) => if parent_of(path) is Some {
            watch.lemma_with_pending(path, parent_of(path)->0);
        },
        AddFile::WatchParent(path, parent) => {
            watch.lemma_with_pending(path, parent);
        },
        _ => {},
    }
}

/// Every turn of the event watch leaves what is watched consistent, and with what the
/// watch does then, whatever the reply: no file is both watched and missing, and each
/// directory is counted once for each file that is missing there. So it is when nothing
/// is watched.
pub proof fn every_turn_keeps_the_watch_consistent(
    platform: Platform,
    watch: WatchView,
    task: TaskView,
    reply: Reply<PathView, EventView>,
)
    requires
        watch.wf(),
        watch.pending.len() < usize::MAX,
        task_ok(watch, task),
    ensures
        ({
            let turn = next_turn(platform, watch, task, reply);
            turn.watch.wf() && task_ok(turn.watch, turn.task)
        }),
        WatchView::empty().wf(),
{
    assert forall|dir: PathView| #[trigger] children(Set::empty(), dir).len() == 0 by {
        assert(children(Set::empty(), dir) =~= Set::<PathView>::empty());
    }
    match task {
        TaskView::Adding(state, initial_event) => {
            lemma_add_step_keeps_consistent(watch, state, initial_event, reply);
        },
        TaskView::Receiving => {
            if let Reply::Received(Some(Ok(event))) = reply {
                lemma_handling_keeps_consistent(platform, watch, event, 0);
            }
        },
        TaskView::Handling(event, index, stage) => {
            let path = event.paths[index as int];
            if watch.pending.contains(path) {
                watch.lemma_without_pending(path, parent_of(path)->0);
            }
            if let HandleStage::Adding(state) = stage {
                lemma_add_step_keeps_consistent(watch, state, false, reply);
            }
            let (after, step) = path_next(watch, path, stage, reply);
            assert(after.wf());
            if step is Done {
                if path_stays(after, event.kind, path) {
                    lemma_handling_keeps_consistent(platform, after, event, index + 1nat);
                } else {
                    let fewer = without_path(event, index as int);
                    lemma_handling_keeps_consistent(platform, after, fewer, index);
                }
            }
        },
        TaskView::Idle => {},
    }
}

/// A path is never asked to be watched while it is held, and a directory is never
/// asked to be unwatched while a file is missing there.
pub proof fn nothing_is_watched_twice(watch: WatchView, task: TaskView)
    requires
        task_ok(watch, task),
    ensures
        forall|path: PathView|
            task_step(task) == Step::<PathView, EventView>::Ask(Request::Watch(path))
                ==> !#[trigger] watch.watch_exists(path),
        forall|dir: PathView|
            task_step(task) == Step::<PathView, EventView>::Ask(Request::Unwatch(dir))
                ==> !#[trigger] watch.directories.contains_key(dir),
{
}

/// Once an existing file is watched, the event that was asked for with it is sent:
/// that the file was created.
pub proof fn initial_event_says_created(watch: WatchView, path: PathView)
    ensures
        add_next(watch, AddFile::WatchFile(path), true, Reply::Watched(Ok(()))) == (
            watch.with_file(path),
            AddStep::<PathView, Seq<u8>>::Continue(AddFile::Send(path)),
        ),
        add_request(AddFile::Send(path)) == Request::<PathView, EventView>::Send(created(path)),
{
}

} // verus!
