//! What is watched and what is asked for, said of the kinds of events by their names and of
//! what the filesystem answers.
use crate::absolutify::absolutified;
use crate::add_file::AddFile;
use crate::error::{io_error_of, IoError, IoErrorKind, NotifyError, NotifyErrorKind};
use crate::event::{CreateKind, EventKind, EventView, ModifyKind, Platform, RemoveKind, RenameMode};
use crate::events::{
    adding, ended, handle_from, known_existence, next_turn, path_next, path_start, path_stays,
    polling, receiving, task_ok, task_step, without_path, Step, TaskView, Turn,
};
use crate::events_laws::{
    add_outcome, adding_comes_to_its_outcome, handled, handling_comes_to_its_outcome, path_outcome,
    run,
};
use crate::path::{joined_path_has_parent_and_name, parent_of, PathView};
use crate::request::{Answers, Reply, Request};
use crate::watch::WatchView;
use vstd::prelude::*;

verus! {

/// An error of the watcher backend is the I/O error inside it if there is one, and is
/// otherwise kept as it is. Each error has its kind.
pub proof fn errors_are_kept(error: NotifyError)
    ensures
        match error.kind {
            NotifyErrorKind::Io(inside) => io_error_of(error) == IoError::System(inside),
            NotifyErrorKind::Generic(_) => io_error_of(error) == IoError::Notify(error),
            NotifyErrorKind::PathNotFound => io_error_of(error) == IoError::Notify(error),
            NotifyErrorKind::WatchNotFound => io_error_of(error) == IoError::Notify(error),
            NotifyErrorKind::InvalidConfig(_) => io_error_of(error) == IoError::Notify(error),
            NotifyErrorKind::MaxFilesWatch => io_error_of(error) == IoError::Notify(error),
        },
        IoError::FilenameNotFound.spec_kind() == Some(IoErrorKind::NotFound),
        IoError::IsADirectory.spec_kind() == Some(IoErrorKind::InvalidInput),
        IoError::NeedsParentDirectory.spec_kind() == Some(IoErrorKind::InvalidInput),
        IoError::Notify(error).spec_kind() == Some(IoErrorKind::Other),
        forall|inside: std::io::Error| #[trigger] IoError::System(inside).spec_kind() is None,
{
}

/// Whether an event of this kind says that its paths have gone, whatever there is by now:
/// that a file was removed, or renamed away where the platform can be believed.
pub open spec fn says_gone(platform: Platform, kind: EventKind) -> bool {
    kind == EventKind::Remove(RemoveKind::File) || (kind == EventKind::Modify(
        ModifyKind::Name(RenameMode::From),
    ) && platform != Platform::MacOs)
}

/// The filesystem is not asked about a file that was removed, nor about one that was renamed
/// away but on macOS. About all else it is asked.
pub proof fn removals_are_not_questioned(platform: Platform, kind: EventKind)
    ensures
        known_existence(platform, EventKind::Remove(RemoveKind::File)) == Some(false),
        platform != Platform::MacOs ==> known_existence(
            platform,
            EventKind::Modify(ModifyKind::Name(RenameMode::From)),
        ) == Some(false),
        known_existence(platform, kind) == Some(false) <==> says_gone(platform, kind),
        known_existence(platform, kind) is None <==> !says_gone(platform, kind),
{
}

/// A path is held if it is that of a watched file, of a missing file or of a directory
/// that is watched for one, and there is nothing to wait for if there is neither a watched
/// nor a missing file.
pub proof fn holding_is_one_of_three(watch: WatchView, path: PathView)
    ensures
        watch.watch_exists(path) <==> watch.files.contains(path) || watch.pending.contains(path)
            || watch.directories.contains_key(path),
        watch.is_empty() <==> (forall|file: PathView|
            !(#[trigger] watch.files.contains(file)) && !watch.pending.contains(file)),
        watch.is_empty() ==> receiving(watch).step == Step::<PathView, EventView>::Next(Ok(None)),
        !watch.is_empty() ==> receiving(watch) == (Turn {
            watch,
            task: TaskView::Receiving,
            step: Step::Ask(Request::Receive),
        }),
{
    if forall|file: PathView|
        !(#[trigger] watch.files.contains(file)) && !watch.pending.contains(file) {
        assert(watch.files =~= Set::empty());
        assert forall|file: PathView| !watch.pending.contains(file) by {
            assert(!watch.files.contains(file));
        }
        assert(watch.pending =~= Set::empty());
    }
}

/// The number of files that are missing in the directory, as it is counted.
pub open spec fn counted(watch: WatchView, dir: PathView) -> int {
    if watch.directories.contains_key(dir) {
        watch.directories[dir] as int
    } else {
        0
    }
}

/// What the adding of a file under a path comes to, by what there is at the path: a
/// directory is refused, what is held already stays as it is, an existing file is watched,
/// and a missing one is held as missing, with its directory watched for it and counted once
/// more. Where something cannot be watched nothing changes, and the caller is told why.
pub proof fn adding_goes_by_what_there_is(
    platform: Platform,
    watch: WatchView,
    path: PathView,
    source: PathView,
    initial_event: bool,
    answers: Answers,
)
    requires
        absolutified(path, true, answers) == Ok::<PathView, IoError>(source),
        counted(watch, source.drop_last()) < usize::MAX,
    ensures
        ({
            let turn = run(platform, adding(watch, path, initial_event), answers, 7);
            let after = turn.watch;
            let dir = source.drop_last();
            let held = watch.files.contains(source) || watch.pending.contains(source)
                || watch.directories.contains_key(source);
            let dir_held = watch.files.contains(dir) || watch.pending.contains(dir)
                || watch.directories.contains_key(dir);
            let added = Step::<PathView, EventView>::Added(Ok(source));
            &&& turn.task is Idle
            &&& (after, turn.step) == (
                add_outcome(watch, path, answers).0,
                Step::<PathView, EventView>::Added(add_outcome(watch, path, answers).1),
            )
            &&& if (answers.is_dir)(source) {
                after == watch && turn.step == Step::<PathView, EventView>::Added(
                    Err(IoError::IsADirectory),
                )
            } else if held {
                after == watch && turn.step == added
            } else if (answers.exists)(source) {
                match (answers.watch)(source) {
                    Ok(_) => {
                        &&& turn.step == added
                        &&& after.files == watch.files.insert(source)
                        &&& after.pending == watch.pending
                        &&& after.directories == watch.directories
                    },
                    Err(error) => after == watch && turn.step == refused(error),
                }
            } else if dir_held || (answers.watch)(dir) is Ok {
                &&& turn.step == added
                &&& after.files == watch.files
                &&& after.pending == watch.pending.insert(source)
                &&& after.directories.dom() == watch.directories.dom().insert(dir)
                &&& after.directories[dir] == counted(watch, dir) + 1
                &&& forall|other: PathView|
                    other != dir && #[trigger] watch.directories.contains_key(other)
                        ==> after.directories[other] == watch.directories[other]
            } else {
                after == watch && turn.step == refused((answers.watch)(dir)->Err_0)
            }
        }),
{
    adding_comes_to_its_outcome(platform, watch, path, initial_event, answers);
    joined_path_has_parent_and_name(source.drop_last(), source.last()->Normal_0);
    let dir = source.drop_last();
    assert(parent_of(source) == Some(dir));
    let after = run(platform, adding(watch, path, initial_event), answers, 7).watch;
    if after.directories.contains_key(dir) && after != watch {
        assert(after.directories.dom() =~= watch.directories.dom().insert(dir)
            || after.directories == watch.directories);
    }
}

/// The answer to a caller when the watcher backend refuses something.
pub open spec fn refused(error: NotifyError) -> Step<PathView, EventView> {
    Step::Added(
        Err(
            match error.kind {
                NotifyErrorKind::Io(inside) => IoError::System(inside),
                _ => IoError::Notify(error),
            },
        ),
    )
}

/// What has no canonical path is not added, and the caller is told why.
pub proof fn what_cannot_be_named_is_not_added(
    platform: Platform,
    watch: WatchView,
    path: PathView,
    initial_event: bool,
    answers: Answers,
)
    requires
        absolutified(path, true, answers) is Err,
    ensures
        run(platform, adding(watch, path, initial_event), answers, 7) == (Turn {
            watch,
            task: TaskView::Idle,
            step: Step::Added(Err(absolutified(path, true, answers)->Err_0)),
        }),
{
    adding_comes_to_its_outcome(platform, watch, path, initial_event, answers);
}

/// Where the handling of an event begins, no file comes to be watched, no file comes to be
/// missing and no directory comes to be watched, and a directory is given up only to be
/// unwatched next.
proof fn lemma_beginning_gains_nothing(
    platform: Platform,
    watch: WatchView,
    event: EventView,
    index: nat,
)
    ensures
        ({
            let turn = handle_from(platform, watch, event, index);
            &&& turn.watch.files.subset_of(watch.files)
            &&& turn.watch.pending.subset_of(watch.pending)
            &&& turn.watch.directories.dom().subset_of(watch.directories.dom())
            &&& forall|dir: PathView| #[trigger]
                watch.directories.contains_key(dir) && !turn.watch.directories.contains_key(dir)
                    ==> turn.step == Step::<PathView, EventView>::Ask(Request::Unwatch(dir))
        }),
    decreases event.paths.len() - index,
{
    if index < event.paths.len() {
        let path = event.paths[index as int];
        let (after, step) = path_start(platform, watch, event.kind, path);
        if step is Done {
            if path_stays(after, event.kind, path) {
                lemma_beginning_gains_nothing(platform, after, event, index + 1nat);
            } else {
                lemma_beginning_gains_nothing(
                    platform,
                    after,
                    without_path(event, index as int),
                    index,
                );
            }
        }
    }
}

/// A file comes to be watched only when the request to watch it was granted. A directory
/// comes to be watched only so too, or if it was held otherwise, and is given up only to be
/// unwatched next.
pub proof fn what_is_watched_was_asked_for(
    platform: Platform,
    watch: WatchView,
    task: TaskView,
    reply: Reply<PathView, EventView>,
)
    ensures
        ({
            let turn = next_turn(platform, watch, task, reply);
            let granted = reply matches Reply::Watched(Ok(_));
            &&& forall|file: PathView| #[trigger]
                turn.watch.files.contains(file) && !watch.files.contains(file) ==> granted
                    && task_step(task) == Step::<PathView, EventView>::Ask(Request::Watch(file))
            &&& forall|dir: PathView| #[trigger]
                turn.watch.directories.contains_key(dir) && !watch.directories.contains_key(dir)
                    ==> watch.files.contains(dir) || watch.pending.contains(dir) || (granted
                    && task_step(task) == Step::<PathView, EventView>::Ask(Request::Watch(dir)))
            &&& forall|dir: PathView| #[trigger]
                watch.directories.contains_key(dir) && !turn.watch.directories.contains_key(dir)
                    ==> turn.step == Step::<PathView, EventView>::Ask(Request::Unwatch(dir))
        }),
{
    match task {
        TaskView::Receiving => {
            if let Reply::Received(Some(Ok(event))) = reply {
                lemma_beginning_gains_nothing(platform, watch, event, 0);
            }
        },
        TaskView::Handling(event, index, stage) => {
            let path = event.paths[index as int];
            let (after, step) = path_next(watch, path, stage, reply);
            if step is Done {
                lemma_beginning_gains_nothing(platform, after, event, index + 1nat);
                lemma_beginning_gains_nothing(
                    platform,
                    after,
                    without_path(event, index as int),
                    index,
                );
                let turn = next_turn(platform, watch, task, reply);
                assert forall|file: PathView| #[trigger]
                    turn.watch.files.contains(file) implies after.files.contains(file) by {}
                assert forall|dir: PathView| #[trigger]
                    turn.watch.directories.contains_key(dir) implies after.directories.contains_key(
                    dir,
                ) by {
                    assert(turn.watch.directories.dom().contains(dir));
                }
                assert forall|dir: PathView| #[trigger]
                    watch.directories.contains_key(dir) && !turn.watch.directories.contains_key(
                        dir,
                    ) implies turn.step == Step::<PathView, EventView>::Ask(
                    Request::Unwatch(dir),
                ) by {
                    assert(after.directories.contains_key(dir));
                }
            }
        },
        _ => {},
    }
    let turn = next_turn(platform, watch, task, reply);
    assert forall|dir: PathView| #[trigger]
        turn.watch.directories.contains_key(dir) && !watch.directories.contains_key(
            dir,
        ) implies watch.files.contains(dir) || watch.pending.contains(dir) || ((
    reply matches Reply::Watched(Ok(_))) && task_step(task) == Step::<PathView, EventView>::Ask(
        Request::Watch(dir),
    )) by {
        assert(turn.watch.directories.dom().contains(dir));
    }
}

/// Once an existing file that was to be added is watched, the event that was asked for with
/// it is sent, which says that the file at this path was created. If none was asked for the
/// file has been added.
pub proof fn event_is_sent_if_it_was_asked_for(
    platform: Platform,
    watch: WatchView,
    path: PathView,
)
    ensures
        ({
            let granted = Reply::Watched(Ok(()));
            let asked = TaskView::Adding(AddFile::WatchFile(path), true);
            let plain = TaskView::Adding(AddFile::WatchFile(path), false);
            let event = EventView {
                kind: EventKind::Create(CreateKind::File),
                paths: seq![path],
            };
            &&& next_turn(platform, watch, asked, granted).step == Step::<
                PathView,
                EventView,
            >::Ask(Request::Send(event))
            &&& next_turn(platform, watch, plain, granted).step == Step::<
                PathView,
                EventView,
            >::Added(Ok(path))
            &&& ({
                let sent = next_turn(platform, watch, asked, granted);
                next_turn(platform, sent.watch, sent.task, Reply::Sent) == (Turn {
                    watch: sent.watch,
                    task: TaskView::Idle,
                    step: Step::Added(Ok(path)),
                })
            })
        }),
{
}

/// Whether the reply is one to the request.
pub open spec fn fits(
    request: Request<PathView, EventView>,
    reply: Reply<PathView, EventView>,
) -> bool {
    match request {
        Request::CurrentDir => reply is Path,
        Request::ReadLink(_) => reply is Path,
        Request::Canonicalize(_) => reply is Path,
        Request::IsDir(_) => reply is Flag,
        Request::Exists(_) => reply is Flag,
        Request::Watch(_) => reply is Watched,
        Request::Unwatch(_) => reply is Watched,
        Request::Send(_) => reply is Sent,
        Request::Receive => reply is Received,
    }
}

/// A reply that does not fit what was asked for changes nothing, and the same is asked for
/// again. To ask for an event while one is being handled changes nothing either.
pub proof fn other_replies_change_nothing(
    platform: Platform,
    watch: WatchView,
    task: TaskView,
    reply: Reply<PathView, EventView>,
)
    ensures
        task_step(task) matches Step::Ask(request) && !fits(request, reply) ==> next_turn(
            platform,
            watch,
            task,
            reply,
        ) == (Turn { watch, task, step: task_step(task) }),
        next_turn(platform, watch, TaskView::Idle, reply) == (Turn {
            watch,
            task: TaskView::Idle,
            step: Step::Idle,
        }),
        task is Handling ==> polling(watch, task) == (Turn { watch, task, step: task_step(task) }),
        task !is Handling ==> polling(watch, task) == receiving(watch),
{
}

/// What is received in place of an event is handed on, and leaves what is watched.
pub proof fn stream_is_handed_on(platform: Platform, watch: WatchView, error: NotifyError)
    ensures
        next_turn(platform, watch, TaskView::Receiving, Reply::Received(None)) == (Turn {
            watch,
            task: TaskView::Idle,
            step: Step::Next(Ok(None)),
        }),
        ({
            let turn = next_turn(
                platform,
                watch,
                TaskView::Receiving,
                Reply::Received(Some(Err(error))),
            );
            &&& turn.watch == watch && turn.task is Idle
            &&& match error.kind {
                NotifyErrorKind::Io(inside) => turn.step == Step::<PathView, EventView>::Next(
                    Err(IoError::System(inside)),
                ),
                _ => turn.step == Step::<PathView, EventView>::Next(Err(IoError::Notify(error))),
            }
        }),
{
}

/// The turns in which an event with one path is received and handled.
pub open spec fn received(
    platform: Platform,
    watch: WatchView,
    event: EventView,
    answers: Answers,
) -> Turn {
    run(
        platform,
        next_turn(platform, watch, TaskView::Receiving, Reply::Received(Some(Ok(event)))),
        answers,
        9,
    )
}

/// An event with one path is handled within nine answers.
proof fn lemma_received(
    platform: Platform,
    watch: WatchView,
    event: EventView,
    path: PathView,
    answers: Answers,
)
    requires
        event.paths == seq![path],
    ensures
        ({
            let (after, kept) = handled(platform, watch, event, 0, answers);
            &&& received(platform, watch, event, answers) == ended(
                after,
                Step::Next(Ok(Some(kept))),
            )
            &&& after == path_outcome(platform, watch, event.kind, path, answers)
            &&& kept.kind == event.kind
            &&& kept.paths == if path_stays(after, event.kind, path) {
                event.paths
            } else {
                Seq::empty()
            }
        }),
{
    reveal_with_fuel(handled, 3);
    handling_comes_to_its_outcome(platform, watch, event, 0, answers);
    assert(event.paths[0] == path);
    assert(event.paths.remove(0) =~= Seq::empty());
}

/// An event that says that a watched file was removed, or renamed away where the platform
/// can be believed, lets go of the file at once, whatever there is at its path by now. If
/// there is a file, it is watched anew, and only if that is granted; if there is none, it
/// is missing. The filesystem is not asked whether the file is there before.
pub proof fn file_that_is_said_to_be_gone_is_watched_anew(
    platform: Platform,
    watch: WatchView,
    event: EventView,
    path: PathView,
    answers: Answers,
)
    requires
        event.kind == EventKind::Remove(RemoveKind::File) || (event.kind == EventKind::Modify(
            ModifyKind::Name(RenameMode::From),
        ) && platform != Platform::MacOs),
        event.paths == seq![path],
        watch.files.contains(path),
        !watch.pending.contains(path),
        !watch.directories.contains_key(path),
        absolutified(path, true, answers) == Ok::<PathView, IoError>(path),
        !(answers.is_dir)(path),
    ensures
        ({
            let first = next_turn(
                platform,
                watch,
                TaskView::Receiving,
                Reply::Received(Some(Ok(event))),
            );
            let turn = received(platform, watch, event, answers);
            let dir = path.drop_last();
            let dir_held = watch.files.contains(dir) || watch.pending.contains(dir)
                || watch.directories.contains_key(dir);
            &&& !first.watch.files.contains(path)
            &&& first.step is Ask
            &&& first.step != Step::<PathView, EventView>::Ask(Request::Exists(path))
            &&& turn.step is Next
            &&& if (answers.exists)(path) {
                &&& turn.watch.files == if (answers.watch)(path) is Ok {
                    watch.files
                } else {
                    watch.files.remove(path)
                }
                &&& turn.watch.pending == watch.pending
                &&& turn.watch.directories == watch.directories
            } else {
                &&& turn.watch.files == watch.files.remove(path)
                &&& turn.watch.pending == if dir_held || (answers.watch)(dir) is Ok {
                    watch.pending.insert(path)
                } else {
                    watch.pending
                }
            }
        }),
{
    lemma_received(platform, watch, event, path, answers);
    joined_path_has_parent_and_name(path.drop_last(), path.last()->Normal_0);
    let dir = path.drop_last();
    assert(parent_of(path) == Some(dir));
    assert(dir.len() < path.len());
    let base = watch.without_file(path);
    assert(!base.watch_exists(path));
    assert(base.watch_exists(dir) == watch.watch_exists(dir));
    assert(event.paths[0] == path);
    assert(watch.files.remove(path).insert(path) =~= watch.files);
}

/// An event of any other kind goes by what there is at the path: a watched file that has
/// gone is missing from then on, and a missing file that is there is watched from then on,
/// if the watcher grants that. A directory that no other missing file needs is given up.
pub proof fn other_events_go_by_what_there_is(
    platform: Platform,
    watch: WatchView,
    event: EventView,
    path: PathView,
    answers: Answers,
)
    requires
        !(event.kind == EventKind::Remove(RemoveKind::File)),
        !(event.kind == EventKind::Modify(ModifyKind::Name(RenameMode::From)) && platform
            != Platform::MacOs),
        event.paths == seq![path],
        watch.files.contains(path) || watch.pending.contains(path),
        watch.wf(),
        !watch.directories.contains_key(path),
        absolutified(path, true, answers) == Ok::<PathView, IoError>(path),
        !(answers.is_dir)(path),
    ensures
        ({
            let after = received(platform, watch, event, answers).watch;
            let dir = path.drop_last();
            let dir_held = watch.files.contains(dir) || watch.pending.contains(dir)
                || watch.directories.contains_key(dir);
            if (answers.exists)(path) && watch.pending.contains(path) {
                &&& after.pending == watch.pending.remove(path)
                &&& after.files == if (answers.watch)(path) is Ok {
                    watch.files.insert(path)
                } else {
                    watch.files
                }
                &&& after.directories.contains_key(dir) <==> counted(watch, dir) > 1
                &&& counted(after, dir) == counted(watch, dir) - 1
            } else if !(answers.exists)(path) && watch.files.contains(path) {
                &&& after.files == watch.files.remove(path)
                &&& after.pending == if dir_held || (answers.watch)(dir) is Ok {
                    watch.pending.insert(path)
                } else {
                    watch.pending
                }
            } else {
                after == watch
            }
        }),
{
    lemma_received(platform, watch, event, path, answers);
    joined_path_has_parent_and_name(path.drop_last(), path.last()->Normal_0);
    let dir = path.drop_last();
    assert(parent_of(path) == Some(dir));
    assert(dir.len() < path.len());
    if watch.pending.contains(path) {
        watch.lemma_without_pending(path, dir);
        let base = watch.without_pending(path, dir);
        assert(!base.watch_exists(path));
    } else {
        let base = watch.without_file(path);
        assert(!base.watch_exists(path));
        assert(base.watch_exists(dir) == watch.watch_exists(dir));
    }
}

/// A watched file that an event says has gone, or that has gone by what there is, is let go
/// of and then added again as any file is: what is watched comes to what the adding of it
/// comes to without it. What comes of the adding does not matter.
pub proof fn what_has_gone_is_added_again(
    platform: Platform,
    watch: WatchView,
    event: EventView,
    path: PathView,
    answers: Answers,
)
    requires
        event.paths == seq![path],
        watch.files.contains(path),
        !watch.pending.contains(path),
        event.kind == EventKind::Remove(RemoveKind::File) || (event.kind == EventKind::Modify(
            ModifyKind::Name(RenameMode::From),
        ) && platform != Platform::MacOs) || !(answers.exists)(path),
    ensures
        ({
            let without = WatchView {
                directories: watch.directories,
                files: watch.files.remove(path),
                pending: watch.pending,
            };
            received(platform, watch, event, answers).watch == run(
                platform,
                adding(without, path, false),
                answers,
                7,
            ).watch
        }),
{
    lemma_received(platform, watch, event, path, answers);
    adding_comes_to_its_outcome(platform, watch.without_file(path), path, false, answers);
}

/// A missing file that is there, by an event that does not say that it has gone, is let go of
/// and then added again as any file is: its directory is counted once less, and what is
/// watched comes to what the adding of the file comes to then. What comes of the unwatching
/// and of the adding does not matter.
pub proof fn what_has_appeared_is_added_again(
    platform: Platform,
    watch: WatchView,
    event: EventView,
    path: PathView,
    dir: PathView,
    answers: Answers,
)
    requires
        event.paths == seq![path],
        watch.wf(),
        watch.pending.contains(path),
        parent_of(path) == Some(dir),
        !(event.kind == EventKind::Remove(RemoveKind::File)),
        !(event.kind == EventKind::Modify(ModifyKind::Name(RenameMode::From)) && platform
            != Platform::MacOs),
        (answers.exists)(path),
    ensures
        ({
            let without = WatchView {
                directories: if watch.directories[dir] == 1 {
                    watch.directories.remove(dir)
                } else {
                    watch.directories.insert(dir, (watch.directories[dir] - 1) as usize)
                },
                files: watch.files,
                pending: watch.pending.remove(path),
            };
            &&& watch.directories.contains_key(dir)
            &&& received(platform, watch, event, answers).watch == run(
                platform,
                adding(without, path, false),
                answers,
                7,
            ).watch
        }),
{
    lemma_received(platform, watch, event, path, answers);
    watch.lemma_without_pending(path, dir);
    adding_comes_to_its_outcome(platform, watch.without_pending(path, dir), path, false, answers);
}

/// A watched file that is there, by an event that does not say that it has gone, stays
/// watched as it is. A missing file that is not there, or that an event says has gone, stays
/// missing as it is.
pub proof fn nothing_changes_where_nothing_changed(
    platform: Platform,
    watch: WatchView,
    event: EventView,
    path: PathView,
    answers: Answers,
)
    requires
        event.paths == seq![path],
        ({
            let gone = event.kind == EventKind::Remove(RemoveKind::File) || (event.kind
                == EventKind::Modify(ModifyKind::Name(RenameMode::From)) && platform
                != Platform::MacOs) || !(answers.exists)(path);
            if gone {
                !watch.files.contains(path)
            } else {
                !watch.pending.contains(path)
            }
        }),
    ensures
        received(platform, watch, event, answers).watch == watch,
{
    lemma_received(platform, watch, event, path, answers);
}

/// Where the handling of an event begins, a file stops being watched only if the event says
/// that it has gone, and none stops being missing.
proof fn lemma_beginning_loses_what_is_said(
    platform: Platform,
    watch: WatchView,
    event: EventView,
    index: nat,
)
    ensures
        ({
            let turn = handle_from(platform, watch, event, index);
            &&& forall|file: PathView| #[trigger]
                watch.files.contains(file) && !turn.watch.files.contains(file) ==> says_gone(
                    platform,
                    event.kind,
                ) && event.paths.contains(file)
            &&& turn.watch.pending == watch.pending
            &&& turn.step matches Step::Ask(request) ==> request !is Send && request !is Unwatch
        }),
    decreases event.paths.len() - index,
{
    if index < event.paths.len() {
        let path = event.paths[index as int];
        assert(event.paths.contains(path));
        let (after, step) = path_start(platform, watch, event.kind, path);
        if step is Done {
            if path_stays(after, event.kind, path) {
                lemma_beginning_loses_what_is_said(platform, after, event, index + 1nat);
                assert forall|file: PathView| #[trigger]
                    watch.files.contains(file) && !handle_from(
                        platform,
                        watch,
                        event,
                        index,
                    ).watch.files.contains(file) implies says_gone(platform, event.kind)
                    && event.paths.contains(file) by {
                    assert(after.files.contains(file) || file == path);
                }
            } else {
                let fewer = without_path(event, index as int);
                lemma_beginning_loses_what_is_said(platform, after, fewer, index);
                assert forall|file: PathView| #[trigger]
                    watch.files.contains(file) && !handle_from(
                        platform,
                        watch,
                        event,
                        index,
                    ).watch.files.contains(file) implies says_gone(platform, event.kind)
                    && event.paths.contains(file) by {
                    assert(after.files.contains(file) || file == path);
                    if after.files.contains(file) {
                        let i = fewer.paths.index_of(file);
                        assert(fewer.paths[i] == file);
                        assert(file == event.paths[i] || file == event.paths[i + 1]);
                    }
                }
            }
        }
    }
}

/// A file stops being watched only in an event about it that says that it has gone, or where
/// it is answered that it is not there. It stops being missing only where it is answered that
/// it is there.
pub proof fn what_is_let_go_of_has_gone_or_appeared(
    platform: Platform,
    watch: WatchView,
    task: TaskView,
    reply: Reply<PathView, EventView>,
)
    requires
        task_ok(watch, task),
    ensures
        ({
            let turn = next_turn(platform, watch, task, reply);
            &&& forall|file: PathView| #[trigger]
                watch.files.contains(file) && !turn.watch.files.contains(file) ==> (match task {
                    TaskView::Receiving => reply matches Reply::Received(Some(Ok(event)))
                        && says_gone(platform, event.kind) && event.paths.contains(file),
                    TaskView::Handling(event, index, _) => (task_step(task) == Step::<
                        PathView,
                        EventView,
                    >::Ask(Request::Exists(file)) && reply == Reply::<PathView, EventView>::Flag(
                        false,
                    )) || (says_gone(platform, event.kind) && event.paths.contains(file)),
                    _ => false,
                })
            &&& forall|file: PathView| #[trigger]
                watch.pending.contains(file) && !turn.watch.pending.contains(file) ==> task
                    is Handling && task_step(task) == Step::<PathView, EventView>::Ask(
                    Request::Exists(file),
                ) && reply == Reply::<PathView, EventView>::Flag(true)
        }),
{
    match task {
        TaskView::Receiving => {
            if let Reply::Received(Some(Ok(event))) = reply {
                lemma_beginning_loses_what_is_said(platform, watch, event, 0);
            }
        },
        TaskView::Handling(event, index, stage) => {
            let path = event.paths[index as int];
            let (after, step) = path_next(watch, path, stage, reply);
            let turn = next_turn(platform, watch, task, reply);
            if step is Done {
                let fewer = without_path(event, index as int);
                lemma_beginning_loses_what_is_said(platform, after, event, index + 1nat);
                lemma_beginning_loses_what_is_said(platform, after, fewer, index);
                assert forall|file: PathView| #[trigger]
                    watch.files.contains(file) && !turn.watch.files.contains(
                        file,
                    ) && after.files.contains(file) implies says_gone(platform, event.kind)
                    && event.paths.contains(file) by {
                    if fewer.paths.contains(file) {
                        let i = fewer.paths.index_of(file);
                        assert(fewer.paths[i] == file);
                        assert(file == event.paths[i] || file == event.paths[i + 1]);
                    }
                }
            }
        },
        _ => {},
    }
}

/// An event is sent only when the file that it was asked for with has just come to be
/// watched, and a directory is asked to be unwatched only when it has just been given up.
pub proof fn nothing_is_sent_or_unwatched_without_cause(
    platform: Platform,
    watch: WatchView,
    task: TaskView,
    reply: Reply<PathView, EventView>,
)
    requires
        watch.wf(),
    ensures
        ({
            let turn = next_turn(platform, watch, task, reply);
            &&& turn.step matches Step::Ask(Request::Send(event)) ==> task_step(task) == turn.step
                || (task matches TaskView::Adding(AddFile::WatchFile(path), true) && (
            reply matches Reply::Watched(Ok(_))) && event == (EventView {
                kind: EventKind::Create(CreateKind::File),
                paths: seq![path],
            }))
            &&& turn.step matches Step::Ask(Request::Unwatch(dir)) ==> task_step(task) == turn.step
                || (watch.directories.contains_key(dir) && !turn.watch.directories.contains_key(
                dir,
            ) && task is Handling && reply == Reply::<PathView, EventView>::Flag(true))
        }),
{
    match task {
        TaskView::Receiving => {
            if let Reply::Received(Some(Ok(event))) = reply {
                lemma_beginning_loses_what_is_said(platform, watch, event, 0);
            }
        },
        TaskView::Handling(event, index, stage) => {
            let path = event.paths[index as int];
            if watch.pending.contains(path) {
                watch.lemma_without_pending(path, parent_of(path)->0);
            }
            let (after, step) = path_next(watch, path, stage, reply);
            if step is Done {
                lemma_beginning_loses_what_is_said(platform, after, event, index + 1nat);
                lemma_beginning_loses_what_is_said(
                    platform,
                    after,
                    without_path(event, index as int),
                    index,
                );
            }
        },
        _ => {},
    }
}

/// An event of any kind about a path that is not held as a file changes nothing, and the
/// path is taken out of the event.
pub proof fn events_about_strangers_change_nothing(
    platform: Platform,
    watch: WatchView,
    event: EventView,
    path: PathView,
    answers: Answers,
)
    requires
        event.paths == seq![path],
        !watch.files.contains(path),
        !watch.pending.contains(path),
    ensures
        received(platform, watch, event, answers) == (Turn {
            watch,
            task: TaskView::Idle,
            step: Step::Next(Ok(Some(EventView { kind: event.kind, paths: Seq::empty() }))),
        }),
{
    lemma_received(platform, watch, event, path, answers);
    let kept = handled(platform, watch, event, 0, answers).1;
    assert(kept == (EventView { kind: event.kind, paths: Seq::empty() }));
}

/// A path stays in a handled event if it is that of a missing file by then, in an event
/// about a removal of any kind, or of a watched file, in any other.
pub proof fn path_stays_where_the_event_concerns_it(
    platform: Platform,
    watch: WatchView,
    event: EventView,
    path: PathView,
    answers: Answers,
)
    requires
        event.paths == seq![path],
    ensures
        ({
            let turn = received(platform, watch, event, answers);
            let concerned = match event.kind {
                EventKind::Remove(_) => turn.watch.pending.contains(path),
                _ => turn.watch.files.contains(path),
            };
            turn.step == Step::<PathView, EventView>::Next(
                Ok(
                    Some(
                        EventView {
                            kind: event.kind,
                            paths: if concerned {
                                seq![path]
                            } else {
                                Seq::empty()
                            },
                        },
                    ),
                ),
            )
        }),
{
    lemma_received(platform, watch, event, path, answers);
}

/// The handling of an event whose first paths have been kept is that of the rest.
proof fn lemma_kept_paths_are_done(
    platform: Platform,
    watch: WatchView,
    kind: EventKind,
    kept: Seq<PathView>,
    rest: Seq<PathView>,
    answers: Answers,
)
    ensures
        handled(
            platform,
            watch,
            EventView { kind, paths: kept + rest },
            kept.len(),
            answers,
        ) == {
            let (after, event) = handled(
                platform,
                watch,
                EventView { kind, paths: rest },
                0,
                answers,
            );
            (after, EventView { kind, paths: kept + event.paths })
        },
    decreases rest.len(),
{
    let whole = EventView { kind, paths: kept + rest };
    let event = EventView { kind, paths: rest };
    if rest.len() > 0 {
        let path = rest[0];
        let later = rest.drop_first();
        let done = path_outcome(platform, watch, kind, path, answers);
        assert(whole.paths[kept.len() as int] == path);
        assert(event.paths[0] == path);
        if path_stays(done, kind, path) {
            let more = kept.push(path);
            assert(kept + rest =~= more + later);
            assert(rest =~= seq![path] + later);
            lemma_kept_paths_are_done(platform, done, kind, more, later, answers);
            lemma_kept_paths_are_done(platform, done, kind, seq![path], later, answers);
            let end = handled(platform, done, EventView { kind, paths: later }, 0, answers).1;
            assert(more + end.paths =~= kept + (seq![path] + end.paths));
        } else {
            assert(without_path(whole, kept.len() as int).paths =~= kept + later);
            assert(without_path(event, 0).paths =~= later);
            lemma_kept_paths_are_done(platform, done, kind, kept, later, answers);
        }
    } else {
        assert(kept + rest =~= kept);
    }
}

/// An event is handled path by path: what its first paths come to is what the others are
/// handled in, and it keeps of the ones and of the others what it would keep of each alone,
/// in their order.
pub proof fn event_is_handled_path_by_path(
    platform: Platform,
    watch: WatchView,
    kind: EventKind,
    first: Seq<PathView>,
    rest: Seq<PathView>,
    answers: Answers,
)
    ensures
        ({
            let (middle, some) = handled(
                platform,
                watch,
                EventView { kind, paths: first },
                0,
                answers,
            );
            let (end, others) = handled(
                platform,
                middle,
                EventView { kind, paths: rest },
                0,
                answers,
            );
            handled(platform, watch, EventView { kind, paths: first + rest }, 0, answers) == (
                end,
                EventView { kind, paths: some.paths + others.paths },
            )
        }),
    decreases first.len(),
{
    if first.len() > 0 {
        let path = first[0];
        let later = first.drop_first();
        let done = path_outcome(platform, watch, kind, path, answers);
        let whole = EventView { kind, paths: first + rest };
        let event = EventView { kind, paths: first };
        assert(whole.paths[0] == path);
        assert(event.paths[0] == path);
        event_is_handled_path_by_path(platform, done, kind, later, rest, answers);
        if path_stays(done, kind, path) {
            assert(first + rest =~= seq![path] + (later + rest));
            assert(first =~= seq![path] + later);
            lemma_kept_paths_are_done(platform, done, kind, seq![path], later + rest, answers);
            lemma_kept_paths_are_done(platform, done, kind, seq![path], later, answers);
            let (middle, some) = handled(
                platform,
                done,
                EventView { kind, paths: later },
                0,
                answers,
            );
            let others = handled(platform, middle, EventView { kind, paths: rest }, 0, answers).1;
            assert(seq![path] + (some.paths + others.paths) =~= (seq![path] + some.paths)
                + others.paths);
        } else {
            assert(without_path(whole, 0).paths =~= later + rest);
            assert(without_path(event, 0).paths =~= later);
        }
    } else {
        assert(first + rest =~= rest);
        let others = handled(platform, watch, EventView { kind, paths: rest }, 0, answers).1;
        assert(first + others.paths =~= others.paths);
        lemma_kept_paths_are_done(platform, watch, kind, first, rest, answers);
    }
}

/// An event without paths is handed out as it is.
pub proof fn event_without_paths_is_handed_out(
    platform: Platform,
    watch: WatchView,
    kind: EventKind,
)
    ensures
        next_turn(
            platform,
            watch,
            TaskView::Receiving,
            Reply::Received(Some(Ok(EventView { kind, paths: Seq::empty() }))),
        ) == (Turn {
            watch,
            task: TaskView::Idle,
            step: Step::Next(Ok(Some(EventView { kind, paths: Seq::empty() }))),
        }),
{
}

} // verus!
