//! The adding of a file to the event watch.
use crate::absolutify::{
    absolutify, absolutify_next, absolutify_request, absolutify_start, result_view, Absolutify,
    AbsolutifyStep,
};
use crate::error::{io_error_of, notify_to_io_error, IoError};
use crate::event::{CreateKind, Event, EventKind, EventView};
use crate::path::{parent_of, FilePath, PathView};
use crate::request::{Reply, Request};
use crate::watch::{WatchView, Watches};
use vstd::prelude::*;

verus! {

/// How far the adding of a file has come. `P` is the type of paths and `N` that
/// of file names.
#[derive(Debug)]
pub enum AddFile<P, N> {
    /// The path is being made canonical.
    Absolutify(Absolutify<P, N>),
    /// It may be the path of a directory.
    IsDir(P),
    /// The file may not exist yet.
    Exists(P),
    /// The file does not exist, and its parent directory is to be watched.
    WatchParent(P, P),
    /// The file is to be watched.
    WatchFile(P),
    /// The file is watched, and an event is to be sent for it.
    Send(P),
}

/// What one step of the adding of a file leads to.
#[derive(Debug)]
pub enum AddStep<P, N> {
    Continue(AddFile<P, N>),
    Done(Result<P, IoError>),
}

impl View for AddFile<FilePath, Vec<u8>> {
    type V = AddFile<PathView, Seq<u8>>;

    open spec fn view(&self) -> AddFile<PathView, Seq<u8>> {
        match self {
            AddFile::Absolutify(state) => AddFile::Absolutify(state@),
            AddFile::IsDir(path) => AddFile::IsDir(path@),
            AddFile::Exists(path) => AddFile::Exists(path@),
            AddFile::WatchParent(path, parent) => AddFile::WatchParent(path@, parent@),
            AddFile::WatchFile(path) => AddFile::WatchFile(path@),
            AddFile::Send(path) => AddFile::Send(path@),
        }
    }
}

impl View for AddStep<FilePath, Vec<u8>> {
    type V = AddStep<PathView, Seq<u8>>;

    open spec fn view(&self) -> AddStep<PathView, Seq<u8>> {
        match self {
            AddStep::Continue(state) => AddStep::Continue(state@),
            AddStep::Done(result) => AddStep::Done(result_view(*result)),
        }
    }
}

/// The event that makes a file be read from its start.
pub open spec fn created(path: PathView) -> EventView {
    EventView { kind: EventKind::Create(CreateKind::File), paths: seq![path] }
}

/// What the adding of a file asks for.
pub open spec fn add_request(state: AddFile<PathView, Seq<u8>>) -> Request<PathView, EventView> {
    match state {
        AddFile::Absolutify(state) => absolutify_request(state),
        AddFile::IsDir(path) => Request::IsDir(path),
        AddFile::Exists(path) => Request::Exists(path),
        AddFile::WatchParent(_, parent) => Request::Watch(parent),
        AddFile::WatchFile(path) => Request::Watch(path),
        AddFile::Send(path) => Request::Send(created(path)),
    }
}

/// What follows a step of the making of the canonical path.
pub open spec fn add_canonical(step: AbsolutifyStep<PathView, Seq<u8>>) -> AddStep<
    PathView,
    Seq<u8>,
> {
    match step {
        AbsolutifyStep::Continue(state) => AddStep::Continue(AddFile::Absolutify(state)),
        AbsolutifyStep::Done(Ok(path)) => AddStep::Continue(AddFile::IsDir(path)),
        AbsolutifyStep::Done(Err(error)) => AddStep::Done(Err(error)),
    }
}

/// The first step.
pub open spec fn add_start(path: PathView) -> AddStep<PathView, Seq<u8>> {
    add_canonical(absolutify_start(path, true))
}

/// The step that a reply allows, and what is watched after it. A reply to another
/// request changes nothing.
pub open spec fn add_next(
    watch: WatchView,
    state: AddFile<PathView, Seq<u8>>,
    initial_event: bool,
    reply: Reply<PathView, EventView>,
) -> (WatchView, AddStep<PathView, Seq<u8>>) {
    match (state, reply) {
        (AddFile::Absolutify(state), reply) => (
            watch,
            add_canonical(absolutify_next(state, reply)),
        ),
        (AddFile::IsDir(path), Reply::Flag(is_dir)) => (
            watch,
            if is_dir {
                AddStep::Done(Err(IoError::IsADirectory))
            } else if watch.watch_exists(path) {
                AddStep::Done(Ok(path))
            } else {
                AddStep::Continue(AddFile::Exists(path))
            },
        ),
        (AddFile::Exists(path), Reply::Flag(exists)) => if exists {
            (watch, AddStep::Continue(AddFile::WatchFile(path)))
        } else {
            match parent_of(path) {
                None => (watch, AddStep::Done(Err(IoError::NeedsParentDirectory))),
                Some(parent) => if watch.watch_exists(parent) {
                    (watch.with_pending(path, parent), AddStep::Done(Ok(path)))
                } else {
                    (watch, AddStep::Continue(AddFile::WatchParent(path, parent)))
                },
            }
        },
        (AddFile::WatchParent(path, parent), Reply::Watched(result)) => match result {
            Ok(_) => (watch.with_pending(path, parent), AddStep::Done(Ok(path))),
            Err(error) => (watch, AddStep::Done(Err(io_error_of(error)))),
        },
        (AddFile::WatchFile(path), Reply::Watched(result)) => match result {
            Ok(_) => (
                watch.with_file(path),
                if initial_event {
                    AddStep::Continue(AddFile::Send(path))
                } else {
                    AddStep::Done(Ok(path))
                },
            ),
            Err(error) => (watch, AddStep::Done(Err(io_error_of(error)))),
        },
        (AddFile::Send(path), Reply::Sent) => (watch, AddStep::Done(Ok(path))),
        _ => (watch, AddStep::Continue(state)),
    }
}

/// What an adding in progress relies on: neither the file nor the directory that
/// is to be watched is held yet, and a file that an event is sent for is.
pub open spec fn add_ok(watch: WatchView, state: AddFile<PathView, Seq<u8>>) -> bool {
    match state {
        AddFile::Absolutify(_) => true,
        AddFile::IsDir(_) => true,
        AddFile::Exists(path) => !watch.watch_exists(path),
        AddFile::WatchParent(path, parent) => !watch.watch_exists(path) && !watch.watch_exists(
            parent,
        ) && parent_of(path) == Some(parent),
        AddFile::WatchFile(path) => !watch.watch_exists(path),
        AddFile::Send(path) => watch.watch_exists(path),
    }
}

/// What follows a step of the making of the canonical path.
fn after_absolutify(step: AbsolutifyStep<FilePath, Vec<u8>>) -> (next: AddStep<
    FilePath,
    Vec<u8>,
>)
    ensures
        next@ == add_canonical(step@),
{
    match step {
        AbsolutifyStep::Continue(state) => AddStep::Continue(AddFile::Absolutify(state)),
        AbsolutifyStep::Done(Ok(path)) => AddStep::Continue(AddFile::IsDir(path)),
        AbsolutifyStep::Done(Err(error)) => AddStep::Done(Err(error)),
    }
}

impl AddFile<FilePath, Vec<u8>> {
    /// What has to be answered before the adding can go on.
    pub fn request(&self) -> (request: Request<FilePath, Event>)
        ensures
            request@ == add_request(self@),
    {
        match self {
            AddFile::Absolutify(state) => state.request(),
            AddFile::IsDir(path) => Request::IsDir(path.clone()),
            AddFile::Exists(path) => Request::Exists(path.clone()),
            AddFile::WatchParent(_, parent) => Request::Watch(parent.clone()),
            AddFile::WatchFile(path) => Request::Watch(path.clone()),
            AddFile::Send(path) => {
                let mut paths: Vec<FilePath> = Vec::new();
                paths.push(path.clone());
                let event = Event { kind: EventKind::Create(CreateKind::File), paths };
                assert(event@.paths =~= created(path@).paths);
                Request::Send(event)
            },
        }
    }
}

/// Begins to add a file.
pub fn start_adding(path: FilePath) -> (step: AddStep<FilePath, Vec<u8>>)
    ensures
        step@ == add_start(path@),
{
    after_absolutify(absolutify(path, true))
}

impl Watches {
    /// Goes on adding a file with the answer to what was asked for.
    pub fn resume_adding(
        &mut self,
        state: AddFile<FilePath, Vec<u8>>,
        initial_event: bool,
        reply: Reply<FilePath, Event>,
    ) -> (step: AddStep<FilePath, Vec<u8>>)
        requires
            old(self).wf(),
            add_ok(old(self)@, state@),
        ensures
            final(self).wf(),
            (final(self)@, step@) == add_next(old(self)@, state@, initial_event, reply@),
            step@ matches AddStep::Continue(state) ==> add_ok(final(self)@, state),
            step@ matches AddStep::Done(Ok(path)) ==> final(self)@.watch_exists(path),
    {
        match (state, reply) {
            (AddFile::Absolutify(state), reply) => after_absolutify(state.resume(reply)),
            (AddFile::IsDir(path), Reply::Flag(is_dir)) => {
                if is_dir {
                    AddStep::Done(Err(IoError::IsADirectory))
                } else if self.watch_exists(&path) {
                    AddStep::Done(Ok(path))
                } else {
                    AddStep::Continue(AddFile::Exists(path))
                }
            },
            (AddFile::Exists(path), Reply::Flag(exists)) => {
                if exists {
                    return AddStep::Continue(AddFile::WatchFile(path));
                }
                match path.parent() {
                    None => AddStep::Done(Err(IoError::NeedsParentDirectory)),
                    Some(parent) => {
                        // To watch a path again can produce duplicate events on some
                        // platforms.
                        if self.watch_exists(&parent) {
                            self.add_pending(path.clone(), parent);
                            AddStep::Done(Ok(path))
                        } else {
                            AddStep::Continue(AddFile::WatchParent(path, parent))
                        }
                    },
                }
            },
            (AddFile::WatchParent(path, parent), Reply::Watched(result)) => match result {
                Ok(_) => {
                    self.add_pending(path.clone(), parent);
                    AddStep::Done(Ok(path))
                },
                Err(error) => AddStep::Done(Err(notify_to_io_error(error))),
            },
            (AddFile::WatchFile(path), Reply::Watched(result)) => match result {
                Ok(_) => {
                    self.add_file(path.clone());
                    if initial_event {
                        AddStep::Continue(AddFile::Send(path))
                    } else {
                        AddStep::Done(Ok(path))
                    }
                },
                Err(error) => AddStep::Done(Err(notify_to_io_error(error))),
            },
            (AddFile::Send(path), Reply::Sent) => AddStep::Done(Ok(path)),
            (state, _) => AddStep::Continue(state),
        }
    }
}

} // verus!
