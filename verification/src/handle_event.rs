//! What an event means for the files that lines are read from.
use crate::event::{
    CreateKind, Event, EventKind, EventView, ModifyKind, Platform, RenameMode,
};
use crate::inner::{Inner, InnerView};
use crate::path::PathView;
use vstd::prelude::*;

verus! {

/// What the handling of an event is waiting for.
#[derive(Clone, Copy, Debug, PartialEq, Eq)]
pub enum HandleEventAwaitState {
    /// Nothing.
    Idle,
    /// The size of the file.
    Metadata,
    /// A reader of the file, from this position on or else from the start.
    NewLineReader(Option<u64>),
}

impl Default for HandleEventAwaitState {
    fn default() -> (state: HandleEventAwaitState)
        ensures
            state == HandleEventAwaitState::Idle,
    {
        HandleEventAwaitState::Idle
    }
}

impl HandleEventAwaitState {
    /// Sets the state, and hands out the one before.
    pub fn replace(&mut self, new_state: HandleEventAwaitState) -> (previous: HandleEventAwaitState)
        ensures
            *final(self) == new_state,
            previous == *old(self),
    {
        let mut old_state = new_state;

        std::mem::swap(self, &mut old_state);

        old_state
    }
}

/// How far the handling of an event has come.
#[derive(Debug)]
pub struct HandleEventState {
    path_index: usize,
    await_state: HandleEventAwaitState,
}

/// How far the handling of an event has come, as contracts speak of it.
pub struct HandleEventStateView {
    /// The place of the path that it has come to.
    pub path_index: nat,
    pub await_state: HandleEventAwaitState,
}

impl View for HandleEventState {
    type V = HandleEventStateView;

    closed spec fn view(&self) -> HandleEventStateView {
        HandleEventStateView { path_index: self.path_index as nat, await_state: self.await_state }
    }
}

impl HandleEventState {
    /// The beginning.
    pub fn new() -> (state: HandleEventState)
        ensures
            state@ == (HandleEventStateView {
                path_index: 0,
                await_state: HandleEventAwaitState::Idle,
            }),
    {
        HandleEventState { path_index: 0, await_state: Default::default() }
    }

    /// The place of the path that the handling has come to.
    pub fn path_index(&self) -> (index: usize)
        ensures
            index == self@.path_index,
    {
        self.path_index
    }

    /// What the handling is waiting for.
    pub fn await_state(&self) -> (state: HandleEventAwaitState)
        ensures
            state == self@.await_state,
    {
        self.await_state
    }
}

/// Something that the handling of an event was waiting for.
#[derive(Debug)]
pub enum FileReply<R> {
    /// The size of the file.
    Metadata(Result<u64, std::io::Error>),
    /// A reader of the file.
    Reader(Result<R, std::io::Error>),
}

/// Whether events of this kind matter to the reading of lines: that a file was
/// created, that its data changed, or that another file was renamed to it.
pub open spec fn event_matters(platform: Platform, kind: EventKind) -> bool {
    match kind {
        EventKind::Create(CreateKind::File) => true,
        EventKind::Create(CreateKind::Any) => platform == Platform::Windows,
        EventKind::Modify(ModifyKind::Data(_)) => true,
        EventKind::Modify(ModifyKind::Name(RenameMode::To)) => true,
        EventKind::Modify(ModifyKind::Name(RenameMode::From)) => platform == Platform::MacOs,
        EventKind::Modify(ModifyKind::Any) => platform == Platform::Windows,
        _ => false,
    }
}

/// The handling of an event from the path at that place on. A file that was created
/// is opened; of one that was modified the size is asked for first.
pub open spec fn files_from<R>(
    platform: Platform,
    inner: InnerView<R>,
    event: EventView,
    index: nat,
) -> (InnerView<R>, HandleEventStateView) {
    if index >= event.paths.len() || !event_matters(platform, event.kind) {
        (
            inner,
            HandleEventStateView {
                path_index: event.paths.len(),
                await_state: HandleEventAwaitState::Idle,
            },
        )
    } else if event.kind is Create {
        (
            inner.without_pending(event.paths[index as int]),
            HandleEventStateView {
                path_index: index,
                await_state: HandleEventAwaitState::NewLineReader(None),
            },
        )
    } else {
        (
            inner,
            HandleEventStateView {
                path_index: index,
                await_state: HandleEventAwaitState::Metadata,
            },
        )
    }
}

/// What the size of a modified file leads to: what is known of the files then, and
/// the position from which the file is to be opened, if it is.
///
/// A file that is smaller than it was has rolled, and is opened from its start. One
/// that is not known yet is opened at its end.
pub open spec fn file_sized<R>(inner: InnerView<R>, path: PathView, size: u64) -> (
    InnerView<R>,
    Option<Option<u64>>,
) {
    if !inner.positions.contains_key(path) {
        (inner.without_pending(path).with_position(path, size), Some(Some(size)))
    } else if size < inner.positions[path] {
        (inner.with_position(path, 0), Some(None))
    } else {
        (inner.with_position(path, size), None)
    }
}

/// What is known of the files once a reader has been opened.
pub open spec fn file_opened<R>(
    inner: InnerView<R>,
    kind: EventKind,
    path: PathView,
    reader: R,
) -> InnerView<R> {
    if kind is Create {
        inner.with_reader(path, reader).with_position(path, 0)
    } else {
        inner.with_reader(path, reader)
    }
}

/// What something that was waited for leads to. Anything else changes nothing.
pub open spec fn files_next<R>(
    platform: Platform,
    inner: InnerView<R>,
    event: EventView,
    state: HandleEventStateView,
    reply: FileReply<R>,
) -> (InnerView<R>, HandleEventStateView) {
    let index = state.path_index;
    let path = event.paths[index as int];
    match (state.await_state, reply) {
        (HandleEventAwaitState::Metadata, FileReply::Metadata(Ok(size))) => {
            let (after, open) = file_sized(inner, path, size);
            match open {
                Some(position) => (
                    after,
                    HandleEventStateView {
                        path_index: index,
                        await_state: HandleEventAwaitState::NewLineReader(position),
                    },
                ),
                None => files_from(platform, after, event, index + 1nat),
            }
        },
        (HandleEventAwaitState::Metadata, FileReply::Metadata(Err(_))) => files_from(
            platform,
            inner,
            event,
            index + 1nat,
        ),
        (HandleEventAwaitState::NewLineReader(_), FileReply::Reader(Ok(reader))) => files_from(
            platform,
            file_opened(inner, event.kind, path, reader),
            event,
            index + 1nat,
        ),
        (HandleEventAwaitState::NewLineReader(_), FileReply::Reader(Err(_))) => files_from(
            platform,
            inner,
            event,
            index + 1nat,
        ),
        _ => (inner, state),
    }
}

/// What the handling of an event in progress relies on: it waits for something of
/// one of its paths, and only the size of a modified file is asked for. A modified
/// file that is being opened has a position.
pub open spec fn handling_ok<R>(
    platform: Platform,
    inner: InnerView<R>,
    event: EventView,
    state: HandleEventStateView,
) -> bool {
    &&& state.path_index < event.paths.len()
    &&& state.await_state !is Idle
    &&& event_matters(platform, event.kind)
    &&& state.await_state is Metadata ==> event.kind is Modify
    &&& state.await_state is NewLineReader && event.kind is Modify
        ==> inner.positions.contains_key(event.paths[state.path_index as int])
}

/// Goes on with the path that the handling of an event has come to, unless it is
/// through.
fn handle_files<R>(
    platform: Platform,
    inner: &mut Inner<R>,
    event: &Event,
    state: &mut HandleEventState,
)
    requires
        old(inner).wf(),
        old(state)@.path_index <= event@.paths.len(),
    ensures
        final(inner).wf(),
        (final(inner)@, final(state)@) == files_from(
            platform,
            old(inner)@,
            event@,
            old(state)@.path_index,
        ),
{
    let new_state = match event.kind {
        // Assumes starting tail position of 0
        EventKind::Create(create_kind) => {
            // Windows returns `Any` for file creation, so handle that
            let matters = match create_kind {
                CreateKind::File => true,
                CreateKind::Any => platform == Platform::Windows,
                _ => false,
            };
            if matters && state.path_index < event.paths.len() {
                let _ = inner.remove_pending(&event.paths[state.path_index]);
                HandleEventAwaitState::NewLineReader(None)
            } else {
                HandleEventAwaitState::Idle
            }
        },
        EventKind::Modify(modify_kind) => {
            // Windows returns `Any` for file modification, so handle that
            let matters = match modify_kind {
                ModifyKind::Data(_) => true,
                ModifyKind::Name(RenameMode::To) => true,
                ModifyKind::Name(RenameMode::From) => platform == Platform::MacOs,
                ModifyKind::Any => platform == Platform::Windows,
                _ => false,
            };
            if matters && state.path_index < event.paths.len() {
                HandleEventAwaitState::Metadata
            } else {
                HandleEventAwaitState::Idle
            }
        },
        _ => HandleEventAwaitState::Idle,
    };
    if let HandleEventAwaitState::Idle = new_state {
        // No path is of interest, so all of them are done
        state.path_index = event.paths.len();
    }
    let _ = state.await_state.replace(new_state);
}

/// Handles an event: readers are opened for its files, again if they have rolled.
///
/// The first call comes with no reply, and each further one with what was waited
/// for. The event has been handled once nothing is waited for.
pub fn poll_handle_event<R>(
    platform: Platform,
    inner: &mut Inner<R>,
    event: &Event,
    state: &mut HandleEventState,
    reply: Option<FileReply<R>>,
)
    requires
        old(inner).wf(),
        reply is None ==> old(state)@.path_index <= event@.paths.len(),
        reply is Some ==> handling_ok(platform, old(inner)@, event@, old(state)@),
    ensures
        final(inner).wf(),
        (final(inner)@, final(state)@) == match reply {
            None => files_from(platform, old(inner)@, event@, old(state)@.path_index),
            Some(reply) => files_next(platform, old(inner)@, event@, old(state)@, reply),
        },
        final(state)@.await_state is Idle ==> final(state)@.path_index == event@.paths.len(),
        final(state)@.await_state !is Idle ==> handling_ok(
            platform,
            final(inner)@,
            event@,
            final(state)@,
        ),
{
    let reply = match reply {
        Some(reply) => reply,
        None => {
            handle_files(platform, inner, event, state);
            return ;
        },
    };
    let path = &event.paths[state.path_index];
    assert(state.path_index < event.paths.len());
    assert(path@ == event@.paths[state@.path_index as int]);
    match (state.await_state, reply) {
        (HandleEventAwaitState::Metadata, FileReply::Metadata(Ok(size))) => {
            let known: Option<u64> = match inner.reader_positions().get(path) {
                Some(pos) => Some(*pos),
                None => None,
            };
            match known {
                Some(pos) => {
                    if size < pos {
                        // rolled
                        let _ = inner.insert_reader_position(path.clone(), 0);
                        let _ = state.await_state.replace(
                            HandleEventAwaitState::NewLineReader(None),
                        );
                    } else {
                        // didn't roll, just update size
                        let _ = inner.insert_reader_position(path.clone(), size);
                        state.path_index += 1;
                        handle_files(platform, inner, event, state);
                    }
                },
                None => {
                    let _ = inner.remove_pending(path);
                    let _ = inner.insert_reader_position(path.clone(), size);
                    // A Modify without a Create, so we never got a reader
                    let _ = state.await_state.replace(
                        HandleEventAwaitState::NewLineReader(Some(size)),
                    );
                },
            }
        },
        (HandleEventAwaitState::Metadata, FileReply::Metadata(Err(_))) => {
            state.path_index += 1;
            handle_files(platform, inner, event, state);
        },
        (HandleEventAwaitState::NewLineReader(_), FileReply::Reader(Ok(reader))) => {
            // Don't really care about old values, we got create
            let _ = inner.insert_reader(path.clone(), reader);
            if let EventKind::Create(_) = event.kind {
                let _ = inner.insert_reader_position(path.clone(), 0);
            }
            state.path_index += 1;
            handle_files(platform, inner, event, state);
        },
        (HandleEventAwaitState::NewLineReader(_), FileReply::Reader(Err(_))) => {
            state.path_index += 1;
            handle_files(platform, inner, event, state);
        },
        _ => {},
    }
}

} // verus!
