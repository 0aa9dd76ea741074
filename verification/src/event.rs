//! Filesystem events.
use crate::path::{FilePath, PathView};
use vstd::prelude::*;

verus! {

/// The platform that events come from, as far as it matters here.
#[derive(Clone, Copy, Debug, PartialEq, Eq, Structural)]
pub enum Platform {
    /// Windows, which reports the creation and the modification of a file
    /// without saying what was created or modified.
    Windows,
    /// macOS, where a file may still exist after an event that renames it away.
    MacOs,
    /// Any other platform.
    Other,
}

/// How a file was accessed.
#[derive(Clone, Copy, Debug, PartialEq, Eq, Structural)]
pub enum AccessMode {
    Any,
    Execute,
    Read,
    Write,
    Other,
}

/// What kind of access it was.
#[derive(Clone, Copy, Debug, PartialEq, Eq, Structural)]
pub enum AccessKind {
    Any,
    Read,
    Open(AccessMode),
    Close(AccessMode),
    Other,
}

/// What was created.
#[derive(Clone, Copy, Debug, PartialEq, Eq, Structural)]
pub enum CreateKind {
    Any,
    File,
    Folder,
    Other,
}

/// How the data of a file changed.
#[derive(Clone, Copy, Debug, PartialEq, Eq, Structural)]
pub enum DataChange {
    Any,
    Size,
    Content,
    Other,
}

/// Which metadata of a file changed.
#[derive(Clone, Copy, Debug, PartialEq, Eq, Structural)]
pub enum MetadataKind {
    Any,
    AccessTime,
    WriteTime,
    Permissions,
    Ownership,
    Extended,
    Other,
}

/// Which side of a renaming an event reports.
#[derive(Clone, Copy, Debug, PartialEq, Eq, Structural)]
pub enum RenameMode {
    Any,
    To,
    From,
    Both,
    Other,
}

/// What was modified.
#[derive(Clone, Copy, Debug, PartialEq, Eq, Structural)]
pub enum ModifyKind {
    Any,
    Data(DataChange),
    Metadata(MetadataKind),
    Name(RenameMode),
    Other,
}

/// What was removed.
#[derive(Clone, Copy, Debug, PartialEq, Eq, Structural)]
pub enum RemoveKind {
    Any,
    File,
    Folder,
    Other,
}

/// What an event reports.
#[derive(Clone, Copy, Debug, PartialEq, Eq, Structural)]
pub enum EventKind {
    Any,
    Access(AccessKind),
    Create(CreateKind),
    Modify(ModifyKind),
    Remove(RemoveKind),
    Other,
}

impl EventKind {
    /// Whether something was removed.
    pub fn is_remove(&self) -> (remove: bool)
        ensures
            remove == (*self is Remove),
    {
        matches!(self, EventKind::Remove(_))
    }
}

/// A filesystem event: what happened, and to which paths.
#[derive(Debug, PartialEq, Eq)]
pub struct Event {
    pub kind: EventKind,
    pub paths: Vec<FilePath>,
}

/// An event as contracts speak of it.
pub struct EventView {
    pub kind: EventKind,
    pub paths: Seq<PathView>,
}

/// The paths that a list holds.
pub open spec fn path_views(paths: Seq<FilePath>) -> Seq<PathView> {
    Seq::new(paths.len(), |i: int| paths[i]@)
}

impl View for Event {
    type V = EventView;

    open spec fn view(&self) -> EventView {
        EventView { kind: self.kind, paths: path_views(self.paths@) }
    }
}

} // verus!
