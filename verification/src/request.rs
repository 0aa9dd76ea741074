//! What the event watch asks of its surroundings, and what it is told.
use crate::error::NotifyError;
use crate::event::{Event, EventView};
use crate::path::{FilePath, PathView};
use vstd::prelude::*;

verus! {

/// Something that the event watch needs done. `P` is the type of paths and `E`
/// that of events.
#[derive(Debug)]
pub enum Request<P, E> {
    /// What is the current directory?
    CurrentDir,
    /// Where does the symbolic link lead?
    ReadLink(P),
    /// What is the canonical, absolute form of the path?
    Canonicalize(P),
    /// Is there a directory at the path?
    IsDir(P),
    /// Is there anything at the path?
    Exists(P),
    /// Watch the path, but not what is below it.
    Watch(P),
    /// Stop watching the path.
    Unwatch(P),
    /// Put the event into the event stream.
    Send(E),
    /// Take the next event out of the event stream.
    Receive,
}

/// What came of a request.
#[derive(Debug)]
pub enum Reply<P, E> {
    /// Of `CurrentDir`, `ReadLink` and `Canonicalize`.
    Path(Result<P, std::io::Error>),
    /// Of `IsDir` and `Exists`.
    Flag(bool),
    /// Of `Watch` and `Unwatch`.
    Watched(Result<(), NotifyError>),
    /// Of `Send`.
    Sent,
    /// Of `Receive`; `None` if the stream has ended.
    Received(Option<Result<E, NotifyError>>),
}

impl View for Request<FilePath, Event> {
    type V = Request<PathView, EventView>;

    open spec fn view(&self) -> Request<PathView, EventView> {
        match self {
            Request::CurrentDir => Request::CurrentDir,
            Request::ReadLink(path) => Request::ReadLink(path@),
            Request::Canonicalize(path) => Request::Canonicalize(path@),
            Request::IsDir(path) => Request::IsDir(path@),
            Request::Exists(path) => Request::Exists(path@),
            Request::Watch(path) => Request::Watch(path@),
            Request::Unwatch(path) => Request::Unwatch(path@),
            Request::Send(event) => Request::Send(event@),
            Request::Receive => Request::Receive,
        }
    }
}

impl View for Reply<FilePath, Event> {
    type V = Reply<PathView, EventView>;

    open spec fn view(&self) -> Reply<PathView, EventView> {
        match self {
            Reply::Path(Ok(path)) => Reply::Path(Ok(path@)),
            Reply::Path(Err(error)) => Reply::Path(Err(*error)),
            Reply::Flag(flag) => Reply::Flag(*flag),
            Reply::Watched(result) => Reply::Watched(*result),
            Reply::Sent => Reply::Sent,
            Reply::Received(None) => Reply::Received(None),
            Reply::Received(Some(Ok(event))) => Reply::Received(Some(Ok(event@))),
            Reply::Received(Some(Err(error))) => Reply::Received(Some(Err(*error))),
        }
    }
}

/// What the surroundings answer to every request, at one moment.
pub struct Answers {
    pub current_dir: Result<PathView, std::io::Error>,
    pub read_link: spec_fn(PathView) -> Result<PathView, std::io::Error>,
    pub canonicalize: spec_fn(PathView) -> Result<PathView, std::io::Error>,
    pub is_dir: spec_fn(PathView) -> bool,
    pub exists: spec_fn(PathView) -> bool,
    pub watch: spec_fn(PathView) -> Result<(), NotifyError>,
    pub unwatch: spec_fn(PathView) -> Result<(), NotifyError>,
    pub receive: Option<Result<EventView, NotifyError>>,
}

impl Answers {
    /// The answer to one request.
    pub open spec fn to(self, request: Request<PathView, EventView>) -> Reply<PathView, EventView> {
        match request {
            Request::CurrentDir => Reply::Path(self.current_dir),
            Request::ReadLink(path) => Reply::Path((self.read_link)(path)),
            Request::Canonicalize(path) => Reply::Path((self.canonicalize)(path)),
            Request::IsDir(path) => Reply::Flag((self.is_dir)(path)),
            Request::Exists(path) => Reply::Flag((self.exists)(path)),
            Request::Watch(path) => Reply::Watched((self.watch)(path)),
            Request::Unwatch(path) => Reply::Watched((self.unwatch)(path)),
            Request::Send(_) => Reply::Sent,
            Request::Receive => Reply::Received(self.receive),
        }
    }
}

} // verus!
