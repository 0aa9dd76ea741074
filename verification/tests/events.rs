use linemux::absolutify::{absolutify, Absolutify, AbsolutifyStep};
use linemux::add_file::{AddFile, AddStep};
use linemux::error::{IoError, IoErrorKind, NotifyError, NotifyErrorKind};
use linemux::event::{
    CreateKind, DataChange, Event, EventKind, ModifyKind, Platform, RemoveKind, RenameMode,
};
use linemux::events::Step;
use linemux::path::{Component, FilePath};
use linemux::request::{Reply, Request};
use linemux::watch::Watches;
use linemux::MuxedEvents;
use std::collections::{BTreeMap, BTreeSet, VecDeque};
use std::io;

const CREATED: EventKind = EventKind::Create(CreateKind::File);
const REMOVED: EventKind = EventKind::Remove(RemoveKind::File);
const CHANGED: EventKind = EventKind::Modify(ModifyKind::Data(DataChange::Any));
const RENAMED_FROM: EventKind = EventKind::Modify(ModifyKind::Name(RenameMode::From));

fn path(text: &str) -> FilePath {
    let components = std::path::Path::new(text)
        .components()
        .map(|component| match component {
            std::path::Component::Prefix(prefix) => {
                Component::Prefix(prefix.as_os_str().to_str().unwrap().as_bytes().to_vec())
            }
            std::path::Component::RootDir => Component::RootDir,
            std::path::Component::CurDir => Component::CurDir,
            std::path::Component::ParentDir => Component::ParentDir,
            std::path::Component::Normal(name) => {
                Component::Normal(name.to_str().unwrap().as_bytes().to_vec())
            }
        });
    FilePath::new(components.collect())
}

fn text(path: &FilePath) -> String {
    let path: std::path::PathBuf = path
        .components()
        .iter()
        .map(|component| match component {
            Component::Prefix(name) => String::from_utf8(name.clone()).unwrap(),
            Component::RootDir => "/".to_string(),
            Component::CurDir => ".".to_string(),
            Component::ParentDir => "..".to_string(),
            Component::Normal(name) => String::from_utf8(name.clone()).unwrap(),
        })
        .collect();
    path.to_str().unwrap().to_string()
}

fn event(kind: EventKind, paths: &[&str]) -> Event {
    Event {
        kind,
        paths: paths.iter().map(|text| path(text)).collect(),
    }
}

/// A filesystem and a watcher that exist only here.
struct Disk {
    current_dir: Option<String>,
    dirs: BTreeSet<String>,
    files: BTreeSet<String>,
    links: BTreeMap<String, String>,
    unwatchable: BTreeSet<String>,
    watched: Vec<String>,
    unwatched: Vec<String>,
    stream: VecDeque<Result<Event, NotifyError>>,
}

impl Disk {
    fn new() -> Disk {
        let mut dirs = BTreeSet::new();
        dirs.insert("/".to_string());
        dirs.insert("/tmp".to_string());
        Disk {
            current_dir: Some("/tmp".to_string()),
            dirs,
            files: BTreeSet::new(),
            links: BTreeMap::new(),
            unwatchable: BTreeSet::new(),
            watched: vec![],
            unwatched: vec![],
            stream: VecDeque::new(),
        }
    }

    fn has(&self, text: &str) -> bool {
        self.dirs.contains(text) || self.files.contains(text)
    }

    fn answer(&mut self, request: Request<FilePath, Event>) -> Option<Reply<FilePath, Event>> {
        let not_found = || io::Error::from(io::ErrorKind::NotFound);
        Some(match request {
            Request::CurrentDir => Reply::Path(match &self.current_dir {
                Some(dir) => Ok(path(dir)),
                None => Err(not_found()),
            }),
            Request::ReadLink(link) => Reply::Path(match self.links.get(&text(&link)) {
                Some(target) => Ok(path(target)),
                None => Err(io::Error::from(io::ErrorKind::InvalidInput)),
            }),
            Request::Canonicalize(dir) => {
                let dir = text(&dir);
                let target = match self.links.get(&dir) {
                    Some(target) => std::path::Path::new(&dir).with_file_name(target),
                    None => std::path::PathBuf::from(&dir),
                };
                let target = target.to_str().unwrap();
                Reply::Path(if self.has(target) {
                    Ok(path(target))
                } else {
                    Err(not_found())
                })
            }
            Request::IsDir(dir) => Reply::Flag(self.dirs.contains(&text(&dir))),
            Request::Exists(file) => Reply::Flag(self.has(&text(&file))),
            Request::Watch(file) => {
                if self.unwatchable.contains(&text(&file)) {
                    Reply::Watched(Err(NotifyError {
                        kind: NotifyErrorKind::MaxFilesWatch,
                        paths: vec![file],
                    }))
                } else {
                    self.watched.push(text(&file));
                    Reply::Watched(Ok(()))
                }
            }
            Request::Unwatch(dir) => {
                self.unwatched.push(text(&dir));
                Reply::Watched(Ok(()))
            }
            Request::Send(event) => {
                self.stream.push_back(Ok(event));
                Reply::Sent
            }
            Request::Receive => Reply::Received(Some(self.stream.pop_front()?)),
        })
    }

    fn finish_adding(
        &mut self,
        events: &mut MuxedEvents,
        begun: Step<FilePath, Event>,
    ) -> Result<String, IoError> {
        let mut step = begun;
        loop {
            match step {
                Step::Ask(request) => step = events.resume(self.answer(request).unwrap()),
                Step::Added(result) => return result.map(|path| text(&path)),
                other => panic!("{:?}", other),
            }
        }
    }

    fn add(&mut self, events: &mut MuxedEvents, file: &str) -> Result<String, IoError> {
        let begun = events.add_file(path(file));
        self.finish_adding(events, begun)
    }

    /// The next event, unless it has to be waited for.
    fn next(&mut self, events: &mut MuxedEvents) -> Option<Result<Option<Event>, IoError>> {
        let mut step = events.poll_next_event();
        loop {
            match step {
                Step::Ask(request) => step = events.resume(self.answer(request)?),
                Step::Next(result) => return Some(result),
                other => panic!("{:?}", other),
            }
        }
    }

    fn handle(&mut self, events: &mut MuxedEvents, event: Event) -> Event {
        self.stream.push_back(Ok(event));
        self.next(events).unwrap().unwrap().unwrap()
    }
}

#[test]
fn events_test_add_directory() {
    let mut disk = Disk::new();

    let mut watcher = MuxedEvents::new(Platform::Other);
    let error = disk.add(&mut watcher, "/tmp").unwrap_err();
    assert_eq!(error.kind(), Some(IoErrorKind::InvalidInput));
    assert_eq!(error.message(), Some("Is a directory"));
    assert!(watcher.is_empty());
}

#[test]
fn events_test_add_bad_filename() {
    let mut disk = Disk::new();

    let mut watcher = MuxedEvents::new(Platform::Other);

    // This is not okay
    let error = disk.add(&mut watcher, "/tmp/..").unwrap_err();
    assert_eq!(error.kind(), Some(IoErrorKind::NotFound));

    // Don't add dir as file either
    assert!(disk.add(&mut watcher, "/tmp").is_err());
}

#[test]
fn events_test_add_missing_files() {
    let mut disk = Disk::new();
    let pathclone = path("/tmp");

    let file_path1 = "/tmp/missing_file1.txt";
    let file_path2 = "/tmp/missing_file2.txt";

    let mut watcher = MuxedEvents::new(Platform::Other);
    let _ = format!("{:?}", watcher);
    disk.add(&mut watcher, file_path1).unwrap();
    disk.add(&mut watcher, file_path2).unwrap();

    // Registering the same path again should be fine
    disk.add(&mut watcher, file_path2).unwrap();

    assert_eq!(watcher.watches().pending_watched_files().len(), 2);
    assert!(watcher.watches().watched_directories().contains_key(&pathclone));
    assert_eq!(watcher.watches().watched_directories().get(&pathclone), Some(&2));
    // The directory was watched once
    assert_eq!(disk.watched, vec!["/tmp"]);

    disk.files.insert(file_path1.to_string());
    disk.files.insert(file_path2.to_string());

    let event1 = disk.handle(&mut watcher, event(CREATED, &[file_path1]));
    assert_eq!(event1.kind, CREATED);
    assert!(watcher.watches().watched_directories().contains_key(&pathclone));
    let event2 = disk.handle(&mut watcher, event(CREATED, &[file_path2]));
    assert_eq!(event2.kind, CREATED);

    // Now the files should be watched properly
    assert_eq!(watcher.watches().watched_files().len(), 2);
    assert!(!watcher.watches().watched_directories().contains_key(&pathclone));
    assert_eq!(disk.unwatched, vec!["/tmp"]);

    // Deleting a file should throw it back into pending
    disk.files.remove(file_path1);
    let expected_event = event(REMOVED, &[file_path1]);
    let received = disk.handle(&mut watcher, event(REMOVED, &[file_path1]));
    assert_eq!(received, expected_event);

    assert_eq!(watcher.watches().watched_files().len(), 1);
    assert!(watcher.watches().watched_directories().contains_key(&pathclone));
    assert_eq!(watcher.watches().pending_watched_files().len(), 1);
}

#[test]
fn test_empty_next_event() {
    let mut disk = Disk::new();
    let mut watcher = MuxedEvents::new(Platform::Other);

    // No files added, expect None
    assert!(disk.next(&mut watcher).unwrap().unwrap().is_none());
    assert!(disk.next(&mut watcher).unwrap().unwrap().is_none());
}

#[test]
fn an_existing_file_is_watched() {
    let mut disk = Disk::new();
    disk.files.insert("/tmp/foo".to_string());
    let mut watcher = MuxedEvents::new(Platform::Other);
    assert_eq!(disk.add(&mut watcher, "/tmp/foo").unwrap(), "/tmp/foo");
    assert_eq!(disk.watched, vec!["/tmp/foo"]);
    assert!(watcher.watch_exists(&path("/tmp/foo")));
    assert!(!watcher.watch_exists(&path("/tmp")));
    assert!(!watcher.is_empty());
    // Nothing was sent
    assert!(disk.next(&mut watcher).is_none());
}

#[test]
fn an_initial_event_is_sent_for_an_existing_file() {
    let mut disk = Disk::new();
    disk.files.insert("/tmp/foo".to_string());
    let mut watcher = MuxedEvents::new(Platform::Other);
    let begun = watcher.add_file_initial_event(path("/tmp/foo"));
    assert_eq!(disk.finish_adding(&mut watcher, begun).unwrap(), "/tmp/foo");
    let received = disk.next(&mut watcher).unwrap().unwrap().unwrap();
    assert_eq!(received, event(CREATED, &["/tmp/foo"]));

    // But not for a missing one
    let begun = watcher.add_file_initial_event(path("/tmp/bar"));
    assert_eq!(disk.finish_adding(&mut watcher, begun).unwrap(), "/tmp/bar");
    assert!(disk.next(&mut watcher).is_none());
}

#[test]
fn a_relative_path_is_in_the_current_directory() {
    let mut disk = Disk::new();
    let mut watcher = MuxedEvents::new(Platform::Other);
    assert_eq!(disk.add(&mut watcher, "foo").unwrap(), "/tmp/foo");

    disk.current_dir = None;
    match disk.add(&mut watcher, "bar").unwrap_err() {
        IoError::System(error) => assert_eq!(error.kind(), io::ErrorKind::NotFound),
        other => panic!("{:?}", other),
    }
}

#[test]
fn the_directory_of_a_file_is_resolved() {
    let mut disk = Disk::new();
    disk.links.insert("/link".to_string(), "/tmp".to_string());
    let mut watcher = MuxedEvents::new(Platform::Other);
    assert_eq!(disk.add(&mut watcher, "/link/foo").unwrap(), "/tmp/foo");
    // A directory that cannot be resolved stays as it is
    assert_eq!(disk.add(&mut watcher, "/none/foo").unwrap(), "/none/foo");
}

#[test]
fn a_relative_link_leads_from_where_it_is() {
    let mut disk = Disk::new();
    disk.dirs.insert("/data/sub".to_string());
    disk.dirs.insert("/tmp/sub".to_string());
    let mut watcher = MuxedEvents::new(Platform::Other);
    disk.links.insert("/data/link".to_string(), "sub".to_string());
    assert_eq!(disk.add(&mut watcher, "/data/link/x").unwrap(), "/data/sub/x");

    // Even if there is nothing where it leads
    disk.links.insert("/data/dead".to_string(), "../lost".to_string());
    assert_eq!(disk.add(&mut watcher, "/data/dead/x").unwrap(), "/data/../lost/x");
    disk.links.insert("/data/here".to_string(), "./lost".to_string());
    assert_eq!(disk.add(&mut watcher, "/data/here/x").unwrap(), "/data/lost/x");
    disk.links.insert("/data/away".to_string(), "/lost".to_string());
    assert_eq!(disk.add(&mut watcher, "/data/away/x").unwrap(), "/lost/x");
}

#[test]
fn a_canonical_path_is_its_own() {
    let mut disk = Disk::new();
    disk.links.insert("/link".to_string(), "tmp".to_string());
    let mut watcher = MuxedEvents::new(Platform::Other);
    let once = disk.add(&mut watcher, "/link/foo").unwrap();
    assert_eq!(once, "/tmp/foo");
    assert_eq!(disk.add(&mut watcher, &once).unwrap(), once);
    assert_eq!(watcher.watches().pending_watched_files().len(), 1);
}

#[test]
fn a_directory_is_made_canonical_as_a_whole() {
    let step = absolutify(path("/link"), false);
    let state = match step {
        AbsolutifyStep::Continue(state) => state,
        other => panic!("{:?}", other),
    };
    assert!(matches!(state, Absolutify::Canonicalize(_, None)));
    assert!(matches!(state.request(), Request::Canonicalize(_)));
    // A reply to something else changes nothing
    let state = match state.resume(Reply::Flag(true)) {
        AbsolutifyStep::Continue(state) => state,
        other => panic!("{:?}", other),
    };
    let failed = io::Error::from(io::ErrorKind::NotFound);
    let state = match state.resume(Reply::Path(Err(failed))) {
        AbsolutifyStep::Continue(state) => state,
        other => panic!("{:?}", other),
    };
    assert!(matches!(state.request(), Request::ReadLink(_)));
    match state.resume(Reply::Path(Ok(path("/tmp")))) {
        AbsolutifyStep::Done(Ok(dir)) => assert_eq!(dir, path("/tmp")),
        other => panic!("{:?}", other),
    }
}

#[test]
fn a_file_that_cannot_be_watched_is_not_added() {
    let mut disk = Disk::new();
    disk.files.insert("/tmp/foo".to_string());
    disk.unwatchable.insert("/tmp/foo".to_string());
    disk.unwatchable.insert("/tmp".to_string());
    let mut watcher = MuxedEvents::new(Platform::Other);
    for file in ["/tmp/foo", "/tmp/bar"] {
        match disk.add(&mut watcher, file).unwrap_err() {
            IoError::Notify(error) => {
                assert!(matches!(error.kind, NotifyErrorKind::MaxFilesWatch))
            }
            other => panic!("{:?}", other),
        }
    }
    assert!(watcher.is_empty());
    assert!(watcher.watches().watched_directories().is_empty());
}

#[test]
fn events_about_other_paths_are_emptied() {
    let mut disk = Disk::new();
    disk.files.insert("/tmp/foo".to_string());
    disk.files.insert("/tmp/bar".to_string());
    let mut watcher = MuxedEvents::new(Platform::Other);
    disk.add(&mut watcher, "/tmp/foo").unwrap();
    let received = disk.handle(&mut watcher, event(CHANGED, &["/tmp/bar", "/tmp/foo", "/x"]));
    assert_eq!(received, event(CHANGED, &["/tmp/foo"]));
    let received = disk.handle(&mut watcher, event(REMOVED, &["/tmp/bar"]));
    assert_eq!(received, event(REMOVED, &[]));
}

#[test]
fn a_rotated_file_is_missing_even_if_another_is_there() {
    // The file was renamed away, and a new one stands in its place already
    let mut disk = Disk::new();
    disk.files.insert("/tmp/foo".to_string());
    let mut watcher = MuxedEvents::new(Platform::Other);
    disk.add(&mut watcher, "/tmp/foo").unwrap();
    let received = disk.handle(&mut watcher, event(RENAMED_FROM, &["/tmp/foo"]));
    // It was let go of, and added again as the new file
    assert_eq!(received, event(RENAMED_FROM, &["/tmp/foo"]));
    assert_eq!(disk.watched, vec!["/tmp/foo", "/tmp/foo"]);

    // On macOS the filesystem is asked
    let mut watcher = MuxedEvents::new(Platform::MacOs);
    disk.watched.clear();
    disk.add(&mut watcher, "/tmp/foo").unwrap();
    let received = disk.handle(&mut watcher, event(RENAMED_FROM, &["/tmp/foo"]));
    assert_eq!(received, event(RENAMED_FROM, &["/tmp/foo"]));
    assert_eq!(disk.watched, vec!["/tmp/foo"]);
}

#[test]
fn a_file_that_is_renamed_away_is_missing() {
    let mut disk = Disk::new();
    disk.files.insert("/tmp/foo".to_string());
    let mut watcher = MuxedEvents::new(Platform::Other);
    disk.add(&mut watcher, "/tmp/foo").unwrap();
    disk.files.remove("/tmp/foo");
    let received = disk.handle(&mut watcher, event(RENAMED_FROM, &["/tmp/foo"]));
    assert_eq!(received, event(RENAMED_FROM, &[]));
    assert!(watcher.watches().pending_watched_files().contains(&path("/tmp/foo")));
    assert!(watcher.watches().watched_files().is_empty());
}

#[test]
fn a_missing_file_that_is_not_there_yet_stays_missing() {
    let mut disk = Disk::new();
    let mut watcher = MuxedEvents::new(Platform::Other);
    disk.add(&mut watcher, "/tmp/foo").unwrap();
    let received = disk.handle(&mut watcher, event(CREATED, &["/tmp/foo"]));
    assert_eq!(received, event(CREATED, &[]));
    assert_eq!(watcher.watches().pending_watched_files().len(), 1);
}

#[test]
fn errors_in_the_stream_are_handed_on() {
    let mut disk = Disk::new();
    let mut watcher = MuxedEvents::new(Platform::Other);
    disk.add(&mut watcher, "/tmp/foo").unwrap();
    disk.stream.push_back(Err(NotifyError {
        kind: NotifyErrorKind::Io(io::Error::from(io::ErrorKind::AddrInUse)),
        paths: vec![],
    }));
    match disk.next(&mut watcher).unwrap().unwrap_err() {
        IoError::System(error) => assert_eq!(error.kind(), io::ErrorKind::AddrInUse),
        other => panic!("{:?}", other),
    }
}

#[test]
fn the_end_of_the_stream_is_no_event() {
    let mut disk = Disk::new();
    let mut watcher = MuxedEvents::new(Platform::Other);
    disk.add(&mut watcher, "/tmp/foo").unwrap();
    assert!(matches!(watcher.poll_next_event(), Step::Ask(Request::Receive)));
    assert!(matches!(
        watcher.resume(Reply::Received(None)),
        Step::Next(Ok(None))
    ));
    // There is nothing to go on with
    assert!(matches!(watcher.resume(Reply::Sent), Step::Idle));
}

#[test]
fn a_reply_to_something_else_changes_nothing() {
    let mut watcher = MuxedEvents::new(Platform::Other);
    assert!(matches!(
        watcher.add_file(path("foo")),
        Step::Ask(Request::CurrentDir)
    ));
    assert!(matches!(
        watcher.resume(Reply::Flag(true)),
        Step::Ask(Request::CurrentDir)
    ));
    assert!(watcher.is_empty());
}

#[test]
fn a_root_has_no_file_name() {
    let mut disk = Disk::new();
    let mut watcher = MuxedEvents::new(Platform::Other);
    assert!(matches!(
        disk.add(&mut watcher, "/").unwrap_err(),
        IoError::FilenameNotFound
    ));
    assert!(matches!(
        disk.add(&mut watcher, "").unwrap_err(),
        IoError::FilenameNotFound
    ));
}

#[test]
fn a_missing_file_needs_a_parent() {
    let mut watches = Watches::new();
    let step = watches.resume_adding(AddFile::Exists(path("/")), false, Reply::Flag(false));
    assert!(matches!(
        step,
        AddStep::Done(Err(IoError::NeedsParentDirectory))
    ));
    assert!(watches.is_empty());
}

#[test]
fn a_path_that_occurs_twice_is_kept_twice() {
    let mut disk = Disk::new();
    disk.files.insert("/tmp/foo".to_string());
    let mut events = MuxedEvents::new(Platform::Other);
    disk.add(&mut events, "/tmp/foo").unwrap();
    let twice = disk.handle(&mut events, event(CHANGED, &["/tmp/foo", "/tmp/foo"]));
    assert_eq!(twice, event(CHANGED, &["/tmp/foo", "/tmp/foo"]));
    disk.files.remove("/tmp/foo");
    let twice = disk.handle(&mut events, event(REMOVED, &["/tmp/foo", "/tmp/foo"]));
    assert_eq!(twice, event(REMOVED, &["/tmp/foo", "/tmp/foo"]));
    assert_eq!(events.watches().pending_watched_files().len(), 1);
}

#[test]
fn a_directory_is_watched_as_long_as_a_file_is_missing_there() {
    let mut disk = Disk::new();
    let mut events = MuxedEvents::new(Platform::Other);
    disk.add(&mut events, "/tmp/a").unwrap();
    disk.add(&mut events, "/tmp/b").unwrap();
    assert_eq!(disk.watched, vec!["/tmp"]);
    assert_eq!(events.watches().watched_directories().get(&path("/tmp")), Some(&2));
    disk.files.insert("/tmp/a".to_string());
    disk.handle(&mut events, event(CREATED, &["/tmp/a"]));
    assert!(disk.unwatched.is_empty());
    assert_eq!(events.watches().watched_directories().get(&path("/tmp")), Some(&1));
    disk.files.insert("/tmp/b".to_string());
    disk.handle(&mut events, event(CREATED, &["/tmp/b"]));
    assert_eq!(disk.unwatched, vec!["/tmp"]);
    assert!(events.watches().watched_directories().is_empty());
}
