use linemux::error::{IoError, IoErrorKind, NotifyError, NotifyErrorKind};
use linemux::event::{
    AccessKind, CreateKind, DataChange, Event, EventKind, ModifyKind, Platform, RemoveKind,
    RenameMode,
};
use linemux::handle_event::{FileReply, HandleEventAwaitState, HandleEventState};
use linemux::inner::Inner;
use linemux::path::{Component, FilePath};
use linemux::reader::{LineReply, LineRequest, LineStep, StreamState};
use linemux::request::{Reply, Request};
use linemux::{Line, MuxedLines};
use std::collections::{BTreeMap, VecDeque};
use std::io;

const CREATED: EventKind = EventKind::Create(CreateKind::File);
const REMOVED: EventKind = EventKind::Remove(RemoveKind::File);
const CHANGED: EventKind = EventKind::Modify(ModifyKind::Data(DataChange::Any));
const RENAMED_FROM: EventKind = EventKind::Modify(ModifyKind::Name(RenameMode::From));
const RENAMED_TO: EventKind = EventKind::Modify(ModifyKind::Name(RenameMode::To));

fn path(text: &str) -> FilePath {
    let components = std::path::Path::new(text)
        .components()
        .map(|component| match component {
            std::path::Component::Prefix(prefix) => {
                Component::Prefix(prefix.as_os_str().to_str().unwrap().as_bytes().to_vec())
            }
            std::path::Component::RootDir => Component::RootDir,
            std::path::Component::CurDir => Component::CurDir,
            std::path::Component::ParentDir => Component::ParentDir,
            std::path::Component::Normal(name) => {
                Component::Normal(name.to_str().unwrap().as_bytes().to_vec())
            }
        });
    FilePath::new(components.collect())
}

fn text(path: &FilePath) -> String {
    let path: std::path::PathBuf = path
        .components()
        .iter()
        .map(|component| match component {
            Component::Prefix(name) => String::from_utf8(name.clone()).unwrap(),
            Component::RootDir => "/".to_string(),
            Component::CurDir => ".".to_string(),
            Component::ParentDir => "..".to_string(),
            Component::Normal(name) => String::from_utf8(name.clone()).unwrap(),
        })
        .collect();
    path.to_str().unwrap().to_string()
}

fn event(kind: EventKind, paths: &[&str]) -> Event {
    Event {
        kind,
        paths: paths.iter().map(|text| path(text)).collect(),
    }
}

/// A reader of one of the files below: which one it has open, and where it stands.
#[derive(Debug)]
struct Reader {
    file: usize,
    at: usize,
}

type Lines = MuxedLines<Reader>;
type Step = LineStep<FilePath, Event, Line>;

/// A filesystem and a watcher that exist only here. A file is an entry of `contents`,
/// and stays there when it is renamed or removed.
struct Disk {
    contents: Vec<String>,
    files: BTreeMap<String, usize>,
    stream: VecDeque<Result<Event, NotifyError>>,
    /// Fails the opening of files.
    broken: bool,
}

fn not_found() -> io::Error {
    io::Error::from(io::ErrorKind::NotFound)
}

impl Disk {
    fn new() -> Disk {
        Disk {
            contents: vec![],
            files: BTreeMap::new(),
            stream: VecDeque::new(),
            broken: false,
        }
    }

    fn create(&mut self, file: &str) {
        self.contents.push(String::new());
        self.files.insert(file.to_string(), self.contents.len() - 1);
        self.stream.push_back(Ok(event(CREATED, &[file])));
    }

    fn write(&mut self, file: &str, data: &str) {
        self.contents[self.files[file]].push_str(data);
        self.stream.push_back(Ok(event(CHANGED, &[file])));
    }

    fn truncate(&mut self, file: &str) {
        self.contents[self.files[file]].clear();
        self.stream.push_back(Ok(event(CHANGED, &[file])));
    }

    fn rename(&mut self, from: &str, to: &str) {
        let file = self.files.remove(from).unwrap();
        self.files.insert(to.to_string(), file);
        self.stream.push_back(Ok(event(RENAMED_FROM, &[from])));
        self.stream.push_back(Ok(event(RENAMED_TO, &[to])));
    }

    fn remove(&mut self, file: &str) {
        self.files.remove(file).unwrap();
        self.stream.push_back(Ok(event(REMOVED, &[file])));
    }

    fn size(&self, file: &str) -> Result<u64, io::Error> {
        match self.files.get(file) {
            Some(file) => Ok(self.contents[*file].len() as u64),
            None => Err(not_found()),
        }
    }

    fn open(&self, file: &str, position: Option<u64>) -> Result<Reader, io::Error> {
        match self.files.get(file) {
            Some(file) if !self.broken => Ok(Reader {
                file: *file,
                at: position.unwrap_or(0) as usize,
            }),
            _ => Err(not_found()),
        }
    }

    fn read_line(&self, reader: &mut Reader) -> Option<String> {
        let rest = self.contents[reader.file].get(reader.at..)?;
        if rest.is_empty() {
            return None;
        }
        let line = rest.split('\n').next().unwrap().to_string();
        reader.at = (reader.at + line.len() + 1).min(self.contents[reader.file].len());
        Some(line)
    }

    fn watch_answer(
        &mut self,
        request: Request<FilePath, Event>,
    ) -> Option<Reply<FilePath, Event>> {
        Some(match request {
            Request::CurrentDir => Reply::Path(Ok(path("/tmp"))),
            Request::ReadLink(_) => Reply::Path(Err(not_found())),
            Request::Canonicalize(dir) => Reply::Path(Ok(dir)),
            Request::IsDir(dir) => Reply::Flag(text(&dir) == "/tmp"),
            Request::Exists(file) => Reply::Flag(self.files.contains_key(&text(&file))),
            Request::Watch(_) => Reply::Watched(Ok(())),
            Request::Unwatch(_) => Reply::Watched(Ok(())),
            Request::Send(event) => {
                self.stream.push_back(Ok(event));
                Reply::Sent
            }
            Request::Receive => Reply::Received(Some(self.stream.pop_front()?)),
        })
    }

    fn finish_adding(&mut self, lines: &mut Lines, begun: Step) -> Result<String, IoError> {
        let mut step = begun;
        loop {
            let reply = match step {
                LineStep::Ask(LineRequest::Watch(request)) => {
                    LineReply::Watch(self.watch_answer(request).unwrap())
                }
                LineStep::Ask(LineRequest::Exists(file)) => {
                    LineReply::Exists(self.files.contains_key(&text(&file)))
                }
                LineStep::Ask(LineRequest::Metadata(file)) => {
                    LineReply::File(FileReply::Metadata(self.size(&text(&file))))
                }
                LineStep::Ask(LineRequest::NewLineReader(file, position)) => {
                    LineReply::File(FileReply::Reader(self.open(&text(&file), position)))
                }
                LineStep::Added(result) => return result.map(|path| text(&path)),
                other => panic!("{:?}", other),
            };
            step = lines.resume_add_file(reply);
        }
    }

    fn add(&mut self, lines: &mut Lines, file: &str) -> Result<String, IoError> {
        let begun = lines.add_file(path(file));
        self.finish_adding(lines, begun)
    }

    fn add_from_start(&mut self, lines: &mut Lines, file: &str) -> Result<String, IoError> {
        let begun = lines.add_file_from_start(path(file));
        self.finish_adding(lines, begun)
    }

    /// What is asked for once the event watch has what it needs, unless an event has to
    /// be waited for.
    fn past_watch(&mut self, lines: &mut Lines, begun: Step) -> Option<Step> {
        let mut step = begun;
        loop {
            match step {
                LineStep::Ask(LineRequest::Watch(request)) => {
                    let reply = self.watch_answer(request)?;
                    step = lines.resume_next_line(LineReply::Watch(reply));
                }
                other => return Some(other),
            }
        }
    }

    /// What an event leads to once it has passed the event watch, unless another one has
    /// to be waited for.
    fn hear(&mut self, lines: &mut Lines, event: Event) -> Option<Step> {
        self.stream.push_back(Ok(event));
        let begun = lines.poll_next_line();
        self.past_watch(lines, begun)
    }

    /// The next line, unless it has to be waited for.
    fn next(&mut self, lines: &mut Lines) -> Option<Result<Option<Line>, IoError>> {
        let mut step = lines.poll_next_line();
        loop {
            let reply = match self.past_watch(lines, step)? {
                LineStep::Ask(LineRequest::Metadata(file)) => {
                    LineReply::File(FileReply::Metadata(self.size(&text(&file))))
                }
                LineStep::Ask(LineRequest::NewLineReader(file, position)) => {
                    LineReply::File(FileReply::Reader(self.open(&text(&file), position)))
                }
                LineStep::Ask(LineRequest::ReadLine(file)) => {
                    LineReply::Line(Ok(self.read_line(lines.reader_mut(&file).unwrap())))
                }
                LineStep::Line(result) => return Some(result),
                other => panic!("{:?}", other),
            };
            step = lines.resume_next_line(reply);
        }
    }

    fn line(&mut self, lines: &mut Lines) -> (String, String) {
        let line = self.next(lines).unwrap().unwrap().unwrap();
        (text(line.source()), line.line().to_string())
    }
}

fn lines() -> Lines {
    MuxedLines::new(Platform::Other)
}

fn read(file: &str, line: &str) -> (String, String) {
    (file.to_string(), line.to_string())
}

#[test]
fn test_is_send() {
    fn is_send<T: Send>() {}
    is_send::<Lines>();

    let mut disk = Disk::new();
    let mut lines = lines();
    let _ = disk.add(&mut lines, "foo").unwrap();
}

#[test]
fn test_is_sync() {
    fn is_sync<T: Sync>() {}
    is_sync::<Lines>();
}

#[test]
fn test_inner_fns() {
    let source_path = path("/tmp/foo.txt");

    let mut inner: Inner<Reader> = Inner::new();

    assert!(!inner.reader_exists(&source_path));
    assert!(inner.insert_pending(source_path.clone()));
    assert!(inner.reader_exists(&source_path));
    assert!(!inner.insert_pending(source_path.clone()));

    let mut disk = Disk::new();
    disk.create("/tmp/foo.txt");
    disk.write("/tmp/foo.txt", "Hello, world!\nasdf\n");

    let linereader = disk.open("/tmp/foo.txt", None).unwrap();
    assert!(inner
        .insert_reader(source_path.clone(), linereader)
        .is_none());
    assert!(inner
        .insert_reader_position(source_path.clone(), 0)
        .is_none());
    assert!(inner.remove_pending(&source_path));

    let linereader = disk.open("/tmp/foo.txt", Some(3)).unwrap();
    assert!(inner
        .insert_reader(source_path.clone(), linereader)
        .is_some());
    assert_eq!(
        inner.insert_reader_position(source_path.clone(), 3),
        Some(0)
    );
    assert_eq!(inner.reader_positions().get(&source_path), Some(&3));
    assert_eq!(inner.readers().len(), 1);
    assert!(inner.pending_readers().is_empty());
    assert!(!inner.is_empty());
}

#[test]
fn test_streamstate_debug() {
    let mut state = StreamState::default();
    let _ = format!("{:?}", state);

    let event = event(EventKind::Other, &[]);
    let before = state.replace(StreamState::HandleEvent(event, HandleEventState::new()));
    assert!(!before.is_transient());
    assert!(state.is_transient());
    let _ = format!("{:?}", state);

    state = StreamState::ReadLines(vec![], 0);
    assert!(state.is_transient());
    let _ = format!("{:?}", state);
}

#[test]
fn states_are_replaced() {
    let mut state = HandleEventAwaitState::default();
    assert_eq!(state, HandleEventAwaitState::Idle);
    let before = state.replace(HandleEventAwaitState::NewLineReader(Some(3)));
    assert_eq!(before, HandleEventAwaitState::Idle);
    assert_eq!(state, HandleEventAwaitState::NewLineReader(Some(3)));
    assert_eq!(HandleEventState::new().path_index(), 0);
    assert_eq!(
        HandleEventState::new().await_state(),
        HandleEventAwaitState::Idle
    );
}

#[test]
fn reader_test_add_directory() {
    let mut disk = Disk::new();
    let mut lines = lines();
    let error = disk.add(&mut lines, "/tmp").unwrap_err();
    assert_eq!(error.kind(), Some(IoErrorKind::InvalidInput));
    assert!(lines.is_empty());
}

#[test]
fn reader_test_add_bad_filename() {
    let mut disk = Disk::new();
    let mut lines = lines();

    // This is not okay
    assert!(disk.add(&mut lines, "/tmp/..").is_err());

    // Don't add dir as file either
    assert!(disk.add(&mut lines, "/tmp").is_err());
}

#[test]
fn reader_test_add_missing_files() {
    let mut disk = Disk::new();

    let file_path1 = "/tmp/missing_file1.txt";
    let file_path2 = "/tmp/missing_file2.txt";

    let mut lines = lines();
    disk.add(&mut lines, file_path1).unwrap();
    disk.add(&mut lines, file_path2).unwrap();

    // Registering the same path again should be fine
    disk.add(&mut lines, file_path2).unwrap();

    assert_eq!(lines.inner().pending_readers().len(), 2);

    disk.create(file_path1);
    disk.create(file_path2);

    // Should not be any lines yet
    assert!(disk.next(&mut lines).is_none());

    // Now the files should be readable
    assert_eq!(lines.inner().readers().len(), 2);

    disk.write(file_path1, "foo\n");
    assert_eq!(disk.line(&mut lines), read(file_path1, "foo"));

    disk.write(file_path2, "bar\nbaz\n");
    assert_eq!(disk.line(&mut lines), read(file_path2, "bar"));
    assert_eq!(disk.line(&mut lines), read(file_path2, "baz"));
    assert!(disk.next(&mut lines).is_none());
}

#[test]
fn test_file_rollover() {
    let mut disk = Disk::new();

    let file_path1 = "/tmp/missing_file1.txt";

    let mut lines = lines();
    disk.add(&mut lines, file_path1).unwrap();
    assert!(!lines.is_empty());

    disk.create(file_path1);
    disk.write(file_path1, "bar\nbaz\n");
    assert_eq!(disk.line(&mut lines), read(file_path1, "bar"));
    assert_eq!(disk.line(&mut lines), read(file_path1, "baz"));
    assert!(disk.next(&mut lines).is_none());

    // Roll over
    disk.truncate(file_path1);
    assert!(disk.next(&mut lines).is_none());
    assert_eq!(
        lines.inner().reader_positions().get(&path(file_path1)),
        Some(&0)
    );

    disk.write(file_path1, "qux");
    assert_eq!(disk.line(&mut lines), read(file_path1, "qux"));
    assert_eq!(
        lines.inner().reader_positions().get(&path(file_path1)),
        Some(&3)
    );
}

#[test]
fn test_ops_in_transient_state() {
    let mut disk = Disk::new();

    let file_path1 = "/tmp/missing_file1.txt";

    let mut lines = lines();
    disk.add(&mut lines, file_path1).unwrap();

    disk.create(file_path1);
    disk.write(file_path1, "bar\n");

    // The event is taken, but the file is not open yet
    let begun = lines.poll_next_line();
    assert!(matches!(
        begun,
        LineStep::Ask(LineRequest::Watch(Request::Receive))
    ));
    assert!(matches!(
        disk.past_watch(&mut lines, begun),
        Some(LineStep::Ask(LineRequest::NewLineReader(_, None)))
    ));
    assert!(lines.stream_state().is_transient());
    assert!(lines.is_empty());

    let file_path2 = "/tmp/missing_file2.txt";
    disk.add(&mut lines, file_path2).unwrap();

    assert_eq!(lines.inner().pending_readers().len(), 1);

    assert_eq!(disk.line(&mut lines), read(file_path1, "bar"));
}

#[test]
fn test_empty_next_line() {
    let mut disk = Disk::new();
    let mut watcher = lines();

    // No files added, expect None
    assert!(disk.next(&mut watcher).unwrap().unwrap().is_none());
    assert!(disk.next(&mut watcher).unwrap().unwrap().is_none());
}

#[test]
fn test_add_existing_file() {
    let mut disk = Disk::new();

    let file_path1 = "/tmp/foo.txt";
    let file_path2 = "/tmp/bar.txt";

    let mut lines = lines();
    disk.add(&mut lines, file_path2).unwrap();

    assert_eq!(lines.inner().pending_readers().len(), 1);

    disk.create(file_path1);
    disk.write(file_path1, "foo\n");

    disk.rename(file_path1, file_path2);

    // Spin to handle the rename event
    assert!(disk.next(&mut lines).is_none());

    // Now the files should be readable
    assert_eq!(lines.inner().readers().len(), 1);

    disk.write(file_path2, "now bar\n");
    assert_eq!(disk.line(&mut lines), read(file_path2, "now bar"));
}

#[test]
fn test_logrotate() {
    let line_vals_expected = vec!["foo", "bar", "baz", "qux"];
    let mut disk = Disk::new();
    let mut lines = lines();
    disk.add(&mut lines, "/tmp/foo.log").unwrap();

    let mut line_vals = vec![];
    for (turn, value) in line_vals_expected.iter().enumerate() {
        disk.create("/tmp/foo.log");
        disk.write("/tmp/foo.log", &format!("{}\n", value));
        line_vals.push(disk.line(&mut lines).1);
        disk.rename("/tmp/foo.log", &format!("/tmp/foo.log.{}", turn));
    }

    assert_eq!(line_vals_expected, line_vals);
}

#[test]
fn an_existing_file_is_read_from_its_end() {
    let mut disk = Disk::new();
    disk.create("/tmp/foo");
    disk.write("/tmp/foo", "old\n");
    disk.stream.clear();
    let mut lines = lines();
    assert_eq!(disk.add(&mut lines, "foo").unwrap(), "/tmp/foo");
    assert!(lines.reader_exists(&path("/tmp/foo")));
    assert!(lines.events().watch_exists(&path("/tmp/foo")));
    assert_eq!(
        lines.inner().reader_positions().get(&path("/tmp/foo")),
        Some(&4)
    );
    disk.write("/tmp/foo", "new\n");
    assert_eq!(disk.line(&mut lines), read("/tmp/foo", "new"));
    assert!(disk.next(&mut lines).is_none());
}

#[test]
fn an_existing_file_is_read_from_its_start_if_asked() {
    let mut disk = Disk::new();
    disk.create("/tmp/foo");
    disk.write("/tmp/foo", "old\n");
    disk.stream.clear();
    let mut lines = lines();
    disk.add_from_start(&mut lines, "/tmp/foo").unwrap();
    assert_eq!(
        lines.inner().reader_positions().get(&path("/tmp/foo")),
        Some(&0)
    );
    disk.write("/tmp/foo", "new\n");
    assert_eq!(disk.line(&mut lines), read("/tmp/foo", "old"));
    assert_eq!(disk.line(&mut lines), read("/tmp/foo", "new"));
}

#[test]
fn a_file_that_cannot_be_opened_is_not_added() {
    let mut disk = Disk::new();
    disk.create("/tmp/foo");
    disk.broken = true;
    let mut lines = lines();
    match disk.add_from_start(&mut lines, "/tmp/foo").unwrap_err() {
        IoError::System(error) => assert_eq!(error.kind(), io::ErrorKind::NotFound),
        other => panic!("{:?}", other),
    }
    assert!(lines.is_empty());
    assert!(disk.next(&mut lines).unwrap().unwrap().is_none());
}

#[test]
fn a_file_whose_size_is_unknown_is_not_added() {
    let mut disk = Disk::new();
    disk.create("/tmp/foo");
    let mut lines = lines();
    let mut step = lines.add_file(path("/tmp/foo"));
    while let LineStep::Ask(LineRequest::Watch(request)) = step {
        let reply = disk.watch_answer(request).unwrap();
        step = lines.resume_add_file(LineReply::Watch(reply));
    }
    assert!(matches!(step, LineStep::Ask(LineRequest::Exists(_))));
    assert!(matches!(
        lines.resume_add_file(LineReply::Exists(true)),
        LineStep::Ask(LineRequest::Metadata(_))
    ));
    // A reply to something else changes nothing
    assert!(matches!(
        lines.resume_add_file(LineReply::Exists(true)),
        LineStep::Ask(LineRequest::Metadata(_))
    ));
    assert!(matches!(
        lines.resume_add_file(LineReply::File(FileReply::Metadata(Err(not_found())))),
        LineStep::Added(Err(IoError::System(_)))
    ));
    assert!(matches!(
        lines.resume_add_file(LineReply::Exists(true)),
        LineStep::Idle
    ));
    // The event watch holds it nevertheless
    assert!(lines.events().watch_exists(&path("/tmp/foo")));
}

#[test]
fn the_adding_waits_for_the_event_watch() {
    let mut lines = lines();
    assert!(matches!(
        lines.add_file(path("foo")),
        LineStep::Ask(LineRequest::Watch(Request::CurrentDir))
    ));
    // A reply to something else changes nothing
    assert!(matches!(
        lines.resume_add_file(LineReply::Exists(true)),
        LineStep::Ask(LineRequest::Watch(Request::CurrentDir))
    ));
    // To wait for a line is to give the file up
    assert!(matches!(
        lines.poll_next_line(),
        LineStep::Line(Ok(None))
    ));
    assert!(matches!(
        lines.resume_add_file(LineReply::Watch(Reply::Path(Ok(path("/tmp"))))),
        LineStep::Idle
    ));
    assert!(matches!(
        lines.add_file(path("/")),
        LineStep::Ask(LineRequest::Watch(Request::CurrentDir))
    ));
    assert!(matches!(
        lines.resume_add_file(LineReply::Watch(Reply::Path(Ok(path("/tmp"))))),
        LineStep::Added(Err(IoError::FilenameNotFound))
    ));
}

#[test]
fn an_expected_file_is_given_up_if_it_cannot_be_opened() {
    let mut disk = Disk::new();
    let mut lines = lines();
    disk.add(&mut lines, "/tmp/foo").unwrap();
    disk.create("/tmp/foo");
    disk.broken = true;
    assert!(disk.next(&mut lines).is_none());
    assert!(lines.is_empty());
    assert!(disk.next(&mut lines).unwrap().unwrap().is_none());
}

#[test]
fn a_file_that_cannot_be_opened_does_not_stop_the_next() {
    let mut disk = Disk::new();
    let mut lines = lines();
    for file in ["/tmp/a", "/tmp/b"] {
        disk.add(&mut lines, file).unwrap();
        disk.create(file);
    }
    disk.stream.clear();
    let _ = disk.hear(&mut lines, event(CREATED, &["/tmp/a", "/tmp/b"]));
    match lines.resume_next_line(LineReply::File(FileReply::Reader(Err(not_found())))) {
        LineStep::Ask(LineRequest::NewLineReader(file, None)) => assert_eq!(text(&file), "/tmp/b"),
        other => panic!("{:?}", other),
    }
    assert!(lines.is_empty());
    let reader = Reader { file: 0, at: 0 };
    match lines.resume_next_line(LineReply::File(FileReply::Reader(Ok(reader)))) {
        LineStep::Ask(LineRequest::ReadLine(file)) => assert_eq!(text(&file), "/tmp/b"),
        other => panic!("{:?}", other),
    }
}

#[test]
fn lines_are_read_in_the_order_of_the_paths() {
    let mut disk = Disk::new();
    let mut lines = lines();
    for file in ["/tmp/a", "/tmp/b"] {
        disk.create(file);
        disk.stream.clear();
        disk.add(&mut lines, file).unwrap();
    }
    disk.write("/tmp/a", "1\n2\n");
    disk.write("/tmp/b", "3\n");
    disk.stream.clear();
    disk.stream
        .push_back(Ok(event(CHANGED, &["/tmp/b", "/tmp/none", "/tmp/a", "/tmp/b"])));
    assert_eq!(disk.line(&mut lines), read("/tmp/b", "3"));
    assert_eq!(disk.line(&mut lines), read("/tmp/a", "1"));
    assert_eq!(disk.line(&mut lines), read("/tmp/a", "2"));
    assert!(disk.next(&mut lines).is_none());
}

#[test]
fn a_reading_error_is_returned_and_ends_the_event() {
    let mut disk = Disk::new();
    let mut lines = lines();
    disk.create("/tmp/foo");
    disk.stream.clear();
    disk.add(&mut lines, "/tmp/foo").unwrap();
    let _ = disk.hear(&mut lines, event(CHANGED, &["/tmp/foo"]));
    assert!(matches!(
        lines.resume_next_line(LineReply::File(FileReply::Metadata(Ok(0)))),
        LineStep::Ask(LineRequest::ReadLine(_))
    ));
    let failed = io::Error::from(io::ErrorKind::InvalidData);
    match lines.resume_next_line(LineReply::Line(Err(failed))) {
        LineStep::Line(Err(IoError::System(error))) => {
            assert_eq!(error.kind(), io::ErrorKind::InvalidData)
        }
        other => panic!("{:?}", other),
    }
    assert!(!lines.stream_state().is_transient());
}

#[test]
fn errors_in_place_of_events_are_handed_on() {
    let mut disk = Disk::new();
    let mut lines = lines();
    disk.add(&mut lines, "/tmp/foo").unwrap();
    disk.stream.push_back(Err(NotifyError {
        kind: NotifyErrorKind::Io(io::Error::from(io::ErrorKind::AddrInUse)),
        paths: vec![],
    }));
    disk.stream.push_back(Err(NotifyError {
        kind: NotifyErrorKind::MaxFilesWatch,
        paths: vec![],
    }));
    match disk.next(&mut lines).unwrap().unwrap_err() {
        IoError::System(error) => assert_eq!(error.kind(), io::ErrorKind::AddrInUse),
        other => panic!("{:?}", other),
    }
    assert!(!lines.stream_state().is_transient());
    match disk.next(&mut lines).unwrap().unwrap_err() {
        IoError::Notify(error) => assert!(matches!(error.kind, NotifyErrorKind::MaxFilesWatch)),
        other => panic!("{:?}", other),
    }
    // The lines go on
    disk.create("/tmp/foo");
    disk.write("/tmp/foo", "bar\n");
    assert_eq!(disk.line(&mut lines), read("/tmp/foo", "bar"));
}

#[test]
fn that_there_is_no_event_is_passed_over() {
    let mut disk = Disk::new();
    let mut lines = lines();
    disk.add(&mut lines, "/tmp/foo").unwrap();
    let _ = lines.poll_next_line();
    assert!(matches!(
        lines.resume_next_line(LineReply::Watch(Reply::Received(None))),
        LineStep::Ask(LineRequest::Again)
    ));
    // A reply to something else changes nothing
    assert!(matches!(
        lines.resume_next_line(LineReply::Watch(Reply::Received(None))),
        LineStep::Ask(LineRequest::Again)
    ));
    assert!(matches!(
        lines.resume_next_line(LineReply::Again),
        LineStep::Ask(LineRequest::Watch(Request::Receive))
    ));
    assert!(matches!(
        lines.resume_next_line(LineReply::Again),
        LineStep::Ask(LineRequest::Watch(Request::Receive))
    ));
}

#[test]
fn the_rest_is_read_when_a_file_is_removed() {
    let mut disk = Disk::new();
    let mut lines = lines();
    disk.create("/tmp/foo");
    disk.stream.clear();
    disk.add(&mut lines, "/tmp/foo").unwrap();
    disk.write("/tmp/foo", "last\n");
    disk.stream.clear();
    disk.remove("/tmp/foo");
    assert_eq!(disk.line(&mut lines), read("/tmp/foo", "last"));
    assert!(disk.next(&mut lines).is_none());
    assert!(lines
        .events()
        .watches()
        .pending_watched_files()
        .contains(&path("/tmp/foo")));
}

/// The request that an event of the kind leads to, about a file that is watched and has
/// no reader yet.
fn request(platform: Platform, kind: EventKind) -> String {
    let mut disk = Disk::new();
    let mut lines: Lines = MuxedLines::new(platform);
    disk.add(&mut lines, "/tmp/foo").unwrap();
    disk.create("/tmp/foo");
    disk.stream.clear();
    let _ = disk.hear(&mut lines, event(EventKind::Any, &["/tmp/foo"]));
    match disk.hear(&mut lines, event(kind, &["/tmp/foo"])) {
        Some(LineStep::Ask(LineRequest::NewLineReader(_, None))) => "open".to_string(),
        Some(LineStep::Ask(LineRequest::Metadata(_))) => "size".to_string(),
        None => "next".to_string(),
        other => format!("{:?}", other),
    }
}

#[test]
fn the_kind_of_an_event_matters() {
    let any_created = EventKind::Create(CreateKind::Any);
    let any_modified = EventKind::Modify(ModifyKind::Any);
    for platform in [Platform::Windows, Platform::MacOs, Platform::Other] {
        assert_eq!(request(platform, CREATED), "open");
        assert_eq!(request(platform, CHANGED), "size");
        assert_eq!(request(platform, RENAMED_TO), "size");
        assert_eq!(request(platform, REMOVED), "next");
        assert_eq!(request(platform, EventKind::Other), "next");
        assert_eq!(request(platform, EventKind::Any), "next");
        assert_eq!(
            request(platform, EventKind::Access(AccessKind::Read)),
            "next"
        );
        assert_eq!(
            request(platform, EventKind::Create(CreateKind::Folder)),
            "next"
        );
        assert_eq!(
            request(
                platform,
                EventKind::Modify(ModifyKind::Name(RenameMode::Both))
            ),
            "next"
        );
    }
    assert_eq!(request(Platform::Windows, any_created), "open");
    assert_eq!(request(Platform::MacOs, any_created), "next");
    assert_eq!(request(Platform::Other, any_created), "next");
    assert_eq!(request(Platform::Windows, any_modified), "size");
    assert_eq!(request(Platform::MacOs, any_modified), "next");
    assert_eq!(request(Platform::Other, any_modified), "next");
    assert_eq!(request(Platform::MacOs, RENAMED_FROM), "size");
    assert_eq!(request(Platform::Windows, RENAMED_FROM), "next");
    assert_eq!(request(Platform::Other, RENAMED_FROM), "next");
}

#[test]
fn a_line_can_be_copied() {
    let line = Line::new(path("/tmp/foo"), "bar".to_string());
    assert_eq!(line.clone(), line);
}

#[test]
fn a_new_file_that_is_there_before_the_old_one_is_heard_to_go_is_read() {
    let mut disk = Disk::new();
    let mut lines = lines();
    disk.add(&mut lines, "/tmp/foo.log").unwrap();
    disk.create("/tmp/foo.log");
    disk.write("/tmp/foo.log", "foo\nbar\n");
    assert_eq!(disk.line(&mut lines), read("/tmp/foo.log", "foo"));
    assert_eq!(disk.line(&mut lines), read("/tmp/foo.log", "bar"));
    assert!(disk.next(&mut lines).is_none());

    // Its creation is heard of
    disk.rename("/tmp/foo.log", "/tmp/foo.log.1");
    disk.create("/tmp/foo.log");
    disk.write("/tmp/foo.log", "baz\n");
    assert_eq!(disk.line(&mut lines), read("/tmp/foo.log", "baz"));
    disk.write("/tmp/foo.log", "a longer line\n");
    assert_eq!(disk.line(&mut lines), read("/tmp/foo.log", "a longer line"));
    assert!(disk.next(&mut lines).is_none());

    // Its creation is not heard of, but it is smaller
    disk.rename("/tmp/foo.log", "/tmp/foo.log.2");
    disk.create("/tmp/foo.log");
    disk.stream.pop_back();
    assert!(disk.next(&mut lines).is_none());
    disk.write("/tmp/foo.log", "qux\n");
    assert_eq!(disk.line(&mut lines), read("/tmp/foo.log", "qux"));
    assert!(disk.next(&mut lines).is_none());
}

#[test]
fn other_events_take_nothing_from_a_log() {
    let mut disk = Disk::new();
    let mut lines = lines();
    disk.add(&mut lines, "/tmp/foo.log").unwrap();
    disk.add(&mut lines, "/tmp/other").unwrap();
    // About other files, one of them followed too, and about the log while it is missing
    disk.create("/tmp/other");
    disk.write("/tmp/other", "other\n");
    disk.stream
        .push_back(Ok(event(CHANGED, &["/tmp/none", "/tmp/foo.log"])));
    assert_eq!(disk.line(&mut lines), read("/tmp/other", "other"));
    assert!(disk.next(&mut lines).is_none());
    disk.create("/tmp/foo.log");
    disk.write("/tmp/foo.log", "foo\n");
    assert_eq!(disk.line(&mut lines), read("/tmp/foo.log", "foo"));
    disk.remove("/tmp/other");
    assert!(disk.next(&mut lines).is_none());
    // An event that is not looked into brings lines as well
    disk.write("/tmp/foo.log", "bar\n");
    disk.stream.clear();
    disk.stream.push_back(Ok(event(
        EventKind::Access(AccessKind::Any),
        &["/tmp/foo.log"],
    )));
    assert_eq!(disk.line(&mut lines), read("/tmp/foo.log", "bar"));
    assert!(disk.next(&mut lines).is_none());
}
