//! A library providing multiplexed tailing for (namely log) files, together with the
//! underlying watch for filesystem events, which can register non-existent files.
//!
//! The library decides and does no I/O of its own. Each of its machines asks for what
//! it needs, such as the size of a file or the next event, and is resumed with the
//! answer:
//!
//!   - [`MuxedEvents`] knows which files and directories are watched. It adds files,
//!     and takes in what events say about them.
//!   - [`MuxedLines`] knows which files are read from, and where. It turns events into
//!     lines.
//!
//! Contracts are stated over views of these types, one step at a time. What the steps
//! come to together is stated in [`events_laws`] and [`reader_laws`], and what comes of
//! the rotation of a log in [`rotation_laws`]. What a user relies on, in terms of events
//! and of what the filesystem answers, is stated in [`naming_laws`] for the paths of files,
//! in [`watching_laws`] for what is watched, and in [`lines_laws`] for the lines.
//!
//! ## Caveats
//!
//! If a nonexistent file is added, its parent is assumed to exist at least, to register
//! a directory watch.
pub mod absolutify;
pub mod add_file;
pub mod error;
pub mod event;
pub mod events;
pub mod events_laws;
pub mod handle_event;
pub mod inner;
pub mod line;
pub mod lines_laws;
pub mod naming_laws;
pub mod path;
pub mod path_map;
pub mod reader;
pub mod reader_laws;
pub mod request;
pub mod rotation_laws;
pub mod watch;
pub mod watching_laws;

pub use events::MuxedEvents;
pub use line::Line;
pub use reader::MuxedLines;
