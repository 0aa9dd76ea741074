# linemux

Multiplexed tailing of (namely log) files, verified with Verus. Files can be added before they
exist, and are followed through rotation. The underlying watch for filesystem events can be
used by itself.

## Layout

`src/` is the library. It decides and does no I/O: each of its machines asks for what it needs
and is resumed with the answer.

  - `events.rs`, with `add_file.rs`, `absolutify.rs` and `watch.rs`: the event watch,
    `MuxedEvents`. It knows which files and directories are watched, adds files, and takes in
    what events say about them.
  - `reader.rs`, with `handle_event.rs`, `inner.rs` and `line.rs`: the reading of lines,
    `MuxedLines`. It knows which files are read from and where, adds them to an event watch of
    its own, and turns its events into lines.
  - `events_laws.rs` and `reader_laws.rs`: what the steps of the two come to together, for any
    answers. `rotation_laws.rs`: what comes of the rotation of a log, line by line.
  - `path.rs`, `path_map.rs`, `event.rs`, `error.rs` and `request.rs`: the data that they share.

`app/` puts the library on top of `notify` and `tokio`: it watches, opens and reads the files,
and offers both machines as streams.

`tests/` runs the library against a filesystem in memory.

## What is trusted

Two types from outside are carried through the library unread: `std::io::Error` and
`notify::Config`. Nothing is assumed of them.
