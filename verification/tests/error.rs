use linemux::error::{
    notify_to_io_error, IoError, IoErrorKind, NotifyError, NotifyErrorKind,
};
use std::io;

fn error(kind: NotifyErrorKind) -> NotifyError {
    NotifyError {
        kind,
        paths: vec![],
    }
}

#[test]
fn test_notify_error() {
    let notify_io_error = error(NotifyErrorKind::Io(io::Error::new(
        io::ErrorKind::AddrInUse,
        "foobar",
    )));
    match notify_to_io_error(notify_io_error) {
        IoError::System(io_error) => {
            assert_eq!(io_error.kind(), io::ErrorKind::AddrInUse);
            assert_eq!(io_error.to_string(), "foobar");
        }
        other => panic!("{:?}", other),
    }

    let notify_custom_error = error(NotifyErrorKind::PathNotFound);
    let io_error = notify_to_io_error(notify_custom_error);
    assert_eq!(io_error.kind(), Some(IoErrorKind::Other));
}

#[test]
fn every_other_backend_error_is_kept_whole() {
    let kinds = vec![
        NotifyErrorKind::Generic("foobar".to_string()),
        NotifyErrorKind::PathNotFound,
        NotifyErrorKind::WatchNotFound,
        NotifyErrorKind::InvalidConfig(notify::Config::default()),
        NotifyErrorKind::MaxFilesWatch,
    ];
    for kind in kinds {
        let expected = format!("{:?}", kind);
        match notify_to_io_error(error(kind)) {
            IoError::Notify(kept) => assert_eq!(format!("{:?}", kept.kind), expected),
            other => panic!("{:?}", other),
        }
    }
}

#[test]
fn errors_have_kinds_and_messages() {
    assert_eq!(IoError::FilenameNotFound.kind(), Some(IoErrorKind::NotFound));
    assert_eq!(
        IoError::FilenameNotFound.message(),
        Some("Filename not found in path")
    );
    assert_eq!(IoError::IsADirectory.kind(), Some(IoErrorKind::InvalidInput));
    assert_eq!(IoError::IsADirectory.message(), Some("Is a directory"));
    assert_eq!(
        IoError::NeedsParentDirectory.kind(),
        Some(IoErrorKind::InvalidInput)
    );
    assert_eq!(
        IoError::NeedsParentDirectory.message(),
        Some("File needs a parent directory")
    );
    let system = IoError::System(io::Error::from(io::ErrorKind::NotFound));
    assert_eq!(system.kind(), None);
    assert_eq!(system.message(), None);
    let backend = IoError::Notify(error(NotifyErrorKind::MaxFilesWatch));
    assert_eq!(backend.kind(), Some(IoErrorKind::Other));
    assert_eq!(backend.message(), None);
}
