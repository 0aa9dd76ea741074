use linemux::line::Line;
use linemux::path::{Component, FilePath};
use std::path::{Path, PathBuf};

fn path(text: &str) -> FilePath {
    let components = Path::new(text).components().map(|component| match component {
        std::path::Component::Prefix(prefix) => {
            Component::Prefix(prefix.as_os_str().to_str().unwrap().as_bytes().to_vec())
        }
        std::path::Component::RootDir => Component::RootDir,
        std::path::Component::CurDir => Component::CurDir,
        std::path::Component::ParentDir => Component::ParentDir,
        std::path::Component::Normal(name) => {
            Component::Normal(name.to_str().unwrap().as_bytes().to_vec())
        }
    });
    FilePath::new(components.collect())
}

fn std_path(path: &FilePath) -> PathBuf {
    path.components()
        .iter()
        .map(|component| match component {
            Component::Prefix(name) => String::from_utf8(name.clone()).unwrap(),
            Component::RootDir => "/".to_string(),
            Component::CurDir => ".".to_string(),
            Component::ParentDir => "..".to_string(),
            Component::Normal(name) => String::from_utf8(name.clone()).unwrap(),
        })
        .collect()
}

#[test]
fn test_line_fns() {
    let source_path = "/some/path";
    let line_expected = "foo".to_string();

    let line = Line::new(path(source_path), line_expected.clone());

    assert_eq!(std_path(line.source()).to_str().unwrap(), source_path);

    let line_ref = line.line();
    assert_eq!(line_ref, line_expected.as_str());

    let (source_de, lines_de) = line.into_inner();
    assert_eq!(std_path(&source_de), PathBuf::from(source_path));
    assert_eq!(lines_de, line_expected);
}
