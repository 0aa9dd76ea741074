use linemux::path::{Component, FilePath};
use linemux::path_map::{PathMap, PathSet};

fn path(text: &str) -> FilePath {
    let components = std::path::Path::new(text)
        .components()
        .map(|component| match component {
            std::path::Component::Prefix(prefix) => {
                Component::Prefix(prefix.as_os_str().to_str().unwrap().as_bytes().to_vec())
            }
            std::path::Component::RootDir => Component::RootDir,
            std::path::Component::CurDir => Component::CurDir,
            std::path::Component::ParentDir => Component::ParentDir,
            std::path::Component::Normal(name) => {
                Component::Normal(name.to_str().unwrap().as_bytes().to_vec())
            }
        });
    FilePath::new(components.collect())
}

/// What `std` says of a path, in this library's terms.
fn std_parent(text: &str) -> Option<FilePath> {
    std::path::Path::new(text)
        .parent()
        .map(|parent| path(parent.to_str().unwrap()))
}

fn std_file_name(text: &str) -> Option<Vec<u8>> {
    std::path::Path::new(text)
        .file_name()
        .map(|name| name.to_str().unwrap().as_bytes().to_vec())
}

const PATHS: [&str; 13] = [
    "",
    "/",
    ".",
    "..",
    "foo",
    "/foo",
    "foo/bar",
    "/foo/bar",
    "/foo/bar/",
    "/foo/./bar",
    "./foo",
    "foo/..",
    "/foo//bar.txt",
];

#[test]
fn parent_agrees_with_std() {
    for text in PATHS {
        assert_eq!(path(text).parent(), std_parent(text), "{}", text);
    }
}

#[test]
fn file_name_agrees_with_std() {
    for text in PATHS {
        assert_eq!(path(text).file_name(), std_file_name(text), "{}", text);
    }
}

#[test]
fn equality_agrees_with_std() {
    for a in PATHS {
        for b in PATHS {
            assert_eq!(
                path(a) == path(b),
                std::path::Path::new(a) == std::path::Path::new(b),
                "{} {}",
                a,
                b
            );
        }
    }
}

#[test]
fn join_agrees_with_std() {
    for text in PATHS {
        let joined = std::path::Path::new(text).join("baz");
        assert_eq!(
            path(text).join(b"baz".to_vec()),
            path(joined.to_str().unwrap()),
            "{}",
            text
        );
    }
}

#[test]
fn only_the_empty_path_is_empty() {
    assert!(path("").is_empty());
    assert!(!path(".").is_empty());
    assert!(!path("/").is_empty());
}

#[test]
fn prefixes_are_compared_by_name() {
    let c = FilePath::new(vec![Component::Prefix(b"C:".to_vec()), Component::RootDir]);
    let d = FilePath::new(vec![Component::Prefix(b"D:".to_vec()), Component::RootDir]);
    assert!(c == c.clone());
    assert!(c != d);
    assert_eq!(c.parent(), None);
    assert_eq!(c.file_name(), None);
}

#[test]
fn a_file_is_its_name_in_its_parent() {
    let file = path("/foo/bar");
    let parent = file.parent().unwrap();
    let name = file.file_name().unwrap();
    assert_eq!(parent.join(name), file);
}

#[test]
fn a_map_holds_one_value_for_each_path() {
    let mut map: PathMap<u32> = PathMap::new();
    assert!(map.is_empty());
    assert_eq!(map.insert(path("/a"), 1), None);
    assert_eq!(map.insert(path("/b"), 2), None);
    assert_eq!(map.insert(path("/a/"), 3), Some(1));
    assert_eq!(map.len(), 2);
    assert_eq!(map.get(&path("/a")), Some(&3));
    *map.get_mut(&path("/b")).unwrap() += 5;
    assert_eq!(map.get(&path("/b")), Some(&7));
    assert!(map.get_mut(&path("/c")).is_none());
    assert_eq!(map.remove(&path("/a")), Some(3));
    assert_eq!(map.remove(&path("/a")), None);
    assert!(!map.contains_key(&path("/a")));
    assert!(map.contains_key(&path("/b")));
    assert!(!map.is_empty());
}

#[test]
fn a_set_holds_a_path_once() {
    let mut set = PathSet::new();
    assert!(set.insert(path("/a")));
    assert!(!set.insert(path("/a")));
    assert_eq!(set.len(), 1);
    assert!(set.contains(&path("/a")));
    assert!(set.remove(&path("/a")));
    assert!(!set.remove(&path("/a")));
    assert!(set.is_empty());
}

#[test]
fn taking_in_agrees_with_std() {
    for dir in PATHS {
        for text in PATHS {
            let whole = std::path::Path::new(dir).join(text);
            assert_eq!(
                path(dir).take_in(path(text)),
                path(whole.to_str().unwrap()),
                "{} in {}",
                text,
                dir
            );
        }
    }
}

#[test]
fn a_prefix_is_kept_before_a_root() {
    let drive = || Component::Prefix(b"C:".to_vec());
    let name = || Component::Normal(b"foo".to_vec());
    let dir = || FilePath::new(vec![drive(), Component::RootDir, name()]);
    assert_eq!(
        dir().take_in(FilePath::new(vec![Component::RootDir])),
        FilePath::new(vec![drive(), Component::RootDir])
    );
    let other = || FilePath::new(vec![Component::Prefix(b"D:".to_vec()), name()]);
    assert_eq!(dir().take_in(other()), other());
}
