//! What is being watched.
use crate::path::{parent_of, FilePath, PathView};
use crate::path_map::{PathMap, PathSet};
use vstd::prelude::*;

verus! {

/// What is being watched, as contracts speak of it.
#[verifier::ext_equal]
pub struct WatchView {
    /// The directories that are watched for files to appear, each with the number
    /// of files that are missing there.
    pub directories: Map<PathView, usize>,
    /// The files that are watched.
    pub files: Set<PathView>,
    /// The files that do not exist yet.
    pub pending: Set<PathView>,
}

/// The paths whose parent is the directory.
pub open spec fn children(paths: Set<PathView>, dir: PathView) -> Set<PathView> {
    paths.filter(|path: PathView| parent_of(path) == Some(dir))
}

impl WatchView {
    /// Nothing is watched.
    pub open spec fn empty() -> WatchView {
        WatchView { directories: Map::empty(), files: Set::empty(), pending: Set::empty() }
    }

    /// Every missing file has a parent directory, each directory is counted once
    /// for each file that is missing there and not held otherwise, and no file is
    /// both watched and missing.
    pub open spec fn wf(self) -> bool {
        &&& self.pending.finite()
        &&& forall|path: PathView| #[trigger]
            self.pending.contains(path) ==> parent_of(path) is Some
        &&& forall|dir: PathView| #[trigger]
            self.directories.contains_key(dir) <==> children(self.pending, dir).len() > 0
        &&& forall|dir: PathView| #[trigger]
            self.directories.contains_key(dir) ==> self.directories[dir] == children(
                self.pending,
                dir,
            ).len()
        &&& forall|path: PathView| #[trigger]
            self.pending.contains(path) ==> !self.files.contains(path)
    }

    /// Whether no file was added, missing or not.
    pub open spec fn is_empty(self) -> bool {
        self.files == Set::<PathView>::empty() && self.pending == Set::<PathView>::empty()
    }

    /// Whether the path is held in any way.
    pub open spec fn watch_exists(self, path: PathView) -> bool {
        self.files.contains(path) || self.pending.contains(path) || self.directories.contains_key(
            path,
        )
    }

    /// The directory counted once more.
    pub open spec fn with_directory(self, dir: PathView) -> WatchView {
        let count = if self.directories.contains_key(dir) {
            self.directories[dir] as int
        } else {
            0
        };
        WatchView { directories: self.directories.insert(dir, (count + 1) as usize), ..self }
    }

    /// The directory counted once less, and given up if it was counted once.
    pub open spec fn without_directory(self, dir: PathView) -> WatchView {
        if !self.directories.contains_key(dir) {
            self
        } else if self.directories[dir] == 1 {
            WatchView { directories: self.directories.remove(dir), ..self }
        } else {
            WatchView {
                directories: self.directories.insert(dir, (self.directories[dir] - 1) as usize),
                ..self
            }
        }
    }

    /// The file held as missing in the directory.
    pub open spec fn with_pending(self, path: PathView, dir: PathView) -> WatchView {
        WatchView { pending: self.pending.insert(path), ..self.with_directory(dir) }
    }

    /// The file no longer held as missing in the directory.
    pub open spec fn without_pending(self, path: PathView, dir: PathView) -> WatchView {
        WatchView { pending: self.pending.remove(path), ..self.without_directory(dir) }
    }

    /// The file watched.
    pub open spec fn with_file(self, path: PathView) -> WatchView {
        WatchView { files: self.files.insert(path), ..self }
    }

    /// The file no longer watched.
    pub open spec fn without_file(self, path: PathView) -> WatchView {
        WatchView { files: self.files.remove(path), ..self }
    }

    /// A file that was not held can be held as missing in its parent directory, if
    /// so many files can be counted at all.
    pub proof fn lemma_with_pending(self, path: PathView, dir: PathView)
        requires
            self.wf(),
            !self.watch_exists(path),
            parent_of(path) == Some(dir),
            self.pending.insert(path).len() <= usize::MAX,
        ensures
            self.with_pending(path, dir).wf(),
            self.directories.contains_key(dir) ==> self.directories[dir] < usize::MAX,
    {
        broadcast use vstd::set_lib::group_set_lib_default;

        let after = self.with_pending(path, dir);
        let kids = children(after.pending, dir);
        assert(kids =~= children(self.pending, dir).insert(path));
        assert(!children(self.pending, dir).contains(path));
        vstd::set_lib::lemma_len_subset(kids, after.pending);
        assert(kids.len() == children(self.pending, dir).len() + 1);
        assert forall|other: PathView| other != dir implies #[trigger] children(
            after.pending,
            other,
        ) == children(self.pending, other) by {
            assert(children(after.pending, other) =~= children(self.pending, other));
        }
    }

    /// A missing file can be let go of.
    pub proof fn lemma_without_pending(self, path: PathView, dir: PathView)
        requires
            self.wf(),
            self.pending.contains(path),
            parent_of(path) == Some(dir),
        ensures
            self.without_pending(path, dir).wf(),
            self.directories.contains_key(dir),
            self.directories[dir] > 0,
    {
        broadcast use vstd::set_lib::group_set_lib_default;

        let after = self.without_pending(path, dir);
        let before = children(self.pending, dir);
        assert(before.contains(path));
        assert(children(after.pending, dir) =~= before.remove(path));
        assert(children(after.pending, dir).len() == before.len() - 1);
        assert(before.len() > 0);
        assert(self.directories.contains_key(dir));
        assert forall|other: PathView| other != dir implies #[trigger] children(
            after.pending,
            other,
        ) == children(self.pending, other) by {
            assert(children(after.pending, other) =~= children(self.pending, other));
        }
    }
}

/// To count a directory once more and once less gives back what was counted, and it is
/// given up then exactly if it was not counted before. No count may be zero, and the
/// directory must be countable once more.
pub proof fn counted_directory_can_be_uncounted(watch: WatchView, dir: PathView)
    requires
        watch.directories.contains_key(dir) ==> 0 < watch.directories[dir] < usize::MAX,
    ensures
        watch.with_directory(dir).without_directory(dir) == watch,
        watch.with_directory(dir).directories.contains_key(dir),
        !watch.with_directory(dir).without_directory(dir).directories.contains_key(dir)
            <==> !watch.directories.contains_key(dir),
{
    assert(watch.with_directory(dir).without_directory(dir) =~= watch);
}

/// What is being watched.
#[derive(Debug)]
pub struct Watches {
    watched_directories: PathMap<usize>,
    /// Files that are successfully being watched.
    watched_files: PathSet,
    /// Files that don't exist yet, but will start once a create event comes in for
    /// the watched parent directory.
    pending_watched_files: PathSet,
}

impl View for Watches {
    type V = WatchView;

    closed spec fn view(&self) -> WatchView {
        WatchView {
            directories: self.watched_directories@,
            files: self.watched_files@,
            pending: self.pending_watched_files@,
        }
    }
}

impl Watches {
    /// The collections are sound.
    spec fn sound(&self) -> bool {
        &&& self.watched_directories.wf()
        &&& self.watched_files.wf()
        &&& self.pending_watched_files.wf()
    }

    /// The collections are sound, and what they hold fits together.
    pub closed spec fn wf(&self) -> bool {
        self.sound() && self@.wf()
    }

    /// What they hold fits together.
    pub proof fn lemma_wf(&self)
        requires
            self.wf(),
        ensures
            self@.wf(),
    {
    }

    /// Nothing is watched.
    pub fn new() -> (watches: Watches)
        ensures
            watches.wf(),
            watches@ == WatchView::empty(),
    {
        let watches = Watches {
            watched_directories: PathMap::new(),
            watched_files: PathSet::new(),
            pending_watched_files: PathSet::new(),
        };
        assert forall|dir: PathView| #[trigger] children(watches@.pending, dir).len() == 0 by {
            assert(children(watches@.pending, dir) =~= Set::<PathView>::empty());
        }
        watches
    }

    /// The directories that are watched for files to appear, each with the number
    /// of files that are missing there.
    pub fn watched_directories(&self) -> (directories: &PathMap<usize>)
        requires
            self.wf(),
        ensures
            directories.wf(),
            directories@ == self@.directories,
    {
        &self.watched_directories
    }

    /// The files that are watched.
    pub fn watched_files(&self) -> (files: &PathSet)
        requires
            self.wf(),
        ensures
            files.wf(),
            files@ == self@.files,
    {
        &self.watched_files
    }

    /// The files that do not exist yet.
    pub fn pending_watched_files(&self) -> (files: &PathSet)
        requires
            self.wf(),
        ensures
            files.wf(),
            files@ == self@.pending,
    {
        &self.pending_watched_files
    }

    /// Whether no file was added, missing or not.
    pub fn is_empty(&self) -> (empty: bool)
        requires
            self.wf(),
        ensures
            empty == self@.is_empty(),
    {
        self.watched_files.is_empty() && self.pending_watched_files.is_empty()
    }

    /// Whether the path is held in any way.
    pub fn watch_exists(&self, path: &FilePath) -> (exists: bool)
        requires
            self.wf(),
        ensures
            exists == self@.watch_exists(path@),
    {
        self.watched_files.contains(path) || self.pending_watched_files.contains(path)
            || self.watched_directories.contains_key(path)
    }

    /// Counts the directory once more.
    fn add_directory(&mut self, dir: FilePath)
        requires
            old(self).sound(),
            old(self)@.directories.contains_key(dir@) ==> old(self)@.directories[dir@] < usize::MAX,
        ensures
            final(self).sound(),
            final(self)@ == old(self)@.with_directory(dir@),
    {
        let count: usize = match self.watched_directories.get(&dir) {
            Some(count) => *count,
            None => 0,
        };
        let _ = self.watched_directories.insert(dir, count + 1);
    }

    /// Counts the directory once less, and says whether it has been given up.
    fn remove_directory(&mut self, dir: &FilePath) -> (given_up: bool)
        requires
            old(self).sound(),
            old(self)@.directories.contains_key(dir@) ==> old(self)@.directories[dir@] > 0,
        ensures
            final(self).sound(),
            final(self)@ == old(self)@.without_directory(dir@),
            given_up == (old(self)@.directories.contains_key(dir@)
                && !final(self)@.directories.contains_key(dir@)),
    {
        let count: usize = match self.watched_directories.get(dir) {
            Some(count) => *count,
            None => {
                return false;
            },
        };
        if count == 1 {
            let _ = self.watched_directories.remove(dir);
            true
        } else {
            let _ = self.watched_directories.insert(dir.clone(), count - 1);
            false
        }
    }

    /// Holds the file as missing in its parent directory.
    pub fn add_pending(&mut self, path: FilePath, dir: FilePath)
        requires
            old(self).wf(),
            !old(self)@.watch_exists(path@),
            parent_of(path@) == Some(dir@),
        ensures
            final(self).wf(),
            final(self)@ == old(self)@.with_pending(path@, dir@),
    {
        let _ = self.pending_watched_files.insert(path);
        proof {
            self.pending_watched_files.lemma_finite();
            old(self)@.lemma_with_pending(path@, dir@);
        }
        self.add_directory(dir);
        assert(self@ =~= old(self)@.with_pending(path@, dir@));
    }

    /// Lets go of a missing file, and says which directory has been given up with
    /// it, if any.
    pub fn remove_pending(&mut self, path: &FilePath) -> (given_up: Option<FilePath>)
        requires
            old(self).wf(),
            old(self)@.pending.contains(path@),
        ensures
            final(self).wf(),
            parent_of(path@) is Some,
            final(self)@ == old(self)@.without_pending(path@, parent_of(path@)->0),
            match given_up {
                Some(dir) => dir@ == parent_of(path@)->0 && !final(self)@.directories.contains_key(
                    dir@,
                ),
                None => final(self)@.directories.contains_key(parent_of(path@)->0),
            },
    {
        match path.parent() {
            Some(dir) => {
                proof {
                    self@.lemma_without_pending(path@, dir@);
                }
                let given_up = self.remove_directory(&dir);
                let _ = self.pending_watched_files.remove(path);
                assert(self@ =~= old(self)@.without_pending(path@, dir@));
                if given_up {
                    Some(dir)
                } else {
                    None
                }
            },
            None => None,
        }
    }

    /// Watches the file.
    pub fn add_file(&mut self, path: FilePath)
        requires
            old(self).wf(),
            !old(self)@.watch_exists(path@),
        ensures
            final(self).wf(),
            final(self)@ == old(self)@.with_file(path@),
    {
        let _ = self.watched_files.insert(path);
    }

    /// No longer watches the file.
    pub fn remove_file(&mut self, path: &FilePath)
        requires
            old(self).wf(),
        ensures
            final(self).wf(),
            final(self)@ == old(self)@.without_file(path@),
    {
        let _ = self.watched_files.remove(path);
        assert(self@.directories == old(self)@.directories);
    }
}

} // verus!
