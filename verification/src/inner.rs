//! The files that lines are read from.
use crate::path::{FilePath, PathView};
use crate::path_map::{PathMap, PathSet};
use vstd::prelude::*;

verus! {

/// The files that lines are read from, as contracts speak of them.
#[verifier::ext_equal]
#[verifier::reject_recursive_types(R)]
pub struct InnerView<R> {
    /// How much of each file was there when it was last looked at.
    pub positions: Map<PathView, u64>,
    /// The readers of the files that are open.
    pub readers: Map<PathView, R>,
    /// The files that do not exist yet.
    pub pending: Set<PathView>,
}

impl<R> InnerView<R> {
    /// No files.
    pub open spec fn empty() -> InnerView<R> {
        InnerView { positions: Map::empty(), readers: Map::empty(), pending: Set::empty() }
    }

    /// Whether the file has a reader, or will have one when it exists.
    pub open spec fn reader_exists(self, path: PathView) -> bool {
        self.readers.contains_key(path) || self.pending.contains(path)
    }

    /// Whether there is no file to read from, now or later.
    pub open spec fn is_empty(self) -> bool {
        self.readers == Map::<PathView, R>::empty() && self.pending == Set::<PathView>::empty()
    }

    /// The file expected to exist later.
    pub open spec fn with_pending(self, path: PathView) -> InnerView<R> {
        InnerView { pending: self.pending.insert(path), ..self }
    }

    /// The file no longer expected to exist later.
    pub open spec fn without_pending(self, path: PathView) -> InnerView<R> {
        InnerView { pending: self.pending.remove(path), ..self }
    }

    /// The file with that reader.
    pub open spec fn with_reader(self, path: PathView, reader: R) -> InnerView<R> {
        InnerView { readers: self.readers.insert(path, reader), ..self }
    }

    /// The file with that position.
    pub open spec fn with_position(self, path: PathView, position: u64) -> InnerView<R> {
        InnerView { positions: self.positions.insert(path, position), ..self }
    }
}

/// The files that lines are read from. `R` is the type of their readers.
#[derive(Debug)]
pub struct Inner<R> {
    reader_positions: PathMap<u64>,
    readers: PathMap<R>,
    pending_readers: PathSet,
}

impl<R> View for Inner<R> {
    type V = InnerView<R>;

    closed spec fn view(&self) -> InnerView<R> {
        InnerView {
            positions: self.reader_positions@,
            readers: self.readers@,
            pending: self.pending_readers@,
        }
    }
}

impl<R> Inner<R> {
    /// The collections are sound.
    pub closed spec fn wf(&self) -> bool {
        &&& self.reader_positions.wf()
        &&& self.readers.wf()
        &&& self.pending_readers.wf()
    }

    /// No files.
    pub fn new() -> (inner: Inner<R>)
        ensures
            inner.wf(),
            inner@ == InnerView::<R>::empty(),
    {
        Inner {
            reader_positions: PathMap::new(),
            readers: PathMap::new(),
            pending_readers: PathSet::new(),
        }
    }

    /// The positions of the files.
    pub fn reader_positions(&self) -> (positions: &PathMap<u64>)
        requires
            self.wf(),
        ensures
            positions.wf(),
            positions@ == self@.positions,
    {
        &self.reader_positions
    }

    /// The readers of the files that are open.
    pub fn readers(&self) -> (readers: &PathMap<R>)
        requires
            self.wf(),
        ensures
            readers.wf(),
            readers@ == self@.readers,
    {
        &self.readers
    }

    /// The files that do not exist yet.
    pub fn pending_readers(&self) -> (pending: &PathSet)
        requires
            self.wf(),
        ensures
            pending.wf(),
            pending@ == self@.pending,
    {
        &self.pending_readers
    }

    /// Whether the file has a reader, or will have one when it exists.
    pub fn reader_exists(&self, path: &FilePath) -> (exists: bool)
        requires
            self.wf(),
        ensures
            exists == self@.reader_exists(path@),
    {
        // Make sure there isn't already a reader for the file
        self.readers.contains_key(path) || self.pending_readers.contains(path)
    }

    /// Expects the file to exist later, and says whether it was not expected yet.
    pub fn insert_pending(&mut self, path: FilePath) -> (new: bool)
        requires
            old(self).wf(),
        ensures
            final(self).wf(),
            final(self)@ == old(self)@.with_pending(path@),
            new == !old(self)@.pending.contains(path@),
    {
        self.pending_readers.insert(path)
    }

    /// No longer expects the file, and says whether it was expected.
    pub fn remove_pending(&mut self, path: &FilePath) -> (present: bool)
        requires
            old(self).wf(),
        ensures
            final(self).wf(),
            final(self)@ == old(self)@.without_pending(path@),
            present == old(self)@.pending.contains(path@),
    {
        self.pending_readers.remove(path)
    }

    /// Gives the file a reader, and hands out the one that it had.
    pub fn insert_reader(&mut self, path: FilePath, reader: R) -> (previous: Option<R>)
        requires
            old(self).wf(),
        ensures
            final(self).wf(),
            final(self)@ == old(self)@.with_reader(path@, reader),
            match previous {
                Some(previous) => old(self)@.readers.contains_key(path@) && previous == old(
                    self,
                )@.readers[path@],
                None => !old(self)@.readers.contains_key(path@),
            },
    {
        self.readers.insert(path, reader)
    }

    /// Gives the file a position, and hands out the one that it had.
    pub fn insert_reader_position(&mut self, path: FilePath, pos: u64) -> (previous: Option<u64>)
        requires
            old(self).wf(),
        ensures
            final(self).wf(),
            final(self)@ == old(self)@.with_position(path@, pos),
            match previous {
                Some(previous) => old(self)@.positions.contains_key(path@) && previous == old(
                    self,
                )@.positions[path@],
                None => !old(self)@.positions.contains_key(path@),
            },
    {
        self.reader_positions.insert(path, pos)
    }

    /// The reader of the file, if it has one, to be read from.
    pub fn reader_mut(&mut self, path: &FilePath) -> (reader: Option<&mut R>)
        requires
            old(self).wf(),
        ensures
            match reader {
                Some(reader) => {
                    &&& old(self)@.readers.contains_key(path@)
                    &&& *reader == old(self)@.readers[path@]
                    &&& final(self).wf()
                    &&& final(self)@ == old(self)@.with_reader(path@, *final(reader))
                },
                None => !old(self)@.readers.contains_key(path@) && *final(self) == *old(self),
            },
    {
        self.readers.get_mut(path)
    }

    /// Whether there is no file to read from, now or later.
    pub fn is_empty(&self) -> (empty: bool)
        requires
            self.wf(),
        ensures
            empty == self@.is_empty(),
    {
        self.readers.is_empty() && self.pending_readers.is_empty()
    }
}

} // verus!
