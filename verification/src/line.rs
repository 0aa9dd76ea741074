//! Lines.
use crate::path::{FilePath, PathView};
use vstd::prelude::*;

verus! {

/// Line captured for a given source path.
///
/// Also provides the caller extra context, such as the source path.
#[derive(Debug, Eq, Hash, PartialEq)]
pub struct Line {
    /// The path from where the line was read.
    source: FilePath,
    /// The received line.
    line: String,
}

/// A line as contracts speak of it.
pub struct LineView {
    pub source: PathView,
    pub line: Seq<char>,
}

impl View for Line {
    type V = LineView;

    closed spec fn view(&self) -> LineView {
        LineView { source: self.source@, line: self.line@ }
    }
}

impl Clone for Line {
    fn clone(&self) -> (copy: Line)
        ensures
            copy@ == self@,
    {
        Line { source: self.source.clone(), line: self.line.clone() }
    }
}

impl Line {
    /// The line that was read from the path.
    pub fn new(source: FilePath, line: String) -> (captured: Line)
        ensures
            captured@ == (LineView { source: source@, line: line@ }),
    {
        Line { source, line }
    }

    /// Returns a reference to the path from where the line was read.
    pub fn source(&self) -> (source: &FilePath)
        ensures
            source@ == self@.source,
    {
        &self.source
    }

    /// Returns a reference to the line.
    pub fn line(&self) -> (line: &str)
        ensures
            line@ == self@.line,
    {
        self.line.as_str()
    }

    /// Returns the internal components that make up a `Line`.
    pub fn into_inner(self) -> (parts: (FilePath, String))
        ensures
            parts.0@ == self@.source,
            parts.1@ == self@.line,
    {
        let Line { source, line } = self;

        (source, line)
    }
}

} // verus!
