//! Canonical paths.
use crate::error::IoError;
use crate::event::{Event, EventView};
use crate::path::{
    file_name_of, is_absolute, joined, joined_path_has_parent_and_name, parent_of, taken_in,
    FilePath, PathView,
};
use crate::request::{Answers, Reply, Request};
use vstd::prelude::*;

verus! {

/// How far the making of a canonical path has come. `P` is the type of paths and
/// `N` that of file names.
#[derive(Debug)]
pub enum Absolutify<P, N> {
    /// The path has no directory of its own, so the current one is asked for.
    CurrentDir(P),
    /// The directory may have a canonical form. The file name, if any, is put back at
    /// the end.
    Canonicalize(P, Option<N>),
    /// The directory has no canonical form, but may be a link.
    ReadLink(P, Option<N>),
}

/// What one step of the making of a canonical path leads to.
#[derive(Debug)]
pub enum AbsolutifyStep<P, N> {
    Continue(Absolutify<P, N>),
    Done(Result<P, IoError>),
}

/// A file name as contracts speak of it.
pub open spec fn name_view(name: Option<Vec<u8>>) -> Option<Seq<u8>> {
    match name {
        Some(name) => Some(name@),
        None => None,
    }
}

/// The outcome of what yields a path, as contracts speak of it.
pub open spec fn result_view(result: Result<FilePath, IoError>) -> Result<PathView, IoError> {
    match result {
        Ok(path) => Ok(path@),
        Err(error) => Err(error),
    }
}

impl View for Absolutify<FilePath, Vec<u8>> {
    type V = Absolutify<PathView, Seq<u8>>;

    open spec fn view(&self) -> Absolutify<PathView, Seq<u8>> {
        match self {
            Absolutify::CurrentDir(path) => Absolutify::CurrentDir(path@),
            Absolutify::Canonicalize(dir, name) => Absolutify::Canonicalize(dir@, name_view(*name)),
            Absolutify::ReadLink(dir, name) => Absolutify::ReadLink(dir@, name_view(*name)),
        }
    }
}

impl View for AbsolutifyStep<FilePath, Vec<u8>> {
    type V = AbsolutifyStep<PathView, Seq<u8>>;

    open spec fn view(&self) -> AbsolutifyStep<PathView, Seq<u8>> {
        match self {
            AbsolutifyStep::Continue(state) => AbsolutifyStep::Continue(state@),
            AbsolutifyStep::Done(result) => AbsolutifyStep::Done(result_view(*result)),
        }
    }
}

/// The directory of the file is known; without a file name this is an error.
pub open spec fn absolutify_in(path: PathView, dir: PathView) -> AbsolutifyStep<
    PathView,
    Seq<u8>,
> {
    match file_name_of(path) {
        Some(name) => AbsolutifyStep::Continue(Absolutify::Canonicalize(dir, Some(name))),
        None => AbsolutifyStep::Done(Err(IoError::FilenameNotFound)),
    }
}

/// The first step. Only the directory of a file is made canonical; a file without
/// one is in the current directory.
pub open spec fn absolutify_start(path: PathView, is_file: bool) -> AbsolutifyStep<
    PathView,
    Seq<u8>,
> {
    if !is_file {
        AbsolutifyStep::Continue(Absolutify::Canonicalize(path, None))
    } else {
        match parent_of(path) {
            Some(dir) if dir.len() > 0 => absolutify_in(path, dir),
            _ => AbsolutifyStep::Continue(Absolutify::CurrentDir(path)),
        }
    }
}

/// The step that a reply allows. A reply to another request changes nothing.
pub open spec fn absolutify_next(
    state: Absolutify<PathView, Seq<u8>>,
    reply: Reply<PathView, EventView>,
) -> AbsolutifyStep<PathView, Seq<u8>> {
    match (state, reply) {
        (Absolutify::CurrentDir(path), Reply::Path(Ok(dir))) => absolutify_in(path, dir),
        (Absolutify::CurrentDir(_), Reply::Path(Err(error))) => AbsolutifyStep::Done(
            Err(IoError::System(error)),
        ),
        (Absolutify::Canonicalize(dir, name), Reply::Path(Ok(canonical))) => AbsolutifyStep::Done(
            Ok(in_dir(canonical, name)),
        ),
        (Absolutify::Canonicalize(dir, name), Reply::Path(Err(_))) => AbsolutifyStep::Continue(
            Absolutify::ReadLink(dir, name),
        ),
        (Absolutify::ReadLink(dir, name), Reply::Path(Ok(target))) => AbsolutifyStep::Done(
            Ok(in_dir(linked(dir, target), name)),
        ),
        (Absolutify::ReadLink(dir, name), Reply::Path(Err(_))) => AbsolutifyStep::Done(
            Ok(in_dir(dir, name)),
        ),
        _ => AbsolutifyStep::Continue(state),
    }
}

/// Where a link with that target leads: a relative target is taken in the directory
/// that the link is in.
pub open spec fn linked(link: PathView, target: PathView) -> PathView {
    match parent_of(link) {
        Some(dir) => taken_in(dir, target),
        None => target,
    }
}

/// The entry of that name in the directory, or the directory itself.
pub open spec fn in_dir(dir: PathView, name: Option<Seq<u8>>) -> PathView {
    match name {
        Some(name) => joined(dir, name),
        None => dir,
    }
}

/// What the making of a canonical path asks for.
pub open spec fn absolutify_request(state: Absolutify<PathView, Seq<u8>>) -> Request<
    PathView,
    EventView,
> {
    match state {
        Absolutify::CurrentDir(_) => Request::CurrentDir,
        Absolutify::Canonicalize(dir, _) => Request::Canonicalize(dir),
        Absolutify::ReadLink(dir, _) => Request::ReadLink(dir),
    }
}

fn absolutify_in_dir(path: &FilePath, dir: FilePath) -> (step: AbsolutifyStep<FilePath, Vec<u8>>)
    ensures
        step@ == absolutify_in(path@, dir@),
{
    match path.file_name() {
        Some(name) => AbsolutifyStep::Continue(Absolutify::Canonicalize(dir, Some(name))),
        None => AbsolutifyStep::Done(Err(IoError::FilenameNotFound)),
    }
}

/// The entry of that name in the directory, or the directory itself.
fn entry(dir: FilePath, name: Option<Vec<u8>>) -> (path: FilePath)
    ensures
        path@ == in_dir(dir@, name_view(name)),
{
    match name {
        Some(name) => dir.join(name),
        None => dir,
    }
}

/// Begins to make a path canonical.
pub fn absolutify(path: FilePath, is_file: bool) -> (step: AbsolutifyStep<FilePath, Vec<u8>>)
    ensures
        step@ == absolutify_start(path@, is_file),
{
    if !is_file {
        return AbsolutifyStep::Continue(Absolutify::Canonicalize(path, None));
    }
    match path.parent() {
        Some(dir) => {
            if dir.is_empty() {
                AbsolutifyStep::Continue(Absolutify::CurrentDir(path))
            } else {
                absolutify_in_dir(&path, dir)
            }
        },
        None => AbsolutifyStep::Continue(Absolutify::CurrentDir(path)),
    }
}

impl Absolutify<FilePath, Vec<u8>> {
    /// What has to be answered before the making of the path can go on.
    pub fn request(&self) -> (request: Request<FilePath, Event>)
        ensures
            request@ == absolutify_request(self@),
    {
        match self {
            Absolutify::CurrentDir(_) => Request::CurrentDir,
            Absolutify::Canonicalize(dir, _) => Request::Canonicalize(dir.clone()),
            Absolutify::ReadLink(dir, _) => Request::ReadLink(dir.clone()),
        }
    }

    /// Goes on with the answer.
    pub fn resume(self, reply: Reply<FilePath, Event>) -> (step: AbsolutifyStep<FilePath, Vec<u8>>)
        ensures
            step@ == absolutify_next(self@, reply@),
    {
        match (self, reply) {
            (Absolutify::CurrentDir(path), Reply::Path(Ok(dir))) => absolutify_in_dir(&path, dir),
            (Absolutify::CurrentDir(_), Reply::Path(Err(error))) => AbsolutifyStep::Done(
                Err(IoError::System(error)),
            ),
            (Absolutify::Canonicalize(_, name), Reply::Path(Ok(canonical))) => {
                AbsolutifyStep::Done(Ok(entry(canonical, name)))
            },
            (Absolutify::Canonicalize(dir, name), Reply::Path(Err(_))) => AbsolutifyStep::Continue(
                Absolutify::ReadLink(dir, name),
            ),
            (Absolutify::ReadLink(link, name), Reply::Path(Ok(target))) => {
                let dir = match link.parent() {
                    Some(dir) => dir.take_in(target),
                    None => target,
                };
                AbsolutifyStep::Done(Ok(entry(dir, name)))
            },
            (Absolutify::ReadLink(dir, name), Reply::Path(Err(_))) => {
                AbsolutifyStep::Done(Ok(entry(dir, name)))
            },
            (state, _) => AbsolutifyStep::Continue(state),
        }
    }
}

/// Where a directory really is: in its canonical form if it has one. One without is
/// where it leads if it is a link, and otherwise itself.
pub open spec fn resolved(dir: PathView, answers: Answers) -> PathView {
    match ((answers.canonicalize)(dir), (answers.read_link)(dir)) {
        (Ok(canonical), _) => canonical,
        (Err(_), Ok(target)) => linked(dir, target),
        (Err(_), Err(_)) => dir,
    }
}

/// The canonical form of a path: the entry of the same name in the resolved directory
/// of a file, or the resolved path itself.
pub open spec fn absolutified(path: PathView, is_file: bool, answers: Answers) -> Result<
    PathView,
    IoError,
> {
    let named = parent_of(path) is Some && parent_of(path)->0.len() > 0;
    if !is_file {
        Ok(resolved(path, answers))
    } else if !named && answers.current_dir is Err {
        Err(IoError::System(answers.current_dir->Err_0))
    } else if file_name_of(path) is None {
        Err(IoError::FilenameNotFound)
    } else {
        Ok(joined(resolved(directory_of(path, answers), answers), file_name_of(path)->0))
    }
}

/// The directory that a file is in: that of its path, or else the current one.
pub open spec fn directory_of(path: PathView, answers: Answers) -> PathView {
    match parent_of(path) {
        Some(dir) if dir.len() > 0 => dir,
        _ => answers.current_dir->Ok_0,
    }
}

/// A step, and at most `turns` more with the answers to what they ask for.
pub open spec fn absolutify_run(
    step: AbsolutifyStep<PathView, Seq<u8>>,
    answers: Answers,
    turns: nat,
) -> AbsolutifyStep<PathView, Seq<u8>>
    decreases turns,
{
    match step {
        AbsolutifyStep::Continue(state) if turns > 0 => absolutify_run(
            absolutify_next(state, answers.to(absolutify_request(state))),
            answers,
            (turns - 1) as nat,
        ),
        _ => step,
    }
}

/// With three answers at most, a path has been made canonical.
pub proof fn absolutify_yields_the_canonical_path(path: PathView, is_file: bool, answers: Answers)
    ensures
        absolutify_run(absolutify_start(path, is_file), answers, 3) == AbsolutifyStep::<
            PathView,
            Seq<u8>,
        >::Done(absolutified(path, is_file, answers)),
{
    reveal_with_fuel(absolutify_run, 4);
}

/// The canonical path of a file has the file's own name.
pub proof fn canonical_path_keeps_the_file_name(path: PathView, answers: Answers)
    requires
        absolutified(path, true, answers) is Ok,
    ensures
        file_name_of(absolutified(path, true, answers)->Ok_0) == file_name_of(path),
{
}

/// A file in a directory that has a canonical form, a link or not, is its name in that
/// form.
pub proof fn file_is_named_in_the_canonical_directory(path: PathView, answers: Answers)
    requires
        absolutified(path, true, answers) is Ok,
        (answers.canonicalize)(directory_of(path, answers)) is Ok,
    ensures
        absolutified(path, true, answers) == Ok::<PathView, IoError>(
            joined(
                (answers.canonicalize)(directory_of(path, answers))->Ok_0,
                file_name_of(path)->0,
            ),
        ),
{
}

/// What the filesystem says of directories hangs together: canonical forms are absolute
/// and their own canonical forms, and a link has one if what it leads to has.
pub open spec fn coherent(answers: Answers) -> bool {
    &&& forall|dir: PathView| #[trigger]
        (answers.canonicalize)(dir) matches Ok(canonical) ==> is_absolute(canonical) && (
        answers.canonicalize)(canonical) == Ok::<PathView, std::io::Error>(canonical)
    &&& forall|link: PathView| #[trigger]
        (answers.read_link)(link) matches Ok(target) ==> (answers.canonicalize)(
            linked(link, target),
        ) is Ok ==> (answers.canonicalize)(link) is Ok
}

/// The canonical path of a file whose directory can be resolved is absolute, and to make
/// it canonical again changes nothing.
pub proof fn canonical_path_is_its_own(path: PathView, answers: Answers)
    requires
        coherent(answers),
        absolutified(path, true, answers) is Ok,
        (answers.canonicalize)(parent_of(absolutified(path, true, answers)->Ok_0)->0) is Ok,
    ensures
        is_absolute(absolutified(path, true, answers)->Ok_0),
        absolutified(absolutified(path, true, answers)->Ok_0, true, answers) == absolutified(
            path,
            true,
            answers,
        ),
{
    let dir = directory_of(path, answers);
    let name = file_name_of(path)->0;
    let found = resolved(dir, answers);
    joined_path_has_parent_and_name(found, name);
    assert((answers.canonicalize)(dir) is Ok);
    assert(is_absolute(found));
}

} // verus!
