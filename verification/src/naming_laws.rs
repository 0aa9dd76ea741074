//! Which path a file is added under, said of the components of paths and of what the
//! filesystem answers.
use crate::absolutify::{
    absolutified, absolutify_request, absolutify_run, absolutify_start,
    absolutify_yields_the_canonical_path, AbsolutifyStep,
};
use crate::error::IoError;
use crate::event::EventView;
use crate::path::{file_name_of, joined, parent_of, taken_in, Component, FilePath, PathView};
use crate::request::{Answers, Request};
use vstd::prelude::*;
use vstd::std_specs::cmp::PartialEqSpec;

verus! {

/// Two paths are the same exactly if all their components are.
pub proof fn paths_are_told_apart_by_their_components(a: FilePath, b: FilePath)
    ensures
        a.eq_spec(&b) <==> a@ == b@,
        a.eq_spec(&b) <==> (a@.len() == b@.len() && forall|i: int|
            0 <= i < a@.len() ==> #[trigger] a@[i] == b@[i]),
{
    if a@.len() == b@.len() && forall|i: int|
        0 <= i < a@.len() ==> #[trigger] a@[i] == b@[i] {
        assert(a@ =~= b@);
    }
}

/// What stands at the end of a path decides whether it has a parent and a file name: a
/// root or a prefix has neither, an ordinary name has both, and anything else has a
/// parent alone.
pub proof fn end_of_a_path_decides(dir: PathView, end: Component<Seq<u8>>)
    ensures
        match end {
            Component::Prefix(_) => parent_of(dir.push(end)) is None,
            Component::RootDir => parent_of(dir.push(end)) is None,
            Component::CurDir => parent_of(dir.push(end)) == Some(dir),
            Component::ParentDir => parent_of(dir.push(end)) == Some(dir),
            Component::Normal(_) => parent_of(dir.push(end)) == Some(dir),
        },
        match end {
            Component::Normal(name) => file_name_of(dir.push(end)) == Some(name) && joined(
                dir,
                name,
            ) == dir.push(end),
            _ => file_name_of(dir.push(end)) is None,
        },
        parent_of(Seq::empty()) is None,
        file_name_of(Seq::empty()) is None,
{
    assert(dir.push(end).drop_last() =~= dir);
    assert(dir.push(end).last() == end);
}

/// A path that goes on from a directory is put behind it as it is, and one that starts at
/// a root or a prefix does not go on from it. What goes on in two parts goes on as a whole.
pub proof fn paths_go_on_from_directories(dir: PathView, path: PathView, name: Seq<u8>)
    ensures
        path.len() == 0 ==> taken_in(dir, path) == dir,
        path.len() > 0 && (path[0] is Normal || path[0] is ParentDir) ==> taken_in(dir, path)
            == dir + path,
        path.len() > 0 && path[0] is CurDir && (dir.len() > 1 || (dir.len() == 1 && dir[0]
            !is Prefix)) ==> taken_in(dir, path) == dir + path.drop_first(),
        path.len() > 0 && path[0] is CurDir && (dir.len() == 0 || (dir.len() == 1 && dir[0]
            is Prefix)) ==> taken_in(dir, path) == dir + path,
        path.len() > 0 && path[0] is RootDir && (dir.len() == 0 || dir[0] !is Prefix)
            ==> taken_in(dir, path) == path,
        path.len() > 0 && path[0] is RootDir && dir.len() > 0 && dir[0] is Prefix ==> taken_in(
            dir,
            path,
        ) == seq![dir[0]] + path,
        path.len() > 0 && path[0] is Prefix ==> taken_in(dir, path) == path,
        path.len() > 0 ==> taken_in(dir, path.push(Component::Normal(name))) == taken_in(
            dir,
            path,
        ).push(Component::Normal(name)),
{
    let longer = path.push(Component::Normal(name));
    if path.len() > 0 {
        assert(longer[0] == path[0]);
        assert(longer.drop_first() =~= path.drop_first().push(Component::Normal(name)));
        assert(taken_in(dir, longer) =~= taken_in(dir, path).push(Component::Normal(name)));
    }
    assert(dir.len() == 0 ==> dir =~= Seq::<Component<Seq<u8>>>::empty());
    assert(dir.len() == 0 ==> dir + path =~= path);
    assert(dir.len() > 0 && dir[0] is Prefix ==> dir.take(1) =~= seq![dir[0]]);
    assert(dir.len() == 1 ==> dir =~= seq![dir[0]]);
    if path.len() > 0 && path[0] is RootDir {
        assert(taken_in(dir, path) =~= if dir.len() > 0 && dir[0] is Prefix {
            seq![dir[0]] + path
        } else {
            path
        });
    }
}

/// What the making of a canonical path ends with.
pub open spec fn made_canonical(path: PathView, is_file: bool, answers: Answers) -> AbsolutifyStep<
    PathView,
    Seq<u8>,
> {
    absolutify_run(absolutify_start(path, is_file), answers, 3)
}

/// A file in a directory that has a canonical form is added under its name in that form,
/// whether the directory is absolute or not, and a link or not. Nothing but the canonical
/// form is asked for.
pub proof fn file_is_added_in_the_canonical_form_of_its_directory(
    dir: PathView,
    name: Seq<u8>,
    answers: Answers,
)
    requires
        dir.len() > 0,
        (answers.canonicalize)(dir) is Ok,
    ensures
        ({
            let path = dir.push(Component::Normal(name));
            let canonical = (answers.canonicalize)(dir)->Ok_0.push(Component::Normal(name));
            &&& absolutified(path, true, answers) == Ok::<PathView, IoError>(canonical)
            &&& made_canonical(path, true, answers) == AbsolutifyStep::<PathView, Seq<u8>>::Done(
                Ok(canonical),
            )
            &&& absolutify_start(path, true) matches AbsolutifyStep::Continue(state)
                && absolutify_request(state) == Request::<PathView, EventView>::Canonicalize(dir)
        }),
{
    let path = dir.push(Component::Normal(name));
    end_of_a_path_decides(dir, Component::Normal(name));
    absolutify_yields_the_canonical_path(path, true, answers);
}

/// A file in a directory that has no canonical form is added in that directory, or where
/// it leads if it is a link: a target that is not absolute is taken from where the link is.
pub proof fn file_is_added_where_its_directory_leads(
    dir: PathView,
    name: Seq<u8>,
    answers: Answers,
)
    requires
        dir.len() > 0,
        (answers.canonicalize)(dir) is Err,
    ensures
        ({
            let path = dir.push(Component::Normal(name));
            let found = absolutified(path, true, answers);
            &&& made_canonical(path, true, answers) == AbsolutifyStep::<PathView, Seq<u8>>::Done(
                found,
            )
            &&& match (answers.read_link)(dir) {
                Err(_) => found == Ok::<PathView, IoError>(path),
                Ok(target) => {
                    &&& found == Ok::<PathView, IoError>(
                        (if dir.last() is RootDir || dir.last() is Prefix {
                            target
                        } else {
                            taken_in(dir.drop_last(), target)
                        }).push(Component::Normal(name)),
                    )
                    &&& target.len() > 0 && target[0] is RootDir && dir[0] !is Prefix ==> found
                        == Ok::<PathView, IoError>(target.push(Component::Normal(name)))
                    &&& target.len() > 0 && (target[0] is Normal || target[0] is ParentDir) && !(
                    dir.last() is RootDir) && !(dir.last() is Prefix) ==> found == Ok::<
                        PathView,
                        IoError,
                    >((dir.drop_last() + target).push(Component::Normal(name)))
                },
            }
        }),
{
    let path = dir.push(Component::Normal(name));
    end_of_a_path_decides(dir, Component::Normal(name));
    end_of_a_path_decides(dir.drop_last(), dir.last());
    assert(dir =~= dir.drop_last().push(dir.last()));
    absolutify_yields_the_canonical_path(path, true, answers);
    if let Ok(target) = (answers.read_link)(dir) {
        paths_go_on_from_directories(dir.drop_last(), target, name);
        if dir.len() > 1 {
            assert(dir.drop_last()[0] == dir[0]);
        }
    }
}

/// A file that is named alone is the file of that name in the current directory, and
/// cannot be added if there is none.
pub proof fn file_that_is_named_alone_is_in_the_current_directory(
    name: Seq<u8>,
    answers: Answers,
)
    ensures
        ({
            let path = seq![Component::Normal(name)];
            match answers.current_dir {
                Err(error) => absolutified(path, true, answers) == Err::<PathView, IoError>(
                    IoError::System(error),
                ),
                Ok(dir) => dir.len() > 0 ==> absolutified(path, true, answers) == absolutified(
                    dir.push(Component::Normal(name)),
                    true,
                    answers,
                ),
            }
        }),
        made_canonical(seq![Component::Normal(name)], true, answers) == AbsolutifyStep::<
            PathView,
            Seq<u8>,
        >::Done(absolutified(seq![Component::Normal(name)], true, answers)),
{
    let path = seq![Component::Normal(name)];
    assert(path =~= Seq::<Component<Seq<u8>>>::empty().push(Component::Normal(name)));
    end_of_a_path_decides(Seq::empty(), Component::Normal(name));
    absolutify_yields_the_canonical_path(path, true, answers);
    if let Ok(dir) = answers.current_dir {
        end_of_a_path_decides(dir, Component::Normal(name));
    }
}

/// What does not end in an ordinary name is no file: if its directory is known, that is
/// the error, and otherwise the error is that the current directory is not.
pub proof fn file_needs_a_name(path: PathView, answers: Answers)
    requires
        path.len() == 0 || path.last() !is Normal,
    ensures
        absolutified(path, true, answers) == Err::<PathView, IoError>(
            if path.len() > 1 && (path.last() is CurDir || path.last() is ParentDir) {
                IoError::FilenameNotFound
            } else {
                match answers.current_dir {
                    Ok(_) => IoError::FilenameNotFound,
                    Err(error) => IoError::System(error),
                }
            },
        ),
        made_canonical(path, true, answers) == AbsolutifyStep::<PathView, Seq<u8>>::Done(
            absolutified(path, true, answers),
        ),
{
    absolutify_yields_the_canonical_path(path, true, answers);
    if path.len() > 0 {
        end_of_a_path_decides(path.drop_last(), path.last());
        assert(path =~= path.drop_last().push(path.last()));
    }
}

/// To make a directory canonical is to find where the files in it are added.
pub proof fn directory_is_made_canonical_as_its_files_are(
    dir: PathView,
    name: Seq<u8>,
    answers: Answers,
)
    requires
        dir.len() > 0,
    ensures
        absolutified(dir, false, answers) is Ok,
        absolutified(dir.push(Component::Normal(name)), true, answers) == Ok::<PathView, IoError>(
            absolutified(dir, false, answers)->Ok_0.push(Component::Normal(name)),
        ),
        made_canonical(dir, false, answers) == AbsolutifyStep::<PathView, Seq<u8>>::Done(
            absolutified(dir, false, answers),
        ),
{
    end_of_a_path_decides(dir, Component::Normal(name));
    absolutify_yields_the_canonical_path(dir, false, answers);
}

} // verus!
