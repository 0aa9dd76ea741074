//! Paths as sequences of components.
use vstd::prelude::*;

verus! {

/// One component of a path; `N` is the type of its name.
#[derive(Debug, PartialEq, Eq, Hash)]
pub enum Component<N> {
    /// A prefix of the platform, such as a drive or a share.
    Prefix(N),
    /// The root directory, behind any prefix and before anything else.
    RootDir,
    /// A reference to the current directory.
    CurDir,
    /// A reference to the parent directory.
    ParentDir,
    /// An ordinary name.
    Normal(N),
}

/// A path as contracts speak of it: the sequence of its components. Two paths
/// are the same path exactly if they have the same components.
pub type PathView = Seq<Component<Seq<u8>>>;

impl View for Component<Vec<u8>> {
    type V = Component<Seq<u8>>;

    open spec fn view(&self) -> Component<Seq<u8>> {
        match self {
            Component::Prefix(name) => Component::Prefix(name@),
            Component::RootDir => Component::RootDir,
            Component::CurDir => Component::CurDir,
            Component::ParentDir => Component::ParentDir,
            Component::Normal(name) => Component::Normal(name@),
        }
    }
}

/// The path without its final component: `None` for the empty path and for one
/// that ends in a root or a prefix.
pub open spec fn parent_of(path: PathView) -> Option<PathView> {
    if path.len() == 0 || path.last() is Prefix || path.last() is RootDir {
        None
    } else {
        Some(path.drop_last())
    }
}

/// The final component of the path, if that is an ordinary name.
pub open spec fn file_name_of(path: PathView) -> Option<Seq<u8>> {
    if path.len() > 0 && path.last() is Normal {
        Some(path.last()->Normal_0)
    } else {
        None
    }
}

/// The path of the entry `name` in the directory `dir`.
pub open spec fn joined(dir: PathView, name: Seq<u8>) -> PathView {
    dir.push(Component::Normal(name))
}

/// Whether the path does not depend on the current directory.
pub open spec fn is_absolute(path: PathView) -> bool {
    path.len() > 0 && (path[0] is RootDir || (path[0] is Prefix && path.len() > 1
        && path[1] is RootDir))
}

/// The prefix of the platform that the path has, or nothing.
pub open spec fn prefix_of(path: PathView) -> PathView {
    if path.len() > 0 && path[0] is Prefix {
        path.take(1)
    } else {
        Seq::empty()
    }
}

/// Where the path leads if it is taken in the directory `dir`: a path with a prefix of
/// its own stands for itself, one with a root replaces all but the prefix of the
/// directory, and any other goes on from the directory. A reference to the current
/// directory counts at the beginning of a path alone.
pub open spec fn taken_in(dir: PathView, path: PathView) -> PathView {
    if path.len() == 0 {
        dir
    } else if path[0] is Prefix {
        path
    } else if path[0] is RootDir {
        prefix_of(dir) + path
    } else if path[0] is CurDir && dir != prefix_of(dir) {
        dir + path.drop_first()
    } else {
        dir + path
    }
}

/// Whether two names hold the same bytes.
fn same_name(a: &Vec<u8>, b: &Vec<u8>) -> (same: bool)
    ensures
        same == (a@ == b@),
{
    if a.len() != b.len() {
        return false;
    }
    let mut i: usize = 0;
    while i < a.len()
        invariant
            i <= a.len(),
            a.len() == b.len(),
            forall|j: int| 0 <= j < i ==> a@[j] == b@[j],
        decreases a.len() - i,
    {
        if a[i] != b[i] {
            return false;
        }
        i += 1;
    }
    assert(a@ =~= b@);
    true
}

/// Whether two components are the same.
fn same_component(a: &Component<Vec<u8>>, b: &Component<Vec<u8>>) -> (same: bool)
    ensures
        same == (a@ == b@),
{
    match (a, b) {
        (Component::Prefix(m), Component::Prefix(n)) => same_name(m, n),
        (Component::RootDir, Component::RootDir) => true,
        (Component::CurDir, Component::CurDir) => true,
        (Component::ParentDir, Component::ParentDir) => true,
        (Component::Normal(m), Component::Normal(n)) => same_name(m, n),
        _ => false,
    }
}

/// A copy of a name.
fn copy_name(name: &Vec<u8>) -> (copy: Vec<u8>)
    ensures
        copy@ == name@,
{
    let copy = name.clone();
    assert(copy@ =~= name@);
    copy
}

/// A copy of a component.
fn copy_component(component: &Component<Vec<u8>>) -> (copy: Component<Vec<u8>>)
    ensures
        copy@ == component@,
{
    match component {
        Component::Prefix(name) => Component::Prefix(copy_name(name)),
        Component::RootDir => Component::RootDir,
        Component::CurDir => Component::CurDir,
        Component::ParentDir => Component::ParentDir,
        Component::Normal(name) => Component::Normal(copy_name(name)),
    }
}

/// The path of a file or a directory.
#[derive(Debug, Eq, Hash)]
pub struct FilePath {
    components: Vec<Component<Vec<u8>>>,
}

impl View for FilePath {
    type V = PathView;

    closed spec fn view(&self) -> PathView {
        Seq::new(self.components@.len(), |i: int| self.components@[i]@)
    }
}

impl FilePath {
    /// The path with the given components.
    pub fn new(components: Vec<Component<Vec<u8>>>) -> (path: FilePath)
        ensures
            path@ == Seq::new(components@.len(), |i: int| components@[i]@),
    {
        FilePath { components }
    }

    /// The components of the path.
    pub fn components(&self) -> (components: &Vec<Component<Vec<u8>>>)
        ensures
            self@ == Seq::new(components@.len(), |i: int| components@[i]@),
    {
        &self.components
    }

    /// Whether this is the empty path.
    pub fn is_empty(&self) -> (empty: bool)
        ensures
            empty == (self@.len() == 0),
    {
        self.components.len() == 0
    }

    /// The path without its final component, if there is one.
    pub fn parent(&self) -> (parent: Option<FilePath>)
        ensures
            match parent {
                Some(dir) => parent_of(self@) == Some(dir@),
                None => parent_of(self@) is None,
            },
    {
        let len = self.components.len();
        if len == 0 {
            return None;
        }
        match &self.components[len - 1] {
            Component::Prefix(_) => None,
            Component::RootDir => None,
            _ => {
                let dir = self.prefix(len - 1);
                assert(dir@ =~= self@.drop_last());
                Some(dir)
            },
        }
    }

    /// The path made of the first `len` components.
    fn prefix(&self, len: usize) -> (path: FilePath)
        requires
            len <= self@.len(),
        ensures
            path@ == self@.take(len as int),
    {
        let mut components: Vec<Component<Vec<u8>>> = Vec::new();
        let mut i: usize = 0;
        while i < len
            invariant
                i <= len <= self.components@.len(),
                components@.len() == i,
                forall|j: int| 0 <= j < i ==> (#[trigger] components@[j])@ == self.components@[j]@,
            decreases len - i,
        {
            components.push(copy_component(&self.components[i]));
            i += 1;
        }
        let path = FilePath { components };
        assert(path@ =~= self@.take(len as int));
        path
    }

    /// The final component of the path, if that is an ordinary name.
    pub fn file_name(&self) -> (name: Option<Vec<u8>>)
        ensures
            match name {
                Some(name) => file_name_of(self@) == Some(name@),
                None => file_name_of(self@) is None,
            },
    {
        let len = self.components.len();
        if len == 0 {
            return None;
        }
        match &self.components[len - 1] {
            Component::Normal(name) => Some(copy_name(name)),
            _ => None,
        }
    }

    /// The path of the entry `name` in this directory.
    pub fn join(self, name: Vec<u8>) -> (path: FilePath)
        ensures
            path@ == joined(self@, name@),
    {
        let mut components = self.components;
        components.push(Component::Normal(name));
        let path = FilePath { components };
        assert(path@ =~= joined(self@, name@));
        path
    }

    /// The path with the components of another one behind its own, but for the first
    /// `skip` of them.
    fn followed_by(self, path: &FilePath, skip: usize) -> (whole: FilePath)
        requires
            skip <= path@.len(),
        ensures
            whole@ == self@ + path@.skip(skip as int),
    {
        let ghost before = self@;
        let mut whole = self;
        let mut i: usize = skip;
        while i < path.components.len()
            invariant
                skip <= i <= path.components@.len(),
                whole@ == before + path@.subrange(skip as int, i as int),
            decreases path.components.len() - i,
        {
            let ghost so_far = whole@;
            whole.components.push(copy_component(&path.components[i]));
            i += 1;
            assert(whole@ =~= so_far.push(path@[i - 1]));
            assert(path@.subrange(skip as int, i as int) =~= path@.subrange(
                skip as int,
                i - 1,
            ).push(path@[i - 1]));
        }
        assert(path@.subrange(skip as int, i as int) =~= path@.skip(skip as int));
        whole
    }

    /// Where the path leads if it is taken in this directory.
    pub fn take_in(self, path: FilePath) -> (whole: FilePath)
        ensures
            whole@ == taken_in(self@, path@),
    {
        if path.components.len() == 0 {
            return self;
        }
        let prefixed = self.components.len() > 0 && matches!(
            &self.components[0],
            Component::Prefix(_)
        );
        assert(prefixed ==> self@[0] is Prefix);
        match &path.components[0] {
            Component::Prefix(_) => path,
            Component::RootDir => {
                if prefixed {
                    let whole = self.prefix(1).followed_by(&path, 0);
                    assert(path@.skip(0) =~= path@);
                    whole
                } else {
                    assert(prefix_of(self@) + path@ =~= path@);
                    path
                }
            },
            Component::CurDir => {
                let alone = self.components.len() == 0 || (prefixed && self.components.len() == 1);
                assert(alone == (self@ == prefix_of(self@))) by {
                    if alone {
                        assert(self@ =~= prefix_of(self@));
                    }
                }
                if alone {
                    assert(path@.skip(0) =~= path@);
                    self.followed_by(&path, 0)
                } else {
                    assert(path@.skip(1) =~= path@.drop_first());
                    self.followed_by(&path, 1)
                }
            },
            _ => {
                assert(path@.skip(0) =~= path@);
                self.followed_by(&path, 0)
            },
        }
    }
}

impl Clone for FilePath {
    fn clone(&self) -> (copy: FilePath)
        ensures
            copy@ == self@,
    {
        let copy = self.prefix(self.components.len());
        assert(copy@ =~= self@);
        copy
    }
}

impl PartialEq for FilePath {
    fn eq(&self, other: &FilePath) -> (same: bool) {
        if self.components.len() != other.components.len() {
            assert(self@.len() != other@.len());
            return false;
        }
        let mut i: usize = 0;
        while i < self.components.len()
            invariant
                i <= self.components.len(),
                self.components.len() == other.components.len(),
                forall|j: int|
                    0 <= j < i ==> (#[trigger] self.components@[j])@ == other.components@[j]@,
            decreases self.components.len() - i,
        {
            if !same_component(&self.components[i], &other.components[i]) {
                assert(self@[i as int] != other@[i as int]);
                return false;
            }
            i += 1;
        }
        assert(self@ =~= other@);
        true
    }
}

impl vstd::std_specs::cmp::PartialEqSpecImpl for FilePath {
    open spec fn obeys_eq_spec() -> bool {
        true
    }

    open spec fn eq_spec(&self, other: &FilePath) -> bool {
        self@ == other@
    }
}

/// A path that ends in an ordinary name is that name in its parent directory.
pub proof fn file_path_is_name_in_parent(path: PathView)
    requires
        file_name_of(path) is Some,
    ensures
        parent_of(path) is Some,
        joined(parent_of(path)->0, file_name_of(path)->0) == path,
{
    assert(path =~= path.drop_last().push(path.last()));
}

/// What is put into a directory by name has that directory as its parent and
/// that name as its file name.
pub proof fn joined_path_has_parent_and_name(dir: PathView, name: Seq<u8>)
    ensures
        parent_of(joined(dir, name)) == Some(dir),
        file_name_of(joined(dir, name)) == Some(name),
{
    assert(joined(dir, name).drop_last() =~= dir);
}

} // verus!
