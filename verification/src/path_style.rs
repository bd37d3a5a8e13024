use vstd::prelude::*;
use vstd::std_specs::cmp::PartialEqSpecImpl;
use vstd::std_specs::convert::FromSpecImpl;

use crate::expand_strategy::spec_unique_folder_path;
use crate::path::{push_path, spec_push};
use crate::path_element::{ElementKind, PathElement};
use crate::resolvable_path::{spec_resolve, ResolvablePath};

verus! {

/// A path style is used to determine the file name of the entity being
/// persisted. It's also used to determine the path of the entity's fields
/// that are persisted separately.
///
/// With `PathStyle::SameFileNameInSeparateFolders(name)`, an entity is
/// written to `./name` and a field persisted separately to `./field/name`;
/// with `PathStyle::DifferentFileNameInSameFolder(name)`, to `./name` and
/// `./field`.
#[derive(Debug, Hash)]
pub enum PathStyle {
    /// Persists each child in a different folder.
    SameFileNameInSeparateFolders(String),
    /// Persists each child in the same folder.
    DifferentFileNameInSameFolder(String),
}

impl PathStyle {
    /// The path that [`PathStyle::resolve_path`] gives.
    pub open spec fn spec_resolve_path(self, elements: Seq<(ElementKind, Seq<char>)>, child_count: nat) -> Seq<
        char,
    > {
        match self {
            PathStyle::SameFileNameInSeparateFolders(name) => spec_push(
                spec_resolve(elements),
                name@,
            ),
            PathStyle::DifferentFileNameInSameFolder(name) => spec_unique_folder_path(
                name@,
                elements,
                child_count,
            ),
        }
    }

    /// Compute the paths as folders: with `file_name` set to "index", an
    /// entity is persisted to `./index` and a persistable field `address`
    /// to `./address/index`.
    pub fn as_folders(file_name: &str) -> (r: Self)
        ensures
            r matches PathStyle::SameFileNameInSeparateFolders(name) && name@ == file_name@,
    {
        PathStyle::SameFileNameInSeparateFolders(file_name.to_owned())
    }

    /// Compute the paths as files: with `file_name` set to "order", an
    /// entity is persisted to `./order` and a persistable field `factory`
    /// to `./factory`.
    pub fn as_files(file_name: &str) -> (r: Self)
        ensures
            r matches PathStyle::DifferentFileNameInSameFolder(name) && name@ == file_name@,
    {
        PathStyle::DifferentFileNameInSameFolder(file_name.to_owned())
    }

    /// Resolves a [`ResolvablePath`] to a path.
    pub fn resolve_path(&self, resolvable: &ResolvablePath, child_count: usize) -> (r: String)
        ensures
            r@ == self.spec_resolve_path(resolvable@, child_count as nat),
    {
        let mut path = resolvable.to_path();
        match self {
            PathStyle::SameFileNameInSeparateFolders(name) => {
                push_path(&mut path, name.as_str());
                path
            },
            PathStyle::DifferentFileNameInSameFolder(name) => {
                if resolvable.count() > 1 && (child_count == 0 || matches!(
                    resolvable.last(),
                    PathElement::ChildQualifier(_)
                )) {
                    path
                } else {
                    push_path(&mut path, name.as_str());
                    path
                }
            },
        }
    }
}

impl Clone for PathStyle {
    fn clone(&self) -> (r: Self)
        ensures
            r == *self,
    {
        match self {
            PathStyle::SameFileNameInSeparateFolders(name) => PathStyle::SameFileNameInSeparateFolders(
                name.clone(),
            ),
            PathStyle::DifferentFileNameInSameFolder(name) => PathStyle::DifferentFileNameInSameFolder(
                name.clone(),
            ),
        }
    }
}

impl PartialEq for PathStyle {
    fn eq(&self, other: &Self) -> (r: bool) {
        match (self, other) {
            (
                PathStyle::SameFileNameInSeparateFolders(a),
                PathStyle::SameFileNameInSeparateFolders(b),
            ) => *a == *b,
            (
                PathStyle::DifferentFileNameInSameFolder(a),
                PathStyle::DifferentFileNameInSameFolder(b),
            ) => *a == *b,
            _ => false,
        }
    }
}

impl PartialEqSpecImpl for PathStyle {
    open spec fn obeys_eq_spec() -> bool {
        true
    }

    open spec fn eq_spec(&self, other: &PathStyle) -> bool {
        match (self, other) {
            (
                PathStyle::SameFileNameInSeparateFolders(a),
                PathStyle::SameFileNameInSeparateFolders(b),
            ) => a@ == b@,
            (
                PathStyle::DifferentFileNameInSameFolder(a),
                PathStyle::DifferentFileNameInSameFolder(b),
            ) => a@ == b@,
            _ => false,
        }
    }
}

impl Eq for PathStyle {

}

impl Default for PathStyle {
    fn default() -> (r: Self)
        ensures
            r matches PathStyle::DifferentFileNameInSameFolder(name) && name@ == seq![
                'd',
                'a',
                't',
                'a',
            ],
    {
        let name = String::from_str("data");
        proof {
            reveal_strlit("data");
            assert(name@ =~= seq!['d', 'a', 't', 'a']);
        }
        PathStyle::DifferentFileNameInSameFolder(name)
    }
}

impl From<String> for PathStyle {
    fn from(value: String) -> (r: PathStyle) {
        PathStyle::DifferentFileNameInSameFolder(value)
    }
}

impl FromSpecImpl<String> for PathStyle {
    open spec fn obeys_from_spec() -> bool {
        true
    }

    open spec fn from_spec(v: String) -> PathStyle {
        PathStyle::DifferentFileNameInSameFolder(v)
    }
}

impl<'a> From<&'a str> for PathStyle {
    fn from(s: &'a str) -> (r: PathStyle)
        ensures
            r matches PathStyle::DifferentFileNameInSameFolder(name) && name@ == s@,
    {
        PathStyle::as_files(s)
    }
}

impl<'a> FromSpecImpl<&'a str> for PathStyle {
    open spec fn obeys_from_spec() -> bool {
        false
    }

    open spec fn from_spec(v: &'a str) -> PathStyle {
        arbitrary()
    }
}

} // verus!
