use vstd::prelude::*;
use vstd::std_specs::cmp::PartialEqSpecImpl;
use vstd::std_specs::convert::FromSpecImpl;

use crate::path::{push_path, spec_push};
use crate::path_element::{ElementKind, PathElement};
use crate::path_style::PathStyle;
use crate::resolvable_path::{spec_resolve, ResolvablePath};

verus! {

/// An expand strategy defines how.
#[derive(Debug, Hash)]
pub enum ExpandStrategy {
    /// Persists each child in a different folder.
    SeparateFolders(String),
    /// Persists each child in the same folder.
    UniqueFolder(String),
}

/// Where an entity whose path elements are `elements` and which has
/// `child_count` children is written when its children go in one folder:
/// in its own path when that path has more than one element and the entity
/// either has no child or is qualified as a child, else in a file `name`
/// under that path.
pub open spec fn spec_unique_folder_path(
    name: Seq<char>,
    elements: Seq<(ElementKind, Seq<char>)>,
    child_count: nat,
) -> Seq<char> {
    if elements.len() > 1 && (child_count == 0 || elements.last().0 == ElementKind::ChildQualifier) {
        spec_resolve(elements)
    } else {
        spec_push(spec_resolve(elements), name)
    }
}

impl ExpandStrategy {
    /// The file name that the strategy carries.
    pub open spec fn name(self) -> Seq<char> {
        match self {
            ExpandStrategy::SeparateFolders(name) => name@,
            ExpandStrategy::UniqueFolder(name) => name@,
        }
    }

    /// The path that [`ExpandStrategy::resolve_path`] gives.
    pub open spec fn spec_resolve_path(self, elements: Seq<(ElementKind, Seq<char>)>, child_count: nat) -> Seq<
        char,
    > {
        match self {
            ExpandStrategy::SeparateFolders(name) => spec_push(spec_resolve(elements), name@),
            ExpandStrategy::UniqueFolder(name) => spec_unique_folder_path(
                name@,
                elements,
                child_count,
            ),
        }
    }

    /// Resolves a [`ResolvablePath`] to a path.
    pub fn resolve_path(&self, resolvable: &ResolvablePath, child_count: usize) -> (r: String)
        ensures
            r@ == self.spec_resolve_path(resolvable@, child_count as nat),
    {
        let mut path = resolvable.to_path();
        match self {
            ExpandStrategy::SeparateFolders(name) => {
                push_path(&mut path, name.as_str());
                path
            },
            ExpandStrategy::UniqueFolder(name) => {
                if resolvable.count() > 1 && (child_count == 0 || matches!(
                    resolvable.last(),
                    PathElement::ChildQualifier(_)
                )) {
                    path
                } else {
                    push_path(&mut path, name.as_str());
                    path
                }
            },
        }
    }
}

impl Clone for ExpandStrategy {
    fn clone(&self) -> (r: Self)
        ensures
            r == *self,
    {
        match self {
            ExpandStrategy::SeparateFolders(name) => ExpandStrategy::SeparateFolders(name.clone()),
            ExpandStrategy::UniqueFolder(name) => ExpandStrategy::UniqueFolder(name.clone()),
        }
    }
}

impl PartialEq for ExpandStrategy {
    fn eq(&self, other: &Self) -> (r: bool) {
        match (self, other) {
            (ExpandStrategy::SeparateFolders(a), ExpandStrategy::SeparateFolders(b)) => *a == *b,
            (ExpandStrategy::UniqueFolder(a), ExpandStrategy::UniqueFolder(b)) => *a == *b,
            _ => false,
        }
    }
}

impl PartialEqSpecImpl for ExpandStrategy {
    open spec fn obeys_eq_spec() -> bool {
        true
    }

    open spec fn eq_spec(&self, other: &ExpandStrategy) -> bool {
        match (self, other) {
            (ExpandStrategy::SeparateFolders(a), ExpandStrategy::SeparateFolders(b)) => a@ == b@,
            (ExpandStrategy::UniqueFolder(a), ExpandStrategy::UniqueFolder(b)) => a@ == b@,
            _ => false,
        }
    }
}

impl Eq for ExpandStrategy {

}

/// The strategy used where none is given: one folder, file name `data`.
pub open spec fn is_default_strategy(s: ExpandStrategy) -> bool {
    s matches ExpandStrategy::UniqueFolder(name) && name@ == seq!['d', 'a', 't', 'a']
}

impl Default for ExpandStrategy {
    fn default() -> (r: Self)
        ensures
            is_default_strategy(r),
    {
        let name = String::from_str("data");
        proof {
            reveal_strlit("data");
            assert(name@ =~= seq!['d', 'a', 't', 'a']);
        }
        ExpandStrategy::UniqueFolder(name)
    }
}

/// The expand strategy that a path style converts to: separate folders for
/// the same file name in separate folders, one folder for different file
/// names in the same folder, with the same file name.
pub open spec fn spec_strategy_of_style(style: PathStyle) -> ExpandStrategy {
    match style {
        PathStyle::SameFileNameInSeparateFolders(name) => ExpandStrategy::SeparateFolders(name),
        PathStyle::DifferentFileNameInSameFolder(name) => ExpandStrategy::UniqueFolder(name),
    }
}

impl From<PathStyle> for ExpandStrategy {
    fn from(value: PathStyle) -> (r: ExpandStrategy) {
        match value {
            PathStyle::SameFileNameInSeparateFolders(name) => ExpandStrategy::SeparateFolders(name),
            PathStyle::DifferentFileNameInSameFolder(name) => ExpandStrategy::UniqueFolder(name),
        }
    }
}

impl FromSpecImpl<PathStyle> for ExpandStrategy {
    open spec fn obeys_from_spec() -> bool {
        true
    }

    open spec fn from_spec(v: PathStyle) -> ExpandStrategy {
        spec_strategy_of_style(v)
    }
}

} // verus!
