use vstd::prelude::*;
use vstd::std_specs::convert::FromSpecImpl;

verus! {

/// The kind of a path element.
#[derive(Debug, Clone, Copy, PartialEq, Eq, Structural)]
pub enum ElementKind {
    /// A regular path.
    Path,
    /// A path corresponding to an id.
    Id,
    /// A path qualifying a child.
    ChildQualifier,
}

/// A path element.
#[derive(Debug)]
pub enum PathElement {
    /// A regular path.
    Path(String),
    /// A path corresponding to an id.
    Id(String),
    /// A path qualifying a child.
    ChildQualifier(String),
}

impl View for PathElement {
    type V = (ElementKind, Seq<char>);

    open spec fn view(&self) -> (ElementKind, Seq<char>) {
        match self {
            PathElement::Path(p) => (ElementKind::Path, p@),
            PathElement::Id(p) => (ElementKind::Id, p@),
            PathElement::ChildQualifier(p) => (ElementKind::ChildQualifier, p@),
        }
    }
}

impl PathElement {
    /// The text of the element, whatever its kind.
    pub open spec fn text(self) -> Seq<char> {
        self@.1
    }

    /// The text of the element, borrowed.
    pub fn as_str(&self) -> (r: &str)
        ensures
            r@ == self.text(),
    {
        match self {
            PathElement::Path(p) => p.as_str(),
            PathElement::Id(p) => p.as_str(),
            PathElement::ChildQualifier(p) => p.as_str(),
        }
    }
}

impl Clone for PathElement {
    fn clone(&self) -> (r: Self)
        ensures
            r == *self,
    {
        match self {
            PathElement::Path(p) => PathElement::Path(p.clone()),
            PathElement::Id(p) => PathElement::Id(p.clone()),
            PathElement::ChildQualifier(p) => PathElement::ChildQualifier(p.clone()),
        }
    }
}

impl From<PathElement> for String {
    fn from(value: PathElement) -> (r: String) {
        match value {
            PathElement::Path(p) => p,
            PathElement::Id(p) => p,
            PathElement::ChildQualifier(p) => p,
        }
    }
}

impl FromSpecImpl<PathElement> for String {
    open spec fn obeys_from_spec() -> bool {
        true
    }

    open spec fn from_spec(v: PathElement) -> String {
        match v {
            PathElement::Path(p) => p,
            PathElement::Id(p) => p,
            PathElement::ChildQualifier(p) => p,
        }
    }
}

} // verus!
