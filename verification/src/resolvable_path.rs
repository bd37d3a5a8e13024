use vstd::prelude::*;
use vstd::std_specs::convert::FromSpecImpl;

use crate::path::{push_path, spec_join_all, spec_push};
use crate::path_element::{ElementKind, PathElement};

verus! {

/// The path that a sequence of elements resolves to: each element's text
/// pushed in turn onto an empty path.
pub open spec fn spec_resolve(elements: Seq<(ElementKind, Seq<char>)>) -> Seq<char> {
    spec_join_all(spec_texts(elements))
}

/// The text of each element.
pub open spec fn spec_texts(elements: Seq<(ElementKind, Seq<char>)>) -> Seq<Seq<char>> {
    elements.map_values(|e: (ElementKind, Seq<char>)| e.1)
}

/// A resolvable path.
#[derive(Debug)]
pub struct ResolvablePath {
    elements: Vec<PathElement>,
}

impl View for ResolvablePath {
    type V = Seq<(ElementKind, Seq<char>)>;

    closed spec fn view(&self) -> Seq<(ElementKind, Seq<char>)> {
        self.elements@.map_values(|e: PathElement| e@)
    }
}

impl Default for ResolvablePath {
    fn default() -> (r: Self)
        ensures
            r@ == Seq::<(ElementKind, Seq<char>)>::empty(),
    {
        ResolvablePath { elements: Vec::new() }
    }
}

impl Clone for ResolvablePath {
    fn clone(&self) -> (r: Self)
        ensures
            r@ == self@,
    {
        let mut elements: Vec<PathElement> = Vec::new();
        let n = self.elements.len();
        for i in 0..n
            invariant
                n == self.elements@.len(),
                elements@ == self.elements@.take(i as int),
        {
            elements.push(self.elements[i].clone());
            assert(elements@ =~= self.elements@.take(i + 1));
        }
        assert(self.elements@.take(n as int) =~= self.elements@);
        ResolvablePath { elements }
    }
}

impl ResolvablePath {
    /// Appends a [`PathElement`].
    pub fn append(self, element: PathElement) -> (r: Self)
        ensures
            r@ == self@.push(element@),
    {
        let mut elements = self.elements;
        elements.push(element);
        ResolvablePath { elements }
    }

    /// Appends all given [`ResolvablePath`] elements.
    pub fn append_all(self, path: ResolvablePath) -> (r: Self)
        ensures
            r@ == self@ + path@,
    {
        let mut elements = self.elements;
        let ghost start = elements@;
        let n = path.elements.len();
        for i in 0..n
            invariant
                n == path.elements@.len(),
                elements@ == start + path.elements@.take(i as int),
        {
            elements.push(path.elements[i].clone());
            assert(elements@ =~= start + path.elements@.take(i + 1));
        }
        assert(path.elements@.take(n as int) =~= path.elements@);
        ResolvablePath { elements }
    }

    /// Merges all path elements into a new [`ResolvablePath`].
    pub fn merge(&self) -> (r: Self)
        ensures
            r@.len() == 1,
            r@[0] == (ElementKind::Path, spec_resolve(self@)),
    {
        ResolvablePath::default().append(PathElement::Path(self.to_path()))
    }

    /// Returns the last element in the path.
    pub fn last(&self) -> (r: &PathElement)
        requires
            self@.len() > 0,
        ensures
            r@ == self@.last(),
    {
        self.elements.last().unwrap()
    }

    /// Returns `true` is the last element is an id.
    pub fn has_id(&self) -> (r: bool)
        requires
            self@.len() > 0,
        ensures
            r == (self@.last().0 == ElementKind::Id),
    {
        matches!(self.last(), PathElement::Id(_))
    }

    /// Returns the number of elements in the path.
    pub fn count(&self) -> (r: usize)
        ensures
            r == self@.len(),
    {
        self.elements.len()
    }

    /// The path that the elements resolve to: the text of each element
    /// pushed in turn onto an empty path.
    pub fn to_path(&self) -> (r: String)
        ensures
            r@ == spec_resolve(self@),
    {
        let ghost texts = spec_texts(self@);
        let mut path = String::new();
        let n = self.elements.len();
        for i in 0..n
            invariant
                n == self@.len(),
                texts == spec_texts(self@),
                path@ == spec_join_all(texts.take(i as int)),
        {
            push_path(&mut path, self.elements[i].as_str());
            assert(texts.take(i + 1).drop_last() =~= texts.take(i as int));
        }
        assert(texts.take(n as int) =~= texts);
        path
    }
}

impl<'a> From<&'a str> for ResolvablePath {
    fn from(value: &'a str) -> (r: ResolvablePath)
        ensures
            r@.len() == 1,
            r@[0] == (ElementKind::Path, value@),
    {
        ResolvablePath::default().append(PathElement::Path(value.to_owned()))
    }
}

impl<'a> FromSpecImpl<&'a str> for ResolvablePath {
    open spec fn obeys_from_spec() -> bool {
        false
    }

    open spec fn from_spec(v: &'a str) -> ResolvablePath {
        arbitrary()
    }
}

} // verus!
