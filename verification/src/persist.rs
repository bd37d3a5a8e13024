use vstd::prelude::*;

use crate::expand_strategy::ExpandStrategy;
use crate::path::is_absolute;
use crate::path_element::{ElementKind, PathElement};
use crate::resolvable_path::ResolvablePath;

verus! {

/// The file name of the strategy, if any, is not absolute.
pub open spec fn spec_relative_strategy(strategy: Option<ExpandStrategy>) -> bool {
    match strategy {
        Some(s) => !is_absolute(s.name()),
        None => true,
    }
}

/// The digit that stands for `d`, for `d < 10`.
pub open spec fn spec_digit(d: nat) -> char {
    ('0' as nat + d) as char
}

/// The decimal representation of `n`, most significant digit first, with no
/// leading zero.
pub open spec fn spec_decimal(n: nat) -> Seq<char>
    decreases n,
{
    if n < 10 {
        seq![spec_digit(n)]
    } else {
        spec_decimal(n / 10).push(spec_digit(n % 10))
    }
}

/// Formats `n` with `ToString::to_string`, whose `Display` implementation
/// for unsigned integers writes the decimal digits of `n`, most significant
/// first, with no sign and no leading zero.
#[verifier::external_body]
fn decimal_string(n: usize) -> (r: String)
    ensures
        r@ == spec_decimal(n as nat),
{
    n.to_string()
}

/// An entity, as an implementation of the persisting trait reports it: the
/// path where it is persisted, the strategy used to expand its children, the
/// handle of the value to serialize, if any, and its children, each with the
/// path that qualifies it.
#[derive(Debug)]
pub struct Entity {
    /// The path where the entity will be persisted.
    pub path: ResolvablePath,
    /// The strategy used to expand children.
    pub expand_strategy: Option<ExpandStrategy>,
    /// The handle of the value that will be serialized.
    pub serializable: Option<usize>,
    /// The entity children.
    pub children: Vec<(String, Child)>,
}

/// A child.
#[derive(Debug)]
pub enum Child {
    /// An entity child.
    Entity(Entity),
    /// A children collection.
    Collection(Vec<Child>),
}

impl Child {
    /// The path elements of the child: those of an entity; none for a
    /// collection.
    pub open spec fn spec_path(self) -> Seq<(ElementKind, Seq<char>)> {
        match self {
            Child::Entity(e) => e.path@,
            Child::Collection(_) => Seq::empty(),
        }
    }

    /// The expand strategy of the child: that of an entity; none for a
    /// collection.
    pub open spec fn spec_expand_strategy(self) -> Option<ExpandStrategy> {
        match self {
            Child::Entity(e) => e.expand_strategy,
            Child::Collection(_) => None,
        }
    }

    /// The handle of the value to serialize: that of an entity; none for a
    /// collection.
    pub open spec fn spec_serializable(self) -> Option<usize> {
        match self {
            Child::Entity(e) => e.serializable,
            Child::Collection(_) => None,
        }
    }

    /// The number of children.
    pub open spec fn spec_child_count(self) -> nat {
        match self {
            Child::Entity(e) => e.children@.len(),
            Child::Collection(items) => items@.len(),
        }
    }

    /// The `i`-th child.
    pub open spec fn spec_child(self, i: int) -> Child {
        match self {
            Child::Entity(e) => e.children@[i].1,
            Child::Collection(items) => items@[i],
        }
    }

    /// The path qualifying the `i`-th child: the one given by an entity; for
    /// an item of a collection, nothing when the item's path ends with an id,
    /// else (an empty path included) the item's index in decimal.
    pub open spec fn spec_child_name(self, i: int) -> Seq<char> {
        match self {
            Child::Entity(e) => e.children@[i].0@,
            Child::Collection(items) => if items@[i].spec_path().len() > 0
                && items@[i].spec_path().last().0 == ElementKind::Id {
                Seq::empty()
            } else {
                spec_decimal(i as nat)
            },
        }
    }

    /// No path element, child qualifier or strategy file name in the child
    /// or its descendants is absolute.
    pub open spec fn relative(self) -> bool
        decreases self,
    {
        match self {
            Child::Entity(e) => {
                &&& forall|i: int| 0 <= i < e.path@.len() ==> !is_absolute(#[trigger] e.path@[i].1)
                &&& spec_relative_strategy(e.expand_strategy)
                &&& forall|i: int|
                    0 <= i < e.children@.len() ==> !is_absolute((#[trigger] e.children@[i]).0@)
                        && e.children@[i].1.relative()
            },
            Child::Collection(items) => forall|i: int|
                0 <= i < items@.len() ==> (#[trigger] items@[i]).relative(),
        }
    }

    /// Creates a new entity child.
    pub fn entity(entity: Entity) -> (r: Self)
        ensures
            r == Child::Entity(entity),
    {
        Child::Entity(entity)
    }

    /// Creates a new collection of entities.
    pub fn collection(entities: Vec<Entity>) -> (r: Self)
        ensures
            r is Collection,
            r.spec_child_count() == entities@.len(),
            forall|i: int|
                0 <= i < entities@.len() ==> #[trigger] r.spec_child(i) == Child::Entity(
                    entities@[i],
                ),
    {
        let mut entities = entities;
        let ghost start = entities@;
        let mut reversed: Vec<Child> = Vec::new();
        while entities.len() > 0
            invariant
                entities@.len() + reversed@.len() == start.len(),
                entities@ == start.take(entities@.len() as int),
                forall|j: int|
                    0 <= j < reversed@.len() ==> #[trigger] reversed@[j] == Child::Entity(
                        start[start.len() - 1 - j],
                    ),
            decreases entities@.len(),
        {
            let e = entities.pop().unwrap();
            reversed.push(Child::Entity(e));
            assert(entities@ =~= start.take(entities@.len() as int));
        }
        let mut items: Vec<Child> = Vec::new();
        while reversed.len() > 0
            invariant
                items@.len() + reversed@.len() == start.len(),
                forall|j: int|
                    0 <= j < reversed@.len() ==> #[trigger] reversed@[j] == Child::Entity(
                        start[start.len() - 1 - j],
                    ),
                forall|j: int|
                    0 <= j < items@.len() ==> #[trigger] items@[j] == Child::Entity(start[j]),
            decreases reversed@.len(),
        {
            let c = reversed.pop().unwrap();
            items.push(c);
        }
        Child::Collection(items)
    }

    /// The path where the child will be persisted.
    pub fn path(&self) -> (r: ResolvablePath)
        ensures
            r@ == self.spec_path(),
    {
        match self {
            Child::Entity(e) => e.path.clone(),
            Child::Collection(_) => ResolvablePath::default(),
        }
    }

    /// The strategy used to expand children.
    pub fn expand_strategy(&self) -> (r: Option<ExpandStrategy>)
        ensures
            r == self.spec_expand_strategy(),
    {
        match self {
            Child::Entity(e) => match &e.expand_strategy {
                Some(s) => Some(s.clone()),
                None => None,
            },
            Child::Collection(_) => None,
        }
    }

    /// The handle of the value that will be serialized.
    pub fn serializable(&self) -> (r: Option<usize>)
        ensures
            r == self.spec_serializable(),
    {
        match self {
            Child::Entity(e) => e.serializable,
            Child::Collection(_) => None,
        }
    }

    /// The number of children.
    pub fn child_count(&self) -> (r: usize)
        ensures
            r == self.spec_child_count(),
    {
        match self {
            Child::Entity(e) => e.children.len(),
            Child::Collection(items) => items.len(),
        }
    }

    /// The `i`-th child.
    pub fn child(&self, i: usize) -> (r: &Child)
        requires
            i < self.spec_child_count(),
        ensures
            *r == self.spec_child(i as int),
    {
        match self {
            Child::Entity(e) => &e.children[i].1,
            Child::Collection(items) => &items[i],
        }
    }

    /// The children, each with the path qualifying it.
    pub fn children(&self) -> (r: Vec<(String, &Child)>)
        ensures
            r@.len() == self.spec_child_count(),
            forall|i: int|
                0 <= i < r@.len() ==> (#[trigger] r@[i]).0@ == self.spec_child_name(i) && *r@[i].1
                    == self.spec_child(i),
    {
        let mut children: Vec<(String, &Child)> = Vec::new();
        let n = self.child_count();
        for i in 0..n
            invariant
                n == self.spec_child_count(),
                children@.len() == i,
                forall|j: int|
                    0 <= j < i ==> (#[trigger] children@[j]).0@ == self.spec_child_name(j)
                        && *children@[j].1 == self.spec_child(j),
        {
            children.push((self.child_name(i), self.child(i)));
        }
        children
    }

    /// The path qualifying the `i`-th child.
    pub fn child_name(&self, i: usize) -> (r: String)
        requires
            i < self.spec_child_count(),
        ensures
            r@ == self.spec_child_name(i as int),
    {
        match self {
            Child::Entity(e) => e.children[i].0.clone(),
            Child::Collection(items) => {
                let item_path = items[i].path();
                if item_path.count() > 0 && item_path.has_id() {
                    String::new()
                } else {
                    decimal_string(i)
                }
            },
        }
    }
}

} // verus!
