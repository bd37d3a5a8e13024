use vstd::prelude::*;

use crate::expand_strategy::ExpandStrategy;
use crate::path_element::{ElementKind, PathElement};
use crate::persist::Child;
use crate::resolvable_path::ResolvablePath;

verus! {

/// A file to write: where, and the handle of the value to serialize there.
#[derive(Debug)]
pub struct Write {
    /// The path of the file, extension included.
    pub path: String,
    /// The handle of the value to serialize.
    pub serializable: usize,
}

impl View for Write {
    type V = (Seq<char>, usize);

    open spec fn view(&self) -> (Seq<char>, usize) {
        (self.path@, self.serializable)
    }
}

/// The strategy given if any, else the one of the entity.
pub open spec fn spec_or(
    given: Option<ExpandStrategy>,
    own: Option<ExpandStrategy>,
) -> Option<ExpandStrategy> {
    if given is Some {
        given
    } else {
        own
    }
}

/// The path of the file holding an entity that resolves to `resolved`:
/// that path, followed by a dot and the extension when there is one.
pub open spec fn spec_file_path(resolved: Seq<char>, extension: Option<Seq<char>>) -> Seq<char> {
    match extension {
        Some(ext) => resolved + seq!['.'] + ext,
        None => resolved,
    }
}

/// The text of an extension, if any.
pub open spec fn spec_extension(extension: Option<&str>) -> Option<Seq<char>> {
    match extension {
        Some(ext) => Some(ext@),
        None => None,
    }
}

/// Where an entity whose path elements are `path`, with `child_count`
/// children, is written under `strategy`, or under the default strategy
/// (one folder, file name `data`) when there is none.
pub open spec fn spec_entity_path(
    strategy: Option<ExpandStrategy>,
    path: Seq<(ElementKind, Seq<char>)>,
    child_count: nat,
) -> Seq<char> {
    match strategy {
        Some(s) => s.spec_resolve_path(path, child_count),
        None => crate::expand_strategy::spec_unique_folder_path(
            seq!['d', 'a', 't', 'a'],
            path,
            child_count,
        ),
    }
}

/// The files written when `child` is persisted under the path elements
/// `base` with the strategy `given`: the file of the child itself, if it has
/// a value to serialize, then those of its children in order, each persisted
/// under the child's path followed by the path qualifying it, with its own
/// strategy or else the child's.
pub open spec fn spec_persist(
    base: Seq<(ElementKind, Seq<char>)>,
    child: Child,
    given: Option<ExpandStrategy>,
    extension: Option<Seq<char>>,
) -> Seq<(Seq<char>, usize)>
    decreases child, 1nat, 0nat,
{
    let strategy = spec_or(given, child.spec_expand_strategy());
    let path = base + child.spec_path();
    let own = match child.spec_serializable() {
        Some(h) => seq![
            (
                spec_file_path(
                    spec_entity_path(strategy, path, child.spec_child_count()),
                    extension,
                ),
                h,
            ),
        ],
        None => Seq::empty(),
    };
    own + spec_persist_children(path, child, strategy, extension, child.spec_child_count())
}

/// The files written for the first `n` children of `child`, whose path
/// elements are `path` and whose strategy is `strategy`.
pub open spec fn spec_persist_children(
    path: Seq<(ElementKind, Seq<char>)>,
    child: Child,
    strategy: Option<ExpandStrategy>,
    extension: Option<Seq<char>>,
    n: nat,
) -> Seq<(Seq<char>, usize)>
    decreases child, 0nat, n,
{
    if n == 0 || n > child.spec_child_count() {
        Seq::empty()
    } else {
        let i = n - 1;
        proof {
            lemma_child_decreases(child, i);
        }
        let kid = child.spec_child(i);
        spec_persist_children(path, child, strategy, extension, (n - 1) as nat) + spec_persist(
            path.push((ElementKind::ChildQualifier, child.spec_child_name(i))),
            kid,
            spec_or(kid.spec_expand_strategy(), strategy),
            extension,
        )
    }
}

/// The views of a sequence of writes.
pub open spec fn spec_writes(writes: Seq<Write>) -> Seq<(Seq<char>, usize)> {
    writes.map_values(|w: Write| w@)
}

/// Persists `persistable` and its children under the path `base_path`, with
/// the strategy `expand_strategy` if given, and returns the files to write,
/// named with `extension` when there is one.
pub fn persist(
    base_path: ResolvablePath,
    persistable: &Child,
    expand_strategy: Option<ExpandStrategy>,
    extension: Option<&str>,
) -> (r: Vec<Write>)
    ensures
        spec_writes(r@) == spec_persist(base_path@, *persistable, expand_strategy, spec_extension(extension)),
{
    let mut out: Vec<Write> = Vec::new();
    persist_into(&base_path, persistable, expand_strategy, extension, &mut out);
    assert(spec_writes(out@) =~= spec_persist(
        base_path@,
        *persistable,
        expand_strategy,
        spec_extension(extension),
    ));
    out
}

/// Appends to `out` the files written when `child` is persisted under the
/// path elements of `base` with the strategy `given`.
fn persist_into(
    base: &ResolvablePath,
    child: &Child,
    given: Option<ExpandStrategy>,
    extension: Option<&str>,
    out: &mut Vec<Write>,
)
    ensures
        spec_writes(final(out)@) == spec_writes(old(out)@) + spec_persist(
            base@,
            *child,
            given,
            spec_extension(extension),
        ),
    decreases child,
{
    let ghost start = spec_writes(out@);
    let strategy = match given {
        Some(s) => Some(s),
        None => child.expand_strategy(),
    };
    let path = base.clone().append_all(child.path());
    let count = child.child_count();
    let ghost own: Seq<(Seq<char>, usize)> = Seq::empty();
    if let Some(h) = child.serializable() {
        let mut file = match &strategy {
            Some(s) => s.resolve_path(&path, count),
            None => ExpandStrategy::default().resolve_path(&path, count),
        };
        assert(file@ == spec_entity_path(strategy, path@, count as nat));
        if let Some(ext) = extension {
            file.append(".");
            file.append(ext);
        }
        proof {
            reveal_strlit(".");
            assert(file@ =~= spec_file_path(spec_entity_path(strategy, path@, count as nat), spec_extension(extension)));
        }
        out.push(Write { path: file, serializable: h });
        proof {
            own = seq![(file@, h)];
            assert(spec_writes(out@) =~= start + own);
        }
    }
    assert(own =~= match child.spec_serializable() {
        Some(h) => seq![
            (
                spec_file_path(
                    spec_entity_path(strategy, path@, child.spec_child_count()),
                    spec_extension(extension),
                ),
                h,
            ),
        ],
        None => Seq::empty(),
    });
    assert(spec_writes(out@) =~= start + own + spec_persist_children(
        path@,
        *child,
        strategy,
        spec_extension(extension),
        0,
    ));
    for i in 0..count
        invariant
            count == child.spec_child_count(),
            own == match child.spec_serializable() {
                Some(h) => seq![
                    (
                        spec_file_path(
                            spec_entity_path(strategy, path@, child.spec_child_count()),
                            spec_extension(extension),
                        ),
                        h,
                    ),
                ],
                None => Seq::<(Seq<char>, usize)>::empty(),
            },
            path@ == base@ + child.spec_path(),
            strategy == spec_or(given, child.spec_expand_strategy()),
            spec_writes(out@) == start + own + spec_persist_children(
                path@,
                *child,
                strategy,
                spec_extension(extension),
                i as nat,
            ),
    {
        let name = child.child_name(i);
        let kid = child.child(i);
        let kid_given = match kid.expand_strategy() {
            Some(s) => Some(s),
            None => match &strategy {
                Some(s) => Some(s.clone()),
                None => None,
            },
        };
        let kid_base = path.clone().append(PathElement::ChildQualifier(name));
        proof {
            lemma_child_decreases(*child, i as int);
        }
        persist_into(&kid_base, kid, kid_given, extension, out);
        assert(spec_writes(out@) =~= start + own + spec_persist_children(
            path@,
            *child,
            strategy,
            spec_extension(extension),
            (i + 1) as nat,
        ));
    }
    assert(spec_writes(out@) =~= start + spec_persist(base@, *child, given, spec_extension(extension)));
}

/// A child is smaller than its parent.
pub proof fn lemma_child_decreases(child: Child, i: int)
    requires
        0 <= i < child.spec_child_count(),
    ensures
        decreases_to!(child => child.spec_child(i)),
{
    match child {
        Child::Entity(e) => {
            assert(decreases_to!(e.children => e.children@[i]));
            assert(decreases_to!(child => e.children@[i].1));
        },
        Child::Collection(items) => {
            assert(decreases_to!(child => items@[i]));
        },
    }
}

} // verus!

verus! {

/// A persister that saves entities as JSON files.
#[derive(Debug)]
pub struct JsonPersister;

impl JsonPersister {
    /// The extension of the files written: `json`.
    pub fn extension(&self) -> (r: String)
        ensures
            r@ == seq!['j', 's', 'o', 'n'],
    {
        let r = String::from_str("json");
        proof {
            reveal_strlit("json");
            assert(r@ =~= seq!['j', 's', 'o', 'n']);
        }
        r
    }
}

} // verus!
