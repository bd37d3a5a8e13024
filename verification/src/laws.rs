use vstd::prelude::*;

use crate::expand_strategy::{spec_strategy_of_style, ExpandStrategy};
use crate::path::{is_absolute, spec_join_all, spec_push};
use crate::persist::{spec_decimal, spec_relative_strategy};
use crate::expand_strategy::is_default_strategy;
use crate::persister::{spec_entity_path, spec_file_path, spec_or};
use crate::path_element::ElementKind;
use crate::path_style::PathStyle;
use crate::persist::Child;
use crate::persister::{lemma_child_decreases, spec_persist, spec_persist_children};
use crate::resolvable_path::{spec_resolve, spec_texts};

verus! {

/// Pushing onto the empty path gives the part pushed.
pub proof fn law_push_onto_empty(part: Seq<char>)
    ensures
        spec_push(Seq::empty(), part) == part,
{
    assert(Seq::<char>::empty() + part =~= part);
}

/// Pushing is associative: pushing `b` then `c` onto `a` gives the path
/// obtained by pushing onto `a` the path of `c` pushed onto `b`.
pub proof fn law_push_associative(a: Seq<char>, b: Seq<char>, c: Seq<char>)
    ensures
        spec_push(spec_push(a, b), c) == spec_push(a, spec_push(b, c)),
{
    let ab = spec_push(a, b);
    let bc = spec_push(b, c);
    if is_absolute(c) {
    } else if is_absolute(b) {
        assert(bc[0] == b[0]);
    } else if b.len() > 0 {
        assert(ab.last() == b.last());
        assert(bc.len() > 0 && bc[0] == b[0]);
        if !(b.last() == '/') {
            assert(spec_push(ab, c) =~= spec_push(a, bc));
        } else {
            assert(spec_push(ab, c) =~= spec_push(a, bc));
        }
    } else {
        assert(bc =~= c);
        if a.len() > 0 && !(a.last() == '/') {
            assert(ab =~= a + seq!['/']);
            assert(spec_push(ab, c) =~= spec_push(a, bc));
        } else {
            assert(ab =~= a);
        }
    }
}

/// Resolving the elements of `p` followed by those of `q`, when `q` has at
/// least one, pushes the path of `q` onto the path of `p`.
pub proof fn law_resolve_concat(
    p: Seq<(ElementKind, Seq<char>)>,
    q: Seq<(ElementKind, Seq<char>)>,
)
    requires
        q.len() > 0,
    ensures
        spec_resolve(p + q) == spec_push(spec_resolve(p), spec_resolve(q)),
    decreases q.len(),
{
    let pq = p + q;
    assert(spec_texts(pq).drop_last() =~= spec_texts(p + q.drop_last()));
    assert(spec_texts(pq).last() == q.last().1);
    assert(spec_texts(q).drop_last() =~= spec_texts(q.drop_last()));
    assert(spec_resolve(pq) == spec_push(spec_resolve(p + q.drop_last()), q.last().1));
    assert(spec_resolve(q) == spec_push(spec_resolve(q.drop_last()), q.last().1));
    if q.len() == 1 {
        assert(p + q.drop_last() =~= p);
        assert(spec_texts(q.drop_last()) =~= Seq::<Seq<char>>::empty());
        law_push_onto_empty(q[0].1);
    } else {
        law_resolve_concat(p, q.drop_last());
        law_push_associative(spec_resolve(p), spec_resolve(q.drop_last()), q.last().1);
    }
}

/// Resolving the elements of `p` followed by those of `q` pushes the path
/// of `q` onto the path of `p`, up to a trailing separator: when `q` has no
/// element the push adds a separator at the end of a path that lacks one,
/// which the components of a path ignore.
pub proof fn law_resolve_concat_up_to_separator(
    p: Seq<(ElementKind, Seq<char>)>,
    q: Seq<(ElementKind, Seq<char>)>,
)
    ensures
        spec_resolve(p + q) == spec_push(spec_resolve(p), spec_resolve(q)) || spec_push(
            spec_resolve(p),
            spec_resolve(q),
        ) == spec_resolve(p + q).push('/'),
{
    if q.len() > 0 {
        law_resolve_concat(p, q);
    } else {
        assert(p + q =~= p);
        assert(spec_texts(q) =~= Seq::<Seq<char>>::empty());
        let r = spec_resolve(p);
        assert(spec_resolve(q) =~= Seq::<char>::empty());
        if r.len() > 0 && !(r.last() == '/') {
            assert(spec_push(r, Seq::empty()) =~= r.push('/'));
        } else {
            assert(spec_push(r, Seq::empty()) =~= r);
        }
    }
}

/// The empty path resolves to nothing, and appending an element pushes its
/// text onto the path.
pub proof fn law_resolve_append(p: Seq<(ElementKind, Seq<char>)>, e: (ElementKind, Seq<char>))
    ensures
        spec_resolve(Seq::empty()) == Seq::<char>::empty(),
        spec_resolve(p.push(e)) == spec_push(spec_resolve(p), e.1),
{
    assert(spec_texts(p.push(e)).drop_last() =~= spec_texts(p));
    assert(spec_texts(Seq::<(ElementKind, Seq<char>)>::empty()).len() == 0);
}

/// Merging the elements of a path into one keeps the path they resolve to.
pub proof fn law_merge_keeps_path(p: Seq<(ElementKind, Seq<char>)>)
    ensures
        spec_resolve(seq![(ElementKind::Path, spec_resolve(p))]) == spec_resolve(p),
{
    let single = seq![(ElementKind::Path, spec_resolve(p))];
    assert(spec_texts(single).drop_last() =~= Seq::<Seq<char>>::empty());
    assert(spec_texts(single).last() == spec_resolve(p));
    assert(spec_join_all(spec_texts(single).drop_last()) =~= Seq::<char>::empty());
    assert(spec_resolve(single) == spec_push(
        spec_join_all(spec_texts(single).drop_last()),
        spec_resolve(p),
    ));
    law_push_onto_empty(spec_resolve(p));
}

/// A path style resolves a path as the expand strategy it converts to.
pub proof fn law_path_style_resolves_as_strategy(
    style: PathStyle,
    elements: Seq<(ElementKind, Seq<char>)>,
    child_count: nat,
)
    ensures
        style.spec_resolve_path(elements, child_count) == spec_strategy_of_style(
            style,
        ).spec_resolve_path(elements, child_count),
{
}

/// The handles of the values to serialize in `child` and its descendants,
/// the child's own first, then those of each child in order.
pub open spec fn spec_handles(child: Child) -> Seq<usize>
    decreases child, 1nat, 0nat,
{
    let own = match child.spec_serializable() {
        Some(h) => seq![h],
        None => Seq::empty(),
    };
    own + spec_handles_children(child, child.spec_child_count())
}

/// The handles of the values to serialize in the first `n` children of
/// `child` and their descendants.
pub open spec fn spec_handles_children(child: Child, n: nat) -> Seq<usize>
    decreases child, 0nat, n,
{
    if n == 0 || n > child.spec_child_count() {
        Seq::empty()
    } else {
        proof {
            lemma_child_decreases(child, n - 1);
        }
        spec_handles_children(child, (n - 1) as nat) + spec_handles(child.spec_child(n - 1))
    }
}

/// The handles of a sequence of files to write.
pub open spec fn spec_written_handles(writes: Seq<(Seq<char>, usize)>) -> Seq<usize> {
    writes.map_values(|w: (Seq<char>, usize)| w.1)
}

/// Persisting writes the value of each entity that has one exactly once, in
/// pre-order (an entity before its children, children in order), whatever
/// the base path, the strategy and the extension.
pub proof fn law_persist_writes_each_value_once(
    base: Seq<(ElementKind, Seq<char>)>,
    child: Child,
    given: Option<ExpandStrategy>,
    extension: Option<Seq<char>>,
)
    ensures
        spec_written_handles(spec_persist(base, child, given, extension)) == spec_handles(child),
    decreases child, 1nat, 0nat,
{
    let strategy = crate::persister::spec_or(given, child.spec_expand_strategy());
    let path = base + child.spec_path();
    let n = child.spec_child_count();
    lemma_children_write_each_value_once(path, child, strategy, extension, n);
    let all = spec_persist(base, child, given, extension);
    let kids = spec_persist_children(path, child, strategy, extension, n);
    let own_len = all.len() - kids.len();
    assert(all.subrange(own_len as int, all.len() as int) =~= kids);
    assert(spec_written_handles(all) =~= spec_written_handles(all.subrange(0, own_len as int))
        + spec_written_handles(kids));
}

/// `path` names a file with the extension `extension`.
pub open spec fn spec_has_extension(path: Seq<char>, extension: Seq<char>) -> bool {
    path.len() > extension.len() && path.subrange(
        path.len() - extension.len() - 1,
        path.len() as int,
    ) == seq!['.'] + extension
}

/// Every file that persisting writes is named with the extension given.
pub proof fn law_persist_files_have_extension(
    base: Seq<(ElementKind, Seq<char>)>,
    child: Child,
    given: Option<ExpandStrategy>,
    extension: Seq<char>,
)
    ensures
        forall|i: int|
            0 <= i < spec_persist(base, child, given, Some(extension)).len() ==> spec_has_extension(
                (#[trigger] spec_persist(base, child, given, Some(extension))[i]).0,
                extension,
            ),
    decreases child, 1nat, 0nat,
{
    let strategy = crate::persister::spec_or(given, child.spec_expand_strategy());
    let path = base + child.spec_path();
    let n = child.spec_child_count();
    lemma_children_files_have_extension(path, child, strategy, extension, n);
    let all = spec_persist(base, child, given, Some(extension));
    let kids = spec_persist_children(path, child, strategy, Some(extension), n);
    let own_len = all.len() - kids.len();
    assert forall|i: int| 0 <= i < all.len() implies spec_has_extension(
        (#[trigger] all[i]).0,
        extension,
    ) by {
        if i >= own_len {
            assert(all[i] == kids[i - own_len]);
        } else {
            let resolved = crate::persister::spec_entity_path(
                strategy,
                path,
                child.spec_child_count(),
            );
            let file = crate::persister::spec_file_path(resolved, Some(extension));
            assert(all[i].0 == file);
            assert(file.subrange(file.len() - extension.len() - 1, file.len() as int)
                =~= seq!['.'] + extension);
        }
    }
}

proof fn lemma_children_files_have_extension(
    path: Seq<(ElementKind, Seq<char>)>,
    child: Child,
    strategy: Option<ExpandStrategy>,
    extension: Seq<char>,
    n: nat,
)
    ensures
        forall|i: int|
            0 <= i < spec_persist_children(path, child, strategy, Some(extension), n).len()
                ==> spec_has_extension(
                (#[trigger] spec_persist_children(path, child, strategy, Some(extension), n)[i]).0,
                extension,
            ),
    decreases child, 0nat, n,
{
    if n == 0 || n > child.spec_child_count() {
    } else {
        let i = n - 1;
        lemma_child_decreases(child, i);
        let kid = child.spec_child(i);
        let kid_base = path.push((ElementKind::ChildQualifier, child.spec_child_name(i)));
        let kid_given = crate::persister::spec_or(kid.spec_expand_strategy(), strategy);
        lemma_children_files_have_extension(path, child, strategy, extension, (n - 1) as nat);
        law_persist_files_have_extension(kid_base, kid, kid_given, extension);
        let front = spec_persist_children(path, child, strategy, Some(extension), (n - 1) as nat);
        let back = spec_persist(kid_base, kid, kid_given, Some(extension));
        let all = spec_persist_children(path, child, strategy, Some(extension), n);
        assert(all == front + back);
        assert forall|j: int| 0 <= j < all.len() implies spec_has_extension(
            (#[trigger] all[j]).0,
            extension,
        ) by {
            if j < front.len() {
                assert(all[j] == front[j]);
            } else {
                assert(all[j] == back[j - front.len()]);
            }
        }
    }
}

proof fn lemma_children_write_each_value_once(
    path: Seq<(ElementKind, Seq<char>)>,
    child: Child,
    strategy: Option<ExpandStrategy>,
    extension: Option<Seq<char>>,
    n: nat,
)
    ensures
        spec_written_handles(spec_persist_children(path, child, strategy, extension, n))
            == spec_handles_children(child, n),
    decreases child, 0nat, n,
{
    if n == 0 || n > child.spec_child_count() {
        assert(spec_written_handles(spec_persist_children(path, child, strategy, extension, n))
            =~= Seq::empty());
    } else {
        let i = n - 1;
        lemma_child_decreases(child, i);
        let kid = child.spec_child(i);
        let kid_base = path.push((ElementKind::ChildQualifier, child.spec_child_name(i)));
        let kid_given = crate::persister::spec_or(kid.spec_expand_strategy(), strategy);
        lemma_children_write_each_value_once(path, child, strategy, extension, (n - 1) as nat);
        law_persist_writes_each_value_once(kid_base, kid, kid_given, extension);
        let front = spec_persist_children(path, child, strategy, extension, (n - 1) as nat);
        let back = spec_persist(kid_base, kid, kid_given, extension);
        assert(spec_written_handles(front + back) =~= spec_written_handles(front)
            + spec_written_handles(back));
    }
}

/// Pushing a part that is not absolute keeps the path pushed onto as a
/// prefix.
pub proof fn lemma_push_keeps_prefix(a: Seq<char>, b: Seq<char>)
    requires
        !is_absolute(b),
    ensures
        a.is_prefix_of(spec_push(a, b)),
{
    assert(spec_push(a, b).subrange(0, a.len() as int) =~= a);
}

/// A path made of parts that are not absolute is not absolute.
pub proof fn lemma_resolve_relative(q: Seq<(ElementKind, Seq<char>)>)
    requires
        forall|i: int| 0 <= i < q.len() ==> !is_absolute(#[trigger] q[i].1),
    ensures
        !is_absolute(spec_resolve(q)),
    decreases q.len(),
{
    if q.len() > 0 {
        let t = q.drop_last();
        assert(spec_texts(q).drop_last() =~= spec_texts(t));
        assert forall|i: int| 0 <= i < t.len() implies !is_absolute(#[trigger] t[i].1) by {
            assert(t[i] == q[i]);
        }
        lemma_resolve_relative(t);
        assert(!is_absolute(q[q.len() - 1].1));
        let r = spec_resolve(t);
        let last = q.last().1;
        assert(spec_resolve(q) == spec_push(r, last));
        if r.len() > 0 && !(r.last() == '/') {
            assert((r + seq!['/'] + last)[0] == r[0]);
        } else if r.len() > 0 {
            assert((r + last)[0] == r[0]);
        } else {
            assert(r + last =~= last);
        }
    }
}

/// Following a path with parts that are not absolute keeps its resolution
/// as a prefix.
pub proof fn lemma_resolve_extends(p: Seq<(ElementKind, Seq<char>)>, q: Seq<(ElementKind, Seq<char>)>)
    requires
        forall|i: int| 0 <= i < q.len() ==> !is_absolute(#[trigger] q[i].1),
    ensures
        spec_resolve(p).is_prefix_of(spec_resolve(p + q)),
{
    if q.len() == 0 {
        assert(p + q =~= p);
    } else {
        law_resolve_concat(p, q);
        lemma_resolve_relative(q);
        lemma_push_keeps_prefix(spec_resolve(p), spec_resolve(q));
    }
}

/// The file of an entity lies under the path of the entity.
proof fn lemma_file_under_path(
    strategy: Option<ExpandStrategy>,
    path: Seq<(ElementKind, Seq<char>)>,
    child_count: nat,
    extension: Option<Seq<char>>,
)
    requires
        spec_relative_strategy(strategy),
    ensures
        spec_resolve(path).is_prefix_of(
            spec_file_path(spec_entity_path(strategy, path, child_count), extension),
        ),
{
    let resolved = spec_resolve(path);
    let entity = spec_entity_path(strategy, path, child_count);
    match strategy {
        Some(s) => {
            lemma_push_keeps_prefix(resolved, s.name());
            assert(resolved.is_prefix_of(resolved));
        },
        None => {
            lemma_push_keeps_prefix(resolved, seq!['d', 'a', 't', 'a']);
            assert(resolved.is_prefix_of(resolved));
        },
    }
    assert(resolved.is_prefix_of(entity));
    let file = spec_file_path(entity, extension);
    assert(file.subrange(0, entity.len() as int) =~= entity);
    assert(file.subrange(0, resolved.len() as int) =~= entity.subrange(0, resolved.len() as int));
}

/// The decimal representation of a number holds only digits.
proof fn lemma_decimal_relative(n: nat)
    ensures
        !is_absolute(crate::persist::spec_decimal(n)),
    decreases n,
{
    if n >= 10 {
        lemma_decimal_relative(n / 10);
    }
}

/// Persisting under a base path writes every file inside that path, as long
/// as no path element, child qualifier or strategy file name below it is
/// absolute.
pub proof fn law_persist_writes_under_base(
    base: Seq<(ElementKind, Seq<char>)>,
    child: Child,
    given: Option<ExpandStrategy>,
    extension: Option<Seq<char>>,
)
    requires
        child.relative(),
        spec_relative_strategy(given),
    ensures
        forall|i: int|
            0 <= i < spec_persist(base, child, given, extension).len() ==> spec_resolve(
                base,
            ).is_prefix_of((#[trigger] spec_persist(base, child, given, extension)[i]).0),
    decreases child, 1nat, 0nat,
{
    let strategy = spec_or(given, child.spec_expand_strategy());
    let path = base + child.spec_path();
    let n = child.spec_child_count();
    assert(forall|i: int|
        0 <= i < child.spec_path().len() ==> !is_absolute(#[trigger] child.spec_path()[i].1));
    lemma_resolve_extends(base, child.spec_path());
    lemma_children_under_path(path, child, strategy, extension, n);
    lemma_file_under_path(strategy, path, n, extension);
    let all = spec_persist(base, child, given, extension);
    let kids = spec_persist_children(path, child, strategy, extension, n);
    let own_len = all.len() - kids.len();
    assert forall|i: int| 0 <= i < all.len() implies spec_resolve(base).is_prefix_of(
        (#[trigger] all[i]).0,
    ) by {
        if i >= own_len {
            assert(all[i] == kids[i - own_len]);
        }
        let w = all[i].0;
        assert(spec_resolve(path).is_prefix_of(w));
        assert(w.subrange(0, spec_resolve(base).len() as int) =~= spec_resolve(path).subrange(
            0,
            spec_resolve(base).len() as int,
        ));
    }
}

proof fn lemma_children_under_path(
    path: Seq<(ElementKind, Seq<char>)>,
    child: Child,
    strategy: Option<ExpandStrategy>,
    extension: Option<Seq<char>>,
    n: nat,
)
    requires
        child.relative(),
        spec_relative_strategy(strategy),
    ensures
        forall|i: int|
            0 <= i < spec_persist_children(path, child, strategy, extension, n).len()
                ==> spec_resolve(path).is_prefix_of(
                (#[trigger] spec_persist_children(path, child, strategy, extension, n)[i]).0,
            ),
    decreases child, 0nat, n,
{
    if n == 0 || n > child.spec_child_count() {
    } else {
        let i = n - 1;
        lemma_child_decreases(child, i);
        let kid = child.spec_child(i);
        let name = child.spec_child_name(i);
        let kid_base = path.push((ElementKind::ChildQualifier, name));
        let kid_given = spec_or(kid.spec_expand_strategy(), strategy);
        match child {
            Child::Entity(e) => {
                assert(!is_absolute(e.children@[i].0@) && e.children@[i].1.relative());
            },
            Child::Collection(items) => {
                assert(items@[i].relative());
                lemma_decimal_relative(i as nat);
            },
        }
        assert(kid.relative());
        assert(!is_absolute(name));
        match kid {
            Child::Entity(e) => {},
            Child::Collection(_) => {},
        }
        assert(spec_relative_strategy(kid.spec_expand_strategy()));
        lemma_children_under_path(path, child, strategy, extension, (n - 1) as nat);
        law_persist_writes_under_base(kid_base, kid, kid_given, extension);
        let q = seq![(ElementKind::ChildQualifier, name)];
        assert(path + q =~= kid_base);
        lemma_resolve_extends(path, q);
        let front = spec_persist_children(path, child, strategy, extension, (n - 1) as nat);
        let back = spec_persist(kid_base, kid, kid_given, extension);
        let all = spec_persist_children(path, child, strategy, extension, n);
        assert(all == front + back);
        assert forall|j: int| 0 <= j < all.len() implies spec_resolve(path).is_prefix_of(
            (#[trigger] all[j]).0,
        ) by {
            if j < front.len() {
                assert(all[j] == front[j]);
            } else {
                assert(all[j] == back[j - front.len()]);
                let w = all[j].0;
                assert(spec_resolve(kid_base).is_prefix_of(w));
                assert(w.subrange(0, spec_resolve(path).len() as int) =~= spec_resolve(
                    kid_base,
                ).subrange(0, spec_resolve(path).len() as int));
            }
        }
    }
}

/// Under one folder named `name`, an entity with at least one child whose
/// path does not end with a child qualifier, or whose path has at most one
/// element, is written to the file `name` in its path; a leaf, or an entity
/// qualified as a child, whose path has more than one element is written to
/// its path itself. Under separate folders, the file `name` in its path is
/// always used.
pub proof fn law_strategy_resolution(
    name: String,
    elements: Seq<(ElementKind, Seq<char>)>,
    child_count: nat,
)
    ensures
        child_count > 0 && elements.len() > 0 && elements.last().0 != ElementKind::ChildQualifier
            ==> ExpandStrategy::UniqueFolder(name).spec_resolve_path(elements, child_count)
            == spec_push(spec_resolve(elements), name@),
        elements.len() <= 1 ==> ExpandStrategy::UniqueFolder(name).spec_resolve_path(
            elements,
            child_count,
        ) == spec_push(spec_resolve(elements), name@),
        elements.len() > 1 && child_count == 0 ==> ExpandStrategy::UniqueFolder(
            name,
        ).spec_resolve_path(elements, child_count) == spec_resolve(elements),
        elements.len() > 1 && elements.last().0 == ElementKind::ChildQualifier
            ==> ExpandStrategy::UniqueFolder(name).spec_resolve_path(elements, child_count)
            == spec_resolve(elements),
        ExpandStrategy::SeparateFolders(name).spec_resolve_path(elements, child_count) == spec_push(
            spec_resolve(elements),
            name@,
        ),
{
}

/// The first file written when an entity with a value is persisted holds
/// that value, at the path that the strategy in force (the one given, else
/// the entity's own, else one folder named `data`) resolves the entity's
/// full path to, counting the entity's actual children.
pub proof fn law_persist_entity_file(
    base: Seq<(ElementKind, Seq<char>)>,
    child: Child,
    given: Option<ExpandStrategy>,
    extension: Option<Seq<char>>,
    strategy: ExpandStrategy,
    value: usize,
)
    requires
        child.spec_serializable() == Some(value),
        match given {
            Some(g) => strategy == g,
            None => match child.spec_expand_strategy() {
                Some(own) => strategy == own,
                None => is_default_strategy(strategy),
            },
        },
    ensures
        spec_persist(base, child, given, extension).len() > 0,
        spec_persist(base, child, given, extension)[0] == (
            spec_file_path(
                strategy.spec_resolve_path(base + child.spec_path(), child.spec_child_count()),
                extension,
            ),
            value,
        ),
{
    let all = spec_persist(base, child, given, extension);
    let n = child.spec_child_count();
    let path = base + child.spec_path();
    let s = spec_or(given, child.spec_expand_strategy());
    let kids = spec_persist_children(path, child, s, extension, n);
    let own = seq![(spec_file_path(spec_entity_path(s, path, n), extension), value)];
    assert(all == own + kids);
    assert(all[0] == own[0]);
    if s is None {
        assert(strategy matches ExpandStrategy::UniqueFolder(name) && name@ == seq![
            'd',
            'a',
            't',
            'a',
        ]);
    }
}

/// The decimal representation of a number is never empty.
pub proof fn lemma_decimal_not_empty(n: nat)
    ensures
        spec_decimal(n).len() > 0,
    decreases n,
{
    if n >= 10 {
        lemma_decimal_not_empty(n / 10);
    }
}

/// An item of a collection whose path ends with an id, whatever comes
/// before it, is qualified by nothing; any other item, one with an empty
/// path included, is qualified by its index in decimal, which is never
/// empty.
pub proof fn law_collection_item_names(child: Child, i: int)
    requires
        child is Collection,
        0 <= i < child.spec_child_count(),
    ensures
        forall|prefix: Seq<(ElementKind, Seq<char>)>, id: Seq<char>|
            #[trigger] prefix.push((ElementKind::Id, id)) == child.spec_child(i).spec_path()
                ==> child.spec_child_name(i) == Seq::<char>::empty(),
        child.spec_child(i).spec_path().len() == 0 || child.spec_child(i).spec_path().last().0
            != ElementKind::Id ==> child.spec_child_name(i) == spec_decimal(i as nat)
            && child.spec_child_name(i).len() > 0,
{
    lemma_decimal_not_empty(i as nat);
    assert forall|prefix: Seq<(ElementKind, Seq<char>)>, id: Seq<char>|
        #[trigger] prefix.push((ElementKind::Id, id)) == child.spec_child(i).spec_path()
        implies child.spec_child_name(i) == Seq::<char>::empty() by {
        let p = prefix.push((ElementKind::Id, id));
        assert(p.len() > 0 && p.last().0 == ElementKind::Id);
    }
}

} // verus!
