use vstd::prelude::*;
use vstd::seq_lib::{to_multiset_build, to_multiset_contains};

use super::attributes::{spec_is_option, Expand};
use super::layout::{
    spec_candidates, spec_entry_names, spec_field, spec_id, spec_is_sorted_by_name, spec_pairs,
    spec_select, Member, SerdeField,
};
use super::names::{spec_collect_duplicates, spec_dedup, spec_repeats, spec_text_le};

verus! {

/// Two entries of `s` share a name.
pub open spec fn spec_shares_name(s: Seq<(Seq<char>, Seq<char>, bool)>) -> bool {
    exists|i: int, j: int| 0 <= i < j < s.len() && s[i].0 == s[j].0
}

/// Two elements of `s` are equal.
pub open spec fn spec_has_repeat(s: Seq<Seq<char>>) -> bool {
    exists|i: int, j: int| 0 <= i < j < s.len() && s[i] == s[j]
}

/// Duplicates are reported for entries sorted by name exactly when two of
/// the entries share a name, whatever their order before sorting.
pub proof fn law_duplicates_iff_shared_name(
    sorted: Seq<(Seq<char>, Seq<char>, bool)>,
    entries: Seq<(Seq<char>, Seq<char>, bool)>,
)
    requires
        spec_is_sorted_by_name(sorted, entries),
    ensures
        spec_collect_duplicates(spec_entry_names(sorted)).len() > 0 <==> spec_shares_name(entries),
{
    let names = spec_entry_names(sorted);
    lemma_dedup_nonempty(spec_repeats(names));
    lemma_repeats_nonempty(names);
    lemma_shares_name_permutation(sorted, entries);
    lemma_shares_name_permutation(entries, sorted);
    if spec_has_repeat(names) {
        let (i, j) = choose|i: int, j: int| 0 <= i < j < names.len() && names[i] == names[j];
        assert(sorted[i].0 == sorted[j].0);
    }
    if spec_shares_name(sorted) {
        let (i, j) = choose|i: int, j: int| 0 <= i < j < sorted.len() && sorted[i].0 == sorted[j].0;
        assert(names[i] == names[j]);
    }
}

/// Deduplicating keeps at least one element of a non-empty sequence.
pub proof fn lemma_dedup_nonempty(s: Seq<Seq<char>>)
    ensures
        spec_dedup(s).len() > 0 <==> s.len() > 0,
    decreases s.len(),
{
    if s.len() > 0 {
        lemma_dedup_nonempty(s.drop_last());
        if s.len() >= 2 {
            assert(s.drop_last().len() > 0);
        }
    }
}

/// An element is repeated exactly when two elements are equal.
pub proof fn lemma_repeats_nonempty(s: Seq<Seq<char>>)
    ensures
        spec_repeats(s).len() > 0 <==> spec_has_repeat(s),
    decreases s.len(),
{
    if s.len() > 0 {
        let t = s.drop_last();
        lemma_repeats_nonempty(t);
        if spec_has_repeat(t) {
            let (i, j) = choose|i: int, j: int| 0 <= i < j < t.len() && t[i] == t[j];
            assert(s[i] == s[j]);
        }
        if t.contains(s.last()) {
            let i = choose|i: int| 0 <= i < t.len() && t[i] == s.last();
            assert(s[i] == s[s.len() - 1]);
        }
        if spec_has_repeat(s) {
            let (i, j) = choose|i: int, j: int| 0 <= i < j < s.len() && s[i] == s[j];
            if j == s.len() - 1 {
                assert(t[i] == s.last());
            } else {
                assert(t[i] == t[j]);
            }
        }
    }
}

/// An element counted twice in a sequence stands at two positions.
proof fn lemma_count_two<A>(s: Seq<A>, x: A)
    requires
        s.to_multiset().count(x) >= 2,
    ensures
        exists|i: int, j: int| 0 <= i < j < s.len() && s[i] == x && s[j] == x,
    decreases s.len(),
{
    broadcast use vstd::multiset::group_multiset_axioms;

    if s.len() == 0 {
        to_multiset_contains(s, x);
    } else {
        let t = s.drop_last();
        assert(t.push(s.last()) =~= s);
        to_multiset_build(t, s.last());
        if s.last() == x {
            to_multiset_contains(t, x);
            let i = choose|i: int| 0 <= i < t.len() && t[i] == x;
            assert(s[i] == x && s[s.len() - 1] == x);
        } else {
            lemma_count_two(t, x);
            let (i, j) = choose|i: int, j: int| 0 <= i < j < t.len() && t[i] == x && t[j] == x;
            assert(s[i] == x && s[j] == x);
        }
    }
}

/// An element at two positions of a sequence is counted twice.
proof fn lemma_two_count<A>(s: Seq<A>, i: int, j: int)
    requires
        0 <= i < j < s.len(),
        s[i] == s[j],
    ensures
        s.to_multiset().count(s[i]) >= 2,
    decreases s.len(),
{
    broadcast use vstd::multiset::group_multiset_axioms;

    let t = s.drop_last();
    assert(t.push(s.last()) =~= s);
    to_multiset_build(t, s.last());
    if j == s.len() - 1 {
        assert(t[i] == s[i]);
        to_multiset_contains(t, s[i]);
    } else {
        assert(t[i] == s[i] && t[j] == s[j]);
        lemma_two_count(t, i, j);
    }
}

/// Sharing a name does not depend on the order of the entries.
proof fn lemma_shares_name_permutation(
    a: Seq<(Seq<char>, Seq<char>, bool)>,
    b: Seq<(Seq<char>, Seq<char>, bool)>,
)
    requires
        a.to_multiset() == b.to_multiset(),
    ensures
        spec_shares_name(a) ==> spec_shares_name(b),
{
    if spec_shares_name(a) {
        let (i, j) = choose|i: int, j: int| 0 <= i < j < a.len() && a[i].0 == a[j].0;
        if a[i] == a[j] {
            lemma_two_count(a, i, j);
            lemma_count_two(b, a[i]);
            let (p, q) = choose|p: int, q: int| 0 <= p < q < b.len() && b[p] == a[i] && b[q] == a[i];
            assert(b[p].0 == b[q].0);
        } else {
            assert(a.contains(a[i]));
            assert(a.contains(a[j]));
            to_multiset_contains(a, a[i]);
            to_multiset_contains(a, a[j]);
            to_multiset_contains(b, a[i]);
            to_multiset_contains(b, a[j]);
            let p = choose|p: int| 0 <= p < b.len() && b[p] == a[i];
            let q = choose|q: int| 0 <= q < b.len() && b[q] == a[j];
            if p < q {
                assert(b[p].0 == b[q].0);
            } else {
                assert(b[q].0 == b[p].0);
            }
        }
    }
}

/// Two entries of `s` share the name `name`.
pub open spec fn spec_shared(s: Seq<(Seq<char>, Seq<char>, bool)>, name: Seq<char>) -> bool {
    exists|i: int, j: int| 0 <= i < j < s.len() && s[i].0 == name && s[j].0 == name
}

/// Each element of `s` comes strictly before the next ones.
pub open spec fn spec_strictly_ascending(s: Seq<Seq<char>>) -> bool {
    forall|i: int, j: int|
        #![trigger s[i], s[j]]
        0 <= i < j < s.len() ==> spec_text_le(s[i], s[j]) && s[i] != s[j]
}

/// Each element of `s` comes before or equals the next ones.
pub open spec fn spec_ascending(s: Seq<Seq<char>>) -> bool {
    forall|i: int, j: int| #![trigger s[i], s[j]] 0 <= i < j < s.len() ==> spec_text_le(s[i], s[j])
}

/// The duplicates reported for entries sorted by name are the names that
/// two of the entries share, each once, in ascending order.
pub proof fn law_duplicates_are_shared_names(
    sorted: Seq<(Seq<char>, Seq<char>, bool)>,
    entries: Seq<(Seq<char>, Seq<char>, bool)>,
)
    requires
        spec_is_sorted_by_name(sorted, entries),
    ensures
        forall|name: Seq<char>|
            #![trigger spec_shared(entries, name)]
            spec_collect_duplicates(spec_entry_names(sorted)).contains(name) <==> spec_shared(
                entries,
                name,
            ),
        spec_strictly_ascending(spec_collect_duplicates(spec_entry_names(sorted))),
{
    let names = spec_entry_names(sorted);
    let d = spec_collect_duplicates(names);
    assert forall|name: Seq<char>| #![trigger spec_shared(entries, name)]
        d.contains(name) <==> spec_shared(entries, name) by {
        lemma_dedup_contains(spec_repeats(names), name);
        lemma_repeats_contains(names, name);
        lemma_shared_permutation(sorted, entries, name);
        lemma_shared_permutation(entries, sorted, name);
        if spec_shared(sorted, name) {
            let (i, j) = choose|i: int, j: int|
                0 <= i < j < sorted.len() && sorted[i].0 == name && sorted[j].0 == name;
            assert(names[i] == name && names[j] == name);
        }
        if exists|i: int, j: int| 0 <= i < j < names.len() && names[i] == name && names[j] == name {
            let (i, j) = choose|i: int, j: int|
                0 <= i < j < names.len() && names[i] == name && names[j] == name;
            assert(sorted[i].0 == name && sorted[j].0 == name);
        }
    }
    assert(spec_ascending(names)) by {
        assert forall|i: int, j: int| 0 <= i < j < names.len() implies spec_text_le(
            names[i],
            names[j],
        ) by {
            assert(names[i] == sorted[i].0 && names[j] == sorted[j].0);
        }
    }
    lemma_repeats_ascending(names);
    lemma_dedup_strictly_ascending(spec_repeats(names));
}

/// The order of texts is antisymmetric.
pub proof fn lemma_text_le_antisymmetric(a: Seq<char>, b: Seq<char>)
    requires
        spec_text_le(a, b),
        spec_text_le(b, a),
    ensures
        a == b,
    decreases a.len(),
{
    if a.len() > 0 && b.len() > 0 {
        lemma_text_le_antisymmetric(a.drop_first(), b.drop_first());
        assert(a =~= seq![a[0]] + a.drop_first());
        assert(b =~= seq![b[0]] + b.drop_first());
    } else {
        assert(a =~= b);
    }
}

/// The order of texts is transitive.
pub proof fn lemma_text_le_transitive(a: Seq<char>, b: Seq<char>, c: Seq<char>)
    requires
        spec_text_le(a, b),
        spec_text_le(b, c),
    ensures
        spec_text_le(a, c),
    decreases a.len(),
{
    if a.len() > 0 && b.len() > 0 && c.len() > 0 && a[0] == b[0] && b[0] == c[0] {
        lemma_text_le_transitive(a.drop_first(), b.drop_first(), c.drop_first());
    }
}

/// An element is repeated exactly when it stands at two positions.
proof fn lemma_repeats_contains(s: Seq<Seq<char>>, x: Seq<char>)
    ensures
        spec_repeats(s).contains(x) <==> exists|i: int, j: int|
            0 <= i < j < s.len() && s[i] == x && s[j] == x,
    decreases s.len(),
{
    if s.len() > 0 {
        let t = s.drop_last();
        lemma_repeats_contains(t, x);
        let r = spec_repeats(s);
        let rt = spec_repeats(t);
        if exists|i: int, j: int| 0 <= i < j < t.len() && t[i] == x && t[j] == x {
            let (i, j) = choose|i: int, j: int| 0 <= i < j < t.len() && t[i] == x && t[j] == x;
            assert(s[i] == x && s[j] == x);
            let k = choose|k: int| 0 <= k < rt.len() && rt[k] == x;
            if t.contains(s.last()) {
                assert(r[k] == x);
            }
        }
        if t.contains(s.last()) && s.last() == x {
            let i = choose|i: int| 0 <= i < t.len() && t[i] == s.last();
            assert(s[i] == x && s[s.len() - 1] == x);
            assert(r[r.len() - 1] == x);
        }
        if r.contains(x) {
            let k = choose|k: int| 0 <= k < r.len() && r[k] == x;
            if t.contains(s.last()) && k == r.len() - 1 {
                let i = choose|i: int| 0 <= i < t.len() && t[i] == s.last();
                assert(s[i] == x && s[s.len() - 1] == x);
            } else {
                assert(rt[k] == x);
                let (i, j) = choose|i: int, j: int| 0 <= i < j < t.len() && t[i] == x && t[j] == x;
                assert(s[i] == x && s[j] == x);
            }
        }
        if exists|i: int, j: int| 0 <= i < j < s.len() && s[i] == x && s[j] == x {
            let (i, j) = choose|i: int, j: int| 0 <= i < j < s.len() && s[i] == x && s[j] == x;
            if j == s.len() - 1 {
                assert(t[i] == x);
                assert(t.contains(s.last()));
                assert(r[r.len() - 1] == x);
            } else {
                assert(t[i] == x && t[j] == x);
                let k = choose|k: int| 0 <= k < rt.len() && rt[k] == x;
                if t.contains(s.last()) {
                    assert(r[k] == x);
                } else {
                    assert(r[k] == x);
                }
            }
        }
    }
}

/// Deduplicating keeps the same elements.
proof fn lemma_dedup_contains(s: Seq<Seq<char>>, x: Seq<char>)
    ensures
        spec_dedup(s).contains(x) <==> s.contains(x),
    decreases s.len(),
{
    if s.len() > 0 {
        let t = s.drop_last();
        lemma_dedup_contains(t, x);
        let d = spec_dedup(s);
        let dt = spec_dedup(t);
        let kept = !(s.len() >= 2 && s[s.len() - 2] == s.last());
        if s.contains(x) {
            let i = choose|i: int| 0 <= i < s.len() && s[i] == x;
            if i < s.len() - 1 {
                assert(t[i] == x);
                let k = choose|k: int| 0 <= k < dt.len() && dt[k] == x;
                assert(d[k] == x);
            } else if kept {
                assert(d[d.len() - 1] == x);
            } else {
                assert(t[s.len() - 2] == x);
                let k = choose|k: int| 0 <= k < dt.len() && dt[k] == x;
                assert(d[k] == x);
            }
        }
        if d.contains(x) {
            let k = choose|k: int| 0 <= k < d.len() && d[k] == x;
            if kept && k == d.len() - 1 {
                assert(s[s.len() - 1] == x);
            } else {
                assert(dt[k] == x);
                let i = choose|i: int| 0 <= i < t.len() && t[i] == x;
                assert(s[i] == x);
            }
        }
    }
}

/// The repeated elements of an ascending sequence are ascending.
proof fn lemma_repeats_ascending(s: Seq<Seq<char>>)
    requires
        spec_ascending(s),
    ensures
        spec_ascending(spec_repeats(s)),
    decreases s.len(),
{
    if s.len() > 0 {
        let t = s.drop_last();
        assert(spec_ascending(t)) by {
            assert forall|i: int, j: int| 0 <= i < j < t.len() implies spec_text_le(t[i], t[j]) by {
                assert(t[i] == s[i] && t[j] == s[j]);
            }
        }
        lemma_repeats_ascending(t);
        let rt = spec_repeats(t);
        let r = spec_repeats(s);
        if t.contains(s.last()) {
            assert forall|i: int, j: int| 0 <= i < j < r.len() implies spec_text_le(r[i], r[j]) by {
                if j == r.len() - 1 {
                    lemma_repeats_contains(t, rt[i]);
                    assert(rt.contains(rt[i]));
                    let (p, q) = choose|p: int, q: int|
                        0 <= p < q < t.len() && t[p] == rt[i] && t[q] == rt[i];
                    assert(s[p] == rt[i]);
                    assert(spec_text_le(s[p], s[s.len() - 1]));
                } else {
                    assert(r[i] == rt[i] && r[j] == rt[j]);
                }
            }
        }
    }
}

/// Deduplicating an ascending sequence leaves each element once, in
/// strictly ascending order.
proof fn lemma_dedup_strictly_ascending(s: Seq<Seq<char>>)
    requires
        spec_ascending(s),
    ensures
        spec_strictly_ascending(spec_dedup(s)),
    decreases s.len(),
{
    if s.len() > 0 {
        let t = s.drop_last();
        assert(spec_ascending(t)) by {
            assert forall|i: int, j: int| 0 <= i < j < t.len() implies spec_text_le(t[i], t[j]) by {
                assert(t[i] == s[i] && t[j] == s[j]);
            }
        }
        lemma_dedup_strictly_ascending(t);
        let dt = spec_dedup(t);
        let d = spec_dedup(s);
        let kept = !(s.len() >= 2 && s[s.len() - 2] == s.last());
        if kept {
            assert forall|i: int, j: int| 0 <= i < j < d.len() implies spec_text_le(d[i], d[j])
                && d[i] != d[j] by {
                if j == d.len() - 1 {
                    assert(d[j] == s.last());
                    assert(d[i] == dt[i]);
                    lemma_dedup_contains(t, dt[i]);
                    assert(dt.contains(dt[i]));
                    let p = choose|p: int| 0 <= p < t.len() && t[p] == dt[i];
                    assert(s[p] == dt[i]);
                    assert(spec_text_le(s[p], s[s.len() - 1]));
                    if dt[i] == s.last() {
                        let l = s.len() - 2;
                        assert(s[l] != s.last());
                        if p != l {
                            assert(spec_text_le(s[p], s[l]));
                            assert(spec_text_le(s[l], s[s.len() - 1]));
                            lemma_text_le_antisymmetric(s[l], s[s.len() - 1]);
                        }
                        assert(false);
                    }
                    assert(spec_text_le(d[i], d[j]) && d[i] != d[j]);
                } else {
                    assert(d == dt.push(s.last()));
                    assert(j < dt.len());
                    assert(d[i] == dt[i] && d[j] == dt[j]);
                    assert(spec_text_le(dt[i], dt[j]) && dt[i] != dt[j]);
                }
            }
        }
    }
}

/// Sharing a name does not depend on the order of the entries.
proof fn lemma_shared_permutation(
    a: Seq<(Seq<char>, Seq<char>, bool)>,
    b: Seq<(Seq<char>, Seq<char>, bool)>,
    name: Seq<char>,
)
    requires
        a.to_multiset() == b.to_multiset(),
    ensures
        spec_shared(a, name) ==> spec_shared(b, name),
{
    if spec_shared(a, name) {
        let (i, j) = choose|i: int, j: int| 0 <= i < j < a.len() && a[i].0 == name && a[j].0 == name;
        if a[i] == a[j] {
            lemma_two_count(a, i, j);
            lemma_count_two(b, a[i]);
            let (p, q) = choose|p: int, q: int| 0 <= p < q < b.len() && b[p] == a[i] && b[q] == a[i];
            assert(b[p].0 == name && b[q].0 == name);
        } else {
            assert(a.contains(a[i]));
            assert(a.contains(a[j]));
            to_multiset_contains(a, a[i]);
            to_multiset_contains(a, a[j]);
            to_multiset_contains(b, a[i]);
            to_multiset_contains(b, a[j]);
            let p = choose|p: int| 0 <= p < b.len() && b[p] == a[i];
            let q = choose|q: int| 0 <= q < b.len() && b[q] == a[j];
            if p < q {
                assert(b[p].0 == name && b[q].0 == name);
            } else {
                assert(b[q].0 == name && b[p].0 == name);
            }
        }
    }
}

/// The id of the layout is the member of the first field that carries
/// `#[persist(id)]`, is serialized and is not expanded; there is none when
/// no field is so marked.
pub proof fn law_id_is_first_marked_field(fields: Seq<SerdeField>)
    ensures
        spec_id(fields) is None <==> forall|i: int|
            0 <= i < fields.len() ==> !(!(#[trigger] fields[i]).skip_serializing && spec_field(
                fields[i],
            ).expand is None && spec_field(fields[i]).id),
        spec_id(fields) matches Some(m) ==> exists|i: int|
            {
                &&& 0 <= i < fields.len()
                &&& !(#[trigger] fields[i]).skip_serializing
                &&& spec_field(fields[i]).expand is None
                &&& spec_field(fields[i]).id
                &&& fields[i].member == m
                &&& forall|j: int|
                    0 <= j < i ==> !(!(#[trigger] fields[j]).skip_serializing && spec_field(
                        fields[j],
                    ).expand is None && spec_field(fields[j]).id)
            },
    decreases fields.len(),
{
    if fields.len() > 0 {
        let t = fields.drop_last();
        law_id_is_first_marked_field(t);
        assert forall|i: int| 0 <= i < t.len() implies #[trigger] t[i] == fields[i] by {}
        if spec_id(t) is Some {
            let m = spec_id(t)->0;
            let i = choose|i: int|
                {
                    &&& 0 <= i < t.len()
                    &&& !(#[trigger] t[i]).skip_serializing
                    &&& spec_field(t[i]).expand is None
                    &&& spec_field(t[i]).id
                    &&& t[i].member == m
                    &&& forall|j: int|
                        0 <= j < i ==> !(!(#[trigger] t[j]).skip_serializing && spec_field(
                            t[j],
                        ).expand is None && spec_field(t[j]).id)
                };
            assert(fields[i] == t[i]);
            assert forall|j: int| 0 <= j < i implies !(!(#[trigger] fields[j]).skip_serializing
                && spec_field(fields[j]).expand is None && spec_field(fields[j]).id) by {
                assert(fields[j] == t[j]);
            }
        } else {
            let last = fields.len() - 1;
            assert(fields[last] == fields.last());
            assert forall|j: int| 0 <= j < last implies !(!(#[trigger] fields[j]).skip_serializing
                && spec_field(fields[j]).expand is None && spec_field(fields[j]).id) by {
                assert(fields[j] == t[j]);
            }
        }
    }
}

/// Each entry that the fields yield as `kind` stands for a named field
/// expanded as `kind`: its name is the name the field is serialized under,
/// its identifier the field's, and it is optional when the field's type is.
pub proof fn law_candidates_are_fields(fields: Seq<SerdeField>, kind: Expand, k: int)
    requires
        0 <= k < spec_candidates(fields, kind).len(),
    ensures
        exists|i: int|
            {
                &&& 0 <= i < fields.len()
                &&& (#[trigger] fields[i]).member matches Member::Named(ident) && ident@
                    == spec_candidates(fields, kind)[k].1
                &&& fields[i].serialize_name@ == spec_candidates(fields, kind)[k].0
                &&& spec_field(fields[i]).expand == Some(kind)
                &&& spec_is_option(fields[i].ty) == spec_candidates(fields, kind)[k].2
            },
    decreases fields.len(),
{
    let t = fields.drop_last();
    let c = spec_candidates(fields, kind);
    let ct = spec_candidates(t, kind);
    if k < ct.len() {
        assert(c[k] == ct[k]);
        law_candidates_are_fields(t, kind, k);
        let i = choose|i: int|
            {
                &&& 0 <= i < t.len()
                &&& (#[trigger] t[i]).member matches Member::Named(ident) && ident@ == ct[k].1
                &&& t[i].serialize_name@ == ct[k].0
                &&& spec_field(t[i]).expand == Some(kind)
                &&& spec_is_option(t[i].ty) == ct[k].2
            };
        assert(fields[i] == t[i]);
    } else {
        let last = fields.len() - 1;
        assert(fields[last] == fields.last());
    }
}

/// Each entry of `select(s, optional)` is the name and identifier of an
/// entry of `s` whose optionality is `optional`.
proof fn lemma_select_from(s: Seq<(Seq<char>, Seq<char>, bool)>, optional: bool, k: int)
    requires
        0 <= k < spec_select(s, optional).len(),
    ensures
        exists|j: int|
            0 <= j < s.len() && (#[trigger] s[j]).2 == optional && spec_select(s, optional)[k]
                == (s[j].0, s[j].1),
    decreases s.len(),
{
    let t = s.drop_last();
    let st = spec_select(t, optional);
    if k < st.len() {
        assert(spec_select(s, optional)[k] == st[k]);
        lemma_select_from(t, optional, k);
        let j = choose|j: int|
            0 <= j < t.len() && (#[trigger] t[j]).2 == optional && st[k] == (t[j].0, t[j].1);
        assert(s[j] == t[j]);
    } else {
        assert(s[s.len() - 1] == s.last());
    }
}

/// Each field that the layout persists apart, as one entity (optional or
/// not) or item by item, stands for a named field of the container expanded
/// that way: its name is the name that field is serialized under and its
/// identifier is that field's, and an entity is listed as optional exactly
/// when the field's type is an `Option`.
pub proof fn law_layout_fields_are_serialized_names(
    fields: Seq<SerdeField>,
    kind: Expand,
    sorted: Seq<(Seq<char>, Seq<char>, bool)>,
    optional: bool,
    k: int,
)
    requires
        spec_is_sorted_by_name(sorted, spec_candidates(fields, kind)),
        0 <= k < spec_select(sorted, optional).len(),
    ensures
        exists|i: int|
            {
                &&& 0 <= i < fields.len()
                &&& (#[trigger] fields[i]).member matches Member::Named(ident) && ident@
                    == spec_select(sorted, optional)[k].1
                &&& fields[i].serialize_name@ == spec_select(sorted, optional)[k].0
                &&& spec_field(fields[i]).expand == Some(kind)
                &&& spec_is_option(fields[i].ty) == optional
            },
{
    let c = spec_candidates(fields, kind);
    lemma_select_from(sorted, optional, k);
    let j = choose|j: int|
        0 <= j < sorted.len() && (#[trigger] sorted[j]).2 == optional && spec_select(
            sorted,
            optional,
        )[k] == (sorted[j].0, sorted[j].1);
    assert(sorted.contains(sorted[j]));
    to_multiset_contains(sorted, sorted[j]);
    to_multiset_contains(c, sorted[j]);
    let m = choose|m: int| 0 <= m < c.len() && c[m] == sorted[j];
    law_candidates_are_fields(fields, kind, m);
}

/// Each field that the layout persists item by item stands for a named
/// field expanded that way: its name is the name that field is serialized
/// under and its identifier is that field's.
pub proof fn law_layout_collections_are_serialized_names(
    fields: Seq<SerdeField>,
    sorted: Seq<(Seq<char>, Seq<char>, bool)>,
    k: int,
)
    requires
        spec_is_sorted_by_name(sorted, spec_candidates(fields, Expand::Items)),
        0 <= k < spec_pairs(sorted).len(),
    ensures
        exists|i: int|
            {
                &&& 0 <= i < fields.len()
                &&& (#[trigger] fields[i]).member matches Member::Named(ident) && ident@
                    == spec_pairs(sorted)[k].1
                &&& fields[i].serialize_name@ == spec_pairs(sorted)[k].0
                &&& spec_field(fields[i]).expand == Some(Expand::Items)
            },
{
    let c = spec_candidates(fields, Expand::Items);
    assert(sorted.contains(sorted[k]));
    to_multiset_contains(sorted, sorted[k]);
    to_multiset_contains(c, sorted[k]);
    let m = choose|m: int| 0 <= m < c.len() && c[m] == sorted[k];
    law_candidates_are_fields(fields, Expand::Items, m);
}

} // verus!
