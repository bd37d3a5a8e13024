use itertools::Itertools;
use vstd::prelude::*;

verus! {

/// The texts of a sequence of strings.
pub open spec fn spec_texts_of(s: Seq<String>) -> Seq<Seq<char>> {
    s.map_values(|x: String| x@)
}

/// The elements of `s` that are equal to an earlier element, in order.
pub open spec fn spec_repeats(s: Seq<Seq<char>>) -> Seq<Seq<char>>
    decreases s.len(),
{
    if s.len() == 0 {
        Seq::empty()
    } else {
        let before = spec_repeats(s.drop_last());
        if s.drop_last().contains(s.last()) {
            before.push(s.last())
        } else {
            before
        }
    }
}

/// `s` with each run of consecutive equal elements reduced to its first.
pub open spec fn spec_dedup(s: Seq<Seq<char>>) -> Seq<Seq<char>>
    decreases s.len(),
{
    if s.len() == 0 {
        Seq::empty()
    } else {
        let before = spec_dedup(s.drop_last());
        if s.len() >= 2 && s[s.len() - 2] == s.last() {
            before
        } else {
            before.push(s.last())
        }
    }
}

/// The duplicated elements of `s`: each element equal to an earlier one, in
/// order, with runs of consecutive equal ones reduced to one.
pub open spec fn spec_collect_duplicates(s: Seq<Seq<char>>) -> Seq<Seq<char>> {
    spec_dedup(spec_repeats(s))
}

/// Removes consecutive repeated elements with `Itertools::dedup`, which
/// yields each element that differs from the one before it (by `==`, which
/// for strings compares their text), the first one always.
#[verifier::external_body]
fn dedup_strings(s: Vec<String>) -> (r: Vec<String>)
    ensures
        spec_texts_of(r@) == spec_dedup(spec_texts_of(s@)),
{
    s.into_iter().dedup().collect()
}

/// Collects the duplicated elements of `names`: those equal to an earlier
/// one, with runs of consecutive equal ones reduced to one.
pub fn collect_duplicates(names: &Vec<String>) -> (r: Vec<String>)
    ensures
        spec_texts_of(r@) == spec_collect_duplicates(spec_texts_of(names@)),
{
    let ghost texts = spec_texts_of(names@);
    let mut repeats: Vec<String> = Vec::new();
    let n = names.len();
    for i in 0..n
        invariant
            n == names@.len(),
            texts == spec_texts_of(names@),
            spec_texts_of(repeats@) == spec_repeats(texts.take(i as int)),
    {
        let ghost prefix = texts.take(i as int);
        assert(texts.take(i + 1).drop_last() =~= prefix);
        assert(texts.take(i + 1).last() == names@[i as int]@);
        let mut seen = false;
        for j in 0..i
            invariant
                i < n,
                n == names@.len(),
                texts == spec_texts_of(names@),
                prefix == texts.take(i as int),
                seen == (exists|k: int| 0 <= k < j && prefix[k] == names@[i as int]@),
        {
            assert(prefix[j as int] == names@[j as int]@);
            if names[j] == names[i] {
                seen = true;
            }
            assert(seen == (exists|k: int| 0 <= k < j + 1 && prefix[k] == names@[i as int]@)) by {
                if !seen {
                    assert forall|k: int| 0 <= k < j + 1 implies prefix[k] != names@[i as int]@ by {
                        if k < j {
                        }
                    }
                }
            }
        }
        proof {
            if seen {
                let k = choose|k: int| 0 <= k < i && prefix[k] == names@[i as int]@;
                assert(prefix.contains(names@[i as int]@));
            } else {
                assert(!prefix.contains(names@[i as int]@));
            }
        }
        if seen {
            repeats.push(names[i].clone());
            assert(spec_texts_of(repeats@) =~= spec_repeats(texts.take(i + 1)));
        }
    }
    assert(texts.take(n as int) =~= texts);
    dedup_strings(repeats)
}

/// `a` comes before `b` or equals it, comparing characters in turn by code
/// point, a proper prefix first; for strings this is the order of `Ord`,
/// which compares their UTF-8 bytes, as UTF-8 keeps the order of code
/// points.
pub open spec fn spec_text_le(a: Seq<char>, b: Seq<char>) -> bool
    decreases a.len(),
{
    if a.len() == 0 {
        true
    } else if b.len() == 0 {
        false
    } else if a[0] != b[0] {
        (a[0] as u32) < (b[0] as u32)
    } else {
        spec_text_le(a.drop_first(), b.drop_first())
    }
}

} // verus!
