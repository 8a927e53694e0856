//! Script names and their order.
//!
//! A name is the sequence of characters of a file name. Names are ordered
//! as Rust orders strings: character by character, by code point, a proper
//! prefix before any of its extensions.

use itertools::Itertools;
use vstd::prelude::*;

verus! {

/// A name as contracts see it.
pub type Name = Seq<char>;

/// `a` stands before `b` in the order of names.
pub open spec fn name_lt(a: Name, b: Name) -> bool
    decreases a.len(),
{
    if b.len() == 0 {
        false
    } else if a.len() == 0 {
        true
    } else if a[0] != b[0] {
        (a[0] as int) < (b[0] as int)
    } else {
        name_lt(a.drop_first(), b.drop_first())
    }
}

/// `a` is `b` or stands before it.
pub open spec fn name_le(a: Name, b: Name) -> bool {
    a == b || name_lt(a, b)
}

/// No name stands before itself.
pub proof fn lemma_lt_irreflexive(a: Name)
    ensures
        !name_lt(a, a),
    decreases a.len(),
{
    if a.len() > 0 {
        lemma_lt_irreflexive(a.drop_first());
    }
}

/// Of two names at most one stands before the other.
pub proof fn lemma_lt_asymmetric(a: Name, b: Name)
    requires
        name_lt(a, b),
    ensures
        !name_lt(b, a),
    decreases a.len(),
{
    if a.len() > 0 && b.len() > 0 && a[0] == b[0] {
        lemma_lt_asymmetric(a.drop_first(), b.drop_first());
    }
}

/// The order passes along a chain.
pub proof fn lemma_lt_transitive(a: Name, b: Name, c: Name)
    requires
        name_lt(a, b),
        name_lt(b, c),
    ensures
        name_lt(a, c),
    decreases a.len(),
{
    if a.len() > 0 && b.len() > 0 && c.len() > 0 && a[0] == b[0] && b[0] == c[0] {
        lemma_lt_transitive(a.drop_first(), b.drop_first(), c.drop_first());
    }
}

/// Two different names are ordered one way or the other.
pub proof fn lemma_lt_total(a: Name, b: Name)
    requires
        a != b,
    ensures
        name_lt(a, b) || name_lt(b, a),
    decreases a.len(),
{
    if a.len() > 0 && b.len() > 0 && a[0] == b[0] {
        let x = a.drop_first();
        let y = b.drop_first();
        if x == y {
            assert(a =~= seq![a[0]] + x);
            assert(b =~= seq![b[0]] + y);
        }
        lemma_lt_total(x, y);
    } else if a.len() == 0 && b.len() == 0 {
        assert(a =~= b);
    }
}

/// The names that a vector of strings holds, in its order.
pub open spec fn names_of(v: Seq<String>) -> Seq<Name> {
    v.map_values(|s: String| s@)
}

/// Each name is followed only by itself or by later names.
pub open spec fn ascending(s: Seq<Name>) -> bool {
    forall|i: int, j: int| 0 <= i < j < s.len() ==> name_le(#[trigger] s[i], #[trigger] s[j])
}

/// Each name is followed only by later names; so none occurs twice.
pub open spec fn strictly_ascending(s: Seq<Name>) -> bool {
    forall|i: int, j: int| 0 <= i < j < s.len() ==> name_lt(#[trigger] s[i], #[trigger] s[j])
}

/// `suffix` is the end of `s`.
pub open spec fn is_suffix(s: Name, suffix: Name) -> bool {
    suffix.len() <= s.len() && s.subrange(s.len() - suffix.len(), s.len() as int) == suffix
}

/// Sorts with `itertools::Itertools::sorted`, which collects the strings
/// and sorts them with the standard stable sort. Trusted: the result holds
/// the same strings, each as often as before, in ascending order; strings
/// are compared by their bytes, which orders them by code point.
#[verifier::external_body]
pub(crate) fn sorted_names(names: Vec<String>) -> (out: Vec<String>)
    ensures
        ascending(names_of(out@)),
        names_of(out@).to_multiset() == names_of(names@).to_multiset(),
{
    names.into_iter().sorted().collect()
}

/// Tests the end of a string with `str::ends_with`. Trusted: the result
/// says whether the characters of `suffix` are the last of `s`.
#[verifier::external_body]
pub(crate) fn ends_with(s: &str, suffix: &str) -> (r: bool)
    ensures
        r == is_suffix(s@, suffix@),
{
    s.ends_with(suffix)
}

/// The names of `names` in ascending order, each once.
pub fn sorted_distinct(names: Vec<String>) -> (out: Vec<String>)
    ensures
        strictly_ascending(names_of(out@)),
        forall|n: Name| names_of(out@).contains(n) <==> names_of(names@).contains(n),
{
    let ghost given = names_of(names@);
    let sorted = sorted_names(names);
    let ghost s = names_of(sorted@);
    proof {
        s.to_multiset_ensures();
        given.to_multiset_ensures();
    }
    let mut out: Vec<String> = Vec::new();
    let mut i: usize = 0;
    while i < sorted.len()
        invariant
            i <= sorted.len(),
            s == names_of(sorted@),
            ascending(s),
            strictly_ascending(names_of(out@)),
            forall|k: int|
                0 <= k < out.len() ==> exists|m: int|
                    0 <= m < i && s[m] == #[trigger] names_of(out@)[k],
            forall|m: int| 0 <= m < i ==> names_of(out@).contains(#[trigger] s[m]),
            i > 0 ==> out.len() > 0 && names_of(out@).last() == s[i - 1],
        decreases sorted.len() - i,
    {
        let ghost before = names_of(out@);
        assert(s[i as int] == sorted@[i as int]@);
        assert(out.len() > 0 ==> before.last() == out@[out.len() - 1]@);
        let fresh = out.len() == 0 || !(out[out.len() - 1] == sorted[i]);
        if fresh {
            let name = sorted[i].clone();
            out.push(name);
            proof {
                let after = names_of(out@);
                assert(after =~= before.push(s[i as int]));
                assert forall|k: int, j: int| 0 <= k < j < after.len() implies name_lt(
                    #[trigger] after[k],
                    #[trigger] after[j],
                ) by {
                    if j == after.len() - 1 {
                        assert(after[k] == before[k]);
                        let m = choose|m: int| 0 <= m < i && s[m] == before[k];
                        lemma_below_fresh(s, m, i as int);
                    } else {
                        assert(after[k] == before[k] && after[j] == before[j]);
                    }
                }
                assert forall|k: int| 0 <= k < after.len() implies exists|m: int|
                    0 <= m < i + 1 && s[m] == #[trigger] after[k] by {
                    if k < before.len() {
                        assert(after[k] == before[k]);
                        let m = choose|m: int| 0 <= m < i && s[m] == before[k];
                        assert(0 <= m < i + 1 && s[m] == after[k]);
                    } else {
                        assert(0 <= i < i + 1 && s[i as int] == after[k]);
                    }
                }
                assert forall|m: int| 0 <= m < i + 1 implies after.contains(#[trigger] s[m]) by {
                    if m < i {
                        assert(before.contains(s[m]));
                        let k = choose|k: int| 0 <= k < before.len() && before[k] == s[m];
                        assert(after[k] == s[m]);
                    } else {
                        assert(after[after.len() - 1] == s[m]);
                    }
                }
            }
        } else {
            proof {
                assert(before.last() == s[i as int]);
                assert forall|k: int| 0 <= k < before.len() implies exists|m: int|
                    0 <= m < i + 1 && s[m] == #[trigger] before[k] by {
                    let m = choose|m: int| 0 <= m < i && s[m] == before[k];
                    assert(0 <= m < i + 1 && s[m] == before[k]);
                }
                assert forall|m: int| 0 <= m < i + 1 implies before.contains(#[trigger] s[m]) by {
                    if m == i {
                        assert(before[before.len() - 1] == s[m]);
                    }
                }
            }
        }
        i += 1;
    }
    proof {
        let got = names_of(out@);
        assert forall|n: Name| got.contains(n) <==> given.contains(n) by {
            assert(s.contains(n) <==> s.to_multiset().count(n) > 0);
            assert(given.contains(n) <==> given.to_multiset().count(n) > 0);
            if got.contains(n) {
                let k = choose|k: int| 0 <= k < got.len() && got[k] == n;
                let m = choose|m: int| 0 <= m < s.len() && s[m] == got[k];
                assert(s.contains(n));
            }
            if s.contains(n) {
                let m = choose|m: int| 0 <= m < s.len() && s[m] == n;
                assert(got.contains(s[m]));
            }
        }
    }
    out
}

/// In an ascending sequence, a name that differs from its neighbour on the
/// left stands after everything further left.
proof fn lemma_below_fresh(s: Seq<Name>, m: int, i: int)
    requires
        ascending(s),
        0 <= m < i < s.len(),
        s[i - 1] != s[i],
    ensures
        name_lt(s[m], s[i]),
{
    assert(name_le(s[m], s[i]));
    if s[m] == s[i] {
        assert(m < i - 1);
        assert(name_le(s[m], s[i - 1]));
        assert(name_le(s[i - 1], s[i]));
        lemma_lt_asymmetric(s[m], s[i - 1]);
    }
}

/// Two strictly ascending sequences that hold the same names are equal.
pub proof fn lemma_ascending_unique(a: Seq<Name>, b: Seq<Name>)
    requires
        strictly_ascending(a),
        strictly_ascending(b),
        forall|n: Name| a.contains(n) <==> b.contains(n),
    ensures
        a == b,
    decreases a.len(),
{
    if a.len() == 0 {
        if b.len() > 0 {
            assert(b.contains(b[0]));
        }
        assert(a =~= b);
    } else {
        assert(a.contains(a.last()));
        assert(b.contains(a.last()));
        let x = a.last();
        let y = b.last();
        assert(b.contains(y));
        let i = choose|i: int| 0 <= i < b.len() && b[i] == x;
        let j = choose|j: int| 0 <= j < a.len() && a[j] == y;
        if x != y {
            assert(name_lt(b[i], b[b.len() - 1]));
            assert(name_lt(a[j], a[a.len() - 1]));
            lemma_lt_asymmetric(x, y);
        }
        let a0 = a.drop_last();
        let b0 = b.drop_last();
        assert forall|n: Name| a0.contains(n) <==> b0.contains(n) by {
            lemma_lt_irreflexive(x);
            if a0.contains(n) {
                let k = choose|k: int| 0 <= k < a0.len() && a0[k] == n;
                assert(name_lt(a[k], a[a.len() - 1]));
                assert(a.contains(n));
                let l = choose|l: int| 0 <= l < b.len() && b[l] == n;
                assert(b0[l] == n);
            }
            if b0.contains(n) {
                let k = choose|k: int| 0 <= k < b0.len() && b0[k] == n;
                assert(name_lt(b[k], b[b.len() - 1]));
                assert(b.contains(n));
                let l = choose|l: int| 0 <= l < a.len() && a[l] == n;
                assert(a0[l] == n);
            }
        }
        assert forall|k: int, l: int| 0 <= k < l < a0.len() implies name_lt(
            #[trigger] a0[k],
            #[trigger] a0[l],
        ) by {
            assert(name_lt(a[k], a[l]));
        }
        assert forall|k: int, l: int| 0 <= k < l < b0.len() implies name_lt(
            #[trigger] b0[k],
            #[trigger] b0[l],
        ) by {
            assert(name_lt(b[k], b[l]));
        }
        lemma_ascending_unique(a0, b0);
        assert(a =~= a0.push(x));
        assert(b =~= b0.push(y));
    }
}

/// The place of the last occurrence of `name` in `names`, or -1 where it
/// does not occur.
pub open spec fn last_index(names: Seq<Name>, name: Name) -> int
    decreases names.len(),
{
    if names.len() == 0 {
        -1
    } else if names.last() == name {
        names.len() - 1
    } else {
        last_index(names.drop_last(), name)
    }
}

/// What `last_index` finds: the greatest place that holds the name.
pub proof fn lemma_last_index(names: Seq<Name>, name: Name)
    ensures
        -1 <= last_index(names, name) < names.len(),
        last_index(names, name) >= 0 ==> names[last_index(names, name)] == name,
        forall|j: int| last_index(names, name) < j < names.len() ==> names[j] != name,
        last_index(names, name) >= 0 <==> names.contains(name),
    decreases names.len(),
{
    if names.len() > 0 {
        let front = names.drop_last();
        lemma_last_index(front, name);
        if names.last() != name {
            assert forall|j: int| last_index(names, name) < j < names.len() implies names[j]
                != name by {
                if j < front.len() {
                    assert(front[j] == names[j]);
                }
            }
            if last_index(front, name) >= 0 {
                assert(front[last_index(front, name)] == names[last_index(front, name)]);
            }
            if names.contains(name) {
                let k = choose|k: int| 0 <= k < names.len() && names[k] == name;
                assert(front[k] == name);
            }
        }
    }
}

/// The places below `n` whose name does not occur again further on, in
/// ascending order: the last occurrence of every name among them.
pub open spec fn kept_indices(names: Seq<Name>, n: nat) -> Seq<int>
    decreases n,
{
    if n == 0 {
        Seq::empty()
    } else if last_index(names, names[n - 1]) == n - 1 {
        kept_indices(names, (n - 1) as nat).push(n - 1)
    } else {
        kept_indices(names, (n - 1) as nat)
    }
}

/// The names at the kept places.
pub open spec fn kept_names(names: Seq<Name>) -> Seq<Name> {
    Seq::new(kept_indices(names, names.len()).len(), |k: int| names[kept_indices(names, names.len())[k]])
}

/// The kept places ascend, each is the last occurrence of its name, and the
/// last occurrence of every name below `n` is among them.
pub proof fn lemma_kept_indices(names: Seq<Name>, n: nat)
    requires
        n <= names.len(),
    ensures
        forall|k: int|
            0 <= k < kept_indices(names, n).len() ==> {
                &&& 0 <= #[trigger] kept_indices(names, n)[k] < n
                &&& last_index(names, names[kept_indices(names, n)[k]]) == kept_indices(names, n)[k]
            },
        forall|k: int, l: int|
            0 <= k < l < kept_indices(names, n).len() ==> #[trigger] kept_indices(names, n)[k]
                < #[trigger] kept_indices(names, n)[l],
        forall|i: int|
            0 <= i < n && last_index(names, #[trigger] names[i]) == i ==> kept_indices(
                names,
                n,
            ).contains(i),
    decreases n,
{
    if n > 0 {
        let prev = kept_indices(names, (n - 1) as nat);
        let cur = kept_indices(names, n);
        lemma_kept_indices(names, (n - 1) as nat);
        assert forall|i: int| 0 <= i < n && last_index(names, #[trigger] names[i]) == i implies cur.contains(
            i,
        ) by {
            if i < n - 1 {
                assert(prev.contains(i));
                let k = choose|k: int| 0 <= k < prev.len() && prev[k] == i;
                assert(cur[k] == i);
            } else {
                assert(cur[cur.len() - 1] == i);
            }
        }
    }
}

/// Where no name occurs twice, every place is kept.
pub proof fn lemma_kept_all(names: Seq<Name>, n: nat)
    requires
        n <= names.len(),
        forall|i: int, j: int| 0 <= i < j < names.len() ==> names[i] != names[j],
    ensures
        kept_indices(names, n) == Seq::new(n, |i: int| i),
    decreases n,
{
    if n > 0 {
        lemma_kept_all(names, (n - 1) as nat);
        lemma_last_index(names, names[n - 1]);
        assert(kept_indices(names, n) =~= Seq::new(n, |i: int| i));
    } else {
        assert(kept_indices(names, n) =~= Seq::new(n, |i: int| i));
    }
}

/// No name is kept twice, and the names kept are the names given.
pub proof fn lemma_kept_names(names: Seq<Name>)
    ensures
        forall|k: int, l: int|
            0 <= k < l < kept_names(names).len() ==> #[trigger] kept_names(names)[k]
                != #[trigger] kept_names(names)[l],
        forall|n: Name| kept_names(names).contains(n) <==> names.contains(n),
{
    let idx = kept_indices(names, names.len());
    let kept = kept_names(names);
    lemma_kept_indices(names, names.len());
    assert forall|n: Name| kept.contains(n) <==> names.contains(n) by {
        lemma_last_index(names, n);
        if kept.contains(n) {
            let k = choose|k: int| 0 <= k < kept.len() && kept[k] == n;
            assert(names[idx[k]] == n);
        }
        if names.contains(n) {
            let i = last_index(names, n);
            assert(names[i] == n);
            assert(idx.contains(i));
            let k = choose|k: int| 0 <= k < idx.len() && idx[k] == i;
            assert(kept[k] == n);
        }
    }
}

/// Finds the last occurrence of `name` in `names`.
pub fn find_last(names: &Vec<String>, name: &String) -> (found: Option<usize>)
    ensures
        match found {
            Some(i) => i == last_index(names_of(names@), name@),
            None => last_index(names_of(names@), name@) == -1,
        },
{
    let ghost all = names_of(names@);
    let mut i: usize = names.len();
    assert(all.take(i as int) =~= all);
    while i > 0
        invariant
            i <= names.len(),
            all == names_of(names@),
            last_index(all, name@) == last_index(all.take(i as int), name@),
        decreases i,
    {
        let ghost front = all.take(i as int);
        assert(front.last() == names@[i - 1]@);
        assert(front.drop_last() =~= all.take(i - 1));
        if names[i - 1] == *name {
            return Some(i - 1);
        }
        i -= 1;
    }
    assert(all.take(0).len() == 0);
    None
}

/// Says whether the name at place `i` does not occur again further on.
pub fn is_last_occurrence(names: &Vec<String>, i: usize) -> (r: bool)
    requires
        i < names.len(),
    ensures
        r == (last_index(names_of(names@), names_of(names@)[i as int]) == i),
{
    let found = find_last(names, &names[i]);
    match found {
        Some(j) => j == i,
        None => false,
    }
}

} // verus!
