//! Small general lemmas about sequences, shared by the store and the
//! writer pipeline proofs.

use vstd::prelude::*;

verus! {

/// Pushing an element and then dropping it gives the sequence back.
pub proof fn lemma_push_parts<A>(s: Seq<A>, x: A)
    ensures
        s.push(x).drop_last() == s,
        s.push(x).last() == x,
{
    assert(s.push(x).drop_last() =~= s);
}

/// A prefix one element longer splits into the shorter prefix and that element.
pub proof fn lemma_take_step<A>(s: Seq<A>, i: int)
    requires
        0 <= i < s.len(),
    ensures
        s.take(i + 1).drop_last() == s.take(i),
        s.take(i + 1).last() == s[i],
        s.take(i + 1) == s.take(i).push(s[i]),
{
    assert(s.take(i + 1).drop_last() =~= s.take(i));
    assert(s.take(i + 1) =~= s.take(i).push(s[i]));
}

/// Taking the whole length of a sequence gives the sequence back.
pub proof fn lemma_take_full<A>(s: Seq<A>)
    ensures
        s.take(s.len() as int) == s,
{
    assert(s.take(s.len() as int) =~= s);
}

/// Membership in a non-empty sequence is membership in its front or equality
/// with its last element.
pub proof fn lemma_contains_split<A>(s: Seq<A>, x: A)
    requires
        s.len() > 0,
    ensures
        s.contains(x) <==> (s.drop_last().contains(x) || s.last() == x),
{
    if s.contains(x) {
        let i = choose|i: int| 0 <= i < s.len() && s[i] == x;
        if i < s.len() - 1 {
            assert(s.drop_last()[i] == x);
        }
    }
    if s.drop_last().contains(x) {
        let i = choose|i: int| 0 <= i < s.drop_last().len() && s.drop_last()[i] == x;
        assert(s[i] == x);
    }
    if s.last() == x {
        assert(s[s.len() - 1] == x);
    }
}

/// The map obtained by inserting each pair of `s` into `m` in order, so a
/// later pair for a key supersedes both `m` and earlier pairs.
pub open spec fn override_map<K, V>(m: Map<K, V>, s: Seq<(K, V)>) -> Map<K, V>
    decreases s.len(),
{
    if s.len() == 0 {
        m
    } else {
        override_map(m, s.drop_last()).insert(s.last().0, s.last().1)
    }
}

/// A key that no pair of `s` carries keeps its binding from `m`.
pub proof fn lemma_override_absent<K, V>(m: Map<K, V>, s: Seq<(K, V)>, k: K)
    requires
        forall|j: int| 0 <= j < s.len() ==> (#[trigger] s[j]).0 != k,
    ensures
        override_map(m, s).contains_key(k) == m.contains_key(k),
        m.contains_key(k) ==> override_map(m, s)[k] == m[k],
    decreases s.len(),
{
    if s.len() > 0 {
        lemma_override_absent(m, s.drop_last(), k);
    }
}

/// A key that exactly one pair of `s` carries is bound to that pair's value.
pub proof fn lemma_override_present<K, V>(m: Map<K, V>, s: Seq<(K, V)>, j: int)
    requires
        0 <= j < s.len(),
        forall|l: int| 0 <= l < s.len() && l != j ==> (#[trigger] s[l]).0 != s[j].0,
    ensures
        override_map(m, s).contains_key(s[j].0),
        override_map(m, s)[s[j].0] == s[j].1,
    decreases s.len(),
{
    if j == s.len() - 1 {
    } else {
        assert(s.drop_last()[j] == s[j]);
        lemma_override_present(m, s.drop_last(), j);
    }
}

} // verus!
