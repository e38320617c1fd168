//! Ghost model of keyed collections held as sequences of key/value pairs.
//!
//! The executable stores keep their entries in vectors; these functions give
//! such a sequence its meaning as a finite map and relate the vector
//! operations (push, swap-removal, value enumeration) to map operations.

use vstd::prelude::*;

verus! {

use vstd::set::axiom_set_insert_len;

/// The map described by a sequence of key/value pairs.
/// A later pair for the same key overrides an earlier one.
pub open spec fn assoc_map<V>(s: Seq<(Seq<char>, V)>) -> Map<Seq<char>, V>
    decreases s.len(),
{
    if s.len() == 0 {
        Map::empty()
    } else {
        assoc_map(s.drop_last()).insert(s.last().0, s.last().1)
    }
}

/// All keys of the sequence are pairwise distinct.
pub open spec fn distinct_keys<V>(s: Seq<(Seq<char>, V)>) -> bool {
    forall|i: int, j: int| 0 <= i < j < s.len() ==> #[trigger] s[i].0 != #[trigger] s[j].0
}

/// A key is in the map exactly when some pair of the sequence holds it.
pub proof fn lemma_assoc_map_contains<V>(s: Seq<(Seq<char>, V)>, k: Seq<char>)
    ensures
        assoc_map(s).contains_key(k) <==> exists|i: int| 0 <= i < s.len() && #[trigger] s[i].0 == k,
    decreases s.len(),
{
    if s.len() > 0 {
        lemma_assoc_map_contains(s.drop_last(), k);
        if s.last().0 == k {
            assert(s[s.len() - 1].0 == k);
        } else {
            if assoc_map(s).contains_key(k) {
                let i = choose|i: int|
                    0 <= i < s.drop_last().len() && #[trigger] s.drop_last()[i].0 == k;
                assert(s[i].0 == k);
            }
            if exists|i: int| 0 <= i < s.len() && #[trigger] s[i].0 == k {
                let i = choose|i: int| 0 <= i < s.len() && #[trigger] s[i].0 == k;
                assert(s.drop_last()[i].0 == k);
            }
        }
    }
}

/// With distinct keys, the pair at any position gives the map's value at its key.
pub proof fn lemma_assoc_map_index<V>(s: Seq<(Seq<char>, V)>, i: int)
    requires
        distinct_keys(s),
        0 <= i < s.len(),
    ensures
        assoc_map(s).contains_key(s[i].0),
        assoc_map(s)[s[i].0] == s[i].1,
    decreases s.len(),
{
    if i < s.len() - 1 {
        assert(distinct_keys(s.drop_last()));
        lemma_assoc_map_index(s.drop_last(), i);
        assert(s[s.len() - 1].0 != s[i].0);
    }
}

/// With distinct keys, the map has exactly one entry per pair.
pub proof fn lemma_assoc_map_len<V>(s: Seq<(Seq<char>, V)>)
    requires
        distinct_keys(s),
    ensures
        assoc_map(s).dom().finite(),
        assoc_map(s).dom().len() == s.len(),
    decreases s.len(),
{
    broadcast use axiom_set_insert_len;

    if s.len() == 0 {
        assert(assoc_map(s).dom() =~= Set::<Seq<char>>::empty());
    } else {
        assert(distinct_keys(s.drop_last()));
        lemma_assoc_map_len(s.drop_last());
        lemma_assoc_map_contains(s.drop_last(), s.last().0);
        assert(!assoc_map(s.drop_last()).contains_key(s.last().0)) by {
            if exists|i: int| 0 <= i < s.drop_last().len() && #[trigger] s.drop_last()[i].0
                == s.last().0 {
                let i = choose|i: int|
                    0 <= i < s.drop_last().len() && #[trigger] s.drop_last()[i].0 == s.last().0;
                assert(s[i].0 == s[s.len() - 1].0);
                assert(false);
            }
        }
        assert(assoc_map(s).dom() == assoc_map(s.drop_last()).dom().insert(s.last().0));
    }
}

/// The sequence lists the map's values exactly: some enumeration of pairwise
/// distinct keys pairs each element of the sequence with its entry in the
/// map. Together with equal lengths this makes the listing complete — every
/// entry appears, and appears once per key that holds it.
pub open spec fn values_of_map<V>(cs: Seq<V>, m: Map<Seq<char>, V>) -> bool {
    exists|ks: Seq<Seq<char>>|
        #![trigger ks.len()]
        {
            &&& ks.len() == cs.len()
            &&& (forall|i: int, j: int|
                0 <= i < j < ks.len() ==> #[trigger] ks[i] != #[trigger] ks[j])
            &&& (forall|i: int|
                0 <= i < ks.len() ==> #[trigger] m.contains_key(ks[i]) && m[ks[i]] == cs[i])
        }
}

/// A sequence that lists the value of each pair, in order, lists the map's
/// values exactly: the pairs' own keys are the enumeration.
pub proof fn lemma_assoc_map_values<V>(s: Seq<(Seq<char>, V)>, cs: Seq<V>)
    requires
        distinct_keys(s),
        cs.len() == s.len(),
        forall|i: int| 0 <= i < s.len() ==> #[trigger] cs[i] == s[i].1,
    ensures
        values_of_map(cs, assoc_map(s)),
{
    let ks = s.map_values(|p: (Seq<char>, V)| p.0);
    assert(ks.len() == cs.len());
    assert forall|i: int, j: int| 0 <= i < j < ks.len() implies #[trigger] ks[i] != #[trigger] ks[j] by {
        assert(s[i].0 != s[j].0);
    }
    assert forall|i: int| 0 <= i < ks.len() implies #[trigger] assoc_map(s).contains_key(ks[i])
        && assoc_map(s)[ks[i]] == cs[i] by {
        lemma_assoc_map_index(s, i);
    }
}

/// Appending a pair inserts its key.
pub proof fn lemma_assoc_map_push<V>(s: Seq<(Seq<char>, V)>, k: Seq<char>, v: V)
    ensures
        assoc_map(s.push((k, v))) == assoc_map(s).insert(k, v),
{
    assert(s.push((k, v)).drop_last() =~= s);
    assert(s.push((k, v)).last() == (k, v));
}

/// Appending a pair with a fresh key keeps the keys distinct.
pub proof fn lemma_distinct_keys_push<V>(s: Seq<(Seq<char>, V)>, k: Seq<char>, v: V)
    requires
        distinct_keys(s),
        forall|i: int| 0 <= i < s.len() ==> #[trigger] s[i].0 != k,
    ensures
        distinct_keys(s.push((k, v))),
{
    let t = s.push((k, v));
    assert forall|i: int, j: int| 0 <= i < j < t.len() implies #[trigger] t[i].0 != #[trigger] t[j].0 by {
        if j < s.len() {
            assert(s[i].0 != s[j].0);
        } else {
            assert(t[j] == (k, v));
            assert(s[i].0 != k);
        }
    }
}

/// Swap-removing the pair at a position removes its key from the map.
pub proof fn lemma_assoc_map_swap_remove<V>(s: Seq<(Seq<char>, V)>, i: int)
    requires
        distinct_keys(s),
        0 <= i < s.len(),
    ensures
        assoc_map(s.update(i, s.last()).drop_last()) == assoc_map(s).remove(s[i].0),
        distinct_keys(s.update(i, s.last()).drop_last()),
{
    let t = s.update(i, s.last()).drop_last();
    assert(distinct_keys(t)) by {
        assert forall|p: int, q: int| 0 <= p < q < t.len() implies #[trigger] t[p].0 != #[trigger] t[q].0 by {
            let sp: int = if p == i { s.len() - 1 } else { p };
            let sq: int = if q == i { s.len() - 1 } else { q };
            assert(t[p].0 == s[sp].0);
            assert(t[q].0 == s[sq].0);
        }
    }
    assert(assoc_map(t) =~= assoc_map(s).remove(s[i].0)) by {
        lemma_assoc_map_len(s);
        lemma_assoc_map_len(t);
        assert forall|k: Seq<char>| #[trigger] assoc_map(t).contains_key(k)
            == assoc_map(s).remove(s[i].0).contains_key(k) by {
            lemma_assoc_map_contains(t, k);
            lemma_assoc_map_contains(s, k);
            if exists|p: int| 0 <= p < t.len() && #[trigger] t[p].0 == k {
                let p = choose|p: int| 0 <= p < t.len() && #[trigger] t[p].0 == k;
                let sp: int = if p == i { s.len() - 1 } else { p };
                assert(s[sp].0 == k);
                assert(k != s[i].0);
            }
            if assoc_map(s).remove(s[i].0).contains_key(k) {
                let p = choose|p: int| 0 <= p < s.len() && #[trigger] s[p].0 == k;
                if p == s.len() - 1 {
                    if i < s.len() - 1 {
                        assert(t[i].0 == k);
                    }
                } else {
                    assert(p != i);
                    assert(t[p].0 == k);
                }
            }
        }
        assert forall|k: Seq<char>| #[trigger] assoc_map(t).contains_key(k) implies assoc_map(t)[k]
            == assoc_map(s).remove(s[i].0)[k] by {
            lemma_assoc_map_contains(t, k);
            let p = choose|p: int| 0 <= p < t.len() && #[trigger] t[p].0 == k;
            lemma_assoc_map_index(t, p);
            let sp: int = if p == i { s.len() - 1 } else { p };
            assert(s[sp].0 == k && s[sp].1 == t[p].1);
            lemma_assoc_map_index(s, sp);
            assert(k != s[i].0);
        }
    }
}

} // verus!
