//! Insertion-ordered association sequences.
//!
//! The builder keeps its keyed collections — inputs, reference inputs,
//! collateral, withdrawals, redeemers, and the asset container's two levels —
//! as vectors of key/value pairs with unique keys, so that iteration is the
//! insertion order and therefore deterministic.  This module gives the spec
//! model of such a sequence: lookup, insert-or-replace, and the lemmas that
//! connect a scan for the first matching key to those spec functions.

use vstd::prelude::*;

verus! {

/// The keys of an association sequence, in order.
pub open spec fn key_seq<K, V>(s: Seq<(K, V)>) -> Seq<K> {
    s.map_values(|p: (K, V)| p.0)
}

/// Whether some pair of `s` has key `k`.
pub open spec fn has_key<K, V>(s: Seq<(K, V)>, k: K) -> bool {
    exists|i: int| 0 <= i < s.len() && s[i].0 == k
}

/// The value of the first pair with key `k`, if any.
pub open spec fn lookup<K, V>(s: Seq<(K, V)>, k: K) -> Option<V>
    decreases s.len(),
{
    if s.len() == 0 {
        None
    } else if s[0].0 == k {
        Some(s[0].1)
    } else {
        lookup(s.drop_first(), k)
    }
}

/// `s` with the first pair keyed `k` replaced by `(k, v)`, or `(k, v)`
/// appended when no pair has that key.
pub open spec fn assoc_insert<K, V>(s: Seq<(K, V)>, k: K, v: V) -> Seq<(K, V)>
    decreases s.len(),
{
    if s.len() == 0 {
        seq![(k, v)]
    } else if s[0].0 == k {
        seq![(k, v)] + s.drop_first()
    } else {
        seq![s[0]] + assoc_insert(s.drop_first(), k, v)
    }
}

/// No two pairs of `s` share a key.
pub open spec fn unique_keys<K, V>(s: Seq<(K, V)>) -> bool {
    forall|i: int, j: int| 0 <= i < j < s.len() ==> s[i].0 != s[j].0
}

/// A first match at position `i` decides `lookup` and `has_key`.
pub proof fn lemma_lookup_at<K, V>(s: Seq<(K, V)>, k: K, i: int)
    requires
        0 <= i < s.len(),
        s[i].0 == k,
        forall|j: int| 0 <= j < i ==> s[j].0 != k,
    ensures
        lookup(s, k) == Some(s[i].1),
        has_key(s, k),
    decreases i,
{
    if i > 0 {
        lemma_lookup_at(s.drop_first(), k, i - 1);
    }
}

/// A scan that found no match decides `lookup` and `has_key`.
pub proof fn lemma_lookup_none<K, V>(s: Seq<(K, V)>, k: K)
    requires
        forall|j: int| 0 <= j < s.len() ==> s[j].0 != k,
    ensures
        lookup(s, k) == None::<V>,
        !has_key(s, k),
    decreases s.len(),
{
    if s.len() > 0 {
        lemma_lookup_none(s.drop_first(), k);
    }
}

/// When the first match is at position `i`, inserting replaces that pair.
pub proof fn lemma_assoc_insert_found<K, V>(s: Seq<(K, V)>, k: K, v: V, i: int)
    requires
        0 <= i < s.len(),
        s[i].0 == k,
        forall|j: int| 0 <= j < i ==> s[j].0 != k,
    ensures
        assoc_insert(s, k, v) == s.update(i, (k, v)),
    decreases i,
{
    if i == 0 {
        assert(assoc_insert(s, k, v) =~= s.update(0, (k, v)));
    } else {
        lemma_assoc_insert_found(s.drop_first(), k, v, i - 1);
        assert(s.update(i, (k, v)).drop_first() =~= s.drop_first().update(i - 1, (k, v)));
        assert(assoc_insert(s, k, v) =~= s.update(i, (k, v)));
    }
}

/// When no pair has key `k`, inserting appends.
pub proof fn lemma_assoc_insert_append<K, V>(s: Seq<(K, V)>, k: K, v: V)
    requires
        forall|j: int| 0 <= j < s.len() ==> s[j].0 != k,
    ensures
        assoc_insert(s, k, v) == s.push((k, v)),
    decreases s.len(),
{
    if s.len() == 0 {
        assert(assoc_insert(s, k, v) =~= s.push((k, v)));
    } else {
        lemma_assoc_insert_append(s.drop_first(), k, v);
        assert(s.push((k, v)).drop_first() =~= s.drop_first().push((k, v)));
        assert(assoc_insert(s, k, v) =~= s.push((k, v)));
    }
}

/// Inserting preserves key uniqueness, and updates the key sequence as an
/// insertion does: unchanged when the key is present, appended otherwise.
pub proof fn lemma_assoc_insert_keys<K, V>(s: Seq<(K, V)>, k: K, v: V)
    requires
        unique_keys(s),
    ensures
        unique_keys(assoc_insert(s, k, v)),
        has_key(s, k) ==> key_seq(assoc_insert(s, k, v)) == key_seq(s),
        !has_key(s, k) ==> key_seq(assoc_insert(s, k, v)) == key_seq(s).push(k),
        lookup(assoc_insert(s, k, v), k) == Some(v),
        forall|k2: K| k2 != k ==> lookup(assoc_insert(s, k, v), k2) == lookup(s, k2),
        forall|k2: K| #[trigger] has_key(assoc_insert(s, k, v), k2) == (has_key(s, k2) || k2
            == k),
{
    if has_key(s, k) {
        let i = choose|i: int| 0 <= i < s.len() && s[i].0 == k;
        let fi = first_key_index(s, k, i);
        lemma_assoc_insert_found(s, k, v, fi);
        let t = s.update(fi, (k, v));
        assert(key_seq(t) =~= key_seq(s));
        lemma_lookup_at(t, k, fi);
        assert forall|k2: K| k2 != k implies lookup(t, k2) == lookup(s, k2) by {
            lemma_lookup_update_other(s, k2, fi, (k, v));
        }
        assert forall|k2: K| #[trigger] has_key(t, k2) == (has_key(s, k2) || k2 == k) by {
            if has_key(t, k2) && k2 != k {
                let j = choose|j: int| 0 <= j < t.len() && t[j].0 == k2;
                assert(s[j].0 == k2);
            }
            if has_key(s, k2) && k2 != k {
                let j = choose|j: int| 0 <= j < s.len() && s[j].0 == k2;
                assert(t[j].0 == k2);
            }
        }
    } else {
        assert(forall|j: int| 0 <= j < s.len() ==> s[j].0 != k) by {
            assert forall|j: int| 0 <= j < s.len() implies s[j].0 != k by {
                if s[j].0 == k {
                    assert(has_key(s, k));
                }
            }
        }
        lemma_assoc_insert_append(s, k, v);
        let t = s.push((k, v));
        assert(key_seq(t) =~= key_seq(s).push(k));
        lemma_lookup_at(t, k, s.len() as int);
        assert forall|k2: K| k2 != k implies lookup(t, k2) == lookup(s, k2) by {
            lemma_lookup_push_other(s, k2, (k, v));
        }
        assert forall|k2: K| #[trigger] has_key(t, k2) == (has_key(s, k2) || k2 == k) by {
            if has_key(t, k2) && k2 != k {
                let j = choose|j: int| 0 <= j < t.len() && t[j].0 == k2;
                assert(j < s.len() && s[j].0 == k2);
            }
            if has_key(s, k2) {
                let j = choose|j: int| 0 <= j < s.len() && s[j].0 == k2;
                assert(t[j].0 == k2);
            }
        }
    }
}

/// The index of the first pair keyed `k`, given that one exists at `i`.
proof fn first_key_index<K, V>(s: Seq<(K, V)>, k: K, i: int) -> (r: int)
    requires
        0 <= i < s.len(),
        s[i].0 == k,
    ensures
        0 <= r < s.len(),
        s[r].0 == k,
        forall|j: int| 0 <= j < r ==> s[j].0 != k,
    decreases i,
{
    if exists|j: int| 0 <= j < i && s[j].0 == k {
        let j = choose|j: int| 0 <= j < i && s[j].0 == k;
        first_key_index(s, k, j)
    } else {
        i
    }
}

/// Updating a position whose key is not `k2` leaves `lookup` of `k2` alone.
proof fn lemma_lookup_update_other<K, V>(s: Seq<(K, V)>, k2: K, i: int, p: (K, V))
    requires
        0 <= i < s.len(),
        s[i].0 != k2,
        p.0 != k2,
    ensures
        lookup(s.update(i, p), k2) == lookup(s, k2),
    decreases i,
{
    let t = s.update(i, p);
    if i == 0 {
        assert(t.drop_first() =~= s.drop_first());
    } else {
        assert(t[0] == s[0]);
        if s[0].0 != k2 {
            assert(t.drop_first() =~= s.drop_first().update(i - 1, p));
            lemma_lookup_update_other(s.drop_first(), k2, i - 1, p);
        }
    }
}

/// Pushing a pair with a different key leaves `lookup` of `k2` alone.
proof fn lemma_lookup_push_other<K, V>(s: Seq<(K, V)>, k2: K, p: (K, V))
    requires
        p.0 != k2,
    ensures
        lookup(s.push(p), k2) == lookup(s, k2),
    decreases s.len(),
{
    if s.len() == 0 {
        assert(s.push(p) =~= seq![p]);
        assert(seq![p].drop_first().len() == 0);
        assert(lookup(seq![p].drop_first(), k2) == None::<V>);
        assert(lookup(s.push(p), k2) == None::<V>);
    } else {
        assert(s.push(p)[0] == s[0]);
        assert(s.push(p).drop_first() =~= s.drop_first().push(p));
        lemma_lookup_push_other(s.drop_first(), k2, p);
        assert(lookup(s.push(p), k2) == lookup(s, k2));
    }
}

} // verus!
