//! The multi-asset container.
//!
//! A `MultiAsset<T>` maps policy identifiers to maps from asset names to
//! amounts; mint amounts are signed (negative amounts burn), output amounts
//! unsigned.  It grows through `add`, which rejects a name longer than 32
//! bytes, and is consumed once by `build`, which flattens it into the
//! canonical form the wire encoding and the mint-policy order share: policies
//! ascending bytewise, names ascending by their encoded forms.

use vstd::prelude::*;
use crate::assoc::{assoc_insert, has_key, key_seq, lookup, unique_keys, lemma_lookup_at,
    lemma_lookup_none, lemma_assoc_insert_found, lemma_assoc_insert_append,
    lemma_assoc_insert_keys};
use crate::bytes::bytes_eq;
use crate::sort::{canonical_name_keys, canonical_policy_ids, sort_name_keys, sort_policy_ids};
use crate::tx::{copy_bytes, Assets, AssetsV, PolicyId};

verus! {

/// An error from constructing assets.
#[derive(Debug, Clone, PartialEq, Eq)]
pub enum AssetError {
    /// The asset name exceeds the 32-byte limit.
    InvalidAssetName,
}

/// The longest asset name the ledger accepts, in bytes.
pub const MAX_ASSET_NAME_LEN: usize = 32;

/// A mapping from policy identifier to a mapping from asset name to amount,
/// in insertion order at both levels.
#[derive(Debug, Clone)]
pub struct MultiAsset<T> {
    entries: Assets<T>,
}

impl<T: DeepView<V = T>> View for MultiAsset<T> {
    type V = AssetsV<T>;

    closed spec fn view(&self) -> AssetsV<T> {
        self.entries.deep_view()
    }
}

/// Both levels of a flattened multi-asset value have unique keys.
pub open spec fn assets_wf<T>(m: AssetsV<T>) -> bool {
    &&& unique_keys(m)
    &&& forall|i: int| 0 <= i < m.len() ==> unique_keys(#[trigger] m[i].1)
}

/// The model of `add`: insert or overwrite the (policy, name) entry.
pub open spec fn assets_insert<T>(m: AssetsV<T>, p: Seq<u8>, n: Seq<u8>, a: T) -> AssetsV<T> {
    let inner = match lookup(m, p) {
        Some(i) => i,
        None => Seq::empty(),
    };
    assoc_insert(m, p, assoc_insert(inner, n, a))
}

/// The names of one policy's assets, in their canonical order, each with its
/// amount.
pub open spec fn canonical_inner<T>(inner: Seq<(Seq<u8>, T)>) -> Seq<(Seq<u8>, T)> {
    let names = canonical_name_keys(key_seq(inner));
    Seq::new(names.len(), |i: int| (names[i], lookup(inner, names[i])->Some_0))
}

/// The canonical flattened form of a multi-asset value: policies in their
/// canonical order, each with its assets in theirs.
pub open spec fn canonical_assets<T>(m: AssetsV<T>) -> AssetsV<T> {
    let policies = canonical_policy_ids(key_seq(m));
    Seq::new(policies.len(), |i: int| (policies[i], canonical_inner(lookup(m, policies[i])->Some_0)))
}

/// The position of the first pair of `v` whose policy is `k`.
fn find_policy<T: DeepView>(v: &Assets<T>, k: &PolicyId) -> (r: Option<usize>)
    ensures
        match r {
            Some(i) => {
                &&& i < v.deep_view().len()
                &&& v.deep_view()[i as int].0 == k.deep_view()
                &&& forall|j: int| 0 <= j < i ==> (#[trigger] v.deep_view()[j]).0 != k.deep_view()
                &&& lookup(v.deep_view(), k.deep_view()) == Some(v.deep_view()[i as int].1)
            },
            None => lookup(v.deep_view(), k.deep_view()) == None::<Seq<(Seq<u8>, T::V)>>
                && !has_key(v.deep_view(), k.deep_view()),
        },
{
    let kv: Vec<u8> = copy_bytes(k.as_slice());
    proof {
        assert(k.deep_view() =~= kv@);
    }
    let mut i: usize = 0;
    while i < v.len()
        invariant
            i <= v.len(),
            kv@ == k.deep_view(),
            forall|j: int| 0 <= j < i ==> (#[trigger] v.deep_view()[j]).0 != k.deep_view(),
        decreases v.len() - i,
    {
        let pv: Vec<u8> = copy_bytes(v[i].0.as_slice());
        proof {
            assert(v@[i as int].0.deep_view() =~= pv@);
            assert(v.deep_view()[i as int].0 == v@[i as int].0.deep_view());
        }
        if bytes_eq(&pv, &kv) {
            proof {
                lemma_lookup_at(v.deep_view(), k.deep_view(), i as int);
            }
            return Some(i);
        }
        i = i + 1;
    }
    proof {
        lemma_lookup_none(v.deep_view(), k.deep_view());
    }
    None
}

/// The position of the first pair of `v` whose name is `k`.
fn find_name<T: DeepView>(v: &Vec<(Vec<u8>, T)>, k: &Vec<u8>) -> (r: Option<usize>)
    ensures
        match r {
            Some(i) => {
                &&& i < v.deep_view().len()
                &&& v.deep_view()[i as int].0 == k.deep_view()
                &&& forall|j: int| 0 <= j < i ==> (#[trigger] v.deep_view()[j]).0 != k.deep_view()
                &&& lookup(v.deep_view(), k.deep_view()) == Some(v.deep_view()[i as int].1)
            },
            None => lookup(v.deep_view(), k.deep_view()) == None::<T::V> && !has_key(
                v.deep_view(),
                k.deep_view(),
            ),
        },
{
    let mut i: usize = 0;
    while i < v.len()
        invariant
            i <= v.len(),
            forall|j: int| 0 <= j < i ==> (#[trigger] v.deep_view()[j]).0 != k.deep_view(),
        decreases v.len() - i,
    {
        let r = bytes_eq(&v[i].0, k);
        proof {
            assert(v@[i as int].0.deep_view() =~= v@[i as int].0@);
            assert(k.deep_view() =~= k@);
            assert(v.deep_view()[i as int].0 == v@[i as int].0.deep_view());
        }
        if r {
            proof {
                lemma_lookup_at(v.deep_view(), k.deep_view(), i as int);
            }
            return Some(i);
        }
        i = i + 1;
    }
    proof {
        lemma_lookup_none(v.deep_view(), k.deep_view());
    }
    None
}

impl<T: Copy + DeepView<V = T>> MultiAsset<T> {
    /// An empty container.
    pub fn new() -> (r: Self)
        ensures
            r@ == Seq::<(Seq<u8>, Seq<(Seq<u8>, T)>)>::empty(),
            assets_wf(r@),
    {
        let r = MultiAsset { entries: Vec::new() };
        proof {
            assert(r@ =~= Seq::<(Seq<u8>, Seq<(Seq<u8>, T)>)>::empty());
        }
        r
    }

    /// A container holding the given policy-to-assets mapping as it stands.
    /// Where a key repeats, the first pair is the one the container means.
    pub fn from_map(asset_map: Assets<T>) -> (r: Self)
        ensures
            r@ == asset_map.deep_view(),
    {
        MultiAsset { entries: asset_map }
    }

    /// Inserts or overwrites the (policy, name) entry.  Fails with
    /// `InvalidAssetName`, touching nothing, when the name is longer than 32
    /// bytes.
    pub fn add(self, policy_id: PolicyId, name: &[u8], amount: T) -> (r: Result<Self, AssetError>)
        ensures
            name@.len() > MAX_ASSET_NAME_LEN <==> r is Err,
            r is Err ==> r->Err_0 == AssetError::InvalidAssetName,
            r is Ok ==> (r->Ok_0)@ == assets_insert(
                self@,
                policy_id.deep_view(),
                name@,
                amount.deep_view(),
            ),
            r is Ok && assets_wf(self@) ==> assets_wf((r->Ok_0)@),
    {
        if name.len() > MAX_ASSET_NAME_LEN {
            return Err(AssetError::InvalidAssetName);
        }
        let ghost m0 = self@;
        let name_vec: Vec<u8> = copy_bytes(name);
        proof {
            assert(name_vec.deep_view() =~= name@);
        }
        let mut entries = self.entries;
        let r = find_policy(&entries, &policy_id);
        match r {
            Some(i) => {
                let ghost inner0 = entries.deep_view()[i as int].1;
                let mut entry = entries.remove(i);
                let rn = find_name(&entry.1, &name_vec);
                proof {
                    assert(entry.1.deep_view() == inner0);
                }
                let ghost av = amount.deep_view();
                match rn {
                    Some(j) => {
                        entry.1[j] = (name_vec, amount);
                        proof {
                            lemma_assoc_insert_found(inner0, name@, av, j as int);
                            assert(entry.1.deep_view() =~~= assoc_insert(inner0, name@, av));
                        }
                    },
                    None => {
                        entry.1.push((name_vec, amount));
                        proof {
                            lemma_assoc_insert_append(inner0, name@, av);
                            assert(entry.1.deep_view() =~~= assoc_insert(inner0, name@, av));
                        }
                    },
                }
                entries.insert(i, entry);
                proof {
                    lemma_assoc_insert_found(
                        m0,
                        policy_id.deep_view(),
                        assoc_insert(inner0, name@, av),
                        i as int,
                    );
                    assert(entries.deep_view() =~~= m0.update(
                        i as int,
                        (policy_id.deep_view(), assoc_insert(inner0, name@, av)),
                    ));
                    assert(entries.deep_view() =~~= assets_insert(m0, policy_id.deep_view(), name@, av));
                }
                let out = MultiAsset { entries };
                proof {
                    if assets_wf(m0) {
                        lemma_add_preserves_wf(m0, policy_id.deep_view(), name@, av);
                    }
                }
                Ok(out)
            },
            None => {
                let ghost av = amount.deep_view();
                let mut inner: Vec<(Vec<u8>, T)> = Vec::new();
                inner.push((name_vec, amount));
                entries.push((policy_id, inner));
                proof {
                    lemma_assoc_insert_append(Seq::<(Seq<u8>, T)>::empty(), name@, av);
                    lemma_assoc_insert_append(
                        m0,
                        policy_id.deep_view(),
                        assoc_insert(Seq::<(Seq<u8>, T)>::empty(), name@, av),
                    );
                    assert(entries.deep_view() =~~= assets_insert(m0, policy_id.deep_view(), name@, av));
                }
                let out = MultiAsset { entries };
                proof {
                    if assets_wf(m0) {
                        lemma_add_preserves_wf(m0, policy_id.deep_view(), name@, av);
                    }
                }
                Ok(out)
            },
        }
    }

    /// Flattens the container into its canonical form.  One-shot: the
    /// container is consumed.
    pub(crate) fn build(self) -> (r: Assets<T>)
        ensures
            r.deep_view() == canonical_assets(self@),
    {
        canonical_assets_exec(&self.entries)
    }
}

/// Inserting into a well-formed container keeps it well-formed.
proof fn lemma_add_preserves_wf<T>(m: AssetsV<T>, p: Seq<u8>, n: Seq<u8>, a: T)
    requires
        assets_wf(m),
    ensures
        assets_wf(assets_insert(m, p, n, a)),
{
    let inner = match lookup(m, p) {
        Some(i) => i,
        None => Seq::<(Seq<u8>, T)>::empty(),
    };
    if has_key(m, p) {
        let i = choose|i: int| 0 <= i < m.len() && m[i].0 == p;
        lemma_lookup_unique_index(m, p, i);
        assert(unique_keys(inner));
    } else {
        lemma_lookup_none_from_no_key(m, p);
        assert(unique_keys(inner));
    }
    lemma_assoc_insert_keys(inner, n, a);
    lemma_assoc_insert_keys(m, p, assoc_insert(inner, n, a));
    let out = assets_insert(m, p, n, a);
    assert forall|i: int| 0 <= i < out.len() implies unique_keys(#[trigger] out[i].1) by {
        lemma_assoc_insert_pairs(m, p, assoc_insert(inner, n, a), i);
    }
}

/// In a uniquely-keyed sequence, any pair with key `p` gives `lookup`.
proof fn lemma_lookup_unique_index<T>(m: AssetsV<T>, p: Seq<u8>, i: int)
    requires
        unique_keys(m),
        0 <= i < m.len(),
        m[i].0 == p,
    ensures
        lookup(m, p) == Some(m[i].1),
{
    assert(forall|j: int| 0 <= j < i ==> m[j].0 != p);
    lemma_lookup_at(m, p, i);
}

/// Without the key, `lookup` is `None`.
proof fn lemma_lookup_none_from_no_key<T>(m: AssetsV<T>, p: Seq<u8>)
    requires
        !has_key(m, p),
    ensures
        lookup(m, p) == None::<Seq<(Seq<u8>, T)>>,
{
    assert forall|j: int| 0 <= j < m.len() implies m[j].0 != p by {
        if m[j].0 == p {
            assert(has_key(m, p));
        }
    }
    lemma_lookup_none(m, p);
}

/// Every pair of an insertion result is either the inserted pair or a pair of
/// the original sequence.
proof fn lemma_assoc_insert_pairs<K, V>(s: Seq<(K, V)>, k: K, v: V, i: int)
    requires
        0 <= i < assoc_insert(s, k, v).len(),
    ensures
        assoc_insert(s, k, v)[i] == (k, v) || exists|j: int|
            0 <= j < s.len() && assoc_insert(s, k, v)[i] == s[j],
    decreases s.len(),
{
    if s.len() == 0 {
    } else if s[0].0 == k {
        if i > 0 {
            assert(assoc_insert(s, k, v)[i] == s[i]);
        }
    } else {
        if i > 0 {
            lemma_assoc_insert_pairs(s.drop_first(), k, v, i - 1);
            assert(assoc_insert(s, k, v)[i] == assoc_insert(s.drop_first(), k, v)[i - 1]);
            if assoc_insert(s.drop_first(), k, v)[i - 1] != (k, v) {
                let j = choose|j: int|
                    0 <= j < s.drop_first().len() && assoc_insert(s.drop_first(), k, v)[i - 1]
                        == s.drop_first()[j];
                assert(assoc_insert(s, k, v)[i] == s[j + 1]);
            }
        }
    }
}

/// The canonical flattening.
fn canonical_assets_exec<T: Copy + DeepView<V = T>>(entries: &Assets<T>) -> (r: Assets<T>)
    ensures
        r.deep_view() == canonical_assets(entries.deep_view()),
{
    let ghost m = entries.deep_view();
    let mut keys: Vec<PolicyId> = Vec::new();
    let mut i: usize = 0;
    while i < entries.len()
        invariant
            i <= entries.len(),
            m == entries.deep_view(),
            keys.deep_view() =~~= key_seq(m).take(i as int),
        decreases entries.len() - i,
    {
        let ghost prev = keys.deep_view();
        keys.push(entries[i].0);
        proof {
            assert(keys.deep_view() =~~= prev.push(entries@[i as int].0.deep_view()));
            assert(m[i as int] == entries@[i as int].deep_view());
            assert(key_seq(m)[i as int] == m[i as int].0);
            assert(key_seq(m).take(i as int + 1) =~= key_seq(m).take(i as int).push(
                key_seq(m)[i as int],
            ));
            assert(keys.deep_view() =~~= key_seq(m).take(i as int + 1));
        }
        i = i + 1;
    }
    assert(keys.deep_view() =~~= key_seq(m));
    let sorted = sort_policy_ids(keys);
    let ghost policies = canonical_policy_ids(key_seq(m));
    let ghost target = Seq::new(
        policies.len(),
        |t: int| (policies[t], canonical_inner(lookup(m, policies[t])->Some_0)),
    );
    let mut out: Assets<T> = Vec::new();
    let mut i: usize = 0;
    while i < sorted.len()
        invariant
            i <= sorted.len(),
            sorted.deep_view() == policies,
            policies == canonical_policy_ids(key_seq(m)),
            target == Seq::new(
                policies.len(),
                |t: int| (policies[t], canonical_inner(lookup(m, policies[t])->Some_0)),
            ),
            m == entries.deep_view(),
            out.deep_view() =~~= target.take(i as int),
        decreases sorted.len() - i,
    {
        let r = find_policy(entries, &sorted[i]);
        proof {
            assert(sorted.deep_view()[i as int] == sorted@[i as int].deep_view());
            if r is None {
                // the sorted keys are a permutation of the stored keys, so the
                // scan cannot miss
                broadcast use vstd::seq_lib::group_to_multiset_ensures;

                crate::sort::lemma_bytes_leq_total_ordering();
                key_seq(m).lemma_sort_by_ensures(crate::sort::bytes_leq_fn());
                assert(policies.to_multiset() =~~= key_seq(m).to_multiset());
                assert(policies.contains(policies[i as int]));
                assert(key_seq(m).contains(policies[i as int]));
                let j = choose|j: int|
                    0 <= j < key_seq(m).len() && key_seq(m)[j] == policies[i as int];
                assert(m[j].0 == policies[i as int]);
                assert(has_key(m, policies[i as int]));
                assert(false);
            }
        }
        if let Some(pi) = r {
            let inner_canon = canonical_inner_exec(&entries[pi].1);
            let ghost icv = inner_canon.deep_view();
            let key_copy: PolicyId = sorted[i];
            let ghost prev = out.deep_view();
            out.push((key_copy, inner_canon));
            proof {
                assert(entries@[pi as int].1.deep_view() == m[pi as int].1);
                assert(lookup(m, policies[i as int]) == Some(m[pi as int].1));
                assert(key_copy.deep_view() == policies[i as int]);
                assert(icv == canonical_inner(lookup(m, policies[i as int])->Some_0));
                assert(out.deep_view() =~~= prev.push((key_copy.deep_view(), icv)));
                assert(target[i as int] == (
                    policies[i as int],
                    canonical_inner(lookup(m, policies[i as int])->Some_0),
                ));
                assert(out.deep_view() =~~= target.take(i as int + 1));
            }
        }
        i = i + 1;
    }
    proof {
        assert(out.deep_view() =~~= target);
        assert(canonical_assets(m) == target);
    }
    out
}

/// The canonical ordering of one policy's assets.
fn canonical_inner_exec<T: Copy + DeepView<V = T>>(inner: &Vec<(Vec<u8>, T)>) -> (r: Vec<
    (Vec<u8>, T),
>)
    ensures
        r.deep_view() == canonical_inner(inner.deep_view()),
{
    let ghost mv = inner.deep_view();
    let mut names: Vec<Vec<u8>> = Vec::new();
    let mut i: usize = 0;
    while i < inner.len()
        invariant
            i <= inner.len(),
            mv == inner.deep_view(),
            names.deep_view() =~~= key_seq(mv).take(i as int),
        decreases inner.len() - i,
    {
        let ghost prev = names.deep_view();
        let nc: Vec<u8> = copy_bytes(inner[i].0.as_slice());
        names.push(nc);
        proof {
            assert(inner@[i as int].0.deep_view() =~= inner@[i as int].0@);
            assert(names.deep_view() =~~= prev.push(inner@[i as int].0.deep_view()));
            assert(mv[i as int] == inner@[i as int].deep_view());
            assert(key_seq(mv)[i as int] == mv[i as int].0);
            assert(key_seq(mv).take(i as int + 1) =~= key_seq(mv).take(i as int).push(
                key_seq(mv)[i as int],
            ));
            assert(names.deep_view() =~~= key_seq(mv).take(i as int + 1));
        }
        i = i + 1;
    }
    assert(names.deep_view() =~~= key_seq(mv));
    let sorted = sort_name_keys(names);
    let ghost skeys = canonical_name_keys(key_seq(mv));
    let ghost target = Seq::new(skeys.len(), |t: int| (skeys[t], lookup(mv, skeys[t])->Some_0));
    let mut out: Vec<(Vec<u8>, T)> = Vec::new();
    let mut i: usize = 0;
    while i < sorted.len()
        invariant
            i <= sorted.len(),
            sorted.deep_view() == skeys,
            skeys == canonical_name_keys(key_seq(mv)),
            target == Seq::new(skeys.len(), |t: int| (skeys[t], lookup(mv, skeys[t])->Some_0)),
            mv == inner.deep_view(),
            out.deep_view() =~~= target.take(i as int),
        decreases sorted.len() - i,
    {
        let r = find_name(inner, &sorted[i]);
        proof {
            assert(sorted.deep_view()[i as int] == sorted@[i as int].deep_view());
            if r is None {
                broadcast use vstd::seq_lib::group_to_multiset_ensures;

                crate::sort::lemma_name_leq_total_ordering();
                key_seq(mv).lemma_sort_by_ensures(crate::sort::name_leq_fn());
                assert(skeys.to_multiset() =~~= key_seq(mv).to_multiset());
                assert(skeys.contains(skeys[i as int]));
                assert(key_seq(mv).contains(skeys[i as int]));
                let j = choose|j: int|
                    0 <= j < key_seq(mv).len() && key_seq(mv)[j] == skeys[i as int];
                assert(mv[j].0 == skeys[i as int]);
                assert(has_key(mv, skeys[i as int]));
                assert(false);
            }
        }
        if let Some(ni) = r {
            let name_copy: Vec<u8> = copy_bytes(sorted[i].as_slice());
            let ghost ncv = name_copy.deep_view();
            let amount: T = inner[ni].1;
            let ghost av = amount.deep_view();
            let ghost prev = out.deep_view();
            out.push((name_copy, amount));
            proof {
                assert(ncv =~~= sorted@[i as int].deep_view());
                assert(ncv == skeys[i as int]);
                assert(inner@[ni as int].1.deep_view() == mv[ni as int].1);
                assert(av == mv[ni as int].1);
                assert(lookup(mv, skeys[i as int]) == Some(mv[ni as int].1));
                assert(out.deep_view() =~~= prev.push((ncv, av)));
                assert(target[i as int] == (skeys[i as int], lookup(mv, skeys[i as int])->Some_0));
                assert(out.deep_view() =~~= target.take(i as int + 1));
            }
        }
        i = i + 1;
    }
    proof {
        assert(out.deep_view() =~~= target);
        assert(canonical_inner(mv) == target);
    }
    out
}

} // verus!
