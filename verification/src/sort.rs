//! The canonical orderings, and verified sorts that produce them.
//!
//! Inputs sort ascending by (transaction id, index); mint policies sort
//! ascending by their 28 bytes; asset names sort ascending by their encoded
//! forms, which is length first and then bytewise.  Each executable sort is a
//! selection sort whose result is proved equal to the spec-level
//! `Seq::sort_by` of the same order, so that every contract can speak of one
//! canonical sorted sequence.

use vstd::prelude::*;
use vstd::relations::{sorted_by, total_ordering};
use vstd::seq_lib::lemma_sorted_unique;
use vstd::multiset::Multiset;
use crate::bytes::{bytes_le, name_le, lemma_bytes_le_antisym, lemma_bytes_le_refl,
    lemma_bytes_le_total, lemma_bytes_le_trans, bytes_le_exec};
use crate::tx::{canonical_inputs, input_le, input_le_exec, input_leq_fn,
    lemma_input_le_total_ordering, copy_bytes, InputV, PolicyId, TransactionInput};

verus! {

broadcast use vstd::seq_lib::group_to_multiset_ensures, vstd::multiset::group_multiset_axioms;

/// The byte-string order as a closure value, shared by contracts and proofs.
pub open spec fn bytes_leq_fn() -> spec_fn(Seq<u8>, Seq<u8>) -> bool {
    |a: Seq<u8>, b: Seq<u8>| bytes_le(a, b)
}

/// The asset-name order as a closure value.
pub open spec fn name_leq_fn() -> spec_fn(Seq<u8>, Seq<u8>) -> bool {
    |a: Seq<u8>, b: Seq<u8>| name_le(a, b)
}

/// The canonical ordering of policy identifiers.
pub open spec fn canonical_policy_ids(s: Seq<Seq<u8>>) -> Seq<Seq<u8>> {
    s.sort_by(bytes_leq_fn())
}

/// The canonical ordering of asset names.
pub open spec fn canonical_name_keys(s: Seq<Seq<u8>>) -> Seq<Seq<u8>> {
    s.sort_by(name_leq_fn())
}

pub proof fn lemma_bytes_leq_total_ordering()
    ensures
        total_ordering(bytes_leq_fn()),
{
    let leq = bytes_leq_fn();
    assert forall|a: Seq<u8>| #[trigger] leq(a, a) by {
        lemma_bytes_le_refl(a);
    }
    assert forall|a: Seq<u8>, b: Seq<u8>| #[trigger] leq(a, b) && #[trigger] leq(b, a) implies a
        == b by {
        lemma_bytes_le_antisym(a, b);
    }
    assert forall|a: Seq<u8>, b: Seq<u8>, c: Seq<u8>|
        #[trigger] leq(a, b) && #[trigger] leq(b, c) implies leq(a, c) by {
        lemma_bytes_le_trans(a, b, c);
    }
    assert forall|a: Seq<u8>, b: Seq<u8>| #[trigger] leq(a, b) || #[trigger] leq(b, a) by {
        lemma_bytes_le_total(a, b);
    }
}

pub proof fn lemma_name_leq_total_ordering()
    ensures
        total_ordering(name_leq_fn()),
{
    let leq = name_leq_fn();
    assert forall|a: Seq<u8>| #[trigger] leq(a, a) by {
        lemma_bytes_le_refl(a);
    }
    assert forall|a: Seq<u8>, b: Seq<u8>| #[trigger] leq(a, b) && #[trigger] leq(b, a) implies a
        == b by {
        if a.len() == b.len() {
            lemma_bytes_le_antisym(a, b);
        }
    }
    assert forall|a: Seq<u8>, b: Seq<u8>, c: Seq<u8>|
        #[trigger] leq(a, b) && #[trigger] leq(b, c) implies leq(a, c) by {
        if a.len() == b.len() && b.len() == c.len() {
            lemma_bytes_le_trans(a, b, c);
        }
    }
    assert forall|a: Seq<u8>, b: Seq<u8>| #[trigger] leq(a, b) || #[trigger] leq(b, a) by {
        if a.len() == b.len() {
            lemma_bytes_le_total(a, b);
        }
    }
}

/// Executable test of the asset-name order.
pub fn name_le_exec(a: &Vec<u8>, b: &Vec<u8>) -> (r: bool)
    ensures
        r == name_le(a@, b@),
{
    if a.len() < b.len() {
        true
    } else if a.len() > b.len() {
        false
    } else {
        bytes_le_exec(a, b)
    }
}

/// Executable test of the byte-string order, over models.
pub fn policy_le_exec(a: &PolicyId, b: &PolicyId) -> (r: bool)
    ensures
        r == bytes_le(a.deep_view(), b.deep_view()),
{
    let va: Vec<u8> = copy_bytes(a.as_slice());
    let vb: Vec<u8> = copy_bytes(b.as_slice());
    let r = bytes_le_exec(&va, &vb);
    proof {
        assert(a.deep_view() =~= a@);
        assert(b.deep_view() =~= b@);
    }
    r
}

/// Executable test of the asset-name order, over models.
pub fn name_le_dv(a: &Vec<u8>, b: &Vec<u8>) -> (r: bool)
    ensures
        r == name_le(a.deep_view(), b.deep_view()),
{
    let r = name_le_exec(a, b);
    proof {
        assert(a.deep_view() =~= a@);
        assert(b.deep_view() =~= b@);
    }
    r
}

/// Sorts policy identifiers into their canonical order.
pub fn sort_policy_ids(v: Vec<PolicyId>) -> (r: Vec<PolicyId>)
    ensures
        r.deep_view() == canonical_policy_ids(v.deep_view()),
{
    let ghost orig: Seq<Seq<u8>> = v.deep_view();
    let ghost leq = bytes_leq_fn();
    proof {
        lemma_bytes_leq_total_ordering();
    }
    let mut rem = v;
    let mut out: Vec<PolicyId> = Vec::new();
    while rem.len() > 0
        invariant
            total_ordering(leq),
            leq == bytes_leq_fn(),
            sorted_by(out.deep_view(), leq),
            out.deep_view().to_multiset().add(rem.deep_view().to_multiset())
                == orig.to_multiset(),
            forall|i: int, j: int|
                0 <= i < out.deep_view().len() && 0 <= j < rem.deep_view().len()
                    ==> bytes_le(#[trigger] out.deep_view()[i], #[trigger] rem.deep_view()[j]),
        decreases rem.len(),
    {
        let ghost rem0 = rem.deep_view();
        let ghost out0 = out.deep_view();
        let mut m: usize = 0;
        let mut k: usize = 1;
        proof {
            assert(leq(rem0[0], rem0[0]));
        }
        while k < rem.len()
            invariant
                total_ordering(leq),
                leq == bytes_leq_fn(),
                rem.deep_view() == rem0,
                rem.len() > 0,
                m < k,
                k <= rem.len(),
                forall|t: int| 0 <= t < k ==> bytes_le(rem0[m as int], #[trigger] rem0[t]),
            decreases rem.len() - k,
        {
            if policy_le_exec(&rem[k], &rem[m]) {
                proof {
                    assert forall|t: int| 0 <= t < k + 1 implies bytes_le(
                        rem0[k as int],
                        #[trigger] rem0[t],
                    ) by {
                        assert(leq(rem0[k as int], rem0[m as int]));
                        if t < k {
                            assert(leq(rem0[m as int], rem0[t]));
                            assert(leq(rem0[k as int], rem0[t]));
                        } else {
                            assert(leq(rem0[k as int], rem0[k as int]));
                        }
                    }
                }
                m = k;
            } else {
                proof {
                    assert(rem.deep_view()[k as int] == rem0[k as int]);
                    assert(rem.deep_view()[m as int] == rem0[m as int]);
                    assert(!bytes_le(rem0[k as int], rem0[m as int]));
                    assert(leq(rem0[k as int], rem0[m as int]) == bytes_le(
                        rem0[k as int],
                        rem0[m as int],
                    ));
                    assert(leq(rem0[m as int], rem0[k as int]) || leq(
                        rem0[k as int],
                        rem0[m as int],
                    ));
                    assert(bytes_le(rem0[m as int], rem0[k as int]));
                }
            }
            k = k + 1;
        }
        let ghost x_v = rem0[m as int];
        proof {
            assert forall|t: int| 0 <= t < rem0.len() implies bytes_le(x_v, #[trigger] rem0[t]) by {}
        }
        let x = rem.remove(m);
        out.push(x);
        proof {
            assert(x.deep_view() == x_v);
            assert(rem.deep_view() =~= rem0.remove(m as int));
            assert(out.deep_view() =~= out0.push(x_v));
            assert(rem0.remove(m as int).to_multiset() =~= rem0.to_multiset().remove(x_v));
            assert(out0.push(x_v).to_multiset() =~= out0.to_multiset().insert(x_v));
            assert(rem0.to_multiset().count(x_v) > 0);
            assert(out.deep_view().to_multiset().add(rem.deep_view().to_multiset())
                =~= orig.to_multiset());
            assert forall|i: int, j: int|
                0 <= i < j < out.deep_view().len() implies leq(
                #[trigger] out.deep_view()[i],
                #[trigger] out.deep_view()[j],
            ) by {
                if j == out0.len() {
                    assert(bytes_le(out0[i], x_v));
                }
            }
            assert(sorted_by(out.deep_view(), leq));
            assert forall|i: int, j: int|
                0 <= i < out.deep_view().len() && 0 <= j < rem.deep_view().len() implies bytes_le(
                #[trigger] out.deep_view()[i],
                #[trigger] rem.deep_view()[j],
            ) by {
                assert(rem.deep_view()[j] == rem0.remove(m as int)[j]);
                if j < m {
                    assert(rem0.remove(m as int)[j] == rem0[j]);
                } else {
                    assert(rem0.remove(m as int)[j] == rem0[j + 1]);
                }
                if i < out0.len() {
                } else {
                    assert(out.deep_view()[i] == x_v);
                }
            }
        }
    }
    proof {
        assert(rem.deep_view().len() == 0);
        assert(rem.deep_view().to_multiset().len() == 0);
        assert(rem.deep_view().to_multiset() =~= Multiset::empty());
        assert(out.deep_view().to_multiset() =~= orig.to_multiset());
        orig.lemma_sort_by_ensures(leq);
        lemma_sorted_unique(out.deep_view(), orig.sort_by(leq), leq);
        assert(out.deep_view() =~= canonical_policy_ids(orig));
    }
    out
}

/// Sorts asset names into their canonical order.
pub fn sort_name_keys(v: Vec<Vec<u8>>) -> (r: Vec<Vec<u8>>)
    ensures
        r.deep_view() == canonical_name_keys(v.deep_view()),
{
    let ghost orig: Seq<Seq<u8>> = v.deep_view();
    let ghost leq = name_leq_fn();
    proof {
        lemma_name_leq_total_ordering();
    }
    let mut rem = v;
    let mut out: Vec<Vec<u8>> = Vec::new();
    while rem.len() > 0
        invariant
            total_ordering(leq),
            leq == name_leq_fn(),
            sorted_by(out.deep_view(), leq),
            out.deep_view().to_multiset().add(rem.deep_view().to_multiset())
                == orig.to_multiset(),
            forall|i: int, j: int|
                0 <= i < out.deep_view().len() && 0 <= j < rem.deep_view().len()
                    ==> name_le(#[trigger] out.deep_view()[i], #[trigger] rem.deep_view()[j]),
        decreases rem.len(),
    {
        let ghost rem0 = rem.deep_view();
        let ghost out0 = out.deep_view();
        let mut m: usize = 0;
        let mut k: usize = 1;
        proof {
            assert(leq(rem0[0], rem0[0]));
        }
        while k < rem.len()
            invariant
                total_ordering(leq),
                leq == name_leq_fn(),
                rem.deep_view() == rem0,
                rem.len() > 0,
                m < k,
                k <= rem.len(),
                forall|t: int| 0 <= t < k ==> name_le(rem0[m as int], #[trigger] rem0[t]),
            decreases rem.len() - k,
        {
            if name_le_dv(&rem[k], &rem[m]) {
                proof {
                    assert forall|t: int| 0 <= t < k + 1 implies name_le(
                        rem0[k as int],
                        #[trigger] rem0[t],
                    ) by {
                        assert(leq(rem0[k as int], rem0[m as int]));
                        if t < k {
                            assert(leq(rem0[m as int], rem0[t]));
                            assert(leq(rem0[k as int], rem0[t]));
                        } else {
                            assert(leq(rem0[k as int], rem0[k as int]));
                        }
                    }
                }
                m = k;
            } else {
                proof {
                    assert(rem.deep_view()[k as int] == rem0[k as int]);
                    assert(rem.deep_view()[m as int] == rem0[m as int]);
                    assert(!name_le(rem0[k as int], rem0[m as int]));
                    assert(leq(rem0[k as int], rem0[m as int]) == name_le(
                        rem0[k as int],
                        rem0[m as int],
                    ));
                    assert(leq(rem0[m as int], rem0[k as int]) || leq(
                        rem0[k as int],
                        rem0[m as int],
                    ));
                    assert(name_le(rem0[m as int], rem0[k as int]));
                }
            }
            k = k + 1;
        }
        let ghost x_v = rem0[m as int];
        proof {
            assert forall|t: int| 0 <= t < rem0.len() implies name_le(x_v, #[trigger] rem0[t]) by {}
        }
        let x = rem.remove(m);
        out.push(x);
        proof {
            assert(x.deep_view() == x_v);
            assert(rem.deep_view() =~= rem0.remove(m as int));
            assert(out.deep_view() =~= out0.push(x_v));
            assert(rem0.remove(m as int).to_multiset() =~= rem0.to_multiset().remove(x_v));
            assert(out0.push(x_v).to_multiset() =~= out0.to_multiset().insert(x_v));
            assert(rem0.to_multiset().count(x_v) > 0);
            assert(out.deep_view().to_multiset().add(rem.deep_view().to_multiset())
                =~= orig.to_multiset());
            assert forall|i: int, j: int|
                0 <= i < j < out.deep_view().len() implies leq(
                #[trigger] out.deep_view()[i],
                #[trigger] out.deep_view()[j],
            ) by {
                if j == out0.len() {
                    assert(name_le(out0[i], x_v));
                }
            }
            assert(sorted_by(out.deep_view(), leq));
            assert forall|i: int, j: int|
                0 <= i < out.deep_view().len() && 0 <= j < rem.deep_view().len() implies name_le(
                #[trigger] out.deep_view()[i],
                #[trigger] rem.deep_view()[j],
            ) by {
                assert(rem.deep_view()[j] == rem0.remove(m as int)[j]);
                if j < m {
                    assert(rem0.remove(m as int)[j] == rem0[j]);
                } else {
                    assert(rem0.remove(m as int)[j] == rem0[j + 1]);
                }
                if i < out0.len() {
                } else {
                    assert(out.deep_view()[i] == x_v);
                }
            }
        }
    }
    proof {
        assert(rem.deep_view().len() == 0);
        assert(rem.deep_view().to_multiset().len() == 0);
        assert(rem.deep_view().to_multiset() =~= Multiset::empty());
        assert(out.deep_view().to_multiset() =~= orig.to_multiset());
        orig.lemma_sort_by_ensures(leq);
        lemma_sorted_unique(out.deep_view(), orig.sort_by(leq), leq);
        assert(out.deep_view() =~= canonical_name_keys(orig));
    }
    out
}

/// Sorts inputs into the canonical input order.
pub fn sort_inputs(v: Vec<TransactionInput>) -> (r: Vec<TransactionInput>)
    ensures
        r.deep_view() == canonical_inputs(v.deep_view()),
{
    let ghost orig: Seq<InputV> = v.deep_view();
    let ghost leq = input_leq_fn();
    proof {
        lemma_input_le_total_ordering();
    }
    let mut rem = v;
    let mut out: Vec<TransactionInput> = Vec::new();
    while rem.len() > 0
        invariant
            total_ordering(leq),
            leq == input_leq_fn(),
            sorted_by(out.deep_view(), leq),
            out.deep_view().to_multiset().add(rem.deep_view().to_multiset())
                == orig.to_multiset(),
            forall|i: int, j: int|
                0 <= i < out.deep_view().len() && 0 <= j < rem.deep_view().len()
                    ==> input_le(#[trigger] out.deep_view()[i], #[trigger] rem.deep_view()[j]),
        decreases rem.len(),
    {
        let ghost rem0 = rem.deep_view();
        let ghost out0 = out.deep_view();
        let mut m: usize = 0;
        let mut k: usize = 1;
        while k < rem.len()
            invariant
                total_ordering(leq),
                leq == input_leq_fn(),
                rem.deep_view() == rem0,
                rem.len() > 0,
                m < k,
                k <= rem.len(),
                forall|t: int| 0 <= t < k ==> input_le(rem0[m as int], #[trigger] rem0[t]),
            decreases rem.len() - k,
        {
            if input_le_exec(&rem[k], &rem[m]) {
                proof {
                    assert forall|t: int| 0 <= t < k + 1 implies input_le(
                        rem0[k as int],
                        #[trigger] rem0[t],
                    ) by {
                        assert(leq(rem0[k as int], rem0[m as int]));
                        if t < k {
                            assert(leq(rem0[m as int], rem0[t]));
                            assert(leq(rem0[k as int], rem0[t]));
                        } else {
                            assert(leq(rem0[k as int], rem0[k as int]));
                        }
                    }
                }
                m = k;
            } else {
                proof {
                    assert(rem.deep_view()[k as int] == rem0[k as int]);
                    assert(rem.deep_view()[m as int] == rem0[m as int]);
                    assert(!input_le(rem0[k as int], rem0[m as int]));
                    assert(leq(rem0[k as int], rem0[m as int]) == input_le(
                        rem0[k as int],
                        rem0[m as int],
                    ));
                    assert(leq(rem0[m as int], rem0[k as int]) || leq(
                        rem0[k as int],
                        rem0[m as int],
                    ));
                    assert(input_le(rem0[m as int], rem0[k as int]));
                }
            }
            k = k + 1;
        }
        let ghost x_v = rem0[m as int];
        proof {
            assert forall|t: int| 0 <= t < rem0.len() implies input_le(x_v, #[trigger] rem0[t]) by {}
        }
        let x = rem.remove(m);
        out.push(x);
        proof {
            assert(x.deep_view() == x_v);
            assert(rem.deep_view() =~= rem0.remove(m as int));
            assert(out.deep_view() =~= out0.push(x_v));
            // the multisets: moving the minimum keeps the union
            assert(rem0.remove(m as int).to_multiset() =~= rem0.to_multiset().remove(x_v));
            assert(out0.push(x_v).to_multiset() =~= out0.to_multiset().insert(x_v));
            assert(rem0.to_multiset().count(x_v) > 0);
            assert(out.deep_view().to_multiset().add(rem.deep_view().to_multiset())
                =~= orig.to_multiset());
            // the pushed minimum keeps the output sorted
            assert forall|i: int, j: int|
                0 <= i < j < out.deep_view().len() implies leq(
                #[trigger] out.deep_view()[i],
                #[trigger] out.deep_view()[j],
            ) by {
                if j == out0.len() {
                    assert(input_le(out0[i], x_v));
                }
            }
            assert(sorted_by(out.deep_view(), leq));
            // and it precedes everything that remains
            assert forall|i: int, j: int|
                0 <= i < out.deep_view().len() && 0 <= j < rem.deep_view().len() implies input_le(
                #[trigger] out.deep_view()[i],
                #[trigger] rem.deep_view()[j],
            ) by {
                assert(rem.deep_view()[j] == rem0.remove(m as int)[j]);
                if j < m {
                    assert(rem0.remove(m as int)[j] == rem0[j]);
                } else {
                    assert(rem0.remove(m as int)[j] == rem0[j + 1]);
                }
                if i < out0.len() {
                } else {
                    assert(out.deep_view()[i] == x_v);
                }
            }
        }
    }
    proof {
        assert(rem.deep_view().len() == 0);
        assert(rem.deep_view().to_multiset().len() == 0);
        assert(rem.deep_view().to_multiset() =~= Multiset::empty());
        assert(out.deep_view().to_multiset() =~= orig.to_multiset());
        orig.lemma_sort_by_ensures(leq);
        lemma_sorted_unique(out.deep_view(), orig.sort_by(leq), leq);
        assert(out.deep_view() =~= canonical_inputs(orig));
    }
    out
}

} // verus!
