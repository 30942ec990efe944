//! The laws of the builder, stated and proved over the same spec functions
//! its contracts use.

use vstd::prelude::*;
use vstd::relations::sorted_by;
use crate::assoc::key_seq;
use crate::builder::{first_index, first_unresolvable, spec_bad_collateral,
    spec_bad_collateral_return, spec_build_ok, spec_fee, spec_mint_policies, spec_resolve,
    spec_sorted_inputs, spec_tx, BuilderV};
use crate::tx::{input_leq_fn, lemma_input_le_total_ordering, ExUnits, PurposeV, RedeemerTag};

verus! {

/// A configuration with at least one input, whose collateral inputs and
/// collateral return carry no multi-asset value and whose redeemers all
/// resolve, builds successfully, and the emitted input sequence is exactly
/// the configured input set sorted ascending by (transaction id, index):
/// same inputs as a multiset, in canonically sorted order.
pub proof fn lemma_build_succeeds_with_canonical_inputs(b: BuilderV)
    requires
        b.inputs.len() > 0,
        !spec_bad_collateral(b),
        !spec_bad_collateral_return(b),
        first_unresolvable(b.redeemers, spec_sorted_inputs(b), spec_mint_policies(b)) is None,
    ensures
        spec_build_ok(b),
        spec_tx(b, spec_fee(b)).body.inputs.to_multiset() == key_seq(b.inputs).to_multiset(),
        sorted_by(spec_tx(b, spec_fee(b)).body.inputs, input_leq_fn()),
{
    lemma_input_le_total_ordering();
    key_seq(b.inputs).lemma_sort_by_ensures(input_leq_fn());
}

/// A configuration with at least one input in which some collateral input's
/// resolved output carries a multi-asset value does not build: no
/// transaction value is produced.  `build` reports it as
/// `InvalidCollateralInput`.
pub proof fn lemma_multiasset_collateral_rejected(b: BuilderV)
    requires
        b.inputs.len() > 0,
        spec_bad_collateral(b),
    ensures
        !spec_build_ok(b),
{
}

/// In a successful build, every redeemer record carries the zero-based
/// position of its target in the canonical order: for a Spend purpose, the
/// input's first position in the canonical sorted input sequence; for a Mint
/// purpose, the policy's first position in the canonical mint-policy
/// sequence.
pub proof fn lemma_redeemer_indices(b: BuilderV, fee: u64, i: int)
    requires
        spec_build_ok(b),
        0 <= i < b.redeemers.len(),
    ensures
        spec_tx(b, fee).witness_set.redeemer.len() == b.redeemers.len(),
        b.redeemers[i].0 is Spend ==> {
            let r = spec_tx(b, fee).witness_set.redeemer[i];
            &&& r.tag == RedeemerTag::Spend
            &&& first_index(spec_sorted_inputs(b), b.redeemers[i].0->Spend_0) matches Some(j)
                && r.index == j as u32
        },
        b.redeemers[i].0 is Mint ==> {
            let r = spec_tx(b, fee).witness_set.redeemer[i];
            &&& r.tag == RedeemerTag::Mint
            &&& first_index(spec_mint_policies(b), b.redeemers[i].0->Mint_0) matches Some(j)
                && r.index == j as u32
        },
{
    lemma_all_resolvable(b.redeemers, spec_sorted_inputs(b), spec_mint_policies(b), i);
}

/// When no registered purpose is unresolvable, each one resolves.
proof fn lemma_all_resolvable(
    rs: Seq<(PurposeV, (Seq<u8>, ExUnits))>,
    ins: Seq<crate::tx::InputV>,
    pols: Seq<Seq<u8>>,
    i: int,
)
    requires
        first_unresolvable(rs, ins, pols) is None,
        0 <= i < rs.len(),
    ensures
        spec_resolve(rs[i].0, ins, pols) is Some,
    decreases i,
{
    if i > 0 {
        lemma_all_resolvable(rs.drop_first(), ins, pols, i - 1);
    }
}

} // verus!
