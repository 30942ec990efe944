//! The transaction builder.
//!
//! The builder accumulates transaction components through ownership-consuming
//! setters — each takes the builder and returns the next state, so a partial
//! state cannot be reused across divergent chains and a builder cannot be
//! built twice.  `build` validates the configuration, sorts the inputs into
//! the canonical order, flattens and canonicalizes the mint, resolves every
//! registered redeemer purpose against those canonical orders, computes the
//! fee from the size of the zero-fee encoding unless an explicit fee was
//! given, and returns the immutable transaction.

use vstd::prelude::*;
use crate::assoc::{assoc_insert, key_seq, lemma_assoc_insert_append, lemma_assoc_insert_found};
use crate::asset::{canonical_assets, MultiAsset};
use crate::bytes::bytes_eq;
use crate::encode::{enc_tx, encode_tx};
use crate::params::{spec_linear_fee, spec_timestamp_to_slot, spec_wire_network_id, NetworkParams};
use crate::sort::sort_inputs;
use crate::tx::{canonical_inputs, copy_bytes, input_eq, purpose_eq, AddrKeyhash, AssetsV, BodyV,
    ExUnits, InputV, OutputV, PolicyId, PurposeV, Redeemer, RedeemerPurpose, RedeemerTag,
    RedeemerV, Transaction, TransactionBody, TransactionInput, TransactionOutput, TxV, WitnessSet,
    WitnessV, spec_is_multiasset};
use crate::ValidationError;

verus! {

/// An input paired with its resolved output, when the caller supplied one;
/// `None` defers resolution to an external index at submission time.
pub type ResolvedInput = (TransactionInput, Option<TransactionOutput>);

/// The model of a resolved input.
pub type ResolvedInputV = (InputV, Option<OutputV>);

/// The model of a builder state.
#[verifier::ext_equal]
pub ghost struct BuilderV {
    pub params: NetworkParams,
    pub inputs: Seq<ResolvedInputV>,
    pub outputs: Seq<OutputV>,
    pub reference_inputs: Seq<ResolvedInputV>,
    pub fee: Option<u64>,
    pub collateral: Seq<ResolvedInputV>,
    pub collateral_return: Option<OutputV>,
    pub mint: Option<AssetsV<i64>>,
    pub valid_from_slot: Option<u64>,
    pub invalid_from_slot: Option<u64>,
    pub withdrawals: Seq<(Seq<u8>, u64)>,
    pub certificates: Seq<Seq<u8>>,
    pub required_signers: Seq<Seq<u8>>,
    pub network_id: Option<u32>,
    pub native_scripts: Seq<Seq<u8>>,
    pub plutus_v1_scripts: Seq<Seq<u8>>,
    pub plutus_v2_scripts: Seq<Seq<u8>>,
    pub plutus_data: Seq<Seq<u8>>,
    pub redeemers: Seq<(PurposeV, (Seq<u8>, ExUnits))>,
    pub script_data_hash: Option<Seq<u8>>,
}

/// The accumulator of transaction components.  Certificates, scripts and
/// datums are byte strings already in their wire form; keyed collections keep
/// their insertion order with unique keys.
pub struct TransactionBuilder {
    network_params: NetworkParams,
    inputs: Vec<ResolvedInput>,
    outputs: Vec<TransactionOutput>,
    reference_inputs: Vec<ResolvedInput>,
    fee: Option<u64>,
    collateral: Vec<ResolvedInput>,
    collateral_return: Option<TransactionOutput>,
    mint: Option<MultiAsset<i64>>,
    valid_from_slot: Option<u64>,
    invalid_from_slot: Option<u64>,
    withdrawals: Vec<(Vec<u8>, u64)>,
    certificates: Vec<Vec<u8>>,
    required_signers: Vec<AddrKeyhash>,
    network_id: Option<u32>,
    native_scripts: Vec<Vec<u8>>,
    plutus_v1_scripts: Vec<Vec<u8>>,
    plutus_v2_scripts: Vec<Vec<u8>>,
    plutus_data: Vec<Vec<u8>>,
    redeemers: Vec<(RedeemerPurpose, (Vec<u8>, ExUnits))>,
    script_data_hash: Option<[u8; 32]>,
}

impl View for TransactionBuilder {
    type V = BuilderV;

    closed spec fn view(&self) -> BuilderV {
        BuilderV {
            params: self.network_params,
            inputs: self.inputs.deep_view(),
            outputs: self.outputs.deep_view(),
            reference_inputs: self.reference_inputs.deep_view(),
            fee: self.fee,
            collateral: self.collateral.deep_view(),
            collateral_return: match self.collateral_return {
                Some(ref o) => Some(o.deep_view()),
                None => None,
            },
            mint: match self.mint {
                Some(ref m) => Some(m@),
                None => None,
            },
            valid_from_slot: self.valid_from_slot,
            invalid_from_slot: self.invalid_from_slot,
            withdrawals: self.withdrawals.deep_view(),
            certificates: self.certificates.deep_view(),
            required_signers: self.required_signers.deep_view(),
            network_id: self.network_id,
            native_scripts: self.native_scripts.deep_view(),
            plutus_v1_scripts: self.plutus_v1_scripts.deep_view(),
            plutus_v2_scripts: self.plutus_v2_scripts.deep_view(),
            plutus_data: self.plutus_data.deep_view(),
            redeemers: self.redeemers.deep_view(),
            script_data_hash: match self.script_data_hash {
                Some(h) => Some(h@),
                None => None,
            },
        }
    }
}

/// The first position of `x` in `s`, if any.
pub open spec fn first_index<A>(s: Seq<A>, x: A) -> Option<int>
    decreases s.len(),
{
    if s.len() == 0 {
        None
    } else if s[0] == x {
        Some(0int)
    } else {
        match first_index(s.drop_first(), x) {
            Some(i) => Some(i + 1),
            None => None,
        }
    }
}

/// A scan that found the first match decides `first_index`.
proof fn lemma_first_index_at<A>(s: Seq<A>, x: A, i: int)
    requires
        0 <= i < s.len(),
        s[i] == x,
        forall|j: int| 0 <= j < i ==> s[j] != x,
    ensures
        first_index(s, x) == Some(i),
    decreases i,
{
    if i > 0 {
        lemma_first_index_at(s.drop_first(), x, i - 1);
    }
}

/// A scan that found no match decides `first_index`.
proof fn lemma_first_index_none<A>(s: Seq<A>, x: A)
    requires
        forall|j: int| 0 <= j < s.len() ==> s[j] != x,
    ensures
        first_index(s, x) == None::<int>,
    decreases s.len(),
{
    if s.len() > 0 {
        lemma_first_index_none(s.drop_first(), x);
    }
}

/// The tag and canonical index a purpose resolves to: the input's position in
/// the canonical input order for spending, the policy's position in the
/// canonical mint-policy order for minting.  Certificate and reward purposes
/// are unsupported and never resolve.
pub open spec fn spec_resolve(p: PurposeV, ins: Seq<InputV>, pols: Seq<Seq<u8>>) -> Option<
    (RedeemerTag, u32),
> {
    match p {
        PurposeV::Spend(x) => match first_index(ins, x) {
            Some(i) => Some((RedeemerTag::Spend, i as u32)),
            None => None,
        },
        PurposeV::Mint(pid) => match first_index(pols, pid) {
            Some(i) => Some((RedeemerTag::Mint, i as u32)),
            None => None,
        },
        PurposeV::Cert(_) => None,
        PurposeV::Reward(_) => None,
    }
}

/// The first registered purpose that does not resolve, if any.
pub open spec fn first_unresolvable(
    rs: Seq<(PurposeV, (Seq<u8>, ExUnits))>,
    ins: Seq<InputV>,
    pols: Seq<Seq<u8>>,
) -> Option<PurposeV>
    decreases rs.len(),
{
    if rs.len() == 0 {
        None
    } else if spec_resolve(rs[0].0, ins, pols) is None {
        Some(rs[0].0)
    } else {
        first_unresolvable(rs.drop_first(), ins, pols)
    }
}

/// The redeemer records of the registered purposes, in registration order.
pub open spec fn resolved_redeemers(
    rs: Seq<(PurposeV, (Seq<u8>, ExUnits))>,
    ins: Seq<InputV>,
    pols: Seq<Seq<u8>>,
) -> Seq<RedeemerV> {
    Seq::new(
        rs.len(),
        |i: int|
            RedeemerV {
                tag: spec_resolve(rs[i].0, ins, pols)->Some_0.0,
                index: spec_resolve(rs[i].0, ins, pols)->Some_0.1,
                data: rs[i].1.0,
                ex_units: rs[i].1.1,
            },
    )
}

/// The canonical input order of a configuration.
pub open spec fn spec_sorted_inputs(b: BuilderV) -> Seq<InputV> {
    canonical_inputs(key_seq(b.inputs))
}

/// The canonical mint value of a configuration, when one is set.
pub open spec fn spec_mint(b: BuilderV) -> Option<AssetsV<i64>> {
    match b.mint {
        Some(m) => Some(canonical_assets(m)),
        None => None,
    }
}

/// The canonical mint-policy order: the policies of the canonical mint.
pub open spec fn spec_mint_policies(b: BuilderV) -> Seq<Seq<u8>> {
    match spec_mint(b) {
        Some(m) => key_seq(m),
        None => Seq::empty(),
    }
}

/// Whether some collateral input's resolved output carries a multi-asset
/// value.
pub open spec fn spec_bad_collateral(b: BuilderV) -> bool {
    exists|i: int|
        0 <= i < b.collateral.len() && (#[trigger] b.collateral[i]).1 is Some
            && spec_is_multiasset(b.collateral[i].1->Some_0)
}

/// Whether the collateral-return output carries a multi-asset value.
pub open spec fn spec_bad_collateral_return(b: BuilderV) -> bool {
    b.collateral_return is Some && spec_is_multiasset(b.collateral_return->Some_0)
}

/// The body a configuration assembles, given the fee to write.
pub open spec fn spec_body(b: BuilderV, fee: u64) -> BodyV {
    BodyV {
        inputs: spec_sorted_inputs(b),
        outputs: b.outputs,
        fee: fee,
        ttl: b.invalid_from_slot,
        certificates: b.certificates,
        validity_interval_start: b.valid_from_slot,
        mint: spec_mint(b),
        script_data_hash: b.script_data_hash,
        collateral: key_seq(b.collateral),
        required_signers: b.required_signers,
        network_id: spec_wire_network_id(b.params),
        collateral_return: b.collateral_return,
        reference_inputs: key_seq(b.reference_inputs),
    }
}

/// The witness set a configuration assembles.
pub open spec fn spec_witness(b: BuilderV) -> WitnessV {
    WitnessV {
        native_script: b.native_scripts,
        plutus_v1_script: b.plutus_v1_scripts,
        plutus_data: b.plutus_data,
        redeemer: resolved_redeemers(b.redeemers, spec_sorted_inputs(b), spec_mint_policies(b)),
        plutus_v2_script: b.plutus_v2_scripts,
    }
}

/// The transaction a configuration assembles, given the fee to write.
pub open spec fn spec_tx(b: BuilderV, fee: u64) -> TxV {
    TxV {
        body: spec_body(b, fee),
        witness_set: spec_witness(b),
        is_valid: true,
        auxiliary_data: None,
    }
}

/// The fee `build` writes: the explicit fee verbatim when one was set,
/// otherwise the linear fee of the transaction encoded with fee zero.
pub open spec fn spec_fee(b: BuilderV) -> u64 {
    match b.fee {
        Some(f) => f,
        None => spec_linear_fee(b.params, enc_tx(spec_tx(b, 0)).len()),
    }
}

/// Whether a configuration passes every validation check.
pub open spec fn spec_build_ok(b: BuilderV) -> bool {
    &&& b.inputs.len() > 0
    &&& !spec_bad_collateral(b)
    &&& !spec_bad_collateral_return(b)
    &&& first_unresolvable(b.redeemers, spec_sorted_inputs(b), spec_mint_policies(b))
        is None
}

/// Inserts or replaces a pair in an input-keyed collection.
fn insert_input_pair(v: &mut Vec<ResolvedInput>, k: TransactionInput, val: Option<
    TransactionOutput,
>)
    ensures
        final(v).deep_view() == assoc_insert(old(v).deep_view(), k.deep_view(), val.deep_view()),
{
    let ghost s0 = v.deep_view();
    let ghost kv = k.deep_view();
    let ghost vv = val.deep_view();
    let mut i: usize = 0;
    while i < v.len()
        invariant
            i <= v.len(),
            s0 == v.deep_view(),
            old(v).deep_view() == s0,
            kv == k.deep_view(),
            vv == val.deep_view(),
            forall|j: int| 0 <= j < i ==> (#[trigger] s0[j]).0 != kv,
        decreases v.len() - i,
    {
        if input_eq(&v[i].0, &k) {
            v[i] = (k, val);
            proof {
                lemma_assoc_insert_found(s0, kv, vv, i as int);
                assert(v.deep_view() =~~= assoc_insert(s0, kv, vv));
            }
            return ;
        }
        i = i + 1;
    }
    v.push((k, val));
    proof {
        lemma_assoc_insert_append(s0, kv, vv);
        assert(v.deep_view() =~~= assoc_insert(s0, kv, vv));
    }
}

/// Inserts or replaces a withdrawal by reward account.
fn insert_withdrawal(v: &mut Vec<(Vec<u8>, u64)>, k: Vec<u8>, amount: u64)
    ensures
        final(v).deep_view() == assoc_insert(old(v).deep_view(), k.deep_view(), amount),
{
    let ghost s0 = v.deep_view();
    let ghost kv = k.deep_view();
    proof {
        assert(kv =~= k@);
    }
    let mut i: usize = 0;
    while i < v.len()
        invariant
            i <= v.len(),
            s0 == v.deep_view(),
            old(v).deep_view() == s0,
            kv == k@,
            kv == k.deep_view(),
            forall|j: int| 0 <= j < i ==> (#[trigger] s0[j]).0 != kv,
        decreases v.len() - i,
    {
        let hit = bytes_eq(&v[i].0, &k);
        proof {
            assert(v@[i as int].0.deep_view() =~= v@[i as int].0@);
            assert(s0[i as int].0 == v@[i as int].0.deep_view());
        }
        if hit {
            v[i] = (k, amount);
            proof {
                lemma_assoc_insert_found(s0, kv, amount, i as int);
                assert(v.deep_view() =~~= assoc_insert(s0, kv, amount));
            }
            return ;
        }
        i = i + 1;
    }
    v.push((k, amount));
    proof {
        lemma_assoc_insert_append(s0, kv, amount);
        assert(v.deep_view() =~~= assoc_insert(s0, kv, amount));
    }
}

/// Inserts or replaces a redeemer registration by purpose.
fn insert_redeemer(
    v: &mut Vec<(RedeemerPurpose, (Vec<u8>, ExUnits))>,
    k: RedeemerPurpose,
    val: (Vec<u8>, ExUnits),
)
    ensures
        final(v).deep_view() == assoc_insert(old(v).deep_view(), k.deep_view(), val.deep_view()),
{
    let ghost s0 = v.deep_view();
    let ghost kv = k.deep_view();
    let ghost vv = val.deep_view();
    let mut i: usize = 0;
    while i < v.len()
        invariant
            i <= v.len(),
            s0 == v.deep_view(),
            old(v).deep_view() == s0,
            kv == k.deep_view(),
            vv == val.deep_view(),
            forall|j: int| 0 <= j < i ==> (#[trigger] s0[j]).0 != kv,
        decreases v.len() - i,
    {
        if purpose_eq(&v[i].0, &k) {
            v[i] = (k, val);
            proof {
                lemma_assoc_insert_found(s0, kv, vv, i as int);
                assert(v.deep_view() =~~= assoc_insert(s0, kv, vv));
            }
            return ;
        }
        i = i + 1;
    }
    v.push((k, val));
    proof {
        lemma_assoc_insert_append(s0, kv, vv);
        assert(v.deep_view() =~~= assoc_insert(s0, kv, vv));
    }
}

impl TransactionBuilder {
    /// A fresh builder for the given network.
    pub fn new(network_params: NetworkParams) -> (r: TransactionBuilder)
        ensures
            r@ == (BuilderV {
                params: network_params,
                inputs: Seq::empty(),
                outputs: Seq::empty(),
                reference_inputs: Seq::empty(),
                fee: None,
                collateral: Seq::empty(),
                collateral_return: None,
                mint: None,
                valid_from_slot: None,
                invalid_from_slot: None,
                withdrawals: Seq::empty(),
                certificates: Seq::empty(),
                required_signers: Seq::empty(),
                network_id: None,
                native_scripts: Seq::empty(),
                plutus_v1_scripts: Seq::empty(),
                plutus_v2_scripts: Seq::empty(),
                plutus_data: Seq::empty(),
                redeemers: Seq::empty(),
                script_data_hash: None,
            }),
    {
        let r = TransactionBuilder {
            network_params,
            inputs: Vec::new(),
            outputs: Vec::new(),
            reference_inputs: Vec::new(),
            fee: None,
            collateral: Vec::new(),
            collateral_return: None,
            mint: None,
            valid_from_slot: None,
            invalid_from_slot: None,
            withdrawals: Vec::new(),
            certificates: Vec::new(),
            required_signers: Vec::new(),
            network_id: None,
            native_scripts: Vec::new(),
            plutus_v1_scripts: Vec::new(),
            plutus_v2_scripts: Vec::new(),
            plutus_data: Vec::new(),
            redeemers: Vec::new(),
            script_data_hash: None,
        };
        proof {
            assert(r@ =~~= (BuilderV {
                params: network_params,
                inputs: Seq::empty(),
                outputs: Seq::empty(),
                reference_inputs: Seq::empty(),
                fee: None,
                collateral: Seq::empty(),
                collateral_return: None,
                mint: None,
                valid_from_slot: None,
                invalid_from_slot: None,
                withdrawals: Seq::empty(),
                certificates: Seq::empty(),
                required_signers: Seq::empty(),
                network_id: None,
                native_scripts: Seq::empty(),
                plutus_v1_scripts: Seq::empty(),
                plutus_v2_scripts: Seq::empty(),
                plutus_data: Seq::empty(),
                redeemers: Seq::empty(),
                script_data_hash: None,
            }));
        }
        r
    }

    /// Declares an input, with its resolved output when known.
    pub fn input(self, input: TransactionInput, resolved: Option<TransactionOutput>) -> (r:
        Self)
        ensures
            r@ == (BuilderV {
                inputs: assoc_insert(self@.inputs, input.deep_view(), resolved.deep_view()),
                ..self@
            }),
    {
        let ghost s0 = self@;
        let mut this = self;
        insert_input_pair(&mut this.inputs, input, resolved);
        proof {
            assert(this@ =~~= (BuilderV {
                inputs: assoc_insert(s0.inputs, input.deep_view(), resolved.deep_view()),
                ..s0
            }));
        }
        this
    }

    /// Declares a reference input.
    pub fn reference_input(
        self,
        input: TransactionInput,
        resolved: Option<TransactionOutput>,
    ) -> (r: Self)
        ensures
            r@ == (BuilderV {
                reference_inputs: assoc_insert(
                    self@.reference_inputs,
                    input.deep_view(),
                    resolved.deep_view(),
                ),
                ..self@
            }),
    {
        let ghost s0 = self@;
        let mut this = self;
        insert_input_pair(&mut this.reference_inputs, input, resolved);
        proof {
            assert(this@ =~~= (BuilderV {
                reference_inputs: assoc_insert(
                    s0.reference_inputs,
                    input.deep_view(),
                    resolved.deep_view(),
                ),
                ..s0
            }));
        }
        this
    }

    /// Sets an explicit fee, bypassing the fee computation.
    pub fn fee(self, fee: u64) -> (r: Self)
        ensures
            r@ == (BuilderV { fee: Some(fee), ..self@ }),
    {
        let ghost s0 = self@;
        let mut this = self;
        this.fee = Some(fee);
        proof {
            assert(this@ =~~= (BuilderV { fee: Some(fee), ..s0 }));
        }
        this
    }

    /// Declares a collateral input.
    pub fn collateral(self, input: TransactionInput, resolved: Option<TransactionOutput>) -> (r:
        Self)
        ensures
            r@ == (BuilderV {
                collateral: assoc_insert(self@.collateral, input.deep_view(), resolved.deep_view()),
                ..self@
            }),
    {
        let ghost s0 = self@;
        let mut this = self;
        insert_input_pair(&mut this.collateral, input, resolved);
        proof {
            assert(this@ =~~= (BuilderV {
                collateral: assoc_insert(s0.collateral, input.deep_view(), resolved.deep_view()),
                ..s0
            }));
        }
        this
    }

    /// Sets the collateral-return output.
    pub fn collateral_return(self, output: TransactionOutput) -> (r: Self)
        ensures
            r@ == (BuilderV { collateral_return: Some(output.deep_view()), ..self@ }),
    {
        let ghost s0 = self@;
        let mut this = self;
        this.collateral_return = Some(output);
        proof {
            assert(this@ =~~= (BuilderV { collateral_return: Some(output.deep_view()), ..s0 }));
        }
        this
    }

    /// Appends an output.
    pub fn output(self, output: TransactionOutput) -> (r: Self)
        ensures
            r@ == (BuilderV { outputs: self@.outputs.push(output.deep_view()), ..self@ }),
    {
        let ghost s0 = self@;
        let mut this = self;
        this.outputs.push(output);
        proof {
            assert(this@ =~~= (BuilderV { outputs: s0.outputs.push(output.deep_view()), ..s0 }));
        }
        this
    }

    /// Sets the mint value.
    pub fn mint(self, assets: MultiAsset<i64>) -> (r: Self)
        ensures
            r@ == (BuilderV { mint: Some(assets@), ..self@ }),
    {
        let ghost s0 = self@;
        let mut this = self;
        this.mint = Some(assets);
        proof {
            assert(this@ =~~= (BuilderV { mint: Some(assets@), ..s0 }));
        }
        this
    }

    /// Appends a required signer's key hash.
    pub fn require_signer(self, signer: AddrKeyhash) -> (r: Self)
        ensures
            r@ == (BuilderV {
                required_signers: self@.required_signers.push(signer.deep_view()),
                ..self@
            }),
    {
        let ghost s0 = self@;
        let mut this = self;
        this.required_signers.push(signer);
        proof {
            assert(this@ =~~= (BuilderV {
                required_signers: s0.required_signers.push(signer.deep_view()),
                ..s0
            }));
        }
        this
    }

    /// Stores a network identifier.  The body's network-id field is derived
    /// from the network parameters, not from this value.
    pub fn network_id(self, nid: u32) -> (r: Self)
        ensures
            r@ == (BuilderV { network_id: Some(nid), ..self@ }),
    {
        let ghost s0 = self@;
        let mut this = self;
        this.network_id = Some(nid);
        proof {
            assert(this@ =~~= (BuilderV { network_id: Some(nid), ..s0 }));
        }
        this
    }

    /// Sets the start of the validity window from a timestamp, in seconds.
    /// Fails with `InvalidTimestamp` when the timestamp lies outside the
    /// network's slot range.
    pub fn valid_from(self, timestamp: u64) -> (r: Result<Self, ValidationError>)
        ensures
            r is Ok <==> spec_timestamp_to_slot(self@.params, timestamp) is Some,
            r is Err ==> r->Err_0 == ValidationError::InvalidTimestamp,
            r is Ok ==> (r->Ok_0)@ == (BuilderV {
                valid_from_slot: spec_timestamp_to_slot(self@.params, timestamp),
                ..self@
            }),
    {
        let ghost s0 = self@;
        let mut this = self;
        match this.network_params.timestamp_to_slot(timestamp) {
            Some(slot) => {
                this.valid_from_slot = Some(slot);
                proof {
                    assert(this@ =~~= (BuilderV {
                        valid_from_slot: spec_timestamp_to_slot(s0.params, timestamp),
                        ..s0
                    }));
                }
                Ok(this)
            },
            None => Err(ValidationError::InvalidTimestamp),
        }
    }

    /// Sets the start of the validity window to a slot.
    pub fn valid_from_slot(self, slot: u64) -> (r: Self)
        ensures
            r@ == (BuilderV { valid_from_slot: Some(slot), ..self@ }),
    {
        let ghost s0 = self@;
        let mut this = self;
        this.valid_from_slot = Some(slot);
        proof {
            assert(this@ =~~= (BuilderV { valid_from_slot: Some(slot), ..s0 }));
        }
        this
    }

    /// Sets the end of the validity window from a timestamp, in seconds.
    /// Fails with `InvalidTimestamp` when the timestamp lies outside the
    /// network's slot range.
    pub fn invalid_from(self, timestamp: u64) -> (r: Result<Self, ValidationError>)
        ensures
            r is Ok <==> spec_timestamp_to_slot(self@.params, timestamp) is Some,
            r is Err ==> r->Err_0 == ValidationError::InvalidTimestamp,
            r is Ok ==> (r->Ok_0)@ == (BuilderV {
                invalid_from_slot: spec_timestamp_to_slot(self@.params, timestamp),
                ..self@
            }),
    {
        let ghost s0 = self@;
        let mut this = self;
        match this.network_params.timestamp_to_slot(timestamp) {
            Some(slot) => {
                this.invalid_from_slot = Some(slot);
                proof {
                    assert(this@ =~~= (BuilderV {
                        invalid_from_slot: spec_timestamp_to_slot(s0.params, timestamp),
                        ..s0
                    }));
                }
                Ok(this)
            },
            None => Err(ValidationError::InvalidTimestamp),
        }
    }

    /// Sets the end of the validity window to a slot.
    pub fn invalid_from_slot(self, slot: u64) -> (r: Self)
        ensures
            r@ == (BuilderV { invalid_from_slot: Some(slot), ..self@ }),
    {
        let ghost s0 = self@;
        let mut this = self;
        this.invalid_from_slot = Some(slot);
        proof {
            assert(this@ =~~= (BuilderV { invalid_from_slot: Some(slot), ..s0 }));
        }
        this
    }

    /// Stores a withdrawal.  Withdrawals are kept but not yet written into
    /// the body.
    pub fn withdrawal(self, account: Vec<u8>, amount: u64) -> (r: Self)
        ensures
            r@ == (BuilderV {
                withdrawals: assoc_insert(self@.withdrawals, account.deep_view(), amount),
                ..self@
            }),
    {
        let ghost s0 = self@;
        let mut this = self;
        let ghost av = account.deep_view();
        insert_withdrawal(&mut this.withdrawals, account, amount);
        proof {
            assert(this@ =~~= (BuilderV {
                withdrawals: assoc_insert(s0.withdrawals, av, amount),
                ..s0
            }));
        }
        this
    }

    /// Appends a certificate, in its wire form.
    pub fn certificate(self, cert: Vec<u8>) -> (r: Self)
        ensures
            r@ == (BuilderV { certificates: self@.certificates.push(cert.deep_view()), ..self@ }),
    {
        let ghost s0 = self@;
        let mut this = self;
        let ghost cv = cert.deep_view();
        this.certificates.push(cert);
        proof {
            assert(this@ =~~= (BuilderV { certificates: s0.certificates.push(cv), ..s0 }));
        }
        this
    }

    /// Appends a native script, in its wire form.
    pub fn native_script(self, script: Vec<u8>) -> (r: Self)
        ensures
            r@ == (BuilderV {
                native_scripts: self@.native_scripts.push(script.deep_view()),
                ..self@
            }),
    {
        let ghost s0 = self@;
        let mut this = self;
        let ghost sv = script.deep_view();
        this.native_scripts.push(script);
        proof {
            assert(this@ =~~= (BuilderV { native_scripts: s0.native_scripts.push(sv), ..s0 }));
        }
        this
    }

    /// Appends a first-version Plutus script: its bytes.
    pub fn plutus_v1_script(self, script: Vec<u8>) -> (r: Self)
        ensures
            r@ == (BuilderV {
                plutus_v1_scripts: self@.plutus_v1_scripts.push(script.deep_view()),
                ..self@
            }),
    {
        let ghost s0 = self@;
        let mut this = self;
        let ghost sv = script.deep_view();
        this.plutus_v1_scripts.push(script);
        proof {
            assert(this@ =~~= (BuilderV {
                plutus_v1_scripts: s0.plutus_v1_scripts.push(sv),
                ..s0
            }));
        }
        this
    }

    /// Appends a second-version Plutus script: its bytes.
    pub fn plutus_v2_script(self, script: Vec<u8>) -> (r: Self)
        ensures
            r@ == (BuilderV {
                plutus_v2_scripts: self@.plutus_v2_scripts.push(script.deep_view()),
                ..self@
            }),
    {
        let ghost s0 = self@;
        let mut this = self;
        let ghost sv = script.deep_view();
        this.plutus_v2_scripts.push(script);
        proof {
            assert(this@ =~~= (BuilderV {
                plutus_v2_scripts: s0.plutus_v2_scripts.push(sv),
                ..s0
            }));
        }
        this
    }

    /// Appends a Plutus datum, in its wire form.
    pub fn plutus_data(self, data: Vec<u8>) -> (r: Self)
        ensures
            r@ == (BuilderV { plutus_data: self@.plutus_data.push(data.deep_view()), ..self@ }),
    {
        let ghost s0 = self@;
        let mut this = self;
        let ghost dv = data.deep_view();
        this.plutus_data.push(data);
        proof {
            assert(this@ =~~= (BuilderV { plutus_data: s0.plutus_data.push(dv), ..s0 }));
        }
        this
    }

    /// Registers a redeemer for a purpose, with its datum in wire form and
    /// its execution-unit budget.
    pub fn redeemer(self, redeemer: RedeemerPurpose, data: Vec<u8>, ex_units: ExUnits) -> (r:
        Self)
        ensures
            r@ == (BuilderV {
                redeemers: assoc_insert(
                    self@.redeemers,
                    redeemer.deep_view(),
                    (data.deep_view(), ex_units),
                ),
                ..self@
            }),
    {
        let ghost s0 = self@;
        let mut this = self;
        let ghost kv = redeemer.deep_view();
        let ghost vv = (data.deep_view(), ex_units);
        insert_redeemer(&mut this.redeemers, redeemer, (data, ex_units));
        proof {
            assert((BuilderV { redeemers: assoc_insert(s0.redeemers, kv, vv), ..s0 }).redeemers
                =~~= assoc_insert(s0.redeemers, kv, vv));
            assert(this@ =~~= (BuilderV { redeemers: assoc_insert(s0.redeemers, kv, vv), ..s0 }));
        }
        this
    }

    /// Sets the script-data hash.
    pub fn script_data_hash(self, hash: [u8; 32]) -> (r: Self)
        ensures
            r@ == (BuilderV { script_data_hash: Some(hash.deep_view()), ..self@ }),
    {
        let ghost s0 = self@;
        let mut this = self;
        this.script_data_hash = Some(hash);
        proof {
            assert(hash.deep_view() =~= hash@);
            assert(this@ =~~= (BuilderV { script_data_hash: Some(hash.deep_view()), ..s0 }));
        }
        this
    }

    /// Assembles the transaction.  Validation is ordered and stops at the
    /// first failure: a configuration without inputs, a collateral input
    /// resolved to a multi-asset output, a collateral return carrying a
    /// multi-asset value, then the first registered redeemer purpose that
    /// does not resolve against the canonical orders.  On success the
    /// emitted inputs are the configured inputs in canonical order, the mint
    /// is canonicalized, every redeemer carries its resolved index, and the
    /// fee is the explicit fee or the linear fee of the zero-fee encoding.
    pub fn build(self) -> (r: Result<Transaction, ValidationError>)
        ensures
            r is Ok <==> spec_build_ok(self@),
            self@.inputs.len() == 0 ==> r == Err::<Transaction, ValidationError>(
                ValidationError::NoInputs,
            ),
            self@.inputs.len() > 0 && spec_bad_collateral(self@) ==> r == Err::<
                Transaction,
                ValidationError,
            >(ValidationError::InvalidCollateralInput),
            self@.inputs.len() > 0 && !spec_bad_collateral(self@) && spec_bad_collateral_return(
                self@,
            ) ==> r == Err::<Transaction, ValidationError>(ValidationError::InvalidCollateralReturn),
            self@.inputs.len() > 0 && !spec_bad_collateral(self@) && !spec_bad_collateral_return(
                self@,
            ) && first_unresolvable(
                self@.redeemers,
                spec_sorted_inputs(self@),
                spec_mint_policies(self@),
            ) is Some ==> r is Err && r->Err_0 is RedeemerPurposeMissing
                && (r->Err_0)->RedeemerPurposeMissing_0.deep_view() == first_unresolvable(
                self@.redeemers,
                spec_sorted_inputs(self@),
                spec_mint_policies(self@),
            )->Some_0,
            r is Ok ==> (r->Ok_0).deep_view() == spec_tx(self@, spec_fee(self@)),
    {
        let ghost b = self@;
        if self.inputs.len() == 0 {
            return Err(ValidationError::NoInputs);
        }
        // collateral inputs must be resolved to base-currency outputs
        let mut ci: usize = 0;
        while ci < self.collateral.len()
            invariant
                ci <= self.collateral.len(),
                b == self@,
                b.inputs.len() > 0,
                forall|j: int|
                    0 <= j < ci ==> !((#[trigger] b.collateral[j]).1 is Some && spec_is_multiasset(
                        b.collateral[j].1->Some_0,
                    )),
            decreases self.collateral.len() - ci,
        {
            match &self.collateral[ci].1 {
                Some(o) => {
                    if o.is_multiasset() {
                        proof {
                            assert(b.collateral[ci as int]
                                == self.collateral@[ci as int].deep_view());
                            assert(b.collateral[ci as int].1 is Some);
                            assert(spec_is_multiasset(b.collateral[ci as int].1->Some_0));
                            assert(spec_bad_collateral(b));
                        }
                        return Err(ValidationError::InvalidCollateralInput);
                    }
                },
                None => {},
            }
            ci = ci + 1;
        }
        proof {
            assert(!spec_bad_collateral(b));
        }
        // the collateral return must carry no multi-asset value
        match &self.collateral_return {
            Some(o) => {
                if o.is_multiasset() {
                    return Err(ValidationError::InvalidCollateralReturn);
                }
            },
            None => {},
        }
        proof {
            assert(!spec_bad_collateral_return(b));
        }
        // canonical input order
        let mut input_keys: Vec<TransactionInput> = Vec::new();
        let mut i: usize = 0;
        while i < self.inputs.len()
            invariant
                i <= self.inputs.len(),
                b == self@,
                input_keys.deep_view() =~~= key_seq(b.inputs).take(i as int),
            decreases self.inputs.len() - i,
        {
            let ghost prev = input_keys.deep_view();
            input_keys.push(self.inputs[i].0);
            proof {
                assert(input_keys.deep_view() =~~= prev.push(
                    self.inputs@[i as int].0.deep_view(),
                ));
                assert(b.inputs[i as int] == self.inputs@[i as int].deep_view());
                assert(key_seq(b.inputs).take(i as int + 1) =~= key_seq(b.inputs).take(
                    i as int,
                ).push(key_seq(b.inputs)[i as int]));
                assert(input_keys.deep_view() =~~= key_seq(b.inputs).take(i as int + 1));
            }
            i = i + 1;
        }
        proof {
            assert(key_seq(b.inputs).take(b.inputs.len() as int) =~= key_seq(b.inputs));
        }
        let sorted = sort_inputs(input_keys);
        proof {
            assert(sorted.deep_view() == spec_sorted_inputs(b));
        }
        // canonical mint and its policy order
        let mint: Option<crate::tx::Assets<i64>> = match self.mint {
            Some(ma) => Some(ma.build()),
            None => None,
        };
        let ghost pols = spec_mint_policies(b);
        let mut mint_policies: Vec<PolicyId> = Vec::new();
        match &mint {
            Some(m) => {
                let mut j: usize = 0;
                while j < m.len()
                    invariant
                        j <= m.len(),
                        m.deep_view() == spec_mint(b)->Some_0,
                        pols == spec_mint_policies(b),
                        spec_mint(b) is Some,
                        pols == key_seq(m.deep_view()),
                        mint_policies.deep_view() =~~= pols.take(j as int),
                    decreases m.len() - j,
                {
                    let ghost prev = mint_policies.deep_view();
                    mint_policies.push(m[j].0);
                    proof {
                        assert(mint_policies.deep_view() =~~= prev.push(
                            m@[j as int].0.deep_view(),
                        ));
                        assert(m.deep_view()[j as int] == m@[j as int].deep_view());
                        assert(pols[j as int] == m.deep_view()[j as int].0);
                        assert(pols.take(j as int + 1) =~= pols.take(j as int).push(
                            pols[j as int],
                        ));
                        assert(mint_policies.deep_view() =~~= pols.take(j as int + 1));
                    }
                    j = j + 1;
                }
                proof {
                    assert(pols.take(pols.len() as int) =~= pols);
                    assert(mint_policies.deep_view() =~~= pols);
                }
            },
            None => {
                proof {
                    assert(mint_policies.deep_view() =~~= pols);
                }
            },
        }
        // resolve the registered redeemers against the canonical orders
        let ghost rs = b.redeemers;
        let mut redeemers: Vec<Redeemer> = Vec::new();
        let ghost target = resolved_redeemers(rs, spec_sorted_inputs(b), pols);
        let mut ri: usize = 0;
        while ri < self.redeemers.len()
            invariant
                ri <= self.redeemers.len(),
                b == self@,
                b.inputs.len() > 0,
                !spec_bad_collateral(b),
                !spec_bad_collateral_return(b),
                rs == b.redeemers,
                pols == spec_mint_policies(b),
                sorted.deep_view() == spec_sorted_inputs(b),
                mint_policies.deep_view() == pols,
                target == resolved_redeemers(rs, spec_sorted_inputs(b), pols),
                forall|j: int|
                    0 <= j < ri ==> spec_resolve(
                        (#[trigger] rs[j]).0,
                        spec_sorted_inputs(b),
                        pols,
                    ) is Some,
                redeemers.deep_view() =~~= target.take(ri as int),
            decreases self.redeemers.len() - ri,
        {
            let resolved: Option<(RedeemerTag, u32)> = match &self.redeemers[ri].0 {
                RedeemerPurpose::Spend(x) => {
                    match find_input_index(&sorted, x) {
                        Some(ix) => Some((RedeemerTag::Spend, ix)),
                        None => None,
                    }
                },
                RedeemerPurpose::Mint(pid) => {
                    match find_policy_index(&mint_policies, pid) {
                        Some(ix) => Some((RedeemerTag::Mint, ix)),
                        None => None,
                    }
                },
                RedeemerPurpose::Cert(_) => None,
                RedeemerPurpose::Reward(_) => None,
            };
            proof {
                assert(rs[ri as int] == self.redeemers@[ri as int].deep_view());
                assert(resolved == spec_resolve(rs[ri as int].0, spec_sorted_inputs(b), pols));
            }
            match resolved {
                Some((tag, index)) => {
                    let data: Vec<u8> = copy_bytes(self.redeemers[ri].1.0.as_slice());
                    let ex_units: ExUnits = self.redeemers[ri].1.1;
                    let ghost prev = redeemers.deep_view();
                    redeemers.push(Redeemer { tag, index, data, ex_units });
                    proof {
                        assert(data.deep_view() =~= self.redeemers@[ri as int].1.0@);
                        assert(self.redeemers@[ri as int].1.0.deep_view() =~= self.redeemers@[
                            ri as int
                        ].1.0@);
                        assert(data.deep_view() == rs[ri as int].1.0);
                        assert(ex_units == rs[ri as int].1.1);
                        assert(redeemers.deep_view() =~~= prev.push(
                            RedeemerV { tag, index, data: rs[ri as int].1.0, ex_units },
                        ));
                        assert(target[ri as int] == RedeemerV {
                            tag,
                            index,
                            data: rs[ri as int].1.0,
                            ex_units,
                        });
                        assert(target.take(ri as int + 1) =~= target.take(ri as int).push(
                            target[ri as int],
                        ));
                        assert(redeemers.deep_view() =~~= target.take(ri as int + 1));
                    }
                },
                None => {
                    let p = copy_purpose(&self.redeemers[ri].0);
                    proof {
                        lemma_first_unresolvable_here(
                            rs,
                            spec_sorted_inputs(b),
                            pols,
                            ri as int,
                        );
                    }
                    return Err(ValidationError::RedeemerPurposeMissing(p));
                },
            }
            ri = ri + 1;
        }
        proof {
            lemma_first_unresolvable_none(rs, spec_sorted_inputs(b), pols, rs.len() as int);
            assert(target.take(rs.len() as int) =~= target);
            assert(redeemers.deep_view() =~~= target);
        }
        // collateral and reference-input key sequences, in insertion order
        let collateral_keys = input_key_list(&self.collateral);
        let reference_keys = input_key_list(&self.reference_inputs);
        let wire_network_id = self.network_params.wire_network_id();
        let fee0: u64 = match self.fee {
            Some(f) => f,
            None => 0,
        };
        let mut tx = Transaction {
            body: TransactionBody {
                inputs: sorted,
                outputs: self.outputs,
                fee: fee0,
                ttl: self.invalid_from_slot,
                certificates: self.certificates,
                validity_interval_start: self.valid_from_slot,
                mint,
                script_data_hash: self.script_data_hash,
                collateral: collateral_keys,
                required_signers: self.required_signers,
                network_id: wire_network_id,
                collateral_return: self.collateral_return,
                reference_inputs: reference_keys,
            },
            witness_set: WitnessSet {
                native_script: self.native_scripts,
                plutus_v1_script: self.plutus_v1_scripts,
                plutus_data: self.plutus_data,
                redeemer: redeemers,
                plutus_v2_script: self.plutus_v2_scripts,
            },
            is_valid: true,
            auxiliary_data: None,
        };
        proof {
            assert(tx.deep_view() =~~= spec_tx(b, fee0));
        }
        match self.fee {
            Some(_) => {
                proof {
                    assert(fee0 == spec_fee(b));
                }
                Ok(tx)
            },
            None => {
                let encoded = encode_tx(&tx);
                let fee = self.network_params.linear_fee(encoded.len());
                proof {
                    assert(fee == spec_fee(b));
                }
                tx.body.fee = fee;
                proof {
                    assert(tx.deep_view() =~~= spec_tx(b, spec_fee(b)));
                }
                Ok(tx)
            },
        }
    }

    /// Builds and renders the canonical encoding as lower-case hexadecimal.
    pub fn build_hex(self) -> (r: Result<String, ValidationError>)
        ensures
            r is Ok <==> spec_build_ok(self@),
            r is Ok ==> (r->Ok_0)@ == crate::bytes::hex_of(
                enc_tx(spec_tx(self@, spec_fee(self@))),
            ),
    {
        match self.build() {
            Ok(tx) => {
                let r = tx.hex_encoded();
                match r {
                    Ok(s) => Ok(s),
                    Err(e) => Err(e),
                }
            },
            Err(e) => Err(e),
        }
    }
}

/// The keys of an input-keyed collection, in insertion order.
fn input_key_list(v: &Vec<ResolvedInput>) -> (r: Vec<TransactionInput>)
    ensures
        r.deep_view() == key_seq(v.deep_view()),
{
    let ghost s = v.deep_view();
    let mut out: Vec<TransactionInput> = Vec::new();
    let mut i: usize = 0;
    while i < v.len()
        invariant
            i <= v.len(),
            s == v.deep_view(),
            out.deep_view() =~~= key_seq(s).take(i as int),
        decreases v.len() - i,
    {
        let ghost prev = out.deep_view();
        out.push(v[i].0);
        proof {
            assert(out.deep_view() =~~= prev.push(v@[i as int].0.deep_view()));
            assert(s[i as int] == v@[i as int].deep_view());
            assert(key_seq(s).take(i as int + 1) =~= key_seq(s).take(i as int).push(
                key_seq(s)[i as int],
            ));
            assert(out.deep_view() =~~= key_seq(s).take(i as int + 1));
        }
        i = i + 1;
    }
    proof {
        assert(key_seq(s).take(s.len() as int) =~= key_seq(s));
    }
    out
}

/// The position of an input in a sequence of inputs, by first match.
fn find_input_index(v: &Vec<TransactionInput>, x: &TransactionInput) -> (r: Option<u32>)
    ensures
        r == match first_index(v.deep_view(), x.deep_view()) {
            Some(i) => Some(i as u32),
            None => None::<u32>,
        },
{
    let mut i: usize = 0;
    while i < v.len()
        invariant
            i <= v.len(),
            forall|j: int| 0 <= j < i ==> v.deep_view()[j] != x.deep_view(),
        decreases v.len() - i,
    {
        if input_eq(&v[i], x) {
            proof {
                lemma_first_index_at(v.deep_view(), x.deep_view(), i as int);
            }
            return Some(i as u32);
        }
        i = i + 1;
    }
    proof {
        lemma_first_index_none(v.deep_view(), x.deep_view());
    }
    None
}

/// The position of a policy in the canonical mint-policy order, by first
/// match.
fn find_policy_index(v: &Vec<PolicyId>, x: &PolicyId) -> (r: Option<u32>)
    ensures
        r == match first_index(v.deep_view(), x.deep_view()) {
            Some(i) => Some(i as u32),
            None => None::<u32>,
        },
{
    let xv: Vec<u8> = copy_bytes(x.as_slice());
    proof {
        assert(x.deep_view() =~= xv@);
    }
    let mut i: usize = 0;
    while i < v.len()
        invariant
            i <= v.len(),
            xv@ == x.deep_view(),
            forall|j: int| 0 <= j < i ==> v.deep_view()[j] != x.deep_view(),
        decreases v.len() - i,
    {
        let pv: Vec<u8> = copy_bytes(v[i].as_slice());
        proof {
            assert(v@[i as int].deep_view() =~= pv@);
            assert(v.deep_view()[i as int] == v@[i as int].deep_view());
        }
        if bytes_eq(&pv, &xv) {
            proof {
                lemma_first_index_at(v.deep_view(), x.deep_view(), i as int);
            }
            return Some(i as u32);
        }
        i = i + 1;
    }
    proof {
        lemma_first_index_none(v.deep_view(), x.deep_view());
    }
    None
}

/// A fresh copy of a purpose.
fn copy_purpose(p: &RedeemerPurpose) -> (r: RedeemerPurpose)
    ensures
        r.deep_view() == p.deep_view(),
{
    match p {
        RedeemerPurpose::Spend(x) => RedeemerPurpose::Spend(*x),
        RedeemerPurpose::Mint(pid) => RedeemerPurpose::Mint(*pid),
        RedeemerPurpose::Cert(c) => {
            let r = RedeemerPurpose::Cert(copy_bytes(c.as_slice()));
            proof {
                assert(c.deep_view() =~= c@);
            }
            r
        },
        RedeemerPurpose::Reward(a) => {
            let r = RedeemerPurpose::Reward(copy_bytes(a.as_slice()));
            proof {
                assert(a.deep_view() =~= a@);
            }
            r
        },
    }
}

/// When every earlier purpose resolves and the one at `i` does not, it is the
/// first unresolvable purpose.
proof fn lemma_first_unresolvable_here(
    rs: Seq<(PurposeV, (Seq<u8>, ExUnits))>,
    ins: Seq<InputV>,
    pols: Seq<Seq<u8>>,
    i: int,
)
    requires
        0 <= i < rs.len(),
        forall|j: int| 0 <= j < i ==> spec_resolve((#[trigger] rs[j]).0, ins, pols) is Some,
        spec_resolve(rs[i].0, ins, pols) is None,
    ensures
        first_unresolvable(rs, ins, pols) == Some(rs[i].0),
    decreases i,
{
    if i > 0 {
        lemma_first_unresolvable_here(rs.drop_first(), ins, pols, i - 1);
    }
}

/// When every purpose among the first `n` resolves and `n` covers the whole
/// sequence, nothing is unresolvable.
proof fn lemma_first_unresolvable_none(
    rs: Seq<(PurposeV, (Seq<u8>, ExUnits))>,
    ins: Seq<InputV>,
    pols: Seq<Seq<u8>>,
    n: int,
)
    requires
        n == rs.len(),
        forall|j: int| 0 <= j < n ==> spec_resolve((#[trigger] rs[j]).0, ins, pols) is Some,
    ensures
        first_unresolvable(rs, ins, pols) is None,
    decreases rs.len(),
{
    if rs.len() > 0 {
        lemma_first_unresolvable_none(rs.drop_first(), ins, pols, n - 1);
    }
}

} // verus!
