//! The transaction data model.
//!
//! Values are held as plain data: hashes are fixed-size byte arrays, and
//! payloads that the builder stores without inspecting — certificates,
//! scripts, datums — are byte strings already in their wire form.  Each type
//! has a ghost model (its deep view) over which the contracts speak, and the
//! canonical order of inputs is defined here as a total order on that model.

use vstd::prelude::*;
use vstd::relations::total_ordering;
use crate::bytes::{bytes_le, bytes_lt, lemma_bytes_le_antisym, lemma_bytes_le_refl,
    lemma_bytes_le_total, lemma_bytes_le_trans, bytes_le_exec, bytes_eq};

verus! {

/// A 28-byte policy identifier: the hash of the minting authority's script.
pub type PolicyId = [u8; 28];

/// A 28-byte verification-key hash.
pub type AddrKeyhash = [u8; 28];

/// A reference to an unspent output: the producing transaction's 32-byte
/// identifier and the output's position in it.
#[derive(Clone, Copy, Debug, PartialEq, Eq)]
pub struct TransactionInput {
    pub transaction_id: [u8; 32],
    pub index: u32,
}

/// The model of an input.
#[verifier::ext_equal]
pub ghost struct InputV {
    pub id: Seq<u8>,
    pub index: u32,
}

impl DeepView for TransactionInput {
    type V = InputV;

    open spec fn deep_view(&self) -> InputV {
        InputV { id: self.transaction_id@, index: self.index }
    }
}

impl TransactionInput {
    /// An input referring to output `index` of transaction `transaction_id`.
    pub fn new(transaction_id: [u8; 32], index: u32) -> (r: TransactionInput)
        ensures
            r.deep_view() == (InputV { id: transaction_id@, index }),
    {
        TransactionInput { transaction_id, index }
    }
}

/// A multi-asset collection in its canonical flattened form: policies each
/// carrying their assets as name/amount pairs.
pub type Assets<T> = Vec<(PolicyId, Vec<(Vec<u8>, T)>)>;

/// The model of a flattened multi-asset collection.
pub type AssetsV<T> = Seq<(Seq<u8>, Seq<(Seq<u8>, T)>)>;

/// An output: an address, a base-currency amount, optionally a multi-asset
/// value, and optionally a datum and a reference script, both held in their
/// wire form.
#[derive(Clone, Debug, PartialEq, Eq)]
pub struct TransactionOutput {
    pub address: Vec<u8>,
    pub coin: u64,
    pub assets: Option<Assets<u64>>,
    pub datum: Option<Vec<u8>>,
    pub script_ref: Option<Vec<u8>>,
}

/// The model of an output.
#[verifier::ext_equal]
pub ghost struct OutputV {
    pub address: Seq<u8>,
    pub coin: u64,
    pub assets: Option<AssetsV<u64>>,
    pub datum: Option<Seq<u8>>,
    pub script_ref: Option<Seq<u8>>,
}

impl DeepView for TransactionOutput {
    type V = OutputV;

    open spec fn deep_view(&self) -> OutputV {
        OutputV {
            address: self.address.deep_view(),
            coin: self.coin,
            assets: self.assets.deep_view(),
            datum: self.datum.deep_view(),
            script_ref: self.script_ref.deep_view(),
        }
    }
}

/// Whether an output's value carries any non-base-currency asset.
pub open spec fn spec_is_multiasset(o: OutputV) -> bool {
    o.assets is Some
}

impl TransactionOutput {
    /// Whether this output's value carries any non-base-currency asset.
    pub fn is_multiasset(&self) -> (r: bool)
        ensures
            r == spec_is_multiasset(self.deep_view()),
    {
        self.assets.is_some()
    }

    /// An output of base-currency units alone.
    pub fn lovelaces(address: Vec<u8>, amount: u64) -> (r: TransactionOutput)
        ensures
            r.deep_view() == (OutputV {
                address: address.deep_view(),
                coin: amount,
                assets: None,
                datum: None,
                script_ref: None,
            }),
    {
        TransactionOutput { address, coin: amount, assets: None, datum: None, script_ref: None }
    }

    /// An output carrying a multi-asset value beside its base-currency
    /// units.  The assets are flattened into their canonical form; the
    /// output counts as multi-asset even when the container is empty.
    pub fn multiasset(address: Vec<u8>, amount: u64, assets: crate::asset::MultiAsset<u64>) -> (r:
        TransactionOutput)
        ensures
            r.deep_view() == (OutputV {
                address: address.deep_view(),
                coin: amount,
                assets: Some(crate::asset::canonical_assets(assets@)),
                datum: None,
                script_ref: None,
            }),
    {
        let flat = assets.build();
        TransactionOutput {
            address,
            coin: amount,
            assets: Some(flat),
            datum: None,
            script_ref: None,
        }
    }
}

/// An execution-unit budget for a script: memory and steps.
#[derive(Clone, Copy, Debug, PartialEq, Eq, Structural)]
pub struct ExUnits {
    pub mem: u64,
    pub steps: u64,
}

impl DeepView for ExUnits {
    type V = ExUnits;

    open spec fn deep_view(&self) -> ExUnits {
        *self
    }
}

/// The tag of a redeemer record.
#[derive(Clone, Copy, Debug, PartialEq, Eq, Structural)]
pub enum RedeemerTag {
    Spend,
    Mint,
    Cert,
    Reward,
}

/// The wire value of a redeemer tag.
pub open spec fn tag_value(t: RedeemerTag) -> u64 {
    match t {
        RedeemerTag::Spend => 0,
        RedeemerTag::Mint => 1,
        RedeemerTag::Cert => 2,
        RedeemerTag::Reward => 3,
    }
}

/// A logical purpose a redeemer is registered for.  Only spending an input
/// and minting under a policy resolve to indices; certificate and
/// reward-account purposes are recognized but unsupported, and fail at
/// `build` rather than resolve.
#[derive(Clone, Debug, PartialEq, Eq)]
pub enum RedeemerPurpose {
    /// Spend the given input.
    Spend(TransactionInput),
    /// Mint under the given policy.
    Mint(PolicyId),
    /// A certificate purpose, held in its wire form.  Unsupported.
    Cert(Vec<u8>),
    /// A reward-account purpose, held as the account's bytes.  Unsupported.
    Reward(Vec<u8>),
}

/// The model of a redeemer purpose.
#[verifier::ext_equal]
pub ghost enum PurposeV {
    Spend(InputV),
    Mint(Seq<u8>),
    Cert(Seq<u8>),
    Reward(Seq<u8>),
}

impl DeepView for RedeemerPurpose {
    type V = PurposeV;

    open spec fn deep_view(&self) -> PurposeV {
        match self {
            RedeemerPurpose::Spend(i) => PurposeV::Spend(i.deep_view()),
            RedeemerPurpose::Mint(p) => PurposeV::Mint(p.deep_view()),
            RedeemerPurpose::Cert(b) => PurposeV::Cert(b.deep_view()),
            RedeemerPurpose::Reward(b) => PurposeV::Reward(b.deep_view()),
        }
    }
}

/// A resolved redeemer record: tag, index into the canonical order of its
/// target collection, datum in wire form, and execution-unit budget.
#[derive(Clone, Debug, PartialEq, Eq)]
pub struct Redeemer {
    pub tag: RedeemerTag,
    pub index: u32,
    pub data: Vec<u8>,
    pub ex_units: ExUnits,
}

/// The model of a redeemer record.
#[verifier::ext_equal]
pub ghost struct RedeemerV {
    pub tag: RedeemerTag,
    pub index: u32,
    pub data: Seq<u8>,
    pub ex_units: ExUnits,
}

impl DeepView for Redeemer {
    type V = RedeemerV;

    open spec fn deep_view(&self) -> RedeemerV {
        RedeemerV {
            tag: self.tag,
            index: self.index,
            data: self.data.deep_view(),
            ex_units: self.ex_units,
        }
    }
}

/// The body of a transaction.  Fields that this design never emits — the
/// withdrawal map, the update proposal, the auxiliary-data hash, the total
/// collateral — are not represented: they are always absent from the wire.
#[derive(Clone, Debug)]
pub struct TransactionBody {
    pub inputs: Vec<TransactionInput>,
    pub outputs: Vec<TransactionOutput>,
    pub fee: u64,
    pub ttl: Option<u64>,
    pub certificates: Vec<Vec<u8>>,
    pub validity_interval_start: Option<u64>,
    pub mint: Option<Assets<i64>>,
    pub script_data_hash: Option<[u8; 32]>,
    pub collateral: Vec<TransactionInput>,
    pub required_signers: Vec<AddrKeyhash>,
    pub network_id: Option<u8>,
    pub collateral_return: Option<TransactionOutput>,
    pub reference_inputs: Vec<TransactionInput>,
}

/// The model of a transaction body.
#[verifier::ext_equal]
pub ghost struct BodyV {
    pub inputs: Seq<InputV>,
    pub outputs: Seq<OutputV>,
    pub fee: u64,
    pub ttl: Option<u64>,
    pub certificates: Seq<Seq<u8>>,
    pub validity_interval_start: Option<u64>,
    pub mint: Option<AssetsV<i64>>,
    pub script_data_hash: Option<Seq<u8>>,
    pub collateral: Seq<InputV>,
    pub required_signers: Seq<Seq<u8>>,
    pub network_id: Option<u8>,
    pub collateral_return: Option<OutputV>,
    pub reference_inputs: Seq<InputV>,
}

impl DeepView for TransactionBody {
    type V = BodyV;

    open spec fn deep_view(&self) -> BodyV {
        BodyV {
            inputs: self.inputs.deep_view(),
            outputs: self.outputs.deep_view(),
            fee: self.fee,
            ttl: self.ttl,
            certificates: self.certificates.deep_view(),
            validity_interval_start: self.validity_interval_start,
            mint: self.mint.deep_view(),
            script_data_hash: match self.script_data_hash {
                Some(h) => Some(h@),
                None => None,
            },
            collateral: self.collateral.deep_view(),
            required_signers: self.required_signers.deep_view(),
            network_id: self.network_id,
            collateral_return: match self.collateral_return {
                Some(o) => Some(o.deep_view()),
                None => None,
            },
            reference_inputs: self.reference_inputs.deep_view(),
        }
    }
}

/// The witness set.  Verification-key and bootstrap witnesses belong to the
/// signing collaborator and are always absent here.  Scripts and datums are
/// held in their wire form.
#[derive(Clone, Debug)]
pub struct WitnessSet {
    pub native_script: Vec<Vec<u8>>,
    pub plutus_v1_script: Vec<Vec<u8>>,
    pub plutus_data: Vec<Vec<u8>>,
    pub redeemer: Vec<Redeemer>,
    pub plutus_v2_script: Vec<Vec<u8>>,
}

/// The model of a witness set.
#[verifier::ext_equal]
pub ghost struct WitnessV {
    pub native_script: Seq<Seq<u8>>,
    pub plutus_v1_script: Seq<Seq<u8>>,
    pub plutus_data: Seq<Seq<u8>>,
    pub redeemer: Seq<RedeemerV>,
    pub plutus_v2_script: Seq<Seq<u8>>,
}

impl DeepView for WitnessSet {
    type V = WitnessV;

    open spec fn deep_view(&self) -> WitnessV {
        WitnessV {
            native_script: self.native_script.deep_view(),
            plutus_v1_script: self.plutus_v1_script.deep_view(),
            plutus_data: self.plutus_data.deep_view(),
            redeemer: self.redeemer.deep_view(),
            plutus_v2_script: self.plutus_v2_script.deep_view(),
        }
    }
}

/// An assembled transaction: body, witness set, validity flag and optional
/// auxiliary data in wire form.  Created only by `build`; never mutated.
#[derive(Clone, Debug)]
pub struct Transaction {
    pub body: TransactionBody,
    pub witness_set: WitnessSet,
    pub is_valid: bool,
    pub auxiliary_data: Option<Vec<u8>>,
}

/// The model of a transaction.
#[verifier::ext_equal]
pub ghost struct TxV {
    pub body: BodyV,
    pub witness_set: WitnessV,
    pub is_valid: bool,
    pub auxiliary_data: Option<Seq<u8>>,
}

impl DeepView for Transaction {
    type V = TxV;

    open spec fn deep_view(&self) -> TxV {
        TxV {
            body: self.body.deep_view(),
            witness_set: self.witness_set.deep_view(),
            is_valid: self.is_valid,
            auxiliary_data: self.auxiliary_data.deep_view(),
        }
    }
}

/// The canonical order of inputs: ascending by transaction identifier, then
/// by index.
pub open spec fn input_le(a: InputV, b: InputV) -> bool {
    bytes_lt(a.id, b.id) || (a.id == b.id && a.index <= b.index)
}

/// The input order as a closure value, shared by every contract and proof.
pub open spec fn input_leq_fn() -> spec_fn(InputV, InputV) -> bool {
    |a: InputV, b: InputV| input_le(a, b)
}

/// The canonical ordering of a sequence of inputs.
pub open spec fn canonical_inputs(s: Seq<InputV>) -> Seq<InputV> {
    s.sort_by(input_leq_fn())
}

/// The input order is a total order.
pub proof fn lemma_input_le_total_ordering()
    ensures
        total_ordering(input_leq_fn()),
{
    let leq = input_leq_fn();
    assert forall|a: InputV| #[trigger] leq(a, a) by {
        lemma_bytes_le_refl(a.id);
    }
    assert forall|a: InputV, b: InputV| #[trigger] leq(a, b) && #[trigger] leq(b, a) implies a
        == b by {
        if bytes_lt(a.id, b.id) || bytes_lt(b.id, a.id) {
            lemma_bytes_le_antisym(a.id, b.id);
        } else {
            assert(a.id == b.id && a.index == b.index);
            assert(a =~= b);
        }
    }
    assert forall|a: InputV, b: InputV, c: InputV|
        #[trigger] leq(a, b) && #[trigger] leq(b, c) implies leq(a, c) by {
        if bytes_lt(a.id, b.id) && bytes_lt(b.id, c.id) {
            lemma_bytes_le_trans(a.id, b.id, c.id);
            if a.id == c.id {
                lemma_bytes_le_antisym(a.id, b.id);
            }
        }
    }
    assert forall|a: InputV, b: InputV| #[trigger] leq(a, b) || #[trigger] leq(b, a) by {
        lemma_bytes_le_total(a.id, b.id);
    }
}

/// Executable test of the canonical input order.
pub fn input_le_exec(a: &TransactionInput, b: &TransactionInput) -> (r: bool)
    ensures
        r == input_le(a.deep_view(), b.deep_view()),
{
    let ghost av = a.deep_view();
    let ghost bv = b.deep_view();
    let id_a: Vec<u8> = copy_bytes(a.transaction_id.as_slice());
    let id_b: Vec<u8> = copy_bytes(b.transaction_id.as_slice());
    if bytes_eq(&id_a, &id_b) {
        a.index <= b.index
    } else {
        let r = bytes_le_exec(&id_a, &id_b);
        proof {
            if r && av.id != bv.id {
                assert(bytes_lt(av.id, bv.id));
            }
        }
        r
    }
}

/// Executable equality of inputs, over their models.
pub fn input_eq(a: &TransactionInput, b: &TransactionInput) -> (r: bool)
    ensures
        r == (a.deep_view() == b.deep_view()),
{
    let id_a: Vec<u8> = copy_bytes(a.transaction_id.as_slice());
    let id_b: Vec<u8> = copy_bytes(b.transaction_id.as_slice());
    let r = bytes_eq(&id_a, &id_b) && a.index == b.index;
    proof {
        if r {
            assert(a.deep_view() =~= b.deep_view());
        }
    }
    r
}

/// Executable equality of redeemer purposes, over their models.
pub fn purpose_eq(a: &RedeemerPurpose, b: &RedeemerPurpose) -> (r: bool)
    ensures
        r == (a.deep_view() == b.deep_view()),
{
    match (a, b) {
        (RedeemerPurpose::Spend(x), RedeemerPurpose::Spend(y)) => input_eq(x, y),
        (RedeemerPurpose::Mint(x), RedeemerPurpose::Mint(y)) => {
            let vx: Vec<u8> = copy_bytes(x.as_slice());
            let vy: Vec<u8> = copy_bytes(y.as_slice());
            let r = bytes_eq(&vx, &vy);
            proof {
                assert(x.deep_view() =~= x@);
                assert(y.deep_view() =~= y@);
            }
            r
        },
        (RedeemerPurpose::Cert(x), RedeemerPurpose::Cert(y)) => {
            let r = bytes_eq(x, y);
            proof {
                assert(x.deep_view() =~= x@);
                assert(y.deep_view() =~= y@);
            }
            r
        },
        (RedeemerPurpose::Reward(x), RedeemerPurpose::Reward(y)) => {
            let r = bytes_eq(x, y);
            proof {
                assert(x.deep_view() =~= x@);
                assert(y.deep_view() =~= y@);
            }
            r
        },
        _ => false,
    }
}

/// A fresh vector holding the bytes of `b`.
pub fn copy_bytes(b: &[u8]) -> (r: Vec<u8>)
    ensures
        r@ == b@,
{
    let mut out: Vec<u8> = Vec::new();
    let mut i: usize = 0;
    while i < b.len()
        invariant
            i <= b.len(),
            out@ == b@.take(i as int),
        decreases b.len() - i,
    {
        out.push(b[i]);
        assert(out@ =~= b@.take(i as int + 1));
        i = i + 1;
    }
    assert(b@.take(b@.len() as int) =~= b@);
    out
}

} // verus!
