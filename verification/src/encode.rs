//! The canonical wire encoding of a transaction.
//!
//! A transaction is an array of body, witness set and validity flag, with the
//! auxiliary data appended when present.  The body and the witness set are
//! maps from field key to field value, in ascending key order, with absent
//! fields omitted.  The spec functions here define the exact bytes over the
//! models; the executable encoder appends exactly those bytes.

use vstd::prelude::*;
use crate::cbor::{enc_bool, enc_bytes, enc_head, enc_int, enc_uint, push_bool, push_bytes,
    push_head, push_int, push_uint, MAJOR_ARRAY, MAJOR_MAP};
use crate::tx::{tag_value, AssetsV, BodyV, InputV, OutputV, RedeemerV, Transaction, TxV,
    WitnessV};
use crate::bytes::{hex_of, hex_string};
use crate::ValidationError;

verus! {

/// The encoding of one input: the pair of transaction id and index.
pub open spec fn enc_input(i: InputV) -> Seq<u8> {
    enc_head(MAJOR_ARRAY, 2) + enc_bytes(i.id) + enc_uint(i.index as u64)
}

/// The concatenated encodings of the first `n` inputs of `s`.
pub open spec fn cat_inputs(s: Seq<InputV>, n: int) -> Seq<u8>
    decreases n,
{
    if n <= 0 {
        Seq::empty()
    } else {
        cat_inputs(s, n - 1) + enc_input(s[n - 1])
    }
}

/// The encoding of an input sequence: an array of the inputs.
pub open spec fn enc_input_list(s: Seq<InputV>) -> Seq<u8> {
    enc_head(MAJOR_ARRAY, s.len() as u64) + cat_inputs(s, s.len() as int)
}

/// The concatenated encodings of the first `n` name/amount pairs.
pub open spec fn cat_assets_u64(s: Seq<(Seq<u8>, u64)>, n: int) -> Seq<u8>
    decreases n,
{
    if n <= 0 {
        Seq::empty()
    } else {
        cat_assets_u64(s, n - 1) + enc_bytes(s[n - 1].0) + enc_uint(s[n - 1].1)
    }
}

/// The encoding of one policy's assets: a map from name to amount.
pub open spec fn enc_asset_map_u64(s: Seq<(Seq<u8>, u64)>) -> Seq<u8> {
    enc_head(MAJOR_MAP, s.len() as u64) + cat_assets_u64(s, s.len() as int)
}

/// The concatenated encodings of the first `n` policies.
pub open spec fn cat_policies_u64(s: AssetsV<u64>, n: int) -> Seq<u8>
    decreases n,
{
    if n <= 0 {
        Seq::empty()
    } else {
        cat_policies_u64(s, n - 1) + enc_bytes(s[n - 1].0) + enc_asset_map_u64(s[n - 1].1)
    }
}

/// The encoding of a multi-asset value: a map from policy to asset map.
pub open spec fn enc_multiasset_u64(s: AssetsV<u64>) -> Seq<u8> {
    enc_head(MAJOR_MAP, s.len() as u64) + cat_policies_u64(s, s.len() as int)
}

/// As `cat_assets_u64`, with signed amounts.
pub open spec fn cat_assets_i64(s: Seq<(Seq<u8>, i64)>, n: int) -> Seq<u8>
    decreases n,
{
    if n <= 0 {
        Seq::empty()
    } else {
        cat_assets_i64(s, n - 1) + enc_bytes(s[n - 1].0) + enc_int(s[n - 1].1)
    }
}

/// As `enc_asset_map_u64`, with signed amounts.
pub open spec fn enc_asset_map_i64(s: Seq<(Seq<u8>, i64)>) -> Seq<u8> {
    enc_head(MAJOR_MAP, s.len() as u64) + cat_assets_i64(s, s.len() as int)
}

/// As `cat_policies_u64`, with signed amounts.
pub open spec fn cat_policies_i64(s: AssetsV<i64>, n: int) -> Seq<u8>
    decreases n,
{
    if n <= 0 {
        Seq::empty()
    } else {
        cat_policies_i64(s, n - 1) + enc_bytes(s[n - 1].0) + enc_asset_map_i64(s[n - 1].1)
    }
}

/// The encoding of a mint value: signed amounts allow burning.
pub open spec fn enc_multiasset_i64(s: AssetsV<i64>) -> Seq<u8> {
    enc_head(MAJOR_MAP, s.len() as u64) + cat_policies_i64(s, s.len() as int)
}

/// The encoding of an output's value: the bare amount, or the pair of amount
/// and multi-asset map.
pub open spec fn enc_value(coin: u64, assets: Option<AssetsV<u64>>) -> Seq<u8> {
    match assets {
        None => enc_uint(coin),
        Some(a) => enc_head(MAJOR_ARRAY, 2) + enc_uint(coin) + enc_multiasset_u64(a),
    }
}

/// How many fields an output writes.
pub open spec fn output_field_count(o: OutputV) -> u64 {
    (2 + (if o.datum is Some {
        1int
    } else {
        0
    }) + (if o.script_ref is Some {
        1int
    } else {
        0
    })) as u64
}

/// The encoding of an output: a map of address, value, and the optional
/// datum and reference script, which are already in wire form.
pub open spec fn enc_output(o: OutputV) -> Seq<u8> {
    enc_head(MAJOR_MAP, output_field_count(o)) + enc_uint(0) + enc_bytes(o.address) + enc_uint(1)
        + enc_value(o.coin, o.assets) + (match o.datum {
        Some(d) => enc_uint(2) + d,
        None => Seq::empty(),
    }) + (match o.script_ref {
        Some(s) => enc_uint(3) + s,
        None => Seq::empty(),
    })
}

/// The concatenated encodings of the first `n` outputs.
pub open spec fn cat_outputs(s: Seq<OutputV>, n: int) -> Seq<u8>
    decreases n,
{
    if n <= 0 {
        Seq::empty()
    } else {
        cat_outputs(s, n - 1) + enc_output(s[n - 1])
    }
}

/// The encoding of an output sequence.
pub open spec fn enc_output_list(s: Seq<OutputV>) -> Seq<u8> {
    enc_head(MAJOR_ARRAY, s.len() as u64) + cat_outputs(s, s.len() as int)
}

/// The concatenation of the first `n` payloads, already in wire form.
pub open spec fn cat_raw(s: Seq<Seq<u8>>, n: int) -> Seq<u8>
    decreases n,
{
    if n <= 0 {
        Seq::empty()
    } else {
        cat_raw(s, n - 1) + s[n - 1]
    }
}

/// The encoding of an array of payloads already in wire form.
pub open spec fn enc_raw_list(s: Seq<Seq<u8>>) -> Seq<u8> {
    enc_head(MAJOR_ARRAY, s.len() as u64) + cat_raw(s, s.len() as int)
}

/// The concatenated encodings of the first `n` byte strings.
pub open spec fn cat_bytes_items(s: Seq<Seq<u8>>, n: int) -> Seq<u8>
    decreases n,
{
    if n <= 0 {
        Seq::empty()
    } else {
        cat_bytes_items(s, n - 1) + enc_bytes(s[n - 1])
    }
}

/// The encoding of an array of byte strings.
pub open spec fn enc_bytes_list(s: Seq<Seq<u8>>) -> Seq<u8> {
    enc_head(MAJOR_ARRAY, s.len() as u64) + cat_bytes_items(s, s.len() as int)
}

/// The encoding of one redeemer record: tag, index, datum in wire form, and
/// the execution-unit pair.
pub open spec fn enc_redeemer(r: RedeemerV) -> Seq<u8> {
    enc_head(MAJOR_ARRAY, 4) + enc_uint(tag_value(r.tag)) + enc_uint(r.index as u64) + r.data
        + enc_head(MAJOR_ARRAY, 2) + enc_uint(r.ex_units.mem) + enc_uint(r.ex_units.steps)
}

/// The concatenated encodings of the first `n` redeemers.
pub open spec fn cat_redeemers(s: Seq<RedeemerV>, n: int) -> Seq<u8>
    decreases n,
{
    if n <= 0 {
        Seq::empty()
    } else {
        cat_redeemers(s, n - 1) + enc_redeemer(s[n - 1])
    }
}

/// The encoding of the redeemer sequence.
pub open spec fn enc_redeemer_list(s: Seq<RedeemerV>) -> Seq<u8> {
    enc_head(MAJOR_ARRAY, s.len() as u64) + cat_redeemers(s, s.len() as int)
}

/// How many fields the body writes: inputs, outputs and fee always, the
/// optional fields when present, the sequences when non-empty.
pub open spec fn body_field_count(b: BodyV) -> u64 {
    (3 + (if b.ttl is Some {
        1int
    } else {
        0
    }) + (if b.certificates.len() > 0 {
        1int
    } else {
        0
    }) + (if b.validity_interval_start is Some {
        1int
    } else {
        0
    }) + (if b.mint is Some {
        1int
    } else {
        0
    }) + (if b.script_data_hash is Some {
        1int
    } else {
        0
    }) + (if b.collateral.len() > 0 {
        1int
    } else {
        0
    }) + (if b.required_signers.len() > 0 {
        1int
    } else {
        0
    }) + (if b.network_id is Some {
        1int
    } else {
        0
    }) + (if b.collateral_return is Some {
        1int
    } else {
        0
    }) + (if b.reference_inputs.len() > 0 {
        1int
    } else {
        0
    })) as u64
}

/// The encoding of the body: a map in ascending key order.  Inputs are key 0,
/// outputs 1, fee 2, the ttl 3, certificates 4, the validity-interval start
/// 8, the mint 9, the script-data hash 11, collateral inputs 13, required
/// signers 14, the network id 15, the collateral return 16 and reference
/// inputs 18.
pub open spec fn enc_body(b: BodyV) -> Seq<u8> {
    enc_body_front(b) + enc_body_mid(b) + enc_body_back(b)
}

/// The head of the body map and its first fields: inputs, outputs, fee, ttl
/// and certificates.
pub open spec fn enc_body_front(b: BodyV) -> Seq<u8> {
    enc_head(MAJOR_MAP, body_field_count(b)) + enc_uint(0) + enc_input_list(b.inputs) + enc_uint(1)
        + enc_output_list(b.outputs) + enc_uint(2) + enc_uint(b.fee) + (match b.ttl {
        Some(t) => enc_uint(3) + enc_uint(t),
        None => Seq::empty(),
    }) + (if b.certificates.len() > 0 {
        enc_uint(4) + enc_raw_list(b.certificates)
    } else {
        Seq::empty()
    })
}

/// The middle fields of the body: validity-interval start, mint, script-data
/// hash and collateral inputs.
pub open spec fn enc_body_mid(b: BodyV) -> Seq<u8> {
    (match b.validity_interval_start {
        Some(t) => enc_uint(8) + enc_uint(t),
        None => Seq::empty(),
    }) + (match b.mint {
        Some(m) => enc_uint(9) + enc_multiasset_i64(m),
        None => Seq::empty(),
    }) + (match b.script_data_hash {
        Some(h) => enc_uint(11) + enc_bytes(h),
        None => Seq::empty(),
    }) + (if b.collateral.len() > 0 {
        enc_uint(13) + enc_input_list(b.collateral)
    } else {
        Seq::empty()
    })
}

/// The last fields of the body: required signers, network id, collateral
/// return and reference inputs.
pub open spec fn enc_body_back(b: BodyV) -> Seq<u8> {
    (if b.required_signers.len() > 0 {
        enc_uint(14) + enc_bytes_list(b.required_signers)
    } else {
        Seq::empty()
    }) + (match b.network_id {
        Some(n) => enc_uint(15) + enc_uint(n as u64),
        None => Seq::empty(),
    }) + (match b.collateral_return {
        Some(o) => enc_uint(16) + enc_output(o),
        None => Seq::empty(),
    }) + (if b.reference_inputs.len() > 0 {
        enc_uint(18) + enc_input_list(b.reference_inputs)
    } else {
        Seq::empty()
    })
}

/// How many fields the witness set writes.
pub open spec fn witness_field_count(w: WitnessV) -> u64 {
    ((if w.native_script.len() > 0 {
        1int
    } else {
        0
    }) + (if w.plutus_v1_script.len() > 0 {
        1int
    } else {
        0
    }) + (if w.plutus_data.len() > 0 {
        1int
    } else {
        0
    }) + (if w.redeemer.len() > 0 {
        1int
    } else {
        0
    }) + (if w.plutus_v2_script.len() > 0 {
        1int
    } else {
        0
    })) as u64
}

/// The encoding of the witness set: native scripts are key 1, first-version
/// Plutus scripts 3, Plutus data 4, redeemers 5 and second-version Plutus
/// scripts 6.  Native scripts and Plutus data are already in wire form;
/// Plutus scripts are byte strings.
pub open spec fn enc_witness(w: WitnessV) -> Seq<u8> {
    enc_head(MAJOR_MAP, witness_field_count(w)) + (if w.native_script.len() > 0 {
        enc_uint(1) + enc_raw_list(w.native_script)
    } else {
        Seq::empty()
    }) + (if w.plutus_v1_script.len() > 0 {
        enc_uint(3) + enc_bytes_list(w.plutus_v1_script)
    } else {
        Seq::empty()
    }) + (if w.plutus_data.len() > 0 {
        enc_uint(4) + enc_raw_list(w.plutus_data)
    } else {
        Seq::empty()
    }) + (if w.redeemer.len() > 0 {
        enc_uint(5) + enc_redeemer_list(w.redeemer)
    } else {
        Seq::empty()
    }) + (if w.plutus_v2_script.len() > 0 {
        enc_uint(6) + enc_bytes_list(w.plutus_v2_script)
    } else {
        Seq::empty()
    })
}

/// The encoding of a transaction: body, witness set and validity flag, with
/// the auxiliary data appended when present.
pub open spec fn enc_tx(t: TxV) -> Seq<u8> {
    match t.auxiliary_data {
        None => enc_head(MAJOR_ARRAY, 3) + enc_body(t.body) + enc_witness(t.witness_set)
            + enc_bool(t.is_valid),
        Some(a) => enc_head(MAJOR_ARRAY, 4) + enc_body(t.body) + enc_witness(t.witness_set)
            + enc_bool(t.is_valid) + a,
    }
}

/// Appends the bytes of `b` unchanged: `b` is already in wire form.
fn push_raw(out: &mut Vec<u8>, b: &Vec<u8>)
    ensures
        final(out)@ == old(out)@ + b.deep_view(),
{
    let mut i: usize = 0;
    while i < b.len()
        invariant
            i <= b.len(),
            out@ == old(out)@ + b@.take(i as int),
        decreases b.len() - i,
    {
        out.push(b[i]);
        assert(out@ =~= old(out)@ + b@.take(i as int + 1));
        i = i + 1;
    }
    proof {
        assert(b@.take(b@.len() as int) =~= b@);
        assert(b.deep_view() =~= b@);
    }
}

/// Appends the encoding of one input.
fn push_input(out: &mut Vec<u8>, i: &crate::tx::TransactionInput)
    ensures
        final(out)@ == old(out)@ + enc_input(i.deep_view()),
{
    push_head(out, MAJOR_ARRAY, 2);
    let id: Vec<u8> = crate::tx::copy_bytes(i.transaction_id.as_slice());
    push_bytes(out, &id);
    push_uint(out, i.index as u64);
    proof {
        assert(i.deep_view().id == id@);
        assert(out@ =~= old(out)@ + enc_input(i.deep_view()));
    }
}

/// Appends the encoding of an input sequence.
fn push_input_list(out: &mut Vec<u8>, v: &Vec<crate::tx::TransactionInput>)
    ensures
        final(out)@ == old(out)@ + enc_input_list(v.deep_view()),
{
    let ghost s = v.deep_view();
    push_head(out, MAJOR_ARRAY, v.len() as u64);
    let ghost base = out@;
    let mut i: usize = 0;
    while i < v.len()
        invariant
            i <= v.len(),
            s == v.deep_view(),
            out@ == base + cat_inputs(s, i as int),
        decreases v.len() - i,
    {
        push_input(out, &v[i]);
        assert(out@ =~= base + cat_inputs(s, i as int + 1));
        i = i + 1;
    }
}

/// Appends the encoding of a multi-asset value with unsigned amounts.
fn push_multiasset_u64(out: &mut Vec<u8>, m: &crate::tx::Assets<u64>)
    ensures
        final(out)@ == old(out)@ + enc_multiasset_u64(m.deep_view()),
{
    let ghost s = m.deep_view();
    push_head(out, MAJOR_MAP, m.len() as u64);
    let ghost base = out@;
    let mut i: usize = 0;
    while i < m.len()
        invariant
            i <= m.len(),
            s == m.deep_view(),
            out@ == base + cat_policies_u64(s, i as int),
        decreases m.len() - i,
    {
        let pid: Vec<u8> = crate::tx::copy_bytes(m[i].0.as_slice());
        push_bytes(out, &pid);
        proof {
            assert(pid@ == s[i as int].0);
        }
        let inner = &m[i].1;
        let ghost t = inner.deep_view();
        proof {
            assert(t == s[i as int].1);
        }
        push_head(out, MAJOR_MAP, inner.len() as u64);
        let ghost base2 = out@;
        let mut j: usize = 0;
        while j < inner.len()
            invariant
                j <= inner.len(),
                t == inner.deep_view(),
                out@ == base2 + cat_assets_u64(t, j as int),
            decreases inner.len() - j,
        {
            push_bytes(out, &inner[j].0);
            push_uint(out, inner[j].1);
            proof {
                assert(inner@[j as int].0.deep_view() =~= inner@[j as int].0@);
                assert(out@ =~= base2 + cat_assets_u64(t, j as int + 1));
            }
            j = j + 1;
        }
        proof {
            assert(out@ =~= base + cat_policies_u64(s, i as int + 1));
        }
        i = i + 1;
    }
}

/// Appends the encoding of a mint value, whose amounts are signed.
fn push_multiasset_i64(out: &mut Vec<u8>, m: &crate::tx::Assets<i64>)
    ensures
        final(out)@ == old(out)@ + enc_multiasset_i64(m.deep_view()),
{
    let ghost s = m.deep_view();
    push_head(out, MAJOR_MAP, m.len() as u64);
    let ghost base = out@;
    let mut i: usize = 0;
    while i < m.len()
        invariant
            i <= m.len(),
            s == m.deep_view(),
            out@ == base + cat_policies_i64(s, i as int),
        decreases m.len() - i,
    {
        let pid: Vec<u8> = crate::tx::copy_bytes(m[i].0.as_slice());
        push_bytes(out, &pid);
        proof {
            assert(pid@ == s[i as int].0);
        }
        let inner = &m[i].1;
        let ghost t = inner.deep_view();
        proof {
            assert(t == s[i as int].1);
        }
        push_head(out, MAJOR_MAP, inner.len() as u64);
        let ghost base2 = out@;
        let mut j: usize = 0;
        while j < inner.len()
            invariant
                j <= inner.len(),
                t == inner.deep_view(),
                out@ == base2 + cat_assets_i64(t, j as int),
            decreases inner.len() - j,
        {
            push_bytes(out, &inner[j].0);
            push_int(out, inner[j].1);
            proof {
                assert(inner@[j as int].0.deep_view() =~= inner@[j as int].0@);
                assert(out@ =~= base2 + cat_assets_i64(t, j as int + 1));
            }
            j = j + 1;
        }
        proof {
            assert(out@ =~= base + cat_policies_i64(s, i as int + 1));
        }
        i = i + 1;
    }
}

/// Appends the encoding of one output.
#[verifier::rlimit(100)]
fn push_output(out: &mut Vec<u8>, o: &crate::tx::TransactionOutput)
    ensures
        final(out)@ == old(out)@ + enc_output(o.deep_view()),
{
    let ghost ov = o.deep_view();
    let mut n: u64 = 2;
    if o.datum.is_some() {
        n = n + 1;
    }
    if o.script_ref.is_some() {
        n = n + 1;
    }
    proof {
        assert(n == output_field_count(ov));
    }
    push_head(out, MAJOR_MAP, n);
    push_uint(out, 0);
    push_bytes(out, &o.address);
    push_uint(out, 1);
    match &o.assets {
        None => {
            push_uint(out, o.coin);
        },
        Some(a) => {
            push_head(out, MAJOR_ARRAY, 2);
            push_uint(out, o.coin);
            push_multiasset_u64(out, a);
        },
    }
    match &o.datum {
        Some(d) => {
            push_uint(out, 2);
            push_raw(out, d);
        },
        None => {},
    }
    match &o.script_ref {
        Some(s) => {
            push_uint(out, 3);
            push_raw(out, s);
        },
        None => {},
    }
    proof {
        assert(o.address.deep_view() =~= o.address@);
        assert(out@ =~= old(out)@ + enc_output(ov));
    }
}

/// Appends the encoding of an output sequence.
fn push_output_list(out: &mut Vec<u8>, v: &Vec<crate::tx::TransactionOutput>)
    ensures
        final(out)@ == old(out)@ + enc_output_list(v.deep_view()),
{
    let ghost s = v.deep_view();
    push_head(out, MAJOR_ARRAY, v.len() as u64);
    let ghost base = out@;
    let mut i: usize = 0;
    while i < v.len()
        invariant
            i <= v.len(),
            s == v.deep_view(),
            out@ == base + cat_outputs(s, i as int),
        decreases v.len() - i,
    {
        push_output(out, &v[i]);
        assert(out@ =~= base + cat_outputs(s, i as int + 1));
        i = i + 1;
    }
}

/// Appends an array of payloads already in wire form.
fn push_raw_list(out: &mut Vec<u8>, v: &Vec<Vec<u8>>)
    ensures
        final(out)@ == old(out)@ + enc_raw_list(v.deep_view()),
{
    let ghost s = v.deep_view();
    push_head(out, MAJOR_ARRAY, v.len() as u64);
    let ghost base = out@;
    let mut i: usize = 0;
    while i < v.len()
        invariant
            i <= v.len(),
            s == v.deep_view(),
            out@ == base + cat_raw(s, i as int),
        decreases v.len() - i,
    {
        push_raw(out, &v[i]);
        assert(out@ =~= base + cat_raw(s, i as int + 1));
        i = i + 1;
    }
}

/// Appends an array of byte strings.
fn push_bytes_list(out: &mut Vec<u8>, v: &Vec<Vec<u8>>)
    ensures
        final(out)@ == old(out)@ + enc_bytes_list(v.deep_view()),
{
    let ghost s = v.deep_view();
    push_head(out, MAJOR_ARRAY, v.len() as u64);
    let ghost base = out@;
    let mut i: usize = 0;
    while i < v.len()
        invariant
            i <= v.len(),
            s == v.deep_view(),
            out@ == base + cat_bytes_items(s, i as int),
        decreases v.len() - i,
    {
        push_bytes(out, &v[i]);
        proof {
            assert(v@[i as int].deep_view() =~= v@[i as int]@);
            assert(out@ =~= base + cat_bytes_items(s, i as int + 1));
        }
        i = i + 1;
    }
}

/// Appends an array of 28-byte key hashes.
fn push_keyhash_list(out: &mut Vec<u8>, v: &Vec<crate::tx::AddrKeyhash>)
    ensures
        final(out)@ == old(out)@ + enc_bytes_list(v.deep_view()),
{
    let ghost s = v.deep_view();
    push_head(out, MAJOR_ARRAY, v.len() as u64);
    let ghost base = out@;
    let mut i: usize = 0;
    while i < v.len()
        invariant
            i <= v.len(),
            s == v.deep_view(),
            out@ == base + cat_bytes_items(s, i as int),
        decreases v.len() - i,
    {
        let h: Vec<u8> = crate::tx::copy_bytes(v[i].as_slice());
        push_bytes(out, &h);
        proof {
            assert(v@[i as int].deep_view() =~= v@[i as int]@);
            assert(h@ == s[i as int]);
            assert(out@ =~= base + cat_bytes_items(s, i as int + 1));
        }
        i = i + 1;
    }
}

/// Appends the encoding of the redeemer sequence.
fn push_redeemer_list(out: &mut Vec<u8>, v: &Vec<crate::tx::Redeemer>)
    ensures
        final(out)@ == old(out)@ + enc_redeemer_list(v.deep_view()),
{
    let ghost s = v.deep_view();
    push_head(out, MAJOR_ARRAY, v.len() as u64);
    let ghost base = out@;
    let mut i: usize = 0;
    while i < v.len()
        invariant
            i <= v.len(),
            s == v.deep_view(),
            out@ == base + cat_redeemers(s, i as int),
        decreases v.len() - i,
    {
        let r = &v[i];
        push_head(out, MAJOR_ARRAY, 4);
        let tag: u64 = match r.tag {
            crate::tx::RedeemerTag::Spend => 0,
            crate::tx::RedeemerTag::Mint => 1,
            crate::tx::RedeemerTag::Cert => 2,
            crate::tx::RedeemerTag::Reward => 3,
        };
        push_uint(out, tag);
        push_uint(out, r.index as u64);
        push_raw(out, &r.data);
        push_head(out, MAJOR_ARRAY, 2);
        push_uint(out, r.ex_units.mem);
        push_uint(out, r.ex_units.steps);
        proof {
            assert(tag == tag_value(s[i as int].tag));
            assert(out@ =~= base + cat_redeemers(s, i as int + 1));
        }
        i = i + 1;
    }
}

/// Appends the head of the body map and its first fields.
#[verifier::rlimit(100)]
fn push_body_front(out: &mut Vec<u8>, b: &crate::tx::TransactionBody, n: u64)
    requires
        n == body_field_count(b.deep_view()),
    ensures
        final(out)@ == old(out)@ + enc_body_front(b.deep_view()),
{
    let ghost bv = b.deep_view();
    push_head(out, MAJOR_MAP, n);
    push_uint(out, 0);
    push_input_list(out, &b.inputs);
    push_uint(out, 1);
    push_output_list(out, &b.outputs);
    push_uint(out, 2);
    push_uint(out, b.fee);
    match b.ttl {
        Some(t) => {
            push_uint(out, 3);
            push_uint(out, t);
        },
        None => {},
    }
    if b.certificates.len() > 0 {
        push_uint(out, 4);
        push_raw_list(out, &b.certificates);
    }
    proof {
        assert(out@ =~= old(out)@ + enc_body_front(bv));
    }
}

/// Appends the middle fields of the body.
#[verifier::rlimit(100)]
fn push_body_mid(out: &mut Vec<u8>, b: &crate::tx::TransactionBody)
    ensures
        final(out)@ == old(out)@ + enc_body_mid(b.deep_view()),
{
    let ghost bv = b.deep_view();
    match b.validity_interval_start {
        Some(t) => {
            push_uint(out, 8);
            push_uint(out, t);
        },
        None => {},
    }
    match &b.mint {
        Some(m) => {
            push_uint(out, 9);
            push_multiasset_i64(out, m);
        },
        None => {},
    }
    match &b.script_data_hash {
        Some(h) => {
            push_uint(out, 11);
            let hv: Vec<u8> = crate::tx::copy_bytes(h.as_slice());
            push_bytes(out, &hv);
        },
        None => {},
    }
    if b.collateral.len() > 0 {
        push_uint(out, 13);
        push_input_list(out, &b.collateral);
    }
    proof {
        assert(out@ =~= old(out)@ + enc_body_mid(bv));
    }
}

/// Appends the last fields of the body.
#[verifier::rlimit(100)]
fn push_body_back(out: &mut Vec<u8>, b: &crate::tx::TransactionBody)
    ensures
        final(out)@ == old(out)@ + enc_body_back(b.deep_view()),
{
    let ghost bv = b.deep_view();
    if b.required_signers.len() > 0 {
        push_uint(out, 14);
        push_keyhash_list(out, &b.required_signers);
    }
    match b.network_id {
        Some(id) => {
            push_uint(out, 15);
            push_uint(out, id as u64);
        },
        None => {},
    }
    match &b.collateral_return {
        Some(o) => {
            push_uint(out, 16);
            push_output(out, o);
        },
        None => {},
    }
    if b.reference_inputs.len() > 0 {
        push_uint(out, 18);
        push_input_list(out, &b.reference_inputs);
    }
    proof {
        assert(out@ =~= old(out)@ + enc_body_back(bv));
    }
}

/// How many fields the body will write.
#[verifier::rlimit(100)]
fn body_count(b: &crate::tx::TransactionBody) -> (n: u64)
    ensures
        n == body_field_count(b.deep_view()),
{
    let mut n: u64 = 3;
    if b.ttl.is_some() {
        n = n + 1;
    }
    if b.certificates.len() > 0 {
        n = n + 1;
    }
    if b.validity_interval_start.is_some() {
        n = n + 1;
    }
    if b.mint.is_some() {
        n = n + 1;
    }
    if b.script_data_hash.is_some() {
        n = n + 1;
    }
    if b.collateral.len() > 0 {
        n = n + 1;
    }
    if b.required_signers.len() > 0 {
        n = n + 1;
    }
    if b.network_id.is_some() {
        n = n + 1;
    }
    if b.collateral_return.is_some() {
        n = n + 1;
    }
    if b.reference_inputs.len() > 0 {
        n = n + 1;
    }
    n
}

/// Appends the encoding of the body.
fn push_body(out: &mut Vec<u8>, b: &crate::tx::TransactionBody)
    ensures
        final(out)@ == old(out)@ + enc_body(b.deep_view()),
{
    let n = body_count(b);
    push_body_front(out, b, n);
    push_body_mid(out, b);
    push_body_back(out, b);
    proof {
        assert(out@ =~= old(out)@ + enc_body(b.deep_view()));
    }
}

/// Appends the encoding of the witness set.
/// How many fields the witness set will write.
#[verifier::rlimit(100)]
fn witness_count(w: &crate::tx::WitnessSet) -> (n: u64)
    ensures
        n == witness_field_count(w.deep_view()),
{
    let mut n: u64 = 0;
    if w.native_script.len() > 0 {
        n = n + 1;
    }
    if w.plutus_v1_script.len() > 0 {
        n = n + 1;
    }
    if w.plutus_data.len() > 0 {
        n = n + 1;
    }
    if w.redeemer.len() > 0 {
        n = n + 1;
    }
    if w.plutus_v2_script.len() > 0 {
        n = n + 1;
    }
    n
}

/// Appends the encoding of the witness set.
#[verifier::rlimit(100)]
fn push_witness(out: &mut Vec<u8>, w: &crate::tx::WitnessSet)
    ensures
        final(out)@ == old(out)@ + enc_witness(w.deep_view()),
{
    let ghost wv = w.deep_view();
    let n = witness_count(w);
    push_head(out, MAJOR_MAP, n);
    if w.native_script.len() > 0 {
        push_uint(out, 1);
        push_raw_list(out, &w.native_script);
    }
    if w.plutus_v1_script.len() > 0 {
        push_uint(out, 3);
        push_bytes_list(out, &w.plutus_v1_script);
    }
    if w.plutus_data.len() > 0 {
        push_uint(out, 4);
        push_raw_list(out, &w.plutus_data);
    }
    if w.redeemer.len() > 0 {
        push_uint(out, 5);
        push_redeemer_list(out, &w.redeemer);
    }
    if w.plutus_v2_script.len() > 0 {
        push_uint(out, 6);
        push_bytes_list(out, &w.plutus_v2_script);
    }
    proof {
        assert(out@ =~= old(out)@ + enc_witness(wv));
    }
}

/// The canonical encoding of a transaction.
pub fn encode_tx(t: &Transaction) -> (r: Vec<u8>)
    ensures
        r@ == enc_tx(t.deep_view()),
{
    let mut out: Vec<u8> = Vec::new();
    match &t.auxiliary_data {
        None => {
            push_head(&mut out, MAJOR_ARRAY, 3);
            push_body(&mut out, &t.body);
            push_witness(&mut out, &t.witness_set);
            push_bool(&mut out, t.is_valid);
        },
        Some(a) => {
            push_head(&mut out, MAJOR_ARRAY, 4);
            push_body(&mut out, &t.body);
            push_witness(&mut out, &t.witness_set);
            push_bool(&mut out, t.is_valid);
            push_raw(&mut out, a);
        },
    }
    proof {
        assert(out@ =~= enc_tx(t.deep_view()));
    }
    out
}

impl Transaction {
    /// The canonical encoding, rendered as lower-case hexadecimal.
    pub fn hex_encoded(&self) -> (r: Result<String, ValidationError>)
        ensures
            r is Ok,
            (r->Ok_0)@ == hex_of(enc_tx(self.deep_view())),
    {
        let bytes = encode_tx(self);
        Ok(hex_string(&bytes))
    }
}

} // verus!
