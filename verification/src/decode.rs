//! Decoding the canonical encoding, as far as the builder's own data goes.
//!
//! The parsers here invert the encoders of `encode` on the leading fields of
//! a transaction: the inputs, the outputs, the fee and the ttl, which the
//! body writes first and in that order.  Payloads the builder only splices
//! through (datums, reference scripts) carry no length marker of their own,
//! so outputs are decodable exactly when they carry none — which is what the
//! output constructors build.  The round-trip lemma proves that parsing the
//! encoding of a built transaction returns exactly the encoded values.

use vstd::prelude::*;
use crate::cbor::{enc_bytes, enc_head, enc_uint, MAJOR_ARRAY, MAJOR_BYTES, MAJOR_MAP, MAJOR_UINT};
use crate::encode::{cat_inputs, cat_outputs, cat_policies_u64, cat_assets_u64, enc_input,
    enc_input_list, enc_output, enc_output_list, enc_value, enc_multiasset_u64,
    enc_asset_map_u64, enc_tx, enc_body, enc_body_front, enc_body_mid, enc_body_back,
    output_field_count, body_field_count, enc_witness, witness_field_count};
use crate::tx::{AssetsV, BodyV, InputV, OutputV, TxV};

verus! {

/// Parses a head of major-type base `mb`: the argument and the rest.
pub open spec fn parse_head(mb: u8, s: Seq<u8>) -> Option<(u64, Seq<u8>)> {
    if s.len() == 0 {
        None
    } else {
        let b0 = s[0];
        if mb <= b0 && b0 < mb + 24 {
            Some(((b0 - mb) as u64, s.drop_first()))
        } else if b0 == mb + 24 && s.len() >= 2 {
            Some((s[1] as u64, s.skip(2)))
        } else if b0 == mb + 25 && s.len() >= 3 {
            Some(((s[1] * 0x100 + s[2]) as u64, s.skip(3)))
        } else if b0 == mb + 26 && s.len() >= 5 {
            Some((
                (s[1] * 0x100_0000 + s[2] * 0x1_0000 + s[3] * 0x100 + s[4]) as u64,
                s.skip(5),
            ))
        } else if b0 == mb + 27 && s.len() >= 9 {
            Some((
                (s[1] * 0x100_0000_0000_0000 + s[2] * 0x1_0000_0000_0000 + s[3] * 0x100_0000_0000
                    + s[4] * 0x1_0000_0000 + s[5] * 0x100_0000 + s[6] * 0x1_0000 + s[7] * 0x100
                    + s[8]) as u64,
                s.skip(9),
            ))
        } else {
            None
        }
    }
}

/// Parses an unsigned integer.
pub open spec fn parse_uint(s: Seq<u8>) -> Option<(u64, Seq<u8>)> {
    parse_head(MAJOR_UINT, s)
}

/// Parses a byte string.
pub open spec fn parse_bytes(s: Seq<u8>) -> Option<(Seq<u8>, Seq<u8>)> {
    match parse_head(MAJOR_BYTES, s) {
        Some((n, r)) => if r.len() >= n {
            Some((r.take(n as int), r.skip(n as int)))
        } else {
            None
        },
        None => None,
    }
}

/// Parsing the canonical head of `v` gives back `v` and the rest.
#[verifier::rlimit(100)]
pub proof fn lemma_parse_head(mb: u8, v: u64, rest: Seq<u8>)
    requires
        mb == MAJOR_UINT || mb == MAJOR_BYTES || mb == MAJOR_ARRAY || mb == MAJOR_MAP,
    ensures
        parse_head(mb, enc_head(mb, v) + rest) == Some((v, rest)),
{
    let s = enc_head(mb, v) + rest;
    if v < 24 {
        assert(s.drop_first() =~= rest);
    } else if v < 0x100 {
        assert(s[0] == mb + 24);
        assert(s.skip(2) =~= rest);
    } else if v < 0x1_0000 {
        assert(s.skip(3) =~= rest);
        assert(s[1] == (v / 0x100) as u8 && s[2] == (v % 0x100) as u8);
        assert((v / 0x100) * 0x100 + (v % 0x100) == v) by (bit_vector);
        assert((s[1] * 0x100 + s[2]) as u64 == v);
    } else if v < 0x1_0000_0000 {
        assert(s.skip(5) =~= rest);
        assert(s[1] == (v / 0x100_0000) as u8);
        assert(s[2] == ((v / 0x1_0000) % 0x100) as u8);
        assert(s[3] == ((v / 0x100) % 0x100) as u8);
        assert(s[4] == (v % 0x100) as u8);
        assert(v < 0x1_0000_0000 ==> (v / 0x100_0000) * 0x100_0000 + ((v / 0x1_0000) % 0x100)
            * 0x1_0000 + ((v / 0x100) % 0x100) * 0x100 + (v % 0x100) == v) by (bit_vector);
        assert((s[1] * 0x100_0000 + s[2] * 0x1_0000 + s[3] * 0x100 + s[4]) as u64 == v);
    } else {
        assert(s.skip(9) =~= rest);
        assert(s[1] == (v / 0x100_0000_0000_0000) as u8);
        assert(s[2] == ((v / 0x1_0000_0000_0000) % 0x100) as u8);
        assert(s[3] == ((v / 0x100_0000_0000) % 0x100) as u8);
        assert(s[4] == ((v / 0x1_0000_0000) % 0x100) as u8);
        assert(s[5] == ((v / 0x100_0000) % 0x100) as u8);
        assert(s[6] == ((v / 0x1_0000) % 0x100) as u8);
        assert(s[7] == ((v / 0x100) % 0x100) as u8);
        assert(s[8] == (v % 0x100) as u8);
        assert((v / 0x100_0000_0000_0000) * 0x100_0000_0000_0000 + ((v / 0x1_0000_0000_0000)
            % 0x100) * 0x1_0000_0000_0000 + ((v / 0x100_0000_0000) % 0x100) * 0x100_0000_0000 + ((
        v / 0x1_0000_0000) % 0x100) * 0x1_0000_0000 + ((v / 0x100_0000) % 0x100) * 0x100_0000 + ((
        v / 0x1_0000) % 0x100) * 0x1_0000 + ((v / 0x100) % 0x100) * 0x100 + (v % 0x100)
            == v) by (bit_vector);
        assert((s[1] * 0x100_0000_0000_0000 + s[2] * 0x1_0000_0000_0000 + s[3] * 0x100_0000_0000
            + s[4] * 0x1_0000_0000 + s[5] * 0x100_0000 + s[6] * 0x1_0000 + s[7] * 0x100 + s[8])
            as u64 == v);
    }
}

/// Parsing the canonical encoding of a byte string gives it back.
pub proof fn lemma_parse_bytes(b: Seq<u8>, rest: Seq<u8>)
    requires
        b.len() <= u64::MAX,
    ensures
        parse_bytes(enc_bytes(b) + rest) == Some((b, rest)),
{
    assert(enc_bytes(b) + rest =~= enc_head(MAJOR_BYTES, b.len() as u64) + (b + rest));
    lemma_parse_head(MAJOR_BYTES, b.len() as u64, b + rest);
    assert((b + rest).take(b.len() as int) =~= b);
    assert((b + rest).skip(b.len() as int) =~= rest);
}

/// Parses one input.
pub open spec fn parse_input(s: Seq<u8>) -> Option<(InputV, Seq<u8>)> {
    match parse_head(MAJOR_ARRAY, s) {
        Some((n, r1)) => if n == 2 {
            match parse_bytes(r1) {
                Some((id, r2)) => match parse_uint(r2) {
                    Some((ix, r3)) => Some((InputV { id, index: ix as u32 }, r3)),
                    None => None,
                },
                None => None,
            }
        } else {
            None
        },
        None => None,
    }
}

/// Parses `n` inputs.
pub open spec fn parse_inputs(n: int, s: Seq<u8>) -> Option<(Seq<InputV>, Seq<u8>)>
    decreases n,
{
    if n <= 0 {
        Some((Seq::empty(), s))
    } else {
        match parse_input(s) {
            Some((i, r)) => match parse_inputs(n - 1, r) {
                Some((tail, r2)) => Some((seq![i] + tail, r2)),
                None => None,
            },
            None => None,
        }
    }
}

/// Parses an array of inputs.
pub open spec fn parse_input_list(s: Seq<u8>) -> Option<(Seq<InputV>, Seq<u8>)> {
    match parse_head(MAJOR_ARRAY, s) {
        Some((n, r)) => parse_inputs(n as int, r),
        None => None,
    }
}

/// Parses `n` name/amount pairs.
pub open spec fn parse_assets_u64(n: int, s: Seq<u8>) -> Option<(Seq<(Seq<u8>, u64)>, Seq<u8>)>
    decreases n,
{
    if n <= 0 {
        Some((Seq::empty(), s))
    } else {
        match parse_bytes(s) {
            Some((name, r1)) => match parse_uint(r1) {
                Some((amount, r2)) => match parse_assets_u64(n - 1, r2) {
                    Some((tail, r3)) => Some((seq![(name, amount)] + tail, r3)),
                    None => None,
                },
                None => None,
            },
            None => None,
        }
    }
}

/// Parses a map from asset name to amount.
pub open spec fn parse_asset_map_u64(s: Seq<u8>) -> Option<(Seq<(Seq<u8>, u64)>, Seq<u8>)> {
    match parse_head(MAJOR_MAP, s) {
        Some((n, r)) => parse_assets_u64(n as int, r),
        None => None,
    }
}

/// Parses `n` policies, each with its asset map.
pub open spec fn parse_policies_u64(n: int, s: Seq<u8>) -> Option<(AssetsV<u64>, Seq<u8>)>
    decreases n,
{
    if n <= 0 {
        Some((Seq::empty(), s))
    } else {
        match parse_bytes(s) {
            Some((policy, r1)) => match parse_asset_map_u64(r1) {
                Some((inner, r2)) => match parse_policies_u64(n - 1, r2) {
                    Some((tail, r3)) => Some((seq![(policy, inner)] + tail, r3)),
                    None => None,
                },
                None => None,
            },
            None => None,
        }
    }
}

/// Parses a multi-asset map.
pub open spec fn parse_multiasset_u64(s: Seq<u8>) -> Option<(AssetsV<u64>, Seq<u8>)> {
    match parse_head(MAJOR_MAP, s) {
        Some((n, r)) => parse_policies_u64(n as int, r),
        None => None,
    }
}

/// Parses an output's value: a bare amount or an amount beside a multi-asset
/// map.
pub open spec fn parse_value(s: Seq<u8>) -> Option<((u64, Option<AssetsV<u64>>), Seq<u8>)> {
    match parse_uint(s) {
        Some((c, r)) => Some(((c, None), r)),
        None => match parse_head(MAJOR_ARRAY, s) {
            Some((n, r)) => if n == 2 {
                match parse_uint(r) {
                    Some((c, r1)) => match parse_multiasset_u64(r1) {
                        Some((m, r2)) => Some(((c, Some(m)), r2)),
                        None => None,
                    },
                    None => None,
                }
            } else {
                None
            },
            None => None,
        },
    }
}

/// Parses one output.  An output carrying a datum or a reference script is
/// not decodable: those payloads are spliced through without a length marker
/// of their own.
pub open spec fn parse_output(s: Seq<u8>) -> Option<(OutputV, Seq<u8>)> {
    match parse_head(MAJOR_MAP, s) {
        Some((n, r)) => if n == 2 {
            match parse_uint(r) {
                Some((k0, r1)) => if k0 == 0 {
                    match parse_bytes(r1) {
                        Some((address, r2)) => match parse_uint(r2) {
                            Some((k1, r3)) => if k1 == 1 {
                                match parse_value(r3) {
                                    Some(((coin, assets), r4)) => Some(
                                        (
                                            OutputV {
                                                address,
                                                coin,
                                                assets,
                                                datum: None,
                                                script_ref: None,
                                            },
                                            r4,
                                        ),
                                    ),
                                    None => None,
                                }
                            } else {
                                None
                            },
                            None => None,
                        },
                        None => None,
                    }
                } else {
                    None
                },
                None => None,
            }
        } else {
            None
        },
        None => None,
    }
}

/// Parses `n` outputs.
pub open spec fn parse_outputs(n: int, s: Seq<u8>) -> Option<(Seq<OutputV>, Seq<u8>)>
    decreases n,
{
    if n <= 0 {
        Some((Seq::empty(), s))
    } else {
        match parse_output(s) {
            Some((o, r)) => match parse_outputs(n - 1, r) {
                Some((tail, r2)) => Some((seq![o] + tail, r2)),
                None => None,
            },
            None => None,
        }
    }
}

/// Parses an array of outputs.
pub open spec fn parse_output_list(s: Seq<u8>) -> Option<(Seq<OutputV>, Seq<u8>)> {
    match parse_head(MAJOR_ARRAY, s) {
        Some((n, r)) => parse_outputs(n as int, r),
        None => None,
    }
}

/// Parses the leading fields of an encoded transaction: the inputs, the
/// outputs, the fee and the ttl.
pub open spec fn parse_tx_summary(s: Seq<u8>) -> Option<
    (Seq<InputV>, Seq<OutputV>, u64, Option<u64>),
> {
    match parse_head(MAJOR_ARRAY, s) {
        Some((na, r0)) => if na == 3 || na == 4 {
            match parse_head(MAJOR_MAP, r0) {
                Some((_nf, r1)) => match parse_uint(r1) {
                    Some((k0, r2)) => if k0 == 0 {
                        match parse_input_list(r2) {
                            Some((ins, r3)) => match parse_uint(r3) {
                                Some((k1, r4)) => if k1 == 1 {
                                    match parse_output_list(r4) {
                                        Some((outs, r5)) => match parse_uint(r5) {
                                            Some((k2, r6)) => if k2 == 2 {
                                                match parse_uint(r6) {
                                                    Some((fee, r7)) => Some(
                                                        (ins, outs, fee, parse_ttl(r7)),
                                                    ),
                                                    None => None,
                                                }
                                            } else {
                                                None
                                            },
                                            None => None,
                                        },
                                        None => None,
                                    }
                                } else {
                                    None
                                },
                                None => None,
                            },
                            None => None,
                        }
                    } else {
                        None
                    },
                    None => None,
                },
                None => None,
            }
        } else {
            None
        },
        None => None,
    }
}

/// The ttl, when the bytes after the fee start with its field key.
pub open spec fn parse_ttl(s: Seq<u8>) -> Option<u64> {
    match parse_uint(s) {
        Some((k, r)) => if k == 3 {
            match parse_uint(r) {
                Some((t, _)) => Some(t),
                None => None,
            }
        } else {
            None
        },
        None => None,
    }
}

/// Parsing the encoding of an input gives it back.
pub proof fn lemma_parse_input(i: InputV, rest: Seq<u8>)
    requires
        i.id.len() <= u64::MAX,
    ensures
        parse_input(enc_input(i) + rest) == Some((i, rest)),
{
    let tail2 = enc_uint(i.index as u64) + rest;
    let tail1 = enc_bytes(i.id) + tail2;
    assert(enc_input(i) + rest =~= enc_head(MAJOR_ARRAY, 2) + tail1);
    lemma_parse_head(MAJOR_ARRAY, 2, tail1);
    lemma_parse_bytes(i.id, tail2);
    lemma_parse_head(MAJOR_UINT, i.index as u64, rest);
    assert(InputV { id: i.id, index: (i.index as u64) as u32 } =~= i);
}

/// The concatenated input encodings decompose at the front.
proof fn lemma_cat_inputs_front(s: Seq<InputV>, n: int)
    requires
        1 <= n <= s.len(),
    ensures
        cat_inputs(s, n) == enc_input(s[0]) + cat_inputs(s.drop_first(), n - 1),
    decreases n,
{
    if n == 1 {
        assert(cat_inputs(s, 0) == Seq::<u8>::empty());
        assert(cat_inputs(s.drop_first(), 0) == Seq::<u8>::empty());
        assert(cat_inputs(s, 1) =~= enc_input(s[0]) + cat_inputs(s.drop_first(), 0));
    } else {
        lemma_cat_inputs_front(s, n - 1);
        assert(s.drop_first()[n - 2] == s[n - 1]);
        assert(cat_inputs(s, n) =~= enc_input(s[0]) + cat_inputs(s.drop_first(), n - 1));
    }
}

/// Parsing `n` encoded inputs gives them back.
#[verifier::rlimit(100)]
proof fn lemma_parse_inputs(s: Seq<InputV>, rest: Seq<u8>)
    requires
        forall|j: int| 0 <= j < s.len() ==> (#[trigger] s[j]).id.len() <= u64::MAX,
    ensures
        parse_inputs(s.len() as int, cat_inputs(s, s.len() as int) + rest) == Some((s, rest)),
    decreases s.len(),
{
    if s.len() == 0 {
        assert(cat_inputs(s, 0) + rest =~= rest);
        assert(Seq::<InputV>::empty() =~= s);
    } else {
        lemma_cat_inputs_front(s, s.len() as int);
        let tail = cat_inputs(s.drop_first(), s.len() - 1) + rest;
        assert(cat_inputs(s, s.len() as int) + rest =~= enc_input(s[0]) + tail);
        lemma_parse_input(s[0], tail);
        assert forall|j: int| 0 <= j < s.drop_first().len() implies (#[trigger] s.drop_first()[
            j
        ]).id.len() <= u64::MAX by {
            assert(s.drop_first()[j] == s[j + 1]);
        }
        lemma_parse_inputs(s.drop_first(), rest);
        assert(seq![s[0]] + s.drop_first() =~= s);
    }
}

/// Parsing an encoded input array gives it back.
pub proof fn lemma_parse_input_list(s: Seq<InputV>, rest: Seq<u8>)
    requires
        s.len() <= u64::MAX,
        forall|j: int| 0 <= j < s.len() ==> (#[trigger] s[j]).id.len() <= u64::MAX,
    ensures
        parse_input_list(enc_input_list(s) + rest) == Some((s, rest)),
{
    let tail = cat_inputs(s, s.len() as int) + rest;
    assert(enc_input_list(s) + rest =~= enc_head(MAJOR_ARRAY, s.len() as u64) + tail);
    lemma_parse_head(MAJOR_ARRAY, s.len() as u64, tail);
    lemma_parse_inputs(s, rest);
}

/// Every length written into a multi-asset encoding fits its head.
pub open spec fn assets_parseable(m: AssetsV<u64>) -> bool {
    &&& m.len() <= u64::MAX
    &&& forall|i: int| 0 <= i < m.len() ==> (#[trigger] m[i]).0.len() <= u64::MAX && m[i].1.len()
        <= u64::MAX && forall|j: int| 0 <= j < m[i].1.len() ==> (#[trigger] m[i].1[j]).0.len()
        <= u64::MAX
}

/// The concatenated pair encodings decompose at the front.
proof fn lemma_cat_assets_front(s: Seq<(Seq<u8>, u64)>, n: int)
    requires
        1 <= n <= s.len(),
    ensures
        cat_assets_u64(s, n) == enc_bytes(s[0].0) + enc_uint(s[0].1) + cat_assets_u64(
            s.drop_first(),
            n - 1,
        ),
    decreases n,
{
    if n == 1 {
        assert(cat_assets_u64(s, 0) == Seq::<u8>::empty());
        assert(cat_assets_u64(s.drop_first(), 0) == Seq::<u8>::empty());
        assert(cat_assets_u64(s, 1) =~= enc_bytes(s[0].0) + enc_uint(s[0].1) + cat_assets_u64(
            s.drop_first(),
            0,
        ));
    } else {
        lemma_cat_assets_front(s, n - 1);
        assert(s.drop_first()[n - 2] == s[n - 1]);
        assert(cat_assets_u64(s, n) =~= enc_bytes(s[0].0) + enc_uint(s[0].1) + cat_assets_u64(
            s.drop_first(),
            n - 1,
        ));
    }
}

/// Parsing `n` encoded name/amount pairs gives them back.
proof fn lemma_parse_assets(s: Seq<(Seq<u8>, u64)>, rest: Seq<u8>)
    requires
        forall|j: int| 0 <= j < s.len() ==> (#[trigger] s[j]).0.len() <= u64::MAX,
    ensures
        parse_assets_u64(s.len() as int, cat_assets_u64(s, s.len() as int) + rest) == Some(
            (s, rest),
        ),
    decreases s.len(),
{
    if s.len() == 0 {
        assert(cat_assets_u64(s, 0) + rest =~= rest);
        assert(Seq::<(Seq<u8>, u64)>::empty() =~= s);
    } else {
        lemma_cat_assets_front(s, s.len() as int);
        let tail2 = cat_assets_u64(s.drop_first(), s.len() - 1) + rest;
        let tail1 = enc_uint(s[0].1) + tail2;
        assert(cat_assets_u64(s, s.len() as int) + rest =~= enc_bytes(s[0].0) + tail1);
        lemma_parse_bytes(s[0].0, tail1);
        lemma_parse_head(MAJOR_UINT, s[0].1, tail2);
        assert forall|j: int| 0 <= j < s.drop_first().len() implies (#[trigger] s.drop_first()[
            j
        ]).0.len() <= u64::MAX by {
            assert(s.drop_first()[j] == s[j + 1]);
        }
        lemma_parse_assets(s.drop_first(), rest);
        assert(seq![s[0]] + s.drop_first() =~= s);
        assert(seq![(s[0].0, s[0].1)] + s.drop_first() =~= s);
    }
}

/// The concatenated policy encodings decompose at the front.
proof fn lemma_cat_policies_front(s: AssetsV<u64>, n: int)
    requires
        1 <= n <= s.len(),
    ensures
        cat_policies_u64(s, n) == enc_bytes(s[0].0) + enc_asset_map_u64(s[0].1)
            + cat_policies_u64(s.drop_first(), n - 1),
    decreases n,
{
    if n == 1 {
        assert(cat_policies_u64(s, 0) == Seq::<u8>::empty());
        assert(cat_policies_u64(s.drop_first(), 0) == Seq::<u8>::empty());
        assert(cat_policies_u64(s, 1) =~= enc_bytes(s[0].0) + enc_asset_map_u64(s[0].1)
            + cat_policies_u64(s.drop_first(), 0));
    } else {
        lemma_cat_policies_front(s, n - 1);
        assert(s.drop_first()[n - 2] == s[n - 1]);
        assert(cat_policies_u64(s, n) =~= enc_bytes(s[0].0) + enc_asset_map_u64(s[0].1)
            + cat_policies_u64(s.drop_first(), n - 1));
    }
}

/// Parsing `n` encoded policies gives them back.
#[verifier::rlimit(100)]
proof fn lemma_parse_policies(s: AssetsV<u64>, rest: Seq<u8>)
    requires
        forall|i: int| 0 <= i < s.len() ==> (#[trigger] s[i]).0.len() <= u64::MAX && s[i].1.len()
            <= u64::MAX && forall|j: int| 0 <= j < s[i].1.len() ==> (#[trigger] s[i].1[j]).0.len()
            <= u64::MAX,
    ensures
        parse_policies_u64(s.len() as int, cat_policies_u64(s, s.len() as int) + rest) == Some(
            (s, rest),
        ),
    decreases s.len(),
{
    if s.len() == 0 {
        assert(cat_policies_u64(s, 0) + rest =~= rest);
        assert(Seq::<(Seq<u8>, Seq<(Seq<u8>, u64)>)>::empty() =~= s);
    } else {
        lemma_cat_policies_front(s, s.len() as int);
        let tail2 = cat_policies_u64(s.drop_first(), s.len() - 1) + rest;
        let inner = s[0].1;
        let tail_inner = cat_assets_u64(inner, inner.len() as int) + tail2;
        let tail1 = enc_asset_map_u64(inner) + tail2;
        assert(cat_policies_u64(s, s.len() as int) + rest =~= enc_bytes(s[0].0) + tail1);
        lemma_parse_bytes(s[0].0, tail1);
        assert(tail1 =~= enc_head(MAJOR_MAP, inner.len() as u64) + tail_inner);
        lemma_parse_head(MAJOR_MAP, inner.len() as u64, tail_inner);
        assert(inner == s[0].1);
        assert forall|j: int| 0 <= j < inner.len() implies (#[trigger] inner[j]).0.len()
            <= u64::MAX by {}
        lemma_parse_assets(inner, tail2);
        assert forall|i: int| 0 <= i < s.drop_first().len() implies (#[trigger] s.drop_first()[
            i
        ]).0.len() <= u64::MAX && s.drop_first()[i].1.len() <= u64::MAX && forall|j: int|
            0 <= j < s.drop_first()[i].1.len() ==> (#[trigger] s.drop_first()[i].1[j]).0.len()
            <= u64::MAX by {
            assert(s.drop_first()[i] == s[i + 1]);
        }
        lemma_parse_policies(s.drop_first(), rest);
        assert(seq![s[0]] + s.drop_first() =~= s);
        assert(seq![(s[0].0, s[0].1)] + s.drop_first() =~= s);
    }
}

/// Parsing an encoded multi-asset map gives it back.
proof fn lemma_parse_multiasset(m: AssetsV<u64>, rest: Seq<u8>)
    requires
        assets_parseable(m),
    ensures
        parse_multiasset_u64(enc_multiasset_u64(m) + rest) == Some((m, rest)),
{
    let tail = cat_policies_u64(m, m.len() as int) + rest;
    assert(enc_multiasset_u64(m) + rest =~= enc_head(MAJOR_MAP, m.len() as u64) + tail);
    lemma_parse_head(MAJOR_MAP, m.len() as u64, tail);
    lemma_parse_policies(m, rest);
}

/// Parsing an encoded value gives back the amount and the assets.
proof fn lemma_parse_value(coin: u64, assets: Option<AssetsV<u64>>, rest: Seq<u8>)
    requires
        assets is Some ==> assets_parseable(assets->Some_0),
    ensures
        parse_value(enc_value(coin, assets) + rest) == Some(((coin, assets), rest)),
{
    match assets {
        None => {
            lemma_parse_head(MAJOR_UINT, coin, rest);
        },
        Some(m) => {
            let tail1 = enc_uint(coin) + (enc_multiasset_u64(m) + rest);
            assert(enc_value(coin, assets) + rest =~= enc_head(MAJOR_ARRAY, 2) + tail1);
            let s = enc_head(MAJOR_ARRAY, 2) + tail1;
            assert(s[0] == 0x82);
            assert(parse_uint(s) is None);
            lemma_parse_head(MAJOR_ARRAY, 2, tail1);
            lemma_parse_head(MAJOR_UINT, coin, enc_multiasset_u64(m) + rest);
            lemma_parse_multiasset(m, rest);
        },
    }
}

/// An output without datum and reference script has all its lengths in
/// range for decoding.
pub open spec fn output_parseable(o: OutputV) -> bool {
    &&& o.address.len() <= u64::MAX
    &&& o.datum is None
    &&& o.script_ref is None
    &&& (o.assets is Some ==> assets_parseable(o.assets->Some_0))
}

/// Parsing the encoding of a datum-free output gives it back.
proof fn lemma_parse_output(o: OutputV, rest: Seq<u8>)
    requires
        output_parseable(o),
    ensures
        parse_output(enc_output(o) + rest) == Some((o, rest)),
{
    let tail4 = enc_value(o.coin, o.assets) + rest;
    let tail3 = enc_uint(1) + tail4;
    let tail2 = enc_bytes(o.address) + tail3;
    let tail1 = enc_uint(0) + tail2;
    assert(output_field_count(o) == 2);
    assert(enc_output(o) + rest =~= enc_head(MAJOR_MAP, 2) + tail1);
    lemma_parse_head(MAJOR_MAP, 2, tail1);
    lemma_parse_head(MAJOR_UINT, 0, tail2);
    lemma_parse_bytes(o.address, tail3);
    lemma_parse_head(MAJOR_UINT, 1, tail4);
    lemma_parse_value(o.coin, o.assets, rest);
    assert((OutputV { address: o.address, coin: o.coin, assets: o.assets, datum: None, script_ref: None })
        =~= o);
}

/// The concatenated output encodings decompose at the front.
proof fn lemma_cat_outputs_front(s: Seq<OutputV>, n: int)
    requires
        1 <= n <= s.len(),
    ensures
        cat_outputs(s, n) == enc_output(s[0]) + cat_outputs(s.drop_first(), n - 1),
    decreases n,
{
    if n == 1 {
        assert(cat_outputs(s, 0) == Seq::<u8>::empty());
        assert(cat_outputs(s.drop_first(), 0) == Seq::<u8>::empty());
        assert(cat_outputs(s, 1) =~= enc_output(s[0]) + cat_outputs(s.drop_first(), 0));
    } else {
        lemma_cat_outputs_front(s, n - 1);
        assert(s.drop_first()[n - 2] == s[n - 1]);
        assert(cat_outputs(s, n) =~= enc_output(s[0]) + cat_outputs(s.drop_first(), n - 1));
    }
}

/// Parsing `n` encoded outputs gives them back.
proof fn lemma_parse_outputs(s: Seq<OutputV>, rest: Seq<u8>)
    requires
        forall|j: int| 0 <= j < s.len() ==> output_parseable(#[trigger] s[j]),
    ensures
        parse_outputs(s.len() as int, cat_outputs(s, s.len() as int) + rest) == Some((s, rest)),
    decreases s.len(),
{
    if s.len() == 0 {
        assert(cat_outputs(s, 0) + rest =~= rest);
        assert(Seq::<OutputV>::empty() =~= s);
    } else {
        lemma_cat_outputs_front(s, s.len() as int);
        let tail = cat_outputs(s.drop_first(), s.len() - 1) + rest;
        assert(cat_outputs(s, s.len() as int) + rest =~= enc_output(s[0]) + tail);
        lemma_parse_output(s[0], tail);
        assert forall|j: int| 0 <= j < s.drop_first().len() implies output_parseable(
            #[trigger] s.drop_first()[j],
        ) by {
            assert(s.drop_first()[j] == s[j + 1]);
        }
        lemma_parse_outputs(s.drop_first(), rest);
        assert(seq![s[0]] + s.drop_first() =~= s);
    }
}

/// Parsing an encoded output array gives it back.
proof fn lemma_parse_output_list(s: Seq<OutputV>, rest: Seq<u8>)
    requires
        s.len() <= u64::MAX,
        forall|j: int| 0 <= j < s.len() ==> output_parseable(#[trigger] s[j]),
    ensures
        parse_output_list(enc_output_list(s) + rest) == Some((s, rest)),
{
    let tail = cat_outputs(s, s.len() as int) + rest;
    assert(enc_output_list(s) + rest =~= enc_head(MAJOR_ARRAY, s.len() as u64) + tail);
    lemma_parse_head(MAJOR_ARRAY, s.len() as u64, tail);
    lemma_parse_outputs(s, rest);
}

/// Every length a transaction's leading fields write fits its head, and the
/// outputs carry no datum or reference script.
pub open spec fn tx_summary_parseable(t: TxV) -> bool {
    &&& t.body.inputs.len() <= u64::MAX
    &&& forall|j: int|
        0 <= j < t.body.inputs.len() ==> (#[trigger] t.body.inputs[j]).id.len() <= u64::MAX
    &&& t.body.outputs.len() <= u64::MAX
    &&& forall|j: int| 0 <= j < t.body.outputs.len() ==> output_parseable(
        #[trigger] t.body.outputs[j],
    )
}

/// When the ttl is absent, the bytes after the fee never start with its key:
/// every later field key is larger, and an empty body is followed by the
/// witness map's head.
#[verifier::rlimit(100)]
proof fn lemma_post_fee_no_ttl(b: BodyV, w: crate::tx::WitnessV, tail: Seq<u8>)
    requires
        b.ttl is None,
    ensures
        parse_ttl(
            (if b.certificates.len() > 0 {
                enc_uint(4) + crate::encode::enc_raw_list(b.certificates)
            } else {
                Seq::<u8>::empty()
            }) + (enc_body_mid(b) + (enc_body_back(b) + (enc_witness(w) + tail))),
        ) is None,
{
    let certs_part = if b.certificates.len() > 0 {
        enc_uint(4) + crate::encode::enc_raw_list(b.certificates)
    } else {
        Seq::<u8>::empty()
    };
    let r2 = enc_body_back(b) + (enc_witness(w) + tail);
    let s = certs_part + (enc_body_mid(b) + r2);
    let vp = match b.validity_interval_start {
        Some(t) => enc_uint(8) + enc_uint(t),
        None => Seq::<u8>::empty(),
    };
    let mp = match b.mint {
        Some(m) => enc_uint(9) + crate::encode::enc_multiasset_i64(m),
        None => Seq::<u8>::empty(),
    };
    let sp = match b.script_data_hash {
        Some(h) => enc_uint(11) + enc_bytes(h),
        None => Seq::<u8>::empty(),
    };
    let cp = if b.collateral.len() > 0 {
        enc_uint(13) + enc_input_list(b.collateral)
    } else {
        Seq::<u8>::empty()
    };
    if b.certificates.len() > 0 {
        let x = crate::encode::enc_raw_list(b.certificates) + (enc_body_mid(b) + r2);
        vstd::seq_lib::lemma_concat_associative(
            enc_uint(4),
            crate::encode::enc_raw_list(b.certificates),
            enc_body_mid(b) + r2,
        );
        lemma_parse_head(MAJOR_UINT, 4, x);
    } else {
        assert(s =~= enc_body_mid(b) + r2);
        assert(enc_body_mid(b) == vp + mp + sp + cp);
        vstd::seq_lib::lemma_concat_associative(vp + mp + sp, cp, r2);
        vstd::seq_lib::lemma_concat_associative(vp + mp, sp, cp + r2);
        vstd::seq_lib::lemma_concat_associative(vp, mp, sp + (cp + r2));
        assert(s == vp + (mp + (sp + (cp + r2))));
        lemma_mid_back_no_ttl(b, w, tail, vp, mp, sp, cp, r2, s);
    }
}

/// The case analysis behind `lemma_post_fee_no_ttl`, once the certificate
/// part is out of the way.
#[verifier::rlimit(100)]
proof fn lemma_mid_back_no_ttl(
    b: BodyV,
    w: crate::tx::WitnessV,
    tail: Seq<u8>,
    vp: Seq<u8>,
    mp: Seq<u8>,
    sp: Seq<u8>,
    cp: Seq<u8>,
    r2: Seq<u8>,
    s: Seq<u8>,
)
    requires
        vp == (match b.validity_interval_start {
            Some(t) => enc_uint(8) + enc_uint(t),
            None => Seq::<u8>::empty(),
        }),
        mp == (match b.mint {
            Some(m) => enc_uint(9) + crate::encode::enc_multiasset_i64(m),
            None => Seq::<u8>::empty(),
        }),
        sp == (match b.script_data_hash {
            Some(h) => enc_uint(11) + enc_bytes(h),
            None => Seq::<u8>::empty(),
        }),
        cp == (if b.collateral.len() > 0 {
            enc_uint(13) + enc_input_list(b.collateral)
        } else {
            Seq::<u8>::empty()
        }),
        r2 == enc_body_back(b) + (enc_witness(w) + tail),
        s == vp + (mp + (sp + (cp + r2))),
    ensures
        parse_ttl(s) is None,
{
    if b.validity_interval_start is Some {
        let x = enc_uint(b.validity_interval_start->Some_0) + (mp + (sp + (cp + r2)));
        vstd::seq_lib::lemma_concat_associative(
            enc_uint(8),
            enc_uint(b.validity_interval_start->Some_0),
            mp + (sp + (cp + r2)),
        );
        lemma_parse_head(MAJOR_UINT, 8, x);
    } else if b.mint is Some {
        assert(s =~= mp + (sp + (cp + r2)));
        let x = crate::encode::enc_multiasset_i64(b.mint->Some_0) + (sp + (cp + r2));
        vstd::seq_lib::lemma_concat_associative(
            enc_uint(9),
            crate::encode::enc_multiasset_i64(b.mint->Some_0),
            sp + (cp + r2),
        );
        lemma_parse_head(MAJOR_UINT, 9, x);
    } else if b.script_data_hash is Some {
        assert(s =~= sp + (cp + r2));
        let x = enc_bytes(b.script_data_hash->Some_0) + (cp + r2);
        vstd::seq_lib::lemma_concat_associative(
            enc_uint(11),
            enc_bytes(b.script_data_hash->Some_0),
            cp + r2,
        );
        lemma_parse_head(MAJOR_UINT, 11, x);
    } else if b.collateral.len() > 0 {
        assert(s =~= cp + r2);
        let x = enc_input_list(b.collateral) + r2;
        vstd::seq_lib::lemma_concat_associative(enc_uint(13), enc_input_list(b.collateral), r2);
        lemma_parse_head(MAJOR_UINT, 13, x);
    } else {
        assert(s =~= r2);
        lemma_back_no_ttl(b, w, tail, s);
    }
}

/// The case analysis behind `lemma_post_fee_no_ttl`, for the body's last
/// fields and the witness head.
#[verifier::rlimit(100)]
proof fn lemma_back_no_ttl(b: BodyV, w: crate::tx::WitnessV, tail: Seq<u8>, s: Seq<u8>)
    requires
        s == enc_body_back(b) + (enc_witness(w) + tail),
    ensures
        parse_ttl(s) is None,
{
    let wt = enc_witness(w) + tail;
    let gp = if b.required_signers.len() > 0 {
        enc_uint(14) + crate::encode::enc_bytes_list(b.required_signers)
    } else {
        Seq::<u8>::empty()
    };
    let np = match b.network_id {
        Some(n) => enc_uint(15) + enc_uint(n as u64),
        None => Seq::<u8>::empty(),
    };
    let op = match b.collateral_return {
        Some(o) => enc_uint(16) + enc_output(o),
        None => Seq::<u8>::empty(),
    };
    let rp = if b.reference_inputs.len() > 0 {
        enc_uint(18) + enc_input_list(b.reference_inputs)
    } else {
        Seq::<u8>::empty()
    };
    assert(enc_body_back(b) == gp + np + op + rp);
    vstd::seq_lib::lemma_concat_associative(gp + np + op, rp, wt);
    vstd::seq_lib::lemma_concat_associative(gp + np, op, rp + wt);
    vstd::seq_lib::lemma_concat_associative(gp, np, op + (rp + wt));
    assert(s == gp + (np + (op + (rp + wt))));
    if b.required_signers.len() > 0 {
        let x = crate::encode::enc_bytes_list(b.required_signers) + (np + (op + (rp + wt)));
        vstd::seq_lib::lemma_concat_associative(
            enc_uint(14),
            crate::encode::enc_bytes_list(b.required_signers),
            np + (op + (rp + wt)),
        );
        lemma_parse_head(MAJOR_UINT, 14, x);
    } else if b.network_id is Some {
        assert(s =~= np + (op + (rp + wt)));
        let x = enc_uint(b.network_id->Some_0 as u64) + (op + (rp + wt));
        vstd::seq_lib::lemma_concat_associative(
            enc_uint(15),
            enc_uint(b.network_id->Some_0 as u64),
            op + (rp + wt),
        );
        lemma_parse_head(MAJOR_UINT, 15, x);
    } else if b.collateral_return is Some {
        assert(s =~= op + (rp + wt));
        let x = enc_output(b.collateral_return->Some_0) + (rp + wt);
        vstd::seq_lib::lemma_concat_associative(
            enc_uint(16),
            enc_output(b.collateral_return->Some_0),
            rp + wt,
        );
        lemma_parse_head(MAJOR_UINT, 16, x);
    } else if b.reference_inputs.len() > 0 {
        assert(s =~= rp + wt);
        let x = enc_input_list(b.reference_inputs) + wt;
        vstd::seq_lib::lemma_concat_associative(
            enc_uint(18),
            enc_input_list(b.reference_inputs),
            wt,
        );
        lemma_parse_head(MAJOR_UINT, 18, x);
    } else {
        assert(s =~= wt);
        assert(witness_field_count(w) < 24);
        let h = enc_head(MAJOR_MAP, witness_field_count(w));
        assert(h == seq![(0xa0 + witness_field_count(w)) as u8]);
        assert(s[0] == enc_witness(w)[0]);
        assert(enc_witness(w)[0] == h[0]);
        assert(s[0] >= 0xa0);
        assert(parse_uint(s) is None);
    }
}

/// The encoding of a transaction unfolds into its array head, body, witness
/// set, validity flag and auxiliary data.
#[verifier::rlimit(100)]
proof fn lemma_tx_decompose(t: TxV, na: u64, wt: Seq<u8>, aux_part: Seq<u8>)
    requires
        na == (if t.auxiliary_data is Some { 4u64 } else { 3u64 }),
        aux_part == (match t.auxiliary_data {
            Some(a) => a,
            None => Seq::<u8>::empty(),
        }),
        wt == enc_witness(t.witness_set) + (crate::cbor::enc_bool(t.is_valid) + aux_part),
    ensures
        enc_tx(t) == enc_head(MAJOR_ARRAY, na) + (enc_body(t.body) + wt),
{
    let h = enc_head(MAJOR_ARRAY, na);
    let bo = enc_body(t.body);
    let wi = enc_witness(t.witness_set);
    let va = crate::cbor::enc_bool(t.is_valid);
    match t.auxiliary_data {
        None => {
            assert(enc_tx(t) == h + bo + wi + va);
            vstd::seq_lib::lemma_concat_associative(h + bo, wi, va);
            vstd::seq_lib::lemma_concat_associative(h, bo, wi + va);
            assert(wi + va =~= wt);
        },
        Some(a) => {
            assert(enc_tx(t) == h + bo + wi + va + a);
            vstd::seq_lib::lemma_concat_associative(h + bo + wi, va, a);
            vstd::seq_lib::lemma_concat_associative(h + bo, wi, va + a);
            vstd::seq_lib::lemma_concat_associative(h, bo, wi + (va + a));
            assert(wi + (va + a) =~= wt);
        },
    }
}

/// The encoding of a body, followed by anything, unfolds into the chain of
/// its fields.
#[verifier::rlimit(100)]
proof fn lemma_body_decompose(b: BodyV, tail: Seq<u8>)
    ensures
        enc_body(b) + tail == enc_head(MAJOR_MAP, body_field_count(b)) + (enc_uint(0) + (
        enc_input_list(b.inputs) + (enc_uint(1) + (enc_output_list(b.outputs) + (enc_uint(2) + (
        enc_uint(b.fee) + ((match b.ttl {
            Some(tt) => enc_uint(3) + enc_uint(tt),
            None => Seq::<u8>::empty(),
        }) + ((if b.certificates.len() > 0 {
            enc_uint(4) + crate::encode::enc_raw_list(b.certificates)
        } else {
            Seq::<u8>::empty()
        }) + (enc_body_mid(b) + (enc_body_back(b) + tail)))))))))),
{
    let h = enc_head(MAJOR_MAP, body_field_count(b));
    let k0 = enc_uint(0);
    let il = enc_input_list(b.inputs);
    let k1 = enc_uint(1);
    let ol = enc_output_list(b.outputs);
    let k2 = enc_uint(2);
    let f = enc_uint(b.fee);
    let tp = match b.ttl {
        Some(tt) => enc_uint(3) + enc_uint(tt),
        None => Seq::<u8>::empty(),
    };
    let cp = if b.certificates.len() > 0 {
        enc_uint(4) + crate::encode::enc_raw_list(b.certificates)
    } else {
        Seq::<u8>::empty()
    };
    let mid = enc_body_mid(b);
    let back = enc_body_back(b);
    assert(enc_body_front(b) == h + k0 + il + k1 + ol + k2 + f + tp + cp);
    assert(enc_body(b) == enc_body_front(b) + mid + back);
    vstd::seq_lib::lemma_concat_associative(enc_body_front(b) + mid, back, tail);
    vstd::seq_lib::lemma_concat_associative(enc_body_front(b), mid, back + tail);
    let r0 = mid + (back + tail);
    vstd::seq_lib::lemma_concat_associative(h + k0 + il + k1 + ol + k2 + f + tp, cp, r0);
    let r1 = cp + r0;
    vstd::seq_lib::lemma_concat_associative(h + k0 + il + k1 + ol + k2 + f, tp, r1);
    let r2 = tp + r1;
    vstd::seq_lib::lemma_concat_associative(h + k0 + il + k1 + ol + k2, f, r2);
    let r3 = f + r2;
    vstd::seq_lib::lemma_concat_associative(h + k0 + il + k1 + ol, k2, r3);
    let r4 = k2 + r3;
    vstd::seq_lib::lemma_concat_associative(h + k0 + il + k1, ol, r4);
    let r5 = ol + r4;
    vstd::seq_lib::lemma_concat_associative(h + k0 + il, k1, r5);
    let r6 = k1 + r5;
    vstd::seq_lib::lemma_concat_associative(h + k0, il, r6);
    let r7 = il + r6;
    vstd::seq_lib::lemma_concat_associative(h, k0, r7);
}

/// Decoding the canonical encoded bytes of a transaction reproduces the
/// inputs, outputs, fee and ttl values it was built with.
#[verifier::rlimit(100)]
pub proof fn lemma_tx_summary_round_trip(t: TxV)
    requires
        tx_summary_parseable(t),
    ensures
        parse_tx_summary(enc_tx(t)) == Some(
            (t.body.inputs, t.body.outputs, t.body.fee, t.body.ttl),
        ),
{
    let b = t.body;
    let aux_part = match t.auxiliary_data {
        Some(a) => a,
        None => Seq::<u8>::empty(),
    };
    let na: u64 = if t.auxiliary_data is Some {
        4
    } else {
        3
    };
    let wtail = crate::cbor::enc_bool(t.is_valid) + aux_part;
    let certs_part = if b.certificates.len() > 0 {
        enc_uint(4) + crate::encode::enc_raw_list(b.certificates)
    } else {
        Seq::<u8>::empty()
    };
    let ttl_part = match b.ttl {
        Some(tt) => enc_uint(3) + enc_uint(tt),
        None => Seq::<u8>::empty(),
    };
    let post_fee = ttl_part + (certs_part + (enc_body_mid(b) + (enc_body_back(b) + (enc_witness(
        t.witness_set,
    ) + wtail))));
    let x7 = enc_uint(b.fee) + post_fee;
    let x6 = enc_uint(2) + x7;
    let x5 = enc_output_list(b.outputs) + x6;
    let x4 = enc_uint(1) + x5;
    let x3 = enc_input_list(b.inputs) + x4;
    let x2 = enc_uint(0) + x3;
    let x1 = enc_head(MAJOR_MAP, body_field_count(b)) + x2;
    let wt = enc_witness(t.witness_set) + wtail;
    lemma_tx_decompose(t, na, wt, aux_part);
    lemma_body_decompose(b, wt);
    assert(enc_body(b) + wt == x1);
    assert(enc_tx(t) == enc_head(MAJOR_ARRAY, na) + x1);
    lemma_parse_head(MAJOR_ARRAY, na, x1);
    lemma_parse_head(MAJOR_MAP, body_field_count(b), x2);
    lemma_parse_head(MAJOR_UINT, 0, x3);
    lemma_parse_input_list(b.inputs, x4);
    lemma_parse_head(MAJOR_UINT, 1, x5);
    lemma_parse_output_list(b.outputs, x6);
    lemma_parse_head(MAJOR_UINT, 2, x7);
    lemma_parse_head(MAJOR_UINT, b.fee, post_fee);
    lemma_parse_post_fee(b, t.witness_set, wtail, post_fee);
}

/// The bytes after the fee parse to the ttl exactly when the body has one.
#[verifier::rlimit(100)]
proof fn lemma_parse_post_fee(b: BodyV, w: crate::tx::WitnessV, wtail: Seq<u8>, post_fee: Seq<u8>)
    requires
        post_fee == (match b.ttl {
            Some(tt) => enc_uint(3) + enc_uint(tt),
            None => Seq::<u8>::empty(),
        }) + ((if b.certificates.len() > 0 {
            enc_uint(4) + crate::encode::enc_raw_list(b.certificates)
        } else {
            Seq::<u8>::empty()
        }) + (enc_body_mid(b) + (enc_body_back(b) + (enc_witness(w) + wtail)))),
    ensures
        parse_ttl(post_fee) == b.ttl,
{
    let certs_part = if b.certificates.len() > 0 {
        enc_uint(4) + crate::encode::enc_raw_list(b.certificates)
    } else {
        Seq::<u8>::empty()
    };
    let rest = certs_part + (enc_body_mid(b) + (enc_body_back(b) + (enc_witness(w) + wtail)));
    match b.ttl {
        Some(tt) => {
            vstd::seq_lib::lemma_concat_associative(enc_uint(3), enc_uint(tt), rest);
            assert(post_fee == enc_uint(3) + (enc_uint(tt) + rest));
            lemma_parse_head(MAJOR_UINT, 3, enc_uint(tt) + rest);
            lemma_parse_head(MAJOR_UINT, tt, rest);
            assert(parse_ttl(post_fee) == Some(tt));
        },
        None => {
            assert(post_fee =~= rest);
            lemma_post_fee_no_ttl(b, w, wtail);
            assert(parse_ttl(post_fee) is None);
        },
    }
}

} // verus!
