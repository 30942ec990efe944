//! Canonical ordering and redeemer resolution, checked on concrete values.

use txbuilder::{ExUnits, MultiAsset, NetworkParams, RedeemerPurpose, RedeemerTag,
    TransactionBuilder, TransactionInput, TransactionOutput};

#[test]
fn inputs_are_emitted_sorted() {
    let a = TransactionInput::new([2; 32], 0);
    let b = TransactionInput::new([1; 32], 7);
    let c = TransactionInput::new([1; 32], 3);
    let resolved = || Some(TransactionOutput::lovelaces(vec![], 1000000));
    let tx = TransactionBuilder::new(NetworkParams::mainnet())
        .input(a, resolved())
        .input(b, resolved())
        .input(c, resolved())
        .output(TransactionOutput::lovelaces(vec![], 1000000))
        .build()
        .expect("build failed");
    assert_eq!(tx.body.inputs, vec![c, b, a]);
}

#[test]
fn inserting_an_input_twice_keeps_one_entry() {
    let a = TransactionInput::new([5; 32], 1);
    let tx = TransactionBuilder::new(NetworkParams::mainnet())
        .input(a, None)
        .input(a, Some(TransactionOutput::lovelaces(vec![], 42)))
        .output(TransactionOutput::lovelaces(vec![], 1000000))
        .build()
        .expect("build failed");
    assert_eq!(tx.body.inputs, vec![a]);
}

#[test]
fn spend_redeemer_resolves_to_sorted_position() {
    let first = TransactionInput::new([1; 32], 0);
    let second = TransactionInput::new([2; 32], 0);
    let resolved = || Some(TransactionOutput::lovelaces(vec![], 1000000));
    // configured out of order: the redeemer targets the input that sorts last
    let tx = TransactionBuilder::new(NetworkParams::mainnet())
        .input(second, resolved())
        .input(first, resolved())
        .output(TransactionOutput::lovelaces(vec![], 1000000))
        .redeemer(
            RedeemerPurpose::Spend(second),
            vec![0x40],
            ExUnits { mem: 9, steps: 11 },
        )
        .build()
        .expect("build failed");
    let reds = &tx.witness_set.redeemer;
    assert_eq!(reds.len(), 1);
    assert_eq!(reds[0].tag, RedeemerTag::Spend);
    assert_eq!(reds[0].index, 1);
    assert_eq!(reds[0].ex_units, ExUnits { mem: 9, steps: 11 });
}

#[test]
fn mint_redeemer_resolves_to_policy_position() {
    let input = TransactionInput::new([0; 32], 0);
    let assets = MultiAsset::<i64>::new()
        .add([9; 28], b"B", 1)
        .expect("add failed")
        .add([1; 28], b"A", 2)
        .expect("add failed");
    let tx = TransactionBuilder::new(NetworkParams::mainnet())
        .input(input, Some(TransactionOutput::lovelaces(vec![], 1000000)))
        .output(TransactionOutput::lovelaces(vec![], 1000000))
        .mint(assets)
        .redeemer(
            RedeemerPurpose::Mint([9; 28]),
            vec![0x40],
            ExUnits { mem: 1, steps: 2 },
        )
        .build()
        .expect("build failed");
    // the mint's policies are canonically sorted, so [1; 28] comes first and
    // the redeemer for [9; 28] resolves to position 1
    let mint = tx.body.mint.as_ref().expect("mint absent");
    assert_eq!(mint.len(), 2);
    assert_eq!(mint[0].0, [1; 28]);
    assert_eq!(mint[1].0, [9; 28]);
    let reds = &tx.witness_set.redeemer;
    assert_eq!(reds.len(), 1);
    assert_eq!(reds[0].tag, RedeemerTag::Mint);
    assert_eq!(reds[0].index, 1);
}

#[test]
fn asset_names_sort_by_length_then_bytes() {
    let input = TransactionInput::new([0; 32], 0);
    let assets = MultiAsset::<i64>::new()
        .add([0; 28], b"ZZ", 1)
        .expect("add failed")
        .add([0; 28], b"AAA", 2)
        .expect("add failed")
        .add([0; 28], b"AB", 3)
        .expect("add failed");
    let tx = TransactionBuilder::new(NetworkParams::mainnet())
        .input(input, Some(TransactionOutput::lovelaces(vec![], 1000000)))
        .output(TransactionOutput::lovelaces(vec![], 1000000))
        .mint(assets)
        .build()
        .expect("build failed");
    let mint = tx.body.mint.as_ref().expect("mint absent");
    assert_eq!(mint.len(), 1);
    let names: Vec<&[u8]> = mint[0].1.iter().map(|p| p.0.as_slice()).collect();
    assert_eq!(names, vec![b"AB".as_slice(), b"ZZ".as_slice(), b"AAA".as_slice()]);
}

#[test]
fn adding_same_asset_twice_overwrites_amount() {
    let assets = MultiAsset::<i64>::new()
        .add([0; 28], b"A", 1)
        .expect("add failed")
        .add([0; 28], b"A", 5)
        .expect("add failed");
    let input = TransactionInput::new([0; 32], 0);
    let tx = TransactionBuilder::new(NetworkParams::mainnet())
        .input(input, Some(TransactionOutput::lovelaces(vec![], 1000000)))
        .output(TransactionOutput::lovelaces(vec![], 1000000))
        .mint(assets)
        .build()
        .expect("build failed");
    let mint = tx.body.mint.as_ref().expect("mint absent");
    assert_eq!(mint.len(), 1);
    assert_eq!(mint[0].1.len(), 1);
    assert_eq!(mint[0].1[0].1, 5);
}

#[test]
fn explicit_fee_is_used_verbatim() {
    let input = TransactionInput::new([0; 32], 0);
    let tx = TransactionBuilder::new(NetworkParams::mainnet())
        .input(input, Some(TransactionOutput::lovelaces(vec![], 1000000)))
        .output(TransactionOutput::lovelaces(vec![], 1000000))
        .fee(777)
        .build()
        .expect("build failed");
    assert_eq!(tx.body.fee, 777);
}

#[test]
fn computed_fee_is_linear_in_zero_fee_size() {
    // the zero-fee encoding of the simplest transaction is 55 bytes, and the
    // mainnet policy prices a byte at 87.892 thousandths over a 155381 base
    let input = TransactionInput::new([0; 32], 0);
    let tx = TransactionBuilder::new(NetworkParams::mainnet())
        .input(input, Some(TransactionOutput::lovelaces(vec![], 1000000)))
        .output(TransactionOutput::lovelaces(vec![], 1000000))
        .build()
        .expect("build failed");
    assert_eq!(tx.body.fee, 155381 + (55 * 87892 + 999) / 1000);
    assert_eq!(tx.body.fee, 160216);
}

#[test]
fn mainnet_timestamp_conversion() {
    let p = NetworkParams::mainnet();
    assert_eq!(p.timestamp_to_slot(1618430000), Some(22370909));
    assert_eq!(p.timestamp_to_slot(1596059091), Some(0));
    assert_eq!(p.timestamp_to_slot(1596059090), None);
}

#[test]
fn withdrawals_are_stored_but_not_emitted() {
    let input = TransactionInput::new([0; 32], 0);
    let plain = TransactionBuilder::new(NetworkParams::mainnet())
        .input(input, Some(TransactionOutput::lovelaces(vec![], 1000000)))
        .output(TransactionOutput::lovelaces(vec![], 1000000))
        .build_hex()
        .expect("build failed");
    let with_withdrawal = TransactionBuilder::new(NetworkParams::mainnet())
        .input(input, Some(TransactionOutput::lovelaces(vec![], 1000000)))
        .output(TransactionOutput::lovelaces(vec![], 1000000))
        .withdrawal(vec![1, 2, 3], 500)
        .build_hex()
        .expect("build failed");
    assert_eq!(plain, with_withdrawal);
}

#[test]
fn from_map_keeps_the_given_mapping() {
    let assets = MultiAsset::<u64>::from_map(vec![(
        [0; 28],
        vec![(b"MyAsset".to_vec(), 1000000)],
    )]);
    let direct = MultiAsset::<u64>::new()
        .add([0; 28], b"MyAsset", 1000000)
        .expect("add failed");
    let a = TransactionOutput::multiasset(vec![], 1, assets);
    let b = TransactionOutput::multiasset(vec![], 1, direct);
    assert_eq!(a, b);
}
