//! Each validation error, produced by an input that triggers it.

use txbuilder::{AssetError, ExUnits, MultiAsset, NetworkParams, RedeemerPurpose,
    TransactionBuilder, TransactionInput, TransactionOutput, ValidationError};

#[test]
fn build_without_inputs_fails() {
    let output = TransactionOutput::lovelaces(vec![], 1000000);
    let r = TransactionBuilder::new(NetworkParams::mainnet()).output(output).build();
    assert_eq!(r.err(), Some(ValidationError::NoInputs));
}

#[test]
fn multiasset_collateral_input_fails() {
    let input = TransactionInput::new([0; 32], 0);
    let resolved = TransactionOutput::lovelaces(vec![], 1000000);
    let assets = MultiAsset::<u64>::new().add([0; 28], b"MyAsset", 5).expect("add failed");
    let collateral_resolved = TransactionOutput::multiasset(vec![], 1000000, assets);
    let r = TransactionBuilder::new(NetworkParams::mainnet())
        .input(input, Some(resolved))
        .collateral(TransactionInput::new([1; 32], 0), Some(collateral_resolved))
        .output(TransactionOutput::lovelaces(vec![], 1000000))
        .build();
    assert_eq!(r.err(), Some(ValidationError::InvalidCollateralInput));
}

#[test]
fn unresolved_collateral_input_passes() {
    let input = TransactionInput::new([0; 32], 0);
    let resolved = TransactionOutput::lovelaces(vec![], 1000000);
    let r = TransactionBuilder::new(NetworkParams::mainnet())
        .input(input, Some(resolved))
        .collateral(TransactionInput::new([1; 32], 0), None)
        .output(TransactionOutput::lovelaces(vec![], 1000000))
        .build();
    assert!(r.is_ok());
}

#[test]
fn multiasset_collateral_return_fails() {
    let input = TransactionInput::new([0; 32], 0);
    let resolved = TransactionOutput::lovelaces(vec![], 1000000);
    let assets = MultiAsset::<u64>::new().add([0; 28], b"MyAsset", 5).expect("add failed");
    let ret = TransactionOutput::multiasset(vec![], 1000000, assets);
    let r = TransactionBuilder::new(NetworkParams::mainnet())
        .input(input, Some(resolved))
        .collateral_return(ret)
        .output(TransactionOutput::lovelaces(vec![], 1000000))
        .build();
    assert_eq!(r.err(), Some(ValidationError::InvalidCollateralReturn));
}

#[test]
fn timestamp_before_system_start_fails() {
    let input = TransactionInput::new([0; 32], 0);
    let resolved = TransactionOutput::lovelaces(vec![], 1000000);
    let r = TransactionBuilder::new(NetworkParams::mainnet())
        .input(input, Some(resolved))
        .invalid_from(1000);
    assert!(matches!(r, Err(ValidationError::InvalidTimestamp)));
}

#[test]
fn spend_redeemer_for_missing_input_fails() {
    let input = TransactionInput::new([0; 32], 0);
    let resolved = TransactionOutput::lovelaces(vec![], 1000000);
    let absent = TransactionInput::new([9; 32], 3);
    let r = TransactionBuilder::new(NetworkParams::mainnet())
        .input(input, Some(resolved))
        .output(TransactionOutput::lovelaces(vec![], 1000000))
        .redeemer(
            RedeemerPurpose::Spend(absent),
            vec![0x40],
            ExUnits { mem: 1, steps: 1 },
        )
        .build();
    assert_eq!(
        r.err(),
        Some(ValidationError::RedeemerPurposeMissing(RedeemerPurpose::Spend(absent)))
    );
}

#[test]
fn mint_redeemer_for_missing_policy_fails() {
    let input = TransactionInput::new([0; 32], 0);
    let resolved = TransactionOutput::lovelaces(vec![], 1000000);
    let r = TransactionBuilder::new(NetworkParams::mainnet())
        .input(input, Some(resolved))
        .output(TransactionOutput::lovelaces(vec![], 1000000))
        .redeemer(
            RedeemerPurpose::Mint([7; 28]),
            vec![0x40],
            ExUnits { mem: 1, steps: 1 },
        )
        .build();
    assert_eq!(
        r.err(),
        Some(ValidationError::RedeemerPurposeMissing(RedeemerPurpose::Mint([7; 28])))
    );
}

#[test]
fn cert_redeemer_is_unsupported() {
    let input = TransactionInput::new([0; 32], 0);
    let resolved = TransactionOutput::lovelaces(vec![], 1000000);
    let r = TransactionBuilder::new(NetworkParams::mainnet())
        .input(input, Some(resolved))
        .output(TransactionOutput::lovelaces(vec![], 1000000))
        .redeemer(
            RedeemerPurpose::Cert(vec![1, 2, 3]),
            vec![0x40],
            ExUnits { mem: 1, steps: 1 },
        )
        .build();
    assert_eq!(
        r.err(),
        Some(ValidationError::RedeemerPurposeMissing(RedeemerPurpose::Cert(vec![1, 2, 3])))
    );
}

#[test]
fn asset_name_over_limit_fails() {
    let long_name = [0x41u8; 33];
    let r = MultiAsset::<u64>::new().add([0; 28], &long_name, 1);
    assert_eq!(r.err(), Some(AssetError::InvalidAssetName));
}

#[test]
fn asset_name_at_limit_passes() {
    let name = [0x41u8; 32];
    let r = MultiAsset::<u64>::new().add([0; 28], &name, 1);
    assert!(r.is_ok());
}
