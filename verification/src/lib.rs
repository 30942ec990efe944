//! A verified builder for Babbage-era ledger transactions.
//!
//! Callers declare transaction components — inputs, outputs, minted assets,
//! scripts, redeemers, a validity window — through an ownership-consuming
//! builder, and `build` assembles them into an immutable transaction: it
//! validates the configuration, sorts the inputs into their canonical order,
//! resolves redeemer purposes to indices into the canonical orders, computes
//! the fee from the encoded size, and emits a value whose canonical binary
//! encoding is pinned down, byte for byte, by the contracts.

use vstd::prelude::*;

pub mod assoc;
pub mod asset;
pub mod builder;
pub mod bytes;
pub mod cbor;
pub mod decode;
pub mod laws;
pub mod encode;
pub mod params;
pub mod sort;
pub mod tx;

pub use builder::TransactionBuilder;
pub use params::NetworkParams;
pub use asset::{AssetError, MultiAsset};
pub use tx::{AddrKeyhash, Assets, ExUnits, PolicyId, Redeemer, RedeemerPurpose, RedeemerTag,
    Transaction, TransactionBody, TransactionInput, TransactionOutput, WitnessSet};

verus! {

use crate::tx::RedeemerPurpose as Purpose;

/// An error from validating a builder configuration.
#[derive(Debug, Clone, PartialEq, Eq)]
pub enum ValidationError {
    /// No input was configured.
    NoInputs,
    /// A collateral input's resolved output carries a multi-asset value.
    InvalidCollateralInput,
    /// The collateral-return output carries a multi-asset value.
    InvalidCollateralReturn,
    /// A timestamp lies outside the network's slot range.
    InvalidTimestamp,
    /// The purpose points at no input or mint policy of the transaction, or
    /// is of an unsupported kind.
    RedeemerPurposeMissing(Purpose),
}

/// Errors of the wider builder surface.  They are raised by adjacent
/// collaborators — script and datum decoding, key handling, transaction
/// re-decoding — that hand values to this library.
#[derive(Debug, Clone, PartialEq, Eq)]
pub enum TxBuilderError {
    /// Provided bytes could not be decoded into a script.
    MalformedScript,
    /// Provided bytes could not be decoded into a datum.
    MalformedDatum,
    /// Provided datum hash was not 32 bytes in length.
    MalformedDatumHash,
    /// Input or policy pointed to by a redeemer was not found in the
    /// transaction.
    RedeemerTargetMissing,
    /// Provided network identifier is invalid.
    InvalidNetworkId,
    /// Transaction bytes in a built transaction could not be decoded.
    CorruptedTxBytes,
    /// Public key generated from a private key was of unexpected length.
    MalformedPrivateKey,
}

} // verus!
