//! Network parameters: identity, slot timing and the linear fee policy.
//!
//! Timestamps convert to slots against the network's start time and slot
//! length.  The fee policy is linear in the encoded size: a constant plus a
//! per-byte price, the price carried in thousandths of a currency unit and
//! the product rounded up.

use vstd::prelude::*;

verus! {

/// The parameters of the target network.
#[derive(Clone, Copy, Debug, PartialEq, Eq, Structural)]
pub struct NetworkParams {
    /// The network's identity: the wire values 0 and 1 are written into the
    /// body's network-id field; any other value (such as a protocol magic)
    /// leaves that field absent.
    pub network_id: u64,
    /// The time of slot zero, in seconds.
    pub system_start: u64,
    /// Seconds per slot.
    pub slot_length: u64,
    /// The constant part of the fee, in currency units.
    pub min_fee_constant: u64,
    /// The per-byte part of the fee, in thousandths of a currency unit.
    pub min_fee_per_byte_milli: u64,
}

/// The slot of a timestamp: defined from the system start on, in whole
/// slots; undefined before the start or without a slot length.
pub open spec fn spec_timestamp_to_slot(p: NetworkParams, t: u64) -> Option<u64> {
    if p.slot_length > 0 && t >= p.system_start {
        Some((((t - p.system_start) as u64) / p.slot_length) as u64)
    } else {
        None
    }
}

/// The network-id field the body carries: only the two defined wire values.
pub open spec fn spec_wire_network_id(p: NetworkParams) -> Option<u8> {
    if p.network_id == 0 {
        Some(0u8)
    } else if p.network_id == 1 {
        Some(1u8)
    } else {
        None
    }
}

/// The linear fee of an encoding of `n` bytes: the constant plus the per-byte
/// price times `n`, rounded up to a whole currency unit, saturating at the
/// largest representable fee.
pub open spec fn spec_linear_fee(p: NetworkParams, n: nat) -> u64 {
    let raw = p.min_fee_constant + (n * p.min_fee_per_byte_milli + 999) / 1000;
    if raw > u64::MAX {
        u64::MAX
    } else {
        raw as u64
    }
}

impl NetworkParams {
    /// The parameters of the main network.
    pub fn mainnet() -> (r: NetworkParams)
        ensures
            r == (NetworkParams {
                network_id: 764824073,
                system_start: 1596059091,
                slot_length: 1,
                min_fee_constant: 155381,
                min_fee_per_byte_milli: 87892,
            }),
    {
        NetworkParams {
            network_id: 764824073,
            system_start: 1596059091,
            slot_length: 1,
            min_fee_constant: 155381,
            min_fee_per_byte_milli: 87892,
        }
    }

    /// The network's identity value.
    pub fn network_id(&self) -> (r: u64)
        ensures
            r == self.network_id,
    {
        self.network_id
    }

    /// The slot a timestamp falls in, if it lies in the network's range.
    pub fn timestamp_to_slot(&self, timestamp: u64) -> (r: Option<u64>)
        ensures
            r == spec_timestamp_to_slot(*self, timestamp),
    {
        if self.slot_length > 0 && timestamp >= self.system_start {
            Some((timestamp - self.system_start) / self.slot_length)
        } else {
            None
        }
    }

    /// The network-id field value the body carries, if any.
    pub fn wire_network_id(&self) -> (r: Option<u8>)
        ensures
            r == spec_wire_network_id(*self),
    {
        if self.network_id == 0 {
            Some(0)
        } else if self.network_id == 1 {
            Some(1)
        } else {
            None
        }
    }

    /// The linear fee of an encoding of `n_bytes` bytes.
    pub fn linear_fee(&self, n_bytes: usize) -> (r: u64)
        ensures
            r == spec_linear_fee(*self, n_bytes as nat),
    {
        let a: u128 = n_bytes as u128;
        let b: u128 = self.min_fee_per_byte_milli as u128;
        proof {
            assert(a * b <= 0xffff_ffff_ffff_ffff * 0xffff_ffff_ffff_ffff) by (nonlinear_arith)
                requires
                    a <= 0xffff_ffff_ffff_ffff,
                    b <= 0xffff_ffff_ffff_ffff,
            ;
        }
        let prod: u128 = a * b;
        let q: u128 = (prod + 999) / 1000;
        let raw: u128 = (self.min_fee_constant as u128) + q;
        if raw > u64::MAX as u128 {
            u64::MAX
        } else {
            raw as u64
        }
    }
}

} // verus!
