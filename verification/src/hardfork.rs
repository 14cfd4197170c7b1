//! Chain-level constants for the public test network.

use vstd::prelude::*;

verus! {

/// The chain specification's name.
pub const CHAIN_SPEC_NAME: &'static str = "ckb_testnet";

/// First epoch of the 2021 consensus edition on the test network; not yet
/// scheduled.
pub const CKB2021_START_EPOCH: u64 = u64::MAX;

} // verus!
