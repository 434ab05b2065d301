//! Argo core: pure, deterministic lending math (fixed-point scales, widening
//! multiply/divide with explicit rounding, virtual-share conversions and the
//! interest-rate-model constants), together with the program-level decisions
//! of the lending program and of the vault probe program, stated over plain
//! values.
use vstd::prelude::*;

pub mod math;
pub mod shares;
pub mod irm;
pub mod seeds;
pub mod program_id;
pub mod guests;
pub mod runtime;
pub mod lending;
pub mod vault;

verus! {

/// Fixed-point scale for rates, LLTV, and fee fractions.
pub const WAD: u128 = 1_000_000_000_000_000_000;

/// Virtual shares added to every share/asset conversion (inflation resistance).
pub const VIRTUAL_SHARES: u128 = 1_000_000;

/// Virtual assets added to every share/asset conversion.
pub const VIRTUAL_ASSETS: u128 = 1;

/// Oracle price scale: price of one collateral unit in loan units, times 1e36.
pub const ORACLE_PRICE_SCALE: u128 = 1_000_000_000_000_000_000_000_000_000_000_000_000;

/// Maximum protocol fee fraction of accrued interest (25%).
pub const MAX_FEE: u128 = WAD / 4;

/// Liquidation incentive cursor (beta = 0.3).
pub const LIQUIDATION_CURSOR: u128 = 300_000_000_000_000_000;

/// Maximum liquidation incentive factor (1.15).
pub const MAX_LIQUIDATION_INCENTIVE_FACTOR: u128 = 1_150_000_000_000_000_000;

} // verus!
