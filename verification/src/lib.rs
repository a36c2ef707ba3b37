//! Settlement core of a two-party conditional asset swap held in custody.
//!
//! A maker has locked an amount of asset X in a custody vault controlled only
//! by a deterministically derived authority; a taker completes the trade by
//! paying the agreed amount of asset Y to the maker and withdrawing the full
//! locked amount of X, in one all-or-nothing operation that also closes the
//! escrow record.

pub mod addr;
pub mod authority;
pub mod errors;
pub mod settle;
pub mod state;
pub mod validate;
