//! Constant-product market maker for a single token pair with a flat fee.
//!
//! The crate holds the pricing formula, the fee split, the pool's state
//! transitions for swaps and liquidity changes, and the treasury counter.
//! Every function is verified against a contract stated over integers.

pub mod address;
pub mod errors;
pub mod fees;
pub mod liquidity;
pub mod math;
pub mod pool;
pub mod swap;
pub mod treasury;

pub use address::Address;
pub use errors::AmmError;
pub use fees::{split_fee, FeeSplit};
pub use liquidity::{add_liquidity, remove_liquidity, Withdrawal};
pub use math::{get_amount_out, mul_div_floor};
pub use pool::{create_pool, Pool};
pub use swap::{handler, swap, SwapAmounts, SwapOutcome};
pub use treasury::{init_treasury, Treasury};
