//! Validation-and-ledger core of a name-registration chain: an ordered block store,
//! the identity-ownership index over it, deterministic locker election, and the
//! admission rules that classify a candidate block as good, bad, a twin, a fork or
//! from the future.
use vstd::prelude::*;

pub mod block;
pub mod bytes;
pub mod chain;
mod clock;
pub mod laws;
pub mod model;
pub mod settings;

pub use block::{Block, Transaction};
pub use bytes::Bytes;
pub use chain::{Chain, ChainError};
pub use model::BlockQuality;
pub use settings::Settings;

verus! {

} // verus!
