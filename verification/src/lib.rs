//! A peer-to-peer asset-swap escrow registry.
//!
//! One party deposits a single non-fungible asset and names the exact asset
//! it will accept in exchange; a counterparty later fulfils the offer by
//! paying that asset, and the two deposits change hands atomically. The
//! registry keeps every pending offer together with two secondary indexes
//! (by creator and by requested counterparty) and proves that the three
//! structures stay consistent across every transition.
//!
//! The registry itself is pure state: identities and asset identifiers are
//! byte strings, quantities are integers, and every mutating operation
//! returns the transfers the surrounding ledger must carry out. The host
//! environment that supplies caller identities, holds custody and executes
//! transfers sits outside this crate.

pub mod asset;
pub mod index;
pub mod escrow;
