//! A price-feed consumer library.
//!
//! The heart of the library is [`decimal::Decimal`], an immutable fixed-point
//! value `value * 10^-decimals` with a canonical, exponent-free string
//! rendering, together with [`fetch::execute`], the decision logic that copies
//! an oracle reading into a caller-owned record and produces the log line.
//! The host-side plumbing (account validation, the actual oracle queries) is
//! left to the embedding program; this crate holds everything that can be
//! stated and proved about the values themselves.

pub mod decimal;
pub mod digits;
pub mod fetch;
pub mod laws;

pub use decimal::Decimal;
