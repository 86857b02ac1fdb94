//! Moving averages per key over a stream of records, for a user-defined function of
//! the Kapacitor stream engine.
//!
//! An [`handler::IndicatorHandler`] is configured with a period, an indicator type and
//! three field names. For each record it reads a key from a tag and an input from a
//! double field, folds the input into the rolling state of the key, and hands the
//! record back with the indicator's value in one more field. Its state table can be
//! written down as a snapshot and restored from one.
//!
//! Numbers are held as the bits of their IEEE 754 double form. The library decides
//! which arithmetic gives the indicator's value ([`state::Formula`]) and what is kept
//! of its result; the caller evaluates the formula in double precision.

pub mod codec;
pub mod dict;
pub mod error;
pub mod handler;
pub mod laws;
pub mod options;
pub mod point;
pub mod state;
