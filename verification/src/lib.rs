//! Quote streaming: the wire protocol of the quote server, its command
//! parsing and validation, and the decisions of the server and client.
use vstd::prelude::*;

pub mod client;
pub mod decimal;
pub mod error;
pub mod protocol;
pub mod quote;
pub mod registry;
pub mod server;
pub mod text;
pub mod tickers;

verus! {

/// Seconds between two `PING`s of a client.
pub const PING_INTERVAL_SECONDS: u8 = 2;

/// Seconds without a `PING` after which the server drops a client.
pub const PING_TIMEOUT_SECONDS: u8 = 5;

/// Lower bound of the generator's quote range.
pub const GEN_QUOTE_RANGE_MIN: u16 = 100;

/// Upper bound of the generator's quote range; also the pause, in
/// milliseconds, between two quotes of a stream.
pub const GEN_QUOTE_RANGE_MAX: u16 = 500;

} // verus!
