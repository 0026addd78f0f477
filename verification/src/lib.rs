//! Parses a compact duration expression such as `5m`, `12s` or `1h30m` into a
//! number of seconds, and steps a fixed-interval wait over that duration.
//!
//! The crate holds the decisions only: what an expression means, when it is
//! refused, and how the wait advances. Sleeping and drawing are left to the
//! caller, which drives a [`WaitState`] one step at a time.

pub mod units;
pub mod error;
pub mod grammar;
pub mod shape;
pub mod duration;
pub mod wait;
pub mod request;

pub use crate::duration::Time;
pub use crate::error::ParseError;
pub use crate::error::WaitError;
pub use crate::grammar::InputParser;
pub use crate::request::requested_wait;
pub use crate::units::Token;
pub use crate::units::Unit;
pub use crate::wait::Phase;
pub use crate::wait::Tick;
pub use crate::wait::WaitState;
pub use crate::wait::REFRESH_INTERVAL_MILLIS;
