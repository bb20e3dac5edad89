//! Verified core of a stock-signal toolkit: timestamp-keyed direction and
//! volume maps, the joining, grouping and splitting of indicator columns, the
//! index schedules behind moving averages, the phase logic of the relative
//! strength index, and the date-ordered presentation of indicator points.
//!
//! Price arithmetic (which is done in floating point) is not part of this
//! crate: columns of prices are carried through as an opaque value type `V`.

pub mod records;
pub mod direction;
pub mod rsi;
pub mod signals;
pub mod windows;
pub mod dates;
pub mod fundamental;
pub mod macd;
