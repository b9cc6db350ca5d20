//! Protobuf `Timestamp` values: the `(seconds, nanos)` pair, its bridge to
//! calendar date-times and its RFC 3339 text form.

pub mod calendar;
pub mod error;
pub mod rfc3339;
pub mod time_calls;
pub mod timestamp;
