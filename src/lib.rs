//! Ground-support control for a propellant test stand: a decoder for the stand's line-based
//! telemetry, a table of the latest reading of each field, the valve positions derived from
//! it, the mode state machine with its valve interlocks, and the timed command sequences that
//! actuate the stand.

pub mod codec;
pub mod decoder;
pub mod field_history;
pub mod link;
pub mod record;
pub mod sequence;
pub mod snapshot;
pub mod stand;
pub mod text;
