//! The panels of each forecast reply, one module per forecast kind.

pub mod daily;
pub mod hourly;
pub mod humidity;
pub mod soil;
