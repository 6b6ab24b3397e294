//! Change persistence: the format of the log, and the stores that keep one.

pub mod log;
pub mod store;
