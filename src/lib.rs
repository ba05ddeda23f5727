//! Finds local container images whose tags contain a query, orders and
//! deduplicates them, and drives the confirm-then-remove protocol.
//!
//! Everything here is pure logic: the caller lists the images, reads the
//! operator's reply and performs the removals, feeding the results back.

pub mod dedup;
pub mod image;
pub mod matcher;
pub mod prompt;
pub mod session;
pub mod size;
pub mod text;
