//! Utilisation percentages from kernel counter lines.
//!
//! The crate turns the text of the processor summary line and of the
//! memory information lines into numbers, and derives from them the share
//! of processor time that was busy between two samples and the share of
//! memory that is in use. Every function is total: malformed text,
//! counters that run backwards and missing samples are reported as an
//! [`error::Error`], never as a fault.

pub mod error;
pub mod percent;
pub mod processor;
pub mod memory;
pub mod text;
