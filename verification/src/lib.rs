//! Verified building blocks of a small guitar-effects processor and of the
//! seven-segment read-out of its hardware controller.

pub mod delay_line;
pub mod effects;
pub mod segments;
pub mod firmware;
