//! Firmware logic of an e-paper clock: a wear-levelled persistent minute
//! counter, a grayscale framebuffer with its wire encodings, calendar
//! arithmetic on minute timestamps and the decisions of the adjust mode.

pub mod counter;
pub mod framebuffer;
pub mod codec;
pub mod calendar;
pub mod adjust;
