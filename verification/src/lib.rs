//! EDIFACT encodation for a multi-mode binary symbol encoder: runs of
//! 6-bit characters are packed into 8-bit codewords against a
//! host-provided encoding context, and end-of-segment handling decides
//! whether and how to unlatch back to the default (ASCII) mode.

pub mod ascii;
pub mod buffer;
pub mod context;
pub mod dummy;
pub mod encoder;
