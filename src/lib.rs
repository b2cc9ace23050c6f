//! Error-detecting block codec: data bits are laid out in a square bit matrix
//! beside positional parity bits, and a received block is checked by
//! recomputing those parities.

pub mod encoder;
pub mod geometry;
pub mod parity;
pub mod laws;
pub mod random;
