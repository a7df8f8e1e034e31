//! Cell identifiers on the sphere: a 64-bit word that names a cell of a
//! hierarchy of thirty levels below the six faces of a cube, in the order of a
//! space-filling curve.
//!
//! The bit layout of an identifier, its external signed form, and the moves up
//! and down the hierarchy are computed here and proved against their
//! specifications. Tokens, neighbours, points and coverings are computed by the
//! `s2` crate behind small trusted functions; what is done with their results
//! is proved for every result.

pub mod cellid;
pub mod center;
pub mod config;
pub mod cover;
pub mod error;
pub mod geo;
pub mod hierarchy;
pub mod neighbors;
pub mod token;
pub mod unit;
