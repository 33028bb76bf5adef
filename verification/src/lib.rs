//! Locates integer grid coordinates within a bounded 3D region whose
//! neighborhood matches a target pattern of positional-hash signatures.
//!
//! The core is a deterministic 12-bit positional hash (`signature`), a set of
//! exact/tolerant nibble-comparison rules (`nibble`), and two box scanners
//! (`scan`) that enumerate candidate origins in a fixed order and keep those
//! whose constraint entries all match (strictly, or within a score bound).

pub mod nibble;
pub mod order;
pub mod pattern;
pub mod results;
pub mod scan;
pub mod signature;
