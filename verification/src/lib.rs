//! Hybrid φ-based approximation library: the verified core.
//!
//! The transform itself is a near-identity map over doubles; what this crate
//! verifies is everything about it that is exact: the scale factor table (held
//! in millionths, which the six-decimal entries represent without loss), the
//! fallback rule for out-of-range parameters, the rational similarity score
//! and the routing scan over candidate scores, the little-endian framing of
//! stored words, and the decimal integer fields of the metadata text.

pub mod framing;
pub mod meta;
pub mod phi_table;
pub mod router;
pub mod store;

pub use phi_table::scale_factor_micros;
pub use phi_table::transform_scale_micros;
pub use router::route_select;
pub use router::similarity_score;
pub use router::Score;
