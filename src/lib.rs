//! Two small verified utilities: a store's pricing rule (tiered discount,
//! then category tax) and the choice of the integer closest to zero.
pub mod pricing;
pub mod zero_kata;
