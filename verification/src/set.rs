//! The set-algebra operations: membership, insertion, difference,
//! intersection, union, and their store-destination variants.

pub mod add;
pub mod diff;
pub mod inter;
pub mod interstore;
pub mod ismember;
pub mod union;
pub mod utilities;
