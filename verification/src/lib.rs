//! A small world-simulation library: geographic regions hold live populations
//! of jokeymon species, participants capture individuals with a weighted
//! random draw, and a discrete predator/prey model advances each region's
//! demographics over time.
//!
//! The crate is organised leaves first: `prob` holds the exact fixed-point
//! fraction type used for catch weights, `bounded` the capacity-checked
//! collections, `types` the entity records, and `pallet` the state-owning
//! structure with the capture and population-dynamics operations.

pub mod bounded;
pub mod dynamics;
pub mod pallet;
pub mod prob;
pub mod types;
