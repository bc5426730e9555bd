//! The entity records the simulation operates on: species reference data,
//! regions with their live demographics, per-account data, and the record of
//! one captured individual.

use vstd::prelude::*;

verus! {

use crate::bounded::{contains_species, entries_sorted, sum_counts, BoundedMap, BoundedVec};

/// Identifies a geographic region.
pub type RegionId = u32;

/// A geographic coordinate component.
pub type Coordinate = u32;

/// Identifies a species of jokeymon.
pub type JokeymonSpeciesId = u32;

/// Identifies one individual jokeymon.
pub type JokeymonId = u64;

/// A live head count of one species within a region.
pub type JokeymonCount = u32;

/// Identifies an account taking part in the world.
pub type AccountId = u64;

/// A discrete world tick; individuals are stamped with the tick of their
/// capture.
pub type BlockNumber = u64;

/// The id returned by the capture selector when no species absorbs the roll.
/// Every real species id is distinguishable from it.
pub const NO_SPECIES: u32 = u32::MAX;

/// A jokeymon diet class: a closed, two-variant tag.
#[derive(Clone, Copy, Debug, PartialEq, Eq, Structural)]
pub enum Diet {
    Herbivore,
    Carnivore,
}

impl Default for Diet {
    /// Absent reference data reads as herbivore.
    fn default() -> (d: Diet)
        ensures
            d == Diet::Herbivore,
    {
        Diet::Herbivore
    }
}

/// Immutable reference data describing one species. Created by an
/// administrative process; never mutated by capture or dynamics logic.
#[derive(Clone, Copy, Debug, PartialEq, Eq)]
pub struct JokeymonSpeciesData {
    pub id: JokeymonSpeciesId,
    pub avg_weight: u16,
    pub avg_daily_food_consumption: u16,
    pub diet: Diet,
    pub evolves_to: Option<JokeymonSpeciesId>,
}

/// The species record an unregistered id reads as.
pub open spec fn spec_default_species() -> JokeymonSpeciesData {
    JokeymonSpeciesData {
        id: 0,
        avg_weight: 0,
        avg_daily_food_consumption: 0,
        diet: Diet::Herbivore,
        evolves_to: None,
    }
}

impl Default for JokeymonSpeciesData {
    fn default() -> (d: JokeymonSpeciesData)
        ensures
            d == spec_default_species(),
    {
        JokeymonSpeciesData {
            id: 0,
            avg_weight: 0,
            avg_daily_food_consumption: 0,
            diet: Diet::Herbivore,
            evolves_to: None,
        }
    }
}

/// A geographic region holding a live population of several species.
#[derive(Debug)]
pub struct Region {
    pub id: RegionId,
    /// Always the exact sum of `population_demographics`' counts.
    pub total_population: u64,
    /// Live count per species id, at most the map's capacity many species.
    pub population_demographics: BoundedMap,
    /// A scalar bounding how many herbivores the region's energy can feed.
    pub energy_yield: u64,
    pub latitude: Coordinate,
    pub longitude: Coordinate,
}

impl Region {
    /// The region invariant every operation preserves: the demographics map
    /// is well formed, no species entry with count zero persists, every
    /// stored id is a real species id, and the cached total equals the sum
    /// of the demographic counts.
    pub open spec fn wf(self) -> bool {
        &&& self.population_demographics.wf()
        &&& forall|i: int|
            0 <= i < self.population_demographics@.len()
                ==> (#[trigger] self.population_demographics@[i]).1 > 0
        &&& forall|i: int|
            0 <= i < self.population_demographics@.len()
                ==> (#[trigger] self.population_demographics@[i]).0 != NO_SPECIES
        &&& self.total_population == sum_counts(self.population_demographics@)
    }

    /// An empty region under the given demographic capacity.
    pub fn new(id: RegionId, capacity: u32) -> (r: Region)
        ensures
            r.id == id,
            r.total_population == 0,
            r.population_demographics@ == Seq::<(u32, u32)>::empty(),
            r.population_demographics.capacity == capacity,
            r.energy_yield == 0,
            r.latitude == 0,
            r.longitude == 0,
            r.wf(),
    {
        Region {
            id,
            total_population: 0,
            population_demographics: BoundedMap::new(capacity),
            energy_yield: 0,
            latitude: 0,
            longitude: 0,
        }
    }
}

/// Whether a region currently holds the given species.
pub open spec fn region_has_species(r: Region, id: JokeymonSpeciesId) -> bool {
    contains_species(r.population_demographics@, id)
}

/// The data associated with one account: where it is, and which individuals
/// it holds.
#[derive(Debug)]
pub struct AccountData {
    pub current_region: RegionId,
    /// Ids of held individuals, oldest capture first, bounded by the
    /// holding capacity.
    pub jokeymon: BoundedVec,
}

impl AccountData {
    pub open spec fn wf(self) -> bool {
        self.jokeymon.wf()
    }

    /// A fresh account in the given region, holding nothing yet.
    pub fn new(current_region: RegionId, holding_capacity: u32) -> (a: AccountData)
        ensures
            a.current_region == current_region,
            a.jokeymon@ == Seq::<u64>::empty(),
            a.jokeymon.capacity == holding_capacity,
            a.wf(),
    {
        AccountData { current_region, jokeymon: BoundedVec::new(holding_capacity) }
    }
}

/// The record of one captured individual: which species it belongs to and
/// when it was caught. Never mutated after creation.
#[derive(Clone, Copy, Debug, PartialEq, Eq, Structural)]
pub struct JokeymonData {
    pub id: JokeymonSpeciesId,
    pub birth_date: BlockNumber,
}

} // verus!
