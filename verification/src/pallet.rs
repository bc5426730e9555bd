//! The state-owning structure and the operations of the simulation: the
//! weighted capture selector, the capture flow itself, the population
//! dynamics engine, and the administrative setters that load reference data.
//!
//! All state the operations touch — the region, account and individual
//! registries and the two monotonic nonces — lives in explicit fields of
//! [`Pallet`], passed by reference to every operation.

use vstd::prelude::*;

verus! {

use std::collections::HashMap;
use crate::bounded::{
    contains_species,
    lemma_count_le_sum,
    lemma_sum_counts_insert,
    lemma_sum_counts_le,
    lemma_sum_counts_remove,
    lemma_sum_counts_update,
    spec_index_of,
    spec_insert_pos,
    sum_counts,
};
use crate::prob::{ratio_parts, Probability, PARTS_PER_WHOLE};
use crate::types::{
    AccountData,
    AccountId,
    BlockNumber,
    JokeymonData,
    JokeymonId,
    JokeymonSpeciesData,
    JokeymonSpeciesId,
    Region,
    RegionId,
    NO_SPECIES,
};

broadcast use vstd::std_specs::hash::group_hash_axioms;

/// Externally supplied configuration: the two capacity bounds and the four
/// population-model coefficients, the latter in parts per
/// [`PARTS_PER_WHOLE`].
#[derive(Clone, Copy, Debug, PartialEq, Eq, Structural)]
pub struct Config {
    /// Maximum distinct species allowed in one region.
    pub max_species_in_region: u32,
    /// Maximum jokeymon an account can hold at a time.
    pub max_jokeymon_holdable: u32,
    /// Herbivore growth rate per tick.
    pub growth_rate: u32,
    /// Herbivore loss rate per predator encounter.
    pub predation_rate: u32,
    /// Carnivore gain rate per prey encounter.
    pub conversion_rate: u32,
    /// Carnivore death rate per tick.
    pub death_rate: u32,
}

/// Why an operation was refused. Every failure is returned as a value;
/// nothing is retried internally.
#[derive(Clone, Copy, Debug, PartialEq, Eq, Structural)]
pub enum Error {
    /// No room left for jokeymon in the account's party.
    TooManyJokeymon,
    /// No jokeymon left in the region to catch.
    NoCatchableJokeymon,
    /// No room left in region for new species.
    RegionSpeciesDiversitySaturated,
    /// The selector walked every species without absorbing the roll; kept
    /// as a defensive case, the capture contract proves it never occurs.
    SelectionFellThrough,
}

/// What a successful operation reports.
#[derive(Clone, Copy, Debug, PartialEq, Eq, Structural)]
pub enum Event {
    /// A jokeymon was caught.
    JokeymonCaptured { species_id: JokeymonSpeciesId, jokeymon_id: JokeymonId, who: AccountId },
}

/// Genesis storage: the region records a loading collaborator stores
/// before any operation runs. The records are assumed pre-validated.
pub struct GenesisConfig {
    pub region_id_to_region: Vec<(RegionId, Region)>,
}

impl Default for GenesisConfig {
    fn default() -> (g: GenesisConfig)
        ensures
            g.region_id_to_region@ == Seq::<(RegionId, Region)>::empty(),
    {
        GenesisConfig { region_id_to_region: Vec::new() }
    }
}

/// The region registry after the genesis records are stored in order; a
/// later record for the same id overrides an earlier one.
pub open spec fn genesis_apply(
    m: Map<RegionId, Region>,
    s: Seq<(RegionId, Region)>,
) -> Map<RegionId, Region>
    decreases s.len(),
{
    if s.len() == 0 {
        m
    } else {
        genesis_apply(m, s.drop_last()).insert(s.last().0, s.last().1)
    }
}

impl GenesisConfig {
    /// Stores every genesis region into the world, in order.
    pub fn build(self, pallet: &mut Pallet)
        requires
            old(pallet).wf(),
            forall|i: int|
                0 <= i < self.region_id_to_region@.len() ==> (#[trigger] self.region_id_to_region@[i]).1.wf()
                    && self.region_id_to_region@[i].1.population_demographics.capacity == old(pallet).config.max_species_in_region,
        ensures
            final(pallet).wf(),
            final(pallet).regions@ == genesis_apply(
                old(pallet).regions@,
                self.region_id_to_region@,
            ),
            final(pallet).config == old(pallet).config,
            final(pallet).random_nonce == old(pallet).random_nonce,
            final(pallet).jokeymon_id_nonce == old(pallet).jokeymon_id_nonce,
            final(pallet).block_number == old(pallet).block_number,
            final(pallet).accounts@ == old(pallet).accounts@,
            final(pallet).jokeymon@ == old(pallet).jokeymon@,
            final(pallet).species@ == old(pallet).species@,
    {
        let ghost orig = self.region_id_to_region@;
        let mut v: Vec<(RegionId, Region)> = self.region_id_to_region;
        let ghost mut done: int = 0;
        while v.len() > 0
            invariant
                pallet.wf(),
                0 <= done <= orig.len(),
                v@ == orig.skip(done),
                pallet.regions@ == genesis_apply(old(pallet).regions@, orig.take(done)),
                pallet.config == old(pallet).config,
                pallet.random_nonce == old(pallet).random_nonce,
                pallet.jokeymon_id_nonce == old(pallet).jokeymon_id_nonce,
                pallet.block_number == old(pallet).block_number,
                pallet.accounts@ == old(pallet).accounts@,
                pallet.jokeymon@ == old(pallet).jokeymon@,
                pallet.species@ == old(pallet).species@,
                forall|i: int|
                    0 <= i < orig.len() ==> (#[trigger] orig[i]).1.wf()
                        && orig[i].1.population_demographics.capacity == old(pallet).config.max_species_in_region,
            decreases v.len(),
        {
            proof {
                assert(v@[0] == orig[done]);
            }
            let entry: (RegionId, Region) = v.remove(0);
            proof {
                assert(v@ == orig.skip(done + 1)) by {
                    assert(orig.skip(done).remove(0) =~= orig.skip(done + 1));
                }
                assert(orig.take(done + 1).drop_last() =~= orig.take(done));
                assert(orig.take(done + 1).last() == orig[done]);
            }
            pallet.set_region(entry.0, entry.1);
            proof {
                done = done + 1;
            }
        }
        proof {
            assert(orig.take(done) =~= orig);
        }
    }
}

/// One step of a wrap-safe monotonic counter.
pub open spec fn wrapping_inc_u32(x: u32) -> u32 {
    if x == u32::MAX {
        0
    } else {
        (x + 1) as u32
    }
}

/// One step of a wrap-safe monotonic counter.
pub open spec fn wrapping_inc_u64(x: u64) -> u64 {
    if x == u64::MAX {
        0
    } else {
        (x + 1) as u64
    }
}

/// Addition on counts that stops at the largest representable count.
pub open spec fn sat_add_u32(a: u32, b: u32) -> u32 {
    if a + b > u32::MAX {
        u32::MAX
    } else {
        (a + b) as u32
    }
}

/// The catch weight of the entry at walk position `i`: its share of the
/// total population, rounded up to the next part, with a one-part epsilon
/// added to the first entry to absorb rounding loss.
pub open spec fn weight_parts(s: Seq<(u32, u32)>, total: nat, i: int) -> nat
    recommends
        0 <= i < s.len(),
        total > 0,
{
    let base = ratio_parts(s[i].1 as nat, total);
    if i == 0 {
        if base + 1 > PARTS_PER_WHOLE {
            PARTS_PER_WHOLE as nat
        } else {
            (base + 1) as nat
        }
    } else {
        base
    }
}

/// Walks the entries from position `i` with `remaining` parts of the roll
/// left, subtracting each weight exactly; the first entry that brings the
/// remainder to exactly zero is selected, and a walk that runs out of
/// entries yields [`NO_SPECIES`].
pub open spec fn select_from(s: Seq<(u32, u32)>, total: nat, remaining: nat, i: int) -> u32
    decreases s.len() - i,
    when 0 <= i <= s.len()
{
    if i >= s.len() {
        NO_SPECIES
    } else {
        let w = weight_parts(s, total, i);
        if remaining <= w {
            s[i].0
        } else {
            select_from(s, total, (remaining - w) as nat, i + 1)
        }
    }
}

/// Which species a roll selects from a region's demographics.
pub open spec fn spec_select(s: Seq<(u32, u32)>, total: nat, roll: nat) -> u32 {
    select_from(s, total, roll, 0)
}

/// The catch weights from position `i` on, summed.
pub open spec fn weights_sum_from(s: Seq<(u32, u32)>, total: nat, i: int) -> nat
    decreases s.len() - i,
    when 0 <= i <= s.len()
{
    if i >= s.len() {
        0
    } else {
        weight_parts(s, total, i) + weights_sum_from(s, total, i + 1)
    }
}

/// The live counts from position `i` on, summed.
pub open spec fn counts_sum_from(s: Seq<(u32, u32)>, i: int) -> nat
    decreases s.len() - i,
    when 0 <= i <= s.len()
{
    if i >= s.len() {
        0
    } else {
        s[i].1 as nat + counts_sum_from(s, i + 1)
    }
}

/// Dropping the last entry drops exactly its count from a suffix sum.
proof fn lemma_counts_sum_from_drop_last(s: Seq<(u32, u32)>, i: int)
    requires
        0 <= i <= s.len() - 1,
    ensures
        counts_sum_from(s, i) == counts_sum_from(s.drop_last(), i) + s.last().1,
    decreases s.len() - i,
{
    if i < s.len() - 1 {
        assert(s.drop_last()[i] == s[i]);
        lemma_counts_sum_from_drop_last(s, i + 1);
    } else {
        assert(counts_sum_from(s, i) == s[i].1 as nat + counts_sum_from(s, i + 1));
        assert(counts_sum_from(s, i + 1) == 0);
        assert(counts_sum_from(s.drop_last(), i) == 0);
    }
}

/// The front-to-back suffix sum agrees with [`sum_counts`].
proof fn lemma_counts_sum_eq(s: Seq<(u32, u32)>)
    ensures
        counts_sum_from(s, 0) == sum_counts(s),
    decreases s.len(),
{
    if s.len() > 0 {
        lemma_counts_sum_eq(s.drop_last());
        lemma_counts_sum_from_drop_last(s, 0);
    }
}

/// Scaled back by the total, the summed rounded-up weights still cover the
/// summed counts' share of the whole.
proof fn lemma_weights_cover(s: Seq<(u32, u32)>, total: nat, i: int)
    requires
        total > 0,
        0 <= i <= s.len(),
        forall|j: int| 0 <= j < s.len() ==> (#[trigger] s[j]).1 <= total,
    ensures
        weights_sum_from(s, total, i) * total >= counts_sum_from(s, i) * (PARTS_PER_WHOLE as nat),
    decreases s.len() - i,
{
    if i < s.len() {
        lemma_weights_cover(s, total, i + 1);
        let c = s[i].1 as nat;
        let base = ratio_parts(c, total);
        let w = weight_parts(s, total, i);
        let rest_w = weights_sum_from(s, total, i + 1);
        let rest_c = counts_sum_from(s, i + 1);
        let whole = PARTS_PER_WHOLE as nat;
        crate::prob::lemma_ratio_parts_covers(c, total);
        crate::prob::lemma_ratio_parts_le_whole(c, total);
        assert(w >= base);
        assert(w * total >= base * total) by {
            vstd::arithmetic::mul::lemma_mul_inequality(base as int, w as int, total as int);
        }
        assert((w + rest_w) * total == w * total + rest_w * total) by {
            vstd::arithmetic::mul::lemma_mul_is_distributive_add_other_way(
                total as int,
                w as int,
                rest_w as int,
            );
        }
        assert((c + rest_c) * whole == c * whole + rest_c * whole) by {
            vstd::arithmetic::mul::lemma_mul_is_distributive_add_other_way(
                whole as int,
                c as int,
                rest_c as int,
            );
        }
    }
}

/// With a live population, the catch weights sum to at least one whole:
/// the epsilon-corrected, rounded-up weights leave no roll unabsorbed.
proof fn lemma_weights_cover_whole(s: Seq<(u32, u32)>, total: nat)
    requires
        total > 0,
        sum_counts(s) == total,
    ensures
        weights_sum_from(s, total, 0) >= PARTS_PER_WHOLE,
{
    lemma_counts_sum_eq(s);
    assert forall|j: int| 0 <= j < s.len() implies (#[trigger] s[j]).1 <= total by {
        lemma_count_le_sum(s, j);
    }
    lemma_weights_cover(s, total, 0);
    let w = weights_sum_from(s, total, 0);
    let whole = PARTS_PER_WHOLE as nat;
    if w < whole {
        assert(w * total <= (whole - 1) * total) by {
            vstd::arithmetic::mul::lemma_mul_inequality(w as int, whole as int - 1, total as int);
        }
        assert((whole - 1) * total < whole * total) by {
            vstd::arithmetic::mul::lemma_mul_strict_inequality(
                whole as int - 1,
                whole as int,
                total as int,
            );
        }
        assert(total * whole == whole * total) by {
            vstd::arithmetic::mul::lemma_mul_is_commutative(total as int, whole as int);
        }
        assert(false);
    }
}

/// A walk whose remaining roll is covered by the remaining weights always
/// selects a species that is present.
proof fn lemma_select_from_hits(s: Seq<(u32, u32)>, total: nat, remaining: nat, i: int)
    requires
        0 <= i < s.len(),
        remaining <= weights_sum_from(s, total, i),
    ensures
        contains_species(s, select_from(s, total, remaining, i)),
    decreases s.len() - i,
{
    let w = weight_parts(s, total, i);
    if remaining <= w {
        assert(select_from(s, total, remaining, i) == s[i].0);
        assert(contains_species(s, s[i].0));
    } else {
        if i + 1 == s.len() {
            assert(weights_sum_from(s, total, i + 1) == 0);
            assert(false);
        }
        lemma_select_from_hits(s, total, (remaining - w) as nat, i + 1);
    }
}

/// The whole world state: configuration, the two nonces, the current tick,
/// and the four registries.
pub struct Pallet {
    pub config: Config,
    /// Seed counter for randomness draws; incremented once per draw.
    pub random_nonce: u32,
    /// Unique-id counter for captured individuals; incremented once per
    /// capture.
    pub jokeymon_id_nonce: u64,
    /// The current world tick, stamped on captured individuals.
    pub block_number: BlockNumber,
    /// Region id to its corresponding region.
    pub regions: HashMap<RegionId, Region>,
    /// Account to user data.
    pub accounts: HashMap<AccountId, AccountData>,
    /// Jokeymon unique id to individual data.
    pub jokeymon: HashMap<JokeymonId, JokeymonData>,
    /// Species id to general species data.
    pub species: HashMap<JokeymonSpeciesId, JokeymonSpeciesData>,
}

impl Pallet {
    /// Every stored region and account is well formed and carries the
    /// configured capacity bound.
    pub open spec fn wf(self) -> bool {
        &&& forall|id: RegionId|
            self.regions@.contains_key(id) ==> (#[trigger] self.regions@[id]).wf()
                && self.regions@[id].population_demographics.capacity
                == self.config.max_species_in_region
        &&& forall|who: AccountId|
            self.accounts@.contains_key(who) ==> (#[trigger] self.accounts@[who]).wf()
                && self.accounts@[who].jokeymon.capacity == self.config.max_jokeymon_holdable
    }

    /// A fresh world under the given configuration: empty registries, both
    /// nonces at zero, the clock at tick zero.
    pub fn new(config: Config) -> (p: Pallet)
        ensures
            p.config == config,
            p.random_nonce == 0,
            p.jokeymon_id_nonce == 0,
            p.block_number == 0,
            p.regions@ == Map::<RegionId, Region>::empty(),
            p.accounts@ == Map::<AccountId, AccountData>::empty(),
            p.jokeymon@ == Map::<JokeymonId, JokeymonData>::empty(),
            p.species@ == Map::<JokeymonSpeciesId, JokeymonSpeciesData>::empty(),
            p.wf(),
    {
        Pallet {
            config,
            random_nonce: 0,
            jokeymon_id_nonce: 0,
            block_number: 0,
            regions: HashMap::new(),
            accounts: HashMap::new(),
            jokeymon: HashMap::new(),
            species: HashMap::new(),
        }
    }

    /// Moves the world clock; the external tick source drives this.
    pub fn set_block_number(&mut self, n: BlockNumber)
        ensures
            final(self).block_number == n,
            final(self).config == old(self).config,
            final(self).random_nonce == old(self).random_nonce,
            final(self).jokeymon_id_nonce == old(self).jokeymon_id_nonce,
            final(self).regions@ == old(self).regions@,
            final(self).accounts@ == old(self).accounts@,
            final(self).jokeymon@ == old(self).jokeymon@,
            final(self).species@ == old(self).species@,
            old(self).wf() ==> final(self).wf(),
    {
        self.block_number = n;
    }

    /// Stores a region record, pre-validated by the loading collaborator.
    pub fn set_region(&mut self, id: RegionId, region: Region)
        requires
            old(self).wf(),
            region.wf(),
            region.population_demographics.capacity == old(self).config.max_species_in_region,
        ensures
            final(self).wf(),
            final(self).regions@ == old(self).regions@.insert(id, region),
            final(self).config == old(self).config,
            final(self).random_nonce == old(self).random_nonce,
            final(self).jokeymon_id_nonce == old(self).jokeymon_id_nonce,
            final(self).block_number == old(self).block_number,
            final(self).accounts@ == old(self).accounts@,
            final(self).jokeymon@ == old(self).jokeymon@,
            final(self).species@ == old(self).species@,
    {
        self.regions.insert(id, region);
    }

    /// Stores a species record, pre-validated by the loading collaborator.
    pub fn set_species_data(&mut self, id: JokeymonSpeciesId, data: JokeymonSpeciesData)
        ensures
            final(self).species@ == old(self).species@.insert(id, data),
            final(self).config == old(self).config,
            final(self).random_nonce == old(self).random_nonce,
            final(self).jokeymon_id_nonce == old(self).jokeymon_id_nonce,
            final(self).block_number == old(self).block_number,
            final(self).regions@ == old(self).regions@,
            final(self).accounts@ == old(self).accounts@,
            final(self).jokeymon@ == old(self).jokeymon@,
            old(self).wf() ==> final(self).wf(),
    {
        self.species.insert(id, data);
    }

    /// Reads a stored region.
    pub fn region(&self, id: RegionId) -> (r: Option<&Region>)
        ensures
            match r {
                Some(region) => self.regions@.contains_key(id) && *region == self.regions@[id],
                None => !self.regions@.contains_key(id),
            },
    {
        self.regions.get(&id)
    }

    /// Reads a stored account record.
    pub fn account_data(&self, who: AccountId) -> (r: Option<&AccountData>)
        ensures
            match r {
                Some(a) => self.accounts@.contains_key(who) && *a == self.accounts@[who],
                None => !self.accounts@.contains_key(who),
            },
    {
        self.accounts.get(&who)
    }

    /// Reads the record of one captured individual.
    pub fn jokeymon_data(&self, id: JokeymonId) -> (r: Option<&JokeymonData>)
        ensures
            match r {
                Some(d) => self.jokeymon@.contains_key(id) && *d == self.jokeymon@[id],
                None => !self.jokeymon@.contains_key(id),
            },
    {
        self.jokeymon.get(&id)
    }

    /// Reads a stored species record.
    pub fn species_data(&self, id: JokeymonSpeciesId) -> (r: Option<&JokeymonSpeciesData>)
        ensures
            match r {
                Some(d) => self.species@.contains_key(id) && *d == self.species@[id],
                None => !self.species@.contains_key(id),
            },
    {
        self.species.get(&id)
    }

    /// Uses and updates the random nonce: returns the seed for the next
    /// randomness draw and steps the counter, wrapping instead of erring.
    pub fn get_and_increment_random_nonce(&mut self) -> (seed: u32)
        ensures
            seed == old(self).random_nonce,
            final(self).random_nonce == wrapping_inc_u32(old(self).random_nonce),
            final(self).config == old(self).config,
            final(self).jokeymon_id_nonce == old(self).jokeymon_id_nonce,
            final(self).block_number == old(self).block_number,
            final(self).regions@ == old(self).regions@,
            final(self).accounts@ == old(self).accounts@,
            final(self).jokeymon@ == old(self).jokeymon@,
            final(self).species@ == old(self).species@,
            old(self).wf() ==> final(self).wf(),
    {
        let val: u32 = self.random_nonce;
        self.random_nonce = if val == u32::MAX {
            0
        } else {
            val + 1
        };
        val
    }

    /// Uses and updates the jokeymon unique-identifier nonce, wrapping
    /// instead of erring.
    pub fn get_and_increment_jokeymon_id_nonce(&mut self) -> (id: JokeymonId)
        ensures
            id == old(self).jokeymon_id_nonce,
            final(self).jokeymon_id_nonce == wrapping_inc_u64(old(self).jokeymon_id_nonce),
            final(self).config == old(self).config,
            final(self).random_nonce == old(self).random_nonce,
            final(self).block_number == old(self).block_number,
            final(self).regions@ == old(self).regions@,
            final(self).accounts@ == old(self).accounts@,
            final(self).jokeymon@ == old(self).jokeymon@,
            final(self).species@ == old(self).species@,
            old(self).wf() ==> final(self).wf(),
    {
        let val: u64 = self.jokeymon_id_nonce;
        self.jokeymon_id_nonce = if val == u64::MAX {
            0
        } else {
            val + 1
        };
        val
    }

    /// Turns one draw of raw entropy into a fraction of the unit interval.
    /// The entropy itself comes from the injected randomness capability;
    /// this conversion is the only part the simulation owns.
    pub fn get_random_number(entropy: u32) -> (roll: Probability)
        ensures
            roll.parts == ratio_parts(entropy as nat, u32::MAX as nat),
            roll.inv(),
    {
        Probability::from_ratio(entropy as u64, u32::MAX as u64)
    }

    /// The region an account acts in: its stored current region, or the
    /// default region for an account with no stored data.
    pub open spec fn spec_account_region(self, who: AccountId) -> RegionId {
        if self.accounts@.contains_key(who) {
            self.accounts@[who].current_region
        } else {
            0
        }
    }

    /// The held-id list of an account, empty when no data is stored.
    pub open spec fn spec_account_held(self, who: AccountId) -> Seq<JokeymonId> {
        if self.accounts@.contains_key(who) {
            self.accounts@[who].jokeymon@
        } else {
            Seq::empty()
        }
    }

    /// The live total of a region, zero when the region is unknown.
    pub open spec fn spec_region_total(self, id: RegionId) -> u64 {
        if self.regions@.contains_key(id) {
            self.regions@[id].total_population
        } else {
            0
        }
    }

    /// Catches a jokeymon for `who`, using one draw of injected entropy.
    ///
    /// The account's current region is read, the draw selects a species by
    /// its population share, the species is debited from the region, a
    /// fresh individual is minted and appended to the account's held list.
    /// The random nonce is stepped once per attempt, successful or not;
    /// every other piece of state is left exactly as it was whenever the
    /// capture fails. Capacity is validated before the region is debited,
    /// so a refused capture never leaves a partial effect.
    pub fn catch_jokeymon(&mut self, who: AccountId, entropy: u32) -> (r: Result<Event, Error>)
        requires
            old(self).wf(),
        ensures
            final(self).wf(),
            final(self).config == old(self).config,
            final(self).block_number == old(self).block_number,
            final(self).species@ == old(self).species@,
            final(self).random_nonce == wrapping_inc_u32(old(self).random_nonce),
            ({
                let rid = old(self).spec_account_region(who);
                let total = old(self).spec_region_total(rid);
                let held = old(self).spec_account_held(who);
                let full = held.len() >= old(self).config.max_jokeymon_holdable;
                &&& (r == Err::<Event, Error>(Error::NoCatchableJokeymon) <==> total == 0)
                &&& (r == Err::<Event, Error>(Error::TooManyJokeymon) <==> total > 0 && full)
                &&& r != Err::<Event, Error>(Error::RegionSpeciesDiversitySaturated)
                &&& r != Err::<Event, Error>(Error::SelectionFellThrough)
                &&& r.is_err() ==> final(self).regions@ == old(self).regions@ && final(self).accounts@ == old(self).accounts@ && final(self).jokeymon@ == old(self).jokeymon@
                    && final(self).jokeymon_id_nonce == old(self).jokeymon_id_nonce
                &&& total > 0 && !full ==> ({
                    let region = old(self).regions@[rid];
                    let s = region.population_demographics@;
                    let caught = spec_select(
                        s,
                        total as nat,
                        ratio_parts(entropy as nat, u32::MAX as nat),
                    );
                    let new_id = old(self).jokeymon_id_nonce;
                    let i = spec_index_of(s, caught);
                    let c = s[i].1;
                    let after = final(self).regions@[rid];
                    &&& r == Ok::<Event, Error>(
                        Event::JokeymonCaptured { species_id: caught, jokeymon_id: new_id, who },
                    )
                    &&& contains_species(s, caught)
                    &&& final(self).jokeymon_id_nonce == wrapping_inc_u64(new_id)
                    &&& final(self).jokeymon@ == old(self).jokeymon@.insert(
                        new_id,
                        JokeymonData { id: caught, birth_date: old(self).block_number },
                    )
                    &&& final(self).regions@.dom() == old(self).regions@.dom()
                    &&& forall|rid2: RegionId| #![auto]
                        old(self).regions@.contains_key(rid2) && rid2 != rid ==> final(self).regions@[rid2] == old(self).regions@[rid2]
                    &&& after.id == region.id
                    &&& after.energy_yield == region.energy_yield
                    &&& after.latitude == region.latitude
                    &&& after.longitude == region.longitude
                    &&& after.total_population == region.total_population - 1
                    &&& after.population_demographics@ == (if c <= 1 {
                        s.remove(i)
                    } else {
                        s.update(i, (caught, (c - 1) as u32))
                    })
                    &&& final(self).accounts@.dom() == old(self).accounts@.dom().insert(who)
                    &&& forall|a: AccountId| #![auto]
                        old(self).accounts@.contains_key(a) && a != who ==> final(self).accounts@[a] == old(self).accounts@[a]
                    &&& final(self).accounts@.contains_key(who)
                    &&& final(self).accounts@[who].current_region == rid
                    &&& final(self).accounts@[who].jokeymon@ == held.push(new_id)
                })
            }),
    {
        // nonce bookkeeping for the one draw this attempt consumes
        let _seed = self.get_and_increment_random_nonce();
        let roll: Probability = Self::get_random_number(entropy);
        // the acting account's data, defaulted when none is stored
        let (current_region, held_len): (RegionId, usize) = match self.accounts.get(&who) {
            Some(a) => (a.current_region, a.jokeymon.len()),
            None => (0u32, 0usize),
        };
        // check the region has available jokeymon
        let caught: JokeymonSpeciesId = match self.regions.get(&current_region) {
            Some(region) => {
                if region.total_population == 0 {
                    return Err(Error::NoCatchableJokeymon);
                }
                Self::get_jokeymon_in_region(region, roll)
            },
            None => {
                return Err(Error::NoCatchableJokeymon);
            },
        };
        // defensive: the selector's contract proves this cannot happen
        if caught == NO_SPECIES {
            return Err(Error::SelectionFellThrough);
        }
        // validate holding capacity before any state is committed
        if held_len >= self.config.max_jokeymon_holdable as usize {
            return Err(Error::TooManyJokeymon);
        }
        // decide which jokeymon species, decrement it from the region
        let mut region: Region = match self.regions.remove(&current_region) {
            Some(region) => region,
            None => {
                return Err(Error::NoCatchableJokeymon);
            },
        };
        proof {
            crate::bounded::lemma_spec_index_of(region.population_demographics@, caught);
        }
        Self::decrement_species_in_population(&mut region, caught, 1);
        self.regions.insert(current_region, region);
        // generate a jokeymon of that species
        let new_id: JokeymonId = self.get_and_increment_jokeymon_id_nonce();
        let data = JokeymonData { id: caught, birth_date: self.block_number };
        // add that jokeymon to the jokeymon data bank
        self.jokeymon.insert(new_id, data);
        // add the jokeymon to the user's collection
        let mut account: AccountData = match self.accounts.remove(&who) {
            Some(a) => a,
            None => AccountData::new(0, self.config.max_jokeymon_holdable),
        };
        let _ = account.jokeymon.try_push(new_id);
        self.accounts.insert(who, account);
        Ok(Event::JokeymonCaptured { species_id: caught, jokeymon_id: new_id, who })
    }

    /// Picks a jokeymon species in a region, given a random roll.
    ///
    /// Every species is weighted by its share of the live population and
    /// the entries are walked in ascending species-id order, subtracting
    /// each weight from the roll; the species that brings the remainder to
    /// exactly zero is selected. Whenever the region has any live
    /// population the result is a species that is present in it — never
    /// [`NO_SPECIES`] — whatever the roll, including a roll of zero or of
    /// one whole.
    pub fn get_jokeymon_in_region(region: &Region, catch_roll: Probability) -> (r:
        JokeymonSpeciesId)
        requires
            region.wf(),
            catch_roll.inv(),
        ensures
            r == spec_select(
                region.population_demographics@,
                region.total_population as nat,
                catch_roll.parts as nat,
            ),
            region.total_population > 0 ==> contains_species(region.population_demographics@, r)
                && r != NO_SPECIES,
    {
        let ghost s = region.population_demographics@;
        let total: u64 = region.total_population;
        proof {
            if total > 0 {
                lemma_weights_cover_whole(s, total as nat);
                if s.len() == 0 {
                    assert(sum_counts(s) == 0);
                }
                lemma_select_from_hits(s, total as nat, catch_roll.parts as nat, 0);
            }
        }
        let n: usize = region.population_demographics.len();
        let mut remaining: Probability = catch_roll;
        let mut i: usize = 0;
        while i < n
            invariant
                i <= n,
                n == s.len(),
                s == region.population_demographics@,
                region.wf(),
                remaining.inv(),
                total == region.total_population,
                select_from(s, total as nat, remaining.parts as nat, i as int) == spec_select(
                    s,
                    total as nat,
                    catch_roll.parts as nat,
                ),
                region.total_population > 0 ==> contains_species(
                    s,
                    spec_select(s, total as nat, catch_roll.parts as nat),
                ),
            decreases n - i,
        {
            let e = region.population_demographics.entry_at(i);
            proof {
                lemma_count_le_sum(s, i as int);
            }
            let mut p: Probability = Probability::from_ratio(e.1 as u64, total);
            if i == 0 {
                let eps = Probability::from_parts(1);
                p = p.saturating_add(eps);
            }
            proof {
                assert(p.parts == weight_parts(s, total as nat, i as int));
            }
            remaining = remaining.saturating_sub(p);
            let zero = Probability::zero();
            if remaining == zero {
                return e.0;
            }
            i = i + 1;
        }
        NO_SPECIES
    }

    /// Decrements the population size of a jokeymon species in a region by
    /// up to `amount`: the count never goes below zero, the cached total
    /// drops by exactly what was actually removed, and a species whose
    /// count reaches zero is pruned from the demographics.
    pub fn decrement_species_in_population(region: &mut Region, id: JokeymonSpeciesId, amount: u32)
        requires
            old(region).wf(),
        ensures
            final(region).wf(),
            final(region).id == old(region).id,
            final(region).energy_yield == old(region).energy_yield,
            final(region).latitude == old(region).latitude,
            final(region).longitude == old(region).longitude,
            final(region).population_demographics.capacity == old(region).population_demographics.capacity,
            !contains_species(old(region).population_demographics@, id) ==> final(region).population_demographics@ == old(region).population_demographics@ && final(region).total_population == old(region).total_population,
            contains_species(old(region).population_demographics@, id) ==> ({
                let s = old(region).population_demographics@;
                let i = spec_index_of(s, id);
                let c = s[i].1;
                &&& final(region).total_population == old(region).total_population - (
                if c <= amount {
                    c as int
                } else {
                    amount as int
                })
                &&& final(region).population_demographics@ == (if c <= amount {
                    s.remove(i)
                } else {
                    s.update(i, (id, (c - amount) as u32))
                })
            }),
    {
        match region.population_demographics.index_of(id) {
            Some(i) => {
                let e = region.population_demographics.entry_at(i);
                let c: u32 = e.1;
                let end: u32 = if c >= amount {
                    c - amount
                } else {
                    0
                };
                let actual: u32 = c - end;
                proof {
                    lemma_count_le_sum(region.population_demographics@, i as int);
                }
                if end == 0 {
                    region.population_demographics.remove_at(i);
                    proof {
                        lemma_sum_counts_remove(old(region).population_demographics@, i as int);
                    }
                } else {
                    region.population_demographics.set_count_at(i, end);
                    proof {
                        lemma_sum_counts_update(
                            old(region).population_demographics@,
                            i as int,
                            end,
                        );
                    }
                }
                region.total_population = region.total_population - actual as u64;
            },
            None => {},
        }
    }

    /// Increments the population size of a jokeymon species in a region.
    /// A species already present never fails on the diversity bound;
    /// introducing a species not already present fails with the saturation
    /// error exactly when the region is at its bound, whatever the amount,
    /// with the bound checked before anything is mutated. Asking to add
    /// zero of an admissible absent species changes nothing: no entry with
    /// count zero may enter the demographics.
    pub fn increment_species_in_population(
        region: &mut Region,
        id: JokeymonSpeciesId,
        amount: u32,
    ) -> (r: Result<(), Error>)
        requires
            old(region).wf(),
            id != NO_SPECIES,
        ensures
            final(region).wf(),
            final(region).id == old(region).id,
            final(region).energy_yield == old(region).energy_yield,
            final(region).latitude == old(region).latitude,
            final(region).longitude == old(region).longitude,
            final(region).population_demographics.capacity == old(region).population_demographics.capacity,
            contains_species(old(region).population_demographics@, id) ==> r == Ok::<(), Error>(())
                && ({
                let s = old(region).population_demographics@;
                let i = spec_index_of(s, id);
                let c = s[i].1;
                &&& final(region).population_demographics@ == s.update(
                    i,
                    (id, sat_add_u32(c, amount)),
                )
                &&& final(region).total_population == old(region).total_population + (sat_add_u32(
                    c,
                    amount,
                ) - c)
            }),
            r == Err::<(), Error>(Error::RegionSpeciesDiversitySaturated) <==> !contains_species(
                old(region).population_demographics@,
                id,
            ) && old(region).population_demographics@.len() >= old(region).population_demographics.capacity,
            !contains_species(old(region).population_demographics@, id) && old(region).population_demographics@.len() >= old(region).population_demographics.capacity ==> r
                == Err::<(), Error>(Error::RegionSpeciesDiversitySaturated) && final(region).population_demographics@ == old(region).population_demographics@ && final(region).total_population == old(region).total_population,
            !contains_species(old(region).population_demographics@, id) && old(region).population_demographics@.len() < old(region).population_demographics.capacity
                && amount == 0 ==> r == Ok::<(), Error>(()) && final(region).population_demographics@ == old(region).population_demographics@ && final(region).total_population == old(region).total_population,
            !contains_species(old(region).population_demographics@, id) && old(region).population_demographics@.len() < old(region).population_demographics.capacity
                && amount > 0 ==> r == Ok::<(), Error>(()) && final(region).total_population == old(region).total_population + amount && final(region).population_demographics@ == old(region).population_demographics@.insert(
                spec_insert_pos(old(region).population_demographics@, id),
                (id, amount),
            ),
    {
        proof {
            lemma_sum_counts_le(old(region).population_demographics@);
            vstd::arithmetic::mul::lemma_mul_inequality(
                old(region).population_demographics@.len() as int,
                old(region).population_demographics.capacity as int,
                u32::MAX as int,
            );
            vstd::arithmetic::mul::lemma_mul_inequality(
                old(region).population_demographics.capacity as int,
                u32::MAX as int,
                u32::MAX as int,
            );
        }
        match region.population_demographics.index_of(id) {
            Some(i) => {
                let e = region.population_demographics.entry_at(i);
                let c: u32 = e.1;
                let new_size: u32 = if c <= u32::MAX - amount {
                    c + amount
                } else {
                    u32::MAX
                };
                let actual: u32 = new_size - c;
                region.population_demographics.set_count_at(i, new_size);
                proof {
                    lemma_sum_counts_update(
                        old(region).population_demographics@,
                        i as int,
                        new_size,
                    );
                    lemma_sum_counts_le(region.population_demographics@);
                    vstd::arithmetic::mul::lemma_mul_inequality(
                        region.population_demographics@.len() as int,
                        region.population_demographics.capacity as int,
                        u32::MAX as int,
                    );
                }
                region.total_population = region.total_population + actual as u64;
                Ok(())
            },
            None => {
                // the bound is checked before anything is mutated, and it
                // decides alone: a full region admits no new species
                if region.population_demographics.len()
                    >= region.population_demographics.capacity as usize {
                    return Err(Error::RegionSpeciesDiversitySaturated);
                }
                if amount == 0 {
                    // nothing to add, and no zero entry may enter
                    return Ok(());
                }
                let _ = region.population_demographics.try_insert(id, amount);
                proof {
                    crate::bounded::lemma_spec_insert_pos_range(
                        old(region).population_demographics@,
                        id,
                    );
                    lemma_sum_counts_insert(
                        old(region).population_demographics@,
                        spec_insert_pos(old(region).population_demographics@, id),
                        (id, amount),
                    );
                    lemma_sum_counts_le(region.population_demographics@);
                    vstd::arithmetic::mul::lemma_mul_inequality(
                        region.population_demographics@.len() as int,
                        region.population_demographics.capacity as int,
                        u32::MAX as int,
                    );
                }
                region.total_population = region.total_population + amount as u64;
                Ok(())
            },
        }
    }
}

} // verus!
