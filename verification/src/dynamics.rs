//! The population dynamics engine: one discrete predator/prey step over a
//! region's demographics.
//!
//! Each tick partitions the live population by diet, computes a carrying
//! capacity from the region's energy yield and the herbivores' food intake,
//! applies a discrete Lotka–Volterra update with the configured rates, and
//! distributes each diet class's delta evenly across its species. All
//! arithmetic saturates or clamps instead of overflowing, every division is
//! guarded, counts are floored at zero, and zero counts are pruned from the
//! rebuilt demographics.

use vstd::prelude::*;

verus! {

use crate::bounded::sum_counts;
use crate::pallet::{Config, Pallet};
use crate::prob::PARTS_PER_WHOLE;
use crate::types::{
    spec_default_species,
    Diet,
    JokeymonSpeciesData,
    JokeymonSpeciesId,
    Region,
    RegionId,
    NO_SPECIES,
};

broadcast use vstd::std_specs::hash::group_hash_axioms;

/// What reference data a species id reads as: the stored record, or the
/// default record when none was loaded.
pub open spec fn species_of(
    m: Map<JokeymonSpeciesId, JokeymonSpeciesData>,
    id: JokeymonSpeciesId,
) -> JokeymonSpeciesData {
    if m.contains_key(id) {
        m[id]
    } else {
        spec_default_species()
    }
}

/// The aggregates of one walk over a region's demographics, split by diet:
/// head counts, herbivore food intake, and species counts per class.
pub struct ClassTotals {
    pub herb_count: nat,
    pub carn_count: nat,
    pub herb_food: nat,
    pub herb_species: nat,
    pub carn_species: nat,
}

/// Partitions demographics entries by diet and aggregates them.
pub open spec fn class_totals(
    s: Seq<(u32, u32)>,
    m: Map<JokeymonSpeciesId, JokeymonSpeciesData>,
) -> ClassTotals
    decreases s.len(),
{
    if s.len() == 0 {
        ClassTotals { herb_count: 0, carn_count: 0, herb_food: 0, herb_species: 0, carn_species: 0 }
    } else {
        let t = class_totals(s.drop_last(), m);
        let e = s.last();
        let d = species_of(m, e.0);
        match d.diet {
            Diet::Herbivore => ClassTotals {
                herb_count: t.herb_count + e.1 as nat,
                carn_count: t.carn_count,
                herb_food: t.herb_food + (e.1 * d.avg_daily_food_consumption) as nat,
                herb_species: t.herb_species + 1,
                carn_species: t.carn_species,
            },
            Diet::Carnivore => ClassTotals {
                herb_count: t.herb_count,
                carn_count: t.carn_count + e.1 as nat,
                herb_food: t.herb_food,
                herb_species: t.herb_species,
                carn_species: t.carn_species + 1,
            },
        }
    }
}

/// The two head counts together are exactly the demographic sum.
pub proof fn lemma_class_totals_sum(s: Seq<(u32, u32)>, m: Map<
    JokeymonSpeciesId,
    JokeymonSpeciesData,
>)
    ensures
        class_totals(s, m).herb_count + class_totals(s, m).carn_count == sum_counts(s),
    decreases s.len(),
{
    if s.len() > 0 {
        lemma_class_totals_sum(s.drop_last(), m);
    }
}

/// Food intake is bounded by one maximal daily need per head.
pub proof fn lemma_class_totals_food_bound(s: Seq<(u32, u32)>, m: Map<
    JokeymonSpeciesId,
    JokeymonSpeciesData,
>)
    ensures
        class_totals(s, m).herb_food <= class_totals(s, m).herb_count * (u16::MAX as nat),
    decreases s.len(),
{
    if s.len() > 0 {
        lemma_class_totals_food_bound(s.drop_last(), m);
        let t = class_totals(s.drop_last(), m);
        let e = s.last();
        let d = species_of(m, e.0);
        if d.diet == Diet::Herbivore {
            assert(e.1 * d.avg_daily_food_consumption <= e.1 * (u16::MAX as nat)) by {
                vstd::arithmetic::mul::lemma_mul_inequality(
                    d.avg_daily_food_consumption as int,
                    u16::MAX as int,
                    e.1 as int,
                );
                vstd::arithmetic::mul::lemma_mul_is_commutative(
                    e.1 as int,
                    d.avg_daily_food_consumption as int,
                );
                vstd::arithmetic::mul::lemma_mul_is_commutative(e.1 as int, u16::MAX as int);
            }
            assert((t.herb_count + e.1) * (u16::MAX as nat) == t.herb_count * (u16::MAX as nat)
                + e.1 * (u16::MAX as nat)) by {
                vstd::arithmetic::mul::lemma_mul_is_distributive_add_other_way(
                    u16::MAX as int,
                    t.herb_count as int,
                    e.1 as int,
                );
            }
        }
    }
}

/// Both species counters together count every entry once.
pub proof fn lemma_class_totals_species(s: Seq<(u32, u32)>, m: Map<
    JokeymonSpeciesId,
    JokeymonSpeciesData,
>)
    ensures
        class_totals(s, m).herb_species + class_totals(s, m).carn_species == s.len(),
    decreases s.len(),
{
    if s.len() > 0 {
        lemma_class_totals_species(s.drop_last(), m);
    }
}

/// A demographic prefix never sums to more than the whole sequence.
pub proof fn lemma_sum_counts_take_le(s: Seq<(u32, u32)>, i: int)
    requires
        0 <= i <= s.len(),
    ensures
        sum_counts(s.take(i)) <= sum_counts(s),
    decreases s.len() - i,
{
    if i == s.len() {
        assert(s.take(i) =~= s);
    } else {
        lemma_sum_counts_take_le(s, i + 1);
        assert(s.take(i + 1).drop_last() =~= s.take(i));
        assert(s.take(i + 1).last() == s[i]);
    }
}

/// Multiplication that stops at the largest `u128` value.
pub open spec fn sat_mul_u128(a: nat, b: nat) -> nat {
    if a * b > u128::MAX {
        u128::MAX as nat
    } else {
        a * b
    }
}

/// Saturating `u128` multiplication, exactly [`sat_mul_u128`].
pub fn sat_mul(a: u128, b: u128) -> (r: u128)
    ensures
        r as nat == sat_mul_u128(a as nat, b as nat),
{
    if b == 0 {
        proof {
            vstd::arithmetic::mul::lemma_mul_by_zero_is_zero(a as int);
        }
        0
    } else if a <= u128::MAX / b {
        proof {
            vstd::arithmetic::div_mod::lemma_fundamental_div_mod(u128::MAX as int, b as int);
            vstd::arithmetic::div_mod::lemma_mod_bound(u128::MAX as int, b as int);
            vstd::arithmetic::mul::lemma_mul_inequality(
                a as int,
                (u128::MAX / b) as int,
                b as int,
            );
            vstd::arithmetic::mul::lemma_mul_is_commutative((u128::MAX / b) as int, b as int);
        }
        a * b
    } else {
        proof {
            vstd::arithmetic::div_mod::lemma_fundamental_div_mod(u128::MAX as int, b as int);
            vstd::arithmetic::div_mod::lemma_mod_bound(u128::MAX as int, b as int);
            vstd::arithmetic::mul::lemma_mul_inequality(
                (u128::MAX / b + 1) as int,
                a as int,
                b as int,
            );
            vstd::arithmetic::mul::lemma_mul_is_distributive_add_other_way(
                b as int,
                (u128::MAX / b) as int,
                1,
            );
            vstd::arithmetic::mul::lemma_mul_is_commutative((u128::MAX / b) as int, b as int);
        }
        u128::MAX
    }
}

/// The per-species herbivore delta for one tick: direction (`true` for
/// growth) and magnitude. Mirrors `α·H·(1 − H/K) − β·H·C` with the
/// carrying capacity `K = energy / food intake`, every division guarded:
/// zero intake makes the capacity unbounded, the capacity is floored at
/// one, and a class with no species contributes no delta.
pub open spec fn herb_shift(t: ClassTotals, energy: nat, cfg: Config) -> (bool, nat) {
    if t.herb_species == 0 {
        (true, 0)
    } else {
        let whole = PARTS_PER_WHOLE as nat;
        let growth = cfg.growth_rate as nat;
        let gain = if t.herb_food == 0 {
            sat_mul_u128(growth, t.herb_count) / whole
        } else {
            let k = if energy / t.herb_food > 0 {
                energy / t.herb_food
            } else {
                1
            };
            if t.herb_count <= k {
                sat_mul_u128(sat_mul_u128(growth, t.herb_count), (k - t.herb_count) as nat) / k
                    / whole
            } else {
                0
            }
        };
        let starve = if t.herb_food == 0 {
            0
        } else {
            let k = if energy / t.herb_food > 0 {
                energy / t.herb_food
            } else {
                1
            };
            if t.herb_count > k {
                sat_mul_u128(sat_mul_u128(growth, t.herb_count), (t.herb_count - k) as nat) / k
                    / whole
            } else {
                0
            }
        };
        let prey_loss = sat_mul_u128(
            sat_mul_u128(cfg.predation_rate as nat, t.herb_count),
            t.carn_count,
        ) / whole;
        let loss = starve + prey_loss;
        if gain >= loss {
            (true, ((gain - loss) as nat) / t.herb_species)
        } else {
            (false, ((loss - gain) as nat) / t.herb_species)
        }
    }
}

/// The per-species carnivore delta for one tick: direction and magnitude.
/// Mirrors `δ·H·C − γ·C`, with a class without species contributing no
/// delta.
pub open spec fn carn_shift(t: ClassTotals, cfg: Config) -> (bool, nat) {
    if t.carn_species == 0 {
        (true, 0)
    } else {
        let whole = PARTS_PER_WHOLE as nat;
        let gain = sat_mul_u128(
            sat_mul_u128(cfg.conversion_rate as nat, t.herb_count),
            t.carn_count,
        ) / whole;
        let loss = sat_mul_u128(cfg.death_rate as nat, t.carn_count) / whole;
        if gain >= loss {
            (true, ((gain - loss) as nat) / t.carn_species)
        } else {
            (false, ((loss - gain) as nat) / t.carn_species)
        }
    }
}

/// One species count after its class delta is applied: grown counts stop
/// at the largest representable count, shrunk counts are floored at zero.
pub open spec fn shifted_count(p: u32, up: bool, per: nat) -> u32 {
    if up {
        if p + per > u32::MAX {
            u32::MAX
        } else {
            (p + per) as u32
        }
    } else {
        if per >= p {
            0
        } else {
            (p - per) as u32
        }
    }
}

/// Applies a class delta to one count, exactly [`shifted_count`].
pub fn shift_apply(p: u32, up: bool, per: u128) -> (r: u32)
    ensures
        r == shifted_count(p, up, per as nat),
{
    if up {
        if per > (u32::MAX - p) as u128 {
            u32::MAX
        } else {
            p + (per as u32)
        }
    } else {
        if per >= p as u128 {
            0
        } else {
            p - (per as u32)
        }
    }
}

/// The rebuilt demographics: every entry's count shifted by its class
/// delta, entries whose count reached zero pruned.
pub open spec fn advanced_entries(
    s: Seq<(u32, u32)>,
    m: Map<JokeymonSpeciesId, JokeymonSpeciesData>,
    hs: (bool, nat),
    cs: (bool, nat),
) -> Seq<(u32, u32)>
    decreases s.len(),
{
    if s.len() == 0 {
        Seq::empty()
    } else {
        let rest = advanced_entries(s.drop_last(), m, hs, cs);
        let e = s.last();
        let np = match species_of(m, e.0).diet {
            Diet::Herbivore => shifted_count(e.1, hs.0, hs.1),
            Diet::Carnivore => shifted_count(e.1, cs.0, cs.1),
        };
        if np == 0 {
            rest
        } else {
            rest.push((e.0, np))
        }
    }
}

/// Entry counts summed over a prefix stay within one maximal count per
/// entry; used to keep the rebuilt total inside `u64`.
proof fn lemma_new_total_fits(s: Seq<(u32, u32)>, bound: int)
    requires
        s.len() < bound,
        bound <= u32::MAX + 1,
    ensures
        sum_counts(s) + u32::MAX < u64::MAX,
{
    crate::bounded::lemma_sum_counts_le(s);
    vstd::arithmetic::mul::lemma_mul_inequality(s.len() as int, bound - 1, u32::MAX as int);
    vstd::arithmetic::mul::lemma_mul_inequality(bound - 1, u32::MAX as int, u32::MAX as int);
}

/// One full dynamics step over a region's demographics: partition,
/// per-class shifts, rebuild with pruning, and the defensive fallback to
/// an empty map should the rebuild not fit the diversity bound.
pub open spec fn spec_advanced(
    s: Seq<(u32, u32)>,
    m: Map<JokeymonSpeciesId, JokeymonSpeciesData>,
    energy: nat,
    capacity: u32,
    cfg: Config,
) -> Seq<(u32, u32)> {
    let t = class_totals(s, m);
    let hs = herb_shift(t, energy, cfg);
    let cs = carn_shift(t, cfg);
    let rebuilt = advanced_entries(s, m, hs, cs);
    if rebuilt.len() > capacity {
        Seq::empty()
    } else {
        rebuilt
    }
}

impl Pallet {
    /// Updates a region's population by one tick of the Lotka–Volterra
    /// model, reading species reference data from this world's registry.
    /// The region's invariant is preserved: the rebuilt demographics hold
    /// no zero counts, stay within the diversity bound, and the cached
    /// total is recomputed as their exact sum.
    pub fn update_regional_population(&self, region: &mut Region)
        requires
            old(region).wf(),
        ensures
            final(region).wf(),
            final(region).id == old(region).id,
            final(region).energy_yield == old(region).energy_yield,
            final(region).latitude == old(region).latitude,
            final(region).longitude == old(region).longitude,
            final(region).population_demographics.capacity == old(region).population_demographics.capacity,
            final(region).population_demographics@ == spec_advanced(
                old(region).population_demographics@,
                self.species@,
                old(region).energy_yield as nat,
                old(region).population_demographics.capacity,
                self.config,
            ),
            final(region).total_population == sum_counts(final(region).population_demographics@),
    {
        let ghost s = old(region).population_demographics@;
        let ghost m = self.species@;
        // partition the current demographics by diet
        let n: usize = region.population_demographics.len();
        let mut herb_total: u64 = 0;
        let mut carn_total: u64 = 0;
        let mut herb_food: u128 = 0;
        let mut herb_species: u64 = 0;
        let mut carn_species: u64 = 0;
        let mut i: usize = 0;
        proof {
            assert(s.take(0) =~= Seq::<(u32, u32)>::empty());
        }
        while i < n
            invariant
                i <= n,
                n == s.len(),
                *region == *old(region),
                old(region).wf(),
                s == region.population_demographics@,
                m == self.species@,
                ({
                    let t = class_totals(s.take(i as int), m);
                    &&& t.herb_count == herb_total as nat
                    &&& t.carn_count == carn_total as nat
                    &&& t.herb_food == herb_food as nat
                    &&& t.herb_species == herb_species as nat
                    &&& t.carn_species == carn_species as nat
                }),
            decreases n - i,
        {
            let e: (u32, u32) = region.population_demographics.entry_at(i);
            let sdata: JokeymonSpeciesData = match self.species.get(&e.0) {
                Some(d) => *d,
                None => JokeymonSpeciesData::default(),
            };
            proof {
                assert(s.take(i + 1).drop_last() =~= s.take(i as int));
                assert(s.take(i + 1).last() == s[i as int]);
                assert(sdata == species_of(m, e.0));
                lemma_class_totals_sum(s.take(i + 1), m);
                lemma_sum_counts_take_le(s, i + 1);
                lemma_class_totals_food_bound(s.take(i + 1), m);
                lemma_class_totals_species(s.take(i + 1), m);
                lemma_class_totals_species(s.take(i as int), m);
                let hc = class_totals(s.take(i + 1), m).herb_count;
                assert(hc * (u16::MAX as nat) <= (u64::MAX as nat) * (u16::MAX as nat)) by {
                    vstd::arithmetic::mul::lemma_mul_inequality(
                        hc as int,
                        u64::MAX as int,
                        u16::MAX as int,
                    );
                }
            }
            match sdata.diet {
                Diet::Herbivore => {
                    herb_total = herb_total + e.1 as u64;
                    herb_food = herb_food + (e.1 as u128) * (
                    sdata.avg_daily_food_consumption as u128);
                    herb_species = herb_species + 1;
                },
                Diet::Carnivore => {
                    carn_total = carn_total + e.1 as u64;
                    carn_species = carn_species + 1;
                },
            }
            i = i + 1;
        }
        proof {
            assert(s.take(n as int) =~= s);
        }
        let ghost t = class_totals(s, m);
        // carrying capacity and per-class, per-species deltas
        let energy: u128 = region.energy_yield as u128;
        let whole: u128 = PARTS_PER_WHOLE as u128;
        let h: u128 = herb_total as u128;
        let c: u128 = carn_total as u128;
        let (h_up, h_per): (bool, u128) = if herb_species == 0 {
            (true, 0u128)
        } else {
            let growth: u128 = self.config.growth_rate as u128;
            let (gain, starve): (u128, u128) = if herb_food == 0 {
                (sat_mul(growth, h) / whole, 0u128)
            } else {
                let k0: u128 = energy / herb_food;
                let k: u128 = if k0 > 0 {
                    k0
                } else {
                    1
                };
                if h <= k {
                    (sat_mul(sat_mul(growth, h), k - h) / k / whole, 0u128)
                } else {
                    (0u128, sat_mul(sat_mul(growth, h), h - k) / k / whole)
                }
            };
            let prey_loss: u128 = sat_mul(sat_mul(self.config.predation_rate as u128, h), c)
                / whole;
            proof {
                let cap128 = u128::MAX as int;
                assert(starve <= cap128 / (whole as int)) by {
                    vstd::arithmetic::div_mod::lemma_div_is_ordered(
                        starve as int * (whole as int),
                        cap128,
                        whole as int,
                    );
                    vstd::arithmetic::div_mod::lemma_div_multiples_vanish(
                        starve as int,
                        whole as int,
                    );
                }
                assert(prey_loss <= cap128 / (whole as int)) by {
                    vstd::arithmetic::div_mod::lemma_div_is_ordered(
                        prey_loss as int * (whole as int),
                        cap128,
                        whole as int,
                    );
                    vstd::arithmetic::div_mod::lemma_div_multiples_vanish(
                        prey_loss as int,
                        whole as int,
                    );
                }
            }
            let loss: u128 = starve + prey_loss;
            if gain >= loss {
                (true, (gain - loss) / (herb_species as u128))
            } else {
                (false, (loss - gain) / (herb_species as u128))
            }
        };
        let (c_up, c_per): (bool, u128) = if carn_species == 0 {
            (true, 0u128)
        } else {
            let gain: u128 = sat_mul(sat_mul(self.config.conversion_rate as u128, h), c) / whole;
            let loss: u128 = sat_mul(self.config.death_rate as u128, c) / whole;
            if gain >= loss {
                (true, (gain - loss) / (carn_species as u128))
            } else {
                (false, (loss - gain) / (carn_species as u128))
            }
        };
        let ghost hs = herb_shift(t, old(region).energy_yield as nat, self.config);
        let ghost cs = carn_shift(t, self.config);
        proof {
            assert(h_up == hs.0 && h_per as nat == hs.1);
            assert(c_up == cs.0 && c_per as nat == cs.1);
        }
        // rebuild the demographics from the shifted counts, pruning zeros
        let mut new_entries: Vec<(u32, u32)> = Vec::new();
        let mut new_total: u64 = 0;
        let mut j: usize = 0;
        proof {
            assert(s.take(0) =~= Seq::<(u32, u32)>::empty());
        }
        while j < n
            invariant
                j <= n,
                n == s.len(),
                *region == *old(region),
                old(region).wf(),
                s == region.population_demographics@,
                m == self.species@,
                hs == herb_shift(class_totals(s, m), old(region).energy_yield as nat, self.config),
                cs == carn_shift(class_totals(s, m), self.config),
                h_up == hs.0 && h_per as nat == hs.1,
                c_up == cs.0 && c_per as nat == cs.1,
                new_entries@ == advanced_entries(s.take(j as int), m, hs, cs),
                new_total as nat == sum_counts(new_entries@),
                new_entries@.len() <= j,
                forall|a: int| 0 <= a < new_entries@.len() ==> (#[trigger] new_entries@[a]).1 > 0,
                forall|a: int|
                    0 <= a < new_entries@.len() ==> (#[trigger] new_entries@[a]).0 != NO_SPECIES,
                forall|a: int, b: int|
                    0 <= a < b < new_entries@.len() ==> new_entries@[a].0 < new_entries@[b].0,
                forall|a: int, k: int|
                    0 <= a < new_entries@.len() && j <= k < n ==> (#[trigger] new_entries@[a]).0 < (
                    #[trigger] s[k]).0,
            decreases n - j,
        {
            let e: (u32, u32) = region.population_demographics.entry_at(j);
            let sdata: JokeymonSpeciesData = match self.species.get(&e.0) {
                Some(d) => *d,
                None => JokeymonSpeciesData::default(),
            };
            proof {
                assert(sdata == species_of(m, e.0));
            }
            let np: u32 = match sdata.diet {
                Diet::Herbivore => shift_apply(e.1, h_up, h_per),
                Diet::Carnivore => shift_apply(e.1, c_up, c_per),
            };
            if np > 0 {
                proof {
                    lemma_new_total_fits(new_entries@, n as int);
                }
                let ghost prev = new_entries@;
                new_entries.push((e.0, np));
                proof {
                    assert(new_entries@.drop_last() =~= prev);
                    assert(new_entries@.last() == (e.0, np));
                }
                new_total = new_total + np as u64;
            }
            proof {
                assert(s.take(j + 1).drop_last() =~= s.take(j as int));
                assert(s.take(j + 1).last() == s[j as int]);
            }
            j = j + 1;
        }
        proof {
            assert(s.take(n as int) =~= s);
        }
        // defensively keep the diversity bound: a rebuild that cannot fit
        // falls back to an empty map (it cannot occur: no new species are
        // introduced)
        if new_entries.len() > region.population_demographics.capacity as usize {
            region.population_demographics.entries = Vec::new();
            region.total_population = 0;
        } else {
            region.population_demographics.entries = new_entries;
            region.total_population = new_total;
        }
    }

    /// Advances the population of one stored region by one tick, as the
    /// external scheduler requests. An unknown region id is refused and
    /// nothing changes.
    pub fn advance_population(&mut self, region_id: RegionId) -> (r: Result<(), ()>)
        requires
            old(self).wf(),
        ensures
            final(self).wf(),
            final(self).config == old(self).config,
            final(self).random_nonce == old(self).random_nonce,
            final(self).jokeymon_id_nonce == old(self).jokeymon_id_nonce,
            final(self).block_number == old(self).block_number,
            final(self).accounts@ == old(self).accounts@,
            final(self).jokeymon@ == old(self).jokeymon@,
            final(self).species@ == old(self).species@,
            !old(self).regions@.contains_key(region_id) ==> r == Err::<(), ()>(()) && final(self).regions@ == old(self).regions@,
            old(self).regions@.contains_key(region_id) ==> r == Ok::<(), ()>(()) && ({
                let before = old(self).regions@[region_id];
                let after = final(self).regions@[region_id];
                &&& final(self).regions@.dom() == old(self).regions@.dom()
                &&& forall|id2: RegionId| #![auto]
                    old(self).regions@.contains_key(id2) && id2 != region_id ==> final(self).regions@[id2] == old(self).regions@[id2]
                &&& after.id == before.id
                &&& after.energy_yield == before.energy_yield
                &&& after.latitude == before.latitude
                &&& after.longitude == before.longitude
                &&& after.population_demographics@ == spec_advanced(
                    before.population_demographics@,
                    old(self).species@,
                    before.energy_yield as nat,
                    before.population_demographics.capacity,
                    old(self).config,
                )
                &&& after.total_population == sum_counts(after.population_demographics@)
            }),
    {
        let mut region: Region = match self.regions.remove(&region_id) {
            Some(region) => region,
            None => {
                return Err(());
            },
        };
        self.update_regional_population(&mut region);
        self.regions.insert(region_id, region);
        Ok(())
    }
}

} // verus!
