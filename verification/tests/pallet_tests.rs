use omni::bounded::BoundedMap;
use omni::pallet::{Config, Error, Event, GenesisConfig, Pallet};
use omni::prob::Probability;
use omni::types::{Diet, JokeymonSpeciesData, Region};

const MAX_SPECIES_IN_REGION: u32 = 50;
const MAX_JOKEYMON_HOLDABLE: u32 = 100;

fn test_config() -> Config {
    Config {
        max_species_in_region: MAX_SPECIES_IN_REGION,
        max_jokeymon_holdable: MAX_JOKEYMON_HOLDABLE,
        growth_rate: 80_000,
        predation_rate: 160,
        conversion_rate: 100,
        death_rate: 20_000,
    }
}

fn get_test_region() -> Region {
    let mut map = BoundedMap::new(MAX_SPECIES_IN_REGION);
    map.try_insert(0u32, 150).unwrap();
    map.try_insert(1u32, 150).unwrap();
    map.try_insert(2u32, 150).unwrap();
    let mut region = Region::new(0, MAX_SPECIES_IN_REGION);
    region.total_population = 450;
    region.population_demographics = map;
    region.energy_yield = 1_000_000;
    region
}

fn set_species_data(
    pallet: &mut Pallet,
    id: u32,
    avg_weight: u16,
    avg_daily_food_consumption: u16,
    diet: Diet,
    evolves_to: Option<u32>,
) {
    pallet.set_species_data(
        id,
        JokeymonSpeciesData { id, avg_weight, avg_daily_food_consumption, diet, evolves_to },
    );
}

fn new_test_pallet() -> Pallet {
    let mut pallet = Pallet::new(test_config());
    pallet.set_block_number(1);
    pallet.set_region(0, get_test_region());
    set_species_data(&mut pallet, 0, 10, 10, Diet::Herbivore, Some(1));
    set_species_data(&mut pallet, 1, 20, 25, Diet::Herbivore, Some(2));
    set_species_data(&mut pallet, 2, 30, 45, Diet::Carnivore, None);
    pallet
}

// ---- Population Dynamics ----

#[test]
fn population_remains_stable() {
    let pallet = new_test_pallet();
    let mut region = get_test_region();
    for _ in 0..10_000 {
        pallet.update_regional_population(&mut region);
    }
    println!("{:?}", region.population_demographics);
    assert!(region.total_population > 0);
    assert!(region.total_population < 1000);
}

// ---- Catch Flow ----

#[test]
fn random_nonces_are_updated() {
    let mut pallet = new_test_pallet();
    // Check nonce value
    assert_eq!(pallet.random_nonce, 0);
    assert_eq!(pallet.jokeymon_id_nonce, 0);
    // Dispatch a catch
    let _ = pallet.catch_jokeymon(1, 0);
    // Check nonce again
    assert_eq!(pallet.random_nonce, 1);
    assert_eq!(pallet.jokeymon_id_nonce, 1);
}

#[test]
fn catch_works_at_bounds() {
    let region = get_test_region();
    // lower bound
    let mut id = Pallet::get_jokeymon_in_region(&region, Probability::zero());
    assert_ne!(id, u32::MAX);
    // upper bound
    id = Pallet::get_jokeymon_in_region(&region, Probability::one());
    assert_ne!(id, u32::MAX);
}

#[test]
fn jokeymon_catching_works() {
    let mut pallet = new_test_pallet();

    // before
    let held_before = pallet.account_data(0).map(|a| a.jokeymon.len()).unwrap_or(0);
    assert_eq!(held_before, 0);

    // catch
    let _ = pallet.catch_jokeymon(0, 0);

    // after
    let held_after = pallet.account_data(0).map(|a| a.jokeymon.len()).unwrap_or(0);
    assert_eq!(held_after, 1);
}

#[test]
fn birthdate_works() {
    let mut pallet = new_test_pallet();
    pallet.set_block_number(10);
    // catch
    let _ = pallet.catch_jokeymon(0, 0);
    // check
    let jokeymon_id = {
        let account_data = pallet.account_data(0).unwrap();
        account_data.jokeymon.get(0)
    };
    let jokeymon_data = pallet
        .jokeymon_data(jokeymon_id)
        .expect("Jokeymon individual data wasn't set!");
    assert_eq!(jokeymon_data.birth_date, 10);
}

#[test]
fn catching_too_many_fails() {
    let mut pallet = new_test_pallet();
    let bound = MAX_JOKEYMON_HOLDABLE;
    for i in 0..101 {
        let res = pallet.catch_jokeymon(0, 0);
        if i == bound {
            assert_eq!(res, Err(Error::TooManyJokeymon));
        }
    }
}

#[test]
fn depleting_region_works() {
    let mut pallet = new_test_pallet();
    let num_jokeymon = pallet.region(0).unwrap().total_population;

    // catch the entire population
    for i in 0..num_jokeymon {
        let _ = pallet.catch_jokeymon(i, 0);
    }

    // next catch should fail
    assert_eq!(pallet.catch_jokeymon(0, 0), Err(Error::NoCatchableJokeymon));
}

#[test]
fn decrement_species_should_work() {
    let mut region = get_test_region();

    // decrement non saturating
    assert_eq!(region.population_demographics.get(0), Some(150));
    Pallet::decrement_species_in_population(&mut region, 0, 1);
    assert_eq!(region.population_demographics.get(0), Some(149));

    // decrement saturating, key should no longer exist
    Pallet::decrement_species_in_population(&mut region, 0, 200);
    assert!(!region.population_demographics.contains_key(0));
    assert_eq!(region.total_population, 300);
}

#[test]
fn increment_species_should_work() {
    let mut region = get_test_region();

    // increment non new
    assert_eq!(region.population_demographics.get(0), Some(150));
    let _ = Pallet::increment_species_in_population(&mut region, 0, 1);
    assert_eq!(region.population_demographics.get(0), Some(151));

    // increment new species
    assert!(!region.population_demographics.contains_key(3));
    let _ = Pallet::increment_species_in_population(&mut region, 3, 100);
    assert!(region.population_demographics.contains_key(3));
    assert_eq!(region.population_demographics.get(3), Some(100));
    assert_eq!(region.total_population, 551);

    // add too many species
    let max_species = MAX_SPECIES_IN_REGION;
    for i in 4..max_species {
        let _ = Pallet::increment_species_in_population(&mut region, i, 1);
    }
    let res = Pallet::increment_species_in_population(&mut region, max_species + 1, 1);
    assert!(res.is_err());
    assert_eq!(res.unwrap_err(), Error::RegionSpeciesDiversitySaturated);
}

#[test]
fn incrementing_zero_of_a_new_species_in_a_full_region_fails() {
    let mut region = Region::new(0, 3);
    for id in 0..3u32 {
        Pallet::increment_species_in_population(&mut region, id, 10).unwrap();
    }
    // the bound decides alone: even an increment of zero may not
    // introduce a species into a saturated region
    let res = Pallet::increment_species_in_population(&mut region, 9, 0);
    assert_eq!(res, Err(Error::RegionSpeciesDiversitySaturated));
    assert_eq!(region.total_population, 30);
    // below the bound, adding zero of an absent species changes nothing
    let mut roomy = Region::new(0, 3);
    Pallet::increment_species_in_population(&mut roomy, 1, 10).unwrap();
    assert_eq!(Pallet::increment_species_in_population(&mut roomy, 9, 0), Ok(()));
    assert!(!roomy.population_demographics.contains_key(9));
    assert_eq!(roomy.total_population, 10);
}

// ---- further capture behaviour ----

#[test]
fn capture_reports_species_and_id() {
    let mut pallet = new_test_pallet();
    pallet.set_block_number(3);
    // a roll of zero lands on the first species in id order
    let event = pallet.catch_jokeymon(7, 0).unwrap();
    assert_eq!(
        event,
        Event::JokeymonCaptured { species_id: 0, jokeymon_id: 0, who: 7 }
    );
    let data = pallet.jokeymon_data(0).unwrap();
    assert_eq!(data.id, 0);
    assert_eq!(data.birth_date, 3);
    // the region was debited by exactly one head of that species
    let region = pallet.region(0).unwrap();
    assert_eq!(region.total_population, 449);
    assert_eq!(region.population_demographics.get(0), Some(149));
}

#[test]
fn failed_capture_leaves_state_unchanged() {
    let mut pallet = new_test_pallet();
    for _ in 0..MAX_JOKEYMON_HOLDABLE {
        pallet.catch_jokeymon(0, 0).unwrap();
    }
    let total_before = pallet.region(0).unwrap().total_population;
    let id_nonce_before = pallet.jokeymon_id_nonce;
    let res = pallet.catch_jokeymon(0, 0);
    assert_eq!(res, Err(Error::TooManyJokeymon));
    // the account's list, the region and the individual registry are untouched
    assert_eq!(
        pallet.account_data(0).unwrap().jokeymon.len(),
        MAX_JOKEYMON_HOLDABLE as usize
    );
    assert_eq!(pallet.region(0).unwrap().total_population, total_before);
    assert_eq!(pallet.jokeymon_id_nonce, id_nonce_before);
}

#[test]
fn capture_in_unknown_region_fails() {
    let mut pallet = Pallet::new(test_config());
    let res = pallet.catch_jokeymon(0, 0);
    assert_eq!(res, Err(Error::NoCatchableJokeymon));
    // the attempt still consumed one randomness seed
    assert_eq!(pallet.random_nonce, 1);
    assert_eq!(pallet.jokeymon_id_nonce, 0);
}

#[test]
fn mid_roll_selects_second_species() {
    let region = get_test_region();
    // each share is 333334 parts rounded up, plus one epsilon part on the
    // first species; half the whole lands on the second species
    let roll = Probability::from_ratio(1, 2);
    let id = Pallet::get_jokeymon_in_region(&region, roll);
    assert_eq!(id, 1);
}

#[test]
fn selecting_from_empty_region_gives_sentinel() {
    let region = Region::new(9, MAX_SPECIES_IN_REGION);
    let id = Pallet::get_jokeymon_in_region(&region, Probability::zero());
    assert_eq!(id, u32::MAX);
}

// ---- invariants on concrete runs ----

fn demographic_sum(region: &Region) -> u64 {
    let mut sum: u64 = 0;
    for i in 0..region.population_demographics.len() {
        let entry = region.population_demographics.entry_at(i);
        assert!(entry.1 > 0, "zero count persisted in demographics");
        sum += entry.1 as u64;
    }
    sum
}

#[test]
fn total_population_matches_demographics_after_operations() {
    let mut pallet = new_test_pallet();
    for who in 0..5 {
        pallet.catch_jokeymon(who, who as u32 * 1_000_000).unwrap();
        let region = pallet.region(0).unwrap();
        assert_eq!(region.total_population, demographic_sum(region));
    }
    let mut region = get_test_region();
    for _ in 0..25 {
        pallet.update_regional_population(&mut region);
        assert_eq!(region.total_population, demographic_sum(&region));
    }
    Pallet::decrement_species_in_population(&mut region, 1, 17);
    assert_eq!(region.total_population, demographic_sum(&region));
    let _ = Pallet::increment_species_in_population(&mut region, 30, 12);
    assert_eq!(region.total_population, demographic_sum(&region));
}

// ---- dynamics details ----

#[test]
fn one_tick_matches_the_model() {
    let pallet = new_test_pallet();
    let mut region = get_test_region();
    // H = 300, C = 150, intake = 150*10 + 150*25 = 5250, K = 1000000/5250
    // = 190; growth is zero (300/190 truncates the logistic gain away,
    // and the overshoot loss and predation dominate)
    pallet.update_regional_population(&mut region);
    assert_eq!(region.population_demographics.get(0), Some(140));
    assert_eq!(region.population_demographics.get(1), Some(140));
    assert_eq!(region.population_demographics.get(2), Some(151));
    assert_eq!(region.total_population, 431);
}

#[test]
fn advance_population_updates_stored_region() {
    let mut pallet = new_test_pallet();
    let before = pallet.region(0).unwrap().total_population;
    assert_eq!(pallet.advance_population(0), Ok(()));
    let after = pallet.region(0).unwrap().total_population;
    assert_ne!(before, after);
    assert_eq!(after, 431);
}

#[test]
fn advance_population_of_unknown_region_fails() {
    let mut pallet = new_test_pallet();
    assert_eq!(pallet.advance_population(42), Err(()));
}

#[test]
fn dynamics_without_species_data_treats_all_as_herbivores() {
    // no species records loaded: every entry reads as a herbivore with no
    // food need, the capacity is unbounded and growth is pure gain
    let mut pallet = Pallet::new(test_config());
    pallet.set_region(0, get_test_region());
    let mut region = get_test_region();
    pallet.update_regional_population(&mut region);
    // alpha = 0.08: dH = 0.08 * 450 = 36, split over three species
    assert_eq!(region.population_demographics.get(0), Some(162));
    assert_eq!(region.population_demographics.get(1), Some(162));
    assert_eq!(region.population_demographics.get(2), Some(162));
    assert_eq!(region.total_population, 486);
}

// ---- genesis ----

#[test]
fn genesis_build_stores_regions() {
    let mut pallet = Pallet::new(test_config());
    let genesis = GenesisConfig { region_id_to_region: vec![(0, get_test_region())] };
    genesis.build(&mut pallet);
    assert_eq!(pallet.region(0).unwrap().total_population, 450);
    assert!(pallet.region(1).is_none());
}

#[test]
fn default_genesis_is_empty() {
    let genesis = GenesisConfig::default();
    assert_eq!(genesis.region_id_to_region.len(), 0);
}
