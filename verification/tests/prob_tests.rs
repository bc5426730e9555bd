use omni::pallet::Pallet;
use omni::prob::{Probability, PARTS_PER_WHOLE};

#[test]
fn zero_and_one_are_the_bounds() {
    assert_eq!(Probability::zero().parts, 0);
    assert_eq!(Probability::one().parts, PARTS_PER_WHOLE);
}

#[test]
fn from_ratio_rounds_up_and_clamps() {
    assert_eq!(Probability::from_ratio(0, 7).parts, 0);
    assert_eq!(Probability::from_ratio(1, 2).parts, 500_000);
    // one third rounds up to the next part
    assert_eq!(Probability::from_ratio(1, 3).parts, 333_334);
    assert_eq!(Probability::from_ratio(150, 450).parts, 333_334);
    // a ratio of at least one clamps to one whole
    assert_eq!(Probability::from_ratio(5, 5).parts, PARTS_PER_WHOLE);
    assert_eq!(Probability::from_ratio(9, 5).parts, PARTS_PER_WHOLE);
    // tiny shares still get one part
    assert_eq!(Probability::from_ratio(1, u64::MAX).parts, 1);
}

#[test]
fn saturating_sub_stops_exactly_at_zero() {
    let a = Probability::from_ratio(3, 10);
    let b = Probability::from_ratio(5, 10);
    assert_eq!(a.saturating_sub(b), Probability::zero());
    assert_eq!(b.saturating_sub(a).parts, 200_000);
    // repeated subtraction of thirds reaches exact zero
    let third = Probability::from_ratio(1, 3);
    let rest = Probability::one()
        .saturating_sub(third)
        .saturating_sub(third)
        .saturating_sub(third);
    assert_eq!(rest, Probability::zero());
}

#[test]
fn saturating_add_stops_exactly_at_one() {
    let half = Probability::from_ratio(1, 2);
    assert_eq!(half.saturating_add(half), Probability::one());
    assert_eq!(Probability::one().saturating_add(half), Probability::one());
    let a = Probability::from_parts(300_000);
    let b = Probability::from_parts(400_000);
    assert_eq!(a.saturating_add(b).parts, 700_000);
}

#[test]
fn from_parts_clamps_to_one() {
    assert_eq!(Probability::from_parts(123).parts, 123);
    assert_eq!(Probability::from_parts(2 * PARTS_PER_WHOLE).parts, PARTS_PER_WHOLE);
}

#[test]
fn entropy_maps_onto_the_unit_interval() {
    assert_eq!(Pallet::get_random_number(0).parts, 0);
    assert_eq!(Pallet::get_random_number(u32::MAX).parts, PARTS_PER_WHOLE);
    assert_eq!(Pallet::get_random_number(u32::MAX / 2).parts, 500_000);
}
