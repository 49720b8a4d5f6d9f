use neuracle::address::{ComponentAddress, ResourceAddress};
use neuracle::decimal::Decimal;
use neuracle::utilities::{
    assert_fee, assert_resource, check_fee, check_resource, fee_error_message, tally_fits_check,
    vote_for_api,
    Ballot, ResourceError,
};

const ONE: i128 = 1_000_000_000_000_000_000;

fn units(n: i128) -> Decimal {
    Decimal { raw: n * ONE }
}

fn ballot(id: u128, weight: i128, active: bool, approves: bool) -> Ballot {
    Ballot { validator: ComponentAddress { id }, weight: units(weight), active, approves }
}

#[test]
fn check_resource_accepts_matching_and_sufficient() {
    let r = ResourceAddress { id: 7 };
    assert_eq!(check_resource(r, r, units(5), units(5)), Ok(()));
    assert_eq!(check_resource(r, r, units(6), units(5)), Ok(()));
    assert_resource(r, r, units(6), units(5));
}

#[test]
fn check_resource_wrong_resource_comes_first() {
    let r = ResourceAddress { id: 7 };
    let other = ResourceAddress { id: 8 };
    assert_eq!(check_resource(r, other, units(1), units(5)), Err(ResourceError::WrongResource));
    assert_eq!(ResourceError::WrongResource.message(), "Wrong resource address.");
}

#[test]
fn check_resource_not_enough() {
    let r = ResourceAddress { id: 7 };
    assert_eq!(check_resource(r, r, units(4), units(5)), Err(ResourceError::NotEnoughResource));
    assert_eq!(ResourceError::NotEnoughResource.message(), "Not enough resource.");
}

#[test]
fn fee_range_includes_both_ends() {
    assert!(check_fee(units(0)));
    assert!(check_fee(units(100)));
    assert!(check_fee(Decimal { raw: 300_000_000_000_000_000 }));
    assert!(!check_fee(Decimal { raw: -1 }));
    assert!(!check_fee(Decimal { raw: 100 * ONE + 1 }));
    assert_fee(units(50));
    assert_eq!(fee_error_message(), "Fee must be in the range of 0 to 100");
}

#[test]
fn vote_accepts_at_two_thirds_exactly() {
    let ballots = vec![ballot(1, 2, true, true), ballot(2, 1, true, false)];
    assert_eq!(vote_for_api(&ballots), Some(true));
}

#[test]
fn vote_undecided_between_a_third_and_two_thirds() {
    let ballots = vec![ballot(1, 1, true, true), ballot(2, 1, true, false)];
    assert_eq!(vote_for_api(&ballots), None);
    let at_a_third = vec![ballot(1, 1, true, true), ballot(2, 2, true, false)];
    assert_eq!(vote_for_api(&at_a_third), None);
}

#[test]
fn vote_rejects_below_a_third() {
    let ballots = vec![ballot(1, 1, true, true), ballot(2, 3, true, false)];
    assert_eq!(vote_for_api(&ballots), Some(false));
}

#[test]
fn inactive_validators_do_not_count() {
    // the heavy validator is inactive: its approval counts for nothing
    let ballots = vec![ballot(1, 100, false, true), ballot(2, 1, true, false)];
    assert_eq!(vote_for_api(&ballots), Some(false));
    let ballots = vec![ballot(1, 100, false, false), ballot(2, 1, true, true)];
    assert_eq!(vote_for_api(&ballots), Some(true));
}

#[test]
fn vote_with_no_active_weight_is_undecided() {
    // nothing is backed by stake, so nothing is accepted
    assert_eq!(vote_for_api(&vec![]), None);
    assert_eq!(vote_for_api(&vec![ballot(1, 5, false, false)]), None);
    assert_eq!(vote_for_api(&vec![ballot(1, 0, true, false)]), None);
    assert_eq!(vote_for_api(&vec![ballot(1, 0, true, true)]), None);
}

#[test]
fn vote_does_not_depend_on_order() {
    let a = vec![ballot(1, 3, true, true), ballot(2, 2, true, false), ballot(3, 2, true, false)];
    let b = vec![ballot(3, 2, true, false), ballot(1, 3, true, true), ballot(2, 2, true, false)];
    assert_eq!(vote_for_api(&a), vote_for_api(&b));
    assert_eq!(vote_for_api(&a), None);
}

#[test]
fn fractional_weights_tally_exactly() {
    let third = Decimal { raw: 333_333_333_333_333_333 };
    let ballots = vec![
        Ballot { validator: ComponentAddress { id: 1 }, weight: third, active: true, approves: true },
        Ballot { validator: ComponentAddress { id: 2 }, weight: third, active: true, approves: true },
        Ballot { validator: ComponentAddress { id: 3 }, weight: third, active: true, approves: false },
    ];
    assert_eq!(vote_for_api(&ballots), Some(true));
}

#[test]
fn tally_fits_check_spots_overflow() {
    let heavy = Ballot { validator: ComponentAddress { id: 1 }, weight: Decimal { raw: i128::MAX / 2 }, active: true, approves: true };
    let light = Ballot { validator: ComponentAddress { id: 2 }, weight: Decimal { raw: 5 }, active: true, approves: false };
    let idle = Ballot { validator: ComponentAddress { id: 3 }, weight: Decimal { raw: i128::MAX }, active: false, approves: true };
    assert!(tally_fits_check(&vec![]));
    assert!(tally_fits_check(&vec![light, idle]));
    // twice the total no longer fits
    assert!(!tally_fits_check(&vec![heavy, light]));
    // three times the approving weight no longer fits
    assert!(!tally_fits_check(&vec![heavy]));
    let small = Ballot { weight: Decimal { raw: i128::MAX / 4 }, ..heavy };
    assert!(tally_fits_check(&vec![small, light]));
    assert_eq!(vote_for_api(&vec![small, light]), Some(true));
}

#[test]
fn an_inactive_ballot_changes_nothing() {
    let base = vec![ballot(1, 2, true, true), ballot(2, 1, true, false)];
    let mut with_idle = base.clone();
    with_idle.insert(1, ballot(3, 100, false, false));
    assert_eq!(vote_for_api(&base), Some(true));
    assert_eq!(vote_for_api(&with_idle), Some(true));
}

#[test]
fn a_new_yes_never_lowers_the_verdict() {
    let rejected = vec![ballot(1, 1, true, true), ballot(2, 3, true, false)];
    assert_eq!(vote_for_api(&rejected), Some(false));
    let flipped = vec![ballot(1, 1, true, true), ballot(2, 3, true, true)];
    assert_eq!(vote_for_api(&flipped), Some(true));
    let undecided = vec![ballot(1, 2, true, true), ballot(2, 3, true, false)];
    assert_eq!(vote_for_api(&undecided), None);
    let one_more = vec![ballot(1, 2, true, true), ballot(2, 3, true, true)];
    assert_eq!(vote_for_api(&one_more), Some(true));
}

#[test]
fn turning_every_vote_around_swaps_the_verdict() {
    let a = vec![ballot(1, 5, true, true), ballot(2, 1, true, false), ballot(3, 9, false, true)];
    let b = vec![ballot(1, 5, true, false), ballot(2, 1, true, true), ballot(3, 9, false, false)];
    assert_eq!(vote_for_api(&a), Some(true));
    assert_eq!(vote_for_api(&b), Some(false));
    let c = vec![ballot(1, 5, true, true), ballot(2, 4, true, false)];
    let d = vec![ballot(1, 5, true, false), ballot(2, 4, true, true)];
    assert_eq!(vote_for_api(&c), None);
    assert_eq!(vote_for_api(&d), None);
}
