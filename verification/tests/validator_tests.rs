use neuracle::address::ResourceAddress;
use neuracle::decimal::Decimal;
use neuracle::utilities::ResourceError;
use neuracle::validator::{mature, NonFungibleId, Staker, Validator, ValidatorError};

const ONE: i128 = 1_000_000_000_000_000_000;
const NEURA: ResourceAddress = ResourceAddress { id: 1 };
const BADGE: ResourceAddress = ResourceAddress { id: 2 };

fn units(n: i128) -> Decimal {
    Decimal { raw: n * ONE }
}

fn milli(n: i128) -> Decimal {
    Decimal { raw: n * (ONE / 1000) }
}

fn validator() -> Validator {
    match Validator::new(NEURA, BADGE, String::from("node"), units(10), 500) {
        Ok(v) => v,
        Err(e) => panic!("{:?}", e),
    }
}

fn err<T>(r: Result<T, ValidatorError>) -> ValidatorError {
    match r {
        Ok(_) => panic!("expected an error"),
        Err(e) => e,
    }
}

const ID: NonFungibleId = NonFungibleId { id: 42 };

#[test]
fn new_keeps_fee_as_fraction() {
    let v = validator();
    assert_eq!(v.fee, milli(100));
    assert!(!v.active);
    assert_eq!(err(Validator::new(NEURA, BADGE, String::from("x"), units(-1), 0)), ValidatorError::FeeOutOfRange);
}

#[test]
fn stake_and_add_stake() {
    let mut v = validator();
    let data = v.stake(NEURA, units(100), ID).unwrap();
    assert_eq!(data, Staker { unstaking: units(0), end: 0, unstaked: units(0) });
    assert_eq!(v.staked, units(100));
    assert_eq!(v.share_of(ID), Some(units(100)));
    assert_eq!(v.add_stake(NEURA, units(20), BADGE, units(1), ID), Ok(()));
    assert_eq!(v.share_of(ID), Some(units(120)));
    assert_eq!(v.staked, units(120));
    // an unknown badge adds to the stake but to no share
    assert_eq!(v.add_stake(NEURA, units(5), BADGE, units(1), NonFungibleId { id: 7 }), Ok(()));
    assert_eq!(v.share_of(NonFungibleId { id: 7 }), None);
    assert_eq!(v.get_current_staked_value(), units(125));
}

#[test]
fn stake_refusals() {
    let mut v = validator();
    assert_eq!(err(v.stake(BADGE, units(1), ID)), ValidatorError::Resource(ResourceError::WrongResource));
    assert_eq!(err(v.stake(NEURA, Decimal { raw: -1 }, ID)), ValidatorError::Resource(ResourceError::NotEnoughResource));
    assert_eq!(err(v.add_stake(NEURA, units(1), NEURA, units(1), ID)), ValidatorError::Resource(ResourceError::WrongResource));
    assert_eq!(err(v.add_stake(BADGE, units(1), BADGE, units(1), ID)), ValidatorError::Resource(ResourceError::WrongResource));
    assert_eq!(v.staked, units(0));
}

#[test]
fn unstake_then_withdraw_after_delay() {
    let mut v = validator();
    let data = v.stake(NEURA, units(100), ID).unwrap();
    let data = v.unstake(units(30), BADGE, units(1), ID, data, 10).unwrap();
    assert_eq!(data, Staker { unstaking: units(30), end: 510, unstaked: units(0) });
    assert_eq!(v.share_of(ID), Some(units(70)));
    assert_eq!(v.staked, units(70));
    assert_eq!(v.unstaking, units(30));
    // still locked before the end
    assert_eq!(err(v.withdraw(units(1), BADGE, units(1), data, 509)), ValidatorError::NotEnoughUnstaked);
    let (out, data2) = v.withdraw(units(30), BADGE, units(1), data, 510).unwrap();
    assert_eq!(out, units(30));
    assert_eq!(data2, Staker { unstaking: units(0), end: 510, unstaked: units(30) });
    assert_eq!(v.unstaking, units(0));
}

#[test]
fn unstake_refusals() {
    let mut v = validator();
    let data = v.stake(NEURA, units(100), ID).unwrap();
    assert_eq!(err(v.unstake(units(101), BADGE, units(1), ID, data, 10)), ValidatorError::NotEnoughStaked);
    let data = v.unstake(units(10), BADGE, units(1), ID, data, 10).unwrap();
    assert_eq!(err(v.unstake(units(10), BADGE, units(1), ID, data, 11)), ValidatorError::StillUnstaking);
    assert_eq!(err(v.unstake(units(10), NEURA, units(1), ID, data, 11)), ValidatorError::Resource(ResourceError::WrongResource));
    assert_eq!(ValidatorError::StillUnstaking.message(), "You must wait or stop unstaking before start unstake again");
    assert_eq!(ValidatorError::NotEnoughStaked.message(), "Not enough amount for unstake.");
    // once the unstaking is complete, a new one may start
    assert!(v.unstake(units(10), BADGE, units(1), ID, data, 510).is_ok());
}

#[test]
fn stop_unstake_undoes_unstake() {
    let mut v = validator();
    let data = v.stake(NEURA, units(100), ID).unwrap();
    let data = v.unstake(units(40), BADGE, units(1), ID, data, 10).unwrap();
    let data = v.stop_unstake(BADGE, units(1), ID, data, 20).unwrap();
    assert_eq!(data, Staker { unstaking: units(0), end: 20, unstaked: units(0) });
    assert_eq!(v.share_of(ID), Some(units(100)));
    assert_eq!(v.staked, units(100));
    assert_eq!(v.unstaking, units(0));
    assert_eq!(err(v.stop_unstake(BADGE, units(1), ID, data, 30)), ValidatorError::NothingUnstaking);
    assert_eq!(ValidatorError::NothingUnstaking.message(), "You currently don't have token unstaking");
}

#[test]
fn withdraw_does_not_lower_the_recorded_unstaked_amount() {
    let mut v = validator();
    let data = v.stake(NEURA, units(100), ID).unwrap();
    let data = v.unstake(units(40), BADGE, units(1), ID, data, 0).unwrap();
    let (_, data) = v.withdraw(units(25), BADGE, units(1), data, 600).unwrap();
    assert_eq!(data.unstaked, units(40));
    assert_eq!(v.unstaking, units(15));
    assert_eq!(ValidatorError::NotEnoughUnstaked.message(), "Not enough unstaked amount for withdrawal");
}

#[test]
fn maturing_moves_unstaking_to_unstaked() {
    let d = Staker { unstaking: units(3), end: 100, unstaked: units(2) };
    assert_eq!(mature(d, 99), d);
    assert_eq!(mature(d, 100), Staker { unstaking: units(0), end: 100, unstaked: units(5) });
    assert_eq!(mature(d, 150), Staker { unstaking: units(0), end: 150, unstaked: units(5) });
}

#[test]
fn mint_rewards_stake_and_fee() {
    let mut v = validator();
    v.stake(NEURA, units(1000), ID).unwrap();
    // rate 1%: 10 tokens minted; fee = rate * fee fraction = 0.001
    let minted = v.mint(milli(10));
    assert_eq!(minted, units(10));
    assert_eq!(v.fees, Decimal { raw: ONE / 1000 });
    assert_eq!(v.staked, Decimal { raw: 1010 * ONE - ONE / 1000 });
    // share grows by 1 + 0.01 * 0.9
    assert_eq!(v.share_of(ID), Some(Decimal { raw: 1009 * ONE }));
    assert_eq!(v.withdraw_fee(), Decimal { raw: ONE / 1000 });
    assert_eq!(v.fees, units(0));
}

#[test]
fn burn_punishes_stake_and_shares() {
    let mut v = validator();
    v.stake(NEURA, units(1000), ID).unwrap();
    let burned = v.burn(milli(50));
    assert_eq!(burned, units(50));
    assert_eq!(v.staked, units(950));
    assert_eq!(v.share_of(ID), Some(units(950)));
}

#[test]
fn change_fee_keeps_the_percentage() {
    let mut v = validator();
    assert_eq!(v.change_fee(units(20)), Ok(()));
    assert_eq!(v.fee, units(20));
    assert_eq!(v.change_fee(units(200)), Err(ValidatorError::FeeOutOfRange));
    assert_eq!(v.fee, units(20));
}

#[test]
fn voting_status() {
    let mut v = validator();
    v.vote(true);
    assert!(v.get_status());
    assert!(v.get_vote());
    v.reset_status();
    assert!(!v.get_status());
    assert!(v.get_vote());
}

#[test]
fn can_mint_and_can_burn_check_the_arithmetic() {
    let mut v = validator();
    v.stake(NEURA, units(1000), ID).unwrap();
    assert!(v.can_mint(milli(10)));
    assert!(v.can_burn(milli(50)));
    // a negative reward would take the fee out of nothing
    assert!(!v.can_mint(milli(-10)));
    // more than the stake cannot be burned
    assert!(!v.can_burn(units(2)));
    assert!(!v.can_burn(milli(-10)));
    // a rate whose product with the stake does not fit
    let huge = Decimal { raw: i128::MAX / 100 };
    assert!(!v.can_mint(huge));
    assert!(!v.can_burn(huge));
}

#[test]
fn staking_guards_check_the_arithmetic() {
    let mut v = validator();
    assert!(v.can_stake(NEURA, units(100)));
    v.stake(NEURA, units(100), ID).unwrap();
    assert!(!v.can_stake(NEURA, Decimal { raw: i128::MAX }));
    assert!(v.can_add_stake(NEURA, units(5), BADGE, units(1), ID));
    assert!(!v.can_add_stake(NEURA, Decimal { raw: i128::MAX }, BADGE, units(1), ID));
    let fresh = Staker { unstaking: units(0), end: 0, unstaked: units(0) };
    assert!(v.can_unstake(units(40), BADGE, units(1), ID, fresh, 10));
    // a badge with nothing unstaking must hold a share
    assert!(!v.can_unstake(units(40), BADGE, units(1), NonFungibleId { id: 7 }, fresh, 10));
    // the end epoch of the unstaking must fit
    assert!(!v.can_unstake(units(40), BADGE, units(1), ID, fresh, u64::MAX));
    let data = v.unstake(units(40), BADGE, units(1), ID, fresh, 10).unwrap();
    assert!(v.can_stop_unstake(BADGE, units(1), ID, data, 20));
    let overflowing = Staker { unstaking: Decimal { raw: i128::MAX }, end: 0, unstaked: units(1) };
    assert!(!v.can_stop_unstake(BADGE, units(1), ID, overflowing, 20));
    assert!(v.can_withdraw(units(40), BADGE, units(1), data, 510));
    // more than the unstake vault holds
    let rich = Staker { unstaking: units(0), end: 0, unstaked: units(1000) };
    assert!(!v.can_withdraw(units(500), BADGE, units(1), rich, 510));
}
