use neuracle::address::{ComponentAddress, ResourceAddress};
use neuracle::data_api::Settlement;
use neuracle::data_feed::{FeedError, NStableCoin, NeuRacle};
use neuracle::decimal::Decimal;
use neuracle::stable_coin::{Swap, SwapError};
use neuracle::utilities::ResourceError;

const ONE: i128 = 1_000_000_000_000_000_000;
const NEURA: ResourceAddress = ResourceAddress { id: 1 };
const VALIDATOR_BADGE: ResourceAddress = ResourceAddress { id: 2 };
const USER_BADGE: ResourceAddress = ResourceAddress { id: 3 };

fn units(n: i128) -> Decimal {
    Decimal { raw: n * ONE }
}

fn feed(cap: usize, weights: &[i128]) -> NeuRacle {
    let mut s = match NeuRacle::new(cap, 10, units(2), units(1), 500, units(1), units(5), 100, NEURA, VALIDATOR_BADGE, USER_BADGE) {
        Ok(s) => s,
        Err(e) => panic!("{:?}", e),
    };
    for (i, w) in weights.iter().enumerate() {
        s.create_new_validator_node(ComponentAddress { id: 10 + i as u128 }).unwrap();
        s.validators[i].1 = units(*w);
    }
    s
}

fn err<T>(r: Result<T, FeedError>) -> FeedError {
    match r {
        Ok(_) => panic!("expected an error"),
        Err(e) => e,
    }
}

#[test]
fn new_user_reads_for_rounds_times_length() {
    let mut s = feed(2, &[]);
    let (badge, payment) = s.become_new_user(NEURA, units(7), String::from("BTC"), 1000).unwrap();
    assert_eq!(payment.rounds, 3);
    assert_eq!(payment.burned, units(6));
    assert_eq!(payment.change, units(1));
    assert_eq!(badge.end, 1000 + 3 * 10);
    assert_eq!(s.datum(&String::from("BTC")), Some(String::new()));
    assert_eq!(s.get_apis(), vec![String::from("BTC")]);
    assert_eq!(err(s.become_new_user(NEURA, units(1), String::from("BTC"), 0)), FeedError::Resource(ResourceError::NotEnoughResource));
}

#[test]
fn refund_updates_the_badge() {
    let mut s = feed(2, &[]);
    let (badge, _) = s.become_new_user(NEURA, units(2), String::from("BTC"), 0).unwrap();
    let (badge2, payment) = s.refund_account(USER_BADGE, units(1), NEURA, units(4), &badge, 50).unwrap();
    assert_eq!(payment.rounds, 2);
    assert_eq!(badge2.end, 70);
    assert_eq!(badge2.api, "BTC");
    assert_eq!(s.get_data(USER_BADGE, units(1), &badge2, 70), Ok(String::new()));
    assert_eq!(s.get_data(USER_BADGE, units(1), &badge2, 71), Err(FeedError::OutOfTime));
}

#[test]
fn new_round_takes_all_when_fewer_than_cap() {
    let mut s = feed(5, &[1, 3]);
    let set = s.new_round(100, &weights(&s)).unwrap();
    assert_eq!(set.iter().map(|e| e.0.id).collect::<Vec<_>>(), vec![11, 10]);
    assert_eq!(err(s.new_round(200, &weights(&s))), FeedError::PreviousRoundNotEnded);
    assert_eq!(FeedError::PreviousRoundNotEnded.message(), "Previous round haven't ended yet!");
}

#[test]
fn end_round_needs_more_than_two_thirds_active() {
    let mut s = feed(3, &[1, 1, 1]);
    s.new_round(100, &weights(&s)).unwrap();
    s.set_leader(ComponentAddress { id: 10 }, vec![(String::from("BTC"), String::from("30000"))]);
    assert_eq!(err(s.end_round(100, &vec![true, true, false], &vec![true, true, true])), FeedError::NotEnoughActive);
    assert!(s.round_start);
    assert_eq!(FeedError::NotEnoughActive.message(), "Not enough validator active yet!");
    let rewards = s.end_round(105, &vec![true, true, true], &vec![true, true, false]).unwrap();
    assert_eq!(s.datum(&String::from("BTC")), Some(String::from("30000")));
    assert_eq!(rewards.len(), 3);
    assert_eq!(rewards[2], (ComponentAddress { id: 10 }, Settlement::Burn(Decimal { raw: 5 * ONE / 100 })));
    assert!(!s.round_start);
    assert_eq!(s.system_time, 11);
    assert_eq!(err(s.end_round(105, &vec![], &vec![])), FeedError::RoundNotStarted);
}

#[test]
fn rejected_data_punishes_the_leader() {
    let mut s = feed(3, &[1, 1, 1]);
    s.new_round(100, &weights(&s)).unwrap();
    s.set_leader(ComponentAddress { id: 11 }, vec![(String::from("BTC"), String::from("1"))]);
    let rewards = s.end_round(100, &vec![true, true, true], &vec![false, false, false]).unwrap();
    assert_eq!(rewards[0], (ComponentAddress { id: 11 }, Settlement::Burn(Decimal { raw: 25 * ONE / 100 })));
    assert_eq!(rewards.len(), 4);
    assert!(s.datas.is_empty());
}

#[test]
fn inactive_validators_leave_the_active_set() {
    let mut s = feed(4, &[1, 1, 1, 1]);
    s.new_round(100, &weights(&s)).unwrap();
    s.set_leader(ComponentAddress { id: 10 }, vec![]);
    s.end_round(100, &vec![true, true, true, false], &vec![true, true, true, true]).unwrap();
    assert_eq!(s.active_validators.len(), 3);
}

#[test]
fn stages() {
    let mut s = feed(1, &[]);
    assert_eq!(s.become_new_validator(ComponentAddress { id: 1 }), Err(FeedError::NotSecondStage));
    assert_eq!(s.advance_stage(), Err(FeedError::NotSecondStage));
    s.stage = 2;
    assert_eq!(s.create_new_validator_node(ComponentAddress { id: 1 }), Err(FeedError::NotFirstStage));
    assert_eq!(s.become_new_validator(ComponentAddress { id: 1 }), Ok(()));
    s.set_unstake_delay(3);
    assert_eq!(s.unstake_delay, 3);
}

#[test]
fn stable_coin_project_registers_its_api() {
    let mut s = feed(1, &[]);
    let (badge, name) = s.new_stable_coin_project(&String::from("USD"), String::from("NAR/USD"));
    assert_eq!(badge.end, 0);
    assert_eq!(name, "USDNStable Coin");
    assert_eq!(s.datum(&String::from("NAR/USD")), Some(String::new()));
    s.add_stable_coin(ComponentAddress { id: 4 }, name);
    assert_eq!(s.stable_coins.len(), 1);
}

#[test]
fn feed_stable_coin_mints_both_ways() {
    let (p, name) = NStableCoin::new(NEURA, String::from("NAR"), String::from("USD"), ComponentAddress { id: 1 }, ResourceAddress { id: 9 }, units(0));
    assert_eq!(name, "USDNStable Coin");
    let price = String::from("3");
    assert_eq!(p.auto_swap(NEURA, units(2), &price), Ok(Swap::MintStable(units(6))));
    assert_eq!(p.auto_swap(ResourceAddress { id: 9 }, units(6), &price), Ok(Swap::MintStable(units(2))));
    assert_eq!(p.auto_swap(ResourceAddress { id: 8 }, units(6), &price), Err(SwapError::UnknownResource));
    let half = String::from("0.5");
    assert_eq!(p.auto_swap(NEURA, units(3), &half), Ok(Swap::MintStable(Decimal { raw: 3 * ONE / 2 })));
}

#[test]
fn can_end_round_checks_the_reports() {
    let mut s = feed(3, &[1, 1, 1]);
    assert!(s.can_end_round(100, &vec![], &vec![]));
    s.new_round(100, &weights(&s)).unwrap();
    // without a leader, rejected data cannot be settled
    assert!(!s.can_end_round(100, &vec![true, true, true], &vec![false, false, false]));
    assert!(s.can_end_round(100, &vec![true, true, true], &vec![true, true, false]));
    s.set_leader(ComponentAddress { id: 10 }, vec![(String::from("BTC"), String::from("1"))]);
    assert!(s.can_end_round(100, &vec![true, true, true], &vec![false, false, false]));
    // one report short
    assert!(!s.can_end_round(100, &vec![true, true], &vec![true, true, true]));
    // too few active: the round is refused, so nothing more is asked
    assert!(s.can_end_round(100, &vec![true, false, false], &vec![false, false, false]));
}

#[test]
fn feed_can_swap_needs_a_decimal_price() {
    let (p, _) = NStableCoin::new(NEURA, String::from("NAR"), String::from("USD"), ComponentAddress { id: 1 }, ResourceAddress { id: 9 }, units(0));
    assert!(p.can_swap(NEURA, units(2), &String::from("3")));
    assert!(!p.can_swap(NEURA, units(2), &String::from("three")));
    assert!(!p.can_swap(ResourceAddress { id: 9 }, units(2), &String::from("0")));
    assert!(!p.can_swap(NEURA, units(-2), &String::from("3")));
}

fn weights(s: &NeuRacle) -> Vec<Decimal> {
    s.validators.iter().map(|v| v.1).collect()
}

#[test]
fn feed_new_round_records_the_current_stakes() {
    let mut s = feed(1, &[0, 0]);
    let set = s.new_round(100, &vec![units(1), units(6)]).unwrap();
    assert_eq!(set, vec![(ComponentAddress { id: 11 }, units(6))]);
}

#[test]
fn feed_can_subscribe_and_can_refund_check_the_payment() {
    let s = feed(3, &[1]);
    assert!(s.can_subscribe(NEURA, units(4), 100));
    assert!(!s.can_subscribe(NEURA, units(4), u64::MAX - 5));
    let user = neuracle::data_feed::UserData { end: 0, api: String::from("BTC") };
    let _ = &user;
    assert!(s.can_refund(USER_BADGE, units(1), NEURA, units(4), 100));
    assert!(!s.can_refund(USER_BADGE, units(1), NEURA, units(4), u64::MAX - 5));
}
