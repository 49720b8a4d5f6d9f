use neuracle::address::{ComponentAddress, ResourceAddress};
use neuracle::decimal::Decimal;
use neuracle::neuracle::{
    quote_payment, stable_coin_name, stable_coin_query, NeuRacle, NeuRacleError, ValidatorData,
};
use neuracle::utilities::ResourceError;

const ONE: i128 = 1_000_000_000_000_000_000;
const NEURA: ResourceAddress = ResourceAddress { id: 1 };
const VALIDATOR_BADGE: ResourceAddress = ResourceAddress { id: 2 };
const USER_BADGE: ResourceAddress = ResourceAddress { id: 3 };

fn units(n: i128) -> Decimal {
    Decimal { raw: n * ONE }
}

fn milli(n: i128) -> Decimal {
    Decimal { raw: n * (ONE / 1000) }
}

fn component(cap: usize) -> NeuRacle {
    match NeuRacle::new(cap, 10, units(1), milli(300), 500, milli(15), units(5), 1234, NEURA, VALIDATOR_BADGE, USER_BADGE) {
        Ok(s) => s,
        Err(e) => panic!("{:?}", e),
    }
}

fn err<T>(r: Result<T, NeuRacleError>) -> NeuRacleError {
    match r {
        Ok(_) => panic!("expected an error"),
        Err(e) => e,
    }
}

#[test]
fn new_sets_up_first_stage() {
    let s = component(2);
    assert_eq!(s.stage, 1);
    assert_eq!(s.system_time, 123);
    assert!(!s.round_start);
    // 0.015 percent kept as the fraction 0.00015
    assert_eq!(s.reward_rate, Decimal { raw: 150_000_000_000_000 });
    assert!(s.validators.is_empty());
}

#[test]
fn new_refuses_fee_out_of_range() {
    let r = NeuRacle::new(2, 10, units(1), units(101), 500, milli(15), units(5), 0, NEURA, VALIDATOR_BADGE, USER_BADGE);
    assert_eq!(err(r), NeuRacleError::FeeOutOfRange);
    assert_eq!(NeuRacleError::FeeOutOfRange.message(), "Fee must be in the range of 0 to 100");
}

#[test]
fn validators_register_by_stage() {
    let mut s = component(2);
    assert_eq!(s.create_new_validator_node(ComponentAddress { id: 10 }), Ok(()));
    assert_eq!(s.validators, vec![(ComponentAddress { id: 10 }, Decimal::zero())]);
    assert_eq!(s.become_new_validator(ComponentAddress { id: 11 }), Err(NeuRacleError::NotSecondStage));
    assert_eq!(s.validators.len(), 1);
    // the first stage never advances
    assert_eq!(s.advance_stage(), Err(NeuRacleError::NotSecondStage));
    s.stage = 2;
    assert_eq!(s.create_new_validator_node(ComponentAddress { id: 12 }), Err(NeuRacleError::NotFirstStage));
    assert_eq!(s.become_new_validator(ComponentAddress { id: 11 }), Ok(()));
    assert_eq!(s.advance_stage(), Ok(()));
    assert_eq!(s.stage, 3);
    assert_eq!(NeuRacleError::NotFirstStage.message(), "assertion failed: self.stage == 1");
    assert_eq!(NeuRacleError::NotSecondStage.message(), "assertion failed: self.stage == 2");
}

#[test]
fn validator_badge_data() {
    let d = ValidatorData::new(&String::from("node"), String::from("Hanoi"), String::from("example.org"));
    assert_eq!(d.name, "node");
    assert_eq!(d.location, "Hanoi");
    assert_eq!(d.website, "example.org");
    assert_eq!(d.address, "");
    assert_eq!(d.staked, Decimal::zero());
}

#[test]
fn new_user_pays_for_whole_rounds() {
    let mut s = component(2);
    let sub = s
        .become_new_user(NEURA, milli(5500), String::from("api"), String::from("BTC/USD"), 1000)
        .unwrap();
    assert_eq!(sub.payment.rounds, 5);
    assert_eq!(sub.payment.burned, units(5));
    assert_eq!(sub.payment.change, milli(500));
    // ten rounds of delay, then one epoch per round bought
    assert_eq!(sub.badge.end, 10 * 10 + 1000 + 5);
    assert_eq!(sub.badge.api, "api");
    assert_eq!(sub.badge.query, "BTC/USD");
    assert!(sub.data_api.is_none());
    assert_eq!(s.pending_query(&String::from("api")), Some(String::from("BTC/USD")));
    assert_eq!(s.non_validated_apis[0].failed_rounds, 0);
}

#[test]
fn new_user_of_served_api_goes_to_its_component() {
    let mut s = component(2);
    s.add_data_api(String::from("api"), ComponentAddress { id: 77 });
    let sub = s.become_new_user(NEURA, units(2), String::from("api"), String::from("q"), 0).unwrap();
    assert_eq!(sub.data_api, Some(ComponentAddress { id: 77 }));
    assert!(s.non_validated_apis.is_empty());
}

#[test]
fn new_user_request_resets_a_pending_api() {
    let mut s = component(2);
    s.become_new_user(NEURA, units(1), String::from("api"), String::from("q1"), 0).unwrap();
    s.non_validated_apis[0].failed_rounds = 4;
    s.become_new_user(NEURA, units(1), String::from("api"), String::from("q2"), 0).unwrap();
    assert_eq!(s.non_validated_apis.len(), 1);
    assert_eq!(s.non_validated_apis[0].failed_rounds, 0);
    assert_eq!(s.non_validated_apis[0].query, "q2");
}

#[test]
fn new_user_payment_refused() {
    let mut s = component(2);
    let r = s.become_new_user(ResourceAddress { id: 99 }, units(5), String::from("api"), String::from("q"), 0);
    assert_eq!(err(r), NeuRacleError::Resource(ResourceError::WrongResource));
    let r = s.become_new_user(NEURA, milli(999), String::from("api"), String::from("q"), 0);
    assert_eq!(err(r), NeuRacleError::Resource(ResourceError::NotEnoughResource));
    assert!(s.non_validated_apis.is_empty());
}

#[test]
fn refund_computes_new_end() {
    let s = component(2);
    let refund = s.refund_account(USER_BADGE, units(1), NEURA, milli(2700), 50).unwrap();
    assert_eq!(refund.payment.rounds, 2);
    assert_eq!(refund.payment.burned, units(2));
    assert_eq!(refund.payment.change, milli(700));
    assert_eq!(refund.end, 52);
    // a payment of nothing buys nothing
    let refund = s.refund_account(USER_BADGE, units(1), NEURA, units(0), 50).unwrap();
    assert_eq!(refund.end, 50);
}

#[test]
fn refund_checks_identity_first() {
    let s = component(2);
    assert_eq!(err(s.refund_account(NEURA, units(1), NEURA, units(1), 0)), NeuRacleError::Resource(ResourceError::WrongResource));
    assert_eq!(err(s.refund_account(USER_BADGE, milli(500), NEURA, units(1), 0)), NeuRacleError::Resource(ResourceError::NotEnoughResource));
    assert_eq!(err(s.refund_account(USER_BADGE, units(1), USER_BADGE, units(1), 0)), NeuRacleError::Resource(ResourceError::WrongResource));
}

#[test]
fn get_data_checks_time() {
    let mut s = component(2);
    s.add_data_api(String::from("api"), ComponentAddress { id: 5 });
    let sub = s.become_new_user(NEURA, units(1), String::from("api"), String::from("q"), 0).unwrap();
    let end = sub.badge.end;
    assert_eq!(s.get_data(USER_BADGE, units(1), &sub.badge, end), Ok(ComponentAddress { id: 5 }));
    assert_eq!(s.get_data(USER_BADGE, units(1), &sub.badge, end + 1), Err(NeuRacleError::OutOfTime));
    assert_eq!(s.get_data(NEURA, units(1), &sub.badge, 0), Err(NeuRacleError::Resource(ResourceError::WrongResource)));
    let mut forever = sub.badge;
    forever.end = 0;
    assert_eq!(s.get_data(USER_BADGE, units(1), &forever, 1_000_000), Ok(ComponentAddress { id: 5 }));
    assert_eq!(NeuRacleError::OutOfTime.message(), "Run out of time, you cannot access this data for now, please refund your account.");
}

fn with_validators(weights: &[i128]) -> NeuRacle {
    let mut s = component(2);
    for (i, w) in weights.iter().enumerate() {
        s.create_new_validator_node(ComponentAddress { id: 100 + i as u128 }).unwrap();
        s.validators[i].1 = units(*w);
    }
    s
}

#[test]
fn new_round_picks_the_heaviest() {
    let mut s = with_validators(&[1, 5, 3]);
    let set = s.new_round(1240, &weights(&s)).unwrap();
    assert!(s.round_start);
    let ids: Vec<u128> = set.iter().map(|e| e.0.id).collect();
    assert_eq!(ids, vec![101, 102]);
    assert_eq!(s.active_validators, set);
    assert_eq!(s.validators[2].0.id, 100);
}

#[test]
fn rounds_alternate() {
    let mut s = with_validators(&[1, 5, 3]);
    assert_eq!(err(s.end_round(1240, &vec![], &vec![])), NeuRacleError::RoundNotStarted);
    assert_eq!(err(s.new_round(1229, &weights(&s))), NeuRacleError::NotTimeForNewRound);
    s.new_round(1230, &weights(&s)).unwrap();
    assert_eq!(err(s.new_round(1240, &weights(&s))), NeuRacleError::PreviousRoundNotEnded);
    let end = s.end_round(1235, &vec![true, true], &vec![]).unwrap();
    assert!(end.accepted.is_empty());
    assert_eq!(end.data_api_validators.len(), 2);
    assert!(!s.round_start);
    assert_eq!(s.system_time, 124);
    // no second round in the same period
    assert_eq!(err(s.new_round(1239, &weights(&s))), NeuRacleError::NotTimeForNewRound);
    assert!(s.new_round(1240, &weights(&s)).is_ok());
    assert_eq!(NeuRacleError::PreviousRoundNotEnded.message(), "Previous round haven't ended yet");
    assert_eq!(NeuRacleError::NotTimeForNewRound.message(), "Not time to start a new round yet");
    assert_eq!(NeuRacleError::RoundNotStarted.message(), "New round hasn't started yet");
}

#[test]
fn pending_apis_are_settled_by_vote() {
    let mut s = with_validators(&[2, 1]);
    for api in ["yes", "maybe", "no"] {
        s.become_new_user(NEURA, units(1), String::from(api), String::from("q"), 0).unwrap();
    }
    s.new_round(1234, &weights(&s)).unwrap();
    let voters = s.round_voters();
    assert_eq!(voters.iter().map(|e| e.0.id).collect::<Vec<_>>(), vec![100, 101]);
    // in the order of the pending apis: both approve, only the lighter, none
    let approvals = vec![vec![true, true], vec![false, true], vec![false, false]];
    let end = s.end_round(1234, &vec![true, true], &approvals).unwrap();
    assert_eq!(end.accepted, vec![(String::from("yes"), String::from("q"))]);
    let pending: Vec<(String, u8)> = s.non_validated_apis.iter().map(|p| (p.api.clone(), p.failed_rounds)).collect();
    assert_eq!(pending, vec![(String::from("maybe"), 1), (String::from("no"), 1)]);
    s.new_api(String::from("yes"), ComponentAddress { id: 500 });
    assert_eq!(s.data_api(&String::from("yes")), Some(ComponentAddress { id: 500 }));
}

#[test]
fn rejected_api_dropped_after_nine_failed_rounds() {
    let mut s = with_validators(&[1, 1]);
    s.become_new_user(NEURA, units(1), String::from("no"), String::from("q"), 0).unwrap();
    s.become_new_user(NEURA, units(1), String::from("undecided"), String::from("q"), 0).unwrap();
    let mut epoch = 1234;
    for round in 1..=10u8 {
        s.new_round(epoch, &weights(&s)).unwrap();
        let approvals = if s.non_validated_apis.len() == 2 {
            vec![vec![false, false], vec![true, false]]
        } else {
            vec![vec![true, false]]
        };
        s.end_round(epoch, &vec![true, true], &approvals).unwrap();
        epoch += 10;
        if round < 10 {
            assert_eq!(s.non_validated_apis[0].failed_rounds, round);
        }
    }
    assert_eq!(s.non_validated_apis.len(), 1);
    assert_eq!(s.non_validated_apis[0].api, "undecided");
    assert_eq!(s.non_validated_apis[0].failed_rounds, 10);
}

#[test]
fn inactive_voters_do_not_count() {
    let mut s = with_validators(&[3, 1]);
    s.become_new_user(NEURA, units(1), String::from("api"), String::from("q"), 0).unwrap();
    s.new_round(1234, &weights(&s)).unwrap();
    // the heavy validator refuses but did not take part; the light one approves
    let end = s.end_round(1234, &vec![false, true], &vec![vec![false, true]]).unwrap();
    assert_eq!(end.accepted.len(), 1);
    assert!(s.non_validated_apis.is_empty());
}

#[test]
fn stable_coin_strings() {
    assert_eq!(stable_coin_query(&String::from("USD")), "NAR USD last price");
    assert_eq!(stable_coin_name(&String::from("USD")), "USD NStable Coin");
    let mut s = component(1);
    s.add_stable_coin(ComponentAddress { id: 3 }, stable_coin_name(&String::from("EUR")));
    s.add_stable_coin(ComponentAddress { id: 3 }, stable_coin_name(&String::from("USD")));
    assert_eq!(s.stable_coins, vec![(ComponentAddress { id: 3 }, String::from("USD NStable Coin"))]);
}

#[test]
fn set_unstake_delay_changes_only_it() {
    let mut s = component(1);
    s.set_unstake_delay(7);
    assert_eq!(s.unstake_delay, 7);
    assert_eq!(s.stage, 1);
}

#[test]
fn quote_payment_splits_or_refuses() {
    let p = quote_payment(milli(5500), units(1)).unwrap();
    assert_eq!(p.rounds, 5);
    assert_eq!(p.burned, units(5));
    assert_eq!(p.change, milli(500));
    let p = quote_payment(milli(2700), milli(1200)).unwrap();
    assert_eq!(p.rounds, 2);
    assert_eq!(p.burned, milli(2400));
    assert_eq!(p.change, milli(300));
    // no rate, a negative payment, a quotient too large
    assert!(quote_payment(units(1), Decimal::zero()).is_none());
    assert!(quote_payment(units(-1), units(1)).is_none());
    assert!(quote_payment(Decimal { raw: i128::MAX }, Decimal { raw: 1 }).is_none());
}

#[test]
fn can_end_round_checks_the_votes() {
    let mut s = with_validators(&[2, 1]);
    s.become_new_user(NEURA, units(1), String::from("api"), String::from("q"), 0).unwrap();
    // no round running: nothing is asked
    assert!(s.can_end_round(1234, &vec![], &vec![]));
    s.new_round(1234, &weights(&s)).unwrap();
    assert!(s.can_end_round(1234, &vec![true, true], &vec![vec![true, false]]));
    // one status short, one row short, one approval short
    assert!(!s.can_end_round(1234, &vec![true], &vec![vec![true, false]]));
    assert!(!s.can_end_round(1234, &vec![true, true], &vec![]));
    assert!(!s.can_end_round(1234, &vec![true, true], &vec![vec![true]]));
    // an undecided api that already failed 255 rounds cannot fail again
    s.non_validated_apis[0].failed_rounds = 255;
    assert!(!s.can_end_round(1234, &vec![true, true], &vec![vec![false, true]]));
    assert!(s.can_end_round(1234, &vec![true, true], &vec![vec![true, true]]));
}

fn weights(s: &NeuRacle) -> Vec<Decimal> {
    s.validators.iter().map(|v| v.1).collect()
}

#[test]
fn new_round_records_the_current_stakes() {
    let mut s = with_validators(&[0, 0, 0]);
    let set = s.new_round(1240, &vec![units(2), units(7), units(4)]).unwrap();
    assert_eq!(set, vec![(ComponentAddress { id: 101 }, units(7)), (ComponentAddress { id: 102 }, units(4))]);
    assert_eq!(s.validators[2], (ComponentAddress { id: 100 }, units(2)));
}

#[test]
fn can_subscribe_and_can_refund_check_the_payment() {
    let s = component(2);
    assert!(s.can_subscribe(NEURA, milli(5500), 1000));
    // refused payments are not asked about
    assert!(s.can_subscribe(ResourceAddress { id: 99 }, units(5), u64::MAX));
    // the end epoch would not fit
    assert!(!s.can_subscribe(NEURA, units(5), u64::MAX - 50));
    assert!(s.can_refund(USER_BADGE, units(1), NEURA, milli(2700), 50));
    assert!(!s.can_refund(USER_BADGE, units(1), NEURA, units(2), u64::MAX));
    assert!(s.can_refund(USER_BADGE, units(0), NEURA, units(2), u64::MAX));
}
