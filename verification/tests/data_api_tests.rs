use neuracle::address::ComponentAddress;
use neuracle::data_api::{settle, DataApi, Settlement};
use neuracle::decimal::Decimal;
use neuracle::utilities::Ballot;

const ONE: i128 = 1_000_000_000_000_000_000;

fn units(n: i128) -> Decimal {
    Decimal { raw: n * ONE }
}

fn ballot(id: u128, weight: i128, active: bool, approves: bool) -> Ballot {
    Ballot { validator: ComponentAddress { id }, weight: units(weight), active, approves }
}

fn api() -> DataApi {
    // reward rate 0.01, punishment 5
    DataApi::new(String::from("prices"), String::from("BTC"), Decimal { raw: ONE / 100 }, units(5))
}

#[test]
fn queries_start_at_zero() {
    let mut d = api();
    assert_eq!(d.get_data(&String::from("BTC")), units(0));
    d.new_query(String::from("ETH"));
    assert_eq!(d.get_data(&String::from("ETH")), units(0));
    assert_eq!(d.datas.len(), 2);
    d.new_query(String::from("BTC"));
    assert_eq!(d.datas.len(), 2);
}

#[test]
fn accepted_round_replaces_data_and_settles() {
    let mut d = api();
    d.new_round(ComponentAddress { id: 1 }, vec![(String::from("BTC"), units(30000))]);
    let ballots = vec![ballot(1, 2, true, true), ballot(2, 1, true, false), ballot(3, 9, false, false)];
    let r = d.end_round(&ballots);
    assert_eq!(d.get_data(&String::from("BTC")), units(30000));
    let pen = Decimal { raw: 5 * ONE / 100 };
    assert_eq!(
        r,
        vec![
            (ComponentAddress { id: 1 }, Settlement::Mint(Decimal { raw: ONE / 100 })),
            (ComponentAddress { id: 2 }, Settlement::Burn(pen)),
        ]
    );
}

#[test]
fn rejected_round_punishes_leader_five_times() {
    let mut d = api();
    d.new_round(ComponentAddress { id: 9 }, vec![(String::from("BTC"), units(1))]);
    let ballots = vec![ballot(1, 1, true, true), ballot(2, 5, true, false)];
    let r = d.end_round(&ballots);
    assert_eq!(d.get_data(&String::from("BTC")), units(0));
    let pen = Decimal { raw: 5 * ONE / 100 };
    assert_eq!(
        r,
        vec![
            (ComponentAddress { id: 9 }, Settlement::Burn(Decimal { raw: 25 * ONE / 100 })),
            (ComponentAddress { id: 1 }, Settlement::Burn(pen)),
            (ComponentAddress { id: 2 }, Settlement::Mint(Decimal { raw: ONE / 100 })),
        ]
    );
}

#[test]
fn undecided_round_settles_nothing() {
    let mut d = api();
    d.new_round(ComponentAddress { id: 9 }, vec![(String::from("BTC"), units(1))]);
    let ballots = vec![ballot(1, 1, true, true), ballot(2, 1, true, false)];
    assert!(d.end_round(&ballots).is_empty());
    assert_eq!(d.get_data(&String::from("BTC")), units(0));
}

#[test]
fn settle_directly() {
    let ballots = vec![ballot(1, 1, true, true)];
    assert!(settle(&ballots, None, ComponentAddress { id: 0 }, units(1), units(1)).is_empty());
    assert_eq!(
        settle(&ballots, Some(true), ComponentAddress { id: 0 }, units(1), units(2)),
        vec![(ComponentAddress { id: 1 }, Settlement::Mint(units(1)))]
    );
}
