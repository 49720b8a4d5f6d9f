use neuracle::address::ComponentAddress;
use neuracle::decimal::Decimal;
use neuracle::ranking::rank_by_weight;

fn entry(id: u128, w: i128) -> (ComponentAddress, Decimal) {
    (ComponentAddress { id }, Decimal { raw: w })
}

fn ids(v: &Vec<(ComponentAddress, Decimal)>) -> Vec<u128> {
    v.iter().map(|e| e.0.id).collect()
}

#[test]
fn heaviest_first() {
    let v = vec![entry(1, 5), entry(2, 9), entry(3, 1), entry(4, 7)];
    assert_eq!(ids(&rank_by_weight(&v)), vec![2, 4, 1, 3]);
}

#[test]
fn equal_weights_come_in_reverse_order() {
    let v = vec![entry(1, 5), entry(2, 5), entry(3, 8), entry(4, 5)];
    assert_eq!(ids(&rank_by_weight(&v)), vec![3, 4, 2, 1]);
}

#[test]
fn ranking_twice_restores_order_of_ties() {
    let v = vec![entry(1, 0), entry(2, 0), entry(3, 0)];
    let once = rank_by_weight(&v);
    assert_eq!(ids(&once), vec![3, 2, 1]);
    let twice = rank_by_weight(&once);
    assert_eq!(ids(&twice), vec![1, 2, 3]);
}

#[test]
fn empty_and_single() {
    assert!(rank_by_weight(&vec![]).is_empty());
    assert_eq!(ids(&rank_by_weight(&vec![entry(9, -3)])), vec![9]);
}

#[test]
fn ranking_is_a_permutation() {
    let v = vec![entry(1, 3), entry(2, -1), entry(3, 3), entry(4, 10), entry(5, 0)];
    let mut r = ids(&rank_by_weight(&v));
    r.sort();
    assert_eq!(r, vec![1, 2, 3, 4, 5]);
}
