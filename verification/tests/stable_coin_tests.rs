use neuracle::address::{ComponentAddress, ResourceAddress};
use neuracle::decimal::Decimal;
use neuracle::stable_coin::{NStableCoin, Swap, SwapError};

const ONE: i128 = 1_000_000_000_000_000_000;
const NEURA: ResourceAddress = ResourceAddress { id: 1 };
const STABLE: ResourceAddress = ResourceAddress { id: 2 };

fn units(n: i128) -> Decimal {
    Decimal { raw: n * ONE }
}

fn project() -> NStableCoin {
    NStableCoin::new(NEURA, String::from("NAR"), &String::from("USD"), String::from("NAR USD last price"), ComponentAddress { id: 5 }, STABLE, units(0))
}

#[test]
fn new_project_name() {
    let p = project();
    assert_eq!(p.name, "USDNStable Coin");
    assert_eq!(p.neura_vault, units(0));
}

#[test]
fn token_buys_minted_stable_coins() {
    let mut p = project();
    assert_eq!(p.auto_swap(NEURA, units(3), Decimal { raw: ONE / 2 }), Ok(Swap::MintStable(Decimal { raw: 3 * ONE / 2 })));
}

#[test]
fn stable_coins_need_tokens_in_the_vault() {
    let mut p = project();
    assert_eq!(p.auto_swap(STABLE, units(3), units(2)), Err(SwapError::NotEnoughToSwap));
    p.neura_vault = units(10);
    assert_eq!(p.auto_swap(STABLE, units(3), units(2)), Ok(Swap::ReleaseToken(Decimal { raw: 3 * ONE / 2 })));
    assert_eq!(p.neura_vault, Decimal { raw: 17 * ONE / 2 });
}

#[test]
fn unknown_resource_refused() {
    let mut p = project();
    assert_eq!(p.auto_swap(ResourceAddress { id: 3 }, units(3), units(2)), Err(SwapError::UnknownResource));
    assert_eq!(SwapError::UnknownResource.message("NAR"), "Vault not contain this resource, cannot swap.");
    assert_eq!(SwapError::NotEnoughToSwap.message("NAR"), "Not enough NAR to swap.");
}

#[test]
fn can_swap_checks_the_amount() {
    let mut p = project();
    assert!(p.can_swap(NEURA, units(3), units(2)));
    assert!(!p.can_swap(NEURA, units(3), units(-2)));
    assert!(!p.can_swap(NEURA, Decimal { raw: i128::MAX }, units(2)));
    // with an empty vault the swap is refused, so nothing is asked
    assert!(p.can_swap(STABLE, units(3), Decimal::zero()));
    p.neura_vault = units(1);
    assert!(!p.can_swap(STABLE, units(3), Decimal::zero()));
    assert!(!p.can_swap(STABLE, units(3), units(2)));
    assert!(p.can_swap(STABLE, units(2), units(2)));
    assert!(p.can_swap(ResourceAddress { id: 3 }, units(3), units(-2)));
}
