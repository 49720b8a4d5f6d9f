//! A stable coin project: swaps between the oracle's token and a stable coin
//! at the price a data api reports.
use vstd::prelude::*;
use vstd::string::StringExecFns;

use crate::address::{ComponentAddress, ResourceAddress};
use crate::decimal::{Decimal, div_val, fits, mul_val};

verus! {

/// Why a swap was refused.
#[derive(Clone, Copy, Debug, PartialEq, Eq, Structural)]
pub enum SwapError {
    /// The bucket holds neither the token nor the stable coin.
    UnknownResource,
    /// There is no token to hand out for stable coins.
    NotEnoughToSwap,
}

impl SwapError {
    /// The message the component aborts with, for a project swapping
    /// against the token of symbol `symbol`.
    pub fn message(&self, symbol: &str) -> (s: String)
        ensures
            *self == SwapError::UnknownResource ==> s@
                == "Vault not contain this resource, cannot swap."@,
            *self == SwapError::NotEnoughToSwap ==> s@ == "Not enough "@ + symbol@ + " to swap."@,
    {
        match self {
            SwapError::UnknownResource => String::from_str(
                "Vault not contain this resource, cannot swap.",
            ),
            SwapError::NotEnoughToSwap => String::from_str("Not enough ").concat(symbol).concat(
                " to swap.",
            ),
        }
    }
}

/// What a swap comes to; the bucket handed in is burned in either case.
#[derive(Clone, Copy, Debug, PartialEq, Eq, Structural)]
pub enum Swap {
    /// This many stable coins are minted for the caller.
    MintStable(Decimal),
    /// This many tokens are taken from the component's vault for the caller.
    ReleaseToken(Decimal),
}

/// The plain state of a stable coin project.
pub struct NStableCoin {
    /// Tokens the project holds to pay out for stable coins.
    pub neura_vault: Decimal,
    pub fee_vault: Decimal,
    pub fee: Decimal,
    /// The token the stable coin is swapped against.
    pub neura: ResourceAddress,
    /// The token's symbol.
    pub symbol: String,
    pub name: String,
    pub stablecoin: ResourceAddress,
    /// The data api giving the token's price.
    pub data_api: ComponentAddress,
    /// The query of the data api giving the token's price.
    pub query: String,
}

/// The arithmetic of a swap of `amount` of `token` at `price` goes
/// through: minted stable coins are representable and not negative, and
/// released tokens are representable and held by the vault.
pub open spec fn swap_computable(
    s: &NStableCoin,
    token: ResourceAddress,
    amount: Decimal,
    price: Decimal,
) -> bool {
    &&& token == s.neura ==> fits(mul_val(amount.val(), price.val())) && 0 <= mul_val(
        amount.val(),
        price.val(),
    )
    &&& token != s.neura && token == s.stablecoin && s.neura_vault.val() != 0 ==> {
        &&& price.val() != 0
        &&& fits(div_val(amount.val(), price.val()))
        &&& 0 <= div_val(amount.val(), price.val()) <= s.neura_vault.val()
    }
}

impl NStableCoin {
    /// Sets up a project pegged to `pegged_to`, swapping against
    /// `medium_token` (whose symbol is `symbol`) at the price `query` of the
    /// data api `data_api` gives, minting the stable coin `stablecoin`.
    pub fn new(
        medium_token: ResourceAddress,
        symbol: String,
        pegged_to: &String,
        query: String,
        data_api: ComponentAddress,
        stablecoin: ResourceAddress,
        fee: Decimal,
    ) -> (s: NStableCoin)
        ensures
            s.neura_vault.val() == 0,
            s.fee_vault.val() == 0,
            s.fee == fee,
            s.neura == medium_token,
            s.symbol == symbol,
            s.name@ == pegged_to@ + "NStable Coin"@,
            s.stablecoin == stablecoin,
            s.data_api == data_api,
            s.query == query,
    {
        NStableCoin {
            neura_vault: Decimal::zero(),
            fee_vault: Decimal::zero(),
            fee,
            neura: medium_token,
            symbol,
            name: pegged_to.clone().concat("NStable Coin"),
            stablecoin,
            data_api,
            query,
        }
    }

    /// Whether [`NStableCoin::auto_swap`] may be called with these
    /// arguments (see [`swap_computable`]).
    pub fn can_swap(&self, token: ResourceAddress, amount: Decimal, price: Decimal) -> (b: bool)
        ensures
            b == swap_computable(self, token, amount, price),
    {
        if token == self.neura {
            match amount.checked_mul(price) {
                Some(d) => d.raw >= 0,
                None => false,
            }
        } else if token == self.stablecoin && self.neura_vault.raw != 0 {
            match amount.checked_div(price) {
                Some(d) => 0 <= d.raw && d.raw <= self.neura_vault.raw,
                None => false,
            }
        } else {
            true
        }
    }

    /// Swaps a bucket of `amount` of `token` at `price` (stable coins per
    /// token): tokens buy `amount * price` newly minted stable coins; stable
    /// coins buy `amount / price` tokens from the project's vault, which must
    /// not be empty.  Any other resource is refused.
    pub fn auto_swap(&mut self, token: ResourceAddress, amount: Decimal, price: Decimal) -> (r:
        Result<Swap, SwapError>)
        requires
            swap_computable(old(self), token, amount, price),
        ensures
            r == Err::<Swap, SwapError>(SwapError::UnknownResource) <==> (token != old(self).stablecoin
                && token != old(self).neura),
            r == Err::<Swap, SwapError>(SwapError::NotEnoughToSwap) <==> (token
                == old(self).stablecoin && old(self).neura_vault.val() == 0),
            r is Err ==> *final(self) == *old(self),
            r matches Ok(Swap::MintStable(d)) ==> token == old(self).neura && d.val() == mul_val(
                amount.val(),
                price.val(),
            ) && *final(self) == *old(self),
            r matches Ok(Swap::ReleaseToken(d)) ==> token != old(self).neura && token == old(
                self,
            ).stablecoin && d.val() == div_val(amount.val(), price.val())
                && final(self).neura_vault.val() == old(self).neura_vault.val() - d.val()
                && *final(self) == (NStableCoin {
                neura_vault: final(self).neura_vault,
                ..*old(self)
            }),
    {
        if !(token == self.stablecoin || token == self.neura) {
            return Err(SwapError::UnknownResource);
        }
        if token == self.stablecoin && self.neura_vault.raw == 0 {
            return Err(SwapError::NotEnoughToSwap);
        }
        if token == self.neura {
            Ok(Swap::MintStable(amount.mul(price)))
        } else {
            let out = amount.div(price);
            self.neura_vault = self.neura_vault.sub(out);
            Ok(Swap::ReleaseToken(out))
        }
    }
}

} // verus!
