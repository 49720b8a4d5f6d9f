//! A validator component: the tokens staked with it, the stakers' shares,
//! unstaking with a delay, its fee, and its vote in the current round.
//!
//! The vaults of the component are represented by the amounts they hold;
//! the ledger moves the tokens as the methods' results say.
use vstd::prelude::*;

use crate::address::ResourceAddress;
use crate::decimal::{Decimal, SCALE, fits, div_val, lemma_div_val_shrinks, mul_val, whole};
use crate::keyed::{
    distinct_keys,
    lemma_to_map_dom,
    lemma_to_map_index,
    lemma_to_map_push,
    lemma_to_map_update,
    to_map,
};
use crate::utilities::{ResourceError, check_fee, check_resource, check_resource_result, valid_fee};

verus! {

/// The identifier of a non-fungible badge.
#[derive(Clone, Copy, Debug, PartialEq, Eq, Hash, Structural)]
pub struct NonFungibleId {
    pub id: u128,
}

/// Data of a staker badge: the amount being unstaked, the epoch at which
/// that unstaking completes, and the amount unstaked and free to withdraw.
#[derive(Clone, Copy, Debug, PartialEq, Eq, Structural)]
pub struct Staker {
    pub unstaking: Decimal,
    pub end: u64,
    pub unstaked: Decimal,
}

/// Why a call on a validator was refused.
#[derive(Clone, Copy, Debug, PartialEq, Eq, Structural)]
pub enum ValidatorError {
    FeeOutOfRange,
    Resource(ResourceError),
    StillUnstaking,
    NotEnoughStaked,
    NothingUnstaking,
    NotEnoughUnstaked,
}

impl ValidatorError {
    /// The message the component aborts with.
    pub fn message(&self) -> (s: &'static str)
        ensures
            *self == ValidatorError::FeeOutOfRange ==> s@ == "Fee must be in the range of 0 to 100"@,
            *self == ValidatorError::Resource(ResourceError::WrongResource) ==> s@
                == "Wrong resource address."@,
            *self == ValidatorError::Resource(ResourceError::NotEnoughResource) ==> s@
                == "Not enough resource."@,
            *self == ValidatorError::StillUnstaking ==> s@
                == "You must wait or stop unstaking before start unstake again"@,
            *self == ValidatorError::NotEnoughStaked ==> s@ == "Not enough amount for unstake."@,
            *self == ValidatorError::NothingUnstaking ==> s@
                == "You currently don't have token unstaking"@,
            *self == ValidatorError::NotEnoughUnstaked ==> s@
                == "Not enough unstaked amount for withdrawal"@,
    {
        match self {
            ValidatorError::FeeOutOfRange => "Fee must be in the range of 0 to 100",
            ValidatorError::Resource(e) => e.message(),
            ValidatorError::StillUnstaking =>
                "You must wait or stop unstaking before start unstake again",
            ValidatorError::NotEnoughStaked => "Not enough amount for unstake.",
            ValidatorError::NothingUnstaking => "You currently don't have token unstaking",
            ValidatorError::NotEnoughUnstaked => "Not enough unstaked amount for withdrawal",
        }
    }
}

/// The plain state of a validator component.
pub struct Validator {
    /// Each staker's share of the stake, by badge.
    pub stakers: Vec<(NonFungibleId, Decimal)>,
    pub name: String,
    /// The validator's fee, as a fraction.
    pub fee: Decimal,
    /// Tokens staked (the staked vault).
    pub staked: Decimal,
    /// Tokens being unstaked or unstaked and not yet withdrawn (the unstake
    /// vault).
    pub unstaking: Decimal,
    /// Fees collected (the fee vault).
    pub fees: Decimal,
    pub staker_badge: ResourceAddress,
    pub neura: ResourceAddress,
    pub unstake_delay: u64,
    /// The data the validator reports, by query.
    pub datas: Vec<(String, String)>,
    pub vote: bool,
    pub active: bool,
}

pub open spec fn staker_key() -> spec_fn((NonFungibleId, Decimal)) -> NonFungibleId {
    |e: (NonFungibleId, Decimal)| e.0
}

pub open spec fn staker_share() -> spec_fn((NonFungibleId, Decimal)) -> int {
    |e: (NonFungibleId, Decimal)| e.1.val()
}

/// A staker badge's data once the unstaking it records is complete at epoch
/// `current`: from its end on, the amount unstaking becomes unstaked.
pub open spec fn matured(data: Staker, current: u64) -> Staker {
    if current >= data.end {
        Staker {
            unstaking: Decimal { raw: 0 },
            end: current,
            unstaked: Decimal { raw: (data.unstaked.val() + data.unstaking.val()) as i128 },
        }
    } else {
        data
    }
}

/// Maturing the badge's data at `current` stays representable.
pub open spec fn maturable(data: Staker, current: u64) -> bool {
    current >= data.end ==> fits(data.unstaked.val() + data.unstaking.val())
}

/// A staker badge that `identity_amount` of `identity_resource` stands for.
pub open spec fn is_staker_identity(
    v: Validator,
    identity_resource: ResourceAddress,
    identity_amount: Decimal,
) -> bool {
    identity_resource == v.staker_badge && whole(1) <= identity_amount.val()
}

/// The error a refused staker identity gives.
pub open spec fn identity_error(
    v: Validator,
    identity_resource: ResourceAddress,
    identity_amount: Decimal,
) -> ValidatorError {
    ValidatorError::Resource(
        check_resource_result(identity_resource, v.staker_badge, identity_amount, Decimal { raw: SCALE }),
    )
}

/// `old` became `new` by unstaking `amount` for badge `id` at `current`,
/// the badge recording `data` before and `d` after: the share shrinks by the
/// amount, which moves from the staked tokens to the unstake vault, and the
/// badge records the amount as unstaking until `current` plus the delay.
pub open spec fn unstaked_by(
    old: Validator,
    new: Validator,
    amount: Decimal,
    id: NonFungibleId,
    data: Staker,
    current: u64,
    d: Staker,
) -> bool {
    &&& d == Staker {
        unstaking: amount,
        end: (current + old.unstake_delay) as u64,
        unstaked: matured(data, current).unstaked,
    }
    &&& new.share_map() == old.share_map().insert(id, old.share_map()[id] - amount.val())
    &&& new.staked.val() == old.staked.val() - amount.val()
    &&& new.unstaking.val() == old.unstaking.val() + amount.val()
    &&& new == (Validator {
        stakers: new.stakers,
        staked: new.staked,
        unstaking: new.unstaking,
        ..old
    })
}

/// `old` became `new` by stopping, at `current`, the unstaking of badge
/// `id` recording `data` before and `d` after: the amount still unstaking
/// goes back to the share (if the badge has one) and from the unstake vault
/// to the staked tokens.
pub open spec fn unstake_stopped(
    old: Validator,
    new: Validator,
    id: NonFungibleId,
    data: Staker,
    current: u64,
    d: Staker,
) -> bool {
    let back = matured(data, current).unstaking.val();
    &&& d == Staker {
        unstaking: Decimal { raw: 0 },
        end: current,
        unstaked: matured(data, current).unstaked,
    }
    &&& new.share_map() == if old.share_map().dom().contains(id) {
        old.share_map().insert(id, old.share_map()[id] + back)
    } else {
        old.share_map()
    }
    &&& new.staked.val() == old.staked.val() + back
    &&& new.unstaking.val() == old.unstaking.val() - back
    &&& new == (Validator {
        stakers: new.stakers,
        staked: new.staked,
        unstaking: new.unstaking,
        ..old
    })
}

/// The shares scaled by the decimal of raw value `factor`.
pub open spec fn scaled_shares(shares: Seq<(NonFungibleId, Decimal)>, factor: int) -> Seq<
    (NonFungibleId, Decimal),
> {
    Seq::new(
        shares.len(),
        |i: int| (shares[i].0, Decimal { raw: mul_val(shares[i].1.val(), factor) as i128 }),
    )
}

/// Every share scaled by `factor` stays representable.
pub open spec fn shares_scalable(shares: Seq<(NonFungibleId, Decimal)>, factor: int) -> bool {
    forall|i: int| 0 <= i < shares.len() ==> fits(#[trigger] mul_val(shares[i].1.val(), factor))
}

/// The fee a reward at `rate` pays the validator: `rate * fee`.
pub open spec fn reward_fee(v: Validator, rate: Decimal) -> int {
    mul_val(rate.val(), v.fee.val())
}

/// The rate at which stakers' shares grow with a reward at `rate`:
/// `rate * (1 - fee)`.
pub open spec fn staker_rate(v: Validator, rate: Decimal) -> int {
    mul_val(rate.val(), whole(1) - v.fee.val())
}

/// The tokens minted as a reward at `rate`: `staked * rate`.
pub open spec fn reward(v: Validator, rate: Decimal) -> int {
    mul_val(v.staked.val(), rate.val())
}

/// The arithmetic of a reward at `rate` goes through, and the fee can be
/// taken out of what is minted.
pub open spec fn mint_computable(v: Validator, rate: Decimal) -> bool {
    &&& fits(reward_fee(v, rate))
    &&& fits(whole(1) - v.fee.val())
    &&& fits(staker_rate(v, rate))
    &&& fits(whole(1) + staker_rate(v, rate))
    &&& fits(reward(v, rate))
    &&& 0 <= reward_fee(v, rate) <= reward(v, rate)
    &&& fits(v.fees.val() + reward_fee(v, rate))
    &&& fits(v.staked.val() + (reward(v, rate) - reward_fee(v, rate)))
    &&& shares_scalable(v.stakers@, whole(1) + staker_rate(v, rate))
}

/// The tokens burned as a punishment at `rate`: `staked * rate`.
pub open spec fn punishment(v: Validator, rate: Decimal) -> int {
    mul_val(v.staked.val(), rate.val())
}

/// The arithmetic of a punishment at `rate` goes through, and the tokens
/// can be taken out of the staked vault.
pub open spec fn burn_computable(v: Validator, rate: Decimal) -> bool {
    &&& fits(punishment(v, rate))
    &&& 0 <= punishment(v, rate) <= v.staked.val()
    &&& fits(whole(1) - rate.val())
    &&& shares_scalable(v.stakers@, whole(1) - rate.val())
}

/// What [`Validator::stake`] asks of its callers: the new stake is
/// representable.
pub open spec fn stake_ready(v: Validator, resource: ResourceAddress, amount: Decimal) -> bool {
    resource == v.neura && 0 <= amount.val() ==> fits(v.staked.val() + amount.val())
}

/// What [`Validator::add_stake`] asks of its callers: the new stake and the
/// badge's new share are representable.
pub open spec fn add_stake_ready(
    v: Validator,
    resource: ResourceAddress,
    amount: Decimal,
    identity_resource: ResourceAddress,
    identity_amount: Decimal,
    id: NonFungibleId,
) -> bool {
    is_staker_identity(v, identity_resource, identity_amount) && resource == v.neura && 0
        <= amount.val() ==> {
        &&& fits(v.staked.val() + amount.val())
        &&& v.share_map().dom().contains(id) ==> fits(v.share_map()[id] + amount.val())
    }
}

/// What [`Validator::unstake`] asks of its callers: the badge's data can be
/// matured, a badge with nothing unstaking holds a share, and the sums of an
/// unstaking that is allowed are representable.
pub open spec fn unstake_ready(
    v: Validator,
    amount: Decimal,
    identity_resource: ResourceAddress,
    identity_amount: Decimal,
    id: NonFungibleId,
    data: Staker,
    current: u64,
) -> bool {
    let identity = is_staker_identity(v, identity_resource, identity_amount);
    &&& identity ==> maturable(data, current)
    &&& identity && matured(data, current).unstaking.val() == 0 ==> v.share_map().dom().contains(
        id,
    )
    &&& identity && matured(data, current).unstaking.val() == 0 && amount.val()
        <= v.share_map()[id] ==> {
        &&& fits(v.share_map()[id] - amount.val())
        &&& current + v.unstake_delay <= u64::MAX
        &&& 0 <= amount.val() <= v.staked.val()
        &&& fits(v.unstaking.val() + amount.val())
    }
}

/// What [`Validator::stop_unstake`] asks of its callers: the badge's data
/// can be matured and the tokens that come back fit the share and the stake
/// and are in the unstake vault.
pub open spec fn stop_unstake_ready(
    v: Validator,
    identity_resource: ResourceAddress,
    identity_amount: Decimal,
    id: NonFungibleId,
    data: Staker,
    current: u64,
) -> bool {
    let identity = is_staker_identity(v, identity_resource, identity_amount);
    &&& identity ==> maturable(data, current)
    &&& identity && matured(data, current).unstaking.val() != 0 ==> {
        let back = matured(data, current).unstaking.val();
        &&& v.share_map().dom().contains(id) ==> fits(v.share_map()[id] + back)
        &&& fits(v.staked.val() + back)
        &&& 0 <= back <= v.unstaking.val()
    }
}

/// What [`Validator::withdraw`] asks of its callers: the badge's data can
/// be matured and an allowed withdrawal is in the unstake vault.
pub open spec fn withdraw_ready(
    v: Validator,
    amount: Decimal,
    identity_resource: ResourceAddress,
    identity_amount: Decimal,
    data: Staker,
    current: u64,
) -> bool {
    let identity = is_staker_identity(v, identity_resource, identity_amount);
    &&& identity ==> maturable(data, current)
    &&& identity && amount.val() <= matured(data, current).unstaked.val() ==> 0 <= amount.val()
        <= v.unstaking.val()
}

impl Validator {
    /// Stakers' shares by badge.
    pub open spec fn share_map(&self) -> Map<NonFungibleId, int> {
        to_map(self.stakers@, staker_key(), staker_share())
    }

    /// No badge holds two shares.
    pub open spec fn wf(&self) -> bool {
        distinct_keys(self.stakers@, staker_key())
    }

    /// Sets up a validator named `name` charging `fee` percent; the fee must
    /// be a percentage in 0..=100 and is kept as a fraction.
    pub fn new(
        neura: ResourceAddress,
        staker_badge: ResourceAddress,
        name: String,
        fee: Decimal,
        unstake_delay: u64,
    ) -> (r: Result<Validator, ValidatorError>)
        ensures
            r is Err <==> !valid_fee(fee),
            r is Err ==> r == Err::<Validator, ValidatorError>(ValidatorError::FeeOutOfRange),
            r matches Ok(v) ==> {
                &&& v.wf()
                &&& v.stakers@.len() == 0
                &&& v.name == name
                &&& v.fee.val() == div_val(fee.val(), whole(100))
                &&& v.staked.val() == 0
                &&& v.unstaking.val() == 0
                &&& v.fees.val() == 0
                &&& v.staker_badge == staker_badge
                &&& v.neura == neura
                &&& v.unstake_delay == unstake_delay
                &&& v.datas@.len() == 0
                &&& !v.vote
                &&& !v.active
            },
    {
        if !check_fee(fee) {
            return Err(ValidatorError::FeeOutOfRange);
        }
        let hundred = Decimal::from_u64(100);
        proof {
            lemma_div_val_shrinks(fee.val(), hundred.val());
        }
        Ok(
            Validator {
                stakers: Vec::new(),
                name,
                fee: fee.div(hundred),
                staked: Decimal::zero(),
                unstaking: Decimal::zero(),
                fees: Decimal::zero(),
                staker_badge,
                neura,
                unstake_delay,
                datas: Vec::new(),
                vote: false,
                active: false,
            },
        )
    }

    /// Index of the share of badge `id`, if any.
    fn find_staker(&self, id: NonFungibleId) -> (r: Option<usize>)
        ensures
            r matches Some(i) ==> i < self.stakers@.len() && self.stakers@[i as int].0 == id,
            r is None ==> !self.share_map().dom().contains(id),
    {
        let mut i: usize = 0;
        while i < self.stakers.len()
            invariant
                i <= self.stakers@.len(),
                forall|j: int| 0 <= j < i ==> self.stakers@[j].0 != id,
            decreases self.stakers@.len() - i,
        {
            if self.stakers[i].0 == id {
                return Some(i);
            }
            i = i + 1;
        }
        proof {
            lemma_to_map_dom(self.stakers@, staker_key(), staker_share(), id);
        }
        None
    }

    /// Sets the share of badge `id` to `share`.
    fn set_share(&mut self, id: NonFungibleId, share: Decimal)
        requires
            old(self).wf(),
        ensures
            final(self).wf(),
            final(self).share_map() == old(self).share_map().insert(id, share.val()),
            *final(self) == (Validator { stakers: final(self).stakers, ..*old(self) }),
    {
        match self.find_staker(id) {
            Some(i) => {
                proof {
                    lemma_to_map_update(
                        self.stakers@,
                        staker_key(),
                        staker_share(),
                        i as int,
                        (id, share),
                    );
                }
                self.stakers.set(i, (id, share));
            },
            None => {
                proof {
                    lemma_to_map_push(self.stakers@, staker_key(), staker_share(), (id, share));
                }
                self.stakers.push((id, share));
            },
        }
    }

    /// The share of badge `id`, if it holds one.
    pub fn share_of(&self, id: NonFungibleId) -> (r: Option<Decimal>)
        requires
            self.wf(),
        ensures
            r is Some <==> self.share_map().dom().contains(id),
            r matches Some(d) ==> d.val() == self.share_map()[id],
    {
        match self.find_staker(id) {
            Some(i) => {
                proof {
                    lemma_to_map_index(self.stakers@, staker_key(), staker_share(), i as int);
                }
                Some(self.stakers[i].1)
            },
            None => None,
        }
    }

    /// Stakes `amount` of `resource` under the new badge `id`: the tokens
    /// must be the validator's token.  The badge records nothing unstaking.
    pub fn stake(&mut self, resource: ResourceAddress, amount: Decimal, id: NonFungibleId) -> (r:
        Result<Staker, ValidatorError>)
        requires
            old(self).wf(),
            stake_ready(*old(self), resource, amount),
        ensures
            final(self).wf(),
            r is Err <==> !(resource == old(self).neura && 0 <= amount.val()),
            r matches Err(e) ==> *final(self) == *old(self) && e == ValidatorError::Resource(
                check_resource_result(resource, old(self).neura, amount, Decimal { raw: 0 }),
            ),
            r matches Ok(data) ==> {
                &&& data.unstaking.val() == 0 && data.end == 0 && data.unstaked.val() == 0
                &&& final(self).share_map() == old(self).share_map().insert(id, amount.val())
                &&& final(self).staked.val() == old(self).staked.val() + amount.val()
                &&& *final(self) == (Validator {
                    stakers: final(self).stakers,
                    staked: final(self).staked,
                    ..*old(self)
                })
            },
    {
        match check_resource(resource, self.neura, amount, Decimal::zero()) {
            Err(e) => {
                return Err(ValidatorError::Resource(e));
            },
            Ok(()) => {},
        }
        self.set_share(id, amount);
        self.staked = self.staked.add(amount);
        Ok(Staker { unstaking: Decimal::zero(), end: 0, unstaked: Decimal::zero() })
    }

    /// Adds `amount` of `resource` to the stake of the holder of
    /// `identity_amount` of `identity_resource` with badge `id`: the identity
    /// must be one staker badge (checked first) and the tokens the
    /// validator's token.  A badge without a share adds to the staked tokens
    /// but to no share.
    pub fn add_stake(
        &mut self,
        resource: ResourceAddress,
        amount: Decimal,
        identity_resource: ResourceAddress,
        identity_amount: Decimal,
        id: NonFungibleId,
    ) -> (r: Result<(), ValidatorError>)
        requires
            old(self).wf(),
            add_stake_ready(*old(self), resource, amount, identity_resource, identity_amount, id),
        ensures
            final(self).wf(),
            r is Err <==> !(is_staker_identity(*old(self), identity_resource, identity_amount)
                && resource == old(self).neura && 0 <= amount.val()),
            r matches Err(e) ==> *final(self) == *old(self) && e == if !is_staker_identity(
                *old(self),
                identity_resource,
                identity_amount,
            ) {
                identity_error(*old(self), identity_resource, identity_amount)
            } else {
                ValidatorError::Resource(
                    check_resource_result(resource, old(self).neura, amount, Decimal { raw: 0 }),
                )
            },
            r is Ok ==> {
                &&& final(self).share_map() == if old(self).share_map().dom().contains(id) {
                    old(self).share_map().insert(id, old(self).share_map()[id] + amount.val())
                } else {
                    old(self).share_map()
                }
                &&& final(self).staked.val() == old(self).staked.val() + amount.val()
                &&& *final(self) == (Validator {
                    stakers: final(self).stakers,
                    staked: final(self).staked,
                    ..*old(self)
                })
            },
    {
        match check_resource(identity_resource, self.staker_badge, identity_amount, Decimal::one()) {
            Err(e) => {
                return Err(ValidatorError::Resource(e));
            },
            Ok(()) => {},
        }
        match check_resource(resource, self.neura, amount, Decimal::zero()) {
            Err(e) => {
                return Err(ValidatorError::Resource(e));
            },
            Ok(()) => {},
        }
        match self.share_of(id) {
            Some(share) => {
                self.set_share(id, share.add(amount));
            },
            None => {},
        }
        self.staked = self.staked.add(amount);
        Ok(())
    }

    /// The holder of `identity_amount` of `identity_resource`, with badge
    /// `id` recording `data`, starts unstaking `amount` at `current`.  The
    /// identity must be one staker badge; the badge's data is first matured
    /// (see [`matured`]); nothing may still be unstaking, and the amount may
    /// not exceed the badge's share.  The tokens become withdrawable after
    /// the unstake delay.
    pub fn unstake(
        &mut self,
        amount: Decimal,
        identity_resource: ResourceAddress,
        identity_amount: Decimal,
        id: NonFungibleId,
        data: Staker,
        current: u64,
    ) -> (r: Result<Staker, ValidatorError>)
        requires
            old(self).wf(),
            unstake_ready(*old(self), amount, identity_resource, identity_amount, id, data, current),
        ensures
            final(self).wf(),
            r is Err <==> !(is_staker_identity(*old(self), identity_resource, identity_amount)
                && matured(data, current).unstaking.val() == 0 && amount.val() <= old(
                self,
            ).share_map()[id]),
            r matches Err(e) ==> *final(self) == *old(self) && e == if !is_staker_identity(
                *old(self),
                identity_resource,
                identity_amount,
            ) {
                identity_error(*old(self), identity_resource, identity_amount)
            } else if matured(data, current).unstaking.val() != 0 {
                ValidatorError::StillUnstaking
            } else {
                ValidatorError::NotEnoughStaked
            },
            r matches Ok(d) ==> unstaked_by(*old(self), *final(self), amount, id, data, current, d),
            r matches Ok(d) ==> d.unstaking == amount && d.unstaked.val() == if current >= data.end {
                data.unstaked.val() + data.unstaking.val()
            } else {
                data.unstaked.val()
            },
    {
        match check_resource(identity_resource, self.staker_badge, identity_amount, Decimal::one()) {
            Err(e) => {
                return Err(ValidatorError::Resource(e));
            },
            Ok(()) => {},
        }
        let m = mature(data, current);
        if m.unstaking.raw != 0 {
            return Err(ValidatorError::StillUnstaking);
        }
        let share = match self.share_of(id) {
            Some(share) => share,
            None => {
                assert(false);
                Decimal::zero()
            },
        };
        if share.lt(amount) {
            return Err(ValidatorError::NotEnoughStaked);
        }
        self.set_share(id, share.sub(amount));
        let end = current + self.unstake_delay;
        self.staked = self.staked.sub(amount);
        self.unstaking = self.unstaking.add(amount);
        Ok(Staker { unstaking: amount, end, unstaked: m.unstaked })
    }

    /// The holder of `identity_amount` of `identity_resource`, with badge
    /// `id` recording `data`, stops at `current` its unstaking.  The identity
    /// must be one staker badge; the badge's data is first matured (see
    /// [`matured`]) and something must still be unstaking; it goes back to
    /// the stake.
    pub fn stop_unstake(
        &mut self,
        identity_resource: ResourceAddress,
        identity_amount: Decimal,
        id: NonFungibleId,
        data: Staker,
        current: u64,
    ) -> (r: Result<Staker, ValidatorError>)
        requires
            old(self).wf(),
            stop_unstake_ready(*old(self), identity_resource, identity_amount, id, data, current),
        ensures
            final(self).wf(),
            r is Err <==> !(is_staker_identity(*old(self), identity_resource, identity_amount)
                && matured(data, current).unstaking.val() != 0),
            r matches Err(e) ==> *final(self) == *old(self) && e == if !is_staker_identity(
                *old(self),
                identity_resource,
                identity_amount,
            ) {
                identity_error(*old(self), identity_resource, identity_amount)
            } else {
                ValidatorError::NothingUnstaking
            },
            r matches Ok(d) ==> unstake_stopped(*old(self), *final(self), id, data, current, d),
    {
        match check_resource(identity_resource, self.staker_badge, identity_amount, Decimal::one()) {
            Err(e) => {
                return Err(ValidatorError::Resource(e));
            },
            Ok(()) => {},
        }
        let m = mature(data, current);
        if m.unstaking.raw == 0 {
            return Err(ValidatorError::NothingUnstaking);
        }
        match self.share_of(id) {
            Some(share) => {
                self.set_share(id, share.add(m.unstaking));
            },
            None => {},
        }
        self.staked = self.staked.add(m.unstaking);
        self.unstaking = self.unstaking.sub(m.unstaking);
        Ok(Staker { unstaking: Decimal::zero(), end: current, unstaked: m.unstaked })
    }

    /// The holder of `identity_amount` of `identity_resource`, with a badge
    /// recording `data`, withdraws `amount` unstaked tokens at `current`.
    /// The identity must be one staker badge; the badge's data is first
    /// matured (see [`matured`]) and the amount may not exceed what it
    /// records as unstaked.  The answer is the amount taken from the unstake
    /// vault and the badge's data afterwards, which still records the same
    /// unstaked amount.
    pub fn withdraw(
        &mut self,
        amount: Decimal,
        identity_resource: ResourceAddress,
        identity_amount: Decimal,
        data: Staker,
        current: u64,
    ) -> (r: Result<(Decimal, Staker), ValidatorError>)
        requires
            old(self).wf(),
            withdraw_ready(*old(self), amount, identity_resource, identity_amount, data, current),
        ensures
            final(self).wf(),
            r is Err <==> !(is_staker_identity(*old(self), identity_resource, identity_amount)
                && amount.val() <= matured(data, current).unstaked.val()),
            r matches Err(e) ==> *final(self) == *old(self) && e == if !is_staker_identity(
                *old(self),
                identity_resource,
                identity_amount,
            ) {
                identity_error(*old(self), identity_resource, identity_amount)
            } else {
                ValidatorError::NotEnoughUnstaked
            },
            r matches Ok((out, d)) ==> {
                &&& out == amount
                &&& d == matured(data, current)
                &&& final(self).unstaking.val() == old(self).unstaking.val() - amount.val()
                &&& *final(self) == (Validator { unstaking: final(self).unstaking, ..*old(self) })
            },
    {
        match check_resource(identity_resource, self.staker_badge, identity_amount, Decimal::one()) {
            Err(e) => {
                return Err(ValidatorError::Resource(e));
            },
            Ok(()) => {},
        }
        let m = mature(data, current);
        if m.unstaked.lt(amount) {
            return Err(ValidatorError::NotEnoughUnstaked);
        }
        self.unstaking = self.unstaking.sub(amount);
        Ok((amount, m))
    }

    /// Records the validator's vote for the round and marks it active.
    pub fn vote(&mut self, vote: bool)
        ensures
            *final(self) == (Validator { active: true, vote, ..*old(self) }),
    {
        self.active = true;
        self.vote = vote;
    }

    /// Marks the validator inactive for the coming round.
    pub fn reset_status(&mut self)
        ensures
            *final(self) == (Validator { active: false, ..*old(self) }),
    {
        self.active = false;
    }

    /// Whether the validator took part in the current round.
    pub fn get_status(&self) -> (b: bool)
        ensures
            b == self.active,
    {
        self.active
    }

    /// The validator's vote in the current round.
    pub fn get_vote(&self) -> (b: bool)
        ensures
            b == self.vote,
    {
        self.vote
    }

    /// Scales every share by `factor`.
    fn scale_shares(&mut self, factor: Decimal)
        requires
            old(self).wf(),
            shares_scalable(old(self).stakers@, factor.val()),
        ensures
            final(self).wf(),
            final(self).stakers@ == scaled_shares(old(self).stakers@, factor.val()),
            *final(self) == (Validator { stakers: final(self).stakers, ..*old(self) }),
    {
        let ghost before = self.stakers@;
        let mut i: usize = 0;
        while i < self.stakers.len()
            invariant
                i <= self.stakers@.len(),
                self.stakers@.len() == before.len(),
                shares_scalable(before, factor.val()),
                forall|j: int|
                    0 <= j < i ==> self.stakers@[j] == scaled_shares(before, factor.val())[j],
                forall|j: int| i <= j < before.len() ==> self.stakers@[j] == before[j],
                *self == (Validator { stakers: self.stakers, ..*old(self) }),
                before == old(self).stakers@,
            decreases self.stakers@.len() - i,
        {
            let (id, share) = self.stakers[i];
            assert(fits(mul_val(before[i as int].1.val(), factor.val())));
            self.stakers.set(i, (id, share.mul(factor)));
            i = i + 1;
        }
        assert(self.stakers@ =~= scaled_shares(before, factor.val()));
        assert forall|a: int, b: int| 0 <= a < b < self.stakers@.len() implies staker_key()(
            self.stakers@[a],
        ) != staker_key()(self.stakers@[b]) by {
            assert(staker_key()(before[a]) != staker_key()(before[b]));
        }
    }

    /// Whether `identity_amount` of `identity_resource` is a staker badge.
    fn is_identity(&self, identity_resource: ResourceAddress, identity_amount: Decimal) -> (b: bool)
        ensures
            b == is_staker_identity(*self, identity_resource, identity_amount),
    {
        identity_resource == self.staker_badge && Decimal::one().le(identity_amount)
    }

    /// The badge's data matured at `current`, when that can be computed.
    fn try_mature(data: Staker, current: u64) -> (r: Option<Staker>)
        ensures
            r is Some <==> maturable(data, current),
            r matches Some(d) ==> d == matured(data, current),
    {
        if current >= data.end && data.unstaked.checked_add(data.unstaking).is_none() {
            return None;
        }
        Some(mature(data, current))
    }

    /// Whether [`Validator::stake`] may be called with these arguments.
    pub fn can_stake(&self, resource: ResourceAddress, amount: Decimal) -> (b: bool)
        ensures
            b == stake_ready(*self, resource, amount),
    {
        !(resource == self.neura && Decimal::zero().le(amount)) || self.staked.checked_add(
            amount,
        ).is_some()
    }

    /// Whether [`Validator::add_stake`] may be called with these arguments.
    pub fn can_add_stake(
        &self,
        resource: ResourceAddress,
        amount: Decimal,
        identity_resource: ResourceAddress,
        identity_amount: Decimal,
        id: NonFungibleId,
    ) -> (b: bool)
        requires
            self.wf(),
        ensures
            b == add_stake_ready(*self, resource, amount, identity_resource, identity_amount, id),
    {
        if !(self.is_identity(identity_resource, identity_amount) && resource == self.neura
            && Decimal::zero().le(amount)) {
            return true;
        }
        if self.staked.checked_add(amount).is_none() {
            return false;
        }
        match self.share_of(id) {
            Some(share) => share.checked_add(amount).is_some(),
            None => true,
        }
    }

    /// Whether [`Validator::unstake`] may be called with these arguments.
    pub fn can_unstake(
        &self,
        amount: Decimal,
        identity_resource: ResourceAddress,
        identity_amount: Decimal,
        id: NonFungibleId,
        data: Staker,
        current: u64,
    ) -> (b: bool)
        requires
            self.wf(),
        ensures
            b == unstake_ready(*self, amount, identity_resource, identity_amount, id, data, current),
    {
        if !self.is_identity(identity_resource, identity_amount) {
            return true;
        }
        let now = match Self::try_mature(data, current) {
            Some(d) => d,
            None => return false,
        };
        if now.unstaking.raw != 0 {
            return true;
        }
        let share = match self.share_of(id) {
            Some(share) => share,
            None => return false,
        };
        if !amount.le(share) {
            return true;
        }
        share.checked_sub(amount).is_some() && current.checked_add(self.unstake_delay).is_some()
            && Decimal::zero().le(amount) && amount.le(self.staked) && self.unstaking.checked_add(
            amount,
        ).is_some()
    }

    /// Whether [`Validator::stop_unstake`] may be called with these
    /// arguments.
    pub fn can_stop_unstake(
        &self,
        identity_resource: ResourceAddress,
        identity_amount: Decimal,
        id: NonFungibleId,
        data: Staker,
        current: u64,
    ) -> (b: bool)
        requires
            self.wf(),
        ensures
            b == stop_unstake_ready(*self, identity_resource, identity_amount, id, data, current),
    {
        if !self.is_identity(identity_resource, identity_amount) {
            return true;
        }
        let now = match Self::try_mature(data, current) {
            Some(d) => d,
            None => return false,
        };
        let back = now.unstaking;
        if back.raw == 0 {
            return true;
        }
        let share_fits = match self.share_of(id) {
            Some(share) => share.checked_add(back).is_some(),
            None => true,
        };
        share_fits && self.staked.checked_add(back).is_some() && Decimal::zero().le(back)
            && back.le(self.unstaking)
    }

    /// Whether [`Validator::withdraw`] may be called with these arguments.
    pub fn can_withdraw(
        &self,
        amount: Decimal,
        identity_resource: ResourceAddress,
        identity_amount: Decimal,
        data: Staker,
        current: u64,
    ) -> (b: bool)
        ensures
            b == withdraw_ready(*self, amount, identity_resource, identity_amount, data, current),
    {
        if !self.is_identity(identity_resource, identity_amount) {
            return true;
        }
        let now = match Self::try_mature(data, current) {
            Some(d) => d,
            None => return false,
        };
        !amount.le(now.unstaked) || (Decimal::zero().le(amount) && amount.le(self.unstaking))
    }

    /// Whether every share scaled by `factor` stays representable.
    fn shares_scalable_check(&self, factor: Decimal) -> (b: bool)
        ensures
            b == shares_scalable(self.stakers@, factor.val()),
    {
        let mut i: usize = 0;
        while i < self.stakers.len()
            invariant
                i <= self.stakers@.len(),
                forall|j: int|
                    0 <= j < i ==> fits(#[trigger] mul_val(self.stakers@[j].1.val(), factor.val())),
            decreases self.stakers@.len() - i,
        {
            if self.stakers[i].1.checked_mul(factor).is_none() {
                return false;
            }
            i = i + 1;
        }
        true
    }

    /// Whether a reward at `rate` can be computed (see [`mint_computable`]),
    /// as [`Validator::mint`] asks of its callers.
    pub fn can_mint(&self, rate: Decimal) -> (b: bool)
        ensures
            b == mint_computable(*self, rate),
    {
        let fee = match rate.checked_mul(self.fee) {
            Some(f) => f,
            None => return false,
        };
        let keep = match Decimal::one().checked_sub(self.fee) {
            Some(k) => k,
            None => return false,
        };
        let staker_rate = match rate.checked_mul(keep) {
            Some(r) => r,
            None => return false,
        };
        let factor = match Decimal::one().checked_add(staker_rate) {
            Some(f) => f,
            None => return false,
        };
        let reward = match self.staked.checked_mul(rate) {
            Some(r) => r,
            None => return false,
        };
        if fee.raw < 0 || reward.raw < fee.raw {
            return false;
        }
        if self.fees.checked_add(fee).is_none() {
            return false;
        }
        if self.staked.checked_add(reward.sub(fee)).is_none() {
            return false;
        }
        self.shares_scalable_check(factor)
    }

    /// Whether a punishment at `rate` can be computed (see
    /// [`burn_computable`]), as [`Validator::burn`] asks of its callers.
    pub fn can_burn(&self, rate: Decimal) -> (b: bool)
        ensures
            b == burn_computable(*self, rate),
    {
        let punish = match self.staked.checked_mul(rate) {
            Some(p) => p,
            None => return false,
        };
        if punish.raw < 0 || self.staked.raw < punish.raw {
            return false;
        }
        let factor = match Decimal::one().checked_sub(rate) {
            Some(f) => f,
            None => return false,
        };
        self.shares_scalable_check(factor)
    }

    /// Rewards the validator at `rate`: `staked * rate` new tokens are
    /// minted, of which `rate * fee` go to the fee vault and the rest to the
    /// stake, and every share grows by the factor `1 + rate * (1 - fee)`.
    /// The answer is the number of tokens minted.
    pub fn mint(&mut self, rate: Decimal) -> (minted: Decimal)
        requires
            old(self).wf(),
            mint_computable(*old(self), rate),
        ensures
            final(self).wf(),
            minted.val() == reward(*old(self), rate),
            final(self).fees.val() == old(self).fees.val() + reward_fee(*old(self), rate),
            final(self).staked.val() == old(self).staked.val() + (reward(*old(self), rate)
                - reward_fee(*old(self), rate)),
            final(self).stakers@ == scaled_shares(
                old(self).stakers@,
                whole(1) + staker_rate(*old(self), rate),
            ),
            final(self).share_map().dom() == old(self).share_map().dom(),
            forall|id: NonFungibleId|
                #![trigger final(self).share_map()[id]]
                old(self).share_map().dom().contains(id) ==> final(self).share_map()[id] == mul_val(
                    old(self).share_map()[id],
                    whole(1) + staker_rate(*old(self), rate),
                ),
            *final(self) == (Validator {
                stakers: final(self).stakers,
                staked: final(self).staked,
                fees: final(self).fees,
                ..*old(self)
            }),
    {
        proof {
            lemma_scaling_scales_every_share(self.stakers@, whole(1) + staker_rate(*self, rate));
        }
        let amount = self.staked;
        let fee = rate.mul(self.fee);
        let one = Decimal::one();
        let staker_rate = rate.mul(one.sub(self.fee));
        let reward = amount.mul(rate);
        self.fees = self.fees.add(fee);
        self.scale_shares(one.add(staker_rate));
        self.staked = self.staked.add(reward.sub(fee));
        reward
    }

    /// Punishes the validator at `rate`: `staked * rate` staked tokens are
    /// burned and every share shrinks by the factor `1 - rate`.  The answer
    /// is the number of tokens burned.
    pub fn burn(&mut self, rate: Decimal) -> (burned: Decimal)
        requires
            old(self).wf(),
            burn_computable(*old(self), rate),
        ensures
            final(self).wf(),
            burned.val() == punishment(*old(self), rate),
            final(self).staked.val() == old(self).staked.val() - punishment(*old(self), rate),
            final(self).stakers@ == scaled_shares(old(self).stakers@, whole(1) - rate.val()),
            final(self).share_map().dom() == old(self).share_map().dom(),
            forall|id: NonFungibleId|
                #![trigger final(self).share_map()[id]]
                old(self).share_map().dom().contains(id) ==> final(self).share_map()[id] == mul_val(
                    old(self).share_map()[id],
                    whole(1) - rate.val(),
                ),
            *final(self) == (Validator {
                stakers: final(self).stakers,
                staked: final(self).staked,
                ..*old(self)
            }),
    {
        proof {
            lemma_scaling_scales_every_share(self.stakers@, whole(1) - rate.val());
        }
        let punish = self.staked.mul(rate);
        self.staked = self.staked.sub(punish);
        let one = Decimal::one();
        self.scale_shares(one.sub(rate));
        punish
    }

    /// Sets the validator's fee to `fee`, which must be a percentage in
    /// 0..=100; it is kept as given.
    pub fn change_fee(&mut self, fee: Decimal) -> (r: Result<(), ValidatorError>)
        ensures
            r is Err <==> !valid_fee(fee),
            r is Err ==> r == Err::<(), ValidatorError>(ValidatorError::FeeOutOfRange)
                && *final(self) == *old(self),
            r is Ok ==> *final(self) == (Validator { fee, ..*old(self) }),
    {
        if !check_fee(fee) {
            return Err(ValidatorError::FeeOutOfRange);
        }
        self.fee = fee;
        Ok(())
    }

    /// Empties the fee vault; the answer is what it held.
    pub fn withdraw_fee(&mut self) -> (taken: Decimal)
        ensures
            taken == old(self).fees,
            *final(self) == (Validator { fees: Decimal { raw: 0 }, ..*old(self) }),
    {
        let taken = self.fees;
        self.fees = Decimal::zero();
        taken
    }

    /// Replaces the data the validator reports.
    pub fn update_data(&mut self, datas: Vec<(String, String)>)
        ensures
            *final(self) == (Validator { datas, ..*old(self) }),
    {
        self.datas = datas;
    }

    /// A copy of the data the validator reports.
    pub fn get_data(&self) -> (d: Vec<(String, String)>)
        ensures
            d@.len() == self.datas@.len(),
            forall|i: int|
                0 <= i < d@.len() ==> d@[i].0@ == self.datas@[i].0@ && d@[i].1@ == self.datas@[i].1@,
    {
        let mut d: Vec<(String, String)> = Vec::new();
        let mut i: usize = 0;
        while i < self.datas.len()
            invariant
                i <= self.datas@.len(),
                d@.len() == i,
                forall|j: int|
                    0 <= j < i ==> d@[j].0@ == self.datas@[j].0@ && d@[j].1@ == self.datas@[j].1@,
            decreases self.datas@.len() - i,
        {
            d.push((self.datas[i].0.clone(), self.datas[i].1.clone()));
            i = i + 1;
        }
        d
    }

    /// The number of tokens staked with the validator.
    pub fn get_current_staked_value(&self) -> (d: Decimal)
        ensures
            d == self.staked,
    {
        self.staked
    }
}

/// The badge's data matured at `current` (see [`matured`]).
pub fn mature(data: Staker, current: u64) -> (d: Staker)
    requires
        maturable(data, current),
    ensures
        d == matured(data, current),
{
    if current >= data.end {
        Staker {
            unstaking: Decimal::zero(),
            end: current,
            unstaked: data.unstaked.add(data.unstaking),
        }
    } else {
        data
    }
}

/// Stopping an unstaking before it completes undoes it: the badge's share,
/// the staked tokens and the unstake vault are back to what they were before
/// the unstaking, and the badge records nothing unstaking and the same
/// unstaked amount as right after the unstaking started.
pub proof fn lemma_stop_unstake_undoes_unstake(
    v0: Validator,
    v1: Validator,
    v2: Validator,
    amount: Decimal,
    id: NonFungibleId,
    data0: Staker,
    c1: u64,
    d1: Staker,
    c2: u64,
    d2: Staker,
)
    requires
        v0.share_map().dom().contains(id),
        unstaked_by(v0, v1, amount, id, data0, c1, d1),
        unstake_stopped(v1, v2, id, d1, c2, d2),
        c2 < d1.end,
    ensures
        v2.share_map() == v0.share_map(),
        v2.staked.val() == v0.staked.val(),
        v2.unstaking.val() == v0.unstaking.val(),
        v2.fees == v0.fees,
        d2.unstaking.val() == 0,
        d2.unstaked == d1.unstaked,
{
    assert(matured(d1, c2) == d1);
    assert(v1.share_map().dom().contains(id));
    assert(v2.share_map() =~= v0.share_map());
}

/// Unstaking and stopping it move tokens between the staked tokens and the
/// unstake vault and never change their sum.
pub proof fn lemma_unstaking_keeps_tokens(
    v0: Validator,
    v1: Validator,
    v2: Validator,
    amount: Decimal,
    id: NonFungibleId,
    data0: Staker,
    c1: u64,
    d1: Staker,
    data1: Staker,
    c2: u64,
    d2: Staker,
)
    requires
        unstaked_by(v0, v1, amount, id, data0, c1, d1),
        unstake_stopped(v1, v2, id, data1, c2, d2),
    ensures
        v1.staked.val() + v1.unstaking.val() == v0.staked.val() + v0.unstaking.val(),
        v2.staked.val() + v2.unstaking.val() == v1.staked.val() + v1.unstaking.val(),
{
}

/// Unstaked tokens stay locked until the unstaking's end: before it, what a
/// badge may withdraw is what it recorded as unstaked already; from it on,
/// the amount unstaking is added to it.
pub proof fn lemma_unstaking_locked_until_end(d: Staker, current: u64)
    requires
        maturable(d, current),
    ensures
        current < d.end ==> matured(d, current).unstaked == d.unstaked,
        current >= d.end ==> matured(d, current).unstaked.val() == d.unstaked.val()
            + d.unstaking.val(),
{
}

/// Scaling the shares by `factor` scales every staker's share: the same
/// badges hold a share afterwards, and each holds its old share times the
/// factor.
pub proof fn lemma_scaling_scales_every_share(shares: Seq<(NonFungibleId, Decimal)>, factor: int)
    requires
        distinct_keys(shares, staker_key()),
        shares_scalable(shares, factor),
    ensures
        ({
            let before = to_map(shares, staker_key(), staker_share());
            let after = to_map(scaled_shares(shares, factor), staker_key(), staker_share());
            &&& after.dom() == before.dom()
            &&& forall|id: NonFungibleId|
                #![trigger after[id]]
                before.dom().contains(id) ==> after[id] == mul_val(before[id], factor)
        }),
{
    let scaled = scaled_shares(shares, factor);
    let before = to_map(shares, staker_key(), staker_share());
    let after = to_map(scaled, staker_key(), staker_share());
    assert forall|a: int, b: int| 0 <= a < b < scaled.len() implies staker_key()(scaled[a])
        != staker_key()(scaled[b]) by {
        assert(staker_key()(shares[a]) != staker_key()(shares[b]));
    }
    assert forall|id: NonFungibleId| after.dom().contains(id) <==> before.dom().contains(id) by {
        lemma_to_map_dom(shares, staker_key(), staker_share(), id);
        lemma_to_map_dom(scaled, staker_key(), staker_share(), id);
        if before.dom().contains(id) {
            let i = choose|i: int| 0 <= i < shares.len() && staker_key()(shares[i]) == id;
            assert(staker_key()(scaled[i]) == id);
        }
        if after.dom().contains(id) {
            let i = choose|i: int| 0 <= i < scaled.len() && staker_key()(scaled[i]) == id;
            assert(staker_key()(shares[i]) == id);
        }
    }
    assert(after.dom() =~= before.dom());
    assert forall|id: NonFungibleId| before.dom().contains(id) implies after[id] == mul_val(
        before[id],
        factor,
    ) by {
        lemma_to_map_dom(shares, staker_key(), staker_share(), id);
        let i = choose|i: int| 0 <= i < shares.len() && staker_key()(shares[i]) == id;
        lemma_to_map_index(shares, staker_key(), staker_share(), i);
        lemma_to_map_index(scaled, staker_key(), staker_share(), i);
        assert(fits(mul_val(shares[i].1.val(), factor)));
    }
}

/// Unstaking keeps what had already matured: the badge data an unstaking
/// returns records the new amount as unstaking, and as unstaked what the
/// badge had unstaked plus, once its previous unstaking has ended, what
/// that unstaking released.
pub proof fn lemma_unstake_keeps_matured_tokens(
    old: Validator,
    new: Validator,
    amount: Decimal,
    id: NonFungibleId,
    data: Staker,
    current: u64,
    d: Staker,
)
    requires
        maturable(data, current),
        unstaked_by(old, new, amount, id, data, current, d),
    ensures
        d.unstaking == amount,
        current >= data.end ==> d.unstaked.val() == data.unstaked.val() + data.unstaking.val(),
        current < data.end ==> d.unstaked == data.unstaked,
{
}

} // verus!
