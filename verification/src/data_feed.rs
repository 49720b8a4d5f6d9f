//! The NeuRacle component in its data-feed form: it keeps one validated
//! datum per api itself, lets the round's leader propose new data, and
//! settles rewards and punishments when the round ends.
//!
//! As in [`crate::neuracle`], the ledger side stays outside: the state here
//! holds what the component decides on, and each method returns what the
//! ledger must do.
use vstd::prelude::*;
use vstd::string::StringExecFns;
use vstd::utf8::encode_utf8;

use crate::address::{ComponentAddress, ResourceAddress};
use crate::data_api::{Settlement, penalty, settle, settlement};
use crate::decimal::{
    Decimal,
    SCALE,
    text_value,
    div_val,
    fits,
    lemma_div_val_shrinks,
    mul_val,
    whole,
};
use crate::keyed::{
    distinct_keys,
    lemma_to_map_dom,
    lemma_to_map_index,
    lemma_to_map_push,
    lemma_to_map_update,
    to_map,
};
use crate::neuracle::{
    Payment,
    ballots_for,
    build_ballots,
    burned_amount,
    copy_entries,
    paid_rounds,
    pay_for_rounds,
    lemma_whole_rounds,
    payment_computable,
    quote_payment,
};
use crate::ranking::{rank_by_weight, ranked, validator_key};
use crate::stable_coin::{Swap, SwapError};
use crate::utilities::{
    Ballot,
    ResourceError,
    approving_weight,
    check_fee,
    check_resource,
    check_resource_result,
    tally_fits,
    tally_fits_check,
    total_weight,
    valid_fee,
    verdict,
    vote_for_api,
};

verus! {

/// Data of a validator badge.
pub struct ValidatorData {
    pub name: String,
    pub location: String,
    pub website: String,
    pub address: String,
}

/// Data of a user badge: until which epoch the user may read the datum of
/// which api (an end of zero never runs out).
pub struct UserData {
    pub end: u64,
    pub api: String,
}

/// Why a call on the component was refused.
#[derive(Clone, Copy, Debug, PartialEq, Eq, Structural)]
pub enum FeedError {
    FeeOutOfRange,
    NotFirstStage,
    NotSecondStage,
    Resource(ResourceError),
    OutOfTime,
    PreviousRoundNotEnded,
    NotTimeForNewRound,
    RoundNotStarted,
    NotEnoughActive,
}

impl FeedError {
    /// The message the component aborts with.
    pub fn message(&self) -> (s: &'static str)
        ensures
            *self == FeedError::FeeOutOfRange ==> s@ == "Fee must be in the range of 0 to 100"@,
            *self == FeedError::NotFirstStage ==> s@ == "assertion failed: self.stage == 1"@,
            *self == FeedError::NotSecondStage ==> s@ == "assertion failed: self.stage == 2"@,
            *self == FeedError::Resource(ResourceError::WrongResource) ==> s@
                == "Wrong resource address."@,
            *self == FeedError::Resource(ResourceError::NotEnoughResource) ==> s@
                == "Not enough resource."@,
            *self == FeedError::OutOfTime ==> s@
                == "Run out of time, you cannot access this data for now, please refund your account."@,
            *self == FeedError::PreviousRoundNotEnded ==> s@ == "Previous round haven't ended yet!"@,
            *self == FeedError::NotTimeForNewRound ==> s@ == "Not time to start a new round yet!"@,
            *self == FeedError::RoundNotStarted ==> s@ == "New round hasn't started yet!"@,
            *self == FeedError::NotEnoughActive ==> s@ == "Not enough validator active yet!"@,
    {
        match self {
            FeedError::FeeOutOfRange => "Fee must be in the range of 0 to 100",
            FeedError::NotFirstStage => "assertion failed: self.stage == 1",
            FeedError::NotSecondStage => "assertion failed: self.stage == 2",
            FeedError::Resource(e) => e.message(),
            FeedError::OutOfTime =>
                "Run out of time, you cannot access this data for now, please refund your account.",
            FeedError::PreviousRoundNotEnded => "Previous round haven't ended yet!",
            FeedError::NotTimeForNewRound => "Not time to start a new round yet!",
            FeedError::RoundNotStarted => "New round hasn't started yet!",
            FeedError::NotEnoughActive => "Not enough validator active yet!",
        }
    }
}

/// The plain state of the data-feed NeuRacle component.
pub struct NeuRacle {
    /// The validated datum of each api.
    pub datas: Vec<(String, String)>,
    /// The data the round's leader proposed, by api.
    pub non_validated_datas: Vec<(String, String)>,
    pub stable_coins: Vec<(ComponentAddress, String)>,
    pub validators: Vec<(ComponentAddress, Decimal)>,
    pub validator_cap: usize,
    pub neura: ResourceAddress,
    pub validator_badge: ResourceAddress,
    pub user_badge: ResourceAddress,
    pub pay_rate: Decimal,
    pub fee_stablecoin: Decimal,
    pub unstake_delay: u64,
    pub stage: u8,
    pub round_length: u64,
    pub reward_rate: Decimal,
    pub punishment: Decimal,
    pub system_time: u64,
    pub round_start: bool,
    pub active_validators: Vec<(ComponentAddress, Decimal)>,
    /// The validator that proposed this round's data, once one did.
    pub leader: Option<ComponentAddress>,
}

pub open spec fn datum_key() -> spec_fn((String, String)) -> Seq<char> {
    |e: (String, String)| e.0@
}

pub open spec fn datum_value() -> spec_fn((String, String)) -> Seq<char> {
    |e: (String, String)| e.1@
}

pub open spec fn coin_key() -> spec_fn((ComponentAddress, String)) -> ComponentAddress {
    |e: (ComponentAddress, String)| e.0
}

pub open spec fn coin_name() -> spec_fn((ComponentAddress, String)) -> Seq<char> {
    |e: (ComponentAddress, String)| e.1@
}

/// The validators that report active this round, in order.
pub open spec fn still_active(
    active: Seq<(ComponentAddress, Decimal)>,
    statuses: Seq<bool>,
) -> Seq<(ComponentAddress, Decimal)>
    decreases active.len(),
{
    if active.len() == 0 {
        Seq::empty()
    } else {
        let prev = still_active(active.drop_last(), statuses);
        if statuses[active.len() - 1] {
            prev.push(active.last())
        } else {
            prev
        }
    }
}

/// A round may end when more than two thirds of the active validators
/// report active.
pub open spec fn quorum(reporting: int, active: int) -> bool {
    reporting * 3 > active * 2
}

/// The validators with their weights replaced by `stakes`, one per
/// validator in order.
pub open spec fn with_stakes(
    validators: Seq<(ComponentAddress, Decimal)>,
    stakes: Seq<Decimal>,
) -> Seq<(ComponentAddress, Decimal)> {
    Seq::new(validators.len(), |i: int| (validators[i].0, stakes[i]))
}

impl NeuRacle {
    /// The validated datum by api.
    pub open spec fn data_map(&self) -> Map<Seq<char>, Seq<char>> {
        to_map(self.datas@, datum_key(), datum_value())
    }

    /// The stable coin projects: component to name.
    pub open spec fn stable_coin_map(&self) -> Map<ComponentAddress, Seq<char>> {
        to_map(self.stable_coins@, coin_key(), coin_name())
    }

    /// The vectors standing for maps have no key twice, no validator is
    /// registered twice, and rounds have a length.
    pub open spec fn wf(&self) -> bool {
        &&& distinct_keys(self.datas@, datum_key())
        &&& distinct_keys(self.non_validated_datas@, datum_key())
        &&& distinct_keys(self.stable_coins@, coin_key())
        &&& distinct_keys(self.validators@, validator_key())
        &&& distinct_keys(self.active_validators@, validator_key())
        &&& self.round_length > 0
    }

    /// What [`NeuRacle::become_new_user`] asks of its callers: an accepted
    /// payment can be split (see [`payment_computable`]) and the badge's end
    /// epoch fits a `u64`.
    pub open spec fn subscribe_ready(
        &self,
        payment_resource: ResourceAddress,
        amount: Decimal,
        current: u64,
    ) -> bool {
        payment_resource == self.neura && self.pay_rate.val() <= amount.val() ==> {
            &&& payment_computable(amount.val(), self.pay_rate.val())
            &&& current + (paid_rounds(amount.val(), self.pay_rate.val()) / SCALE as int) * self.round_length <= u64::MAX
        }
    }

    /// What [`NeuRacle::refund_account`] asks of its callers: an accepted
    /// payment can be split and the new end epoch fits a `u64`.
    pub open spec fn refund_ready(
        &self,
        identity_resource: ResourceAddress,
        identity_amount: Decimal,
        payment_resource: ResourceAddress,
        amount: Decimal,
        current: u64,
    ) -> bool {
        identity_resource == self.user_badge && whole(1) <= identity_amount.val()
            && payment_resource == self.neura && 0 <= amount.val() ==> {
            &&& payment_computable(amount.val(), self.pay_rate.val())
            &&& current + (paid_rounds(amount.val(), self.pay_rate.val()) / SCALE as int) * self.round_length <= u64::MAX
        }
    }

    /// The epoch-derived round number: `epoch / round_length`.
    pub open spec fn round_of(&self, epoch: u64) -> int {
        epoch as int / self.round_length as int
    }

    /// What [`NeuRacle::end_round`] asks of the reports handed to it: when a
    /// round is running, one status and one vote per active validator, and,
    /// when enough of them report, a representable tally and penalty, a
    /// leader to punish when the data is rejected, and a next round number
    /// that fits a `u64`.
    pub open spec fn end_round_ready(&self, current: u64, statuses: Seq<bool>, votes: Seq<bool>) -> bool {
        &&& self.round_start ==> statuses.len() == self.active_validators@.len() && votes.len()
            == self.active_validators@.len()
        &&& self.round_start && quorum(
            still_active(self.active_validators@, statuses).len() as int,
            self.active_validators@.len() as int,
        ) ==> {
            let b = ballots_for(self.active_validators@, statuses, votes);
            &&& tally_fits(b)
            &&& fits(penalty(self.reward_rate, self.punishment))
            &&& fits(5 * penalty(self.reward_rate, self.punishment))
            &&& verdict(approving_weight(b), total_weight(b)) == Some(false) ==> self.leader is Some
            &&& self.round_of(current) + 1 <= u64::MAX
        }
    }

    /// Sets up the component at epoch `current_epoch` with the resources the
    /// ledger created for it.  The stable coin fee must be a percentage in
    /// 0..=100; the reward rate is given in percent and kept as a fraction.
    pub fn new(
        validator_cap: usize,
        round_length: u64,
        pay_rate: Decimal,
        fee_stablecoin: Decimal,
        unstake_delay: u64,
        reward_rate: Decimal,
        punishment: Decimal,
        current_epoch: u64,
        neura: ResourceAddress,
        validator_badge: ResourceAddress,
        user_badge: ResourceAddress,
    ) -> (r: Result<NeuRacle, FeedError>)
        requires
            round_length > 0,
        ensures
            r is Err <==> !valid_fee(fee_stablecoin),
            r is Err ==> r == Err::<NeuRacle, FeedError>(FeedError::FeeOutOfRange),
            r matches Ok(s) ==> {
                &&& s.wf()
                &&& s.datas@.len() == 0
                &&& s.non_validated_datas@.len() == 0
                &&& s.stable_coins@.len() == 0
                &&& s.validators@.len() == 0
                &&& s.active_validators@.len() == 0
                &&& s.leader is None
                &&& s.validator_cap == validator_cap
                &&& s.round_length == round_length
                &&& s.pay_rate == pay_rate
                &&& s.fee_stablecoin == fee_stablecoin
                &&& s.unstake_delay == unstake_delay
                &&& s.reward_rate.val() == div_val(reward_rate.val(), whole(100))
                &&& s.punishment == punishment
                &&& s.stage == 1
                &&& s.system_time == current_epoch / round_length
                &&& !s.round_start
                &&& s.neura == neura
                &&& s.validator_badge == validator_badge
                &&& s.user_badge == user_badge
            },
    {
        let system_time = current_epoch / round_length;
        if !check_fee(fee_stablecoin) {
            return Err(FeedError::FeeOutOfRange);
        }
        let hundred = Decimal::from_u64(100);
        proof {
            lemma_div_val_shrinks(reward_rate.val(), hundred.val());
        }
        Ok(
            NeuRacle {
                datas: Vec::new(),
                non_validated_datas: Vec::new(),
                stable_coins: Vec::new(),
                validators: Vec::new(),
                validator_cap,
                neura,
                validator_badge,
                user_badge,
                pay_rate,
                fee_stablecoin,
                unstake_delay,
                stage: 1,
                round_length,
                reward_rate: reward_rate.div(hundred),
                punishment,
                system_time,
                round_start: false,
                active_validators: Vec::new(),
                leader: None,
            },
        )
    }

    /// Index of the api `api` among the data, if any.
    fn find_api(&self, api: &String) -> (r: Option<usize>)
        ensures
            r matches Some(i) ==> i < self.datas@.len() && self.datas@[i as int].0@ == api@,
            r is None ==> !self.data_map().dom().contains(api@),
    {
        let mut i: usize = 0;
        while i < self.datas.len()
            invariant
                i <= self.datas@.len(),
                forall|j: int| 0 <= j < i ==> self.datas@[j].0@ != api@,
            decreases self.datas@.len() - i,
        {
            if self.datas[i].0 == *api {
                return Some(i);
            }
            i = i + 1;
        }
        proof {
            lemma_to_map_dom(self.datas@, datum_key(), datum_value(), api@);
        }
        None
    }

    /// Makes `api` one of the apis the component serves, with an empty datum
    /// until a round validates one; an api already served is left as it is.
    pub fn register_api(&mut self, api: String)
        requires
            old(self).wf(),
        ensures
            final(self).wf(),
            final(self).data_map() == if old(self).data_map().dom().contains(api@) {
                old(self).data_map()
            } else {
                old(self).data_map().insert(api@, Seq::<char>::empty())
            },
            *final(self) == (NeuRacle { datas: final(self).datas, ..*old(self) }),
    {
        match self.find_api(&api) {
            Some(i) => {
                proof {
                    lemma_to_map_index(self.datas@, datum_key(), datum_value(), i as int);
                }
            },
            None => {
                let entry = (api, String::new());
                proof {
                    lemma_to_map_push(self.datas@, datum_key(), datum_value(), entry);
                }
                self.datas.push(entry);
            },
        }
    }

    /// The validated datum of `api`, if it is served.
    pub fn datum(&self, api: &String) -> (r: Option<String>)
        requires
            self.wf(),
        ensures
            r is Some <==> self.data_map().dom().contains(api@),
            r matches Some(d) ==> d@ == self.data_map()[api@],
    {
        match self.find_api(api) {
            Some(i) => {
                proof {
                    lemma_to_map_index(self.datas@, datum_key(), datum_value(), i as int);
                }
                Some(self.datas[i].1.clone())
            },
            None => None,
        }
    }

    fn register_validator(&mut self, validator: ComponentAddress)
        requires
            old(self).wf(),
            forall|i: int|
                0 <= i < old(self).validators@.len() ==> old(self).validators@[i].0 != validator,
        ensures
            final(self).wf(),
            final(self).validators@ == old(self).validators@.push((validator, Decimal { raw: 0 })),
            *final(self) == (NeuRacle { validators: final(self).validators, ..*old(self) }),
    {
        let ghost before = self.validators@;
        self.validators.push((validator, Decimal::zero()));
        proof {
            let after = self.validators@;
            assert forall|i: int, j: int| 0 <= i < j < after.len() implies validator_key()(after[i])
                != validator_key()(after[j]) by {
                if j < before.len() {
                    assert(validator_key()(before[i]) != validator_key()(before[j]));
                }
            }
        }
    }

    /// Registers the newly created validator component `validator` with no
    /// weight yet; only while the component is in its first stage.
    pub fn create_new_validator_node(&mut self, validator: ComponentAddress) -> (r: Result<
        (),
        FeedError,
    >)
        requires
            old(self).wf(),
            forall|i: int|
                0 <= i < old(self).validators@.len() ==> old(self).validators@[i].0 != validator,
        ensures
            final(self).wf(),
            r is Err <==> old(self).stage != 1,
            r is Err ==> r == Err::<(), FeedError>(FeedError::NotFirstStage) && *final(self)
                == *old(self),
            r is Ok ==> final(self).validators@ == old(self).validators@.push(
                (validator, Decimal { raw: 0 }),
            ) && *final(self) == (NeuRacle { validators: final(self).validators, ..*old(self) }),
    {
        if self.stage != 1 {
            return Err(FeedError::NotFirstStage);
        }
        self.register_validator(validator);
        Ok(())
    }

    /// Registers the newly created validator component `validator` with no
    /// weight yet; only once the component is in its second stage.
    pub fn become_new_validator(&mut self, validator: ComponentAddress) -> (r: Result<
        (),
        FeedError,
    >)
        requires
            old(self).wf(),
            forall|i: int|
                0 <= i < old(self).validators@.len() ==> old(self).validators@[i].0 != validator,
        ensures
            final(self).wf(),
            r is Err <==> old(self).stage != 2,
            r is Err ==> r == Err::<(), FeedError>(FeedError::NotSecondStage) && *final(self)
                == *old(self),
            r is Ok ==> final(self).validators@ == old(self).validators@.push(
                (validator, Decimal { raw: 0 }),
            ) && *final(self) == (NeuRacle { validators: final(self).validators, ..*old(self) }),
    {
        if self.stage != 2 {
            return Err(FeedError::NotSecondStage);
        }
        self.register_validator(validator);
        Ok(())
    }

    /// Whether [`NeuRacle::become_new_user`] may be called with these
    /// arguments (see [`NeuRacle::subscribe_ready`]).
    pub fn can_subscribe(&self, payment_resource: ResourceAddress, amount: Decimal, current: u64) -> (b:
        bool)
        ensures
            b == self.subscribe_ready(payment_resource, amount, current),
    {
        if !(payment_resource == self.neura && self.pay_rate.le(amount)) {
            return true;
        }
        let payment = match quote_payment(amount, self.pay_rate) {
            Some(p) => p,
            None => return false,
        };
        proof {
            lemma_whole_rounds(payment.rounds);
        }
        let length = match payment.rounds.checked_mul(self.round_length) {
            Some(l) => l,
            None => return false,
        };
        current.checked_add(length).is_some()
    }

    /// Whether [`NeuRacle::refund_account`] may be called with these
    /// arguments (see [`NeuRacle::refund_ready`]).
    pub fn can_refund(
        &self,
        identity_resource: ResourceAddress,
        identity_amount: Decimal,
        payment_resource: ResourceAddress,
        amount: Decimal,
        current: u64,
    ) -> (b: bool)
        ensures
            b == self.refund_ready(identity_resource, identity_amount, payment_resource, amount, current),
    {
        if !(identity_resource == self.user_badge && Decimal::one().le(identity_amount)
            && payment_resource == self.neura && Decimal::zero().le(amount)) {
            return true;
        }
        let payment = match quote_payment(amount, self.pay_rate) {
            Some(p) => p,
            None => return false,
        };
        proof {
            lemma_whole_rounds(payment.rounds);
        }
        let length = match payment.rounds.checked_mul(self.round_length) {
            Some(l) => l,
            None => return false,
        };
        current.checked_add(length).is_some()
    }

    /// A new user pays `amount` of `payment_resource` to read the datum of
    /// `api`.  The payment must be in the component's token and cover at
    /// least one round.  The rounds it buys are burned, the rest handed
    /// back; the user may read until `current` plus the rounds bought times
    /// the round length.  An api not yet served starts being served.
    pub fn become_new_user(
        &mut self,
        payment_resource: ResourceAddress,
        amount: Decimal,
        api: String,
        current: u64,
    ) -> (r: Result<(UserData, Payment), FeedError>)
        requires
            old(self).wf(),
            old(self).subscribe_ready(payment_resource, amount, current),
        ensures
            final(self).wf(),
            r matches Err(e) ==> *final(self) == *old(self) && e == FeedError::Resource(
                check_resource_result(payment_resource, old(self).neura, amount, old(self).pay_rate),
            ),
            r is Err <==> !(payment_resource == old(self).neura && old(self).pay_rate.val()
                <= amount.val()),
            r matches Ok((badge, payment)) ==> {
                &&& whole(payment.rounds as int) == paid_rounds(amount.val(), old(self).pay_rate.val())
                &&& payment.burned.val() == burned_amount(amount.val(), old(self).pay_rate.val())
                &&& payment.change.val() == amount.val() - payment.burned.val()
                &&& badge.end == current + payment.rounds * old(self).round_length
                &&& badge.api@ == api@
                &&& final(self).data_map() == if old(self).data_map().dom().contains(api@) {
                    old(self).data_map()
                } else {
                    old(self).data_map().insert(api@, Seq::<char>::empty())
                }
                &&& *final(self) == (NeuRacle { datas: final(self).datas, ..*old(self) })
            },
    {
        match check_resource(payment_resource, self.neura, amount, self.pay_rate) {
            Err(e) => {
                return Err(FeedError::Resource(e));
            },
            Ok(()) => {},
        }
        let payment = pay_for_rounds(amount, self.pay_rate);
        proof {
            assert(payment.rounds as int == paid_rounds(amount.val(), self.pay_rate.val()) / SCALE as int)
                by (nonlinear_arith)
                requires
                    payment.rounds as int * SCALE as int == paid_rounds(
                        amount.val(),
                        self.pay_rate.val(),
                    ),
            ;
        }
        let end = current + payment.rounds * self.round_length;
        self.register_api(api.clone());
        Ok((UserData { end, api }, payment))
    }

    /// A user holding `identity_amount` of `identity_resource`, whose badge
    /// carries `user`, pays `amount` of `payment_resource` at `current` to
    /// read again.  The identity must be one user badge of this component
    /// and the payment in its token.  The rounds bought are burned, the rest
    /// handed back, and the badge's data becomes readable until `current`
    /// plus the rounds bought times the round length.
    pub fn refund_account(
        &self,
        identity_resource: ResourceAddress,
        identity_amount: Decimal,
        payment_resource: ResourceAddress,
        amount: Decimal,
        user: &UserData,
        current: u64,
    ) -> (r: Result<(UserData, Payment), FeedError>)
        requires
            self.refund_ready(identity_resource, identity_amount, payment_resource, amount, current),
        ensures
            r matches Err(e) ==> {
                if !(identity_resource == self.user_badge && whole(1) <= identity_amount.val()) {
                    e == FeedError::Resource(
                        check_resource_result(
                            identity_resource,
                            self.user_badge,
                            identity_amount,
                            Decimal { raw: SCALE },
                        ),
                    )
                } else {
                    e == FeedError::Resource(
                        check_resource_result(
                            payment_resource,
                            self.neura,
                            amount,
                            Decimal { raw: 0 },
                        ),
                    )
                }
            },
            r is Err <==> !(identity_resource == self.user_badge && whole(1)
                <= identity_amount.val() && payment_resource == self.neura && 0 <= amount.val()),
            r matches Ok((badge, payment)) ==> {
                &&& whole(payment.rounds as int) == paid_rounds(amount.val(), self.pay_rate.val())
                &&& payment.burned.val() == burned_amount(amount.val(), self.pay_rate.val())
                &&& payment.change.val() == amount.val() - payment.burned.val()
                &&& badge.end == current + payment.rounds * self.round_length
                &&& badge.api@ == user.api@
            },
    {
        match check_resource(identity_resource, self.user_badge, identity_amount, Decimal::one()) {
            Err(e) => {
                return Err(FeedError::Resource(e));
            },
            Ok(()) => {},
        }
        match check_resource(payment_resource, self.neura, amount, Decimal::zero()) {
            Err(e) => {
                return Err(FeedError::Resource(e));
            },
            Ok(()) => {},
        }
        let payment = pay_for_rounds(amount, self.pay_rate);
        proof {
            assert(payment.rounds as int == paid_rounds(amount.val(), self.pay_rate.val()) / SCALE as int)
                by (nonlinear_arith)
                requires
                    payment.rounds as int * SCALE as int == paid_rounds(
                        amount.val(),
                        self.pay_rate.val(),
                    ),
            ;
        }
        let end = current + payment.rounds * self.round_length;
        Ok((UserData { end, api: user.api.clone() }, payment))
    }

    /// A user holding `identity_amount` of `identity_resource`, whose badge
    /// carries `user`, reads at `current` the datum of its api.  The identity
    /// must be one user badge of this component and the access must not have
    /// run out (an end of zero never runs out).
    pub fn get_data(
        &self,
        identity_resource: ResourceAddress,
        identity_amount: Decimal,
        user: &UserData,
        current: u64,
    ) -> (r: Result<String, FeedError>)
        requires
            self.wf(),
            identity_resource == self.user_badge && whole(1) <= identity_amount.val() && (current
                <= user.end || user.end == 0) ==> self.data_map().dom().contains(user.api@),
        ensures
            r matches Err(e) ==> if !(identity_resource == self.user_badge && whole(1)
                <= identity_amount.val()) {
                e == FeedError::Resource(
                    check_resource_result(
                        identity_resource,
                        self.user_badge,
                        identity_amount,
                        Decimal { raw: SCALE },
                    ),
                )
            } else {
                e == FeedError::OutOfTime
            },
            r is Err <==> !(identity_resource == self.user_badge && whole(1)
                <= identity_amount.val() && (current <= user.end || user.end == 0)),
            r matches Ok(d) ==> d@ == self.data_map()[user.api@],
    {
        match check_resource(identity_resource, self.user_badge, identity_amount, Decimal::one()) {
            Err(e) => {
                return Err(FeedError::Resource(e));
            },
            Ok(()) => {},
        }
        if !(current <= user.end || user.end == 0) {
            return Err(FeedError::OutOfTime);
        }
        match self.datum(&user.api) {
            Some(d) => Ok(d),
            None => {
                assert(false);
                Err(FeedError::OutOfTime)
            },
        }
    }

    /// Records the current stake of each validator, in order, as its weight.
    fn record_stakes(&mut self, stakes: &Vec<Decimal>)
        requires
            old(self).wf(),
            stakes@.len() == old(self).validators@.len(),
        ensures
            final(self).wf(),
            final(self).validators@ == with_stakes(old(self).validators@, stakes@),
            *final(self) == (NeuRacle { validators: final(self).validators, ..*old(self) }),
    {
        let ghost before = self.validators@;
        let mut i: usize = 0;
        while i < self.validators.len()
            invariant
                i <= self.validators@.len(),
                self.validators@.len() == before.len(),
                stakes@.len() == before.len(),
                before == old(self).validators@,
                forall|j: int| 0 <= j < i ==> self.validators@[j] == with_stakes(before, stakes@)[j],
                forall|j: int| i <= j < before.len() ==> self.validators@[j] == before[j],
                *self == (NeuRacle { validators: self.validators, ..*old(self) }),
            decreases self.validators@.len() - i,
        {
            let address = self.validators[i].0;
            self.validators.set(i, (address, stakes[i]));
            i = i + 1;
        }
        assert(self.validators@ =~= with_stakes(before, stakes@));
        assert forall|a: int, b: int| 0 <= a < b < self.validators@.len() implies validator_key()(
            self.validators@[a],
        ) != validator_key()(self.validators@[b]) by {
            assert(validator_key()(before[a]) != validator_key()(before[b]));
        }
    }

    /// Starts a round at epoch `current`.  Refused while a round runs, and
    /// before the round number of `current` reaches `system_time`.  Each
    /// validator's current stake (`stakes`, in the order of the validators)
    /// becomes its weight.  In the first stage the validators are then
    /// ranked by weight and the
    /// `validator_cap` heaviest (all, when there are fewer) become the active
    /// set; later all validators are.  The answer is the active set, from
    /// which the round's leader is then drawn (see
    /// [`NeuRacle::set_leader`]).
    pub fn new_round(&mut self, current: u64, stakes: &Vec<Decimal>) -> (r: Result<
        Vec<(ComponentAddress, Decimal)>,
        FeedError,
    >)
        requires
            old(self).wf(),
            stakes@.len() == old(self).validators@.len(),
            !old(self).round_start && old(self).round_of(current) >= old(self).system_time ==> {
                &&& old(self).validators@.len() > 0
                &&& old(self).stage == 1 ==> old(self).validator_cap > 0
            },
        ensures
            final(self).wf(),
            r == Err::<Vec<(ComponentAddress, Decimal)>, FeedError>(
                FeedError::PreviousRoundNotEnded,
            ) <==> old(self).round_start,
            r == Err::<Vec<(ComponentAddress, Decimal)>, FeedError>(
                FeedError::NotTimeForNewRound,
            ) <==> !old(self).round_start && old(self).round_of(current) < old(self).system_time,
            r is Err ==> *final(self) == *old(self),
            r matches Ok(set) ==> {
                &&& final(self).round_start
                &&& set@ == final(self).active_validators@
                &&& set@.len() > 0
                &&& if old(self).stage == 1 {
                    &&& ranked(with_stakes(old(self).validators@, stakes@), final(self).validators@)
                    &&& final(self).active_validators@ == if old(self).validator_cap
                        <= old(self).validators@.len() {
                        final(self).validators@.take(old(self).validator_cap as int)
                    } else {
                        final(self).validators@
                    }
                } else {
                    &&& final(self).validators@ == with_stakes(old(self).validators@, stakes@)
                    &&& final(self).active_validators@ == final(self).validators@
                }
                &&& *final(self) == (NeuRacle {
                    round_start: true,
                    validators: final(self).validators,
                    active_validators: final(self).active_validators,
                    ..*old(self)
                })
            },
    {
        if self.round_start {
            return Err(FeedError::PreviousRoundNotEnded);
        }
        if current / self.round_length < self.system_time {
            return Err(FeedError::NotTimeForNewRound);
        }
        self.record_stakes(stakes);
        self.round_start = true;
        if self.stage == 1 {
            let ranked_validators = rank_by_weight(&self.validators);
            let count = if self.validator_cap <= ranked_validators.len() {
                self.validator_cap
            } else {
                ranked_validators.len()
            };
            let mut active: Vec<(ComponentAddress, Decimal)> = Vec::new();
            let mut i: usize = 0;
            while i < count
                invariant
                    count <= ranked_validators@.len(),
                    i <= count,
                    active@ == ranked_validators@.take(i as int),
                decreases count - i,
            {
                active.push(ranked_validators[i]);
                i = i + 1;
                assert(active@ =~= ranked_validators@.take(i as int));
            }
            assert(ranked_validators@.take(ranked_validators@.len() as int) =~= ranked_validators@);
            self.validators = ranked_validators;
            self.active_validators = active;
        } else {
            self.active_validators = copy_entries(&self.validators);
        }
        Ok(copy_entries(&self.active_validators))
    }

    /// Records `leader`, drawn from the active set, as the round's leader and
    /// `proposal`, the data it reports, as the round's proposal.
    pub fn set_leader(&mut self, leader: ComponentAddress, proposal: Vec<(String, String)>)
        requires
            old(self).wf(),
            distinct_keys(proposal@, datum_key()),
        ensures
            final(self).wf(),
            *final(self) == (NeuRacle {
                leader: Some(leader),
                non_validated_datas: proposal,
                ..*old(self)
            }),
    {
        self.non_validated_datas = proposal;
        self.leader = Some(leader);
    }

    /// Ends the running round at epoch `current`.  Each validator of the
    /// active set reports whether it took part (`statuses`) and how it voted
    /// on the leader's proposal (`votes`), in the order of the active set.
    /// More than two thirds of them must have taken part; they become the
    /// active set.  Their vote is tallied (see [`vote_for_api`]): accepted
    /// data replaces the served data; the answer is what each validator gets
    /// (see [`settlement`]).  The next round may start from the round after
    /// the one of `current`.
    pub fn end_round(&mut self, current: u64, statuses: &Vec<bool>, votes: &Vec<bool>) -> (r:
        Result<Vec<(ComponentAddress, Settlement)>, FeedError>)
        requires
            old(self).wf(),
            old(self).end_round_ready(current, statuses@, votes@),
        ensures
            final(self).wf(),
            r == Err::<Vec<(ComponentAddress, Settlement)>, FeedError>(
                FeedError::RoundNotStarted,
            ) <==> !old(self).round_start,
            r == Err::<Vec<(ComponentAddress, Settlement)>, FeedError>(FeedError::NotEnoughActive)
                <==> old(self).round_start && !quorum(
                still_active(old(self).active_validators@, statuses@).len() as int,
                old(self).active_validators@.len() as int,
            ),
            r is Err ==> *final(self) == *old(self),
            r matches Ok(rewards) ==> {
                let b = ballots_for(old(self).active_validators@, statuses@, votes@);
                let v = verdict(approving_weight(b), total_weight(b));
                &&& rewards@ == settlement(
                    b,
                    v,
                    old(self).leader.unwrap(),
                    old(self).reward_rate,
                    old(self).punishment,
                )
                &&& final(self).active_validators@ == still_active(
                    old(self).active_validators@,
                    statuses@,
                )
                &&& if v == Some(true) {
                    final(self).datas@ == old(self).non_validated_datas@
                } else {
                    final(self).datas == old(self).datas
                }
                &&& final(self).system_time == old(self).round_of(current) + 1
                &&& *final(self) == (NeuRacle {
                    round_start: false,
                    system_time: final(self).system_time,
                    active_validators: final(self).active_validators,
                    datas: final(self).datas,
                    ..*old(self)
                })
            },
    {
        if !self.round_start {
            return Err(FeedError::RoundNotStarted);
        }
        let reporting = keep_reporting(&self.active_validators, statuses);
        proof {
            lemma_still_active_distinct(self.active_validators@, statuses@);
        }
        let n_reporting = reporting.len() as u128;
        let n_active = self.active_validators.len() as u128;
        if !(n_reporting * 3 > n_active * 2) {
            return Err(FeedError::NotEnoughActive);
        }
        let ballots = build_ballots(&self.active_validators, statuses, votes);
        let v = vote_for_api(&ballots);
        let leader = match self.leader {
            Some(l) => l,
            None => ComponentAddress { id: 0 },
        };
        let rewards = settle(&ballots, v, leader, self.reward_rate, self.punishment);
        proof {
            if v != Some(false) {
                lemma_settlement_leader_free(
                    ballots@,
                    v,
                    leader,
                    self.leader.unwrap(),
                    self.reward_rate,
                    self.punishment,
                );
            }
        }
        if v == Some(true) {
            self.datas = copy_data(&self.non_validated_datas);
        }
        self.active_validators = reporting;
        self.system_time = current / self.round_length + 1;
        self.round_start = false;
        Ok(rewards)
    }

    /// Whether [`NeuRacle::end_round`] may be called at epoch `current` with
    /// these reports (see [`NeuRacle::end_round_ready`]).
    pub fn can_end_round(&self, current: u64, statuses: &Vec<bool>, votes: &Vec<bool>) -> (b: bool)
        requires
            self.wf(),
        ensures
            b == self.end_round_ready(current, statuses@, votes@),
    {
        if !self.round_start {
            return true;
        }
        let n = self.active_validators.len();
        if statuses.len() != n || votes.len() != n {
            return false;
        }
        let reporting = keep_reporting(&self.active_validators, statuses);
        if !((reporting.len() as u128) * 3 > (n as u128) * 2) {
            return true;
        }
        let ballots = build_ballots(&self.active_validators, statuses, votes);
        if !tally_fits_check(&ballots) {
            return false;
        }
        let p = match self.reward_rate.checked_mul(self.punishment) {
            Some(p) => p,
            None => return false,
        };
        if p.raw.checked_mul(5).is_none() {
            return false;
        }
        let v = vote_for_api(&ballots);
        if v == Some(false) && self.leader.is_none() {
            return false;
        }
        current / self.round_length < u64::MAX
    }

    /// The apis served, in the order they are kept.
    pub fn get_apis(&self) -> (apis: Vec<String>)
        ensures
            apis@.len() == self.datas@.len(),
            forall|i: int| 0 <= i < apis@.len() ==> apis@[i]@ == self.datas@[i].0@,
    {
        let mut apis: Vec<String> = Vec::new();
        let mut i: usize = 0;
        while i < self.datas.len()
            invariant
                i <= self.datas@.len(),
                apis@.len() == i,
                forall|j: int| 0 <= j < i ==> apis@[j]@ == self.datas@[j].0@,
            decreases self.datas@.len() - i,
        {
            apis.push(self.datas[i].0.clone());
            i = i + 1;
        }
        apis
    }

    /// Sets up the data side of a stable coin project pegged to `pegged_to`
    /// reading `api`: the api starts being served if it is not; the answer
    /// is the data badge the project reads with (never running out) and the
    /// name the project is recorded under (see
    /// [`NeuRacle::add_stable_coin`]).
    pub fn new_stable_coin_project(&mut self, pegged_to: &String, api: String) -> (r: (
        UserData,
        String,
    ))
        requires
            old(self).wf(),
        ensures
            final(self).wf(),
            r.0.end == 0,
            r.0.api@ == api@,
            r.1@ == pegged_to@ + "NStable Coin"@,
            final(self).data_map() == if old(self).data_map().dom().contains(api@) {
                old(self).data_map()
            } else {
                old(self).data_map().insert(api@, Seq::<char>::empty())
            },
            *final(self) == (NeuRacle { datas: final(self).datas, ..*old(self) }),
    {
        self.register_api(api.clone());
        let name = pegged_to.clone().concat("NStable Coin");
        (UserData { end: 0, api }, name)
    }

    /// Records the stable coin project `address` under `name` (replacing any
    /// earlier name for it).
    pub fn add_stable_coin(&mut self, address: ComponentAddress, name: String)
        requires
            old(self).wf(),
        ensures
            final(self).wf(),
            final(self).stable_coin_map() == old(self).stable_coin_map().insert(address, name@),
            *final(self) == (NeuRacle { stable_coins: final(self).stable_coins, ..*old(self) }),
    {
        let mut i: usize = 0;
        while i < self.stable_coins.len()
            invariant
                i <= self.stable_coins@.len(),
                self.wf(),
                *self == *old(self),
                forall|j: int| 0 <= j < i ==> self.stable_coins@[j].0 != address,
            decreases self.stable_coins@.len() - i,
        {
            if self.stable_coins[i].0 == address {
                proof {
                    lemma_to_map_update(
                        self.stable_coins@,
                        coin_key(),
                        coin_name(),
                        i as int,
                        (address, name),
                    );
                }
                self.stable_coins.set(i, (address, name));
                return ;
            }
            i = i + 1;
        }
        proof {
            lemma_to_map_dom(self.stable_coins@, coin_key(), coin_name(), address);
            lemma_to_map_push(self.stable_coins@, coin_key(), coin_name(), (address, name));
        }
        self.stable_coins.push((address, name));
    }

    /// Moves the component from its second stage to the next one.
    pub fn advance_stage(&mut self) -> (r: Result<(), FeedError>)
        ensures
            r is Err <==> old(self).stage != 2,
            r is Err ==> r == Err::<(), FeedError>(FeedError::NotSecondStage) && *final(self)
                == *old(self),
            r is Ok ==> *final(self) == (NeuRacle { stage: 3, ..*old(self) }),
    {
        if self.stage != 2 {
            return Err(FeedError::NotSecondStage);
        }
        self.stage = self.stage + 1;
        Ok(())
    }

    /// Sets the number of epochs stakers of validators created from now on
    /// wait before their unstaked tokens can be withdrawn.
    pub fn set_unstake_delay(&mut self, new_unstake_delay: u64)
        ensures
            *final(self) == (NeuRacle { unstake_delay: new_unstake_delay, ..*old(self) }),
    {
        self.unstake_delay = new_unstake_delay;
    }
}

/// The plain state of a stable coin project reading its price from the
/// data-feed component.
pub struct NStableCoin {
    pub fee_vault: Decimal,
    pub fee: Decimal,
    /// The token the stable coin is swapped against.
    pub neura: ResourceAddress,
    /// The token's symbol.
    pub symbol: String,
    pub pegged_to: String,
    pub stablecoin: ResourceAddress,
    /// The data-feed component giving the price.
    pub neuracle: ComponentAddress,
}

/// What [`NStableCoin::auto_swap`] asks of a swap of `amount` of `token`
/// at the price the text `price` writes: the text writes a decimal, and the
/// amount the swap gives is representable and not negative.
pub open spec fn swap_ready(
    s: &NStableCoin,
    token: ResourceAddress,
    amount: Decimal,
    price: Seq<char>,
) -> bool {
    let p = text_value(encode_utf8(price));
    &&& p is Some
    &&& token == s.neura ==> fits(mul_val(amount.val(), p.unwrap())) && 0 <= mul_val(
        amount.val(),
        p.unwrap(),
    )
    &&& token != s.neura && token == s.stablecoin ==> p.unwrap() != 0 && fits(
        div_val(amount.val(), p.unwrap()),
    ) && 0 <= div_val(amount.val(), p.unwrap())
}

impl NStableCoin {
    /// Sets up a project pegged to `pegged_to`, swapping against
    /// `medium_token` (whose symbol is `symbol`) at the price `neuracle`
    /// gives, minting the stable coin `stablecoin`.  The second part of the
    /// answer is the name of the stable coin.
    pub fn new(
        medium_token: ResourceAddress,
        symbol: String,
        pegged_to: String,
        neuracle: ComponentAddress,
        stablecoin: ResourceAddress,
        fee: Decimal,
    ) -> (r: (NStableCoin, String))
        ensures
            r.0.fee_vault.val() == 0,
            r.0.fee == fee,
            r.0.neura == medium_token,
            r.0.symbol == symbol,
            r.0.pegged_to == pegged_to,
            r.0.stablecoin == stablecoin,
            r.0.neuracle == neuracle,
            r.1@ == pegged_to@ + "NStable Coin"@,
    {
        let name = pegged_to.clone().concat("NStable Coin");
        (
            NStableCoin {
                fee_vault: Decimal::zero(),
                fee,
                neura: medium_token,
                symbol,
                pegged_to,
                stablecoin,
                neuracle,
            },
            name,
        )
    }

    /// Whether [`NStableCoin::auto_swap`] may be called with these
    /// arguments (see [`swap_ready`]).
    pub fn can_swap(&self, token: ResourceAddress, amount: Decimal, price: &String) -> (b: bool)
        ensures
            b == swap_ready(self, token, amount, price@),
    {
        let p = match Decimal::parse(price.as_str()) {
            Some(p) => p,
            None => return false,
        };
        if token == self.neura {
            match amount.checked_mul(p) {
                Some(d) => d.raw >= 0,
                None => false,
            }
        } else if token == self.stablecoin {
            match amount.checked_div(p) {
                Some(d) => d.raw >= 0,
                None => false,
            }
        } else {
            true
        }
    }

    /// Swaps a bucket of `amount` of `token` at the price the text `price`
    /// writes (the datum the data-feed component gives; it must be a decimal,
    /// see [`text_value`]): tokens buy `amount * price` newly minted stable
    /// coins; stable coins buy `amount / price` newly minted stable coins.
    /// Any other resource is refused.  The bucket handed in is burned.
    pub fn auto_swap(&self, token: ResourceAddress, amount: Decimal, price: &String) -> (r: Result<
        Swap,
        SwapError,
    >)
        requires
            swap_ready(self, token, amount, price@),
        ensures
            r is Err <==> (token != self.stablecoin && token != self.neura),
            r is Err ==> r == Err::<Swap, SwapError>(SwapError::UnknownResource),
            r matches Ok(Swap::MintStable(d)) ==> if token == self.neura {
                d.val() == mul_val(amount.val(), text_value(encode_utf8(price@)).unwrap())
            } else {
                d.val() == div_val(amount.val(), text_value(encode_utf8(price@)).unwrap())
            },
            r matches Ok(sw) ==> sw is MintStable,
    {
        let price = match Decimal::parse(price.as_str()) {
            Some(p) => p,
            None => {
                assert(false);
                return Err(SwapError::UnknownResource);
            },
        };
        if !(token == self.stablecoin || token == self.neura) {
            return Err(SwapError::UnknownResource);
        }
        if token == self.neura {
            Ok(Swap::MintStable(amount.mul(price)))
        } else {
            Ok(Swap::MintStable(amount.div(price)))
        }
    }
}

/// The validators that report active are distinct when the active ones
/// are, and each of them is one of the active ones.
proof fn lemma_still_active_distinct(
    active: Seq<(ComponentAddress, Decimal)>,
    statuses: Seq<bool>,
)
    requires
        distinct_keys(active, validator_key()),
    ensures
        distinct_keys(still_active(active, statuses), validator_key()),
        forall|k: int|
            0 <= k < still_active(active, statuses).len() ==> active.contains(
                #[trigger] still_active(active, statuses)[k],
            ),
    decreases active.len(),
{
    if active.len() > 0 {
        let rest = active.drop_last();
        lemma_still_active_distinct(rest, statuses);
        let prev = still_active(rest, statuses);
        let r = still_active(active, statuses);
        assert forall|k: int| 0 <= k < prev.len() implies active.contains(prev[k]) by {
            assert(rest.contains(prev[k]));
            let j = choose|j: int| 0 <= j < rest.len() && rest[j] == prev[k];
            assert(active[j] == prev[k]);
        }
        if statuses[active.len() - 1] {
            assert(r == prev.push(active.last()));
            assert forall|a: int, b: int| 0 <= a < b < r.len() implies validator_key()(r[a])
                != validator_key()(r[b]) by {
                if b == r.len() - 1 {
                    assert(rest.contains(prev[a]));
                    let j = choose|j: int| 0 <= j < rest.len() && rest[j] == prev[a];
                    assert(validator_key()(active[j]) != validator_key()(
                        active[active.len() - 1],
                    ));
                } else {
                    assert(r[a] == prev[a] && r[b] == prev[b]);
                }
            }
            assert forall|k: int| 0 <= k < r.len() implies active.contains(r[k]) by {
                if k == r.len() - 1 {
                    assert(active[active.len() - 1] == r[k]);
                } else {
                    assert(r[k] == prev[k]);
                }
            }
        } else {
            assert(r == prev);
        }
    }
}

proof fn lemma_settlement_leader_free(
    ballots: Seq<Ballot>,
    v: Option<bool>,
    l1: ComponentAddress,
    l2: ComponentAddress,
    reward_rate: Decimal,
    punishment: Decimal,
)
    requires
        v != Some(false),
    ensures
        settlement(ballots, v, l1, reward_rate, punishment) == settlement(
            ballots,
            v,
            l2,
            reward_rate,
            punishment,
        ),
    decreases ballots.len(),
{
    if ballots.len() > 0 {
        lemma_settlement_leader_free(ballots.drop_last(), v, l1, l2, reward_rate, punishment);
    }
}

/// The validators of `active` whose status is set, in order.
fn keep_reporting(active: &Vec<(ComponentAddress, Decimal)>, statuses: &Vec<bool>) -> (r: Vec<
    (ComponentAddress, Decimal),
>)
    requires
        statuses@.len() == active@.len(),
    ensures
        r@ == still_active(active@, statuses@),
{
    let mut r: Vec<(ComponentAddress, Decimal)> = Vec::new();
    let mut i: usize = 0;
    while i < active.len()
        invariant
            i <= active@.len(),
            statuses@.len() == active@.len(),
            r@ == still_active(active@.take(i as int), statuses@),
        decreases active@.len() - i,
    {
        proof {
            assert(active@.take(i as int + 1).drop_last() =~= active@.take(i as int));
            assert(active@.take(i as int + 1).last() == active@[i as int]);
        }
        if statuses[i] {
            r.push(active[i]);
        }
        i = i + 1;
    }
    assert(active@.take(active@.len() as int) =~= active@);
    r
}

/// A copy of a list of (api, datum) entries.
fn copy_data(v: &Vec<(String, String)>) -> (r: Vec<(String, String)>)
    ensures
        r@ == v@,
{
    let mut r: Vec<(String, String)> = Vec::new();
    let mut i: usize = 0;
    while i < v.len()
        invariant
            i <= v@.len(),
            r@ == v@.take(i as int),
        decreases v@.len() - i,
    {
        r.push((v[i].0.clone(), v[i].1.clone()));
        i = i + 1;
        assert(r@ =~= v@.take(i as int));
    }
    assert(v@.take(v@.len() as int) =~= v@);
    r
}

} // verus!
