//! The NeuRacle component: validators, paying users, data apis waiting for
//! validation, and the rounds in which validators vote on data.
//!
//! The ledger side of the component (vaults, badges, calls into other
//! components, the current epoch) stays outside; the state here holds what
//! the component decides on, and each method returns what the ledger must
//! do.
use vstd::prelude::*;
use vstd::string::StringExecFns;

use crate::address::{ComponentAddress, ResourceAddress};
use crate::decimal::{Decimal, SCALE, div_val, fits, floor_val, lemma_div_val_shrinks, mul_val, whole};
use crate::keyed::{distinct_keys, lemma_to_map_dom, lemma_to_map_index, lemma_to_map_push, lemma_to_map_remove, lemma_to_map_update, to_map};
use crate::ranking::{heaviest_first, lemma_ranked_unique, rank_by_weight, ranked, validator_key};
use crate::utilities::{
    Ballot,
    ResourceError,
    approving_weight,
    check_fee,
    check_resource,
    check_resource_result,
    distinct_validators,
    tally_fits,
    tally_fits_check,
    total_weight,
    valid_fee,
    verdict,
    vote_for_api,
};

verus! {

/// Data of a validator badge.
pub struct ValidatorData {
    pub name: String,
    pub location: String,
    pub website: String,
    pub address: String,
    pub staked: Decimal,
}

/// Data of a user badge: until which epoch the user may read, and which
/// query of which api.
pub struct UserData {
    pub end: u64,
    pub api: String,
    pub query: String,
}

/// A data api that users asked for and validators have not yet accepted,
/// with the number of rounds in which it failed to be accepted.
pub struct PendingApi {
    pub api: String,
    pub failed_rounds: u8,
    pub query: String,
}

/// Why a call on the component was refused.
#[derive(Clone, Copy, Debug, PartialEq, Eq, Structural)]
pub enum NeuRacleError {
    FeeOutOfRange,
    NotFirstStage,
    NotSecondStage,
    Resource(ResourceError),
    OutOfTime,
    PreviousRoundNotEnded,
    NotTimeForNewRound,
    RoundNotStarted,
}

impl NeuRacleError {
    /// The message the component aborts with.
    pub fn message(&self) -> (s: &'static str)
        ensures
            *self == NeuRacleError::FeeOutOfRange ==> s@ == "Fee must be in the range of 0 to 100"@,
            *self == NeuRacleError::NotFirstStage ==> s@ == "assertion failed: self.stage == 1"@,
            *self == NeuRacleError::NotSecondStage ==> s@ == "assertion failed: self.stage == 2"@,
            *self == NeuRacleError::Resource(ResourceError::WrongResource) ==> s@
                == "Wrong resource address."@,
            *self == NeuRacleError::Resource(ResourceError::NotEnoughResource) ==> s@
                == "Not enough resource."@,
            *self == NeuRacleError::OutOfTime ==> s@
                == "Run out of time, you cannot access this data for now, please refund your account."@,
            *self == NeuRacleError::PreviousRoundNotEnded ==> s@ == "Previous round haven't ended yet"@,
            *self == NeuRacleError::NotTimeForNewRound ==> s@ == "Not time to start a new round yet"@,
            *self == NeuRacleError::RoundNotStarted ==> s@ == "New round hasn't started yet"@,
    {
        match self {
            NeuRacleError::FeeOutOfRange => "Fee must be in the range of 0 to 100",
            NeuRacleError::NotFirstStage => "assertion failed: self.stage == 1",
            NeuRacleError::NotSecondStage => "assertion failed: self.stage == 2",
            NeuRacleError::Resource(e) => e.message(),
            NeuRacleError::OutOfTime =>
                "Run out of time, you cannot access this data for now, please refund your account.",
            NeuRacleError::PreviousRoundNotEnded => "Previous round haven't ended yet",
            NeuRacleError::NotTimeForNewRound => "Not time to start a new round yet",
            NeuRacleError::RoundNotStarted => "New round hasn't started yet",
        }
    }
}

/// The plain state of the NeuRacle component.
pub struct NeuRacle {
    /// Accepted data apis and the component serving each.
    pub data_apis: Vec<(String, ComponentAddress)>,
    /// Data apis waiting to be accepted.
    pub non_validated_apis: Vec<PendingApi>,
    /// Stable coin projects and their names.
    pub stable_coins: Vec<(ComponentAddress, String)>,
    /// Validators and their stake weights.
    pub validators: Vec<(ComponentAddress, Decimal)>,
    pub validator_cap: usize,
    pub neura: ResourceAddress,
    pub validator_badge: ResourceAddress,
    pub user_badge: ResourceAddress,
    pub pay_rate: Decimal,
    pub fee_stablecoin: Decimal,
    pub unstake_delay: u64,
    pub stage: u8,
    pub round_length: u64,
    pub reward_rate: Decimal,
    pub punishment: Decimal,
    pub system_time: u64,
    pub round_start: bool,
    /// The validators whose votes count in the current round.
    pub active_validators: Vec<(ComponentAddress, Decimal)>,
}

pub open spec fn api_key() -> spec_fn((String, ComponentAddress)) -> Seq<char> {
    |e: (String, ComponentAddress)| e.0@
}

pub open spec fn api_address() -> spec_fn((String, ComponentAddress)) -> ComponentAddress {
    |e: (String, ComponentAddress)| e.1
}

pub open spec fn pending_key() -> spec_fn(PendingApi) -> Seq<char> {
    |e: PendingApi| e.api@
}

pub open spec fn pending_val() -> spec_fn(PendingApi) -> (u8, Seq<char>) {
    |e: PendingApi| (e.failed_rounds, e.query@)
}

pub open spec fn coin_key() -> spec_fn((ComponentAddress, String)) -> ComponentAddress {
    |e: (ComponentAddress, String)| e.0
}

pub open spec fn coin_name() -> spec_fn((ComponentAddress, String)) -> Seq<char> {
    |e: (ComponentAddress, String)| e.1@
}

/// Raw value of the number of rounds a payment of `amount` buys at
/// `pay_rate` per round: `floor(amount / pay_rate)`.
pub open spec fn paid_rounds(amount: int, pay_rate: int) -> int {
    floor_val(div_val(amount, pay_rate))
}

/// Raw value of the part of a payment of `amount` that is burned: the price
/// of the rounds it buys.
pub open spec fn burned_amount(amount: int, pay_rate: int) -> int {
    mul_val(paid_rounds(amount, pay_rate), pay_rate)
}

/// The arithmetic of paying `amount` at `pay_rate` per round goes through:
/// the rate is not zero, every intermediate decimal is representable, the
/// number of rounds is a whole number that fits a `u64`, and the price of
/// those rounds can be taken out of the payment.
pub open spec fn payment_computable(amount: int, pay_rate: int) -> bool {
    &&& pay_rate != 0
    &&& fits(div_val(amount, pay_rate))
    &&& fits(paid_rounds(amount, pay_rate))
    &&& fits(burned_amount(amount, pay_rate))
    &&& 0 <= paid_rounds(amount, pay_rate)
    &&& paid_rounds(amount, pay_rate) / SCALE as int <= u64::MAX
    &&& 0 <= burned_amount(amount, pay_rate) <= amount
}

/// What a payment buys: the number of rounds, what is burned and what is
/// handed back.
pub struct Payment {
    pub rounds: u64,
    pub burned: Decimal,
    pub change: Decimal,
}

/// Splits a payment of `amount` at `pay_rate` per round.
pub(crate) fn pay_for_rounds(amount: Decimal, pay_rate: Decimal) -> (p: Payment)
    requires
        payment_computable(amount.val(), pay_rate.val()),
    ensures
        whole(p.rounds as int) == paid_rounds(amount.val(), pay_rate.val()),
        p.burned.val() == burned_amount(amount.val(), pay_rate.val()),
        p.change.val() == amount.val() - p.burned.val(),
{
    let length = amount.div(pay_rate).floor();
    let burned = length.mul(pay_rate);
    let rounds = length.to_u64();
    Payment { rounds, burned, change: amount.sub(burned) }
}

/// Splits a payment of `amount` at `pay_rate` per round, when its
/// arithmetic goes through (see [`payment_computable`]); `None` otherwise.
pub fn quote_payment(amount: Decimal, pay_rate: Decimal) -> (r: Option<Payment>)
    ensures
        r is Some <==> payment_computable(amount.val(), pay_rate.val()),
        r matches Some(p) ==> {
            &&& whole(p.rounds as int) == paid_rounds(amount.val(), pay_rate.val())
            &&& p.burned.val() == burned_amount(amount.val(), pay_rate.val())
            &&& p.change.val() == amount.val() - p.burned.val()
        },
{
    let quotient = match amount.checked_div(pay_rate) {
        Some(q) => q,
        None => return None,
    };
    let length = match quotient.checked_floor() {
        Some(l) => l,
        None => return None,
    };
    let burned = match length.checked_mul(pay_rate) {
        Some(b) => b,
        None => return None,
    };
    if length.raw < 0 || burned.raw < 0 || amount.raw < burned.raw {
        return None;
    }
    if length.raw / SCALE > 18_446_744_073_709_551_615i128 {
        return None;
    }
    Some(pay_for_rounds(amount, pay_rate))
}

/// What a new user gets: the badge data, what the payment comes to, and,
/// when the api is already served, the component that must learn the new
/// query.
pub struct Subscription {
    pub badge: UserData,
    pub payment: Payment,
    pub data_api: Option<ComponentAddress>,
}

/// What a refund comes to: the payment split and the epoch until which the
/// user could read from now on.
pub struct Refund {
    pub payment: Payment,
    pub end: u64,
}

/// The ballots of `voters` on one api: each voter's weight, whether it is
/// active this round (`statuses`) and whether it approves the api
/// (`approvals`).
pub open spec fn ballots_for(
    voters: Seq<(ComponentAddress, Decimal)>,
    statuses: Seq<bool>,
    approvals: Seq<bool>,
) -> Seq<Ballot> {
    Seq::new(
        voters.len(),
        |j: int|
            Ballot {
                validator: voters[j].0,
                weight: voters[j].1,
                active: statuses[j],
                approves: approvals[j],
            },
    )
}

/// The verdict of the voters on the `i`-th pending api.
pub open spec fn api_verdict(
    voters: Seq<(ComponentAddress, Decimal)>,
    statuses: Seq<bool>,
    approvals: Seq<Vec<bool>>,
    i: int,
) -> Option<bool> {
    let b = ballots_for(voters, statuses, approvals[i]@);
    verdict(approving_weight(b), total_weight(b))
}

/// A pending api stays pending after a round with verdict `v` when the
/// round left it undecided, or rejected it before its tenth failed round.
pub open spec fn stays_pending(e: PendingApi, v: Option<bool>) -> bool {
    v is None || (v == Some(false) && e.failed_rounds < 9)
}

pub open spec fn pending_view(e: PendingApi) -> (Seq<char>, u8, Seq<char>) {
    (e.api@, e.failed_rounds, e.query@)
}

/// The first `n` pending apis that stay pending, each with one more failed
/// round.
pub open spec fn kept_apis(
    pending: Seq<PendingApi>,
    verdict_of: spec_fn(int) -> Option<bool>,
    n: int,
) -> Seq<(Seq<char>, u8, Seq<char>)>
    decreases n,
{
    if n <= 0 {
        Seq::empty()
    } else {
        let prev = kept_apis(pending, verdict_of, n - 1);
        let e = pending[n - 1];
        if stays_pending(e, verdict_of(n - 1)) {
            prev.push((e.api@, (e.failed_rounds + 1) as u8, e.query@))
        } else {
            prev
        }
    }
}

/// The first `n` pending apis accepted by their verdicts, as (api, query).
pub open spec fn accepted_apis(
    pending: Seq<PendingApi>,
    verdict_of: spec_fn(int) -> Option<bool>,
    n: int,
) -> Seq<(Seq<char>, Seq<char>)>
    decreases n,
{
    if n <= 0 {
        Seq::empty()
    } else {
        let prev = accepted_apis(pending, verdict_of, n - 1);
        let e = pending[n - 1];
        if verdict_of(n - 1) == Some(true) {
            prev.push((e.api@, e.query@))
        } else {
            prev
        }
    }
}

/// The votes handed to [`NeuRacle::end_round`] fit the voters and the
/// pending apis: one status per voter, one row of approvals per pending api
/// with one approval per voter, every tally representable, and no api left
/// undecided after 255 failed rounds.
pub open spec fn votes_computable(
    voters: Seq<(ComponentAddress, Decimal)>,
    pending: Seq<PendingApi>,
    statuses: Seq<bool>,
    approvals: Seq<Vec<bool>>,
) -> bool {
    &&& statuses.len() == voters.len()
    &&& approvals.len() == pending.len()
    &&& forall|i: int|
        0 <= i < approvals.len() ==> {
            &&& (#[trigger] approvals[i])@.len() == voters.len()
            &&& tally_fits(ballots_for(voters, statuses, approvals[i]@))
            &&& api_verdict(voters, statuses, approvals, i) is None ==> pending[i].failed_rounds
                < 255
        }
}

/// The validators whose votes count when a round ends: in the first stage
/// the `validator_cap` heaviest of the ranked validators, later those that
/// counted before.
pub open spec fn round_voters(
    stage: u8,
    cap: usize,
    ranked_validators: Seq<(ComponentAddress, Decimal)>,
    active: Seq<(ComponentAddress, Decimal)>,
) -> Seq<(ComponentAddress, Decimal)> {
    if stage == 1 {
        ranked_validators.take(cap as int)
    } else {
        active
    }
}

/// The verdicts of the voters on the pending apis, by index.
pub open spec fn verdicts_of(
    voters: Seq<(ComponentAddress, Decimal)>,
    statuses: Seq<bool>,
    approvals: Seq<Vec<bool>>,
) -> spec_fn(int) -> Option<bool> {
    |i: int| api_verdict(voters, statuses, approvals, i)
}

pub open spec fn accepted_view(p: (String, String)) -> (Seq<char>, Seq<char>) {
    (p.0@, p.1@)
}

/// The ballots of `voters` given their statuses and approvals.
pub(crate) fn build_ballots(
    voters: &Vec<(ComponentAddress, Decimal)>,
    statuses: &Vec<bool>,
    approvals: &Vec<bool>,
) -> (b: Vec<Ballot>)
    requires
        statuses@.len() == voters@.len(),
        approvals@.len() == voters@.len(),
    ensures
        b@ == ballots_for(voters@, statuses@, approvals@),
        distinct_keys(voters@, validator_key()) ==> distinct_validators(b@),
{
    let mut b: Vec<Ballot> = Vec::new();
    let mut j: usize = 0;
    while j < voters.len()
        invariant
            j <= voters@.len(),
            statuses@.len() == voters@.len(),
            approvals@.len() == voters@.len(),
            b@ == ballots_for(voters@, statuses@, approvals@).take(j as int),
        decreases voters@.len() - j,
    {
        let (validator, weight) = voters[j];
        b.push(Ballot { validator, weight, active: statuses[j], approves: approvals[j] });
        j = j + 1;
        assert(b@ =~= ballots_for(voters@, statuses@, approvals@).take(j as int));
    }
    assert(ballots_for(voters@, statuses@, approvals@).take(voters@.len() as int) =~= ballots_for(
        voters@,
        statuses@,
        approvals@,
    ));
    b
}

/// Whether the votes fit the voters and the pending apis (see
/// [`votes_computable`]).
fn votes_fit(
    voters: &Vec<(ComponentAddress, Decimal)>,
    pending: &Vec<PendingApi>,
    statuses: &Vec<bool>,
    approvals: &Vec<Vec<bool>>,
) -> (b: bool)
    requires
        distinct_keys(voters@, validator_key()),
    ensures
        b == votes_computable(voters@, pending@, statuses@, approvals@),
{
    if statuses.len() != voters.len() || approvals.len() != pending.len() {
        return false;
    }
    let mut i: usize = 0;
    while i < approvals.len()
        invariant
            distinct_keys(voters@, validator_key()),
            statuses@.len() == voters@.len(),
            approvals@.len() == pending@.len(),
            i <= approvals@.len(),
            forall|j: int|
                0 <= j < i ==> {
                    &&& (#[trigger] approvals@[j])@.len() == voters@.len()
                    &&& tally_fits(ballots_for(voters@, statuses@, approvals@[j]@))
                    &&& api_verdict(voters@, statuses@, approvals@, j) is None
                        ==> pending@[j].failed_rounds < 255
                },
        decreases approvals@.len() - i,
    {
        if approvals[i].len() != voters.len() {
            return false;
        }
        let ballots = build_ballots(voters, statuses, &approvals[i]);
        if !tally_fits_check(&ballots) {
            return false;
        }
        let v = vote_for_api(&ballots);
        if v.is_none() && pending[i].failed_rounds >= 255 {
            return false;
        }
        i = i + 1;
    }
    true
}

/// What ending a round comes to: the validators every served data api
/// settles its round with, and the pending apis accepted, as (api, query),
/// for which data api components must now be created.
pub struct RoundEnd {
    pub data_api_validators: Vec<(ComponentAddress, Decimal)>,
    pub accepted: Vec<(String, String)>,
}

/// A copy of a list of `(validator, weight)` entries.
pub(crate) fn copy_entries(v: &Vec<(ComponentAddress, Decimal)>) -> (r: Vec<(ComponentAddress, Decimal)>)
    ensures
        r@ == v@,
{
    let mut r: Vec<(ComponentAddress, Decimal)> = Vec::new();
    let mut i: usize = 0;
    while i < v.len()
        invariant
            i <= v@.len(),
            r@ == v@.take(i as int),
        decreases v@.len() - i,
    {
        r.push(v[i]);
        i = i + 1;
        assert(r@ =~= v@.take(i as int));
    }
    assert(v@.take(v@.len() as int) =~= v@);
    r
}

/// The validators with their weights replaced by `stakes`, one per
/// validator in order.
pub open spec fn with_stakes(
    validators: Seq<(ComponentAddress, Decimal)>,
    stakes: Seq<Decimal>,
) -> Seq<(ComponentAddress, Decimal)> {
    Seq::new(validators.len(), |i: int| (validators[i].0, stakes[i]))
}

/// The raw value of `n` whole rounds, divided back by the scale, is `n`.
pub(crate) proof fn lemma_whole_rounds(n: u64)
    ensures
        whole(n as int) / (SCALE as int) == n,
{
    vstd::arithmetic::div_mod::lemma_div_multiples_vanish(n as int, SCALE as int);
    assert(whole(n as int) == SCALE as int * n) by (nonlinear_arith);
}

impl NeuRacle {
    /// Accepted data apis: api name to the component serving it.
    pub open spec fn data_api_map(&self) -> Map<Seq<char>, ComponentAddress> {
        to_map(self.data_apis@, api_key(), api_address())
    }

    /// Apis waiting for validation: api name to (failed rounds, query).
    pub open spec fn pending_map(&self) -> Map<Seq<char>, (u8, Seq<char>)> {
        to_map(self.non_validated_apis@, pending_key(), pending_val())
    }

    /// Stable coin projects: component to name.
    pub open spec fn stable_coin_map(&self) -> Map<ComponentAddress, Seq<char>> {
        to_map(self.stable_coins@, coin_key(), coin_name())
    }

    /// The vectors standing for maps have no key twice, no validator is
    /// registered twice, and rounds have a length.
    pub open spec fn wf(&self) -> bool {
        &&& distinct_keys(self.data_apis@, api_key())
        &&& distinct_keys(self.non_validated_apis@, pending_key())
        &&& distinct_keys(self.stable_coins@, coin_key())
        &&& distinct_keys(self.validators@, validator_key())
        &&& distinct_keys(self.active_validators@, validator_key())
        &&& self.round_length > 0
    }

    /// What [`NeuRacle::become_new_user`] asks of its callers: an accepted
    /// payment can be split (see [`payment_computable`]) and the badge's end
    /// epoch fits a `u64`.
    pub open spec fn subscribe_ready(
        &self,
        payment_resource: ResourceAddress,
        amount: Decimal,
        current: u64,
    ) -> bool {
        payment_resource == self.neura && self.pay_rate.val() <= amount.val() ==> {
            &&& payment_computable(amount.val(), self.pay_rate.val())
            &&& 10 * self.round_length + current + paid_rounds(amount.val(), self.pay_rate.val()) / SCALE as int <= u64::MAX
        }
    }

    /// What [`NeuRacle::refund_account`] asks of its callers: an accepted
    /// payment can be split and the new end epoch fits a `u64`.
    pub open spec fn refund_ready(
        &self,
        identity_resource: ResourceAddress,
        identity_amount: Decimal,
        payment_resource: ResourceAddress,
        amount: Decimal,
        current: u64,
    ) -> bool {
        identity_resource == self.user_badge && whole(1) <= identity_amount.val()
            && payment_resource == self.neura && 0 <= amount.val() ==> {
            &&& payment_computable(amount.val(), self.pay_rate.val())
            &&& current + paid_rounds(amount.val(), self.pay_rate.val()) / SCALE as int <= u64::MAX
        }
    }

    /// The epoch-derived round number: `epoch / round_length`.
    pub open spec fn round_of(&self, epoch: u64) -> int {
        epoch as int / self.round_length as int
    }

    /// What [`NeuRacle::end_round`] asks of the votes handed to it: when a
    /// round is running, enough validators to rank in the first stage, votes
    /// that fit the voters of the round and the pending apis (see
    /// [`votes_computable`]), and a next round number that fits a `u64`.
    pub open spec fn end_round_ready(
        &self,
        current: u64,
        statuses: Seq<bool>,
        approvals: Seq<Vec<bool>>,
    ) -> bool {
        self.round_start ==> {
            &&& self.stage == 1 ==> self.validator_cap <= self.validators@.len()
            &&& self.stage == 1 ==> forall|out: Seq<(ComponentAddress, Decimal)>|
                ranked(self.validators@, out) ==> votes_computable(
                    out.take(self.validator_cap as int),
                    self.non_validated_apis@,
                    statuses,
                    approvals,
                )
            &&& self.stage != 1 ==> votes_computable(
                self.active_validators@,
                self.non_validated_apis@,
                statuses,
                approvals,
            )
            &&& self.round_of(current) + 1 <= u64::MAX
        }
    }

    /// Sets up the component at epoch `current_epoch` with the resources the
    /// ledger created for it.  The stable coin fee must be a percentage in
    /// 0..=100; the reward rate is given in percent and kept as a fraction.
    pub fn new(
        validator_cap: usize,
        round_length: u64,
        pay_rate: Decimal,
        fee_stablecoin: Decimal,
        unstake_delay: u64,
        reward_rate: Decimal,
        punishment: Decimal,
        current_epoch: u64,
        neura: ResourceAddress,
        validator_badge: ResourceAddress,
        user_badge: ResourceAddress,
    ) -> (r: Result<NeuRacle, NeuRacleError>)
        requires
            round_length > 0,
        ensures
            r is Err <==> !valid_fee(fee_stablecoin),
            r is Err ==> r == Err::<NeuRacle, NeuRacleError>(NeuRacleError::FeeOutOfRange),
            r matches Ok(s) ==> {
                &&& s.wf()
                &&& s.data_apis@.len() == 0
                &&& s.non_validated_apis@.len() == 0
                &&& s.stable_coins@.len() == 0
                &&& s.validators@.len() == 0
                &&& s.active_validators@.len() == 0
                &&& s.validator_cap == validator_cap
                &&& s.round_length == round_length
                &&& s.pay_rate == pay_rate
                &&& s.fee_stablecoin == fee_stablecoin
                &&& s.unstake_delay == unstake_delay
                &&& s.reward_rate.val() == div_val(reward_rate.val(), whole(100))
                &&& s.punishment == punishment
                &&& s.stage == 1
                &&& s.system_time == current_epoch / round_length
                &&& !s.round_start
                &&& s.neura == neura
                &&& s.validator_badge == validator_badge
                &&& s.user_badge == user_badge
            },
    {
        let system_time = current_epoch / round_length;
        if !check_fee(fee_stablecoin) {
            return Err(NeuRacleError::FeeOutOfRange);
        }
        let hundred = Decimal::from_u64(100);
        proof {
            lemma_div_val_shrinks(reward_rate.val(), hundred.val());
        }
        let state = NeuRacle {
            data_apis: Vec::new(),
            non_validated_apis: Vec::new(),
            stable_coins: Vec::new(),
            validators: Vec::new(),
            validator_cap,
            neura,
            validator_badge,
            user_badge,
            pay_rate,
            fee_stablecoin,
            unstake_delay,
            stage: 1,
            round_length,
            reward_rate: reward_rate.div(hundred),
            punishment,
            system_time,
            round_start: false,
            active_validators: Vec::new(),
        };
        Ok(state)
    }

    /// Index of the accepted data api named `api`, if any.
    fn find_data_api(&self, api: &String) -> (r: Option<usize>)
        ensures
            r matches Some(i) ==> i < self.data_apis@.len() && self.data_apis@[i as int].0@ == api@,
            r is None ==> !self.data_api_map().dom().contains(api@),
    {
        let mut i: usize = 0;
        while i < self.data_apis.len()
            invariant
                i <= self.data_apis@.len(),
                forall|j: int| 0 <= j < i ==> self.data_apis@[j].0@ != api@,
            decreases self.data_apis@.len() - i,
        {
            if self.data_apis[i].0 == *api {
                return Some(i);
            }
            i = i + 1;
        }
        proof {
            lemma_to_map_dom(self.data_apis@, api_key(), api_address(), api@);
        }
        None
    }

    /// Index of the pending api named `api`, if any.
    fn find_pending(&self, api: &String) -> (r: Option<usize>)
        ensures
            r matches Some(i) ==> i < self.non_validated_apis@.len()
                && self.non_validated_apis@[i as int].api@ == api@,
            r is None ==> !self.pending_map().dom().contains(api@),
    {
        let mut i: usize = 0;
        while i < self.non_validated_apis.len()
            invariant
                i <= self.non_validated_apis@.len(),
                forall|j: int| 0 <= j < i ==> self.non_validated_apis@[j].api@ != api@,
            decreases self.non_validated_apis@.len() - i,
        {
            if self.non_validated_apis[i].api == *api {
                return Some(i);
            }
            i = i + 1;
        }
        proof {
            lemma_to_map_dom(self.non_validated_apis@, pending_key(), pending_val(), api@);
        }
        None
    }

    /// The component serving the accepted data api `api`, if any.
    pub fn data_api(&self, api: &String) -> (r: Option<ComponentAddress>)
        requires
            self.wf(),
        ensures
            r == (if self.data_api_map().dom().contains(api@) {
                Some(self.data_api_map()[api@])
            } else {
                None::<ComponentAddress>
            }),
    {
        match self.find_data_api(api) {
            Some(i) => {
                proof {
                    lemma_to_map_index(self.data_apis@, api_key(), api_address(), i as int);
                }
                Some(self.data_apis[i].1)
            },
            None => None,
        }
    }

    /// The query a pending api was requested with, if `api` is pending.
    pub fn pending_query(&self, api: &String) -> (r: Option<String>)
        requires
            self.wf(),
        ensures
            r is Some <==> self.pending_map().dom().contains(api@),
            r matches Some(q) ==> q@ == self.pending_map()[api@].1,
    {
        match self.find_pending(api) {
            Some(i) => {
                proof {
                    lemma_to_map_index(
                        self.non_validated_apis@,
                        pending_key(),
                        pending_val(),
                        i as int,
                    );
                }
                Some(self.non_validated_apis[i].query.clone())
            },
            None => None,
        }
    }

    /// Records that `address` serves the data api `api` (replacing any
    /// earlier component for it).
    pub fn add_data_api(&mut self, api: String, address: ComponentAddress)
        requires
            old(self).wf(),
        ensures
            final(self).wf(),
            final(self).data_api_map() == old(self).data_api_map().insert(api@, address),
            final(self).non_validated_apis == old(self).non_validated_apis,
            final(self).stable_coins == old(self).stable_coins,
            final(self).validators == old(self).validators,
            final(self).active_validators == old(self).active_validators,
            final(self).stage == old(self).stage,
            final(self).round_start == old(self).round_start,
            final(self).system_time == old(self).system_time,
            final(self).round_length == old(self).round_length,
    {
        match self.find_data_api(&api) {
            Some(i) => {
                proof {
                    lemma_to_map_update(
                        self.data_apis@,
                        api_key(),
                        api_address(),
                        i as int,
                        (api, address),
                    );
                }
                self.data_apis.set(i, (api, address));
            },
            None => {
                proof {
                    lemma_to_map_push(self.data_apis@, api_key(), api_address(), (api, address));
                }
                self.data_apis.push((api, address));
            },
        }
    }

    /// Accepts the pending api `api`, now served by the component `address`
    /// (created with the pending query, see [`NeuRacle::pending_query`]).
    pub fn new_api(&mut self, api: String, address: ComponentAddress)
        requires
            old(self).wf(),
            old(self).pending_map().dom().contains(api@),
        ensures
            final(self).wf(),
            final(self).pending_map() == old(self).pending_map().remove(api@),
            final(self).data_api_map() == old(self).data_api_map().insert(api@, address),
            final(self).stable_coins == old(self).stable_coins,
            final(self).validators == old(self).validators,
            final(self).active_validators == old(self).active_validators,
            final(self).stage == old(self).stage,
            final(self).round_start == old(self).round_start,
            final(self).system_time == old(self).system_time,
    {
        let i = match self.find_pending(&api) {
            Some(i) => i,
            None => {
                assert(false);
                0
            },
        };
        proof {
            lemma_to_map_remove(self.non_validated_apis@, pending_key(), pending_val(), i as int);
        }
        self.non_validated_apis.remove(i);
        self.add_data_api(api, address);
    }
    /// Registers the newly created validator component `validator` with no
    /// weight yet; only while the component is in its first stage.
    pub fn create_new_validator_node(&mut self, validator: ComponentAddress) -> (r: Result<
        (),
        NeuRacleError,
    >)
        requires
            old(self).wf(),
            forall|i: int|
                0 <= i < old(self).validators@.len() ==> old(self).validators@[i].0 != validator,
        ensures
            final(self).wf(),
            r is Err <==> old(self).stage != 1,
            r is Err ==> r == Err::<(), NeuRacleError>(NeuRacleError::NotFirstStage) && *final(self)
                == *old(self),
            r is Ok ==> final(self).validators@ == old(self).validators@.push(
                (validator, Decimal { raw: 0 }),
            ) && *final(self) == (NeuRacle { validators: final(self).validators, ..*old(self) }),
    {
        if self.stage != 1 {
            return Err(NeuRacleError::NotFirstStage);
        }
        self.register_validator(validator);
        Ok(())
    }

    /// Registers the newly created validator component `validator` with no
    /// weight yet; only once the component is in its second stage, open to
    /// anyone.
    pub fn become_new_validator(&mut self, validator: ComponentAddress) -> (r: Result<
        (),
        NeuRacleError,
    >)
        requires
            old(self).wf(),
            forall|i: int|
                0 <= i < old(self).validators@.len() ==> old(self).validators@[i].0 != validator,
        ensures
            final(self).wf(),
            r is Err <==> old(self).stage != 2,
            r is Err ==> r == Err::<(), NeuRacleError>(NeuRacleError::NotSecondStage) && *final(self)
                == *old(self),
            r is Ok ==> final(self).validators@ == old(self).validators@.push(
                (validator, Decimal { raw: 0 }),
            ) && *final(self) == (NeuRacle { validators: final(self).validators, ..*old(self) }),
    {
        if self.stage != 2 {
            return Err(NeuRacleError::NotSecondStage);
        }
        self.register_validator(validator);
        Ok(())
    }

    fn register_validator(&mut self, validator: ComponentAddress)
        requires
            old(self).wf(),
            forall|i: int|
                0 <= i < old(self).validators@.len() ==> old(self).validators@[i].0 != validator,
        ensures
            final(self).wf(),
            final(self).validators@ == old(self).validators@.push((validator, Decimal { raw: 0 })),
            *final(self) == (NeuRacle { validators: final(self).validators, ..*old(self) }),
    {
        let ghost before = self.validators@;
        self.validators.push((validator, Decimal::zero()));
        proof {
            let after = self.validators@;
            assert forall|i: int, j: int| 0 <= i < j < after.len() implies validator_key()(after[i])
                != validator_key()(after[j]) by {
                if j < before.len() {
                    assert(validator_key()(before[i]) != validator_key()(before[j]));
                }
            }
        }
    }

    /// Whether [`NeuRacle::become_new_user`] may be called with these
    /// arguments (see [`NeuRacle::subscribe_ready`]).
    pub fn can_subscribe(&self, payment_resource: ResourceAddress, amount: Decimal, current: u64) -> (b:
        bool)
        ensures
            b == self.subscribe_ready(payment_resource, amount, current),
    {
        if !(payment_resource == self.neura && self.pay_rate.le(amount)) {
            return true;
        }
        let payment = match quote_payment(amount, self.pay_rate) {
            Some(p) => p,
            None => return false,
        };
        proof {
            lemma_whole_rounds(payment.rounds);
        }
        let delay = match self.round_length.checked_mul(10) {
            Some(d) => d,
            None => return false,
        };
        let start = match delay.checked_add(current) {
            Some(d) => d,
            None => return false,
        };
        start.checked_add(payment.rounds).is_some()
    }

    /// Whether [`NeuRacle::refund_account`] may be called with these
    /// arguments (see [`NeuRacle::refund_ready`]).
    pub fn can_refund(
        &self,
        identity_resource: ResourceAddress,
        identity_amount: Decimal,
        payment_resource: ResourceAddress,
        amount: Decimal,
        current: u64,
    ) -> (b: bool)
        ensures
            b == self.refund_ready(identity_resource, identity_amount, payment_resource, amount, current),
    {
        if !(identity_resource == self.user_badge && Decimal::one().le(identity_amount)
            && payment_resource == self.neura && Decimal::zero().le(amount)) {
            return true;
        }
        let payment = match quote_payment(amount, self.pay_rate) {
            Some(p) => p,
            None => return false,
        };
        proof {
            lemma_whole_rounds(payment.rounds);
        }
        current.checked_add(payment.rounds).is_some()
    }

    /// A new user pays `amount` of `payment_resource` to read `query` of
    /// `api`.  The payment must be in the component's token and cover at
    /// least one round.  The rounds it buys are burned, the rest handed
    /// back; the user may read from ten rounds after `current` on, for as
    /// many epochs as rounds were bought.  An api that is not yet served is
    /// (re)registered as pending with no failed round and this query.
    pub fn become_new_user(
        &mut self,
        payment_resource: ResourceAddress,
        amount: Decimal,
        api: String,
        query: String,
        current: u64,
    ) -> (r: Result<Subscription, NeuRacleError>)
        requires
            old(self).wf(),
            old(self).subscribe_ready(payment_resource, amount, current),
        ensures
            final(self).wf(),
            r matches Err(e) ==> *final(self) == *old(self) && e == NeuRacleError::Resource(
                check_resource_result(payment_resource, old(self).neura, amount, old(self).pay_rate),
            ),
            r is Err <==> !(payment_resource == old(self).neura && old(self).pay_rate.val()
                <= amount.val()),
            r matches Ok(sub) ==> {
                let paid = paid_rounds(amount.val(), old(self).pay_rate.val());
                &&& whole(sub.payment.rounds as int) == paid
                &&& sub.payment.burned.val() == burned_amount(amount.val(), old(self).pay_rate.val())
                &&& sub.payment.change.val() == amount.val() - sub.payment.burned.val()
                &&& sub.badge.end == 10 * old(self).round_length + current + sub.payment.rounds
                &&& sub.badge.api@ == api@
                &&& sub.badge.query@ == query@
                &&& if old(self).data_api_map().dom().contains(api@) {
                    &&& sub.data_api == Some(old(self).data_api_map()[api@])
                    &&& *final(self) == *old(self)
                } else {
                    &&& sub.data_api is None
                    &&& final(self).pending_map() == old(self).pending_map().insert(
                        api@,
                        (0u8, query@),
                    )
                    &&& *final(self) == (NeuRacle {
                        non_validated_apis: final(self).non_validated_apis,
                        ..*old(self)
                    })
                }
            },
    {
        match check_resource(payment_resource, self.neura, amount, self.pay_rate) {
            Err(e) => {
                return Err(NeuRacleError::Resource(e));
            },
            Ok(()) => {},
        }
        let payment = pay_for_rounds(amount, self.pay_rate);
        let end = 10 * self.round_length + current + payment.rounds;
        let data_api = self.data_api(&api);
        if data_api.is_none() {
            let entry = PendingApi { api: api.clone(), failed_rounds: 0, query: query.clone() };
            match self.find_pending(&api) {
                Some(i) => {
                    proof {
                        lemma_to_map_update(
                            self.non_validated_apis@,
                            pending_key(),
                            pending_val(),
                            i as int,
                            entry,
                        );
                    }
                    self.non_validated_apis.set(i, entry);
                },
                None => {
                    proof {
                        lemma_to_map_push(
                            self.non_validated_apis@,
                            pending_key(),
                            pending_val(),
                            entry,
                        );
                    }
                    self.non_validated_apis.push(entry);
                },
            }
        }
        Ok(Subscription { badge: UserData { end, api, query }, payment, data_api })
    }

    /// A user holding `identity_amount` of `identity_resource` pays `amount`
    /// of `payment_resource` to extend its access.  The identity must be one
    /// user badge of this component and the payment in its token.  The
    /// rounds bought are burned, the rest handed back, and the access would
    /// end at `current` plus as many epochs as rounds were bought; the
    /// badge's data is left as it was.
    pub fn refund_account(
        &self,
        identity_resource: ResourceAddress,
        identity_amount: Decimal,
        payment_resource: ResourceAddress,
        amount: Decimal,
        current: u64,
    ) -> (r: Result<Refund, NeuRacleError>)
        requires
            self.refund_ready(identity_resource, identity_amount, payment_resource, amount, current),
        ensures
            r matches Err(e) ==> {
                if !(identity_resource == self.user_badge && whole(1) <= identity_amount.val()) {
                    e == NeuRacleError::Resource(
                        check_resource_result(
                            identity_resource,
                            self.user_badge,
                            identity_amount,
                            Decimal { raw: SCALE },
                        ),
                    )
                } else {
                    e == NeuRacleError::Resource(
                        check_resource_result(
                            payment_resource,
                            self.neura,
                            amount,
                            Decimal { raw: 0 },
                        ),
                    )
                }
            },
            r is Err <==> !(identity_resource == self.user_badge && whole(1)
                <= identity_amount.val() && payment_resource == self.neura && 0 <= amount.val()),
            r matches Ok(refund) ==> {
                &&& whole(refund.payment.rounds as int) == paid_rounds(
                    amount.val(),
                    self.pay_rate.val(),
                )
                &&& refund.payment.burned.val() == burned_amount(amount.val(), self.pay_rate.val())
                &&& refund.payment.change.val() == amount.val() - refund.payment.burned.val()
                &&& refund.end == current + refund.payment.rounds
            },
    {
        match check_resource(identity_resource, self.user_badge, identity_amount, Decimal::one()) {
            Err(e) => {
                return Err(NeuRacleError::Resource(e));
            },
            Ok(()) => {},
        }
        match check_resource(payment_resource, self.neura, amount, Decimal::zero()) {
            Err(e) => {
                return Err(NeuRacleError::Resource(e));
            },
            Ok(()) => {},
        }
        let payment = pay_for_rounds(amount, self.pay_rate);
        let end = current + payment.rounds;
        Ok(Refund { payment, end })
    }

    /// A user holding `identity_amount` of `identity_resource`, whose badge
    /// carries `user`, asks at epoch `current` for its data.  The identity
    /// must be one user badge of this component and the access must not have
    /// run out (an end of zero never runs out); the answer is the component
    /// serving the user's api, which gives the value of the user's query.
    pub fn get_data(
        &self,
        identity_resource: ResourceAddress,
        identity_amount: Decimal,
        user: &UserData,
        current: u64,
    ) -> (r: Result<ComponentAddress, NeuRacleError>)
        requires
            self.wf(),
            identity_resource == self.user_badge && whole(1) <= identity_amount.val() && (current
                <= user.end || user.end == 0) ==> self.data_api_map().dom().contains(user.api@),
        ensures
            r matches Err(e) ==> if !(identity_resource == self.user_badge && whole(1)
                <= identity_amount.val()) {
                e == NeuRacleError::Resource(
                    check_resource_result(
                        identity_resource,
                        self.user_badge,
                        identity_amount,
                        Decimal { raw: SCALE },
                    ),
                )
            } else {
                e == NeuRacleError::OutOfTime
            },
            r is Err <==> !(identity_resource == self.user_badge && whole(1)
                <= identity_amount.val() && (current <= user.end || user.end == 0)),
            r matches Ok(a) ==> a == self.data_api_map()[user.api@],
    {
        match check_resource(identity_resource, self.user_badge, identity_amount, Decimal::one()) {
            Err(e) => {
                return Err(NeuRacleError::Resource(e));
            },
            Ok(()) => {},
        }
        if !(current <= user.end || user.end == 0) {
            return Err(NeuRacleError::OutOfTime);
        }
        match self.data_api(&user.api) {
            Some(a) => Ok(a),
            None => {
                assert(false);
                Err(NeuRacleError::OutOfTime)
            },
        }
    }

    /// Records the current stake of each validator, in order, as its weight.
    fn record_stakes(&mut self, stakes: &Vec<Decimal>)
        requires
            old(self).wf(),
            stakes@.len() == old(self).validators@.len(),
        ensures
            final(self).wf(),
            final(self).validators@ == with_stakes(old(self).validators@, stakes@),
            *final(self) == (NeuRacle { validators: final(self).validators, ..*old(self) }),
    {
        let ghost before = self.validators@;
        let mut i: usize = 0;
        while i < self.validators.len()
            invariant
                i <= self.validators@.len(),
                self.validators@.len() == before.len(),
                stakes@.len() == before.len(),
                before == old(self).validators@,
                forall|j: int| 0 <= j < i ==> self.validators@[j] == with_stakes(before, stakes@)[j],
                forall|j: int| i <= j < before.len() ==> self.validators@[j] == before[j],
                *self == (NeuRacle { validators: self.validators, ..*old(self) }),
            decreases self.validators@.len() - i,
        {
            let address = self.validators[i].0;
            self.validators.set(i, (address, stakes[i]));
            i = i + 1;
        }
        assert(self.validators@ =~= with_stakes(before, stakes@));
        assert forall|a: int, b: int| 0 <= a < b < self.validators@.len() implies validator_key()(
            self.validators@[a],
        ) != validator_key()(self.validators@[b]) by {
            assert(validator_key()(before[a]) != validator_key()(before[b]));
        }
    }

    /// Starts a round at epoch `current`.  Refused while a round runs, and
    /// before the round number of `current` reaches the component's
    /// `system_time`.  Each validator's current stake (`stakes`, in the order
    /// of the validators) becomes its weight.  In the first stage the
    /// validators are then ranked by weight and the `validator_cap` heaviest
    /// become the active set; the answer is
    /// the validator set every served data api starts its round with (the
    /// active set in the first stage, all validators later).
    pub fn new_round(&mut self, current: u64, stakes: &Vec<Decimal>) -> (r: Result<
        Vec<(ComponentAddress, Decimal)>,
        NeuRacleError,
    >)
        requires
            old(self).wf(),
            stakes@.len() == old(self).validators@.len(),
            !old(self).round_start && old(self).round_of(current) >= old(self).system_time
                && old(self).stage == 1 ==> old(self).validator_cap <= old(self).validators@.len(),
        ensures
            final(self).wf(),
            r == Err::<Vec<(ComponentAddress, Decimal)>, NeuRacleError>(
                NeuRacleError::PreviousRoundNotEnded,
            ) <==> old(self).round_start,
            r == Err::<Vec<(ComponentAddress, Decimal)>, NeuRacleError>(
                NeuRacleError::NotTimeForNewRound,
            ) <==> !old(self).round_start && old(self).round_of(current) < old(self).system_time,
            r is Err ==> *final(self) == *old(self),
            r matches Ok(set) ==> {
                &&& final(self).round_start
                &&& if old(self).stage == 1 {
                    &&& ranked(with_stakes(old(self).validators@, stakes@), final(self).validators@)
                    &&& final(self).active_validators@ == final(self).validators@.take(
                        old(self).validator_cap as int,
                    )
                    &&& set@ == final(self).active_validators@
                } else {
                    &&& final(self).validators@ == with_stakes(old(self).validators@, stakes@)
                    &&& final(self).active_validators == old(self).active_validators
                    &&& set@ == final(self).validators@
                }
                &&& *final(self) == (NeuRacle {
                    round_start: true,
                    validators: final(self).validators,
                    active_validators: final(self).active_validators,
                    ..*old(self)
                })
            },
    {
        if self.round_start {
            return Err(NeuRacleError::PreviousRoundNotEnded);
        }
        if current / self.round_length < self.system_time {
            return Err(NeuRacleError::NotTimeForNewRound);
        }
        self.record_stakes(stakes);
        self.round_start = true;
        if self.stage == 1 {
            self.rank_and_select();
            Ok(copy_entries(&self.active_validators))
        } else {
            Ok(copy_entries(&self.validators))
        }
    }

    /// Ranks the validators heaviest first and keeps the `validator_cap`
    /// heaviest as the active set.
    fn rank_and_select(&mut self)
        requires
            old(self).wf(),
            old(self).validator_cap <= old(self).validators@.len(),
        ensures
            final(self).wf(),
            ranked(old(self).validators@, final(self).validators@),
            final(self).active_validators@ == final(self).validators@.take(
                old(self).validator_cap as int,
            ),
            *final(self) == (NeuRacle {
                validators: final(self).validators,
                active_validators: final(self).active_validators,
                ..*old(self)
            }),
    {
        let ranked_validators = rank_by_weight(&self.validators);
        let mut active: Vec<(ComponentAddress, Decimal)> = Vec::new();
        let mut i: usize = 0;
        while i < self.validator_cap
            invariant
                self.validator_cap <= ranked_validators@.len(),
                i <= self.validator_cap,
                active@ == ranked_validators@.take(i as int),
            decreases self.validator_cap - i,
        {
            active.push(ranked_validators[i]);
            i = i + 1;
            assert(active@ =~= ranked_validators@.take(i as int));
        }
        self.validators = ranked_validators;
        self.active_validators = active;
    }

    /// The validators whose votes will count if the round ends now (see
    /// [`round_voters`]); [`NeuRacle::end_round`] takes their statuses and
    /// votes in this order.
    pub fn round_voters(&self) -> (v: Vec<(ComponentAddress, Decimal)>)
        requires
            self.wf(),
            self.stage == 1 ==> self.validator_cap <= self.validators@.len(),
        ensures
            forall|out: Seq<(ComponentAddress, Decimal)>|
                ranked(self.validators@, out) ==> v@ == round_voters(
                    self.stage,
                    self.validator_cap,
                    out,
                    self.active_validators@,
                ),
            self.stage == 1 ==> exists|out: Seq<(ComponentAddress, Decimal)>|
                ranked(self.validators@, out),
            self.stage != 1 ==> v@ == self.active_validators@,
            distinct_keys(v@, validator_key()),
    {
        if self.stage == 1 {
            let ranked_validators = rank_by_weight(&self.validators);
            proof {
                assert forall|out: Seq<(ComponentAddress, Decimal)>|
                    ranked(self.validators@, out) implies out == ranked_validators@ by {
                    lemma_ranked_unique(self.validators@, out, ranked_validators@);
                }
            }
            let mut active: Vec<(ComponentAddress, Decimal)> = Vec::new();
            let mut i: usize = 0;
            while i < self.validator_cap
                invariant
                    self.validator_cap <= ranked_validators@.len(),
                    i <= self.validator_cap,
                    active@ == ranked_validators@.take(i as int),
                decreases self.validator_cap - i,
            {
                active.push(ranked_validators[i]);
                i = i + 1;
                assert(active@ =~= ranked_validators@.take(i as int));
            }
            active
        } else {
            copy_entries(&self.active_validators)
        }
    }

    /// Whether [`NeuRacle::end_round`] may be called at epoch `current` with
    /// these votes (see [`NeuRacle::end_round_ready`]).
    pub fn can_end_round(&self, current: u64, statuses: &Vec<bool>, approvals: &Vec<Vec<bool>>) -> (b:
        bool)
        requires
            self.wf(),
        ensures
            b == self.end_round_ready(current, statuses@, approvals@),
    {
        if !self.round_start {
            return true;
        }
        if self.stage == 1 && self.validator_cap > self.validators.len() {
            return false;
        }
        if current / self.round_length == u64::MAX {
            return false;
        }
        let voters = self.round_voters();
        let fit = votes_fit(&voters, &self.non_validated_apis, statuses, approvals);
        proof {
            if self.stage == 1 {
                let out = choose|out: Seq<(ComponentAddress, Decimal)>|
                    ranked(self.validators@, out);
                assert(voters@ == out.take(self.validator_cap as int));
            }
        }
        fit
    }

    /// Ends the running round at epoch `current`.  In the first stage the
    /// validators are ranked again and the `validator_cap` heaviest become the
    /// active set.  Every pending api is put to the vote of the active set,
    /// each voter reporting whether it took part (`statuses`, in the order of
    /// [`NeuRacle::round_voters`]) and how it voted on that api
    /// (`approvals`, one row per pending api): an api approved by two thirds
    /// of the active weight is accepted (and leaves the pending apis), one
    /// approved by less than a third fails and is dropped when it had already
    /// failed nine rounds, every other one stays with one more failed round.
    /// The next round may start from the round after the one of `current`.
    pub fn end_round(
        &mut self,
        current: u64,
        statuses: &Vec<bool>,
        approvals: &Vec<Vec<bool>>,
    ) -> (r: Result<RoundEnd, NeuRacleError>)
        requires
            old(self).wf(),
            old(self).end_round_ready(current, statuses@, approvals@),
        ensures
            final(self).wf(),
            r is Err <==> !old(self).round_start,
            r is Err ==> r == Err::<RoundEnd, NeuRacleError>(NeuRacleError::RoundNotStarted)
                && *final(self) == *old(self),
            r matches Ok(end) ==> {
                let vf = verdicts_of(final(self).active_validators@, statuses@, approvals@);
                let n = old(self).non_validated_apis@.len() as int;
                &&& if old(self).stage == 1 {
                    &&& ranked(old(self).validators@, final(self).validators@)
                    &&& final(self).active_validators@ == final(self).validators@.take(
                        old(self).validator_cap as int,
                    )
                    &&& end.data_api_validators@ == final(self).active_validators@
                } else {
                    &&& final(self).validators == old(self).validators
                    &&& final(self).active_validators == old(self).active_validators
                    &&& end.data_api_validators@ == old(self).validators@
                }
                &&& final(self).non_validated_apis@.map_values(|e: PendingApi| pending_view(e))
                    == kept_apis(old(self).non_validated_apis@, vf, n)
                &&& end.accepted@.map_values(|p: (String, String)| accepted_view(p))
                    == accepted_apis(old(self).non_validated_apis@, vf, n)
                &&& final(self).system_time == old(self).round_of(current) + 1
                &&& *final(self) == (NeuRacle {
                    round_start: false,
                    system_time: final(self).system_time,
                    validators: final(self).validators,
                    active_validators: final(self).active_validators,
                    non_validated_apis: final(self).non_validated_apis,
                    ..*old(self)
                })
            },
    {
        if !self.round_start {
            return Err(NeuRacleError::RoundNotStarted);
        }
        let data_api_validators = if self.stage == 1 {
            self.rank_and_select();
            copy_entries(&self.active_validators)
        } else {
            copy_entries(&self.validators)
        };
        let ghost pending = self.non_validated_apis@;
        let ghost vf = verdicts_of(self.active_validators@, statuses@, approvals@);
        assert(votes_computable(self.active_validators@, pending, statuses@, approvals@));
        let mut kept: Vec<PendingApi> = Vec::new();
        let mut accepted: Vec<(String, String)> = Vec::new();
        let n = self.non_validated_apis.len();
        let mut i: usize = 0;
        while i < n
            invariant
                n == pending.len(),
                pending == self.non_validated_apis@,
                distinct_keys(self.active_validators@, validator_key()),
                i <= n,
                vf == verdicts_of(self.active_validators@, statuses@, approvals@),
                votes_computable(self.active_validators@, pending, statuses@, approvals@),
                distinct_keys(pending, pending_key()),
                kept@.map_values(|e: PendingApi| pending_view(e)) == kept_apis(pending, vf, i as int),
                accepted@.map_values(|p: (String, String)| accepted_view(p)) == accepted_apis(
                    pending,
                    vf,
                    i as int,
                ),
                distinct_keys(kept@, pending_key()),
                forall|a: int|
                    0 <= a < kept@.len() ==> exists|j: int|
                        0 <= j < i && (#[trigger] kept@[a]).api@ == pending[j].api@,
            decreases n - i,
        {
            assert(approvals@[i as int]@.len() == self.active_validators@.len());
            let ballots = build_ballots(&self.active_validators, statuses, &approvals[i]);
            let v = vote_for_api(&ballots);
            assert(v == vf(i as int));
            let e = &self.non_validated_apis[i];
            let ghost kept_before = kept@;
            let ghost accepted_before = accepted@;
            match v {
                Some(true) => {
                    accepted.push((e.api.clone(), e.query.clone()));
                    assert(accepted@.map_values(|p: (String, String)| accepted_view(p))
                        =~= accepted_before.map_values(|p: (String, String)| accepted_view(p)).push(
                        (e.api@, e.query@),
                    ));
                },
                _ => {
                    if v.is_none() || e.failed_rounds < 9 {
                        let entry = PendingApi {
                            api: e.api.clone(),
                            failed_rounds: e.failed_rounds + 1,
                            query: e.query.clone(),
                        };
                        kept.push(entry);
                        assert(kept@.map_values(|e: PendingApi| pending_view(e))
                            =~= kept_before.map_values(|e: PendingApi| pending_view(e)).push(
                            pending_view(entry),
                        ));
                        proof {
                            assert forall|a: int, b: int|
                                0 <= a < b < kept@.len() implies pending_key()(kept@[a])
                                != pending_key()(kept@[b]) by {
                                if b == kept@.len() - 1 {
                                    assert(kept@[a] == kept_before[a]);
                                    let j = choose|j: int|
                                        0 <= j < i && kept_before[a].api@ == pending[j].api@;
                                    assert(pending_key()(pending[j]) != pending_key()(
                                        pending[i as int],
                                    ));
                                } else {
                                    assert(kept@[a] == kept_before[a]);
                                    assert(kept@[b] == kept_before[b]);
                                }
                            }
                        }
                    }
                },
            }
            proof {
                assert forall|a: int| 0 <= a < kept@.len() implies exists|j: int|
                    0 <= j < i + 1 && (#[trigger] kept@[a]).api@ == pending[j].api@ by {
                    if a < kept_before.len() {
                        assert(kept@[a] == kept_before[a]);
                        let j = choose|j: int| 0 <= j < i && kept_before[a].api@ == pending[j].api@;
                    } else {
                        assert(kept@[a].api@ == pending[i as int].api@);
                    }
                }
            }
            i = i + 1;
        }
        self.non_validated_apis = kept;
        self.system_time = current / self.round_length + 1;
        self.round_start = false;
        Ok(RoundEnd { data_api_validators, accepted })
    }

    /// Records the stable coin project `address` under `name` (replacing any
    /// earlier name for it).
    pub fn add_stable_coin(&mut self, address: ComponentAddress, name: String)
        requires
            old(self).wf(),
        ensures
            final(self).wf(),
            final(self).stable_coin_map() == old(self).stable_coin_map().insert(address, name@),
            *final(self) == (NeuRacle { stable_coins: final(self).stable_coins, ..*old(self) }),
    {
        let mut i: usize = 0;
        while i < self.stable_coins.len()
            invariant
                i <= self.stable_coins@.len(),
                self.wf(),
                *self == *old(self),
                forall|j: int| 0 <= j < i ==> self.stable_coins@[j].0 != address,
            decreases self.stable_coins@.len() - i,
        {
            if self.stable_coins[i].0 == address {
                proof {
                    lemma_to_map_update(
                        self.stable_coins@,
                        coin_key(),
                        coin_name(),
                        i as int,
                        (address, name),
                    );
                }
                self.stable_coins.set(i, (address, name));
                return ;
            }
            i = i + 1;
        }
        proof {
            lemma_to_map_dom(self.stable_coins@, coin_key(), coin_name(), address);
            lemma_to_map_push(self.stable_coins@, coin_key(), coin_name(), (address, name));
        }
        self.stable_coins.push((address, name));
    }

    /// Moves the component from its second stage to the next one.
    pub fn advance_stage(&mut self) -> (r: Result<(), NeuRacleError>)
        requires
            old(self).wf(),
        ensures
            final(self).wf(),
            r is Err <==> old(self).stage != 2,
            r is Err ==> r == Err::<(), NeuRacleError>(NeuRacleError::NotSecondStage) && *final(self)
                == *old(self),
            r is Ok ==> *final(self) == (NeuRacle { stage: 3, ..*old(self) }),
    {
        if self.stage != 2 {
            return Err(NeuRacleError::NotSecondStage);
        }
        self.stage = self.stage + 1;
        Ok(())
    }

    /// Sets the number of epochs stakers of validators created from now on
    /// wait before their unstaked tokens can be withdrawn.
    pub fn set_unstake_delay(&mut self, new_unstake_delay: u64)
        ensures
            *final(self) == (NeuRacle { unstake_delay: new_unstake_delay, ..*old(self) }),
    {
        self.unstake_delay = new_unstake_delay;
    }
}

/// The query a stable coin pegged to `pegged_to` reads its price with:
/// `"NAR <pegged_to> last price"`.
pub fn stable_coin_query(pegged_to: &String) -> (q: String)
    ensures
        q@ == "NAR "@ + pegged_to@ + " last price"@,
{
    let q = String::from_str("NAR ");
    let q = q.concat(pegged_to.as_str());
    q.concat(" last price")
}

/// The name a stable coin project pegged to `pegged_to` is recorded under:
/// `"<pegged_to> NStable Coin"`.
pub fn stable_coin_name(pegged_to: &String) -> (n: String)
    ensures
        n@ == pegged_to@ + " NStable Coin"@,
{
    pegged_to.clone().concat(" NStable Coin")
}

impl ValidatorData {
    /// The data of a new validator's badge: no address recorded and nothing
    /// staked.
    pub fn new(name: &String, location: String, website: String) -> (d: ValidatorData)
        ensures
            d.name@ == name@,
            d.location == location,
            d.website == website,
            d.address@ == Seq::<char>::empty(),
            d.staked.val() == 0,
    {
        ValidatorData {
            name: name.clone(),
            location,
            website,
            address: String::new(),
            staked: Decimal::zero(),
        }
    }
}

/// A pending api leaves the pending apis after a round exactly when the
/// round accepted it (it is then among the accepted apis) or rejected it
/// once it had already failed nine rounds; otherwise it stays, with one more
/// failed round.
pub proof fn lemma_pending_api_fate(
    pending: Seq<PendingApi>,
    verdict_of: spec_fn(int) -> Option<bool>,
    n: int,
    i: int,
)
    requires
        distinct_keys(pending, pending_key()),
        0 <= i < n <= pending.len(),
    ensures
        (exists|k: int|
            0 <= k < kept_apis(pending, verdict_of, n).len() && kept_apis(pending, verdict_of, n)[k]
                == (pending[i].api@, (pending[i].failed_rounds + 1) as u8, pending[i].query@))
            <==> stays_pending(pending[i], verdict_of(i)),
        (exists|k: int|
            0 <= k < kept_apis(pending, verdict_of, n).len() && kept_apis(
                pending,
                verdict_of,
                n,
            )[k].0 == pending[i].api@) <==> stays_pending(pending[i], verdict_of(i)),
        (exists|k: int|
            0 <= k < accepted_apis(pending, verdict_of, n).len() && accepted_apis(
                pending,
                verdict_of,
                n,
            )[k].0 == pending[i].api@) <==> verdict_of(i) == Some(true),
    decreases n,
{
    lemma_fate_keys(pending, verdict_of, n - 1);
    let kp = kept_apis(pending, verdict_of, n - 1);
    let ap = accepted_apis(pending, verdict_of, n - 1);
    let kn = kept_apis(pending, verdict_of, n);
    let an = accepted_apis(pending, verdict_of, n);
    let e = pending[n - 1];
    if i < n - 1 {
        lemma_pending_api_fate(pending, verdict_of, n - 1, i);
        assert(pending_key()(pending[i]) != pending_key()(pending[n - 1]));
        if exists|k: int| 0 <= k < kn.len() && kn[k].0 == pending[i].api@ {
            let k = choose|k: int| 0 <= k < kn.len() && kn[k].0 == pending[i].api@;
            assert(k < kp.len() && kp[k] == kn[k]);
        }
        if stays_pending(pending[i], verdict_of(i)) {
            let k = choose|k: int|
                0 <= k < kp.len() && kp[k] == (
                    pending[i].api@,
                    (pending[i].failed_rounds + 1) as u8,
                    pending[i].query@,
                );
            assert(kn[k] == kp[k]);
        }
        if exists|k: int| 0 <= k < an.len() && an[k].0 == pending[i].api@ {
            let k = choose|k: int| 0 <= k < an.len() && an[k].0 == pending[i].api@;
            assert(k < ap.len() && ap[k] == an[k]);
        }
        if verdict_of(i) == Some(true) {
            let k = choose|k: int| 0 <= k < ap.len() && ap[k].0 == pending[i].api@;
            assert(an[k] == ap[k]);
        }
    } else {
        if exists|k: int| 0 <= k < kn.len() && kn[k].0 == pending[i].api@ {
            let k = choose|k: int| 0 <= k < kn.len() && kn[k].0 == pending[i].api@;
            if k < kp.len() {
                assert(kn[k] == kp[k]);
            }
        }
        if stays_pending(e, verdict_of(i)) {
            assert(kn[kp.len() as int] == (e.api@, (e.failed_rounds + 1) as u8, e.query@));
        }
        if exists|k: int| 0 <= k < an.len() && an[k].0 == pending[i].api@ {
            let k = choose|k: int| 0 <= k < an.len() && an[k].0 == pending[i].api@;
            if k < ap.len() {
                assert(an[k] == ap[k]);
            }
        }
        if verdict_of(i) == Some(true) {
            assert(an[ap.len() as int] == (e.api@, e.query@));
        }
    }
}

/// The apis kept and accepted among the first `n` pending apis all come
/// from those `n`.
proof fn lemma_fate_keys(pending: Seq<PendingApi>, verdict_of: spec_fn(int) -> Option<bool>, n: int)
    requires
        0 <= n <= pending.len(),
    ensures
        forall|k: int|
            0 <= k < kept_apis(pending, verdict_of, n).len() ==> exists|j: int|
                0 <= j < n && (#[trigger] kept_apis(pending, verdict_of, n)[k]).0 == pending[j].api@,
        forall|k: int|
            0 <= k < accepted_apis(pending, verdict_of, n).len() ==> exists|j: int|
                0 <= j < n && (#[trigger] accepted_apis(pending, verdict_of, n)[k]).0
                    == pending[j].api@,
    decreases n,
{
    if n > 0 {
        lemma_fate_keys(pending, verdict_of, n - 1);
        let kp = kept_apis(pending, verdict_of, n - 1);
        let ap = accepted_apis(pending, verdict_of, n - 1);
        let kn = kept_apis(pending, verdict_of, n);
        let an = accepted_apis(pending, verdict_of, n);
        assert forall|k: int| 0 <= k < kn.len() implies exists|j: int|
            0 <= j < n && (#[trigger] kn[k]).0 == pending[j].api@ by {
            if k < kp.len() {
                assert(kn[k] == kp[k]);
                let j = choose|j: int| 0 <= j < n - 1 && kp[k].0 == pending[j].api@;
            } else {
                assert(kn[k].0 == pending[n - 1].api@);
            }
        }
        assert forall|k: int| 0 <= k < an.len() implies exists|j: int|
            0 <= j < n && (#[trigger] an[k]).0 == pending[j].api@ by {
            if k < ap.len() {
                assert(an[k] == ap[k]);
                let j = choose|j: int| 0 <= j < n - 1 && ap[k].0 == pending[j].api@;
            } else {
                assert(an[k].0 == pending[n - 1].api@);
            }
        }
    }
}

/// Once a round ended at epoch `ended`, a new round is refused as too early
/// exactly at the epochs of the same round period, and allowed from the next
/// one on.
pub proof fn lemma_one_round_per_period(s: NeuRacle, ended: u64, later: u64)
    requires
        s.wf(),
        !s.round_start,
        s.system_time == s.round_of(ended) + 1,
        ended <= later,
    ensures
        (s.round_of(later) < s.system_time) <==> (s.round_of(later) == s.round_of(ended)),
{
    vstd::arithmetic::div_mod::lemma_div_is_ordered(
        ended as int,
        later as int,
        s.round_length as int,
    );
}

/// The active set chosen in the first stage holds the heaviest validators:
/// none outside it weighs more than one inside it.
pub proof fn lemma_active_are_heaviest(s: NeuRacle)
    requires
        s.stage == 1,
        heaviest_first(s.validators@),
        s.validator_cap <= s.validators@.len(),
        s.active_validators@ == s.validators@.take(s.validator_cap as int),
    ensures
        forall|i: int, j: int|
            0 <= i < s.active_validators@.len() && s.validator_cap <= j < s.validators@.len()
                ==> s.active_validators@[i].1.val() >= s.validators@[j].1.val(),
{
}

/// Paying more never buys fewer rounds: at a positive rate, the rounds a
/// payment buys grow with the payment.
pub proof fn lemma_more_payment_more_rounds(a1: int, a2: int, pay_rate: int)
    requires
        0 <= a1 <= a2,
        pay_rate > 0,
    ensures
        paid_rounds(a1, pay_rate) <= paid_rounds(a2, pay_rate),
{
    let s = SCALE as int;
    assert(a1 * s <= a2 * s && 0 <= a1 * s) by (nonlinear_arith)
        requires
            0 <= a1 <= a2,
            s > 0,
    ;
    vstd::arithmetic::div_mod::lemma_div_is_ordered(a1 * s, a2 * s, pay_rate);
    let q1 = div_val(a1, pay_rate);
    let q2 = div_val(a2, pay_rate);
    vstd::arithmetic::div_mod::lemma_div_is_ordered(q1, q2, s);
    assert((q1 / s) * s <= (q2 / s) * s) by (nonlinear_arith)
        requires
            q1 / s <= q2 / s,
            s > 0,
    ;
}

/// The stake of the voters that report active, summed in order.
pub open spec fn active_stake(voters: Seq<(ComponentAddress, Decimal)>, statuses: Seq<bool>) -> int
    decreases voters.len(),
{
    if voters.len() == 0 {
        0
    } else {
        active_stake(voters.drop_last(), statuses) + if statuses[voters.len() - 1] {
            voters.last().1.val()
        } else {
            0
        }
    }
}

/// The stake of the voters that report active and approve, summed in order.
pub open spec fn approving_stake(
    voters: Seq<(ComponentAddress, Decimal)>,
    statuses: Seq<bool>,
    approvals: Seq<bool>,
) -> int
    decreases voters.len(),
{
    if voters.len() == 0 {
        0
    } else {
        approving_stake(voters.drop_last(), statuses, approvals) + if statuses[voters.len() - 1]
            && approvals[voters.len() - 1] {
            voters.last().1.val()
        } else {
            0
        }
    }
}

/// The ballot of each voter carries that voter's address, stake, status and
/// vote, so the vote on an api is weighed by stake: its total weight is the
/// stake of the active voters and its approving weight the stake of those
/// that approve.
pub proof fn lemma_ballots_carry_stakes(
    voters: Seq<(ComponentAddress, Decimal)>,
    statuses: Seq<bool>,
    approvals: Seq<bool>,
)
    requires
        statuses.len() >= voters.len(),
        approvals.len() >= voters.len(),
    ensures
        ballots_for(voters, statuses, approvals).len() == voters.len(),
        forall|j: int|
            #![trigger ballots_for(voters, statuses, approvals)[j]]
            0 <= j < voters.len() ==> {
                let b = ballots_for(voters, statuses, approvals)[j];
                &&& b.validator == voters[j].0
                &&& b.weight == voters[j].1
                &&& b.active == statuses[j]
                &&& b.approves == approvals[j]
            },
        total_weight(ballots_for(voters, statuses, approvals)) == active_stake(voters, statuses),
        approving_weight(ballots_for(voters, statuses, approvals)) == approving_stake(
            voters,
            statuses,
            approvals,
        ),
    decreases voters.len(),
{
    if voters.len() > 0 {
        let n = voters.len() - 1;
        lemma_ballots_carry_stakes(voters.drop_last(), statuses, approvals);
        let b = ballots_for(voters, statuses, approvals);
        let prev = ballots_for(voters.drop_last(), statuses, approvals);
        assert(b.drop_last() =~= prev);
        assert(b.last() == b[n as int]);
    }
}

/// At the start of a round the weight of each validator is exactly its
/// current stake: the validators keep their order and addresses, and what
/// they weighed before plays no part.
pub proof fn lemma_round_weights_are_stakes(
    validators: Seq<(ComponentAddress, Decimal)>,
    other: Seq<(ComponentAddress, Decimal)>,
    stakes: Seq<Decimal>,
)
    requires
        stakes.len() == validators.len(),
        other.len() == validators.len(),
        forall|i: int| 0 <= i < validators.len() ==> other[i].0 == validators[i].0,
    ensures
        with_stakes(validators, stakes).len() == validators.len(),
        forall|i: int|
            #![trigger with_stakes(validators, stakes)[i]]
            0 <= i < validators.len() ==> with_stakes(validators, stakes)[i].0 == validators[i].0
                && with_stakes(validators, stakes)[i].1 == stakes[i],
        with_stakes(other, stakes) == with_stakes(validators, stakes),
{
    assert(with_stakes(other, stakes) =~= with_stakes(validators, stakes));
}

} // verus!
