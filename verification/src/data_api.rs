//! A data api component: the validated value of each query of one api, the
//! values the round's leader proposed, and how a round's vote settles the
//! validators' rewards and punishments.
use vstd::prelude::*;

use crate::address::ComponentAddress;
use crate::decimal::{Decimal, fits, lemma_mul_whole, mul_val, whole};
use crate::keyed::{
    distinct_keys,
    lemma_to_map_dom,
    lemma_to_map_index,
    lemma_to_map_push,
    lemma_to_map_update,
    to_map,
};
use crate::utilities::{
    Ballot,
    approving_weight,
    distinct_validators,
    tally_fits,
    total_weight,
    verdict,
    vote_for_api,
};

verus! {

/// What the ledger must do to one validator when a round settles.
#[derive(Clone, Copy, Debug, PartialEq, Eq, Structural)]
pub enum Settlement {
    /// Reward it at this rate (see the validator's `mint`).
    Mint(Decimal),
    /// Punish it at this rate (see the validator's `burn`).
    Burn(Decimal),
}

/// The plain state of a data api component.
pub struct DataApi {
    /// The validated value of each query.
    pub datas: Vec<(String, Decimal)>,
    /// The values the round's leader proposed.
    pub non_validated_datas: Vec<(String, Decimal)>,
    /// The validator that proposed this round's values, once a round ran.
    pub leader: Option<ComponentAddress>,
    pub api: String,
    pub reward_rate: Decimal,
    pub punishment: Decimal,
}

pub open spec fn query_key() -> spec_fn((String, Decimal)) -> Seq<char> {
    |e: (String, Decimal)| e.0@
}

pub open spec fn query_value() -> spec_fn((String, Decimal)) -> Decimal {
    |e: (String, Decimal)| e.1
}

/// The rate an untruthful validator is punished at.
pub open spec fn penalty(reward_rate: Decimal, punishment: Decimal) -> int {
    mul_val(reward_rate.val(), punishment.val())
}

/// What settling a round gives each validator, given the verdict `v` on
/// the round's data: accepted data rewards those that approved and punishes
/// the others; rejected data punishes the leader five times the penalty,
/// then punishes those that approved and rewards the others; no verdict
/// settles nothing.  Only active validators are settled.
pub open spec fn settlement(
    ballots: Seq<Ballot>,
    v: Option<bool>,
    leader: ComponentAddress,
    reward_rate: Decimal,
    punishment: Decimal,
) -> Seq<(ComponentAddress, Settlement)>
    decreases ballots.len(),
{
    if v is None {
        Seq::empty()
    } else if ballots.len() == 0 {
        if v == Some(false) {
            seq![
                (
                    leader,
                    Settlement::Burn(Decimal { raw: (5 * penalty(reward_rate, punishment)) as i128 }),
                ),
            ]
        } else {
            Seq::empty()
        }
    } else {
        let prev = settlement(ballots.drop_last(), v, leader, reward_rate, punishment);
        let b = ballots.last();
        let pen = Settlement::Burn(Decimal { raw: penalty(reward_rate, punishment) as i128 });
        let rew = Settlement::Mint(reward_rate);
        if !b.active {
            prev
        } else if (v == Some(true)) == b.approves {
            prev.push((b.validator, rew))
        } else {
            prev.push((b.validator, pen))
        }
    }
}

impl DataApi {
    /// The validated values by query.
    pub open spec fn data_map(&self) -> Map<Seq<char>, Decimal> {
        to_map(self.datas@, query_key(), query_value())
    }

    /// No query has two values.
    pub open spec fn wf(&self) -> bool {
        &&& distinct_keys(self.datas@, query_key())
        &&& distinct_keys(self.non_validated_datas@, query_key())
    }

    /// Sets up the data api `api` with one query, valued zero.
    pub fn new(api: String, initial_query: String, reward_rate: Decimal, punishment: Decimal) -> (d:
        DataApi)
        ensures
            d.wf(),
            d.data_map() == Map::<Seq<char>, Decimal>::empty().insert(
                initial_query@,
                Decimal { raw: 0 },
            ),
            d.non_validated_datas@.len() == 0,
            d.leader is None,
            d.api == api,
            d.reward_rate == reward_rate,
            d.punishment == punishment,
    {
        let mut datas: Vec<(String, Decimal)> = Vec::new();
        datas.push((initial_query, Decimal::zero()));
        proof {
            let e = Seq::<(String, Decimal)>::empty();
            assert(datas@.drop_last() =~= e);
            assert(to_map(e, query_key(), query_value()) == Map::<Seq<char>, Decimal>::empty());
            assert(datas@.last() == (initial_query, Decimal { raw: 0 }));
        }
        DataApi {
            datas,
            non_validated_datas: Vec::new(),
            leader: None,
            api,
            reward_rate,
            punishment,
        }
    }

    /// Index of `query` in the validated values, if any.
    fn find_query(&self, query: &String) -> (r: Option<usize>)
        ensures
            r matches Some(i) ==> i < self.datas@.len() && self.datas@[i as int].0@ == query@,
            r is None ==> !self.data_map().dom().contains(query@),
    {
        let mut i: usize = 0;
        while i < self.datas.len()
            invariant
                i <= self.datas@.len(),
                forall|j: int| 0 <= j < i ==> self.datas@[j].0@ != query@,
            decreases self.datas@.len() - i,
        {
            if self.datas[i].0 == *query {
                return Some(i);
            }
            i = i + 1;
        }
        proof {
            lemma_to_map_dom(self.datas@, query_key(), query_value(), query@);
        }
        None
    }

    /// Adds `query`, valued zero until a round validates it (an existing
    /// query is reset to zero).
    pub fn new_query(&mut self, query: String)
        requires
            old(self).wf(),
        ensures
            final(self).wf(),
            final(self).data_map() == old(self).data_map().insert(query@, Decimal { raw: 0 }),
            *final(self) == (DataApi { datas: final(self).datas, ..*old(self) }),
    {
        let entry = (query, Decimal::zero());
        match self.find_query(&entry.0) {
            Some(i) => {
                proof {
                    lemma_to_map_update(self.datas@, query_key(), query_value(), i as int, entry);
                }
                self.datas.set(i, entry);
            },
            None => {
                proof {
                    lemma_to_map_push(self.datas@, query_key(), query_value(), entry);
                }
                self.datas.push(entry);
            },
        }
    }

    /// The validated value of `query`, which must be one of the api's
    /// queries.
    pub fn get_data(&self, query: &String) -> (d: Decimal)
        requires
            self.wf(),
            self.data_map().dom().contains(query@),
        ensures
            d == self.data_map()[query@],
    {
        match self.find_query(query) {
            Some(i) => {
                proof {
                    lemma_to_map_index(self.datas@, query_key(), query_value(), i as int);
                }
                self.datas[i].1
            },
            None => {
                assert(false);
                Decimal::zero()
            },
        }
    }

    /// Starts a round led by `leader`, which proposed the values
    /// `proposal` (one per query).
    pub fn new_round(&mut self, leader: ComponentAddress, proposal: Vec<(String, Decimal)>)
        requires
            old(self).wf(),
            distinct_keys(proposal@, query_key()),
        ensures
            final(self).wf(),
            *final(self) == (DataApi {
                leader: Some(leader),
                non_validated_datas: proposal,
                ..*old(self)
            }),
    {
        self.non_validated_datas = proposal;
        self.leader = Some(leader);
    }

    /// Ends the round: the ballots of the round's validators on the
    /// leader's proposal are tallied (see [`vote_for_api`]); accepted data
    /// replaces the validated values.  The answer is what each validator gets
    /// (see [`settlement`]).
    pub fn end_round(&mut self, ballots: &Vec<Ballot>) -> (r: Vec<(ComponentAddress, Settlement)>)
        requires
            old(self).wf(),
            distinct_validators(ballots@),
            tally_fits(ballots@),
            fits(penalty(old(self).reward_rate, old(self).punishment)),
            fits(5 * penalty(old(self).reward_rate, old(self).punishment)),
            verdict(approving_weight(ballots@), total_weight(ballots@)) == Some(false) ==> old(
                self,
            ).leader is Some,
        ensures
            final(self).wf(),
            ({
                let v = verdict(approving_weight(ballots@), total_weight(ballots@));
                &&& r@ == settlement(
                    ballots@,
                    v,
                    old(self).leader.unwrap(),
                    old(self).reward_rate,
                    old(self).punishment,
                )
                &&& if v == Some(true) {
                    &&& final(self).datas@ == old(self).non_validated_datas@
                    &&& *final(self) == (DataApi { datas: final(self).datas, ..*old(self) })
                } else {
                    *final(self) == *old(self)
                }
            }),
    {
        let v = vote_for_api(ballots);
        let rewards = settle(
            ballots,
            v,
            self.leader.unwrap_or(ComponentAddress { id: 0 }),
            self.reward_rate,
            self.punishment,
        );
        proof {
            if v != Some(false) {
                assert(rewards@ == settlement(
                    ballots@,
                    v,
                    self.leader.unwrap(),
                    self.reward_rate,
                    self.punishment,
                )) by {
                    lemma_settlement_leader_free(
                        ballots@,
                        v,
                        self.leader.unwrap_or(ComponentAddress { id: 0 }),
                        self.leader.unwrap(),
                        self.reward_rate,
                        self.punishment,
                    );
                }
            }
        }
        if v == Some(true) {
            let proposal = copy_values(&self.non_validated_datas);
            self.datas = proposal;
        }
        rewards
    }
}

/// A copy of a list of (query, value) entries.
fn copy_values(v: &Vec<(String, Decimal)>) -> (r: Vec<(String, Decimal)>)
    ensures
        r@ == v@,
{
    let mut r: Vec<(String, Decimal)> = Vec::new();
    let mut i: usize = 0;
    while i < v.len()
        invariant
            i <= v@.len(),
            r@ == v@.take(i as int),
        decreases v@.len() - i,
    {
        let (q, d) = (v[i].0.clone(), v[i].1);
        r.push((q, d));
        i = i + 1;
        assert(r@ =~= v@.take(i as int));
    }
    assert(v@.take(v@.len() as int) =~= v@);
    r
}

proof fn lemma_settlement_leader_free(
    ballots: Seq<Ballot>,
    v: Option<bool>,
    l1: ComponentAddress,
    l2: ComponentAddress,
    reward_rate: Decimal,
    punishment: Decimal,
)
    requires
        v != Some(false),
    ensures
        settlement(ballots, v, l1, reward_rate, punishment) == settlement(
            ballots,
            v,
            l2,
            reward_rate,
            punishment,
        ),
    decreases ballots.len(),
{
    if ballots.len() > 0 {
        lemma_settlement_leader_free(ballots.drop_last(), v, l1, l2, reward_rate, punishment);
    }
}

/// What settling a round with verdict `v` gives each validator (see
/// [`settlement`]).
pub fn settle(
    ballots: &Vec<Ballot>,
    v: Option<bool>,
    leader: ComponentAddress,
    reward_rate: Decimal,
    punishment: Decimal,
) -> (r: Vec<(ComponentAddress, Settlement)>)
    requires
        fits(penalty(reward_rate, punishment)),
        fits(5 * penalty(reward_rate, punishment)),
    ensures
        r@ == settlement(ballots@, v, leader, reward_rate, punishment),
{
    let mut r: Vec<(ComponentAddress, Settlement)> = Vec::new();
    if v.is_none() {
        return r;
    }
    let pen = reward_rate.mul(punishment);
    if v == Some(false) {
        proof {
            lemma_mul_whole(pen.val(), 5);
        }
        r.push((leader, Settlement::Burn(pen.mul(Decimal::from_u64(5)))));
    }
    let n = ballots.len();
    let mut i: usize = 0;
    proof {
        assert(ballots@.take(0) =~= Seq::<Ballot>::empty());
    }
    while i < n
        invariant
            n == ballots@.len(),
            i <= n,
            v is Some,
            pen.val() == penalty(reward_rate, punishment),
            r@ == settlement(ballots@.take(i as int), v, leader, reward_rate, punishment),
        decreases n - i,
    {
        let b = ballots[i];
        proof {
            assert(ballots@.take(i as int + 1).drop_last() =~= ballots@.take(i as int));
            assert(ballots@.take(i as int + 1).last() == b);
        }
        if b.active {
            if (v == Some(true)) == b.approves {
                r.push((b.validator, Settlement::Mint(reward_rate)));
            } else {
                r.push((b.validator, Settlement::Burn(pen)));
            }
        }
        i = i + 1;
    }
    proof {
        assert(ballots@.take(n as int) =~= ballots@);
    }
    r
}

/// Only the validators that took part in a round are settled: a ballot of a
/// validator that was not active, inserted anywhere among the ballots,
/// leaves the settlement of every verdict unchanged, so that such a
/// validator is neither rewarded nor punished.
pub proof fn lemma_inactive_validators_not_settled(
    ballots: Seq<Ballot>,
    i: int,
    b: Ballot,
    v: Option<bool>,
    leader: ComponentAddress,
    reward_rate: Decimal,
    punishment: Decimal,
)
    requires
        0 <= i <= ballots.len(),
        !b.active,
    ensures
        settlement(ballots.insert(i, b), v, leader, reward_rate, punishment) == settlement(
            ballots,
            v,
            leader,
            reward_rate,
            punishment,
        ),
    decreases ballots.len(),
{
    let with = ballots.insert(i, b);
    if i == ballots.len() {
        assert(with.drop_last() =~= ballots);
        assert(with.last() == b);
    } else {
        lemma_inactive_validators_not_settled(ballots.drop_last(), i, b, v, leader, reward_rate, punishment);
        assert(with.drop_last() =~= ballots.drop_last().insert(i, b));
        assert(with.last() == ballots.last());
    }
}

/// With no active validator, an accepted or undecided round settles nobody
/// and a rejected round punishes only its leader, five times the penalty.
pub proof fn lemma_no_active_validator_settled(
    ballots: Seq<Ballot>,
    v: Option<bool>,
    leader: ComponentAddress,
    reward_rate: Decimal,
    punishment: Decimal,
)
    requires
        forall|j: int| 0 <= j < ballots.len() ==> !(#[trigger] ballots[j]).active,
    ensures
        settlement(ballots, v, leader, reward_rate, punishment) == if v == Some(false) {
            seq![
                (
                    leader,
                    Settlement::Burn(Decimal { raw: (5 * penalty(reward_rate, punishment)) as i128 }),
                ),
            ]
        } else {
            Seq::<(ComponentAddress, Settlement)>::empty()
        },
    decreases ballots.len(),
{
    if ballots.len() > 0 {
        let rest = ballots.drop_last();
        assert forall|j: int| 0 <= j < rest.len() implies !(#[trigger] rest[j]).active by {
            assert(rest[j] == ballots[j]);
        }
        lemma_no_active_validator_settled(rest, v, leader, reward_rate, punishment);
        assert(!ballots[ballots.len() - 1].active);
    }
}

} // verus!
