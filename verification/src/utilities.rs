use vstd::prelude::*;

use crate::address::{ComponentAddress, ResourceAddress};
use crate::decimal::{Decimal, fits, lemma_mul_whole, whole};

verus! {

/// Why a payment or a badge was refused.
#[derive(Clone, Copy, Debug, PartialEq, Eq, Structural)]
pub enum ResourceError {
    /// The bucket holds another resource than the one expected.
    WrongResource,
    /// The bucket holds the right resource but too little of it.
    NotEnoughResource,
}

impl ResourceError {
    /// The message the component aborts with.
    pub fn message(&self) -> (s: &'static str)
        ensures
            *self == ResourceError::WrongResource ==> s@ == "Wrong resource address."@,
            *self == ResourceError::NotEnoughResource ==> s@ == "Not enough resource."@,
    {
        match self {
            ResourceError::WrongResource => "Wrong resource address.",
            ResourceError::NotEnoughResource => "Not enough resource.",
        }
    }
}

/// The error [`check_resource`] gives on a refused bucket.
pub open spec fn check_resource_result(
    resource1: ResourceAddress,
    resource2: ResourceAddress,
    amount: Decimal,
    require: Decimal,
) -> ResourceError {
    if resource1 != resource2 {
        ResourceError::WrongResource
    } else {
        ResourceError::NotEnoughResource
    }
}

/// Checks that a bucket of `resource1` holding `amount` may stand for a
/// required `require` of `resource2`: the resources must agree (checked
/// first) and the amount must reach the requirement.
pub fn check_resource(
    resource1: ResourceAddress,
    resource2: ResourceAddress,
    amount: Decimal,
    require: Decimal,
) -> (r: Result<(), ResourceError>)
    ensures
        r == Err::<(), ResourceError>(ResourceError::WrongResource) <==> resource1 != resource2,
        r == Err::<(), ResourceError>(ResourceError::NotEnoughResource) <==> (resource1 == resource2
            && amount.val() < require.val()),
        r is Ok <==> (resource1 == resource2 && require.val() <= amount.val()),
        r matches Err(e) ==> e == check_resource_result(resource1, resource2, amount, require),
{
    if resource1 != resource2 {
        Err(ResourceError::WrongResource)
    } else if amount.lt(require) {
        Err(ResourceError::NotEnoughResource)
    } else {
        Ok(())
    }
}

/// Holds when a bucket of `resource1` holding `amount` may stand for a
/// required `require` of `resource2`; the component aborts otherwise (see
/// [`check_resource`] for the test and its messages).
pub fn assert_resource(
    resource1: ResourceAddress,
    resource2: ResourceAddress,
    amount: Decimal,
    require: Decimal,
)
    requires
        resource1 == resource2,
        require.val() <= amount.val(),
{
}

/// Whether `fee` is a percentage between 0 and 100, both included.
pub open spec fn valid_fee(fee: Decimal) -> bool {
    0 <= fee.val() <= whole(100)
}

/// Tests that `fee` is a percentage in the range 0 to 100.
pub fn check_fee(fee: Decimal) -> (ok: bool)
    ensures
        ok == valid_fee(fee),
{
    let zero = Decimal::zero();
    let hundred = Decimal::from_u64(100);
    zero.le(fee) && fee.le(hundred)
}

/// The message the component aborts with on a fee out of range.
pub fn fee_error_message() -> (s: &'static str)
    ensures
        s@ == "Fee must be in the range of 0 to 100"@,
{
    "Fee must be in the range of 0 to 100"
}

/// Holds when `fee` is a percentage in the range 0 to 100; the component
/// aborts otherwise (see [`check_fee`]).
pub fn assert_fee(fee: Decimal)
    requires
        valid_fee(fee),
{
}

/// What one validator said in a round: its stake weight, whether it took
/// part in the round at all, and whether it approved the proposal.
#[derive(Clone, Copy, Debug, PartialEq, Eq, Structural)]
pub struct Ballot {
    pub validator: ComponentAddress,
    pub weight: Decimal,
    pub active: bool,
    pub approves: bool,
}

/// The weight a ballot adds to the total of the round.
pub open spec fn counted_weight(b: Ballot) -> int {
    if b.active {
        b.weight.val()
    } else {
        0
    }
}

/// The weight a ballot adds to the approving side.
pub open spec fn approving_weight_of(b: Ballot) -> int {
    if b.active && b.approves {
        b.weight.val()
    } else {
        0
    }
}

/// Sum of the weights of the active ballots.
pub open spec fn total_weight(s: Seq<Ballot>) -> int
    decreases s.len(),
{
    if s.len() == 0 {
        0
    } else {
        total_weight(s.drop_last()) + counted_weight(s.last())
    }
}

/// Sum of the weights of the active ballots that approve.
pub open spec fn approving_weight(s: Seq<Ballot>) -> int
    decreases s.len(),
{
    if s.len() == 0 {
        0
    } else {
        approving_weight(s.drop_last()) + approving_weight_of(s.last())
    }
}

/// The verdict on approving weight `yes` out of a total weight `total`:
/// accepted with at least two thirds of a positive total, otherwise
/// undecided with at least one third, rejected below one third.  With no
/// weight at all nothing is accepted: the verdict is undecided.
pub open spec fn verdict(yes: int, total: int) -> Option<bool> {
    if total > 0 && 3 * yes >= 2 * total {
        Some(true)
    } else if 3 * yes >= total {
        None
    } else {
        Some(false)
    }
}

/// No validator has two ballots.
pub open spec fn distinct_validators(s: Seq<Ballot>) -> bool {
    forall|i: int, j: int| 0 <= i < j < s.len() ==> s[i].validator != s[j].validator
}

/// The ballots with every vote turned around.
pub open spec fn negated(s: Seq<Ballot>) -> Seq<Ballot> {
    Seq::new(s.len(), |i: int| Ballot { approves: !s[i].approves, ..s[i] })
}

/// The order of the verdicts: rejection, then undecided, then acceptance.
pub open spec fn verdict_rank(v: Option<bool>) -> int {
    match v {
        Some(false) => 0,
        None => 1,
        Some(true) => 2,
    }
}

/// The running sums over `s`, taken in order, stay representable, and so do
/// three times the approving weight and twice the total weight.
pub open spec fn tally_fits(s: Seq<Ballot>) -> bool {
    &&& forall|k: int|
        0 <= k <= s.len() ==> #[trigger] fits(total_weight(s.take(k))) && fits(
            approving_weight(s.take(k)),
        )
    &&& fits(3 * approving_weight(s))
    &&& fits(2 * total_weight(s))
}

/// Tallies the ballots of a round and decides: `Some(true)` when there is
/// active weight and the approving weight is at least two thirds of it,
/// otherwise `None` when it is at least one third, `Some(false)` below.
///
/// Each ballot carries what the validator's component reports for the api:
/// whether it is active this round and how it voted.
pub fn vote_for_api(ballots: &Vec<Ballot>) -> (r: Option<bool>)
    requires
        distinct_validators(ballots@),
        tally_fits(ballots@),
    ensures
        r == verdict(approving_weight(ballots@), total_weight(ballots@)),
{
    let mut total = Decimal::zero();
    let mut result = Decimal::zero();
    let n = ballots.len();
    let mut i: usize = 0;
    assert(ballots@.take(0) =~= Seq::<Ballot>::empty());
    while i < n
        invariant
            n == ballots@.len(),
            i <= n,
            tally_fits(ballots@),
            total.val() == total_weight(ballots@.take(i as int)),
            result.val() == approving_weight(ballots@.take(i as int)),
        decreases n - i,
    {
        let b = ballots[i];
        let ghost s = ballots@.take(i as int + 1);
        assert(s.drop_last() =~= ballots@.take(i as int));
        assert(s.last() == b);
        assert(fits(total_weight(s)) && fits(approving_weight(s)));
        if b.active {
            if b.approves {
                result = result.add(b.weight);
            }
            total = total.add(b.weight);
        }
        i = i + 1;
    }
    assert(ballots@.take(n as int) =~= ballots@);
    let three = Decimal::from_u64(3);
    let two = Decimal::from_u64(2);
    proof {
        lemma_mul_whole(result.val(), 3);
        lemma_mul_whole(total.val(), 2);
    }
    let yes3 = result.mul(three);
    let all2 = total.mul(two);
    if Decimal::zero().lt(total) && all2.le(yes3) {
        Some(true)
    } else if total.le(yes3) {
        None
    } else {
        Some(false)
    }
}

/// Whether the tally of `ballots` stays representable (see
/// [`tally_fits`]), as [`vote_for_api`] asks of its callers.
pub fn tally_fits_check(ballots: &Vec<Ballot>) -> (b: bool)
    ensures
        b == tally_fits(ballots@),
{
    let mut total = Decimal::zero();
    let mut yes = Decimal::zero();
    let n = ballots.len();
    let mut i: usize = 0;
    assert(ballots@.take(0) =~= Seq::<Ballot>::empty());
    while i < n
        invariant
            n == ballots@.len(),
            i <= n,
            total.val() == total_weight(ballots@.take(i as int)),
            yes.val() == approving_weight(ballots@.take(i as int)),
            forall|k: int|
                0 <= k <= i ==> #[trigger] fits(total_weight(ballots@.take(k))) && fits(
                    approving_weight(ballots@.take(k)),
                ),
        decreases n - i,
    {
        let b = ballots[i];
        let ghost s = ballots@.take(i as int + 1);
        assert(s.drop_last() =~= ballots@.take(i as int));
        assert(s.last() == b);
        if b.active && b.approves {
            match yes.checked_add(b.weight) {
                Some(y) => {
                    yes = y;
                },
                None => {
                    assert(!fits(approving_weight(s)));
                    proof {
                        lemma_tally_overflow(ballots@, i + 1);
                    }
                    return false;
                },
            }
        }
        if b.active {
            match total.checked_add(b.weight) {
                Some(t) => {
                    total = t;
                },
                None => {
                    assert(!fits(total_weight(s)));
                    proof {
                        lemma_tally_overflow(ballots@, i + 1);
                    }
                    return false;
                },
            }
        }
        assert(total_weight(s) == total.val());
        assert(approving_weight(s) == yes.val());
        assert(fits(total_weight(s)) && fits(approving_weight(s)));
        i = i + 1;
        assert forall|k: int|
            0 <= k <= i implies #[trigger] fits(total_weight(ballots@.take(k))) && fits(
                approving_weight(ballots@.take(k)),
            ) by {
            if k == i {
                assert(ballots@.take(k) == s);
            }
        }
    }
    assert(ballots@.take(n as int) =~= ballots@);
    let yes3 = yes.raw.checked_mul(3);
    let all2 = total.raw.checked_mul(2);
    yes3.is_some() && all2.is_some()
}

/// A prefix whose tally does not fit rules out [`tally_fits`].
proof fn lemma_tally_overflow(s: Seq<Ballot>, k: int)
    requires
        0 <= k <= s.len(),
        !(fits(total_weight(s.take(k))) && fits(approving_weight(s.take(k)))),
    ensures
        !tally_fits(s),
{
    if tally_fits(s) {
        assert(fits(total_weight(s.take(k))));
    }
}

proof fn lemma_tally_remove(s: Seq<Ballot>, i: int)
    requires
        0 <= i < s.len(),
    ensures
        total_weight(s) == total_weight(s.remove(i)) + counted_weight(s[i]),
        approving_weight(s) == approving_weight(s.remove(i)) + approving_weight_of(s[i]),
    decreases s.len(),
{
    if i == s.len() - 1 {
        assert(s.remove(i) =~= s.drop_last());
    } else {
        let t = s.drop_last();
        lemma_tally_remove(t, i);
        assert(s.remove(i).drop_last() =~= t.remove(i));
        assert(s.remove(i).last() == s.last());
    }
}

/// The tally does not depend on the order in which the ballots come: two
/// lists holding the same ballots, each as often, have the same total and
/// approving weights and therefore the same verdict.
pub proof fn lemma_verdict_independent_of_order(s1: Seq<Ballot>, s2: Seq<Ballot>)
    requires
        s1.to_multiset() == s2.to_multiset(),
    ensures
        total_weight(s1) == total_weight(s2),
        approving_weight(s1) == approving_weight(s2),
        verdict(approving_weight(s1), total_weight(s1)) == verdict(
            approving_weight(s2),
            total_weight(s2),
        ),
    decreases s1.len(),
{
    broadcast use vstd::seq_lib::group_to_multiset_ensures;
    broadcast use vstd::multiset::group_multiset_axioms;

    if s1.len() == 0 {
        assert(s1.to_multiset().len() == 0);
        assert(s2.to_multiset().len() == s2.len());
        assert(s2.len() == 0);
    } else {
        let x = s1.last();
        let rest = s1.drop_last();
        assert(s1 =~= rest.push(x));
        assert(s1.to_multiset() =~= rest.to_multiset().insert(x));
        assert(s2.to_multiset().count(x) > 0);
        assert(s2.contains(x));
        let i = choose|i: int| 0 <= i < s2.len() && s2[i] == x;
        assert(s2.remove(i).to_multiset() =~= s2.to_multiset().remove(x));
        assert(rest.to_multiset().insert(x).remove(x) =~= rest.to_multiset());
        lemma_verdict_independent_of_order(rest, s2.remove(i));
        lemma_tally_remove(s2, i);
    }
}

/// The verdict's thresholds: accepting takes some active weight and at
/// least two thirds of it, so a side holding more than a third of it can
/// stop any acceptance, and with no active weight nothing is accepted;
/// rejecting takes less than a third approving, so a side holding at least
/// a third approving can stop any rejection.
pub proof fn lemma_verdict_thresholds(yes: int, no: int)
    ensures
        verdict(yes, yes + no) == Some(true) <==> yes + no > 0 && 3 * yes >= 2 * (yes + no),
        3 * no > yes + no ==> verdict(yes, yes + no) != Some(true),
        yes + no == 0 ==> verdict(yes, yes + no) != Some(true),
        3 * yes >= yes + no ==> verdict(yes, yes + no) != Some(false),
        verdict(yes, yes + no) is None <==> (!(yes + no > 0 && 3 * yes >= 2 * (yes + no)) && 3
            * yes >= yes + no),
{
}

/// A ballot of a validator that is not active changes nothing: inserted
/// anywhere among the ballots, it leaves the total and approving weights,
/// and so the verdict, as they were.
pub proof fn lemma_inactive_ballot_changes_nothing(s: Seq<Ballot>, i: int, b: Ballot)
    requires
        0 <= i <= s.len(),
        !b.active,
    ensures
        total_weight(s.insert(i, b)) == total_weight(s),
        approving_weight(s.insert(i, b)) == approving_weight(s),
        verdict(approving_weight(s.insert(i, b)), total_weight(s.insert(i, b))) == verdict(
            approving_weight(s),
            total_weight(s),
        ),
{
    lemma_tally_remove(s.insert(i, b), i);
    assert(s.insert(i, b).remove(i) =~= s);
}

/// Turning the no of one active validator of non-negative weight into a yes
/// never lowers the verdict.
pub proof fn lemma_yes_never_lowers_verdict(s: Seq<Ballot>, i: int)
    requires
        0 <= i < s.len(),
        s[i].active,
        !s[i].approves,
        s[i].weight.val() >= 0,
    ensures
        ({
            let s2 = s.update(i, Ballot { approves: true, ..s[i] });
            verdict_rank(verdict(approving_weight(s2), total_weight(s2))) >= verdict_rank(
                verdict(approving_weight(s), total_weight(s)),
            )
        }),
{
    let s2 = s.update(i, Ballot { approves: true, ..s[i] });
    lemma_tally_remove(s, i);
    lemma_tally_remove(s2, i);
    assert(s2.remove(i) =~= s.remove(i));
}

proof fn lemma_negated_tally(s: Seq<Ballot>)
    ensures
        total_weight(negated(s)) == total_weight(s),
        approving_weight(negated(s)) == total_weight(s) - approving_weight(s),
    decreases s.len(),
{
    if s.len() > 0 {
        lemma_negated_tally(s.drop_last());
        assert(negated(s).drop_last() =~= negated(s.drop_last()));
    }
}

/// Turning every vote around swaps acceptance and rejection and keeps an
/// undecided verdict, when there is active weight and the approving weight
/// is on neither threshold.
pub proof fn lemma_negation_swaps_verdict(s: Seq<Ballot>)
    requires
        total_weight(s) > 0,
        3 * approving_weight(s) != 2 * total_weight(s),
        3 * approving_weight(s) != total_weight(s),
    ensures
        verdict(approving_weight(negated(s)), total_weight(negated(s))) == match verdict(
            approving_weight(s),
            total_weight(s),
        ) {
            Some(b) => Some(!b),
            None => None,
        },
{
    lemma_negated_tally(s);
}

} // verus!
