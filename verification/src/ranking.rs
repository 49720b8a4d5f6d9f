use vstd::prelude::*;

use crate::address::ComponentAddress;
use crate::decimal::Decimal;
use crate::keyed::distinct_keys;

verus! {

/// The validator of a `(validator, weight)` entry.
pub open spec fn validator_key() -> spec_fn((ComponentAddress, Decimal)) -> ComponentAddress {
    |e: (ComponentAddress, Decimal)| e.0
}

/// Whether a `(validator, weight)` entry has weight `w` (raw value).
pub open spec fn has_weight(w: int) -> spec_fn((ComponentAddress, Decimal)) -> bool {
    |e: (ComponentAddress, Decimal)| e.1.val() == w
}

/// The entries are ordered by weight, heaviest first.
pub open spec fn heaviest_first(s: Seq<(ComponentAddress, Decimal)>) -> bool {
    forall|i: int, j: int| 0 <= i < j < s.len() ==> s[i].1.val() >= s[j].1.val()
}

/// `out` is `input` ordered heaviest first, where entries of equal weight
/// come in the reverse of their order in `input` (what an ascending stable
/// sort followed by a reversal gives).  This determines `out` entirely.
pub open spec fn ranked(
    input: Seq<(ComponentAddress, Decimal)>,
    out: Seq<(ComponentAddress, Decimal)>,
) -> bool {
    &&& heaviest_first(out)
    &&& forall|w: int| #[trigger] out.filter(has_weight(w)) == input.filter(has_weight(w)).reverse()
}

proof fn lemma_filter_none<A>(s: Seq<A>, pred: spec_fn(A) -> bool)
    requires
        forall|i: int| 0 <= i < s.len() ==> !pred(s[i]),
    ensures
        s.filter(pred) == Seq::<A>::empty(),
    decreases s.len(),
{
    reveal(Seq::filter);
    if s.len() > 0 {
        lemma_filter_none(s.drop_last(), pred);
    }
    assert(s.filter(pred) =~= Seq::<A>::empty());
}

proof fn lemma_reverse_push<A>(s: Seq<A>, x: A)
    ensures
        s.push(x).reverse() == seq![x] + s.reverse(),
{
    if s.len() == 0 {
        assert(s.push(x).reverse() =~= seq![x] + s.reverse());
    } else {
        assert(s.push(x).reverse() =~= seq![x] + s.reverse());
    }
}

proof fn lemma_insert_ranked(
    prefix: Seq<(ComponentAddress, Decimal)>,
    out: Seq<(ComponentAddress, Decimal)>,
    p: int,
    x: (ComponentAddress, Decimal),
)
    requires
        ranked(prefix, out),
        0 <= p <= out.len(),
        forall|i: int| 0 <= i < p ==> out[i].1.val() > x.1.val(),
        p < out.len() ==> out[p].1.val() <= x.1.val(),
    ensures
        ranked(prefix.push(x), out.insert(p, x)),
{
    broadcast use Seq::filter_distributes_over_add;
    broadcast use Seq::lemma_filter_push;

    let out2 = out.insert(p, x);
    let pre = out.take(p);
    let post = out.skip(p);
    assert(out2 =~= pre + seq![x] + post);
    assert(out =~= pre + post);
    assert forall|i: int, j: int| 0 <= i < j < out2.len() implies out2[i].1.val() >= out2[j].1.val() by {
        if j < p {
        } else if j == p {
        } else if i < p {
            assert(out2[j] == out[j - 1]);
        } else if i == p {
            assert(out2[j] == out[j - 1]);
            assert(out[p].1.val() >= out[j - 1].1.val());
        } else {
            assert(out2[i] == out[i - 1]);
            assert(out2[j] == out[j - 1]);
        }
    }
    assert forall|w: int| #[trigger] out2.filter(has_weight(w)) == prefix.push(x).filter(
        has_weight(w),
    ).reverse() by {
        let f = has_weight(w);
        assert(out2.filter(f) == (pre + seq![x]).filter(f) + post.filter(f));
        assert((pre + seq![x]).filter(f) == pre.filter(f) + seq![x].filter(f));
        assert(out.filter(f) == pre.filter(f) + post.filter(f));
        assert(out.filter(f) == prefix.filter(f).reverse());
        if w == x.1.val() {
            lemma_filter_none(pre, f);
            assert(seq![x].filter(f) =~= Seq::<(ComponentAddress, Decimal)>::empty().push(x)) by {
                assert(seq![x] =~= Seq::<(ComponentAddress, Decimal)>::empty().push(x));
                lemma_filter_none(Seq::<(ComponentAddress, Decimal)>::empty(), f);
            }
            assert(prefix.push(x).filter(f) == prefix.filter(f).push(x));
            lemma_reverse_push(prefix.filter(f), x);
            assert(out2.filter(f) =~= seq![x] + out.filter(f));
        } else {
            assert(seq![x].filter(f) =~= Seq::<(ComponentAddress, Decimal)>::empty()) by {
                assert(seq![x] =~= Seq::<(ComponentAddress, Decimal)>::empty().push(x));
                lemma_filter_none(Seq::<(ComponentAddress, Decimal)>::empty(), f);
            }
            assert(prefix.push(x).filter(f) == prefix.filter(f));
            assert(out2.filter(f) =~= out.filter(f));
        }
    }
}

/// The validators ordered heaviest first; validators of equal weight come in
/// the reverse of their order in `validators` (an ascending stable sort by
/// weight, then reversed).
pub fn rank_by_weight(validators: &Vec<(ComponentAddress, Decimal)>) -> (out: Vec<
    (ComponentAddress, Decimal),
>)
    ensures
        ranked(validators@, out@),
        out@.len() == validators@.len(),
        distinct_keys(validators@, validator_key()) ==> distinct_keys(out@, validator_key()),
{
    let mut out: Vec<(ComponentAddress, Decimal)> = Vec::new();
    let n = validators.len();
    let mut k: usize = 0;
    proof {
        assert(validators@.take(0) =~= Seq::<(ComponentAddress, Decimal)>::empty());
        assert forall|w: int| #[trigger] out@.filter(has_weight(w)) == validators@.take(0).filter(
            has_weight(w),
        ).reverse() by {
            lemma_filter_none(out@, has_weight(w));
            lemma_filter_none(validators@.take(0), has_weight(w));
            assert(Seq::<(ComponentAddress, Decimal)>::empty().reverse() =~= Seq::<
                (ComponentAddress, Decimal),
            >::empty());
        }
    }
    while k < n
        invariant
            n == validators@.len(),
            k <= n,
            out@.len() == k,
            ranked(validators@.take(k as int), out@),
            forall|i: int| 0 <= i < out@.len() ==> validators@.take(k as int).contains(#[trigger] out@[i]),
            distinct_keys(validators@, validator_key()) ==> distinct_keys(out@, validator_key()),
        decreases n - k,
    {
        let x = validators[k];
        let mut p: usize = 0;
        while p < out.len() && out[p].1.raw > x.1.raw
            invariant
                p <= out@.len(),
                forall|i: int| 0 <= i < p ==> out@[i].1.val() > x.1.val(),
            decreases out@.len() - p,
        {
            p = p + 1;
        }
        let ghost before = out@;
        proof {
            lemma_insert_ranked(validators@.take(k as int), out@, p as int, x);
            assert(validators@.take(k as int).push(x) =~= validators@.take(k as int + 1));
        }
        out.insert(p, x);
        proof {
            let pre = validators@.take(k as int);
            let pre2 = validators@.take(k as int + 1);
            assert forall|i: int| 0 <= i < out@.len() implies pre2.contains(#[trigger] out@[i]) by {
                if i == p {
                    assert(pre2[k as int] == x);
                } else {
                    let i0 = if i < p {
                        i
                    } else {
                        i - 1
                    };
                    assert(out@[i] == before[i0]);
                    assert(pre.contains(before[i0]));
                    let j = choose|j: int| 0 <= j < pre.len() && pre[j] == before[i0];
                    assert(pre2[j] == pre[j]);
                }
            }
            if distinct_keys(validators@, validator_key()) {
                assert forall|a: int, b: int| 0 <= a < b < out@.len() implies validator_key()(out@[a])
                    != validator_key()(out@[b]) by {
                    let a0 = if a < p {
                        a
                    } else {
                        a - 1
                    };
                    let b0 = if b < p {
                        b
                    } else {
                        b - 1
                    };
                    if a == p || b == p {
                        let other = if a == p {
                            out@[b]
                        } else {
                            out@[a]
                        };
                        let o0 = if a == p {
                            b0
                        } else {
                            a0
                        };
                        assert(other == before[o0]);
                        assert(pre.contains(before[o0]));
                        let j = choose|j: int| 0 <= j < pre.len() && pre[j] == before[o0];
                        assert(validators@[j] == pre[j]);
                        assert(validator_key()(validators@[j]) != validator_key()(validators@[k as int]));
                    } else {
                        assert(out@[a] == before[a0]);
                        assert(out@[b] == before[b0]);
                    }
                }
            }
        }
        k = k + 1;
    }
    proof {
        assert(validators@.take(n as int) =~= validators@);
    }
    out
}

proof fn lemma_filter_drop_last(
    s: Seq<(ComponentAddress, Decimal)>,
    f: spec_fn((ComponentAddress, Decimal)) -> bool,
)
    requires
        s.len() > 0,
    ensures
        f(s.last()) ==> s.filter(f) == s.drop_last().filter(f).push(s.last()),
        !f(s.last()) ==> s.filter(f) == s.drop_last().filter(f),
{
    broadcast use Seq::lemma_filter_push;

    assert(s =~= s.drop_last().push(s.last()));
}

proof fn lemma_same_filters_equal(a: Seq<(ComponentAddress, Decimal)>, b: Seq<(ComponentAddress, Decimal)>)
    requires
        heaviest_first(a),
        heaviest_first(b),
        forall|w: int| #[trigger] a.filter(has_weight(w)) == b.filter(has_weight(w)),
    ensures
        a == b,
    decreases a.len() + b.len(),
{
    broadcast use vstd::seq_lib::group_filter_ensures;

    if a.len() == 0 || b.len() == 0 {
        if a.len() > 0 {
            assert(a.filter(has_weight(a[0].1.val())).contains(a[0]));
            assert(b.filter(has_weight(a[0].1.val())).len() == 0) by {
                lemma_filter_none(b, has_weight(a[0].1.val()));
            }
        }
        if b.len() > 0 {
            assert(b.filter(has_weight(b[0].1.val())).contains(b[0]));
            assert(a.filter(has_weight(b[0].1.val())).len() == 0) by {
                lemma_filter_none(a, has_weight(b[0].1.val()));
            }
        }
        assert(a =~= b);
    } else {
        let ma = a.last().1.val();
        let mb = b.last().1.val();
        // the lightest weight of each occurs in the other
        assert(a.filter(has_weight(ma)).contains(a[a.len() - 1]));
        assert(b.filter(has_weight(mb)).contains(b[b.len() - 1]));
        let ya = choose|k: int| 0 <= k < b.filter(has_weight(ma)).len() && b.filter(has_weight(ma))[k] == a.last();
        let yb = choose|k: int| 0 <= k < a.filter(has_weight(mb)).len() && a.filter(has_weight(mb))[k] == b.last();
        assert(has_weight(ma)(b.filter(has_weight(ma))[ya]));
        assert(has_weight(mb)(a.filter(has_weight(mb))[yb]));
        // elements of a filter come from the sequence
        lemma_filter_elements(b, has_weight(ma), ya);
        lemma_filter_elements(a, has_weight(mb), yb);
        assert(ma == mb);
        let f = has_weight(ma);
        lemma_filter_drop_last(a, f);
        lemma_filter_drop_last(b, f);
        assert(a.last() == a.filter(f).last());
        assert(b.last() == b.filter(f).last());
        assert(a.last() == b.last());
        let a2 = a.drop_last();
        let b2 = b.drop_last();
        assert forall|w: int| #[trigger] a2.filter(has_weight(w)) == b2.filter(has_weight(w)) by {
            lemma_filter_drop_last(a, has_weight(w));
            lemma_filter_drop_last(b, has_weight(w));
            assert(a.filter(has_weight(w)) == b.filter(has_weight(w)));
            if has_weight(w)(a.last()) {
                assert(a2.filter(has_weight(w)) =~= a.filter(has_weight(w)).drop_last());
                assert(b2.filter(has_weight(w)) =~= b.filter(has_weight(w)).drop_last());
            }
        }
        lemma_same_filters_equal(a2, b2);
        assert(a =~= a2.push(a.last()));
        assert(b =~= b2.push(b.last()));
    }
}

proof fn lemma_filter_elements(
    s: Seq<(ComponentAddress, Decimal)>,
    f: spec_fn((ComponentAddress, Decimal)) -> bool,
    k: int,
)
    requires
        0 <= k < s.filter(f).len(),
    ensures
        exists|i: int| 0 <= i < s.len() && s[i] == s.filter(f)[k],
    decreases s.len(),
{
    broadcast use vstd::seq_lib::group_filter_ensures;

    lemma_filter_drop_last(s, f);
    let t = s.drop_last();
    if f(s.last()) && k == s.filter(f).len() - 1 {
        assert(s[s.len() - 1] == s.filter(f)[k]);
    } else {
        assert(s.filter(f)[k] == t.filter(f)[k]);
        lemma_filter_elements(t, f, k);
        let i = choose|i: int| 0 <= i < t.len() && t[i] == t.filter(f)[k];
        assert(s[i] == t[i]);
    }
}

/// Ranking is deterministic: an input has only one ranked order.
pub proof fn lemma_ranked_unique(
    input: Seq<(ComponentAddress, Decimal)>,
    out1: Seq<(ComponentAddress, Decimal)>,
    out2: Seq<(ComponentAddress, Decimal)>,
)
    requires
        ranked(input, out1),
        ranked(input, out2),
    ensures
        out1 == out2,
{
    assert forall|w: int| #[trigger] out1.filter(has_weight(w)) == out2.filter(has_weight(w)) by {
        assert(out1.filter(has_weight(w)) == input.filter(has_weight(w)).reverse());
        assert(out2.filter(has_weight(w)) == input.filter(has_weight(w)).reverse());
    }
    lemma_same_filters_equal(out1, out2);
}

} // verus!
