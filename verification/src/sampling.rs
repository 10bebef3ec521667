//! Weighted selection among candidate status codes: a uniform draw in
//! `[0, total_weight)` falls into exactly one candidate's interval of
//! cumulative weights, so each candidate is selected for exactly
//! `weight` of the `total_weight` possible draws.

use vstd::prelude::*;

use crate::specifier::Candidate;

verus! {

/// Every weight of the list is positive, the precondition of
/// selection.
pub open spec fn positive_weights(cands: Seq<Candidate>) -> bool {
    forall|i: int| 0 <= i < cands.len() ==> (#[trigger] cands[i]).weight > 0
}

/// The sum of all weights of the list.
pub open spec fn total_weight(cands: Seq<Candidate>) -> int
    decreases cands.len(),
{
    if cands.len() == 0 {
        0
    } else {
        cands[0].weight + total_weight(cands.drop_first())
    }
}

/// The sum of the weights of the first `i` candidates.
pub open spec fn prefix_weight(cands: Seq<Candidate>, i: int) -> int {
    total_weight(cands.take(i))
}

/// The index of the candidate whose cumulative-weight interval holds
/// `draw`: the first candidate whose interval end exceeds the draw.
pub open spec fn selected_index(cands: Seq<Candidate>, draw: int) -> int
    decreases cands.len(),
{
    if cands.len() <= 1 {
        0
    } else if draw < cands[0].weight {
        0
    } else {
        1 + selected_index(cands.drop_first(), draw - cands[0].weight)
    }
}

/// The total weight splits at any point into the prefix sum and the
/// sum of the rest.
pub proof fn lemma_total_weight_split(cands: Seq<Candidate>, i: int)
    requires
        0 <= i <= cands.len(),
    ensures
        total_weight(cands) == prefix_weight(cands, i) + total_weight(cands.skip(i)),
    decreases i,
{
    if i == 0 {
        assert(cands.take(0) =~= Seq::<Candidate>::empty());
        assert(cands.skip(0) =~= cands);
    } else {
        lemma_total_weight_split(cands.drop_first(), i - 1);
        assert(cands.take(i).drop_first() =~= cands.drop_first().take(i - 1));
        assert(cands.skip(i) =~= cands.drop_first().skip(i - 1));
        assert(cands.take(i)[0] == cands[0]);
        assert(total_weight(cands.take(i)) == cands[0].weight + total_weight(
            cands.drop_first().take(i - 1),
        ));
    }
}

/// A well-formed list's total weight is at least its length, every
/// weight being positive.
pub proof fn lemma_total_weight_pos(cands: Seq<Candidate>)
    requires
        positive_weights(cands),
    ensures
        total_weight(cands) >= cands.len(),
    decreases cands.len(),
{
    if cands.len() > 0 {
        assert(positive_weights(cands.drop_first()));
        lemma_total_weight_pos(cands.drop_first());
        assert(cands[0].weight > 0);
    }
}

/// Every draw below the total weight lands in the interval of the
/// candidate it selects.
pub proof fn lemma_selected_index_in_interval(cands: Seq<Candidate>, draw: int)
    requires
        positive_weights(cands),
        cands.len() > 0,
        0 <= draw < total_weight(cands),
    ensures
        0 <= selected_index(cands, draw) < cands.len(),
        prefix_weight(cands, selected_index(cands, draw)) <= draw,
        draw < prefix_weight(cands, selected_index(cands, draw)) + cands[selected_index(
            cands,
            draw,
        )].weight,
    decreases cands.len(),
{
    let si = selected_index(cands, draw);
    assert(prefix_weight(cands, 0) == 0) by {
        assert(cands.take(0) =~= Seq::<Candidate>::empty());
    }
    if cands.len() == 1 {
        assert(cands.drop_first() =~= Seq::<Candidate>::empty());
        assert(total_weight(Seq::<Candidate>::empty()) == 0);
        assert(total_weight(cands) == cands[0].weight);
    } else if draw < cands[0].weight {
    } else {
        let rest = cands.drop_first();
        assert(positive_weights(rest));
        lemma_selected_index_in_interval(rest, draw - cands[0].weight);
        let sr = selected_index(rest, draw - cands[0].weight);
        assert(si == 1 + sr);
        assert(cands.take(si).drop_first() =~= rest.take(sr));
        assert(cands.take(si)[0] == cands[0]);
        assert(prefix_weight(cands, si) == cands[0].weight + prefix_weight(rest, sr));
        assert(cands[si] == rest[sr]);
    }
}

/// Draws inside a candidate's cumulative-weight interval select
/// exactly that candidate.
pub proof fn lemma_interval_selects(cands: Seq<Candidate>, draw: int, i: int)
    requires
        positive_weights(cands),
        0 <= i < cands.len(),
        prefix_weight(cands, i) <= draw,
        draw < prefix_weight(cands, i) + cands[i].weight,
    ensures
        draw < total_weight(cands),
        selected_index(cands, draw) == i,
    decreases cands.len(),
{
    lemma_total_weight_split(cands, i);
    assert(cands.skip(i)[0] == cands[i]);
    assert(total_weight(cands.skip(i)) == cands[i].weight + total_weight(
        cands.skip(i).drop_first(),
    ));
    assert(positive_weights(cands.skip(i))) by {
        assert(forall|j: int|
            0 <= j < cands.skip(i).len() ==> #[trigger] cands.skip(i)[j] == cands[i + j]);
    }
    assert(positive_weights(cands.skip(i).drop_first())) by {
        assert(forall|j: int|
            0 <= j < cands.skip(i).drop_first().len() ==> #[trigger] cands.skip(
                i,
            ).drop_first()[j] == cands.skip(i)[j + 1]);
    }
    lemma_total_weight_pos(cands.skip(i).drop_first());
    assert(draw < total_weight(cands));
    assert(prefix_weight(cands, 0) == 0) by {
        assert(cands.take(0) =~= Seq::<Candidate>::empty());
    }
    if i == 0 {
        if cands.len() > 1 {
            assert(draw < cands[0].weight);
        }
    } else {
        let rest = cands.drop_first();
        assert(positive_weights(rest));
        assert(cands.take(i).drop_first() =~= rest.take(i - 1));
        assert(cands.take(i)[0] == cands[0]);
        assert(prefix_weight(cands, i) == cands[0].weight + prefix_weight(rest, i - 1));
        assert(cands[i] == rest[i - 1]);
        lemma_interval_selects(rest, draw - cands[0].weight, i - 1);
        assert(prefix_weight(cands, 1) == cands[0].weight) by {
            assert(cands.take(1).drop_first() =~= Seq::<Candidate>::empty());
            assert(cands.take(1)[0] == cands[0]);
            assert(total_weight(Seq::<Candidate>::empty()) == 0);
            assert(cands.take(1).len() == 1);
            assert(total_weight(cands.take(1)) == cands.take(1)[0].weight + total_weight(
                cands.take(1).drop_first(),
            ));
        }
        assert(cands[0].weight > 0);
        assert(draw >= cands[0].weight);
        assert(cands.len() > 1);
    }
}

/// The selection law: a draw selects candidate `i` exactly when it
/// falls in that candidate's half-open cumulative-weight interval, an
/// interval of `weight_i` of the `total_weight` equally many possible
/// draws. A candidate with a larger weight is therefore selected by
/// proportionally more draws.
pub proof fn lemma_selection_proportional(cands: Seq<Candidate>, draw: int, i: int)
    requires
        positive_weights(cands),
        cands.len() > 0,
        0 <= i < cands.len(),
        0 <= draw < total_weight(cands),
    ensures
        selected_index(cands, draw) == i <==> prefix_weight(cands, i) <= draw < prefix_weight(
            cands,
            i,
        ) + cands[i].weight,
{
    if prefix_weight(cands, i) <= draw < prefix_weight(cands, i) + cands[i].weight {
        lemma_interval_selects(cands, draw, i);
    } else {
        lemma_selected_index_in_interval(cands, draw);
        let si = selected_index(cands, draw);
        if si == i {
            assert(false);
        }
    }
}

/// A single-candidate list is selected at its only index, whatever the
/// draw.
pub proof fn lemma_single_candidate_selected(cands: Seq<Candidate>, draw: int)
    requires
        positive_weights(cands),
        cands.len() == 1,
        0 <= draw < total_weight(cands),
    ensures
        selected_index(cands, draw) == 0,
{
}

/// The total weight of the candidates, or nothing when it exceeds the
/// largest machine word.
pub fn checked_total(cands: &Vec<Candidate>) -> (r: Option<u64>)
    requires
        positive_weights(cands@),
    ensures
        match r {
            Some(t) => t as int == total_weight(cands@),
            None => total_weight(cands@) > u64::MAX,
        },
{
    let n = cands.len();
    let mut acc: u64 = 0;
    let mut i: usize = 0;
    #[verifier::loop_isolation(false)]
    while i < n
        invariant
            i <= n,
            acc as int == prefix_weight(cands@, i as int),
        decreases n - i,
    {
        let w = cands[i].weight;
        proof {
            assert(cands@.take(i + 1).drop_last() =~= cands@.take(i as int));
            assert(cands@.take(i + 1).last() == cands@[i as int]);
            lemma_total_weight_last(cands@.take(i + 1));
        }
        if u64::MAX - acc < w {
            proof {
                lemma_total_weight_split(cands@, i + 1);
                assert(positive_weights(cands@.skip(i + 1))) by {
                    assert(forall|j: int|
                        0 <= j < cands@.skip(i + 1).len() ==> #[trigger] cands@.skip(i + 1)[j]
                            == cands@[i + 1 + j]);
                }
                lemma_total_weight_pos(cands@.skip(i + 1));
            }
            return None;
        }
        acc = acc + w;
        i += 1;
    }
    proof {
        assert(cands@.take(n as int) =~= cands@);
    }
    Some(acc)
}

/// A nonempty list's total weight is the total of all but the last
/// candidate plus the last candidate's weight.
pub proof fn lemma_total_weight_last(cands: Seq<Candidate>)
    requires
        cands.len() > 0,
    ensures
        total_weight(cands) == total_weight(cands.drop_last()) + cands.last().weight,
    decreases cands.len(),
{
    if cands.len() == 1 {
        assert(cands.drop_last() =~= Seq::<Candidate>::empty());
        assert(cands.drop_first() =~= Seq::<Candidate>::empty());
    } else {
        lemma_total_weight_last(cands.drop_first());
        assert(cands.drop_first().drop_last() =~= cands.drop_last().drop_first());
        assert(cands.drop_first().last() == cands.last());
        assert(cands.drop_last()[0] == cands[0]);
        assert(cands.drop_last().len() > 0);
        assert(total_weight(cands.drop_last()) == cands[0].weight + total_weight(
            cands.drop_last().drop_first(),
        ));
    }
}

/// The index selected by a concrete draw: the first candidate whose
/// cumulative weight exceeds the draw.
pub fn select_by_draw(cands: &Vec<Candidate>, draw: u64) -> (idx: usize)
    requires
        positive_weights(cands@),
        cands@.len() > 0,
        draw < total_weight(cands@),
    ensures
        idx < cands@.len(),
        idx as int == selected_index(cands@, draw as int),
{
    let n = cands.len();
    let mut acc: u64 = 0;
    let mut i: usize = 0;
    #[verifier::loop_isolation(false)]
    while i < n
        invariant
            i <= n,
            acc as int == prefix_weight(cands@, i as int),
            acc <= draw,
        decreases n - i,
    {
        let w = cands[i].weight;
        proof {
            assert(cands@.take(i + 1).drop_last() =~= cands@.take(i as int));
            assert(cands@.take(i + 1).last() == cands@[i as int]);
            lemma_total_weight_last(cands@.take(i + 1));
            lemma_total_weight_split(cands@, i as int);
            assert(positive_weights(cands@.skip(i as int))) by {
                assert(forall|j: int|
                    0 <= j < cands@.skip(i as int).len() ==> #[trigger] cands@.skip(i as int)[j]
                        == cands@[i + j]);
            }
            lemma_total_weight_pos(cands@.skip(i as int));
        }
        if draw - acc < w {
            proof {
                lemma_interval_selects(cands@, draw as int, i as int);
            }
            return i;
        }
        acc = acc + w;
        i += 1;
    }
    proof {
        assert(cands@.take(n as int) =~= cands@);
        assert(false);
    }
    0
}

/// Relies on rand::random_range: a uniform draw from the nonempty
/// range `0..n`.
#[verifier::external_body]
fn random_below(n: u64) -> (r: u64)
    requires
        n > 0,
    ensures
        r < n,
{
    rand::random_range(0..n)
}

/// Selects one candidate's code by weighted sampling: a fresh uniform
/// draw in `[0, total_weight)` picks the candidate whose
/// cumulative-weight interval it falls into, so the selected code is
/// always one of the candidates', and a lone candidate is selected
/// with certainty.
pub fn select(cands: &Vec<Candidate>) -> (code: u16)
    requires
        positive_weights(cands@),
        cands@.len() > 0,
        total_weight(cands@) <= u64::MAX,
    ensures
        exists|i: int| 0 <= i < cands@.len() && code == (#[trigger] cands@[i]).code,
        cands@.len() == 1 ==> code == cands@[0].code,
{
    let total = match checked_total(cands) {
        Some(t) => t,
        None => {
            proof {
                assert(false);
            }
            0
        },
    };
    proof {
        lemma_total_weight_pos(cands@);
    }
    let draw = random_below(total);
    let idx = select_by_draw(cands, draw);
    let code = cands[idx].code;
    proof {
        assert((idx as int) < cands@.len() && code == cands@[idx as int].code);
    }
    code
}

} // verus!
