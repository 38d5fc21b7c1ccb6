//! The rounds of the protocol as mathematics: what an honest prover sends,
//! what the verifier expects at each round, and when a run accepts.
//!
//! `f` is the function being summed, `n` the number of its variables,
//! `claimed` the sum under test and `challenges` the verifier's choices, one
//! per round.
use crate::hypercube::{hypercube_sum, is_assignment, is_bits, sum_over_completions};
use vstd::prelude::*;

verus! {

/// The message of the round that follows the challenges `fixed`: the sums
/// over the remaining variables with the next variable at `0` and at `1`.
pub open spec fn round_message(f: spec_fn(Seq<i32>) -> int, n: nat, fixed: Seq<i32>) -> (int, int) {
    (sum_over_completions(f, n, fixed.push(0)), sum_over_completions(f, n, fixed.push(1)))
}

/// The line through `(0, f0)` and `(1, f1)`, evaluated at `r`.
pub open spec fn interpolate(f0: int, f1: int, r: int) -> int {
    f0 * (1 - r) + f1 * r
}

/// At a binary challenge the line takes the value of the message at that
/// bit.
pub proof fn lemma_interpolate_at_bit(f0: int, f1: int)
    ensures
        interpolate(f0, f1, 0) == f0,
        interpolate(f0, f1, 1) == f1,
{
    assert(f0 * (1 - 0) + f1 * 0 == f0) by (nonlinear_arith);
    assert(f0 * (1 - 1) + f1 * 1 == f1) by (nonlinear_arith);
}

/// The value that the message of round `i` must add up to: the claim in
/// round `0`, afterwards the previous message interpolated at the previous
/// challenge.
pub open spec fn running_sum_at(
    f: spec_fn(Seq<i32>) -> int,
    n: nat,
    claimed: int,
    challenges: Seq<i32>,
    i: nat,
) -> int {
    if i == 0 {
        claimed
    } else {
        let previous = round_message(f, n, challenges.take(i - 1));
        interpolate(previous.0, previous.1, challenges[i - 1] as int)
    }
}

/// The consistency check of round `i` succeeds.
pub open spec fn round_passes(
    f: spec_fn(Seq<i32>) -> int,
    n: nat,
    claimed: int,
    challenges: Seq<i32>,
    i: nat,
) -> bool {
    let message = round_message(f, n, challenges.take(i as int));
    running_sum_at(f, n, claimed, challenges, i) == message.0 + message.1
}

/// All `n` rounds pass.
pub open spec fn accepts(f: spec_fn(Seq<i32>) -> int, n: nat, claimed: int, challenges: Seq<i32>) -> bool {
    forall|i: nat| i < n ==> #[trigger] round_passes(f, n, claimed, challenges, i)
}

/// Round-sum invariant. At the start of every round after the first, the
/// running sum is the exact sum of `f` over all completions of the challenges
/// fixed so far, whatever was claimed. At the start of the first round it is
/// the claim, so the same holds there if and only if the claim is the true
/// sum.
pub proof fn lemma_running_sum_is_sum_over_completions(
    f: spec_fn(Seq<i32>) -> int,
    n: nat,
    claimed: int,
    challenges: Seq<i32>,
    i: nat,
)
    requires
        is_bits(challenges),
        i <= challenges.len(),
    ensures
        i > 0 ==> running_sum_at(f, n, claimed, challenges, i) == sum_over_completions(
            f,
            n,
            challenges.take(i as int),
        ),
        i == 0 ==> (running_sum_at(f, n, claimed, challenges, i) == sum_over_completions(
            f,
            n,
            challenges.take(i as int),
        ) <==> claimed == hypercube_sum(f, n)),
{
    if i > 0 {
        let r = challenges[i - 1];
        let previous = round_message(f, n, challenges.take(i - 1));
        assert(challenges.take(i as int) =~= challenges.take(i - 1).push(r));
        lemma_interpolate_at_bit(previous.0, previous.1);
    } else {
        assert(challenges.take(0) =~= Seq::<i32>::empty());
    }
}

/// The check of a round compares the running sum with the sum over all
/// completions of the challenges fixed so far.
pub proof fn lemma_round_passes_iff_running_sum_exact(
    f: spec_fn(Seq<i32>) -> int,
    n: nat,
    claimed: int,
    challenges: Seq<i32>,
    i: nat,
)
    requires
        i < n,
        i <= challenges.len(),
    ensures
        round_passes(f, n, claimed, challenges, i) <==> running_sum_at(f, n, claimed, challenges, i)
            == sum_over_completions(f, n, challenges.take(i as int)),
{
}

/// Completeness. A run on the true sum accepts, whichever challenges are
/// drawn.
pub proof fn lemma_true_sum_is_accepted(f: spec_fn(Seq<i32>) -> int, n: nat, challenges: Seq<i32>)
    requires
        is_assignment(challenges, n),
    ensures
        accepts(f, n, hypercube_sum(f, n), challenges),
{
    let claimed = hypercube_sum(f, n);
    assert forall|i: nat| i < n implies #[trigger] round_passes(f, n, claimed, challenges, i) by {
        lemma_running_sum_is_sum_over_completions(f, n, claimed, challenges, i);
        lemma_round_passes_iff_running_sum_exact(f, n, claimed, challenges, i);
    }
}

/// Soundness against a wrong total. With at least one variable, a run on
/// anything but the true sum fails the check of the first round, whichever
/// challenges are drawn; so no such run accepts, and a rejecting challenge
/// sequence exists.
pub proof fn lemma_wrong_sum_is_rejected_in_first_round(
    f: spec_fn(Seq<i32>) -> int,
    n: nat,
    claimed: int,
    challenges: Seq<i32>,
)
    requires
        n >= 1,
        claimed != hypercube_sum(f, n),
    ensures
        !round_passes(f, n, claimed, challenges, 0),
        !accepts(f, n, claimed, challenges),
        exists|rejecting: Seq<i32>| is_assignment(rejecting, n) && !accepts(f, n, claimed, rejecting),
{
    assert(challenges.take(0) =~= Seq::<i32>::empty());
    assert(!round_passes(f, n, claimed, challenges, 0));
    let zeros = Seq::new(n, |j: int| 0i32);
    assert(zeros.take(0) =~= Seq::<i32>::empty());
    assert(!round_passes(f, n, claimed, zeros, 0));
    assert(is_assignment(zeros, n) && !accepts(f, n, claimed, zeros));
}

/// A run accepts exactly when there is no round at all or the claim is the
/// true sum: the challenges have no say in it.
pub proof fn lemma_accepts_iff_claim_is_true_sum(
    f: spec_fn(Seq<i32>) -> int,
    n: nat,
    claimed: int,
    challenges: Seq<i32>,
)
    requires
        is_assignment(challenges, n),
    ensures
        accepts(f, n, claimed, challenges) <==> n == 0 || claimed == hypercube_sum(f, n),
{
    if n >= 1 && claimed != hypercube_sum(f, n) {
        lemma_wrong_sum_is_rejected_in_first_round(f, n, claimed, challenges);
    } else if claimed == hypercube_sum(f, n) {
        lemma_true_sum_is_accepted(f, n, challenges);
    }
}

} // verus!
