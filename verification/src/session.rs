//! The verifier: the round loop that checks a claimed sum against a prover.
use crate::hypercube::{is_assignment, is_bits};
use crate::protocol::{
    accepts, interpolate, lemma_accepts_iff_claim_is_true_sum, lemma_interpolate_at_bit, round_message,
    round_passes,
};
use crate::prover::Prover;
use crate::rng::gen_range_inclusive;
use rand::rngs::ThreadRng;
use vstd::prelude::*;

verus! {

/// The state of a run between rounds: the challenges chosen so far and the
/// value that the next message must add up to.
pub struct Transcript {
    pub fixed_inputs: Vec<i32>,
    pub running_sum: i32,
}

impl Transcript {
    /// The round-sum invariant of a run on `claimed_sum` against `prover`.
    /// Before the first round the running sum is the claim. After any round
    /// that passed, the claim has turned out to be the true sum, and the
    /// running sum is the exact sum of the oracle over all completions of
    /// the challenges fixed so far.
    pub open spec fn settled<F: Fn(&[i32]) -> i32>(&self, claimed_sum: i32, prover: &Prover<F>) -> bool {
        if self.fixed_inputs@.len() == 0 {
            self.running_sum == claimed_sum
        } else {
            claimed_sum == prover.total() && self.running_sum == prover.partial_sum(self.fixed_inputs@)
        }
    }

    /// The state before the first round.
    pub fn new(claimed_sum: i32) -> (transcript: Self)
        ensures
            transcript.fixed_inputs@ == Seq::<i32>::empty(),
            transcript.running_sum == claimed_sum,
    {
        Self { fixed_inputs: Vec::new(), running_sum: claimed_sum }
    }

    /// The index of the round that comes next.
    pub fn round(&self) -> (index: usize)
        ensures
            index == self.fixed_inputs@.len(),
    {
        self.fixed_inputs.len()
    }

    /// The consistency check of a round: the two values of the message add
    /// up to the running sum.
    pub fn matches(&self, poly_vals: &[i32; 2]) -> (consistent: bool)
        ensures
            consistent <==> self.running_sum == poly_vals[0] + poly_vals[1],
    {
        self.running_sum as i64 == poly_vals[0] as i64 + poly_vals[1] as i64
    }

    /// Closes a round: records the challenge and replaces the running sum by
    /// the message interpolated at it.
    pub fn advance(&mut self, poly_vals: &[i32; 2], challenge: i32)
        requires
            challenge == 0 || challenge == 1,
        ensures
            final(self).fixed_inputs@ == old(self).fixed_inputs@.push(challenge),
            final(self).running_sum == interpolate(poly_vals[0] as int, poly_vals[1] as int, challenge as int),
    {
        proof {
            lemma_interpolate_at_bit(poly_vals[0] as int, poly_vals[1] as int);
            assert(poly_vals[0] * (1 - challenge) == if challenge == 0 {
                poly_vals[0] as int
            } else {
                0
            }) by (nonlinear_arith)
                requires
                    challenge == 0 || challenge == 1,
            ;
            assert(poly_vals[1] * challenge == if challenge == 0 {
                0
            } else {
                poly_vals[1] as int
            }) by (nonlinear_arith)
                requires
                    challenge == 0 || challenge == 1,
            ;
        }
        let next_sum: i32 = poly_vals[0] * (1 - challenge) + poly_vals[1] * challenge;
        self.fixed_inputs.push(challenge);
        self.running_sum = next_sum;
    }
}

/// Round-sum invariant. A round that passes keeps it: if the invariant held
/// before the round, the prover's message added up to the running sum, and
/// the transcript advanced on that message at a binary challenge, then the
/// invariant holds after the round.
pub proof fn lemma_round_keeps_settled<F: Fn(&[i32]) -> i32>(
    before: Transcript,
    after: Transcript,
    claimed_sum: i32,
    prover: &Prover<F>,
    challenge: i32,
)
    requires
        before.settled(claimed_sum, prover),
        before.fixed_inputs@.len() < prover.num_vars,
        challenge == 0 || challenge == 1,
        before.running_sum == prover.partial_sum(before.fixed_inputs@.push(0)) + prover.partial_sum(
            before.fixed_inputs@.push(1),
        ),
        after.fixed_inputs@ == before.fixed_inputs@.push(challenge),
        after.running_sum == interpolate(
            prover.partial_sum(before.fixed_inputs@.push(0)),
            prover.partial_sum(before.fixed_inputs@.push(1)),
            challenge as int,
        ),
    ensures
        after.settled(claimed_sum, prover),
{
    lemma_interpolate_at_bit(
        prover.partial_sum(before.fixed_inputs@.push(0)),
        prover.partial_sum(before.fixed_inputs@.push(1)),
    );
    if before.fixed_inputs@.len() == 0 {
        assert(before.fixed_inputs@ =~= Seq::<i32>::empty());
    }
}

/// How a run ended.
#[derive(Clone, Copy, Debug, PartialEq, Eq)]
pub enum Verdict {
    /// Every round passed.
    Accept,
    /// Round `round` expected the message to add up to `expected`, and
    /// `f0 + f1` is something else.
    Reject { round: usize, expected: i32, f0: i32, f1: i32 },
}

/// Checks claimed sums of functions of `num_vars` variables.
pub struct Verifier {
    pub num_vars: usize,
}

impl Verifier {
    /// A verifier for provers of `num_vars` variables.
    pub fn new(num_vars: usize) -> (verifier: Self)
        ensures
            verifier.num_vars == num_vars,
    {
        Self { num_vars }
    }

    /// Runs the protocol on `claimed_sum` with the challenges given, one per
    /// round, and reports the first round that fails, if any.
    pub fn verify_with_challenges<F: Fn(&[i32]) -> i32>(
        &self,
        claimed_sum: i32,
        prover: &Prover<F>,
        challenges: &[i32],
    ) -> (verdict: Verdict)
        requires
            prover.wf(),
            prover.messages_fit(),
            self.num_vars == prover.num_vars,
            is_assignment(challenges@, self.num_vars as nat),
        ensures
            verdict is Accept <==> accepts(
                prover.oracle(),
                self.num_vars as nat,
                claimed_sum as int,
                challenges@,
            ),
            verdict is Accept <==> self.num_vars == 0 || claimed_sum == prover.total(),
            verdict matches Verdict::Reject { round, expected, f0, f1 } ==> {
                &&& round == 0
                &&& expected == claimed_sum
                &&& !round_passes(prover.oracle(), self.num_vars as nat, claimed_sum as int, challenges@, 0)
                &&& (f0 as int, f1 as int) == round_message(
                    prover.oracle(),
                    self.num_vars as nat,
                    Seq::<i32>::empty(),
                )
            },
    {
        let mut transcript: Transcript = Transcript::new(claimed_sum);
        proof {
            lemma_accepts_iff_claim_is_true_sum(
                prover.oracle(),
                self.num_vars as nat,
                claimed_sum as int,
                challenges@,
            );
            assert(transcript.fixed_inputs@ =~= challenges@.take(0));
        }
        while transcript.round() < self.num_vars
            invariant
                prover.wf(),
                prover.messages_fit(),
                self.num_vars == prover.num_vars,
                is_assignment(challenges@, self.num_vars as nat),
                accepts(prover.oracle(), self.num_vars as nat, claimed_sum as int, challenges@) <==> (
                self.num_vars == 0 || claimed_sum == prover.total()),
                transcript.fixed_inputs@.len() <= self.num_vars,
                transcript.fixed_inputs@ == challenges@.take(transcript.fixed_inputs@.len() as int),
                transcript.settled(claimed_sum, prover),
            decreases self.num_vars - transcript.fixed_inputs@.len(),
        {
            let i: usize = transcript.round();
            assert(prover.message_fits(transcript.fixed_inputs@));
            assert(challenges@.take(0) =~= Seq::<i32>::empty());
            let poly_vals: [i32; 2] = prover.evaluate_polynomial(transcript.fixed_inputs.as_slice(), i);
            if !transcript.matches(&poly_vals) {
                return Verdict::Reject {
                    round: i,
                    expected: transcript.running_sum,
                    f0: poly_vals[0],
                    f1: poly_vals[1],
                };
            }
            let challenge: i32 = challenges[i];
            let ghost before = transcript;
            transcript.advance(&poly_vals, challenge);
            proof {
                lemma_round_keeps_settled(before, transcript, claimed_sum, prover, challenge);
                assert(challenges@.take(i + 1) =~= challenges@.take(i as int).push(challenge));
            }
        }
        Verdict::Accept
    }

    /// Runs the protocol on `claimed_sum`, drawing the challenge of each
    /// round from the thread-local random generator once the round has
    /// passed. Returns `true` if every round passes and `false` at the first
    /// that does not. The prover answers from its oracle, so the outcome is
    /// the same for every sequence of challenges that may be drawn.
    pub fn verify<F: Fn(&[i32]) -> i32>(&self, claimed_sum: i32, prover: &Prover<F>) -> (accepted: bool)
        requires
            prover.wf(),
            prover.messages_fit(),
            self.num_vars == prover.num_vars,
        ensures
            accepted <==> self.num_vars == 0 || claimed_sum == prover.total(),
            forall|challenges: Seq<i32>|
                is_assignment(challenges, self.num_vars as nat) ==> (accepted <==> #[trigger] accepts(
                    prover.oracle(),
                    self.num_vars as nat,
                    claimed_sum as int,
                    challenges,
                )),
    {
        let mut rng: ThreadRng = rand::thread_rng();
        let mut transcript: Transcript = Transcript::new(claimed_sum);
        proof {
            assert forall|challenges: Seq<i32>| is_assignment(challenges, self.num_vars as nat) implies (
            #[trigger] accepts(prover.oracle(), self.num_vars as nat, claimed_sum as int, challenges) <==> (
            self.num_vars == 0 || claimed_sum == prover.total())) by {
                lemma_accepts_iff_claim_is_true_sum(
                    prover.oracle(),
                    self.num_vars as nat,
                    claimed_sum as int,
                    challenges,
                );
            }
        }
        while transcript.round() < self.num_vars
            invariant
                forall|challenges: Seq<i32>|
                    is_assignment(challenges, self.num_vars as nat) ==> (#[trigger] accepts(
                        prover.oracle(),
                        self.num_vars as nat,
                        claimed_sum as int,
                        challenges,
                    ) <==> (self.num_vars == 0 || claimed_sum == prover.total())),
                prover.wf(),
                prover.messages_fit(),
                self.num_vars == prover.num_vars,
                transcript.fixed_inputs@.len() <= self.num_vars,
                is_bits(transcript.fixed_inputs@),
                transcript.settled(claimed_sum, prover),
            decreases self.num_vars - transcript.fixed_inputs@.len(),
        {
            let i: usize = transcript.round();
            proof {
                assert(prover.message_fits(transcript.fixed_inputs@));
                if i == 0 {
                    assert(transcript.fixed_inputs@ =~= Seq::<i32>::empty());
                }
            }
            let poly_vals: [i32; 2] = prover.evaluate_polynomial(transcript.fixed_inputs.as_slice(), i);
            if !transcript.matches(&poly_vals) {
                return false;
            }
            let challenge: i32 = gen_range_inclusive(&mut rng, 0, 1);
            let ghost before = transcript;
            transcript.advance(&poly_vals, challenge);
            proof {
                lemma_round_keeps_settled(before, transcript, claimed_sum, prover, challenge);
            }
        }
        true
    }
}

} // verus!
