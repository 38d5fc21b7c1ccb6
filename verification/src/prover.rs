//! The prover: owner of the oracle, computing the claimed sum and the
//! per-round evaluations that the verifier asks for.
use crate::hypercube::{
    decode_assignment, hypercube_sum, indexed_sum, is_assignment, is_bits,
    lemma_indexed_sum_is_sum_over_completions, lemma_sum_over_completions_bounds,
    lemma_unpack_is_assignment, lemma_unpack_pack, pack, sum_over_completions, unpack,
};
use vstd::arithmetic::power2::{lemma_pow2_pos, lemma_pow2_strictly_increases, lemma_pow2_unfold, pow2};
use vstd::bits::{lemma_u64_pow2_no_overflow, lemma_u64_shl_is_mul};
use vstd::prelude::*;
use vstd::slice::slice_to_vec;

verus! {

/// The largest number of variables a prover can enumerate: the index of an
/// assignment is held in a `u64`.
pub const MAX_VARS: usize = 63;

/// `v` can be held in an `i32`.
pub open spec fn fits_i32(v: int) -> bool {
    i32::MIN <= v <= i32::MAX
}

/// `function` may return `y` when called on a slice holding `x`.
pub open spec fn may_return<F: Fn(&[i32]) -> i32>(function: F, x: Seq<i32>, y: i32) -> bool {
    exists|s: &[i32]| s@ == x && #[trigger] call_ensures(function, (s,), y)
}

/// The value of `function` at `x`: what it returns there. Where it is known
/// to return nothing at all, the value is `0`.
pub open spec fn oracle_value<F: Fn(&[i32]) -> i32>(function: F, x: Seq<i32>) -> i32 {
    if exists|y: i32| may_return(function, x, y) {
        choose|y: i32| may_return(function, x, y)
    } else {
        0
    }
}

/// `function` is an oracle on `n` variables: it may be called on every
/// assignment of `n` variables (total), and what it returns there depends on
/// the assignment alone (deterministic).
pub open spec fn is_oracle<F: Fn(&[i32]) -> i32>(function: F, n: nat) -> bool {
    &&& forall|s: &[i32]| is_assignment(s@, n) ==> #[trigger] call_requires(function, (s,))
    &&& forall|s1: &[i32], s2: &[i32], y1: i32, y2: i32|
        is_assignment(s1@, n) && s1@ == s2@ && #[trigger] call_ensures(function, (s1,), y1)
            && #[trigger] call_ensures(function, (s2,), y2) ==> y1 == y2
}

/// Whatever an oracle returns on an assignment is its value there.
pub proof fn lemma_oracle_returns_its_value<F: Fn(&[i32]) -> i32>(function: F, n: nat, s: &[i32], y: i32)
    requires
        is_oracle(function, n),
        is_assignment(s@, n),
        call_ensures(function, (s,), y),
    ensures
        y == oracle_value(function, s@),
{
    assert(may_return(function, s@, y));
    let chosen = oracle_value(function, s@);
    assert(may_return(function, s@, chosen));
    let witness = choose|t: &[i32]| t@ == s@ && #[trigger] call_ensures(function, (t,), chosen);
    assert(call_ensures(function, (witness,), chosen));
}

/// Bounds on everything that `function` may return at `x` are bounds on its
/// value there, provided they admit `0`.
pub proof fn lemma_oracle_value_within<F: Fn(&[i32]) -> i32>(function: F, x: Seq<i32>, lo: int, hi: int)
    requires
        lo <= 0 <= hi,
        forall|s: &[i32], y: i32| s@ == x && #[trigger] call_ensures(function, (s,), y) ==> lo <= y <= hi,
    ensures
        lo <= oracle_value(function, x) <= hi,
{
    if exists|y: i32| may_return(function, x, y) {
        let chosen = oracle_value(function, x);
        assert(may_return(function, x, chosen));
        let witness = choose|t: &[i32]| t@ == x && #[trigger] call_ensures(function, (t,), chosen);
        assert(call_ensures(function, (witness,), chosen));
    }
}

/// A sum together with the number of oracle evaluations that produced it.
#[derive(Clone, Copy, Debug, PartialEq, Eq)]
pub struct Tally {
    pub sum: i32,
    pub oracle_calls: u64,
}

/// Holds the function being summed and the number of its variables.
pub struct Prover<F: Fn(&[i32]) -> i32> {
    pub function: F,
    pub num_vars: usize,
}

impl<F: Fn(&[i32]) -> i32> Prover<F> {
    /// The oracle as a mathematical function of the assignment.
    pub open spec fn oracle(&self) -> spec_fn(Seq<i32>) -> int {
        |x: Seq<i32>| oracle_value(self.function, x) as int
    }

    /// The function is an oracle on `num_vars` variables, and `num_vars` is
    /// small enough to enumerate.
    pub open spec fn wf(&self) -> bool {
        &&& self.num_vars <= MAX_VARS
        &&& is_oracle(self.function, self.num_vars as nat)
    }

    /// The oracle is known to return its value at `x`.
    pub open spec fn defined_at(&self, x: Seq<i32>) -> bool {
        may_return(self.function, x, oracle_value(self.function, x))
    }

    /// The sum of the oracle over all completions of `prefix`.
    pub open spec fn partial_sum(&self, prefix: Seq<i32>) -> int {
        sum_over_completions(self.oracle(), self.num_vars as nat, prefix)
    }

    /// The sum of the oracle over the whole hypercube.
    pub open spec fn total(&self) -> int {
        hypercube_sum(self.oracle(), self.num_vars as nat)
    }

    /// Both values of the round message after `fixed` can be held in an `i32`.
    pub open spec fn message_fits(&self, fixed: Seq<i32>) -> bool {
        fits_i32(self.partial_sum(fixed.push(0))) && fits_i32(self.partial_sum(fixed.push(1)))
    }

    /// Every round message can be held in a pair of `i32`, whatever the
    /// challenges before it.
    pub open spec fn messages_fit(&self) -> bool {
        forall|fixed: Seq<i32>|
            is_bits(fixed) && fixed.len() < self.num_vars ==> #[trigger] self.message_fits(fixed)
    }

    /// If the oracle stays within `[lo, hi]` on every assignment, and `2^n`
    /// times either bound can be held in an `i32`, then so can the total and
    /// every round message.
    pub proof fn lemma_bounded_oracle_fits(&self, lo: int, hi: int)
        requires
            lo <= 0 <= hi,
            forall|x: Seq<i32>|
                is_assignment(x, self.num_vars as nat) ==> lo <= #[trigger] oracle_value(self.function, x)
                    <= hi,
            i32::MIN <= pow2(self.num_vars as nat) * lo,
            pow2(self.num_vars as nat) * hi <= i32::MAX,
        ensures
            fits_i32(self.total()),
            self.messages_fit(),
            forall|prefix: Seq<i32>|
                is_bits(prefix) && prefix.len() <= self.num_vars ==> fits_i32(
                    #[trigger] self.partial_sum(prefix),
                ),
    {
        let n = self.num_vars as nat;
        let f = self.oracle();
        assert forall|x: Seq<i32>| is_assignment(x, n) implies lo <= #[trigger] f(x) <= hi by {
            assert(f(x) == oracle_value(self.function, x));
        }
        assert forall|prefix: Seq<i32>| is_bits(prefix) && prefix.len() <= n implies fits_i32(
            #[trigger] self.partial_sum(prefix),
        ) by {
            let k = (n - prefix.len()) as nat;
            lemma_sum_over_completions_bounds(f, n, prefix, lo, hi);
            lemma_pow2_pos(k);
            if k < n {
                lemma_pow2_strictly_increases(k, n);
            }
            assert(pow2(n) * lo <= pow2(k) * lo) by (nonlinear_arith)
                requires
                    0 < pow2(k) <= pow2(n),
                    lo <= 0,
            ;
            assert(pow2(k) * hi <= pow2(n) * hi) by (nonlinear_arith)
                requires
                    0 < pow2(k) <= pow2(n),
                    0 <= hi,
            ;
        }
        assert(is_bits(Seq::<i32>::empty()));
        assert(self.total() == self.partial_sum(Seq::<i32>::empty()));
        assert forall|fixed: Seq<i32>| is_bits(fixed) && fixed.len() < n implies #[trigger] self.message_fits(
            fixed,
        ) by {
            assert(is_bits(fixed.push(0)));
            assert(is_bits(fixed.push(1)));
        }
    }

    /// A prover for `function`, taken as a function of `num_vars` variables.
    pub fn new(function: F, num_vars: usize) -> (prover: Self)
        ensures
            prover.function == function,
            prover.num_vars == num_vars,
    {
        Self { function, num_vars }
    }

    /// Sums the oracle over every completion of `prefix`, evaluating it once
    /// for each of the `2^(num_vars - prefix.len())` completions, and counts
    /// the evaluations.
    pub fn sum_completions(&self, prefix: &[i32]) -> (tally: Tally)
        requires
            self.wf(),
            prefix@.len() <= self.num_vars,
            is_bits(prefix@),
            fits_i32(self.partial_sum(prefix@)),
        ensures
            tally.sum == self.partial_sum(prefix@),
            tally.oracle_calls == pow2((self.num_vars - prefix@.len()) as nat),
            forall|x: Seq<i32>|
                is_assignment(x, self.num_vars as nat) && prefix@.is_prefix_of(x) ==> #[trigger] self.defined_at(
                    x,
                ),
    {
        let free: usize = self.num_vars - prefix.len();
        proof {
            lemma_u64_pow2_no_overflow(free as nat);
            lemma_u64_shl_is_mul(1, free as u64);
        }
        let count: u64 = 1u64 << (free as u64);
        let mut total: i128 = 0;
        let mut index: u64 = 0;
        while index < count
            invariant
                self.wf(),
                is_bits(prefix@),
                prefix@.len() + free == self.num_vars,
                count == pow2(free as nat),
                index <= count,
                total == indexed_sum(self.oracle(), prefix@, free as nat, index as nat),
                index * (i32::MIN as int) <= total <= index * (i32::MAX as int),
                forall|i: nat| i < index ==> self.defined_at(prefix@ + #[trigger] unpack(i, free as nat)),
            decreases count - index,
        {
            let mut input: Vec<i32> = slice_to_vec(prefix);
            let mut digits: Vec<i32> = decode_assignment(index, free);
            input.append(&mut digits);
            let assignment: &[i32] = input.as_slice();
            proof {
                lemma_unpack_is_assignment(index as nat, free as nat);
                assert(assignment@ == prefix@ + unpack(index as nat, free as nat));
                assert(is_assignment(assignment@, self.num_vars as nat));
            }
            let value: i32 = (self.function)(assignment);
            proof {
                lemma_oracle_returns_its_value(self.function, self.num_vars as nat, assignment, value);
                assert(may_return(self.function, assignment@, value));
            }
            total = total + value as i128;
            index = index + 1;
        }
        proof {
            lemma_indexed_sum_is_sum_over_completions(
                self.oracle(),
                self.num_vars as nat,
                prefix@,
                free as nat,
            );
            assert forall|x: Seq<i32>|
                is_assignment(x, self.num_vars as nat) && prefix@.is_prefix_of(x) implies #[trigger] self.defined_at(
                x,
            ) by {
                let rest = x.skip(prefix@.len() as int);
                lemma_unpack_pack(rest);
                assert(x =~= prefix@ + unpack(pack(rest), free as nat));
            }
        }
        Tally { sum: total as i32, oracle_calls: index }
    }

    /// The sum of the oracle over all `2^num_vars` assignments, with the
    /// number of oracle evaluations that it took.
    pub fn calculate_sum_counted(&self) -> (tally: Tally)
        requires
            self.wf(),
            fits_i32(self.total()),
        ensures
            tally.sum == self.total(),
            tally.oracle_calls == pow2(self.num_vars as nat),
            forall|x: Seq<i32>| is_assignment(x, self.num_vars as nat) ==> #[trigger] self.defined_at(x),
    {
        let nothing_fixed: Vec<i32> = Vec::new();
        let tally: Tally = self.sum_completions(nothing_fixed.as_slice());
        assert forall|x: Seq<i32>| is_assignment(x, self.num_vars as nat) implies #[trigger] self.defined_at(
            x,
        ) by {
            assert(nothing_fixed@.is_prefix_of(x));
        }
        tally
    }

    /// The sum of the oracle over all `2^num_vars` assignments.
    pub fn calculate_sum(&self) -> (total: i32)
        requires
            self.wf(),
            fits_i32(self.total()),
        ensures
            total == self.total(),
            forall|x: Seq<i32>| is_assignment(x, self.num_vars as nat) ==> #[trigger] self.defined_at(x),
    {
        self.calculate_sum_counted().sum
    }

    /// The round message for variable `var_index`, with the number of oracle
    /// evaluations that it took: `2^(num_vars - var_index - 1)` for each of
    /// its two values.
    pub fn evaluate_polynomial_counted(&self, fixed_inputs: &[i32], var_index: usize) -> (counted: (
        [i32; 2],
        u64,
    ))
        requires
            self.wf(),
            var_index < self.num_vars,
            fixed_inputs@.len() == var_index,
            is_bits(fixed_inputs@),
            self.message_fits(fixed_inputs@),
        ensures
            counted.0[0] == self.partial_sum(fixed_inputs@.push(0)),
            counted.0[1] == self.partial_sum(fixed_inputs@.push(1)),
            counted.1 == pow2((self.num_vars - var_index) as nat),
    {
        let mut inputs: Vec<i32> = slice_to_vec(fixed_inputs);
        inputs.push(0);
        assert(inputs@ == fixed_inputs@.push(0));
        let at_zero: Tally = self.sum_completions(inputs.as_slice());
        inputs.set(var_index, 1);
        assert(inputs@ == fixed_inputs@.push(1));
        let at_one: Tally = self.sum_completions(inputs.as_slice());
        proof {
            lemma_pow2_unfold((self.num_vars - var_index) as nat);
            lemma_u64_pow2_no_overflow((self.num_vars - var_index) as nat);
        }
        ([at_zero.sum, at_one.sum], at_zero.oracle_calls + at_one.oracle_calls)
    }

    /// The round message for variable `var_index`: with the earlier variables
    /// fixed to `fixed_inputs`, the sum of the oracle over the later ones,
    /// once with variable `var_index` at `0` and once with it at `1`.
    pub fn evaluate_polynomial(&self, fixed_inputs: &[i32], var_index: usize) -> (evaluations: [i32; 2])
        requires
            self.wf(),
            var_index < self.num_vars,
            fixed_inputs@.len() == var_index,
            is_bits(fixed_inputs@),
            self.message_fits(fixed_inputs@),
        ensures
            evaluations[0] == self.partial_sum(fixed_inputs@.push(0)),
            evaluations[1] == self.partial_sum(fixed_inputs@.push(1)),
    {
        self.evaluate_polynomial_counted(fixed_inputs, var_index).0
    }
}

} // verus!
