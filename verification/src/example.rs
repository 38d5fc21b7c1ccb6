//! A worked example: a polynomial in five boolean variables, summed and
//! checked.
use crate::hypercube::{
    hypercube_sum, is_assignment, is_bits, lemma_sum_over_completions_agrees, sum_over_completions,
};
use crate::prover::{lemma_oracle_value_within, oracle_value, Prover};
use crate::session::Verifier;
use vstd::arithmetic::power2::lemma2_to64;
use vstd::prelude::*;

verus! {

/// `2*b1^2 + b2 + b1*b2*b3 - b4 + b2*b5^3` at the first five entries of `x`.
pub open spec fn example_polynomial(x: Seq<i32>) -> int {
    2 * (x[0] * x[0]) + x[1] + x[0] * x[1] * x[2] - x[3] + x[1] * (x[4] * x[4] * x[4])
}

/// The polynomial without its powers and products: on bits a power is its
/// base and a product is a conjunction.
pub open spec fn example_polynomial_on_bits(x: Seq<i32>) -> int {
    2 * x[0] + x[1] + (if x[0] == 1 && x[1] == 1 && x[2] == 1 {
        1int
    } else {
        0int
    }) - x[3] + (if x[1] == 1 && x[4] == 1 {
        1int
    } else {
        0int
    })
}

pub proof fn lemma_example_polynomial_on_bits(x: Seq<i32>)
    requires
        x.len() >= 5,
        forall|j: int| 0 <= j < 5 ==> #[trigger] x[j] == 0 || x[j] == 1,
    ensures
        example_polynomial(x) == example_polynomial_on_bits(x),
{
    let (b1, b2, b3, b5) = (x[0] as int, x[1] as int, x[2] as int, x[4] as int);
    assert(b1 * b1 == b1) by (nonlinear_arith)
        requires
            b1 == 0 || b1 == 1,
    ;
    assert(b1 * b2 * b3 == if b1 == 1 && b2 == 1 && b3 == 1 {
        1int
    } else {
        0int
    }) by (nonlinear_arith)
        requires
            b1 == 0 || b1 == 1,
            b2 == 0 || b2 == 1,
            b3 == 0 || b3 == 1,
    ;
    assert(b2 * (b5 * b5 * b5) == if b2 == 1 && b5 == 1 {
        1int
    } else {
        0int
    }) by (nonlinear_arith)
        requires
            b2 == 0 || b2 == 1,
            b5 == 0 || b5 == 1,
    ;
}

/// On bits the polynomial stays between `-1` and `5`.
pub proof fn lemma_example_polynomial_range(x: Seq<i32>)
    requires
        x.len() >= 5,
        forall|j: int| 0 <= j < 5 ==> #[trigger] x[j] == 0 || x[j] == 1,
    ensures
        -1 <= example_polynomial(x) <= 5,
        0 <= x[0] * x[0] <= 1,
        0 <= x[0] * x[1] <= 1,
        0 <= x[0] * x[1] * x[2] <= 1,
        0 <= x[4] * x[4] <= 1,
        0 <= x[4] * x[4] * x[4] <= 1,
        0 <= x[1] * (x[4] * x[4] * x[4]) <= 1,
{
    let (b1, b2, b3, b5) = (x[0] as int, x[1] as int, x[2] as int, x[4] as int);
    assert(x[3] == 0 || x[3] == 1);
    assert(0 <= b1 * b1 <= 1) by (nonlinear_arith)
        requires
            0 <= b1 <= 1,
    ;
    assert(0 <= b1 * b2 <= 1) by (nonlinear_arith)
        requires
            0 <= b1 <= 1,
            0 <= b2 <= 1,
    ;
    assert(0 <= (b1 * b2) * b3 <= 1) by (nonlinear_arith)
        requires
            0 <= b1 * b2 <= 1,
            0 <= b3 <= 1,
    ;
    assert(0 <= b5 * b5 <= 1) by (nonlinear_arith)
        requires
            0 <= b5 <= 1,
    ;
    assert(0 <= (b5 * b5) * b5 <= 1) by (nonlinear_arith)
        requires
            0 <= b5 * b5 <= 1,
            0 <= b5 <= 1,
    ;
    assert(0 <= b2 * ((b5 * b5) * b5) <= 1) by (nonlinear_arith)
        requires
            0 <= (b5 * b5) * b5 <= 1,
            0 <= b2 <= 1,
    ;
}

/// The example function of five boolean variables.
pub fn example_function(input: &[i32]) -> (value: i32)
    requires
        input@.len() >= 5,
        forall|j: int| 0 <= j < 5 ==> #[trigger] input@[j] == 0 || input@[j] == 1,
    ensures
        value == example_polynomial(input@),
{
    let (b1, b2, b3, b4, b5) = (input[0], input[1], input[2], input[3], input[4]);
    proof {
        lemma_example_polynomial_range(input@);
    }
    2 * (b1 * b1) + b2 + b1 * b2 * b3 - b4 + b2 * (b5 * b5 * b5)
}

/// `1` if every one of the given bits is `1`, else `0`.
pub open spec fn all_set(bits: Seq<i32>) -> int {
    if forall|j: int| 0 <= j < bits.len() ==> bits[j] == 1 {
        1
    } else {
        0
    }
}

/// The sum of the example polynomial over the completions of a prefix, in
/// closed form, by the length of the prefix.
pub open spec fn example_partial_sum(prefix: Seq<i32>) -> int {
    if prefix.len() == 0 {
        44
    } else if prefix.len() == 1 {
        36 * prefix[0] + 4
    } else if prefix.len() == 2 {
        16 * prefix[0] + 12 * prefix[1] + 4 * all_set(prefix) - 4
    } else if prefix.len() == 3 {
        8 * prefix[0] + 6 * prefix[1] + 4 * all_set(prefix) - 2
    } else if prefix.len() == 4 {
        4 * prefix[0] + 3 * prefix[1] + 2 * all_set(prefix.take(3)) - 2 * prefix[3]
    } else {
        example_polynomial_on_bits(prefix)
    }
}

/// The closed form is the sum over completions.
pub proof fn lemma_example_partial_sum(prefix: Seq<i32>)
    requires
        prefix.len() <= 5,
        is_bits(prefix),
    ensures
        sum_over_completions(|x: Seq<i32>| example_polynomial(x), 5, prefix) == example_partial_sum(prefix),
    decreases 5 - prefix.len(),
{
    if prefix.len() == 5 {
        lemma_example_polynomial_on_bits(prefix);
    } else {
        let zero = prefix.push(0);
        let one = prefix.push(1);
        lemma_example_partial_sum(zero);
        lemma_example_partial_sum(one);
        assert forall|j: int| 0 <= j < prefix.len() implies zero[j] == prefix[j] && one[j] == prefix[j] by {}
        if prefix.len() == 1 {
            assert(all_set(zero) == 0) by {
                assert(zero[1] == 0);
            }
            assert(all_set(one) == prefix[0]) by {
                assert(one[0] == prefix[0] && one[1] == 1);
            }
        } else if prefix.len() == 2 {
            assert(all_set(zero) == 0) by {
                assert(zero[2] == 0);
            }
            assert(all_set(one) == all_set(prefix)) by {
                assert(one[0] == prefix[0] && one[1] == prefix[1] && one[2] == 1);
            }
        } else if prefix.len() == 3 {
            assert(zero.take(3) =~= prefix);
            assert(one.take(3) =~= prefix);
        } else if prefix.len() == 4 {
            assert(all_set(prefix.take(3)) == 1 <==> prefix[0] == 1 && prefix[1] == 1 && prefix[2] == 1) by {
                let head = prefix.take(3);
                assert(head[0] == prefix[0] && head[1] == prefix[1] && head[2] == prefix[2]);
            }
        }
    }
}

/// The example polynomial sums to 44 over its 32 assignments.
pub proof fn lemma_example_polynomial_sum()
    ensures
        hypercube_sum(|x: Seq<i32>| example_polynomial(x), 5) == 44,
{
    lemma_example_partial_sum(Seq::empty());
}

/// Sums the example function over its 32 assignments and has the verifier
/// check that sum. Returns the sum, 44, and the verifier's answer, `true`.
pub fn run_example() -> (outcome: (i32, bool))
    ensures
        outcome.0 == 44,
        outcome.1,
{
    let num_vars: usize = 5;
    let prover = Prover::new(example_function, num_vars);
    proof {
        lemma2_to64();
        assert forall|x: Seq<i32>| is_assignment(x, 5) implies -1 <= #[trigger] oracle_value(
            example_function,
            x,
        ) <= 5 by {
            assert forall|s: &[i32], y: i32| s@ == x && #[trigger] call_ensures(
                example_function,
                (s,),
                y,
            ) implies -1 <= y <= 5 by {
                lemma_example_polynomial_range(s@);
            }
            lemma_oracle_value_within(example_function, x, -1, 5);
        }
        prover.lemma_bounded_oracle_fits(-1, 5);
    }
    let claimed_sum: i32 = prover.calculate_sum();
    proof {
        let polynomial = |x: Seq<i32>| example_polynomial(x);
        assert forall|x: Seq<i32>| is_assignment(x, 5) implies #[trigger] (prover.oracle())(x) == polynomial(
            x,
        ) by {
            assert(prover.defined_at(x));
        }
        lemma_sum_over_completions_agrees(prover.oracle(), polynomial, 5, Seq::empty());
        lemma_example_polynomial_sum();
    }
    let verifier = Verifier::new(num_vars);
    let accepted: bool = verifier.verify(claimed_sum, &prover);
    (claimed_sum, accepted)
}

} // verus!
