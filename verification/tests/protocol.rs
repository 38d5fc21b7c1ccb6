use std::cell::Cell;

use sumcheck::example::{example_function, run_example};
use sumcheck::hypercube::decode_assignment;
use sumcheck::prover::{Prover, MAX_VARS};
use sumcheck::session::{Transcript, Verdict, Verifier};

fn pair_sum(x: &[i32]) -> i32 {
    x[0] + x[1]
}

fn weighted(x: &[i32]) -> i32 {
    3 * x[0] - 5 * x[1] + 7 * x[0] * x[2] + 11 * x[1] * x[2] * x[3] - 2
}

fn brute_force(f: &dyn Fn(&[i32]) -> i32, n: usize, prefix: &[i32]) -> i32 {
    if prefix.len() == n {
        return f(prefix);
    }
    let mut zero = prefix.to_vec();
    zero.push(0);
    let mut one = prefix.to_vec();
    one.push(1);
    brute_force(f, n, &zero) + brute_force(f, n, &one)
}

fn all_challenges(n: usize) -> Vec<Vec<i32>> {
    (0..(1u64 << n)).map(|i| decode_assignment(i, n)).collect()
}

#[test]
fn decode_assignment_unpacks_least_significant_bit_first() {
    assert_eq!(decode_assignment(5, 4), vec![1, 0, 1, 0]);
    assert_eq!(decode_assignment(6, 3), vec![0, 1, 1]);
    assert_eq!(decode_assignment(1, 1), vec![1]);
    assert_eq!(decode_assignment(0b1011, 2), vec![1, 1]);
}

#[test]
fn decode_assignment_of_no_variables_is_empty() {
    assert_eq!(decode_assignment(0, 0), Vec::<i32>::new());
    assert_eq!(decode_assignment(17, 0), Vec::<i32>::new());
}

#[test]
fn decode_assignment_pads_with_zeros_beyond_the_index_width() {
    let bits = decode_assignment(u64::MAX, 70);
    assert_eq!(bits.len(), 70);
    assert!(bits[..64].iter().all(|b| *b == 1));
    assert!(bits[64..].iter().all(|b| *b == 0));
    assert_eq!(decode_assignment(1u64 << 63, 64)[63], 1);
}

#[test]
fn decode_assignment_enumerates_every_assignment_once() {
    let seen = all_challenges(4);
    assert_eq!(seen.len(), 16);
    for (i, a) in seen.iter().enumerate() {
        assert_eq!(a.len(), 4);
        assert!(a.iter().all(|b| *b == 0 || *b == 1));
        for b in seen.iter().skip(i + 1) {
            assert_ne!(a, b);
        }
    }
}

#[test]
fn calculate_sum_of_pair_sum_is_four() {
    let prover = Prover::new(pair_sum, 2);
    assert_eq!(prover.calculate_sum(), 4);
}

#[test]
fn calculate_sum_with_no_variables_is_the_single_value() {
    let prover = Prover::new(|x: &[i32]| 42 + x.len() as i32, 0);
    assert_eq!(prover.calculate_sum(), 42);
}

#[test]
fn calculate_sum_matches_brute_force() {
    let prover = Prover::new(weighted, 4);
    assert_eq!(prover.calculate_sum(), brute_force(&weighted, 4, &[]));
    assert_eq!(prover.calculate_sum(), 3 * 8 - 5 * 8 + 7 * 4 + 11 * 2 - 2 * 16);
}

#[test]
fn calculate_sum_accepts_a_boxed_function() {
    let boxed: Box<dyn Fn(&[i32]) -> i32> = Box::new(example_function);
    let prover = Prover::new(boxed, 5);
    assert_eq!(prover.calculate_sum(), 44);
}

#[test]
fn sum_completions_of_a_full_assignment_is_one_evaluation() {
    let prover = Prover::new(pair_sum, 2);
    let tally = prover.sum_completions(&[1, 1]);
    assert_eq!(tally.sum, 2);
    assert_eq!(tally.oracle_calls, 1);
}

#[test]
fn sum_completions_sums_what_follows_the_prefix() {
    let prover = Prover::new(weighted, 4);
    for prefix in [vec![], vec![1], vec![0, 1], vec![1, 1, 0], vec![1, 1, 1, 1]] {
        let tally = prover.sum_completions(&prefix);
        assert_eq!(tally.sum, brute_force(&weighted, 4, &prefix));
        assert_eq!(tally.oracle_calls, 1u64 << (4 - prefix.len()));
    }
}

#[test]
fn evaluate_polynomial_of_pair_sum() {
    let prover = Prover::new(pair_sum, 2);
    assert_eq!(prover.evaluate_polynomial(&[], 0), [1, 3]);
    assert_eq!(prover.evaluate_polynomial(&[0], 1), [0, 1]);
    assert_eq!(prover.evaluate_polynomial(&[1], 1), [1, 2]);
}

#[test]
fn evaluate_polynomial_values_add_up_to_the_sum_over_the_prefix() {
    let prover = Prover::new(weighted, 4);
    for i in 0..4usize {
        for fixed in all_challenges(i) {
            let [f0, f1] = prover.evaluate_polynomial(&fixed, i);
            let mut zero = fixed.clone();
            zero.push(0);
            let mut one = fixed.clone();
            one.push(1);
            assert_eq!(f0, brute_force(&weighted, 4, &zero));
            assert_eq!(f1, brute_force(&weighted, 4, &one));
            assert_eq!(f0 + f1, brute_force(&weighted, 4, &fixed));
        }
    }
}

#[test]
fn calculate_sum_calls_the_oracle_once_per_assignment() {
    for n in 0..=6usize {
        let calls = Cell::new(0u64);
        let prover = Prover::new(
            |x: &[i32]| {
                calls.set(calls.get() + 1);
                x.iter().sum()
            },
            n,
        );
        prover.calculate_sum();
        assert_eq!(calls.get(), 1u64 << n);
    }
}

#[test]
fn evaluate_polynomial_calls_the_oracle_once_per_completion() {
    let n = 5usize;
    for i in 0..n {
        let calls = Cell::new(0u64);
        let prover = Prover::new(
            |x: &[i32]| {
                assert_eq!(x.len(), 5);
                calls.set(calls.get() + 1);
                x.iter().sum()
            },
            n,
        );
        let fixed = vec![1; i];
        prover.evaluate_polynomial(&fixed, i);
        assert_eq!(calls.get(), 1u64 << (n - i));
    }
}

#[test]
fn calculate_sum_counted_reports_one_call_per_assignment() {
    for n in 0..=6usize {
        let calls = Cell::new(0u64);
        let prover = Prover::new(
            |x: &[i32]| {
                calls.set(calls.get() + 1);
                x.iter().sum()
            },
            n,
        );
        let tally = prover.calculate_sum_counted();
        assert_eq!(tally.oracle_calls, 1u64 << n);
        assert_eq!(tally.oracle_calls, calls.get());
        assert_eq!(tally.sum, (n as i32) * (1 << n) / 2);
    }
}

#[test]
fn evaluate_polynomial_counted_reports_one_call_per_completion() {
    let n = 5usize;
    for i in 0..n {
        let calls = Cell::new(0u64);
        let prover = Prover::new(
            |x: &[i32]| {
                calls.set(calls.get() + 1);
                x[0] + 2 * x[4]
            },
            n,
        );
        let fixed = vec![0; i];
        let (message, reported) = prover.evaluate_polynomial_counted(&fixed, i);
        assert_eq!(reported, 1u64 << (n - i));
        assert_eq!(reported, calls.get());
        assert_eq!(message, prover.evaluate_polynomial(&fixed, i));
    }
    let prover = Prover::new(pair_sum, 2);
    assert_eq!(prover.evaluate_polynomial_counted(&[], 0), ([1, 3], 4));
    assert_eq!(prover.evaluate_polynomial_counted(&[1], 1), ([1, 2], 2));
}

#[test]
fn transcript_starts_with_the_claim_and_no_challenge() {
    let transcript = Transcript::new(-7);
    assert_eq!(transcript.running_sum, -7);
    assert!(transcript.fixed_inputs.is_empty());
    assert_eq!(transcript.round(), 0);
}

#[test]
fn transcript_matches_only_the_exact_total() {
    let transcript = Transcript::new(4);
    assert!(transcript.matches(&[1, 3]));
    assert!(transcript.matches(&[2, 2]));
    assert!(!transcript.matches(&[2, 3]));
    assert!(!transcript.matches(&[i32::MAX, i32::MAX]));
    assert!(!Transcript::new(-2).matches(&[i32::MAX, i32::MAX]));
    assert!(Transcript::new(-1).matches(&[i32::MAX, i32::MIN]));
}

#[test]
fn transcript_advance_interpolates_at_the_challenge() {
    let mut transcript = Transcript::new(10);
    transcript.advance(&[3, 7], 1);
    assert_eq!(transcript.running_sum, 7);
    assert_eq!(transcript.fixed_inputs, vec![1]);
    assert_eq!(transcript.round(), 1);
    transcript.advance(&[-4, 11], 0);
    assert_eq!(transcript.running_sum, -4);
    assert_eq!(transcript.fixed_inputs, vec![1, 0]);
    assert_eq!(transcript.round(), 2);
    transcript.advance(&[i32::MIN, i32::MAX], 1);
    assert_eq!(transcript.running_sum, i32::MAX);
    transcript.advance(&[i32::MIN, i32::MAX], 0);
    assert_eq!(transcript.running_sum, i32::MIN);
}

#[test]
fn true_sum_is_accepted_for_every_challenge_sequence() {
    let oracles: [(&dyn Fn(&[i32]) -> i32, usize); 4] =
        [(&pair_sum, 2), (&weighted, 4), (&|x: &[i32]| 1 - x[0], 1), (&|x: &[i32]| x[2] * 9 - x[0], 3)];
    for (f, n) in oracles {
        let prover = Prover::new(f, n);
        let total = prover.calculate_sum();
        let verifier = Verifier::new(n);
        for challenges in all_challenges(n) {
            assert_eq!(verifier.verify_with_challenges(total, &prover, &challenges), Verdict::Accept);
        }
    }
}

#[test]
fn running_sum_is_the_sum_over_completions_at_every_round() {
    let n = 4usize;
    let prover = Prover::new(weighted, n);
    let total = prover.calculate_sum();
    for challenges in all_challenges(n) {
        let mut transcript = Transcript::new(total);
        for i in 0..n {
            assert_eq!(transcript.round(), i);
            assert_eq!(transcript.running_sum, brute_force(&weighted, n, &transcript.fixed_inputs));
            let message = prover.evaluate_polynomial(&transcript.fixed_inputs, i);
            assert!(transcript.matches(&message));
            transcript.advance(&message, challenges[i]);
        }
        assert_eq!(transcript.fixed_inputs, challenges);
        assert_eq!(transcript.running_sum, weighted(&challenges));
    }
}

#[test]
fn running_sum_after_a_wrong_claim_is_exact_from_the_second_round() {
    let prover = Prover::new(pair_sum, 2);
    let mut transcript = Transcript::new(5);
    assert_ne!(transcript.running_sum, brute_force(&pair_sum, 2, &[]));
    let message = prover.evaluate_polynomial(&transcript.fixed_inputs, 0);
    assert!(!transcript.matches(&message));
    transcript.advance(&message, 1);
    assert_eq!(transcript.running_sum, brute_force(&pair_sum, 2, &[1]));
}

#[test]
fn wrong_sum_is_rejected_in_the_first_round_for_every_challenge_sequence() {
    let n = 4usize;
    let prover = Prover::new(weighted, n);
    let total = prover.calculate_sum();
    let [f0, f1] = prover.evaluate_polynomial(&[], 0);
    let verifier = Verifier::new(n);
    for k in [-100, -1, 1, 2, 1000] {
        for challenges in all_challenges(n) {
            assert_eq!(
                verifier.verify_with_challenges(total + k, &prover, &challenges),
                Verdict::Reject { round: 0, expected: total + k, f0, f1 }
            );
        }
        assert!(!verifier.verify(total + k, &prover));
    }
}

#[test]
fn with_no_variables_every_claim_is_accepted() {
    let prover = Prover::new(|_: &[i32]| 9, 0);
    let verifier = Verifier::new(0);
    assert_eq!(prover.calculate_sum(), 9);
    assert_eq!(verifier.verify_with_challenges(9, &prover, &[]), Verdict::Accept);
    assert_eq!(verifier.verify_with_challenges(10, &prover, &[]), Verdict::Accept);
    assert!(verifier.verify(9, &prover));
    assert!(verifier.verify(10, &prover));
}

#[test]
fn pair_sum_true_claim_is_accepted_for_all_four_challenge_pairs() {
    let prover = Prover::new(pair_sum, 2);
    let verifier = Verifier::new(2);
    assert_eq!(prover.calculate_sum(), 4);
    for challenges in [[0, 0], [0, 1], [1, 0], [1, 1]] {
        assert_eq!(verifier.verify_with_challenges(4, &prover, &challenges), Verdict::Accept);
    }
    assert!(verifier.verify(4, &prover));
}

#[test]
fn pair_sum_false_claim_is_rejected_at_round_zero() {
    let prover = Prover::new(pair_sum, 2);
    let verifier = Verifier::new(2);
    assert!(!verifier.verify(5, &prover));
    for challenges in [[0, 0], [0, 1], [1, 0], [1, 1]] {
        let verdict = verifier.verify_with_challenges(5, &prover, &challenges);
        assert_eq!(verdict, Verdict::Reject { round: 0, expected: 5, f0: 1, f1: 3 });
        match verdict {
            Verdict::Reject { round, expected, f0, f1 } => {
                assert_eq!(round, 0);
                assert_eq!(f0 + f1, 4);
                assert_ne!(f0 + f1, expected);
            }
            Verdict::Accept => panic!("a wrong claim was accepted"),
        }
    }
}

#[test]
fn five_variable_polynomial_sums_to_its_brute_force_total_and_is_accepted() {
    let prover = Prover::new(example_function, 5);
    let claimed = prover.calculate_sum();
    assert_eq!(claimed, brute_force(&example_function, 5, &[]));
    assert_eq!(claimed, 44);
    let verifier = Verifier::new(5);
    assert_eq!(verifier.verify_with_challenges(claimed, &prover, &[0, 0, 0, 0, 0]), Verdict::Accept);
    assert_eq!(verifier.verify_with_challenges(claimed, &prover, &[1, 0, 1, 1, 0]), Verdict::Accept);
    assert!(verifier.verify(claimed, &prover));
}

#[test]
fn example_function_evaluates_the_polynomial() {
    assert_eq!(example_function(&[0, 0, 0, 0, 0]), 0);
    assert_eq!(example_function(&[1, 0, 0, 0, 0]), 2);
    assert_eq!(example_function(&[0, 1, 0, 0, 0]), 1);
    assert_eq!(example_function(&[1, 1, 1, 0, 0]), 4);
    assert_eq!(example_function(&[0, 0, 0, 1, 0]), -1);
    assert_eq!(example_function(&[0, 1, 0, 0, 1]), 2);
    assert_eq!(example_function(&[1, 1, 1, 1, 1]), 4);
    assert_eq!(example_function(&[1, 1, 1, 0, 1]), 5);
}

#[test]
fn run_example_reports_the_sum_and_acceptance() {
    assert_eq!(run_example(), (44, true));
}

#[test]
fn random_challenges_never_change_the_answer() {
    let prover = Prover::new(weighted, 4);
    let total = prover.calculate_sum();
    let verifier = Verifier::new(4);
    for _ in 0..200 {
        assert!(verifier.verify(total, &prover));
        assert!(!verifier.verify(total + 1, &prover));
    }
}

#[test]
fn random_challenges_take_both_values_and_no_other() {
    let calls = Cell::new(0u32);
    let zeros = Cell::new(0u32);
    let ones = Cell::new(0u32);
    let prover = Prover::new(
        |x: &[i32]| {
            calls.set(calls.get() + 1);
            // The first round takes four evaluations; in the second,
            // variable 0 holds the challenge of the first.
            if calls.get() > 4 {
                match x[0] {
                    0 => zeros.set(zeros.get() + 1),
                    1 => ones.set(ones.get() + 1),
                    other => panic!("challenge {} is not a bit", other),
                }
            }
            x[0] + x[1]
        },
        2,
    );
    let verifier = Verifier::new(2);
    for _ in 0..200 {
        calls.set(0);
        assert!(verifier.verify(4, &prover));
        assert_eq!(calls.get(), 6);
    }
    assert_eq!(zeros.get() + ones.get(), 400);
    assert!(zeros.get() > 0);
    assert!(ones.get() > 0);
}

#[test]
fn rejected_claim_stops_after_the_first_message() {
    let calls = Cell::new(0u32);
    let prover = Prover::new(
        |x: &[i32]| {
            calls.set(calls.get() + 1);
            x[0] + x[1] + x[2]
        },
        3,
    );
    let verifier = Verifier::new(3);
    assert!(!verifier.verify(13, &prover));
    assert_eq!(calls.get(), 8);
    calls.set(0);
    assert_eq!(
        verifier.verify_with_challenges(13, &prover, &[1, 1, 1]),
        Verdict::Reject { round: 0, expected: 13, f0: 4, f1: 8 }
    );
    assert_eq!(calls.get(), 8);
    calls.set(0);
    assert!(verifier.verify(12, &prover));
    assert_eq!(calls.get(), 8 + 4 + 2);
}

#[test]
fn sums_near_the_edge_of_the_integer_range() {
    let big = |x: &[i32]| if x[0] == 1 { i32::MAX } else { i32::MIN + 1 };
    let prover = Prover::new(big, 1);
    assert_eq!(prover.calculate_sum(), 0);
    assert_eq!(prover.evaluate_polynomial(&[], 0), [i32::MIN + 1, i32::MAX]);
    let verifier = Verifier::new(1);
    assert_eq!(verifier.verify_with_challenges(0, &prover, &[1]), Verdict::Accept);
    assert_eq!(
        verifier.verify_with_challenges(1, &prover, &[0]),
        Verdict::Reject { round: 0, expected: 1, f0: i32::MIN + 1, f1: i32::MAX }
    );
}

#[test]
fn max_vars_leaves_room_for_the_index() {
    assert_eq!(MAX_VARS, 63);
    assert_eq!(decode_assignment(1u64 << (MAX_VARS - 1), MAX_VARS)[MAX_VARS - 1], 1);
}
