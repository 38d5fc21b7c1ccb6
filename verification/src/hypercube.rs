//! The boolean hypercube `{0,1}^n`: assignments, the index-to-assignment
//! decoder, and sums of a function over all completions of a partial
//! assignment.
use vstd::arithmetic::div_mod::{lemma_basic_div, lemma_div_denominator};
use vstd::arithmetic::power2::{lemma2_to64, lemma_pow2_pos, lemma_pow2_strictly_increases, lemma_pow2_unfold, pow2};
use vstd::bits::lemma_u64_shr_is_div;
use vstd::prelude::*;

verus! {

/// Every entry of `x` is `0` or `1`.
pub open spec fn is_bits(x: Seq<i32>) -> bool {
    forall|j: int| 0 <= j < x.len() ==> #[trigger] x[j] == 0 || x[j] == 1
}

/// `x` assigns a boolean value to each of `n` variables.
pub open spec fn is_assignment(x: Seq<i32>, n: nat) -> bool {
    x.len() == n && is_bits(x)
}

/// Binary digit `j` of `index`, least significant first.
pub open spec fn bit_of(index: nat, j: nat) -> i32 {
    ((index / pow2(j)) % 2) as i32
}

/// The first `k` binary digits of `index`, least significant first.
pub open spec fn unpack(index: nat, k: nat) -> Seq<i32> {
    Seq::new(k, |j: int| bit_of(index, j as nat))
}

/// The sum of `f` over every assignment of `n` variables that starts with
/// `prefix`. A prefix that already names all `n` variables is its own only
/// completion.
pub open spec fn sum_over_completions(f: spec_fn(Seq<i32>) -> int, n: nat, prefix: Seq<i32>) -> int
    decreases n - prefix.len(),
{
    if prefix.len() >= n {
        f(prefix)
    } else {
        sum_over_completions(f, n, prefix.push(0)) + sum_over_completions(f, n, prefix.push(1))
    }
}

/// The sum of `f` over the whole hypercube of `n` variables.
pub open spec fn hypercube_sum(f: spec_fn(Seq<i32>) -> int, n: nat) -> int {
    sum_over_completions(f, n, Seq::empty())
}

/// The sum of `f` over the first `count` completions of `prefix` by `k` more
/// variables, completion number `i` being `prefix` followed by `unpack(i, k)`.
pub open spec fn indexed_sum(f: spec_fn(Seq<i32>) -> int, prefix: Seq<i32>, k: nat, count: nat) -> int
    decreases count,
{
    if count == 0 {
        0
    } else {
        indexed_sum(f, prefix, k, (count - 1) as nat) + f(prefix + unpack((count - 1) as nat, k))
    }
}

/// Each decoded digit is a bit.
pub proof fn lemma_unpack_is_assignment(index: nat, k: nat)
    ensures
        is_assignment(unpack(index, k), k),
{
    assert forall|j: int| 0 <= j < unpack(index, k).len() implies #[trigger] unpack(index, k)[j] == 0
        || unpack(index, k)[j] == 1 by {
        lemma_pow2_pos(j as nat);
    }
}

/// The lowest digit splits off: the remaining digits are those of `index / 2`.
pub proof fn lemma_unpack_step(index: nat, k: nat)
    requires
        k > 0,
    ensures
        unpack(index, k) == seq![(index % 2) as i32] + unpack(index / 2, (k - 1) as nat),
{
    let whole = unpack(index, k);
    let split = seq![(index % 2) as i32] + unpack(index / 2, (k - 1) as nat);
    assert forall|j: int| 0 <= j < k implies whole[j] == split[j] by {
        if j == 0 {
            lemma2_to64();
        } else {
            let rest = pow2((j - 1) as nat) as int;
            lemma_pow2_pos((j - 1) as nat);
            lemma_pow2_unfold(j as nat);
            lemma_div_denominator(index as int, 2, rest);
            assert(pow2(j as nat) == 2 * rest);
            assert(index as int / pow2(j as nat) as int == (index as int / 2) / rest);
        }
    }
    assert(whole =~= split);
}

/// Decodes `index` into the assignment of `k` variables whose variable `j` is
/// binary digit `j` of `index`.
pub fn decode_assignment(index: u64, k: usize) -> (bits: Vec<i32>)
    ensures
        bits@ == unpack(index as nat, k as nat),
{
    let mut bits: Vec<i32> = Vec::new();
    let mut j: usize = 0;
    while j < k
        invariant
            j <= k,
            bits@ == unpack(index as nat, j as nat),
        decreases k - j,
    {
        let bit: i32 = if j < 64 {
            let shifted: u64 = index >> (j as u64);
            proof {
                lemma_u64_shr_is_div(index, j as u64);
                assert(shifted & 1 == shifted % 2) by (bit_vector);
            }
            (shifted & 1) as i32
        } else {
            proof {
                lemma2_to64();
                if j > 64 {
                    lemma_pow2_strictly_increases(64, j as nat);
                }
                lemma_basic_div(index as int, pow2(j as nat) as int);
            }
            0
        };
        assert(bit == bit_of(index as nat, j as nat));
        bits.push(bit);
        j += 1;
        assert(bits@ =~= unpack(index as nat, j as nat));
    }
    bits
}

/// The index whose binary digits are `bits`, least significant first.
pub open spec fn pack(bits: Seq<i32>) -> nat
    decreases bits.len(),
{
    if bits.len() == 0 {
        0
    } else {
        (if bits[0] == 1 {
            1nat
        } else {
            0nat
        }) + 2 * pack(bits.drop_first())
    }
}

/// Every assignment of `k` variables is decoded from an index below `2^k`,
/// the one that `pack` gives.
pub proof fn lemma_unpack_pack(bits: Seq<i32>)
    requires
        is_bits(bits),
    ensures
        pack(bits) < pow2(bits.len()),
        unpack(pack(bits), bits.len()) == bits,
    decreases bits.len(),
{
    let k = bits.len();
    if k == 0 {
        lemma2_to64();
        assert(unpack(0, 0) =~= bits);
    } else {
        let rest = bits.drop_first();
        assert(bits[0] == 0 || bits[0] == 1);
        assert forall|j: int| 0 <= j < rest.len() implies #[trigger] rest[j] == 0 || rest[j] == 1 by {
            assert(rest[j] == bits[j + 1]);
        }
        lemma_unpack_pack(rest);
        lemma_pow2_unfold(k);
        lemma_unpack_step(pack(bits), k);
        assert(unpack(pack(bits), k) =~= bits);
    }
}

/// Completions `2m` and `2m + 1` of `prefix` differ only in the first free
/// variable, so the first `2m` completions of `prefix` are the first `m`
/// completions of `prefix.push(0)` together with those of `prefix.push(1)`.
pub proof fn lemma_indexed_sum_pairs(f: spec_fn(Seq<i32>) -> int, prefix: Seq<i32>, k: nat, m: nat)
    requires
        k > 0,
    ensures
        indexed_sum(f, prefix, k, 2 * m) == indexed_sum(f, prefix.push(0), (k - 1) as nat, m)
            + indexed_sum(f, prefix.push(1), (k - 1) as nat, m),
    decreases m,
{
    if m > 0 {
        let below = (m - 1) as nat;
        let rest = unpack(below, (k - 1) as nat);
        lemma_indexed_sum_pairs(f, prefix, k, below);
        lemma_unpack_step(2 * below, k);
        lemma_unpack_step(2 * below + 1, k);
        assert(prefix + unpack(2 * below, k) =~= prefix.push(0) + rest);
        assert(prefix + unpack(2 * below + 1, k) =~= prefix.push(1) + rest);
        assert(indexed_sum(f, prefix, k, 2 * m) == indexed_sum(f, prefix, k, (2 * m - 1) as nat) + f(
            prefix + unpack((2 * m - 1) as nat, k),
        ));
        assert(indexed_sum(f, prefix, k, (2 * m - 1) as nat) == indexed_sum(f, prefix, k, 2 * below) + f(
            prefix + unpack(2 * below, k),
        ));
    }
}

/// Walking the indices `0 .. 2^k` visits every completion of `prefix` once:
/// the indexed sum over all of them is the sum over completions.
pub proof fn lemma_indexed_sum_is_sum_over_completions(
    f: spec_fn(Seq<i32>) -> int,
    n: nat,
    prefix: Seq<i32>,
    k: nat,
)
    requires
        prefix.len() + k == n,
    ensures
        indexed_sum(f, prefix, k, pow2(k)) == sum_over_completions(f, n, prefix),
    decreases k,
{
    if k == 0 {
        lemma2_to64();
        assert(prefix + unpack(0, 0) =~= prefix);
        assert(indexed_sum(f, prefix, 0, 1) == indexed_sum(f, prefix, 0, 0) + f(prefix + unpack(0, 0)));
    } else {
        let half = pow2((k - 1) as nat);
        lemma_pow2_unfold(k);
        lemma_indexed_sum_pairs(f, prefix, k, half);
        lemma_indexed_sum_is_sum_over_completions(f, n, prefix.push(0), (k - 1) as nat);
        lemma_indexed_sum_is_sum_over_completions(f, n, prefix.push(1), (k - 1) as nat);
    }
}

/// The sum over completions looks at `f` on assignments only: two functions
/// that agree on every assignment of `n` variables have the same sums.
pub proof fn lemma_sum_over_completions_agrees(
    f: spec_fn(Seq<i32>) -> int,
    g: spec_fn(Seq<i32>) -> int,
    n: nat,
    prefix: Seq<i32>,
)
    requires
        prefix.len() <= n,
        is_bits(prefix),
        forall|x: Seq<i32>| is_assignment(x, n) ==> #[trigger] f(x) == g(x),
    ensures
        sum_over_completions(f, n, prefix) == sum_over_completions(g, n, prefix),
    decreases n - prefix.len(),
{
    if prefix.len() < n {
        lemma_sum_over_completions_agrees(f, g, n, prefix.push(0));
        lemma_sum_over_completions_agrees(f, g, n, prefix.push(1));
    } else {
        assert(is_assignment(prefix, n));
    }
}

/// If `f` stays within `[lo, hi]` on every assignment, its sum over the `2^k`
/// completions of a prefix stays within `[2^k * lo, 2^k * hi]`.
pub proof fn lemma_sum_over_completions_bounds(
    f: spec_fn(Seq<i32>) -> int,
    n: nat,
    prefix: Seq<i32>,
    lo: int,
    hi: int,
)
    requires
        prefix.len() <= n,
        is_bits(prefix),
        forall|x: Seq<i32>| is_assignment(x, n) ==> lo <= #[trigger] f(x) <= hi,
    ensures
        pow2((n - prefix.len()) as nat) * lo <= sum_over_completions(f, n, prefix) <= pow2(
            (n - prefix.len()) as nat,
        ) * hi,
    decreases n - prefix.len(),
{
    let k = (n - prefix.len()) as nat;
    if k == 0 {
        lemma2_to64();
        assert(is_assignment(prefix, n));
    } else {
        let half = pow2((k - 1) as nat) as int;
        lemma_pow2_unfold(k);
        lemma_sum_over_completions_bounds(f, n, prefix.push(0), lo, hi);
        lemma_sum_over_completions_bounds(f, n, prefix.push(1), lo, hi);
        assert((2 * half) * lo == half * lo + half * lo) by (nonlinear_arith);
        assert((2 * half) * hi == half * hi + half * hi) by (nonlinear_arith);
    }
}

} // verus!
