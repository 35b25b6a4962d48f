//! The order in which questions are presented: a permutation of their
//! indices, drawn from a seed.

use vstd::prelude::*;

verus! {

/// The indices of a vector as mathematical integers.
pub open spec fn ints(v: Seq<usize>) -> Seq<int> {
    v.map_values(|i: usize| i as int)
}

/// `order` holds each of the indices below `n` exactly once.
pub open spec fn is_permutation(order: Seq<int>, n: nat) -> bool {
    &&& order.len() == n
    &&& forall|i: int| 0 <= i < n ==> 0 <= #[trigger] order[i] < n
    &&& order.no_duplicates()
}

/// The indices below `n` in increasing order.
pub open spec fn identity(n: nat) -> Seq<int> {
    Seq::new(n, |k: int| k)
}

/// `order` with the elements at `i` and `j` exchanged.
pub open spec fn swapped(order: Seq<int>, i: int, j: int) -> Seq<int> {
    if 0 <= i < order.len() && 0 <= j < order.len() {
        order.update(i, order[j]).update(j, order[i])
    } else {
        order
    }
}

/// What the generator multiplies its state by.
pub const MULTIPLIER: u64 = 6364136223846793005;

/// What the generator adds to its state.
pub const INCREMENT: u64 = 1442695040888963407;

/// The inverse of the multiplier modulo two to the power of 64.
pub const INVERSE: u64 = 13877824140714322085;

/// The state that follows `state` in the generator: one step of a linear
/// congruential sequence modulo two to the power of 64.
#[verifier::opaque]
pub open spec fn advance(state: u64) -> u64 {
    state.wrapping_mul(MULTIPLIER).wrapping_add(INCREMENT)
}

/// The number below `bound` that a state of the generator draws: its upper
/// half, reduced by `bound`.
#[verifier::opaque]
pub open spec fn draw(state: u64, bound: int) -> int {
    ((state >> 32u64) as int) % bound
}

/// A draw is a number below its bound.
pub proof fn lemma_draw_in_range(state: u64, bound: int)
    requires
        bound > 0,
    ensures
        0 <= draw(state, bound) < bound,
{
    reveal(draw);
    let upper = (state >> 32u64) as int;
    assert(0 <= upper % bound < bound) by (nonlinear_arith)
        requires
            bound > 0,
    ;
}

/// The outcome of shuffling `order` from position `i` on: each position in
/// turn receives an element drawn from those not yet placed. With the
/// order comes the state in which the generator is left.
pub open spec fn shuffle_from(order: Seq<int>, i: int, state: u64) -> (Seq<int>, u64)
    decreases order.len() - i,
{
    if i < 0 || i + 1 >= order.len() {
        (order, state)
    } else {
        let next = advance(state);
        shuffle_from(swapped(order, i, i + draw(next, order.len() - i)), i + 1, next)
    }
}

/// The permutation of the indices below `n` that `seed` stands for, and the
/// state in which the generator is left.
pub open spec fn shuffled(n: nat, seed: u64) -> (Seq<int>, u64) {
    shuffle_from(identity(n), 0, seed)
}

/// Exchanging two elements of a permutation gives a permutation.
proof fn lemma_swapped_permutation(order: Seq<int>, n: nat, i: int, j: int)
    requires
        is_permutation(order, n),
        0 <= i < n,
        0 <= j < n,
    ensures
        is_permutation(swapped(order, i, j), n),
{
}

/// Shuffling a permutation gives a permutation and leaves the positions
/// before `i` as they are.
proof fn lemma_shuffle_from(order: Seq<int>, n: nat, i: int, state: u64)
    requires
        is_permutation(order, n),
        0 <= i,
    ensures
        is_permutation(shuffle_from(order, i, state).0, n),
        forall|k: int| 0 <= k < i && k < n ==> shuffle_from(order, i, state).0[k] == order[k],
    decreases order.len() - i,
{
    if i + 1 < order.len() {
        let next = advance(state);
        let j = i + draw(next, order.len() - i);
        lemma_draw_in_range(next, order.len() - i);
        let stepped = swapped(order, i, j);
        lemma_swapped_permutation(order, n, i, j);
        lemma_shuffle_from(stepped, n, i + 1, next);
        assert forall|k: int| 0 <= k < i && k < n implies shuffle_from(order, i, state).0[k]
            == order[k] by {
            assert(stepped[k] == order[k]);
        }
    }
}

/// Every seed stands for a permutation.
pub proof fn lemma_shuffled_permutation(n: nat, seed: u64)
    ensures
        is_permutation(shuffled(n, seed).0, n),
{
    lemma_shuffle_from(identity(n), n, 0, seed);
}

/// The index that comes first is the first draw of the generator.
pub proof fn lemma_first_of_shuffled(n: nat, seed: u64)
    requires
        n >= 2,
    ensures
        shuffled(n, seed).0[0] == draw(advance(seed), n as int),
{
    let next = advance(seed);
    let j = draw(next, n as int);
    lemma_draw_in_range(next, n as int);
    let start = swapped(identity(n), 0, j);
    lemma_swapped_permutation(identity(n), n, 0, j);
    lemma_shuffle_from(start, n, 1, next);
    assert(start[0] == j);
}

/// The state before `state` in the generator: the one that `state` follows.
pub open spec fn retreat(state: u64) -> u64 {
    state.wrapping_sub(INCREMENT).wrapping_mul(INVERSE)
}

/// Every state of the generator follows one: the generator steps through
/// all states.
pub proof fn lemma_retreat(state: u64)
    ensures
        advance(retreat(state)) == state,
{
    reveal(advance);
    let back = state.wrapping_sub(INCREMENT);
    assert(MULTIPLIER.wrapping_mul(back.wrapping_mul(INVERSE)) == back) by (bit_vector)
        requires
            MULTIPLIER == 6364136223846793005u64,
            INVERSE == 13877824140714322085u64,
    ;
    assert(back.wrapping_add(INCREMENT) == state) by (bit_vector)
        requires
            back == state.wrapping_sub(INCREMENT),
    ;
}

/// A seed under which the generator first draws `k`, whatever the bound
/// above `k`.
pub open spec fn seed_drawing(k: u32) -> u64 {
    retreat((k as u64) << 32u64)
}

/// Every question can come first: for each of `n` questions there is a seed
/// that puts it first.
pub proof fn lemma_any_question_first(n: nat, k: u32)
    requires
        k < n,
    ensures
        shuffled(n, seed_drawing(k)).0[0] == k,
{
    let seed = seed_drawing(k);
    let wide = k as u64;
    lemma_retreat(wide << 32u64);
    if n >= 2 {
        lemma_first_of_shuffled(n, seed);
        reveal(draw);
        assert((wide << 32u64) >> 32u64 == wide) by (bit_vector)
            requires
                wide <= 0xffff_ffffu64,
        ;
        assert((k as int) % (n as int) == k) by (nonlinear_arith)
            requires
                0 <= k < n,
        ;
    }
}

/// The order of presentation is not fixed: for two or more questions there
/// are seeds that give different orders.
pub proof fn lemma_order_depends_on_seed(n: nat)
    requires
        n >= 2,
    ensures
        shuffled(n, seed_drawing(0)).0 != shuffled(n, seed_drawing(1)).0,
{
    lemma_any_question_first(n, 0);
    lemma_any_question_first(n, 1);
}

/// A seed under which the question at index `k` is presented first.
pub fn seed_presenting(k: u32) -> (seed: u64)
    ensures
        seed == seed_drawing(k),
{
    let wide: u64 = k as u64;
    let target: u64 = wide << 32;
    target.wrapping_sub(INCREMENT).wrapping_mul(INVERSE)
}

/// The state that follows `state` in the generator.
pub fn next_state(state: u64) -> (next: u64)
    ensures
        next == advance(state),
{
    reveal(advance);
    state.wrapping_mul(MULTIPLIER).wrapping_add(INCREMENT)
}

/// Draws the order of presentation for `n` questions from `seed`. The same
/// seed always gives the same order. Returned with the order is the state
/// of the generator, to draw the next order from.
pub fn shuffle(n: usize, seed: u64) -> (drawn: (Vec<usize>, u64))
    ensures
        ints(drawn.0@) == shuffled(n as nat, seed).0,
        drawn.1 == shuffled(n as nat, seed).1,
        is_permutation(ints(drawn.0@), n as nat),
{
    let mut order: Vec<usize> = Vec::new();
    let mut k: usize = 0;
    while k < n
        invariant
            k <= n,
            order@.len() == k,
            forall|m: int| 0 <= m < k ==> order@[m] == m,
        decreases n - k,
    {
        order.push(k);
        k += 1;
    }
    assert(ints(order@) =~= identity(n as nat));
    let mut state: u64 = seed;
    let mut i: usize = 0;
    while n - i > 1
        invariant
            i <= n,
            order@.len() == n,
            is_permutation(ints(order@), n as nat),
            shuffle_from(ints(order@), i as int, state) == shuffled(n as nat, seed),
        decreases n - i,
    {
        state = next_state(state);
        let upper: u64 = state >> 32;
        assert(upper <= 0xffff_ffff) by (bit_vector)
            requires
                upper == state >> 32u64,
        ;
        let j: usize = i + (upper as usize) % (n - i);
        proof {
            reveal(draw);
            lemma_draw_in_range(state, n - i);
        }
        let ghost before = ints(order@);
        let a = order[i];
        let b = order[j];
        order.set(i, b);
        order.set(j, a);
        proof {
            assert(ints(order@) =~= swapped(before, i as int, j as int));
            lemma_swapped_permutation(before, n as nat, i as int, j as int);
        }
        i += 1;
    }
    proof {
        lemma_shuffled_permutation(n as nat, seed);
    }
    (order, state)
}

} // verus!
