//! A seeded, repeatable shuffle.
//!
//! The sequence is cut into five contiguous chunks. Every round draws one
//! pseudo-random index per chunk from a linear congruential generator,
//! exchanges chunks accordingly, glues the chunks back together and rotates the
//! result left by one position. The outcome is a function of the input, the
//! seed and the number of rounds alone.

use vstd::prelude::*;
use vstd::pervasive::VecAdditionalExecFns;
use vstd::seq_lib::*;

verus! {

/// Generator states are reduced modulo this value after every step.
pub const LCG_MODULUS: u64 = 4294967296;

/// Multiplier of the generator.
pub const LCG_MULTIPLIER: u64 = 134775813;

/// Number of chunks a sequence is cut into.
pub const CHUNK_COUNT: usize = 5;

/// One step of the linear congruential generator:
/// `state * 134775813 + 1` reduced modulo `2^32`.
pub open spec fn lcg_next(state: u64) -> u64 {
    ((state * 134775813 + 1) % 4294967296) as u64
}

/// The `k`-th chunk of `s`. The first four chunks hold `s.len() / 5` elements
/// each; the last chunk holds what is left, so it also takes the remainder.
pub open spec fn chunk<T>(s: Seq<T>, k: int) -> Seq<T> {
    let size = s.len() as int / 5;
    if k < 4 {
        s.subrange(k * size, (k + 1) * size)
    } else {
        s.subrange(4 * size, s.len() as int)
    }
}

/// The five chunks of `s`, in order.
pub open spec fn chunks<T>(s: Seq<T>) -> Seq<Seq<T>> {
    Seq::new(5, |k: int| chunk(s, k))
}

/// The concatenation of the first `count` groups.
pub open spec fn joined_prefix<T>(groups: Seq<Seq<T>>, count: nat) -> Seq<T>
    decreases count,
{
    if count == 0 {
        Seq::empty()
    } else {
        joined_prefix(groups, (count - 1) as nat) + groups[count - 1]
    }
}

/// The concatenation of all groups, in order.
pub open spec fn joined<T>(groups: Seq<Seq<T>>) -> Seq<T> {
    joined_prefix(groups, groups.len())
}

/// `s` with the entries at `i` and `j` exchanged.
pub open spec fn exchanged<A>(s: Seq<A>, i: int, j: int) -> Seq<A> {
    s.update(i, s[j]).update(j, s[i])
}

/// The chunk order and generator state after the chunk indices below
/// `visited` have been handled: handling index `i` advances the generator and
/// exchanges chunk `i` with the chunk at `state % 5`.
pub open spec fn reordered<T>(groups: Seq<Seq<T>>, state: u64, visited: nat) -> (Seq<Seq<T>>, u64)
    decreases visited,
{
    if visited == 0 {
        (groups, state)
    } else {
        let before = reordered(groups, state, (visited - 1) as nat);
        let next = lcg_next(before.1);
        (exchanged(before.0, visited - 1, (next % 5) as int), next)
    }
}

/// `s` rotated left by `1 % s.len()` positions; sequences of fewer than two
/// elements are left as they are.
pub open spec fn rotated<T>(s: Seq<T>) -> Seq<T> {
    if s.len() <= 1 {
        s
    } else {
        s.subrange(1, s.len() as int).push(s[0])
    }
}

/// One round of the shuffle: the sequence and the generator state after it.
pub open spec fn shuffle_round<T>(s: Seq<T>, state: u64) -> (Seq<T>, u64) {
    let mixed = reordered(chunks(s), lcg_next(state), 5);
    (rotated(joined(mixed.0)), mixed.1)
}

/// The sequence and the generator state after `rounds` rounds.
pub open spec fn shuffle_rounds<T>(s: Seq<T>, state: u64, rounds: nat) -> (Seq<T>, u64)
    decreases rounds,
{
    if rounds == 0 {
        (s, state)
    } else {
        let before = shuffle_rounds(s, state, (rounds - 1) as nat);
        shuffle_round(before.0, before.1)
    }
}

/// The order in which `s` comes out of a shuffle with `seed` and `iterations`
/// rounds.
pub open spec fn shuffled<T>(s: Seq<T>, seed: u64, iterations: nat) -> Seq<T> {
    shuffle_rounds(s, seed, iterations).0
}

/// The contents of each group, in order.
pub open spec fn group_views<T>(groups: Seq<Vec<T>>) -> Seq<Seq<T>> {
    Seq::new(groups.len(), |k: int| groups[k]@)
}

/// Advances the generator by one step.
pub fn lcg_step(state: u64) -> (next: u64)
    ensures
        next == lcg_next(state),
        next < LCG_MODULUS,
{
    let low: u64 = state % LCG_MODULUS;
    assert((state * 134775813 + 1) % 4294967296 == ((state % 4294967296) * 134775813 + 1)
        % 4294967296) by (nonlinear_arith);
    (low * LCG_MULTIPLIER + 1) % LCG_MODULUS
}

/// Moves the elements of `v` into five chunks, leaving `v` empty.
fn split_into_chunks<T>(v: &mut Vec<T>) -> (groups: Vec<Vec<T>>)
    ensures
        final(v)@.len() == 0,
        groups@.len() == 5,
        group_views(groups@) == chunks(old(v)@),
{
    let size: usize = v.len() / CHUNK_COUNT;
    let fifth = v.split_off(4 * size);
    let fourth = v.split_off(3 * size);
    let third = v.split_off(2 * size);
    let second = v.split_off(size);
    let first = v.split_off(0);
    let mut groups: Vec<Vec<T>> = Vec::new();
    groups.push(first);
    groups.push(second);
    groups.push(third);
    groups.push(fourth);
    groups.push(fifth);
    proof {
        let s = old(v)@;
        assert(groups@[0]@ =~= chunk(s, 0));
        assert(groups@[1]@ =~= chunk(s, 1));
        assert(groups@[2]@ =~= chunk(s, 2));
        assert(groups@[3]@ =~= chunk(s, 3));
        assert(groups@[4]@ =~= chunk(s, 4));
        assert(group_views(groups@) =~= chunks(s));
    }
    groups
}

/// Exchanges the groups at `i` and `j`.
fn exchange_groups<T>(groups: &mut Vec<Vec<T>>, i: usize, j: usize)
    requires
        i < old(groups)@.len(),
        j < old(groups)@.len(),
    ensures
        final(groups)@ == exchanged(old(groups)@, i as int, j as int),
        group_views(final(groups)@) == exchanged(group_views(old(groups)@), i as int, j as int),
{
    if i != j {
        let mut held: Vec<T> = Vec::new();
        groups.set_and_swap(i, &mut held);
        groups.set_and_swap(j, &mut held);
        groups.set_and_swap(i, &mut held);
    }
    assert(groups@ =~= exchanged(old(groups)@, i as int, j as int));
    assert(group_views(groups@) =~= exchanged(group_views(old(groups)@), i as int, j as int));
}

/// Visits the five chunk indices in order; at each one the generator is
/// advanced and the chunk is exchanged with the one the generator points at.
fn reorder_chunks<T>(groups: &mut Vec<Vec<T>>, state: u64) -> (next: u64)
    requires
        old(groups)@.len() == 5,
    ensures
        final(groups)@.len() == 5,
        (group_views(final(groups)@), next) == reordered(group_views(old(groups)@), state, 5),
{
    let mut current: u64 = state;
    let mut i: usize = 0;
    while i < CHUNK_COUNT
        invariant
            i <= 5,
            groups@.len() == 5,
            (group_views(groups@), current) == reordered(
                group_views(old(groups)@),
                state,
                i as nat,
            ),
        decreases 5 - i,
    {
        current = lcg_step(current);
        let j: usize = (current % 5) as usize;
        exchange_groups(groups, i, j);
        i += 1;
    }
    current
}

/// Moves the elements of all groups, in order, to the end of `out`.
fn join_chunks<T>(groups: &mut Vec<Vec<T>>, out: &mut Vec<T>)
    requires
        old(out)@.len() == 0,
    ensures
        final(out)@ == joined(group_views(old(groups)@)),
{
    let mut k: usize = 0;
    while k < groups.len()
        invariant
            k <= groups@.len(),
            groups@.len() == old(groups)@.len(),
            forall|m: int| k <= m < groups@.len() ==> groups@[m] == old(groups)@[m],
            out@ == joined_prefix(group_views(old(groups)@), k as nat),
        decreases groups@.len() - k,
    {
        let mut held: Vec<T> = Vec::new();
        groups.set_and_swap(k, &mut held);
        out.append(&mut held);
        k += 1;
    }
}

/// Rotates `v` left by `1 % v.len()` positions.
fn rotate_left_one<T>(v: &mut Vec<T>)
    ensures
        final(v)@ == rotated(old(v)@),
{
    if v.len() > 1 {
        let head = v.remove(0);
        v.push(head);
        assert(v@ =~= rotated(old(v)@));
    }
}

/// Runs one round of the shuffle on `v` and returns the generator state
/// after it.
pub fn shuffle_once<T>(v: &mut Vec<T>, state: u64) -> (next: u64)
    ensures
        (final(v)@, next) == shuffle_round(old(v)@, state),
{
    let started = lcg_step(state);
    let mut groups = split_into_chunks(v);
    let next = reorder_chunks(&mut groups, started);
    join_chunks(&mut groups, v);
    rotate_left_one(v);
    next
}

/// Sequences that can be shuffled in place.
pub trait Shuffle {
    /// Shuffles `self` with `nr_of_iterations` rounds of a generator started
    /// at `seed`.
    fn shuffle(&mut self, seed: u64, nr_of_iterations: usize);
}

impl<T> Shuffle for Vec<T> {
    /// The elements come out in the order `shuffled` gives: a permutation of
    /// the input that depends on nothing but the input order, `seed` and
    /// `nr_of_iterations`.
    fn shuffle(&mut self, seed: u64, nr_of_iterations: usize)
        ensures
            final(self)@ == shuffled(old(self)@, seed, nr_of_iterations as nat),
            final(self)@.len() == old(self)@.len(),
            final(self)@.to_multiset() == old(self)@.to_multiset(),
    {
        let mut state: u64 = seed;
        let mut round: usize = 0;
        while round < nr_of_iterations
            invariant
                round <= nr_of_iterations,
                (self@, state) == shuffle_rounds(old(self)@, seed, round as nat),
            decreases nr_of_iterations - round,
        {
            state = shuffle_once(self, state);
            round += 1;
        }
        proof {
            lemma_shuffled_is_permutation(old(self)@, seed, nr_of_iterations as nat);
        }
    }
}

/// Gluing the chunks of a sequence back together gives the sequence.
pub proof fn lemma_chunks_join<T>(s: Seq<T>)
    ensures
        joined(chunks(s)) == s,
{
    reveal_with_fuel(joined_prefix, 6);
    assert(joined(chunks(s)) =~= s);
}

/// Exchanging two of five groups keeps the elements of their concatenation.
proof fn lemma_exchanged_keeps_elements<T>(groups: Seq<Seq<T>>, i: int, j: int)
    requires
        groups.len() == 5,
        0 <= i < 5,
        0 <= j < 5,
    ensures
        joined(exchanged(groups, i, j)).to_multiset() == joined(groups).to_multiset(),
        joined(exchanged(groups, i, j)).len() == joined(groups).len(),
{
    broadcast use lemma_multiset_commutative;

    reveal_with_fuel(joined_prefix, 6);
    let other = exchanged(groups, i, j);
    assert(joined(other) =~= other[0] + other[1] + other[2] + other[3] + other[4]);
    assert(joined(groups) =~= groups[0] + groups[1] + groups[2] + groups[3] + groups[4]);
    assert(joined(other).to_multiset() =~= joined(groups).to_multiset());
}

/// Reordering the chunks keeps their number and the elements of their
/// concatenation.
proof fn lemma_reordered_keeps_elements<T>(groups: Seq<Seq<T>>, state: u64, visited: nat)
    requires
        groups.len() == 5,
        visited <= 5,
    ensures
        reordered(groups, state, visited).0.len() == 5,
        joined(reordered(groups, state, visited).0).to_multiset() == joined(
            groups,
        ).to_multiset(),
        joined(reordered(groups, state, visited).0).len() == joined(groups).len(),
    decreases visited,
{
    if visited > 0 {
        let before = reordered(groups, state, (visited - 1) as nat);
        lemma_reordered_keeps_elements(groups, state, (visited - 1) as nat);
        let next = lcg_next(before.1);
        lemma_exchanged_keeps_elements(before.0, visited - 1, (next % 5) as int);
    }
}

/// Rotating keeps the elements.
proof fn lemma_rotated_keeps_elements<T>(s: Seq<T>)
    ensures
        rotated(s).to_multiset() == s.to_multiset(),
        rotated(s).len() == s.len(),
{
    if s.len() > 1 {
        let tail = s.subrange(1, s.len() as int);
        assert(s =~= seq![s[0]] + tail);
        assert(rotated(s) =~= tail + seq![s[0]]);
        lemma_seq_union_to_multiset_commutative(seq![s[0]], tail);
    }
}

/// One round keeps the elements.
pub proof fn lemma_shuffle_round_is_permutation<T>(s: Seq<T>, state: u64)
    ensures
        shuffle_round(s, state).0.to_multiset() == s.to_multiset(),
        shuffle_round(s, state).0.len() == s.len(),
{
    lemma_chunks_join(s);
    lemma_reordered_keeps_elements(chunks(s), lcg_next(state), 5);
    let mixed = reordered(chunks(s), lcg_next(state), 5);
    lemma_rotated_keeps_elements(joined(mixed.0));
}

/// Shuffling never loses, adds or duplicates an element: for every input,
/// seed and number of rounds the result has the length of the input and
/// holds each element as often as the input does.
pub proof fn lemma_shuffled_is_permutation<T>(s: Seq<T>, seed: u64, iterations: nat)
    ensures
        shuffled(s, seed, iterations).to_multiset() == s.to_multiset(),
        shuffled(s, seed, iterations).len() == s.len(),
    decreases iterations,
{
    if iterations > 0 {
        lemma_shuffled_is_permutation(s, seed, (iterations - 1) as nat);
        let before = shuffle_rounds(s, seed, (iterations - 1) as nat);
        lemma_shuffle_round_is_permutation(before.0, before.1);
    }
}

/// Shuffling a sequence of at most one element gives that sequence back,
/// whatever the seed and the number of rounds.
pub proof fn lemma_shuffled_short_is_unchanged<T>(s: Seq<T>, seed: u64, iterations: nat)
    requires
        s.len() <= 1,
    ensures
        shuffled(s, seed, iterations) == s,
{
    broadcast use group_to_multiset_ensures;

    lemma_shuffled_is_permutation(s, seed, iterations);
    let out = shuffled(s, seed, iterations);
    if s.len() == 1 {
        assert(s.contains(s[0]));
        assert(out.to_multiset().count(s[0]) > 0);
        assert(out.contains(s[0]));
    }
    assert(out =~= s);
}

/// The outcome of a shuffle is determined by the input order, the seed and
/// the number of rounds: two results that both meet the contract of
/// `shuffle` for the same three values are the same sequence.
pub proof fn lemma_shuffle_is_deterministic<T>(
    s: Seq<T>,
    seed: u64,
    iterations: nat,
    first: Seq<T>,
    second: Seq<T>,
)
    requires
        first == shuffled(s, seed, iterations),
        second == shuffled(s, seed, iterations),
    ensures
        first == second,
{
}

} // verus!
