//! The mathematics of a rotating queue: what a sequence looks like after a
//! number of pop-front/push-back steps, and which element each step moves.

use vstd::prelude::*;

verus! {

/// The sequence `s` after `steps` rotation steps, each of which takes the
/// front element and appends it at the back.
pub open spec fn rotate_left<A>(s: Seq<A>, steps: nat) -> Seq<A> {
    Seq::new(s.len(), |i: int| s[(i + steps) % (s.len() as int)])
}

/// The element that the last of `steps` rotation steps moved to the back.
pub open spec fn moved_by_step<A>(s: Seq<A>, steps: nat) -> A
    recommends
        steps >= 1,
        s.len() > 0,
{
    s[(steps - 1) % (s.len() as int)]
}

/// Rotating by nothing changes nothing.
pub proof fn lemma_rotate_nothing<A>(s: Seq<A>)
    ensures
        rotate_left(s, 0) == s,
{
    assert forall|i: int| 0 <= i < s.len() implies rotate_left(s, 0)[i] == s[i] by {
        vstd::arithmetic::div_mod::lemma_small_mod(i as nat, s.len());
    }
    assert(rotate_left(s, 0) =~= s);
}

/// One more pop-front/push-back on a sequence that was rotated `steps` times
/// gives the sequence rotated `steps + 1` times, and the element it moves is
/// `moved_by_step(s, steps + 1)`.
pub proof fn lemma_rotate_one_more<A>(s: Seq<A>, steps: nat)
    requires
        s.len() > 0,
    ensures
        rotate_left(s, steps).drop_first().push(rotate_left(s, steps)[0]) == rotate_left(
            s,
            steps + 1,
        ),
        rotate_left(s, steps)[0] == moved_by_step(s, steps + 1),
        rotate_left(s, steps + 1).last() == moved_by_step(s, steps + 1),
{
    let n = s.len() as int;
    let r = rotate_left(s, steps);
    let stepped = r.drop_first().push(r[0]);
    let next = rotate_left(s, steps + 1);
    assert((n - 1 + (steps + 1)) % n == (steps as int) % n) by {
        vstd::arithmetic::div_mod::lemma_mod_add_multiples_vanish(steps as int, n);
    }
    assert forall|i: int| 0 <= i < n implies stepped[i] == next[i] by {
        if i < n - 1 {
            assert(stepped[i] == r[i + 1]);
        } else {
            assert(stepped[i] == r[0]);
        }
    }
    assert(stepped =~= next);
}

/// Rotating twice is rotating once by the sum.
pub proof fn lemma_rotate_twice<A>(s: Seq<A>, first: nat, second: nat)
    ensures
        rotate_left(rotate_left(s, first), second) == rotate_left(s, first + second),
{
    let n = s.len() as int;
    let once = rotate_left(s, first);
    let twice = rotate_left(once, second);
    let sum = rotate_left(s, first + second);
    assert forall|i: int| 0 <= i < n implies twice[i] == sum[i] by {
        let j = (i + second) % n;
        assert(0 <= j < n);
        assert(twice[i] == once[j]);
        assert((j + first) % n == (i + (first + second)) % n) by {
            vstd::arithmetic::div_mod::lemma_add_mod_noop(i + second, first as int, n);
            vstd::arithmetic::div_mod::lemma_add_mod_noop_right(
                (i + second) % n,
                first as int,
                n,
            );
        }
    }
    assert(twice =~= sum);
}

/// The element that a step moves after an earlier rotation is the element
/// that the same step, counted from the start, moves in the sequence itself.
pub proof fn lemma_moved_after_rotation<A>(s: Seq<A>, first: nat, steps: nat)
    requires
        s.len() > 0,
        steps >= 1,
    ensures
        moved_by_step(rotate_left(s, first), steps) == moved_by_step(s, first + steps),
{
    let n = s.len() as int;
    let j = (steps - 1) % n;
    assert(0 <= j < n);
    assert((j + first) % n == (first + steps - 1) % n) by {
        vstd::arithmetic::div_mod::lemma_add_mod_noop(steps - 1, first as int, n);
        vstd::arithmetic::div_mod::lemma_add_mod_noop_right((steps - 1) % n, first as int, n);
    }
}

/// A rotation is the tail of the sequence followed by its head.
pub proof fn lemma_rotate_is_cut<A>(s: Seq<A>, steps: nat)
    requires
        s.len() > 0,
    ensures
        rotate_left(s, steps) == s.skip(steps as int % (s.len() as int)) + s.take(
            steps as int % (s.len() as int),
        ),
{
    let n = s.len() as int;
    let k = steps as int % n;
    let cut = s.skip(k) + s.take(k);
    assert forall|i: int| 0 <= i < n implies rotate_left(s, steps)[i] == cut[i] by {
        vstd::arithmetic::div_mod::lemma_add_mod_noop_right(i, steps as int, n);
        if i < n - k {
            vstd::arithmetic::div_mod::lemma_small_mod((i + k) as nat, n as nat);
        } else {
            vstd::arithmetic::div_mod::lemma_mod_add_multiples_vanish(i + k - n, n);
            vstd::arithmetic::div_mod::lemma_small_mod((i + k - n) as nat, n as nat);
        }
    }
    assert(rotate_left(s, steps) =~= cut);
}

/// A rotation neither loses nor duplicates an element: the rotated sequence
/// holds each element as often as the sequence it came from.
pub proof fn lemma_rotate_keeps_elements<A>(s: Seq<A>, steps: nat)
    ensures
        rotate_left(s, steps).len() == s.len(),
        rotate_left(s, steps).to_multiset() == s.to_multiset(),
        forall|x: A| rotate_left(s, steps).contains(x) <==> s.contains(x),
{
    if s.len() == 0 {
        assert(rotate_left(s, steps) =~= s);
    } else {
        let k = steps as int % (s.len() as int);
        lemma_rotate_is_cut(s, steps);
        vstd::seq_lib::lemma_seq_union_to_multiset_commutative(s.skip(k), s.take(k));
        assert(s.take(k) + s.skip(k) =~= s);
    }
    assert forall|x: A| rotate_left(s, steps).contains(x) <==> s.contains(x) by {
        vstd::seq_lib::to_multiset_contains(rotate_left(s, steps), x);
        vstd::seq_lib::to_multiset_contains(s, x);
    }
}

/// Every element reaches the front: after `i` rotation steps the element that
/// stood at index `i` is first, and it is first again after every further
/// full round.
pub proof fn lemma_every_element_reaches_front<A>(s: Seq<A>, i: int, rounds: nat)
    requires
        0 <= i < s.len(),
    ensures
        rotate_left(s, (i + rounds * s.len()) as nat)[0] == s[i],
        moved_by_step(s, (i + rounds * s.len() + 1) as nat) == s[i],
{
    let n = s.len() as int;
    assert((i + rounds * n) % n == i) by {
        vstd::arithmetic::div_mod::lemma_mod_multiples_vanish(rounds as int, i, n);
        vstd::arithmetic::div_mod::lemma_small_mod(i as nat, n as nat);
        assert(n * rounds + i == i + rounds * n) by (nonlinear_arith);
    }
    assert(rounds * n >= 0) by (nonlinear_arith)
        requires
            rounds >= 0,
            n > 0,
    ;
}

} // verus!
