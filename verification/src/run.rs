//! The feed over a run of advances: what the host is shown, batch by batch,
//! is the lookahead it started with followed by the picks in the order in
//! which they were made, and whoever is accepted is shown thirty advances
//! later at the latest.

use crate::boundary::ticked;
use crate::boundary::TickView;
use crate::engine::ends_with_a_pick;
use crate::engine::lemma_nobody_is_passed_over;
use crate::engine::lemma_pick_ends_are_verdicts;
use crate::engine::pick_ends;
use crate::engine::picks_of;
use crate::engine::steps_of;
use crate::engine::FeedView;
use crate::profile::Profile;
use crate::profile::LOOKAHEAD_BATCHES;
use crate::rotation::lemma_moved_after_rotation;
use crate::rotation::lemma_rotate_keeps_elements;
use crate::rotation::lemma_rotate_nothing;
use crate::rotation::lemma_rotate_twice;
use crate::rotation::rotate_left;
use vstd::prelude::*;

verus! {

/// The verdicts drawn by the first `count` advances of a run, oldest first.
pub open spec fn verdicts_of(draws: Seq<Seq<bool>>, count: nat) -> Seq<bool>
    decreases count,
{
    if count == 0 {
        Seq::empty()
    } else {
        verdicts_of(draws, (count - 1) as nat) + draws[count - 1]
    }
}

/// A run of advances: advance `k` takes the feed from `states[k]` to
/// `states[k + 1]`, hands out `ticks[k]` and draws the verdicts `draws[k]`.
pub open spec fn is_run(states: Seq<FeedView>, ticks: Seq<TickView>, draws: Seq<Seq<bool>>) -> bool {
    &&& states.len() == ticks.len() + 1
    &&& draws.len() == ticks.len()
    &&& forall|k: int|
        0 <= k < ticks.len() ==> ticked(states[k], states[k + 1], #[trigger] ticks[k], draws[k])
}

/// A feed at rest: well formed, with a lookahead exactly as long as its
/// target, as construction and every advance leave it.
pub open spec fn at_rest(feed: FeedView) -> bool {
    &&& feed.wf()
    &&& feed.lookahead.len() == feed.lookahead_target()
}

/// What a feed shows from `start` on when the given verdicts are drawn: the
/// lookahead it starts with, then the picks that the verdicts make.
pub open spec fn shown_stream(start: FeedView, verdicts: Seq<bool>) -> Seq<Profile> {
    start.lookahead + picks_of(start.rotation, verdicts)
}

/// The marks counted `steps` steps later.
pub open spec fn later_by(marks: Seq<nat>, steps: nat) -> Seq<nat> {
    Seq::new(marks.len(), |j: int| marks[j] + steps)
}

/// The ends of the picks of two runs of verdicts, one after the other, are
/// the ends of the first and, counted after it, the ends of the second.
pub proof fn lemma_pick_ends_of_two_runs(first: Seq<bool>, second: Seq<bool>, alone: bool)
    requires
        ends_with_a_pick(first, alone),
    ensures
        pick_ends(first + second, alone) == pick_ends(first, alone) + later_by(
            pick_ends(second, alone),
            first.len(),
        ),
        ends_with_a_pick(second, alone) ==> ends_with_a_pick(first + second, alone),
    decreases second.len(),
{
    let both = first + second;
    if second.len() == 0 {
        assert(both =~= first);
        assert(pick_ends(first, alone) + later_by(pick_ends(second, alone), first.len())
            =~= pick_ends(first, alone));
    } else {
        let before = second.drop_last();
        lemma_pick_ends_of_two_runs(first, before, alone);
        lemma_pick_ends_are_verdicts(before, alone);
        assert(both.drop_last() =~= first + before);
        let ends_before = pick_ends(before, alone);
        let ends_so_far = pick_ends(first + before, alone);
        assert(steps_of(ends_so_far) == first.len() + steps_of(ends_before));
        assert(both.skip(steps_of(ends_so_far) as int) =~= second.skip(
            steps_of(ends_before) as int,
        ));
        assert(pick_ends(both, alone) =~= pick_ends(first, alone) + later_by(
            pick_ends(second, alone),
            first.len(),
        ));
    }
}

/// The picks of two runs of verdicts, one after the other, are the picks of
/// the first and then the picks that the second makes on the rotation as the
/// first has left it.
pub proof fn lemma_picks_of_two_runs(rotation: Seq<Profile>, first: Seq<bool>, second: Seq<bool>)
    requires
        rotation.len() > 0,
        ends_with_a_pick(first, rotation.len() == 1),
    ensures
        picks_of(rotation, first + second) == picks_of(rotation, first) + picks_of(
            rotate_left(rotation, first.len()),
            second,
        ),
{
    let alone = rotation.len() == 1;
    let turned = rotate_left(rotation, first.len());
    lemma_rotate_keeps_elements(rotation, first.len());
    lemma_pick_ends_of_two_runs(first, second, alone);
    lemma_pick_ends_are_verdicts(second, alone);
    let ends_first = pick_ends(first, alone);
    let ends_second = pick_ends(second, alone);
    let all = picks_of(rotation, first + second);
    let joined = picks_of(rotation, first) + picks_of(turned, second);
    assert(all.len() == joined.len());
    assert forall|j: int| 0 <= j < all.len() implies all[j] == joined[j] by {
        if j >= ends_first.len() {
            let mark = ends_second[j - ends_first.len()];
            lemma_moved_after_rotation(rotation, first.len(), mark);
        }
    }
    assert(all =~= joined);
}

/// The state of a feed after the first `k` advances of a run that starts at
/// rest: the batch size is kept, the rotation has made one step for each
/// verdict, the verdicts have made `k` batches of picks, and the lookahead
/// is what the feed shows from there on.
pub proof fn lemma_state_in_a_run(
    states: Seq<FeedView>,
    ticks: Seq<TickView>,
    draws: Seq<Seq<bool>>,
    k: int,
)
    requires
        is_run(states, ticks, draws),
        at_rest(states[0]),
        0 <= k <= ticks.len(),
    ensures
        states[k].batch_size == states[0].batch_size,
        states[k].rotation == rotate_left(states[0].rotation, verdicts_of(draws, k as nat).len()),
        states[k].rotation.len() == states[0].rotation.len(),
        ends_with_a_pick(verdicts_of(draws, k as nat), states[0].alone()),
        picks_of(states[0].rotation, verdicts_of(draws, k as nat)).len() == k
            * states[0].batch_size,
        states[k].lookahead == shown_stream(states[0], verdicts_of(draws, k as nat)).skip(
            k * states[0].batch_size,
        ),
        states[k].lookahead.len() == states[0].lookahead_target(),
    decreases k,
{
    let start = states[0];
    let batch = start.batch_size as int;
    if k == 0 {
        lemma_rotate_nothing(start.rotation);
        assert(picks_of(start.rotation, Seq::<bool>::empty()) =~= Seq::<Profile>::empty());
        assert(shown_stream(start, Seq::<bool>::empty()).skip(0) =~= start.lookahead);
    } else {
        lemma_state_in_a_run(states, ticks, draws, k - 1);
        let before = states[k - 1];
        let after = states[k];
        let earlier = verdicts_of(draws, (k - 1) as nat);
        let latest = draws[k - 1];
        let added = picks_of(before.rotation, latest);
        assert(ticked(before, after, ticks[k - 1], latest));
        assert((k - 1) * batch + batch == k * batch) by (nonlinear_arith);
        assert(before.next_batch_len() == batch);
        assert(before.drained().shortfall() == batch);
        lemma_rotate_keeps_elements(start.rotation, earlier.len());
        lemma_pick_ends_of_two_runs(earlier, latest, start.alone());
        lemma_picks_of_two_runs(start.rotation, earlier, latest);
        lemma_rotate_twice(start.rotation, earlier.len(), latest.len());
        lemma_rotate_keeps_elements(start.rotation, (earlier + latest).len());
        assert(after.lookahead =~= shown_stream(start, earlier + latest).skip(k * batch));
    }
}

/// Later verdicts change nothing of what earlier ones have made: the picks
/// of the first `fewer` advances of a run open the picks of the first
/// `more`.
pub proof fn lemma_picks_stay(
    states: Seq<FeedView>,
    ticks: Seq<TickView>,
    draws: Seq<Seq<bool>>,
    fewer: int,
    more: int,
)
    requires
        is_run(states, ticks, draws),
        at_rest(states[0]),
        0 <= fewer <= more <= ticks.len(),
    ensures
        picks_of(states[0].rotation, verdicts_of(draws, fewer as nat)) == picks_of(
            states[0].rotation,
            verdicts_of(draws, more as nat),
        ).take(fewer * states[0].batch_size),
    decreases more - fewer,
{
    let start = states[0];
    lemma_state_in_a_run(states, ticks, draws, fewer);
    if fewer == more {
        let picks = picks_of(start.rotation, verdicts_of(draws, fewer as nat));
        assert(picks.take(picks.len() as int) =~= picks);
    } else {
        lemma_picks_stay(states, ticks, draws, fewer, more - 1);
        lemma_state_in_a_run(states, ticks, draws, more - 1);
        let earlier = verdicts_of(draws, (more - 1) as nat);
        lemma_picks_of_two_runs(start.rotation, earlier, draws[more - 1]);
        assert(fewer * start.batch_size <= (more - 1) * start.batch_size) by (nonlinear_arith)
            requires
                fewer <= more - 1,
                start.batch_size >= 0,
        ;
        let so_far = picks_of(start.rotation, earlier);
        let all = picks_of(start.rotation, earlier + draws[more - 1]);
        assert(all.take(fewer * start.batch_size) =~= so_far.take(fewer * start.batch_size));
    }
}

/// A run that starts at rest shows, batch by batch, the lookahead it starts
/// with and then the picks in the order in which the verdicts of the run
/// make them: advance `k` shows batch `k` of this stream.
pub proof fn lemma_run_shows_the_stream(
    states: Seq<FeedView>,
    ticks: Seq<TickView>,
    draws: Seq<Seq<bool>>,
    k: int,
)
    requires
        is_run(states, ticks, draws),
        at_rest(states[0]),
        0 <= k < ticks.len(),
    ensures
        ticks[k].current == shown_stream(
            states[0],
            verdicts_of(draws, ticks.len()),
        ).subrange(k * states[0].batch_size, (k + 1) * states[0].batch_size),
{
    let start = states[0];
    let batch = start.batch_size as int;
    let target = start.lookahead_target() as int;
    lemma_state_in_a_run(states, ticks, draws, k);
    lemma_state_in_a_run(states, ticks, draws, ticks.len() as int);
    lemma_picks_stay(states, ticks, draws, k, ticks.len() as int);
    assert(ticked(states[k], states[k + 1], ticks[k], draws[k]));
    assert(k * batch + batch == (k + 1) * batch) by (nonlinear_arith);
    assert(k * batch <= ticks.len() * batch) by (nonlinear_arith)
        requires
            k <= ticks.len(),
            batch >= 0,
    ;
    let so_far = shown_stream(start, verdicts_of(draws, k as nat));
    let whole = shown_stream(start, verdicts_of(draws, ticks.len()));
    assert(states[k].next_batch_len() == batch);
    assert forall|j: int| 0 <= j < so_far.len() implies so_far[j] == whole[j] by {
        if j >= target {
            assert(picks_of(start.rotation, verdicts_of(draws, k as nat))[j - target] == picks_of(
                start.rotation,
                verdicts_of(draws, ticks.len()),
            ).take(k * batch)[j - target]);
        }
    }
    assert(ticks[k].current =~= whole.subrange(k * batch, (k + 1) * batch));
}

/// Whoever is accepted is shown: in a run that starts at rest, a profile
/// whose candidacy one of the first `count` advances accepts is in the batch
/// of some advance, thirty advances later at the latest.
pub proof fn lemma_everybody_accepted_is_shown(
    states: Seq<FeedView>,
    ticks: Seq<TickView>,
    draws: Seq<Seq<bool>>,
    count: int,
    i: int,
    rounds: nat,
)
    requires
        is_run(states, ticks, draws),
        at_rest(states[0]),
        0 <= count,
        count + LOOKAHEAD_BATCHES <= ticks.len(),
        0 <= i < states[0].rotation.len(),
        i + rounds * states[0].rotation.len() < verdicts_of(draws, count as nat).len(),
        verdicts_of(draws, count as nat)[i + rounds * states[0].rotation.len()],
    ensures
        exists|k: int|
            0 <= k < count + LOOKAHEAD_BATCHES && (#[trigger] ticks[k]).current.contains(
                states[0].rotation[i],
            ),
{
    let start = states[0];
    let batch = start.batch_size as int;
    let target = start.lookahead_target() as int;
    let person = start.rotation[i];
    let early = picks_of(start.rotation, verdicts_of(draws, count as nat));
    let whole = shown_stream(start, verdicts_of(draws, ticks.len()));
    lemma_nobody_is_passed_over(start.rotation, verdicts_of(draws, count as nat), i, rounds);
    let at = choose|at: int| 0 <= at < early.len() && early[at] == person;
    lemma_state_in_a_run(states, ticks, draws, count);
    lemma_state_in_a_run(states, ticks, draws, ticks.len() as int);
    lemma_picks_stay(states, ticks, draws, count, ticks.len() as int);
    assert(count * batch <= ticks.len() * batch) by (nonlinear_arith)
        requires
            count <= ticks.len(),
            batch >= 0,
    ;
    let place = target + at;
    assert(picks_of(start.rotation, verdicts_of(draws, ticks.len())).take(count * batch)[at]
        == person);
    assert(whole[place] == person);
    let k = place / batch;
    let offset = place % batch;
    vstd::arithmetic::div_mod::lemma_fundamental_div_mod(place, batch);
    assert(0 <= offset < batch);
    assert(place < (count + LOOKAHEAD_BATCHES) * batch) by (nonlinear_arith)
        requires
            place == target + at,
            target == batch * LOOKAHEAD_BATCHES,
            at < count * batch,
    ;
    assert(0 <= k < count + LOOKAHEAD_BATCHES) by (nonlinear_arith)
        requires
            place == batch * k + offset,
            0 <= offset < batch,
            0 <= place < (count + LOOKAHEAD_BATCHES) * batch,
            batch > 0,
    ;
    lemma_run_shows_the_stream(states, ticks, draws, k);
    assert(k * batch + offset == place) by (nonlinear_arith)
        requires
            place == batch * k + offset,
    ;
    assert((k + 1) * batch == k * batch + batch) by (nonlinear_arith);
    assert((k + 1) * batch <= ticks.len() * batch) by (nonlinear_arith)
        requires
            k + 1 <= ticks.len(),
            batch >= 0,
    ;
    assert(whole.len() == target + ticks.len() * batch);
    assert(ticks[k].current[offset] == whole[place]);
}

} // verus!
