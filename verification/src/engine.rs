//! The feed engine: a rotating queue of every profile, sampled by rejection,
//! and a lookahead queue of the picks that have not been shown yet.
//!
//! What the engine does is fixed by the order of the rotation and by the
//! verdicts that the random source draws: the contracts say which picks a
//! given sequence of verdicts makes.

use crate::profile::config_error;
use crate::profile::Config;
use crate::profile::ConfigError;
use crate::profile::ConfigView;
use crate::profile::Profile;
use crate::profile::LOOKAHEAD_BATCHES;
use crate::random::drawn_between;
use crate::random::goes_on;
use crate::random::RandomSource;
use crate::rotation::lemma_every_element_reaches_front;
use crate::rotation::lemma_moved_after_rotation;
use crate::rotation::lemma_rotate_keeps_elements;
use crate::rotation::lemma_rotate_nothing;
use crate::rotation::lemma_rotate_one_more;
use crate::rotation::lemma_rotate_twice;
use crate::rotation::moved_by_step;
use crate::rotation::rotate_left;
use std::collections::VecDeque;
use std::rc::Rc;
use vstd::prelude::*;

verus! {

/// One pick gives up rejecting after this many rejected candidates and takes
/// the next one, so that a pick always ends.
pub const REJECTION_LIMIT: u64 = 0xffff_ffff_ffff_ffff;

/// The record behind a shared handle.
pub open spec fn record_of(handle: Rc<Profile>) -> Profile {
    *handle
}

/// The records behind a sequence of shared handles.
pub open spec fn records(handles: Seq<Rc<Profile>>) -> Seq<Profile> {
    Seq::new(handles.len(), |i: int| record_of(handles[i]))
}

/// The state of a feed, as mathematical values.
pub ghost struct FeedView {
    /// Every profile, in the order in which the sampler will examine them.
    pub rotation: Seq<Profile>,
    /// The picks that have not been shown yet, oldest first.
    pub lookahead: Seq<Profile>,
    /// The number of profiles in a batch.
    pub batch_size: nat,
}

impl FeedView {
    /// The length that the lookahead has at rest.
    pub open spec fn lookahead_target(self) -> nat {
        self.batch_size * LOOKAHEAD_BATCHES as nat
    }

    /// What every feed satisfies: there is somebody to pick, the batch size
    /// is positive, the target length fits a `usize`, and the lookahead
    /// holds nobody but people of the rotation.
    pub open spec fn wf(self) -> bool {
        &&& self.rotation.len() > 0
        &&& self.batch_size > 0
        &&& self.lookahead_target() <= usize::MAX
        &&& forall|i: int|
            0 <= i < self.lookahead.len() ==> self.rotation.contains(#[trigger] self.lookahead[i])
    }

    /// The lookahead is at least as long as its target.
    pub open spec fn replenished(self) -> bool {
        self.lookahead.len() >= self.lookahead_target()
    }

    /// How many picks the lookahead is short of its target.
    pub open spec fn shortfall(self) -> nat {
        if self.lookahead.len() < self.lookahead_target() {
            (self.lookahead_target() - self.lookahead.len()) as nat
        } else {
            0
        }
    }

    /// Whether a single profile makes up the rotation.
    pub open spec fn alone(self) -> bool {
        self.rotation.len() == 1
    }

    /// The number of profiles that the next batch holds.
    pub open spec fn next_batch_len(self) -> nat {
        if self.batch_size <= self.lookahead.len() {
            self.batch_size
        } else {
            self.lookahead.len()
        }
    }

    /// The state with the next batch taken off the lookahead.
    pub open spec fn drained(self) -> FeedView {
        FeedView {
            rotation: self.rotation,
            lookahead: self.lookahead.skip(self.next_batch_len() as int),
            batch_size: self.batch_size,
        }
    }
}

/// Whether the last of `draws`, the verdicts drawn for one pick so far, ends
/// the pick: it accepts, or the candidate is `alone` in the rotation, or the
/// pick has rejected `REJECTION_LIMIT` candidates before it.
pub open spec fn settles(draws: Seq<bool>, alone: bool) -> bool {
    draws.len() >= 1 && (draws.last() || alone || draws.len() > REJECTION_LIMIT)
}

/// The verdicts of exactly one pick: the last one settles it and none before
/// does.
pub open spec fn one_pick(draws: Seq<bool>, alone: bool) -> bool {
    &&& settles(draws, alone)
    &&& forall|k: int| 1 <= k < draws.len() ==> !settles(#[trigger] draws.take(k), alone)
}

/// The rotation steps made up to the last of the `marks`.
pub open spec fn steps_of(marks: Seq<nat>) -> nat {
    if marks.len() == 0 {
        0
    } else {
        marks.last()
    }
}

/// Where the picks end in a sequence of verdicts: the numbers, counted from
/// one, of the verdicts that settle a pick. A verdict settles the pick that
/// began after the last settled one.
pub open spec fn pick_ends(draws: Seq<bool>, alone: bool) -> Seq<nat>
    decreases draws.len(),
{
    if draws.len() == 0 {
        Seq::empty()
    } else {
        let earlier = pick_ends(draws.drop_last(), alone);
        if settles(draws.skip(steps_of(earlier) as int), alone) {
            earlier.push(draws.len())
        } else {
            earlier
        }
    }
}

/// The picks that a sequence of verdicts makes on a rotation: one for each
/// verdict that settles a pick, namely the profile that the rotation step of
/// this verdict moved.
pub open spec fn picks_of(rotation: Seq<Profile>, draws: Seq<bool>) -> Seq<Profile> {
    let marks = pick_ends(draws, rotation.len() == 1);
    Seq::new(marks.len(), |j: int| moved_by_step(rotation, marks[j]))
}

/// Whether a sequence of verdicts ends with the end of a pick, or is empty.
pub open spec fn ends_with_a_pick(draws: Seq<bool>, alone: bool) -> bool {
    steps_of(pick_ends(draws, alone)) == draws.len()
}

/// One pick made with the verdicts `draws`: they are the verdicts of exactly
/// one pick, the rotation has made one step for each of them, the pick is
/// the profile that the last step moved, and nothing else has changed.
pub open spec fn picked(before: FeedView, after: FeedView, pick: Profile, draws: Seq<bool>) -> bool {
    &&& one_pick(draws, before.alone())
    &&& after.rotation == rotate_left(before.rotation, draws.len())
    &&& pick == moved_by_step(before.rotation, draws.len())
    &&& after.lookahead == before.lookahead
    &&& after.batch_size == before.batch_size
}

/// A refill made with the verdicts `draws`: the verdicts make exactly as
/// many picks as the lookahead was short of its target and end with the last
/// of them, the rotation has made one step for each verdict, and the picks
/// were appended to the lookahead in the order they were made.
pub open spec fn refilled(
    before: FeedView,
    after: FeedView,
    added: Seq<Profile>,
    draws: Seq<bool>,
) -> bool {
    &&& ends_with_a_pick(draws, before.alone())
    &&& added == picks_of(before.rotation, draws)
    &&& added.len() == before.shortfall()
    &&& after.rotation == rotate_left(before.rotation, draws.len())
    &&& after.lookahead == before.lookahead + added
    &&& after.batch_size == before.batch_size
}

/// A feed in the state in which construction leaves it, where the shuffle has
/// put the people in the order `order` and the verdicts `draws` were drawn
/// after it: `order` holds the configured people, each as often as the
/// configuration does, and the feed is what a refill with these verdicts
/// makes of the rotation `order` and an empty lookahead.
pub open spec fn built_from(
    config: ConfigView,
    order: Seq<Profile>,
    feed: FeedView,
    draws: Seq<bool>,
) -> bool {
    &&& order.to_multiset() == config.people.to_multiset()
    &&& refilled(
        FeedView { rotation: order, lookahead: Seq::empty(), batch_size: config.batch_size },
        feed,
        feed.lookahead,
        draws,
    )
}

/// The verdicts of one more pick, drawn after verdicts that end with a pick,
/// add one end to the ends of the picks: their last verdict.
pub proof fn lemma_one_more_pick(earlier: Seq<bool>, draws: Seq<bool>, alone: bool)
    requires
        ends_with_a_pick(earlier, alone),
        one_pick(draws, alone),
    ensures
        pick_ends(earlier + draws, alone) == pick_ends(earlier, alone).push(
            earlier.len() + draws.len(),
        ),
        ends_with_a_pick(earlier + draws, alone),
{
    lemma_pick_in_progress(earlier, draws, alone, draws.len() - 1);
    let all = earlier + draws;
    assert(all.drop_last() =~= earlier + draws.take(draws.len() - 1));
    assert(all.skip(earlier.len() as int) =~= draws);
}

/// While a pick is in progress, the ends of the picks are those of the
/// verdicts before it.
proof fn lemma_pick_in_progress(earlier: Seq<bool>, draws: Seq<bool>, alone: bool, k: int)
    requires
        ends_with_a_pick(earlier, alone),
        one_pick(draws, alone),
        0 <= k < draws.len(),
    ensures
        pick_ends(earlier + draws.take(k), alone) == pick_ends(earlier, alone),
    decreases k,
{
    if k == 0 {
        assert(earlier + draws.take(0) =~= earlier);
    } else {
        lemma_pick_in_progress(earlier, draws, alone, k - 1);
        let so_far = earlier + draws.take(k);
        assert(so_far.drop_last() =~= earlier + draws.take(k - 1));
        assert(so_far.skip(earlier.len() as int) =~= draws.take(k));
    }
}

/// Every pick that verdicts make on a rotation is a profile of the rotation.
pub proof fn lemma_picks_are_people(rotation: Seq<Profile>, draws: Seq<bool>)
    requires
        rotation.len() > 0,
    ensures
        forall|j: int|
            0 <= j < picks_of(rotation, draws).len() ==> rotation.contains(
                #[trigger] picks_of(rotation, draws)[j],
            ),
{
    let marks = pick_ends(draws, rotation.len() == 1);
    let picks = picks_of(rotation, draws);
    assert forall|j: int| 0 <= j < picks.len() implies rotation.contains(#[trigger] picks[j]) by {
        let at = (marks[j] - 1) % (rotation.len() as int);
        assert(picks[j] == rotation[at]);
    }
}

/// A pick neither loses nor duplicates a profile, and the profile it picks
/// is one of the rotation, before the pick and after it.
pub proof fn lemma_pick_keeps_people(
    before: FeedView,
    after: FeedView,
    pick: Profile,
    draws: Seq<bool>,
)
    requires
        before.rotation.len() > 0,
        picked(before, after, pick, draws),
    ensures
        after.rotation.len() == before.rotation.len(),
        after.rotation.to_multiset() == before.rotation.to_multiset(),
        before.rotation.contains(pick),
        after.rotation.contains(pick),
        after.rotation.last() == pick,
{
    lemma_rotate_keeps_elements(before.rotation, draws.len());
    lemma_rotate_one_more(before.rotation, (draws.len() - 1) as nat);
    let at = (draws.len() - 1) % (before.rotation.len() as int);
    assert(pick == before.rotation[at]);
}

/// A refill neither loses nor duplicates a profile: the rotation after it
/// holds each profile as often as the rotation before it, and what it adds
/// to the lookahead are profiles of the rotation.
pub proof fn lemma_refill_keeps_people(
    before: FeedView,
    after: FeedView,
    added: Seq<Profile>,
    draws: Seq<bool>,
)
    requires
        before.rotation.len() > 0,
        refilled(before, after, added, draws),
    ensures
        after.rotation.len() == before.rotation.len(),
        after.rotation.to_multiset() == before.rotation.to_multiset(),
        forall|j: int| 0 <= j < added.len() ==> after.rotation.contains(#[trigger] added[j]),
{
    lemma_rotate_keeps_elements(before.rotation, draws.len());
    lemma_picks_are_people(before.rotation, draws);
}

/// The same verdicts on the same state give the same refill: the picks and
/// the state after them depend on nothing else.
pub proof fn lemma_refill_is_determined(
    before: FeedView,
    draws: Seq<bool>,
    first_after: FeedView,
    first_added: Seq<Profile>,
    second_after: FeedView,
    second_added: Seq<Profile>,
)
    requires
        refilled(before, first_after, first_added, draws),
        refilled(before, second_after, second_added, draws),
    ensures
        first_added == second_added,
        first_after == second_after,
{
}

/// The same verdicts on the same state give the same pick.
pub proof fn lemma_pick_is_determined(
    before: FeedView,
    draws: Seq<bool>,
    first_after: FeedView,
    first_pick: Profile,
    second_after: FeedView,
    second_pick: Profile,
)
    requires
        picked(before, first_after, first_pick, draws),
        picked(before, second_after, second_pick, draws),
    ensures
        first_pick == second_pick,
        first_after == second_after,
{
}

/// The same order of the people and the same verdicts give the same feed:
/// what construction builds depends on nothing else.
pub proof fn lemma_build_is_determined(
    config: ConfigView,
    order: Seq<Profile>,
    draws: Seq<bool>,
    first: FeedView,
    second: FeedView,
)
    requires
        built_from(config, order, first, draws),
        built_from(config, order, second, draws),
    ensures
        first == second,
{
}

/// A feed as construction leaves it holds the configured people in its
/// rotation, each as often as the configuration does, and exactly as many
/// picks in its lookahead as its target says.
pub proof fn lemma_built_feed_is_full(
    config: ConfigView,
    order: Seq<Profile>,
    feed: FeedView,
    draws: Seq<bool>,
)
    requires
        config.people.len() > 0,
        built_from(config, order, feed, draws),
    ensures
        feed.batch_size == config.batch_size,
        feed.rotation.len() == config.people.len(),
        feed.rotation.to_multiset() == config.people.to_multiset(),
        feed.lookahead.len() == feed.lookahead_target(),
{
    let empty = FeedView {
        rotation: order,
        lookahead: Seq::empty(),
        batch_size: config.batch_size,
    };
    vstd::seq_lib::to_multiset_len(order);
    vstd::seq_lib::to_multiset_len(config.people);
    lemma_refill_keeps_people(empty, feed, feed.lookahead, draws);
}

/// The ends of the picks lie among the verdicts: none is counted before the
/// first verdict or after the last.
pub proof fn lemma_pick_ends_are_verdicts(draws: Seq<bool>, alone: bool)
    ensures
        steps_of(pick_ends(draws, alone)) <= draws.len(),
        forall|j: int|
            0 <= j < pick_ends(draws, alone).len() ==> 1 <= #[trigger] pick_ends(draws, alone)[j]
                <= draws.len(),
    decreases draws.len(),
{
    if draws.len() > 0 {
        lemma_pick_ends_are_verdicts(draws.drop_last(), alone);
    }
}

/// Every accepting verdict ends a pick.
pub proof fn lemma_accepting_verdict_ends_a_pick(draws: Seq<bool>, alone: bool, step: int)
    requires
        1 <= step <= draws.len(),
        draws[step - 1],
    ensures
        pick_ends(draws, alone).contains(step as nat),
    decreases draws.len(),
{
    let earlier = pick_ends(draws.drop_last(), alone);
    lemma_pick_ends_are_verdicts(draws.drop_last(), alone);
    if step == draws.len() {
        let current = draws.skip(steps_of(earlier) as int);
        assert(current.last() == draws[step - 1]);
        assert(pick_ends(draws, alone) == earlier.push(draws.len()));
        assert(pick_ends(draws, alone)[earlier.len() as int] == step);
    } else {
        lemma_accepting_verdict_ends_a_pick(draws.drop_last(), alone, step);
        let at = choose|at: int| 0 <= at < earlier.len() && earlier[at] == step as nat;
        assert(pick_ends(draws, alone)[at] == step);
    }
}

/// An accepted candidate is picked: where the verdict of a rotation step
/// accepts, the profile that this step moved is among the picks.
pub proof fn lemma_accepted_candidate_is_picked(
    rotation: Seq<Profile>,
    draws: Seq<bool>,
    step: int,
)
    requires
        rotation.len() > 0,
        1 <= step <= draws.len(),
        draws[step - 1],
    ensures
        picks_of(rotation, draws).contains(moved_by_step(rotation, step as nat)),
{
    let marks = pick_ends(draws, rotation.len() == 1);
    lemma_accepting_verdict_ends_a_pick(draws, rotation.len() == 1, step);
    let at = choose|at: int| 0 <= at < marks.len() && marks[at] == step as nat;
    assert(picks_of(rotation, draws)[at] == moved_by_step(rotation, step as nat));
}

/// Nobody is passed over for good: the profile at place `i` of the rotation
/// is the candidate of step `i + 1` and of the same step of every later
/// round, and where the verdict of one of these steps accepts, the profile
/// is among the picks.
pub proof fn lemma_nobody_is_passed_over(
    rotation: Seq<Profile>,
    draws: Seq<bool>,
    i: int,
    rounds: nat,
)
    requires
        0 <= i < rotation.len(),
        i + rounds * rotation.len() < draws.len(),
        draws[i + rounds * rotation.len()],
    ensures
        picks_of(rotation, draws).contains(rotation[i]),
{
    assert(rounds * rotation.len() >= 0) by (nonlinear_arith)
        requires
            rounds >= 0,
            rotation.len() > 0,
    ;
    lemma_every_element_reaches_front(rotation, i, rounds);
    lemma_accepted_candidate_is_picked(rotation, draws, i + rounds * rotation.len() + 1);
}

/// Nobody is out of reach of a pick: for each profile of a rotation there
/// are verdicts, one rejection for each profile that stands before it and
/// then an acceptance, that are the verdicts of exactly one pick and pick
/// this profile.
pub proof fn lemma_everybody_can_be_picked(rotation: Seq<Profile>, i: int)
    requires
        rotation.len() <= usize::MAX,
        0 <= i < rotation.len(),
    ensures
        one_pick(Seq::new(i as nat, |k: int| false).push(true), rotation.len() == 1),
        moved_by_step(rotation, (i + 1) as nat) == rotation[i],
{
    let draws = Seq::new(i as nat, |k: int| false).push(true);
    assert forall|k: int| 1 <= k < draws.len() implies !settles(
        #[trigger] draws.take(k),
        rotation.len() == 1,
    ) by {
        assert(draws.take(k).last() == draws[k - 1]);
    }
    vstd::arithmetic::div_mod::lemma_small_mod(i as nat, rotation.len());
}

/// The feed engine.
pub struct FeedSource {
    people: VecDeque<Rc<Profile>>,
    ready_queue: VecDeque<Rc<Profile>>,
    batch_size: usize,
}

impl View for FeedSource {
    type V = FeedView;

    closed spec fn view(&self) -> FeedView {
        FeedView {
            rotation: records(self.people@),
            lookahead: records(self.ready_queue@),
            batch_size: self.batch_size as nat,
        }
    }
}

impl FeedSource {
    /// Builds a feed: shuffles the people into the rotation and fills the
    /// lookahead to its target. A configuration with nobody to show, with a
    /// batch size of zero, or with a batch size whose lookahead a `usize`
    /// cannot count is turned down, and the random source is left as it was.
    pub fn from_config(config: Config, rng: &mut RandomSource) -> (built: Result<
        FeedSource,
        ConfigError,
    >)
        ensures
            match built {
                Ok(feed) => {
                    &&& config_error(config@) is None
                    &&& feed@.wf()
                    &&& feed@.replenished()
                    &&& final(rng).orders() == old(rng).orders().push(final(rng).orders().last())
                    &&& built_from(
                        config@,
                        final(rng).orders().last(),
                        feed@,
                        drawn_between(old(rng).drawn(), final(rng).drawn()),
                    )
                    &&& feed@.batch_size == config@.batch_size
                    &&& feed@.rotation.len() == config@.people.len()
                    &&& feed@.rotation.to_multiset() == config@.people.to_multiset()
                    &&& feed@.lookahead.len() == feed@.lookahead_target()
                },
                Err(error) => {
                    &&& config_error(config@) == Some(error)
                    &&& *final(rng) == *old(rng)
                },
            },
            goes_on(old(rng).drawn(), final(rng).drawn()),
            final(rng).seed() == old(rng).seed(),
    {
        assert(rng.drawn().take(rng.drawn().len() as int) =~= rng.drawn());
        if config.people().len() == 0 {
            return Err(ConfigError::NoPeople);
        }
        if config.batch_size() == 0 {
            return Err(ConfigError::ZeroBatchSize);
        }
        if config.batch_size() > usize::MAX / LOOKAHEAD_BATCHES {
            return Err(ConfigError::BatchSizeTooLarge);
        }
        let (mut people, batch_size) = config.into_parts();
        rng.shuffle(&mut people);
        let ghost shuffled = people@;
        let mut rotation: VecDeque<Rc<Profile>> = VecDeque::new();
        while people.len() > 0
            invariant
                people@ == shuffled.take(people@.len() as int),
                people@.len() <= shuffled.len(),
                records(rotation@) == shuffled.skip(people@.len() as int),
            decreases people@.len(),
        {
            let ghost rest = people@.len() as int;
            let ghost moved = records(rotation@);
            let person = people.pop().unwrap();
            let handle = Rc::new(person);
            assert(record_of(handle) == shuffled[rest - 1]);
            rotation.push_front(handle);
            assert(records(rotation@) =~= seq![shuffled[rest - 1]] + moved);
            assert(records(rotation@) =~= shuffled.skip(rest - 1));
            assert(people@ =~= shuffled.take(rest - 1));
        }
        assert(records(rotation@) =~= shuffled);
        let mut feed = FeedSource { people: rotation, ready_queue: VecDeque::new(), batch_size };
        let ghost empty = feed@;
        assert(empty.lookahead =~= Seq::<Profile>::empty());
        assert(empty.shortfall() == empty.lookahead_target());
        feed.fill_ready_queue(rng);
        proof {
            let draws = drawn_between(old(rng).drawn(), rng.drawn());
            assert(empty =~= FeedView {
                rotation: shuffled,
                lookahead: Seq::empty(),
                batch_size: config@.batch_size,
            });
            assert(rng.orders().last() == shuffled);
            assert(built_from(config@, shuffled, feed@, draws));
            lemma_built_feed_is_full(config@, shuffled, feed@, draws);
        }
        Ok(feed)
    }

    /// One rotation step, and the verdict on the candidate it moves: takes
    /// the profile at the front to the back, and hands it out if it is
    /// `accepted`.
    pub fn examine(&mut self, accepted: bool) -> (outcome: Option<Rc<Profile>>)
        requires
            old(self)@.wf(),
        ensures
            final(self)@.wf(),
            final(self)@.rotation == rotate_left(old(self)@.rotation, 1),
            final(self)@.rotation.len() == old(self)@.rotation.len(),
            final(self)@.lookahead == old(self)@.lookahead,
            final(self)@.batch_size == old(self)@.batch_size,
            match outcome {
                Some(pick) => accepted && *pick == old(self)@.rotation[0],
                None => !accepted,
            },
    {
        let ghost before = self@;
        let current = self.people.pop_front().unwrap();
        self.people.push_back(current.clone());
        proof {
            lemma_rotate_nothing(before.rotation);
            lemma_rotate_one_more(before.rotation, 0);
            assert(self@.rotation =~= before.rotation.drop_first().push(before.rotation[0]));
            lemma_rotate_keeps_elements(before.rotation, 1);
            assert forall|i: int| 0 <= i < self@.lookahead.len() implies self@.rotation.contains(
                #[trigger] self@.lookahead[i],
            ) by {
                assert(before.rotation.contains(before.lookahead[i]));
            }
        }
        if accepted {
            Some(current)
        } else {
            None
        }
    }

    /// Picks one profile: rotates step by step, draws a verdict for each
    /// candidate, and returns the first candidate that is accepted. A profile
    /// that is alone in the rotation is returned at the first step, whatever
    /// the verdict, and so is the candidate that follows `REJECTION_LIMIT`
    /// rejected ones.
    pub fn pick_one(&mut self, rng: &mut RandomSource) -> (pick: Rc<Profile>)
        requires
            old(self)@.wf(),
        ensures
            final(self)@.wf(),
            goes_on(old(rng).drawn(), final(rng).drawn()),
            picked(
                old(self)@,
                final(self)@,
                *pick,
                drawn_between(old(rng).drawn(), final(rng).drawn()),
            ),
            final(self)@.rotation.last() == *pick,
            final(self)@.rotation.len() == old(self)@.rotation.len(),
            final(self)@.rotation.to_multiset() == old(self)@.rotation.to_multiset(),
            final(rng).seed() == old(rng).seed(),
            final(rng).orders() == old(rng).orders(),
    {
        let ghost before = self@;
        let ghost start = rng.drawn();
        let ghost mut steps: nat = 0;
        let alone = self.people.len() == 1;
        let mut budget: u64 = REJECTION_LIMIT;
        proof {
            lemma_rotate_nothing(before.rotation);
            assert(start.take(start.len() as int) =~= start);
        }
        loop
            invariant
                before == old(self)@,
                start == old(rng).drawn(),
                rng.seed() == old(rng).seed(),
                rng.orders() == old(rng).orders(),
                before.wf(),
                self@.wf(),
                self@.rotation == rotate_left(before.rotation, steps),
                self@.lookahead == before.lookahead,
                self@.batch_size == before.batch_size,
                alone == before.alone(),
                goes_on(start, rng.drawn()),
                rng.drawn().len() == start.len() + steps,
                forall|k: int|
                    1 <= k <= steps ==> !settles(
                        #[trigger] drawn_between(start, rng.drawn()).take(k),
                        alone,
                    ),
                steps + budget == REJECTION_LIMIT,
            decreases budget,
        {
            let ghost rejected = drawn_between(start, rng.drawn());
            let accepted = rng.accept();
            let settled = accepted || alone || budget == 0;
            let outcome = self.examine(settled);
            proof {
                let draws = drawn_between(start, rng.drawn());
                assert(draws =~= rejected.push(accepted));
                assert(rng.drawn().take(start.len() as int) =~= start);
                assert(settled == settles(draws, alone));
                assert forall|k: int| 1 <= k <= steps implies !settles(
                    #[trigger] draws.take(k),
                    alone,
                ) by {
                    assert(draws.take(k) =~= rejected.take(k));
                }
                assert(draws.take(steps as int + 1) =~= draws);
                lemma_rotate_twice(before.rotation, steps, 1);
                steps = steps + 1;
            }
            match outcome {
                Some(pick) => {
                    proof {
                        lemma_pick_keeps_people(
                            before,
                            self@,
                            record_of(pick),
                            drawn_between(start, rng.drawn()),
                        );
                    }
                    return pick;
                },
                None => {
                    budget = budget - 1;
                },
            }
        }
    }

    /// Fills the lookahead up to its target, one pick at a time, and returns
    /// the picks it added, in the order it added them.
    pub fn fill_ready_queue(&mut self, rng: &mut RandomSource) -> (newly_added: Vec<Rc<Profile>>)
        requires
            old(self)@.wf(),
        ensures
            final(self)@.wf(),
            final(self)@.replenished(),
            goes_on(old(rng).drawn(), final(rng).drawn()),
            refilled(
                old(self)@,
                final(self)@,
                records(newly_added@),
                drawn_between(old(rng).drawn(), final(rng).drawn()),
            ),
            old(self)@.shortfall() == 0 ==> *final(rng) == *old(rng),
            final(self)@.rotation.len() == old(self)@.rotation.len(),
            final(self)@.rotation.to_multiset() == old(self)@.rotation.to_multiset(),
            final(rng).seed() == old(rng).seed(),
            final(rng).orders() == old(rng).orders(),
    {
        let ghost before = self@;
        let ghost start = rng.drawn();
        let mut newly_added: Vec<Rc<Profile>> = Vec::new();
        let target = self.batch_size * LOOKAHEAD_BATCHES;
        proof {
            lemma_rotate_nothing(before.rotation);
            assert(start.take(start.len() as int) =~= start);
            assert(drawn_between(start, start) =~= Seq::<bool>::empty());
            assert(records(newly_added@) =~= picks_of(before.rotation, Seq::<bool>::empty()));
            assert(before.lookahead + records(newly_added@) =~= before.lookahead);
        }
        while self.ready_queue.len() < target
            invariant
                before == old(self)@,
                start == old(rng).drawn(),
                rng.seed() == old(rng).seed(),
                rng.orders() == old(rng).orders(),
                before.wf(),
                self@.wf(),
                target == before.lookahead_target(),
                self@.batch_size == before.batch_size,
                self@.lookahead == before.lookahead + records(newly_added@),
                goes_on(start, rng.drawn()),
                ends_with_a_pick(drawn_between(start, rng.drawn()), before.alone()),
                records(newly_added@) == picks_of(
                    before.rotation,
                    drawn_between(start, rng.drawn()),
                ),
                self@.rotation == rotate_left(
                    before.rotation,
                    drawn_between(start, rng.drawn()).len(),
                ),
                before.lookahead.len() >= target ==> newly_added@.len() == 0,
                before.lookahead.len() >= target ==> *rng == *old(rng),
                before.lookahead.len() < target ==> self@.lookahead.len() <= target,
            decreases target - self.ready_queue.len(),
        {
            let ghost earlier = self@;
            let ghost added = records(newly_added@);
            let ghost drawn_earlier = rng.drawn();
            let ghost run = drawn_between(start, drawn_earlier);
            let pf = self.pick_one(rng);
            let ghost latest = record_of(pf);
            proof {
                let draws = drawn_between(drawn_earlier, rng.drawn());
                lemma_rotate_keeps_elements(before.rotation, run.len());
                assert(rng.drawn().take(start.len() as int) =~= drawn_earlier.take(
                    start.len() as int,
                ));
                assert(drawn_between(start, rng.drawn()) =~= run + draws);
                lemma_one_more_pick(run, draws, before.alone());
                lemma_rotate_twice(before.rotation, run.len(), draws.len());
                lemma_moved_after_rotation(before.rotation, run.len(), draws.len());
                assert(picks_of(before.rotation, run + draws) =~= added.push(latest));
                lemma_rotate_keeps_elements(before.rotation, (run + draws).len());
                lemma_picks_are_people(before.rotation, run + draws);
                assert(added.push(latest)[added.len() as int] == latest);
            }
            let shared = pf.clone();
            assert(record_of(shared) == latest);
            self.ready_queue.push_back(shared);
            newly_added.push(pf);
            proof {
                assert(records(newly_added@) =~= added.push(latest));
                assert(self@.lookahead =~= earlier.lookahead.push(latest));
                assert(self@.lookahead =~= before.lookahead + records(newly_added@));
                assert forall|i: int| 0 <= i < self@.lookahead.len() implies self@.rotation.contains(
                    #[trigger] self@.lookahead[i],
                ) by {
                    if i < earlier.lookahead.len() {
                        assert(self@.lookahead[i] == earlier.lookahead[i]);
                    }
                }
            }
        }
        proof {
            lemma_rotate_keeps_elements(
                before.rotation,
                drawn_between(start, rng.drawn()).len(),
            );
        }
        newly_added
    }

    /// Takes the next batch off the front of the lookahead: `batch_size`
    /// picks, or all there are where the lookahead is shorter.
    pub fn take_batch(&mut self) -> (current: Vec<Rc<Profile>>)
        requires
            old(self)@.wf(),
        ensures
            final(self)@.wf(),
            final(self)@ == old(self)@.drained(),
            records(current@) == old(self)@.lookahead.take(old(self)@.next_batch_len() as int),
            current@.len() == old(self)@.next_batch_len(),
    {
        let ghost before = self@;
        let mut current: Vec<Rc<Profile>> = Vec::new();
        proof {
            assert(records(current@) =~= before.lookahead.take(0));
            assert(self@.lookahead =~= before.lookahead.skip(0));
        }
        while current.len() < self.batch_size && self.ready_queue.len() > 0
            invariant
                before == old(self)@,
                before.wf(),
                self@.rotation == before.rotation,
                self@.batch_size == before.batch_size,
                current@.len() <= before.next_batch_len(),
                records(current@) == before.lookahead.take(current@.len() as int),
                self@.lookahead == before.lookahead.skip(current@.len() as int),
            decreases self.ready_queue@.len(),
        {
            let ghost taken = current@.len() as int;
            let ghost shown_so_far = records(current@);
            let ghost waiting = self@.lookahead;
            let shown = self.ready_queue.pop_front().unwrap();
            let ghost latest = record_of(shown);
            assert(latest == waiting[0]);
            assert(self@.lookahead =~= waiting.drop_first());
            current.push(shown);
            proof {
                assert(records(current@) =~= shown_so_far.push(latest));
                assert(records(current@) =~= before.lookahead.take(taken + 1));
                assert(self@.lookahead =~= before.lookahead.skip(taken + 1));
            }
        }
        proof {
            assert(self@ =~= before.drained());
            assert forall|i: int| 0 <= i < self@.lookahead.len() implies self@.rotation.contains(
                #[trigger] self@.lookahead[i],
            ) by {
                assert(self@.lookahead[i] == before.lookahead[i + current@.len()]);
            }
        }
        current
    }

    /// The number of profiles in a batch.
    pub fn batch_size(&self) -> (size: usize)
        ensures
            size == self@.batch_size,
    {
        self.batch_size
    }

    /// The number of profiles in the rotation.
    pub fn rotation_len(&self) -> (len: usize)
        ensures
            len == self@.rotation.len(),
    {
        self.people.len()
    }

    /// The number of picks in the lookahead.
    pub fn lookahead_len(&self) -> (len: usize)
        ensures
            len == self@.lookahead.len(),
    {
        self.ready_queue.len()
    }

    /// The profile at place `index` of the rotation.
    pub fn rotation_at(&self, index: usize) -> (person: &Rc<Profile>)
        requires
            index < self@.rotation.len(),
        ensures
            **person == self@.rotation[index as int],
    {
        &self.people[index]
    }

    /// The pick at place `index` of the lookahead.
    pub fn lookahead_at(&self, index: usize) -> (pick: &Rc<Profile>)
        requires
            index < self@.lookahead.len(),
        ensures
            **pick == self@.lookahead[index as int],
    {
        &self.ready_queue[index]
    }
}

} // verus!
