//! The operations that a host drives a feed with: create it from a
//! configuration, list what to preload, and advance it by one batch.

use crate::engine::built_from;
use crate::engine::lemma_refill_keeps_people;
use crate::engine::picks_of;
use crate::engine::records;
use crate::engine::refilled;
use crate::engine::FeedSource;
use crate::engine::FeedView;
use crate::profile::avatars_of;
use crate::profile::config_error;
use crate::profile::Config;
use crate::profile::ConfigError;
use crate::profile::Profile;
use crate::random::drawn_between;
use crate::random::goes_on;
use crate::random::RandomSource;
use std::rc::Rc;
use vstd::prelude::*;

verus! {

/// The texts of a sequence of strings.
pub open spec fn texts(strings: Seq<String>) -> Seq<Seq<char>> {
    Seq::new(strings.len(), |i: int| strings[i]@)
}

/// What one advance hands to the host: the batch to show now, and the avatars
/// of the picks that were added to the lookahead, for the host to prefetch.
pub struct Tick {
    current: Vec<Rc<Profile>>,
    preload_images: Vec<String>,
}

/// What a `Tick` holds, as mathematical values.
pub ghost struct TickView {
    pub current: Seq<Profile>,
    pub preload_images: Seq<Seq<char>>,
}

impl View for Tick {
    type V = TickView;

    closed spec fn view(&self) -> TickView {
        TickView { current: records(self.current@), preload_images: texts(self.preload_images@) }
    }
}

impl Tick {
    /// The batch to show now, oldest pick first.
    pub fn current(&self) -> (batch: &Vec<Rc<Profile>>)
        ensures
            records(batch@) == self@.current,
    {
        &self.current
    }

    /// The avatars to prefetch, in the order in which their picks were made.
    pub fn preload_images(&self) -> (avatars: &Vec<String>)
        ensures
            texts(avatars@) == self@.preload_images,
    {
        &self.preload_images
    }
}

/// One advance made with the verdicts `draws`: the batch is the front of the
/// lookahead, and the rest of the lookahead was refilled with the picks that
/// the verdicts make, whose avatars are the ones to prefetch.
pub open spec fn ticked(before: FeedView, after: FeedView, tick: TickView, draws: Seq<bool>) -> bool {
    let added = picks_of(before.rotation, draws);
    &&& tick.current == before.lookahead.take(before.next_batch_len() as int)
    &&& tick.preload_images == avatars_of(added)
    &&& refilled(before.drained(), after, added, draws)
}

/// The same verdicts on the same state give the same advance: the batch, the
/// avatars to prefetch and the state after it depend on nothing else.
pub proof fn lemma_tick_is_determined(
    before: FeedView,
    draws: Seq<bool>,
    first_after: FeedView,
    first_tick: TickView,
    second_after: FeedView,
    second_tick: TickView,
)
    requires
        ticked(before, first_after, first_tick, draws),
        ticked(before, second_after, second_tick, draws),
    ensures
        first_tick == second_tick,
        first_after == second_after,
{
}

/// An advance shows the front of the lookahead, as many picks as a batch
/// holds or all there are, and leaves the lookahead at least as long as its
/// target, and exactly as long where it was so before, with nobody lost from
/// the rotation or added to it.
pub proof fn lemma_tick_restores_the_lookahead(
    before: FeedView,
    after: FeedView,
    tick: TickView,
    draws: Seq<bool>,
)
    requires
        before.wf(),
        ticked(before, after, tick, draws),
    ensures
        tick.current.len() == before.next_batch_len(),
        after.replenished(),
        before.lookahead.len() == before.lookahead_target() ==> after.lookahead.len()
            == after.lookahead_target(),
        after.rotation.len() == before.rotation.len(),
        after.rotation.to_multiset() == before.rotation.to_multiset(),
{
    lemma_refill_keeps_people(before.drained(), after, picks_of(before.rotation, draws), draws);
}

/// `serde_json::Error`, the error of the JSON encoder. Nothing is known of
/// what is inside.
#[verifier::external_type_specification]
#[verifier::external_body]
pub struct ExJsonError(serde_json::Error);

/// The JSON text that `serde_json` writes for an array of strings.
pub uninterp spec fn json_array_text(items: Seq<Seq<char>>) -> Seq<char>;

/// `serde_json::to_string` on a vector of strings: it succeeds, and the text
/// is the JSON array of the strings, which depends on the strings alone. The
/// encoder is documented to fail only where a value's own `Serialize` fails
/// or a map has a key that is no string: a string and a vector of strings
/// do neither, and the text is written into memory.
#[verifier::external_body]
fn encode_string_array(items: &Vec<String>) -> (encoded: Result<String, serde_json::Error>)
    ensures
        encoded is Ok,
        encoded matches Ok(text) ==> text@ == json_array_text(texts(items@)),
{
    serde_json::to_string(items)
}

/// The response for an encoder's result: its text, or nothing where the
/// encoder failed.
pub fn encoded_text(encoded: Result<String, serde_json::Error>) -> (response: Option<String>)
    ensures
        response == match encoded {
            Ok(text) => Some(text),
            Err(_) => None,
        },
{
    match encoded {
        Ok(text) => Some(text),
        Err(_) => None,
    }
}

/// Creates a feed from a configuration, or says why the configuration is
/// turned down: nobody to show, a batch size of zero, or a batch size whose
/// lookahead a `usize` cannot count. Where it is turned down, the random
/// source is left as it was.
pub fn fs_create(config: Config, rng: &mut RandomSource) -> (created: Result<
    FeedSource,
    ConfigError,
>)
    ensures
        match created {
            Ok(feed) => {
                &&& config_error(config@) is None
                &&& feed@.wf()
                &&& feed@.replenished()
                &&& final(rng).orders() == old(rng).orders().push(final(rng).orders().last())
                &&& built_from(
                    config@,
                    final(rng).orders().last(),
                    feed@,
                    drawn_between(old(rng).drawn(), final(rng).drawn()),
                )
                &&& feed@.batch_size == config@.batch_size
                &&& feed@.rotation.len() == config@.people.len()
                &&& feed@.rotation.to_multiset() == config@.people.to_multiset()
                &&& feed@.lookahead.len() == feed@.lookahead_target()
            },
            Err(error) => {
                &&& config_error(config@) == Some(error)
                &&& *final(rng) == *old(rng)
            },
        },
        goes_on(old(rng).drawn(), final(rng).drawn()),
        final(rng).seed() == old(rng).seed(),
{
    FeedSource::from_config(config, rng)
}

/// The avatars of the whole lookahead, oldest pick first.
pub fn preload_avatars(fs: &FeedSource) -> (avatars: Vec<String>)
    ensures
        texts(avatars@) == avatars_of(fs@.lookahead),
{
    let mut avatars: Vec<String> = Vec::new();
    let len = fs.lookahead_len();
    let mut at: usize = 0;
    while at < len
        invariant
            len == fs@.lookahead.len(),
            at <= len,
            avatars@.len() == at,
            forall|i: int| 0 <= i < at ==> (#[trigger] avatars@[i])@ == fs@.lookahead[i]@.avatar,
        decreases len - at,
    {
        let pick = fs.lookahead_at(at);
        avatars.push(pick.avatar().to_owned());
        at = at + 1;
    }
    assert(texts(avatars@) =~= avatars_of(fs@.lookahead));
    avatars
}

/// The avatars of the whole lookahead as a JSON array of strings, oldest
/// pick first. There is always a text: the encoder does not fail on strings.
pub fn fs_preload_all(fs: &FeedSource) -> (response: Option<String>)
    ensures
        response matches Some(text) && text@ == json_array_text(avatars_of(fs@.lookahead)),
{
    let avatars = preload_avatars(fs);
    encoded_text(encode_string_array(&avatars))
}

/// Advances the feed by one batch: takes up to `batch_size` picks off the
/// front of the lookahead, refills the lookahead to its target, and reports
/// the batch and the avatars of the picks that the refill added.
pub fn fs_tick(fs: &mut FeedSource, rng: &mut RandomSource) -> (tick: Tick)
    requires
        old(fs)@.wf(),
    ensures
        final(fs)@.wf(),
        final(fs)@.replenished(),
        goes_on(old(rng).drawn(), final(rng).drawn()),
        ticked(
            old(fs)@,
            final(fs)@,
            tick@,
            drawn_between(old(rng).drawn(), final(rng).drawn()),
        ),
        tick@.current.len() == old(fs)@.next_batch_len(),
        tick@.preload_images.len() == old(fs)@.drained().shortfall(),
        old(fs)@.drained().shortfall() == 0 ==> *final(rng) == *old(rng),
        final(fs)@.rotation.len() == old(fs)@.rotation.len(),
        final(fs)@.rotation.to_multiset() == old(fs)@.rotation.to_multiset(),
        final(rng).seed() == old(rng).seed(),
        final(rng).orders() == old(rng).orders(),
{
    let current = fs.take_batch();
    let newly_added = fs.fill_ready_queue(rng);
    let ghost added = records(newly_added@);
    let mut preload_images: Vec<String> = Vec::new();
    let mut at: usize = 0;
    while at < newly_added.len()
        invariant
            at <= newly_added@.len(),
            preload_images@.len() == at,
            forall|i: int|
                0 <= i < at ==> (#[trigger] preload_images@[i])@ == records(
                    newly_added@,
                )[i]@.avatar,
        decreases newly_added@.len() - at,
    {
        preload_images.push(newly_added[at].avatar().to_owned());
        at = at + 1;
    }
    assert(texts(preload_images@) =~= avatars_of(added));
    Tick { current, preload_images }
}

} // verus!
