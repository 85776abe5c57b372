//! The random source: one ChaCha generator, seeded once from 32 bytes, that
//! every random decision of the feed is drawn from.

use crate::profile::Profile;
use rand::Rng;
use rand::SeedableRng;
use vstd::prelude::*;

verus! {

/// A candidate is accepted with a chance of `ACCEPT_NUMERATOR` in
/// `ACCEPT_DENOMINATOR`.
pub const ACCEPT_NUMERATOR: u32 = 3;

/// See `ACCEPT_NUMERATOR`.
pub const ACCEPT_DENOMINATOR: u32 = 10;

/// `rand::ChaChaRng`, the generator of the `rand` crate. Nothing is known of
/// what is inside.
#[verifier::external_type_specification]
#[verifier::external_body]
#[allow(deprecated)]
pub struct ExChaChaRng(rand::ChaChaRng);

/// `SeedableRng::from_seed` of `rand::ChaChaRng`: a generator whose stream is
/// fixed by the seed. Nothing is claimed of the generator.
#[verifier::external_body]
#[allow(deprecated)]
fn generator_from_seed(seed: [u8; 32]) -> (generator: rand::ChaChaRng) {
    rand::ChaChaRng::from_seed(seed)
}

/// `Rng::gen_ratio` on `rand::ChaChaRng`: a boolean that is true with a
/// chance of `numerator` in `denominator`. The call panics on a zero
/// denominator and on a numerator above the denominator, which `requires`
/// leaves out. As documented, the result is certain only at the two ends.
#[verifier::external_body]
#[allow(deprecated)]
fn draw_ratio(generator: &mut rand::ChaChaRng, numerator: u32, denominator: u32) -> (drawn: bool)
    requires
        denominator > 0,
        numerator <= denominator,
    ensures
        numerator == denominator ==> drawn,
        numerator == 0 ==> !drawn,
{
    generator.gen_ratio(numerator, denominator)
}

/// `Rng::shuffle` on `rand::ChaChaRng`: permutes the slice in place by
/// swapping its elements. Whatever is drawn, the result holds each element
/// as often as before.
#[verifier::external_body]
#[allow(deprecated)]
fn shuffle_in_place(generator: &mut rand::ChaChaRng, people: &mut Vec<Profile>)
    ensures
        final(people)@.len() == old(people)@.len(),
        final(people)@.to_multiset() == old(people)@.to_multiset(),
{
    generator.shuffle(people);
}

/// The random source of a process: a generator, the seed it was made from,
/// and a record of what has been drawn from it, the verdicts of `accept` and
/// the orders of `shuffle`. The generator itself is opaque: two sources are
/// known to be equal only where one of them has not been used since.
pub struct RandomSource {
    seed: [u8; 32],
    generator: rand::ChaChaRng,
    drawn: Ghost<Seq<bool>>,
    orders: Ghost<Seq<Seq<Profile>>>,
}

/// `later` goes on from `earlier`: nothing that was drawn is forgotten.
pub open spec fn goes_on(earlier: Seq<bool>, later: Seq<bool>) -> bool {
    &&& earlier.len() <= later.len()
    &&& later.take(earlier.len() as int) == earlier
}

/// What was drawn between two states of a source, oldest first.
pub open spec fn drawn_between(earlier: Seq<bool>, later: Seq<bool>) -> Seq<bool> {
    later.skip(earlier.len() as int)
}

impl RandomSource {
    /// The seed that the source was made from.
    pub closed spec fn seed(&self) -> Seq<u8> {
        self.seed@
    }

    /// The verdicts that `accept` has drawn from the source since it was
    /// made, oldest first.
    pub closed spec fn drawn(&self) -> Seq<bool> {
        self.drawn@
    }

    /// The orders in which `shuffle` has left the people it was given since
    /// the source was made, oldest first.
    pub closed spec fn orders(&self) -> Seq<Seq<Profile>> {
        self.orders@
    }

    /// A source whose stream is fixed by `seed`, and from which nothing has
    /// been drawn yet.
    pub fn from_seed(seed: [u8; 32]) -> (source: RandomSource)
        ensures
            source.seed() == seed@,
            source.drawn() == Seq::<bool>::empty(),
            source.orders() == Seq::<Seq<Profile>>::empty(),
    {
        RandomSource {
            seed,
            generator: generator_from_seed(seed),
            drawn: Ghost(Seq::empty()),
            orders: Ghost(Seq::empty()),
        }
    }

    /// The seed that the source was made from.
    pub fn seed_bytes(&self) -> (seed: [u8; 32])
        ensures
            seed@ == self.seed(),
    {
        self.seed
    }

    /// Draws whether a candidate is accepted: true with a chance of 3 in 10.
    /// The verdict is added to what the source has drawn.
    pub fn accept(&mut self) -> (accepted: bool)
        ensures
            final(self).seed() == old(self).seed(),
            final(self).drawn() == old(self).drawn().push(accepted),
            final(self).orders() == old(self).orders(),
    {
        let accepted = draw_ratio(&mut self.generator, ACCEPT_NUMERATOR, ACCEPT_DENOMINATOR);
        self.drawn = Ghost(self.drawn@.push(accepted));
        accepted
    }

    /// Puts `people` into a random order: the same people, each as often as
    /// before. The order is added to the orders that the source has made.
    pub fn shuffle(&mut self, people: &mut Vec<Profile>)
        ensures
            final(self).seed() == old(self).seed(),
            final(self).drawn() == old(self).drawn(),
            final(self).orders() == old(self).orders().push(final(people)@),
            final(people)@.len() == old(people)@.len(),
            final(people)@.to_multiset() == old(people)@.to_multiset(),
    {
        shuffle_in_place(&mut self.generator, people);
        self.orders = Ghost(self.orders@.push(people@));
    }
}

} // verus!
