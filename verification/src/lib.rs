//! A continuously refilled, randomized, anti-repeat feed of profiles, handed
//! out in batches of a fixed size.
//!
//! A `FeedSource` keeps every configured profile in a rotating queue and
//! picks from it by rejection sampling, so that nobody is shown twice in a
//! row too often and nobody is left out for good. The picks wait in a
//! lookahead queue of thirty batches, from which `fs_tick` hands out one
//! batch at a time. All randomness comes from one `RandomSource`.

pub mod boundary;
pub mod engine;
pub mod printable;
pub mod profile;
pub mod random;
pub mod rotation;
pub mod run;

pub use boundary::fs_create;
pub use boundary::fs_preload_all;
pub use boundary::fs_tick;
pub use boundary::Tick;
pub use engine::FeedSource;
pub use printable::get_printable_rseed;
pub use profile::Config;
pub use profile::ConfigError;
pub use profile::Profile;
pub use random::RandomSource;
