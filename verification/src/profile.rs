//! The records that the feed hands out, and the configuration it is built
//! from.

use vstd::prelude::*;

verus! {

/// The lookahead of a feed holds this many batches at rest.
pub const LOOKAHEAD_BATCHES: usize = 30;

/// One person of the feed: an avatar, and optionally an identifier and a name.
#[derive(Clone, Debug, PartialEq, Eq)]
pub struct Profile {
    avatar: String,
    student_id: Option<String>,
    student_name: Option<String>,
}

/// What a `Profile` holds, as mathematical values.
pub ghost struct ProfileView {
    pub avatar: Seq<char>,
    pub student_id: Option<Seq<char>>,
    pub student_name: Option<Seq<char>>,
}

/// The text of an optional string.
pub open spec fn text_of(field: Option<String>) -> Option<Seq<char>> {
    match field {
        Some(s) => Some(s@),
        None => None,
    }
}

impl View for Profile {
    type V = ProfileView;

    closed spec fn view(&self) -> ProfileView {
        ProfileView {
            avatar: self.avatar@,
            student_id: text_of(self.student_id),
            student_name: text_of(self.student_name),
        }
    }
}

impl Profile {
    /// A profile with the given avatar, identifier and name.
    pub fn new(avatar: String, student_id: Option<String>, student_name: Option<String>) -> (p:
        Profile)
        ensures
            p@.avatar == avatar@,
            p@.student_id == text_of(student_id),
            p@.student_name == text_of(student_name),
    {
        Profile { avatar, student_id, student_name }
    }

    /// The avatar identifier.
    pub fn avatar(&self) -> (a: &str)
        ensures
            a@ == self@.avatar,
    {
        self.avatar.as_str()
    }

    /// The student identifier, where there is one.
    pub fn student_id(&self) -> (id: &Option<String>)
        ensures
            text_of(*id) == self@.student_id,
    {
        &self.student_id
    }

    /// The student name, where there is one.
    pub fn student_name(&self) -> (name: &Option<String>)
        ensures
            text_of(*name) == self@.student_name,
    {
        &self.student_name
    }
}

/// The avatar identifiers of a sequence of profiles, in order.
pub open spec fn avatars_of(profiles: Seq<Profile>) -> Seq<Seq<char>> {
    Seq::new(profiles.len(), |i: int| profiles[i]@.avatar)
}

/// What a feed is built from: the people to show and the size of a batch.
#[derive(Clone, Debug)]
pub struct Config {
    people: Vec<Profile>,
    batch_size: usize,
}

/// What a `Config` holds, as mathematical values.
pub ghost struct ConfigView {
    pub people: Seq<Profile>,
    pub batch_size: nat,
}

impl View for Config {
    type V = ConfigView;

    closed spec fn view(&self) -> ConfigView {
        ConfigView { people: self.people@, batch_size: self.batch_size as nat }
    }
}

impl ConfigView {
    /// How many profiles the lookahead of a feed with this configuration
    /// holds at rest.
    pub open spec fn lookahead_target(self) -> nat {
        self.batch_size * LOOKAHEAD_BATCHES as nat
    }
}

impl Config {
    /// A configuration of the given people and batch size.
    pub fn new(people: Vec<Profile>, batch_size: usize) -> (c: Config)
        ensures
            c@.people == people@,
            c@.batch_size == batch_size,
    {
        Config { people, batch_size }
    }

    /// The people to show, in the order they were given.
    pub fn people(&self) -> (p: &Vec<Profile>)
        ensures
            p@ == self@.people,
    {
        &self.people
    }

    /// The size of a batch.
    pub fn batch_size(&self) -> (b: usize)
        ensures
            b == self@.batch_size,
    {
        self.batch_size
    }

    /// Takes the configuration apart.
    pub fn into_parts(self) -> (parts: (Vec<Profile>, usize))
        ensures
            parts.0@ == self@.people,
            parts.1 == self@.batch_size,
    {
        (self.people, self.batch_size)
    }
}

/// Why a configuration was turned down.
#[derive(Clone, Copy, Debug, PartialEq, Eq, Structural)]
pub enum ConfigError {
    /// There is nobody to show.
    NoPeople,
    /// The batch size is zero.
    ZeroBatchSize,
    /// Thirty batches are more than a `usize` can count.
    BatchSizeTooLarge,
}

/// The verdict on a configuration: the first reason to turn it down, if any.
pub open spec fn config_error(config: ConfigView) -> Option<ConfigError> {
    if config.people.len() == 0 {
        Some(ConfigError::NoPeople)
    } else if config.batch_size == 0 {
        Some(ConfigError::ZeroBatchSize)
    } else if config.lookahead_target() > usize::MAX {
        Some(ConfigError::BatchSizeTooLarge)
    } else {
        None
    }
}

} // verus!
