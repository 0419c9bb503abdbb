//! What the daemon says of itself when it starts, or does not.
use vstd::prelude::*;

use crate::multi_runtime::ProfileSummary;
use crate::text::concat;
use vstd::string::StringExecFns;

verus! {

/// Why the daemon does not run, with the words of the cause.
#[derive(Debug, PartialEq, Eq)]
pub enum BootstrapError {
    /// Another daemon serves the same directory.
    AlreadyRunning(String),
    Lock(String),
    StateDb(String),
    Runtime(String),
}

impl BootstrapError {
    pub open spec fn words(&self) -> Seq<char> {
        match self {
            BootstrapError::AlreadyRunning(cause) => "daemon already running: "@ + cause@,
            BootstrapError::Lock(cause) => "failed to acquire daemon lock: "@ + cause@,
            BootstrapError::StateDb(cause) => "failed to open durable state DB: "@ + cause@,
            BootstrapError::Runtime(cause) => "daemon runtime error: "@ + cause@,
        }
    }

    /// The error in words.
    pub fn message(&self) -> (r: String)
        ensures
            r@ == self.words(),
    {
        match self {
            BootstrapError::AlreadyRunning(cause) => concat(
                "daemon already running: ",
                cause.as_str(),
            ),
            BootstrapError::Lock(cause) => concat(
                "failed to acquire daemon lock: ",
                cause.as_str(),
            ),
            BootstrapError::StateDb(cause) => concat(
                "failed to open durable state DB: ",
                cause.as_str(),
            ),
            BootstrapError::Runtime(cause) => concat("daemon runtime error: ", cause.as_str()),
        }
    }
}

/// One profile in the starting message.
pub open spec fn profile_words(profile: ProfileSummary) -> Seq<char> {
    profile.id@ + "("@ + profile.provider_kind@ + ", "@ + profile.sync_mode.spelling()@ + ")"@
}

/// Profiles in the starting message.
pub open spec fn profiles_words(profiles: Seq<ProfileSummary>) -> Seq<char>
    decreases profiles.len(),
{
    if profiles.len() == 0 {
        Seq::empty()
    } else if profiles.len() == 1 {
        profile_words(profiles[0])
    } else {
        profiles_words(profiles.drop_last()) + ", "@ + profile_words(profiles.last())
    }
}

/// The profiles that start, in words.
pub fn log_started(profiles: &Vec<ProfileSummary>) -> (r: String)
    ensures
        r@ == profiles_words(profiles@),
{
    let mut words = String::new();
    let mut i: usize = 0;
    assert(profiles@.take(0) =~= Seq::empty());
    while i < profiles.len()
        invariant
            i <= profiles@.len(),
            words@ == profiles_words(profiles@.take(i as int)),
        decreases profiles@.len() - i,
    {
        assert(profiles@.take(i + 1).drop_last() =~= profiles@.take(i as int));
        let ghost before = words@;
        if i > 0 {
            words.append(", ");
        }
        let ghost joined = words@;
        let profile = &profiles[i];
        words.append(profile.id.as_str());
        words.append("(");
        words.append(profile.provider_kind.as_str());
        words.append(", ");
        words.append(profile.sync_mode.as_config_value());
        words.append(")");
        assert(words@ =~= joined + profile_words(*profile));
        if i == 0 {
            assert(joined =~= Seq::empty());
            assert(words@ =~= profile_words(*profile));
        }
        i = i + 1;
    }
    assert(profiles@.take(i as int) =~= profiles@);
    words
}

} // verus!
