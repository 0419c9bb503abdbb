//! The daemon's version, and what a version has to look like.
use vstd::prelude::*;

use crate::conflict::{parse_number, parsed_number};
use crate::text::{concat, cut_once, pieces, same_text, split, split_once, text_views};
use vstd::string::StringExecFns;

verus! {

pub const VERSION: &'static str = "0.1.0";

pub const GIT_COMMIT_SHORT: &'static str = "unknown";

/// Three numbers, separated by dots.
pub open spec fn is_release(text: Seq<char>) -> bool {
    let parts = pieces(text, '.');
    parts.len() == 3 && forall|i: int|
        0 <= i < 3 ==> parsed_number(#[trigger] parts[i]) is Some
}

pub open spec fn is_prerelease_label(label: Seq<char>) -> bool {
    label == "alpha"@ || label == "beta"@ || label == "rc"@
}

/// The message of a problem in `version`.
pub open spec fn version_message(problem: Seq<char>, version: Seq<char>) -> Seq<char> {
    problem + " '"@ + version + "'"@
}

/// What is wrong with a version: a release of three numbers, optionally
/// followed by a dash and `alpha`, `beta` or `rc` with a number from 1 to 255.
pub open spec fn version_problem(version: Seq<char>) -> Option<Seq<char>> {
    let (release, prerelease) = match cut_once(version, '-') {
        Some((release, prerelease)) => (release, Some(prerelease)),
        None => (version, None),
    };
    if !is_release(release) {
        Some(version_message("invalid release version"@, version))
    } else {
        match prerelease {
            None => None,
            Some(value) => match cut_once(value, '.') {
                None => Some(version_message("invalid prerelease version"@, version)),
                Some((label, number)) => if !is_prerelease_label(label) {
                    Some(version_message("unsupported prerelease label in"@, version))
                } else {
                    match parsed_number(number) {
                        None => Some(version_message("invalid prerelease number in"@, version)),
                        Some(n) => if n == 0 || n > 255 {
                            Some(
                                version_message(
                                    "prerelease number must be between 1 and 255 in"@,
                                    version,
                                ),
                            )
                        } else {
                            None
                        },
                    }
                },
            },
        }
    }
}

fn complain(problem: &str, version: &str) -> (r: String)
    ensures
        r@ == version_message(problem@, version@),
{
    let mut text = concat(problem, " '");
    text.append(version);
    text.append("'");
    text
}

fn release_is_valid(text: &str) -> (r: bool)
    ensures
        r == is_release(text@),
{
    let parts = split(text, '.');
    assert(text_views(parts@).len() == parts@.len());
    if parts.len() != 3 {
        return false;
    }
    let mut i: usize = 0;
    while i < 3
        invariant
            i <= 3,
            parts@.len() == 3,
            text_views(parts@) == pieces(text@, '.'),
            forall|j: int| 0 <= j < i ==> parsed_number(#[trigger] pieces(text@, '.')[j]) is Some,
        decreases 3 - i,
    {
        assert(pieces(text@, '.')[i as int] == parts@[i as int]@);
        if parse_number(parts[i].as_str()).is_none() {
            return false;
        }
        i = i + 1;
    }
    true
}

/// Whether `version` can be a version of the daemon, and if not, why.
pub fn validate_version(version: &str) -> (r: Result<(), String>)
    ensures
        match r {
            Ok(_) => version_problem(version@) is None,
            Err(message) => version_problem(version@) == Some(message@),
        },
{
    let (release, prerelease) = match split_once(version, '-') {
        Some((release, prerelease)) => (release, Some(prerelease)),
        None => (version.to_owned(), None),
    };
    if !release_is_valid(release.as_str()) {
        return Err(complain("invalid release version", version));
    }
    let value = match prerelease {
        Some(value) => value,
        None => {
            return Ok(());
        },
    };
    let (label, number) = match split_once(value.as_str(), '.') {
        Some(parts) => parts,
        None => {
            return Err(complain("invalid prerelease version", version));
        },
    };
    if !same_text(label.as_str(), "alpha") && !same_text(label.as_str(), "beta") && !same_text(
        label.as_str(),
        "rc",
    ) {
        return Err(complain("unsupported prerelease label in", version));
    }
    match parse_number(number.as_str()) {
        None => Err(complain("invalid prerelease number in", version)),
        Some(n) => if n == 0 || n > 255 {
            Err(complain("prerelease number must be between 1 and 255 in", version))
        } else {
            Ok(())
        },
    }
}

/// A version is three numbers, and behind a dash one of the three labels with
/// a number from one to two hundred and fifty-five.
pub proof fn law_a_version_has_its_form(
    version: &str,
    cut: Option<(String, String)>,
    release: &str,
    parts: Vec<String>,
    r: Result<(), String>,
)
    requires
        call_ensures(validate_version, (version,), r),
        call_ensures(split_once, (version, '-'), cut),
        release@ == if cut is Some {
            (cut->0).0@
        } else {
            version@
        },
        call_ensures(split, (release, '.'), parts),
    ensures
        r is Ok ==> parts@.len() == 3 && forall|i: int|
            0 <= i < 3 ==> parsed_number((#[trigger] parts@[i])@) is Some,
        cut is None ==> (r is Ok <==> parts@.len() == 3 && forall|i: int|
            0 <= i < 3 ==> parsed_number((#[trigger] parts@[i])@) is Some),
        r is Ok && cut is Some ==> exists|label: Seq<char>, number: Seq<char>|
            {
                &&& (cut->0).1@ == #[trigger] dotted(label, number)
                &&& label == "alpha"@ || label == "beta"@ || label == "rc"@
                &&& parsed_number(number) matches Some(n) && 1 <= n <= 255
            },
{
    let views = text_views(parts@);
    assert(views.len() == parts@.len());
    assert forall|i: int| 0 <= i < parts@.len() implies #[trigger] views[i] == parts@[i]@ by {}
    if is_release(release@) {
        assert forall|i: int| 0 <= i < 3 implies parsed_number((#[trigger] parts@[i])@) is Some by {
            assert(views[i] == parts@[i]@);
        }
    }
    if parts@.len() == 3 && forall|i: int|
        0 <= i < 3 ==> parsed_number((#[trigger] parts@[i])@) is Some {
        assert forall|i: int| 0 <= i < 3 implies parsed_number(#[trigger] views[i]) is Some by {
            assert(views[i] == parts@[i]@);
        }
        assert(is_release(release@));
    }
    if r is Ok && cut is Some {
        let value = (cut->0).1@;
        let (label, number) = cut_once(value, '.')->0;
        crate::text::lemma_first_is_found(value, '.');
        assert(value =~= dotted(label, number));
    }
}

/// A label and a number with a dot between them.
pub open spec fn dotted(label: Seq<char>, number: Seq<char>) -> Seq<char> {
    label.push('.') + number
}

} // verus!
