//! Glob patterns, matched by the `globset` crate. Every pattern is built with
//! a literal separator (`*` and `?` do not match `/`) and with backslash
//! escapes.
use vstd::prelude::*;

verus! {

/// A set of compiled patterns.
#[verifier::external_type_specification]
#[verifier::external_body]
pub struct ExGlobSet(globset::GlobSet);

/// Patterns on their way into a set.
#[verifier::external_type_specification]
#[verifier::external_body]
pub struct ExGlobSetBuilder(globset::GlobSetBuilder);

/// Most groups of a pattern that may stand inside each other. `globset`
/// builds a pattern by recursion, one level for each of them.
pub const MAX_BRACE_DEPTH: usize = 1000;

/// How the next character of a pattern is read.
#[derive(Clone, Copy, PartialEq, Eq, Structural)]
pub enum Reading {
    Plain,
    /// Behind a backslash.
    Escaped,
    /// Behind the `[` of a class.
    ClassOpened,
    /// Behind the `!` or `^` of a class.
    ClassNegated,
    /// Behind the first character of a class.
    Class,
}

/// What a pattern has come to: how its next character is read, whether the
/// last one was a plain `*`, whether a `}` closes a group, how many groups are
/// open, and how many were at most.
pub struct Nesting {
    pub reading: Reading,
    pub star: bool,
    pub closes: bool,
    pub open: nat,
    pub deepest: nat,
}

/// One more group is open.
pub open spec fn opened(before: Nesting) -> Nesting {
    let open = before.open + 1;
    Nesting {
        open,
        deepest: if open > before.deepest {
            open
        } else {
            before.deepest
        },
        ..before
    }
}

/// One group fewer is open.
pub open spec fn shut(before: Nesting) -> Nesting {
    Nesting {
        open: if before.open > 0 {
            (before.open - 1) as nat
        } else {
            0
        },
        ..before
    }
}

pub open spec fn reading_after(reading: Reading, c: char) -> Reading {
    match reading {
        Reading::Plain => if c == '\\' {
            Reading::Escaped
        } else if c == '[' {
            Reading::ClassOpened
        } else {
            Reading::Plain
        },
        Reading::Escaped => Reading::Plain,
        Reading::ClassOpened => if c == '!' || c == '^' {
            Reading::ClassNegated
        } else {
            Reading::Class
        },
        Reading::ClassNegated => Reading::Class,
        Reading::Class => if c == ']' {
            Reading::Plain
        } else {
            Reading::Class
        },
    }
}

/// Reads one character. A backslash behind a `*` may be an escape or a
/// separator, by the platform: from there on every `{` counts, and no `}`.
pub open spec fn nesting_step(before: Nesting, c: char) -> Nesting {
    let plain = before.reading is Plain;
    let read = if c == '{' && (plain || !before.closes) {
        opened(before)
    } else if c == '}' && plain && before.closes {
        shut(before)
    } else {
        before
    };
    Nesting {
        reading: reading_after(before.reading, c),
        star: plain && c == '*',
        closes: before.closes && !(plain && before.star && c == '\\'),
        ..read
    }
}

pub open spec fn nesting(pattern: Seq<char>) -> Nesting
    decreases pattern.len(),
{
    if pattern.len() == 0 {
        Nesting { reading: Reading::Plain, star: false, closes: true, open: 0, deepest: 0 }
    } else {
        nesting_step(nesting(pattern.drop_last()), pattern.last())
    }
}

/// How many groups of a pattern stand inside each other, at most.
pub open spec fn brace_depth(pattern: Seq<char>) -> nat {
    nesting(pattern).deepest
}

/// Why `globset` rejects a pattern; `None` when it accepts it. `backslash` is
/// whether `\` separates paths on the platform: next to `**` it counts as a
/// separator there, and escapes nothing.
pub uninterp spec fn glob_error(backslash: bool, pattern: Seq<char>) -> Option<Seq<char>>;

/// Patterns a builder holds, in the order they were added.
pub uninterp spec fn builder_patterns(builder: globset::GlobSetBuilder) -> Seq<Seq<char>>;

/// Whether `\` separates paths on the platform the builder was made on.
pub uninterp spec fn builder_backslash(builder: globset::GlobSetBuilder) -> bool;

/// Patterns a set matches, by their sequence numbers.
pub uninterp spec fn set_patterns(set: globset::GlobSet) -> Seq<Seq<char>>;

/// Whether `\` separates paths on the platform the set was made on.
pub uninterp spec fn set_backslash(set: globset::GlobSet) -> bool;

/// Whether a pattern matches a path text. `backslash` is as in
/// [`glob_error`].
pub uninterp spec fn glob_matches(backslash: bool, pattern: Seq<char>, text: Seq<char>) -> bool;

/// Calls `globset::GlobSetBuilder::new`: the builder starts without patterns.
#[verifier::external_body]
pub(crate) fn new_builder() -> (r: globset::GlobSetBuilder)
    ensures
        builder_patterns(r) == Seq::<Seq<char>>::empty(),
{
    globset::GlobSetBuilder::new()
}

/// Calls `globset::GlobSetBuilder::clone`: the copy holds the same patterns,
/// on the same platform.
#[verifier::external_body]
pub(crate) fn copy_builder(builder: &globset::GlobSetBuilder) -> (r: globset::GlobSetBuilder)
    ensures
        builder_patterns(r) == builder_patterns(*builder),
        builder_backslash(r) == builder_backslash(*builder),
{
    builder.clone()
}

/// Calls `globset::GlobBuilder::build`, which parses the pattern, and with
/// what it gives `globset::GlobSetBuilder::add`. The claim is that whether the
/// pattern is accepted, and the text of the error if not, depend on platform
/// and pattern alone, and that an accepted pattern is added behind the others.
/// Deeply nested groups, on which the call runs out of stack, are left out.
#[verifier::external_body]
pub(crate) fn add_pattern(builder: &mut globset::GlobSetBuilder, pattern: &str) -> (r: Result<
    (),
    String,
>)
    requires
        brace_depth(pattern@) <= MAX_BRACE_DEPTH,
    ensures
        builder_backslash(*final(builder)) == builder_backslash(*old(builder)),
        match r {
            Ok(_) => glob_error(builder_backslash(*old(builder)), pattern@) is None
                && builder_patterns(*final(builder)) == builder_patterns(*old(builder)).push(
                pattern@,
            ),
            Err(error) => glob_error(builder_backslash(*old(builder)), pattern@) == Some(error@)
                && builder_patterns(*final(builder)) == builder_patterns(*old(builder)),
        },
{
    match globset::GlobBuilder::new(pattern)
        .literal_separator(true)
        .backslash_escape(true)
        .build() {
        Ok(glob) => {
            builder.add(glob);
            Ok(())
        },
        Err(error) => Err(error.to_string()),
    }
}

/// Calls `globset::GlobSetBuilder::build`: a set that could be built matches
/// the builder's patterns, in their order, on its platform, and without
/// patterns it always can. Nothing more is said of when the build fails: it
/// does when the compiled patterns outgrow the size limit of the regex engine,
/// which depends on the machine.
#[verifier::external_body]
pub(crate) fn build_set(builder: &globset::GlobSetBuilder) -> (r: Option<globset::GlobSet>)
    ensures
        r matches Some(set) ==> set_patterns(set) == builder_patterns(*builder) && set_backslash(
            set,
        ) == builder_backslash(*builder),
        builder_patterns(*builder).len() == 0 ==> r is Some,
{
    builder.build().ok()
}

/// Calls `globset::GlobSet::empty`: the set has no patterns.
#[verifier::external_body]
pub(crate) fn empty_set() -> (r: globset::GlobSet)
    ensures
        set_patterns(r) == Seq::<Seq<char>>::empty(),
{
    globset::GlobSet::empty()
}

/// Sequence numbers below `len`, ascending.
pub open spec fn ascending_below(numbers: Seq<usize>, len: nat) -> bool {
    &&& forall|k: int| 0 <= k < numbers.len() ==> (#[trigger] numbers[k]) < len
    &&& forall|j: int, k: int|
        0 <= j < k < numbers.len() ==> (#[trigger] numbers[j]) < (#[trigger] numbers[k])
}

/// Calls `globset::GlobSet::matches`, which returns the sequence number of
/// every pattern that matches, ascending. Which patterns match depends on
/// platform, pattern and text alone.
#[verifier::external_body]
pub(crate) fn matching_patterns(set: &globset::GlobSet, text: &str) -> (r: Vec<usize>)
    ensures
        ascending_below(r@, set_patterns(*set).len()),
        forall|i: int|
            0 <= i < set_patterns(*set).len() ==> (#[trigger] glob_matches(
                set_backslash(*set),
                set_patterns(*set)[i],
                text@,
            ) <==> exists|k: int| 0 <= k < r@.len() && #[trigger] r@[k] == i),
{
    set.matches(text)
}

} // verus!
