//! Names a local filesystem may treat as one: the cloud can hold `Readme.md`
//! beside `readme.md`, or one accented name in two spellings; a filesystem
//! that folds case or normalizes names cannot.
use vstd::prelude::*;

use crate::paths::{file_name_of, has_parent, Component, FsPath, Part};
use crate::text::{chars_of, same_text};
use vstd::string::StringExecFns;

verus! {

/// The text in Unicode Normalization Form C.
pub uninterp spec fn nfc_of(text: Seq<char>) -> Seq<char>;

/// The lower-case form of a character, one or more characters.
pub uninterp spec fn lowercase_of(c: char) -> Seq<char>;

/// Calls `unicode_normalization::UnicodeNormalization::nfc` on a string and
/// collects the characters it yields: the result depends on the text alone.
#[verifier::external_body]
fn nfc(text: &str) -> (r: String)
    ensures
        r@ == nfc_of(text@),
{
    unicode_normalization::UnicodeNormalization::nfc(text).collect()
}

/// Calls `char::to_lowercase` and collects the characters it yields: the
/// result depends on the character alone.
#[verifier::external_body]
fn lowercase(c: char) -> (r: String)
    ensures
        r@ == lowercase_of(c),
{
    c.to_lowercase().collect()
}

/// Every character in lower case.
pub open spec fn lowered(text: Seq<char>) -> Seq<char>
    decreases text.len(),
{
    if text.len() == 0 {
        Seq::empty()
    } else {
        lowered(text.drop_last()) + lowercase_of(text.last())
    }
}

/// The key colliding names share: composed, then in lower case.
pub open spec fn folded(name: Seq<char>) -> Seq<char> {
    lowered(nfc_of(name))
}

/// The key of a composed name.
pub fn fold_composed(composed: &str) -> (r: String)
    ensures
        r@ == lowered(composed@),
{
    let chars = chars_of(composed);
    let mut out = String::new();
    let mut i: usize = 0;
    assert(chars@.take(0) =~= Seq::empty());
    while i < chars.len()
        invariant
            i <= chars@.len(),
            out@ == lowered(chars@.take(i as int)),
        decreases chars@.len() - i,
    {
        let lower = lowercase(chars[i]);
        assert(chars@.take(i + 1).drop_last() =~= chars@.take(i as int));
        out.append(lower.as_str());
        i = i + 1;
    }
    assert(chars@.take(i as int) =~= chars@);
    out
}

/// The key colliding names share.
pub fn fold(name: &str) -> (r: String)
    ensures
        r@ == folded(name@),
{
    fold_composed(nfc(name).as_str())
}

/// `i` is the first of `names` that folds to the key of `wanted`.
pub open spec fn is_first_alias(names: Seq<String>, wanted: Seq<char>, i: int) -> bool {
    &&& 0 <= i < names.len()
    &&& folded(names[i]@) == folded(wanted)
    &&& forall|j: int| 0 <= j < i ==> folded((#[trigger] names[j])@) != folded(wanted)
}

/// The name itself stands among `names`.
pub open spec fn is_listed(names: Seq<String>, wanted: Seq<char>) -> bool {
    exists|i: int| 0 <= i < names.len() && (#[trigger] names[i])@ == wanted
}

/// No listed name counts as `wanted`.
pub open spec fn has_no_alias(names: Seq<String>, wanted: Seq<char>) -> bool {
    forall|i: int| 0 <= i < names.len() ==> folded((#[trigger] names[i])@) != folded(wanted)
}

/// The first sibling a name may alias; none when the exact name is there.
pub fn alias_among(names: &Vec<String>, wanted: &str) -> (r: Option<usize>)
    ensures
        match r {
            Some(i) => !is_listed(names@, wanted@) && is_first_alias(names@, wanted@, i as int),
            None => is_listed(names@, wanted@) || has_no_alias(names@, wanted@),
        },
{
    let key = fold(wanted);
    let mut sibling: Option<usize> = None;
    let mut i: usize = 0;
    while i < names.len()
        invariant
            i <= names@.len(),
            key@ == folded(wanted@),
            forall|j: int| 0 <= j < i ==> (#[trigger] names@[j])@ != wanted@,
            match sibling {
                Some(k) => k < i && is_first_alias(names@, wanted@, k as int),
                None => forall|j: int|
                    0 <= j < i ==> folded((#[trigger] names@[j])@) != folded(wanted@),
            },
        decreases names@.len() - i,
    {
        let name = names[i].as_str();
        if same_text(name, wanted) {
            assert(is_listed(names@, wanted@));
            return None;
        }
        if sibling.is_none() && same_text(fold(name).as_str(), key.as_str()) {
            assert(is_first_alias(names@, wanted@, i as int));
            sibling = Some(i);
        }
        i = i + 1;
    }
    sibling
}

/// The existing local file a target would alias. `names` are the names in the
/// target's directory; a volume that keeps the spellings apart shows nothing
/// at the target, and both can stand.
pub fn colliding_local_path(target: &FsPath, names: &Vec<String>, target_exists: bool) -> (r: Option<
    FsPath,
>)
    ensures
        match r {
            Some(existing) => {
                &&& target_exists
                &&& has_parent(target@)
                &&& file_name_of(target@) matches Some(wanted)
                &&& !is_listed(names@, wanted)
                &&& exists|i: int|
                    #[trigger] is_first_alias(names@, wanted, i) && existing@
                        == target@.drop_last().push(Part::Normal(names@[i]@))
            },
            None => {
                ||| !target_exists
                ||| !has_parent(target@)
                ||| file_name_of(target@) is None
                ||| is_listed(names@, file_name_of(target@)->0)
                ||| has_no_alias(names@, file_name_of(target@)->0)
            },
        },
{
    let parent = match target.parent() {
        Some(parent) => parent,
        None => {
            return None;
        },
    };
    let wanted = match target.file_name() {
        Some(wanted) => wanted,
        None => {
            return None;
        },
    };
    let sibling: usize = match alias_among(names, wanted.as_str()) {
        Some(sibling) => sibling,
        None => {
            return None;
        },
    };
    if !target_exists {
        return None;
    }
    let existing = parent.pushed(Component::Normal(names[sibling].clone()));
    assert(file_name_of(target@) == Some(wanted@));
    assert(existing@ == target@.drop_last().push(Part::Normal(names@[sibling as int]@)));
    assert(is_first_alias(names@, wanted@, sibling as int));
    Some(existing)
}

/// Two names collide exactly where the file system would take one for the
/// other: a name that is listed letter for letter has no other half, and one
/// that differs in case or composition alone is found, the first of them.
pub proof fn law_only_another_spelling_collides(
    names: Vec<String>,
    wanted: &str,
    mine: String,
    i: int,
    other: String,
    r: Option<usize>,
)
    requires
        call_ensures(alias_among, (&names, wanted), r),
        call_ensures(fold, (wanted,), mine),
        0 <= i < names@.len(),
        other@ == folded(names@[i]@),
    ensures
        names@[i]@ == wanted@ ==> r is None,
        r is None && (forall|j: int| 0 <= j < names@.len() ==> (#[trigger] names@[j])@ != wanted@)
            ==> other@ != mine@,
        r matches Some(k) ==> k < names@.len() && names@[k as int]@ != wanted@ && folded(
            names@[k as int]@,
        ) == mine@,
        r matches Some(k) ==> (i < k ==> other@ != mine@),
{
}

/// A remote file collides with the local one that already stands under its
/// name only where a file is there at all, and that file lies in the same
/// directory under another spelling.
pub proof fn law_a_collision_is_beside_its_target(
    target: FsPath,
    names: Vec<String>,
    exists_there: bool,
    r: Option<FsPath>,
)
    requires
        call_ensures(colliding_local_path, (&target, &names, exists_there), r),
    ensures
        !exists_there ==> r is None,
        r matches Some(existing) ==> existing@.len() == target@.len() && existing@.drop_last()
            == target@.drop_last() && existing@ != target@,
        r matches Some(existing) ==> exists|i: int|
            0 <= i < names@.len() && existing@.last() == Part::Normal((#[trigger] names@[i])@),
        target@.len() > 0 ==> (target@.last() matches Part::Normal(name) ==> (forall|i: int|
            0 <= i < names@.len() && (#[trigger] names@[i])@ == name ==> r is None)),
{
    if let Some(existing) = r {
        let wanted = file_name_of(target@)->0;
        let i = choose|i: int|
            #[trigger] is_first_alias(names@, wanted, i) && existing@ == target@.drop_last().push(
                Part::Normal(names@[i]@),
            );
        assert(existing@.drop_last() =~= target@.drop_last());
        assert(existing@.last() == Part::Normal(names@[i]@));
        assert(names@[i]@ != wanted);
        assert(target@.last() == Part::Normal(wanted));
    }
}

} // verus!
