//! Keep-both conflict copies.
//!
//! A copy is named `{stem}~conflict-{device_id}-{timestamp_ms}{ext}`, split at
//! the last `.` of the file name. Where that path is taken, `-{seq}` from 2 on
//! stands before the extension. All inputs come from durable state, so the
//! same conflict replayed on the same device lands on the same path.
use vstd::prelude::*;

use crate::paths::{file_name_of, find_last_dot, joined, last_dot, lemma_last_dot,
    lemma_last_dot_unique, path_parts, walk_segments, FsPath, Part, PathStyle};
use crate::text::{chars_of, decimal, decimal_text, is_digit, string_of};
use vstd::string::StringExecFns;

verus! {

/// The marker every conflict copy carries in its name.
pub const CONFLICT_MARKER: &'static str = "~conflict-";

/// Millisecond timestamps have this many digits for any date past 2001. The
/// length tells them from device ids that end in digits and from sequences.
pub const TIMESTAMP_MIN_DIGITS: usize = 12;

/// The marker's characters.
pub open spec fn marker() -> Seq<char> {
    seq!['~', 'c', 'o', 'n', 'f', 'l', 'i', 'c', 't', '-']
}

proof fn lemma_marker()
    ensures
        CONFLICT_MARKER@ == marker(),
{
    reveal_strlit("~conflict-");
    assert(CONFLICT_MARKER@ =~= marker());
}

/// Where a file name is split: at its last dot, unless that opens the name.
pub open spec fn split_point(name: Seq<char>) -> int {
    match last_dot(name) {
        Some(i) => if i > 0 {
            i
        } else {
            name.len() as int
        },
        None => name.len() as int,
    }
}

/// The part of a copy's name before the extension.
pub open spec fn copy_meta(device: Seq<char>, timestamp: nat, sequence: Option<u64>) -> Seq<char> {
    device + seq!['-'] + decimal(timestamp) + match sequence {
        Some(n) => seq!['-'] + decimal(n as nat),
        None => Seq::empty(),
    }
}

/// File name of a conflict copy of `name`.
pub open spec fn copy_name(
    name: Seq<char>,
    device: Seq<char>,
    timestamp: nat,
    sequence: Option<u64>,
) -> Seq<char> {
    name.take(split_point(name)) + marker() + copy_meta(device, timestamp, sequence) + name.skip(
        split_point(name),
    )
}

/// The file name a conflict copy is derived from.
pub open spec fn base_name(original: Seq<Part>) -> Seq<char> {
    match file_name_of(original) {
        Some(name) => name,
        None => Seq::empty(),
    }
}

/// `original` with its file name replaced.
pub open spec fn renamed(original: Seq<Part>, name: Seq<char>) -> Seq<Part> {
    joined(
        if file_name_of(original) is Some {
            original.drop_last()
        } else {
            original
        },
        path_parts(PathStyle::Unix, name),
    )
}

/// Path of the conflict copy with the given sequence.
pub open spec fn copy_path(
    original: Seq<Part>,
    device: Seq<char>,
    timestamp: nat,
    sequence: Option<u64>,
) -> Seq<Part> {
    renamed(original, copy_name(base_name(original), device, timestamp, sequence))
}

/// The conflict-copy path with the given sequence.
pub fn conflict_candidate(
    original: &FsPath,
    device_id: &str,
    timestamp_ms: u64,
    sequence: Option<u64>,
) -> (r: FsPath)
    ensures
        r@ == copy_path(original@, device_id@, timestamp_ms as nat, sequence),
{
    proof {
        lemma_marker();
    }
    let file_name = original.file_name();
    let base = match &file_name {
        Some(_) => match original.parent() {
            Some(parent) => parent,
            None => original.clone(),
        },
        None => original.clone(),
    };
    let name = match file_name {
        Some(name) => name,
        None => String::new(),
    };
    let chars = chars_of(name.as_str());
    let split: usize = match find_last_dot(&chars) {
        Some(i) => if i > 0 {
            i
        } else {
            chars.len()
        },
        None => chars.len(),
    };
    let mut out = string_of(&chars, 0, split);
    let ghost stem = out@;
    assert(stem =~= name@.take(split as int));
    out.append(CONFLICT_MARKER);
    out.append(device_id);
    out.push('-');
    out.append(decimal_text(timestamp_ms as u128).as_str());
    if let Some(n) = sequence {
        out.push('-');
        out.append(decimal_text(n as u128).as_str());
    }
    let extension = string_of(&chars, split, chars.len());
    assert(extension@ =~= name@.skip(split as int));
    out.append(extension.as_str());
    assert(out@ =~= copy_name(name@, device_id@, timestamp_ms as nat, sequence));
    base.join(out.as_str())
}

/// Sequence of the candidate tried at step `k`.
pub open spec fn sequence_at(k: nat) -> Option<u64> {
    if k == 0 {
        None
    } else {
        Some((k + 1) as u64)
    }
}

/// Whether `exists` can never call the candidate of step `k` taken.
pub open spec fn surely_free<F: Fn(&FsPath) -> bool>(
    exists: F,
    original: Seq<Part>,
    device: Seq<char>,
    timestamp: nat,
    k: nat,
) -> bool {
    forall|c: FsPath|
        c@ == copy_path(original, device, timestamp, sequence_at(k)) ==> !call_ensures(
            exists,
            (&c,),
            true,
        )
}

/// Whether `exists` is bound to leave some candidate free.
pub open spec fn leaves_one_free<F: Fn(&FsPath) -> bool>(
    exists: F,
    original: Seq<Part>,
    device: Seq<char>,
    timestamp: nat,
) -> bool {
    exists|k: nat| k < u64::MAX && surely_free(exists, original, device, timestamp, k)
}

/// `path` is the first candidate that is not taken.
pub open spec fn is_first_free<F: Fn(&FsPath) -> bool>(
    exists: F,
    original: Seq<Part>,
    device: Seq<char>,
    timestamp: nat,
    path: FsPath,
) -> bool {
    &&& call_ensures(exists, (&path,), false)
    &&& exists|k: nat|
        #![trigger sequence_at(k)]
        path@ == copy_path(original, device, timestamp, sequence_at(k)) && forall|j: nat|
            #![trigger sequence_at(j)]
            j < k ==> exists|c: FsPath|
                c@ == copy_path(original, device, timestamp, sequence_at(j)) && call_ensures(
                    exists,
                    (&c,),
                    true,
                )
}

/// Derives the conflict-copy path: the first candidate that is not taken.
pub fn conflict_copy_path<F: Fn(&FsPath) -> bool>(
    original: &FsPath,
    device_id: &str,
    timestamp_ms: u64,
    path_exists: F,
) -> (r: FsPath)
    requires
        forall|c: FsPath| call_requires(path_exists, (&c,)),
        leaves_one_free(path_exists, original@, device_id@, timestamp_ms as nat),
    ensures
        is_first_free(path_exists, original@, device_id@, timestamp_ms as nat, r),
{
    let ghost free = choose|k: nat|
        k < u64::MAX && surely_free(path_exists, original@, device_id@, timestamp_ms as nat, k);
    let mut step: u64 = 0;
    loop
        invariant
            step <= free < u64::MAX,
            forall|c: FsPath| call_requires(path_exists, (&c,)),
            surely_free(path_exists, original@, device_id@, timestamp_ms as nat, free),
            forall|j: nat|
                #![trigger sequence_at(j)]
                j < step ==> exists|c: FsPath|
                    c@ == copy_path(original@, device_id@, timestamp_ms as nat, sequence_at(j))
                        && call_ensures(path_exists, (&c,), true),
        decreases free - step,
    {
        let sequence: Option<u64> = if step == 0 {
            None
        } else {
            Some(step + 1)
        };
        assert(sequence == sequence_at(step as nat));
        let candidate = conflict_candidate(original, device_id, timestamp_ms, sequence);
        if !path_exists(&candidate) {
            return candidate;
        }
        step = step + 1;
    }
}

// ---------------------------------------------------------------------------
// Parsing
// ---------------------------------------------------------------------------

pub open spec fn marker_at(s: Seq<char>, i: int) -> bool {
    0 <= i && i + 10 <= s.len() && s.subrange(i, i + 10) == marker()
}

/// Last place where the marker stands.
pub open spec fn last_marker(s: Seq<char>) -> Option<int>
    decreases s.len(),
{
    if s.len() < 10 {
        None
    } else if marker_at(s, s.len() - 10) {
        Some(s.len() - 10)
    } else {
        last_marker(s.drop_last())
    }
}

/// Where the extension of a copy's name starts: at the split point, unless no
/// marker stands before that.
pub open spec fn copy_split(s: Seq<char>) -> int {
    if last_marker(s.take(split_point(s))) is Some {
        split_point(s)
    } else {
        s.len() as int
    }
}

/// Pieces of `s` between dashes.
pub open spec fn split_dash(s: Seq<char>) -> Seq<Seq<char>>
    decreases s.len(),
{
    if s.len() == 0 {
        seq![Seq::<char>::empty()]
    } else {
        let rest = split_dash(s.drop_last());
        if s.last() == '-' {
            rest.push(Seq::<char>::empty())
        } else {
            rest.update(rest.len() - 1, rest.last().push(s.last()))
        }
    }
}

/// Pieces put together with dashes between them.
pub open spec fn join_dash(segments: Seq<Seq<char>>) -> Seq<char>
    decreases segments.len(),
{
    if segments.len() == 0 {
        Seq::empty()
    } else if segments.len() == 1 {
        segments[0]
    } else {
        join_dash(segments.drop_last()) + seq!['-'] + segments.last()
    }
}

pub open spec fn all_digits(s: Seq<char>) -> bool {
    forall|i: int| 0 <= i < s.len() ==> is_digit(#[trigger] s[i])
}

pub open spec fn looks_like_timestamp(s: Seq<char>) -> bool {
    s.len() >= TIMESTAMP_MIN_DIGITS && all_digits(s)
}

/// Last piece that looks like a timestamp.
pub open spec fn last_timestamp(segments: Seq<Seq<char>>) -> Option<int>
    decreases segments.len(),
{
    if segments.len() == 0 {
        None
    } else if looks_like_timestamp(segments.last()) {
        Some(segments.len() - 1)
    } else {
        last_timestamp(segments.drop_last())
    }
}

pub open spec fn digits_value(s: Seq<char>) -> nat
    decreases s.len(),
{
    if s.len() == 0 {
        0
    } else {
        10 * digits_value(s.drop_last()) + ((s.last() as int) - 48) as nat
    }
}

/// The number a text stands for: digits, with an optional `+` before them.
pub open spec fn parsed_number(s: Seq<char>) -> Option<u64> {
    let digits = if s.len() > 0 && s[0] == '+' {
        s.skip(1)
    } else {
        s
    };
    if digits.len() > 0 && all_digits(digits) && digits_value(digits) <= u64::MAX {
        Some(digits_value(digits) as u64)
    } else {
        None
    }
}

/// A conflict copy's name taken apart.
pub struct CopyNameView {
    pub canonical_file_name: Seq<char>,
    pub device_id: Seq<char>,
    pub timestamp_ms: u64,
    pub sequence: Option<u64>,
}

/// What stands between marker and extension, taken apart.
pub open spec fn parse_meta(meta: Seq<char>) -> Option<(Seq<char>, u64, Option<u64>)> {
    let segments = split_dash(meta);
    match last_timestamp(segments) {
        None => None,
        Some(t) => if t == 0 {
            None
        } else {
            match parsed_number(segments[t]) {
                None => None,
                Some(timestamp) => if t + 1 == segments.len() {
                    Some((join_dash(segments.take(t)), timestamp, None))
                } else if t + 2 == segments.len() {
                    match parsed_number(segments[t + 1]) {
                        Some(n) => Some((join_dash(segments.take(t)), timestamp, Some(n))),
                        None => None,
                    }
                } else {
                    None
                },
            }
        },
    }
}

/// The parts of a conflict copy's name, if it is one. A copy of a copy holds
/// the marker more than once: the last one before the extension counts.
pub open spec fn parse_name(s: Seq<char>) -> Option<CopyNameView> {
    let cut = copy_split(s);
    match last_marker(s.take(cut)) {
        None => None,
        Some(m) => if m == 0 {
            None
        } else {
            match parse_meta(s.subrange(m + 10, cut)) {
                None => None,
                Some((device_id, timestamp_ms, sequence)) => Some(
                    CopyNameView {
                        canonical_file_name: s.take(m) + s.skip(cut),
                        device_id,
                        timestamp_ms,
                        sequence,
                    },
                ),
            }
        },
    }
}

/// A conflict copy's name taken apart.
#[derive(Debug, PartialEq, Eq)]
pub struct ConflictCopyName {
    /// The file name the copy diverged from.
    pub canonical_file_name: String,
    /// The device whose version the copy keeps.
    pub device_id: String,
    /// When the divergence was observed, in epoch milliseconds.
    pub timestamp_ms: u64,
    /// Collision sequence; `None` for the first copy.
    pub sequence: Option<u64>,
}

impl View for ConflictCopyName {
    type V = CopyNameView;

    open spec fn view(&self) -> CopyNameView {
        CopyNameView {
            canonical_file_name: self.canonical_file_name@,
            device_id: self.device_id@,
            timestamp_ms: self.timestamp_ms,
            sequence: self.sequence,
        }
    }
}

/// The last place in front of `to` where the marker stands.
fn find_last_marker(s: &Vec<char>, to: usize) -> (r: Option<usize>)
    requires
        to <= s.len(),
    ensures
        match r {
            Some(i) => last_marker(s@.take(to as int)) == Some(i as int) && i + 10 <= to,
            None => last_marker(s@.take(to as int)) is None,
        },
{
    proof {
        lemma_marker();
    }
    let wanted = chars_of(CONFLICT_MARKER);
    let mut end: usize = to;
    while end >= 10
        invariant
            wanted@ == marker(),
            end <= to <= s.len(),
            last_marker(s@.take(to as int)) == last_marker(s@.take(end as int)),
        decreases end,
    {
        let i: usize = end - 10;
        let mut k: usize = 0;
        let mut same: bool = true;
        while k < 10
            invariant
                wanted@ == marker(),
                0 <= k <= 10,
                i + 10 <= s.len(),
                same <==> forall|j: int| 0 <= j < k ==> s@[i + j] == marker()[j],
            decreases 10 - k,
        {
            if s[i + k] != wanted[k] {
                same = false;
            }
            k = k + 1;
        }
        proof {
            let seen = s@.take(end as int);
            let here = seen.subrange(i as int, i + 10);
            if same {
                assert(here =~= marker());
            } else {
                let j = choose|j: int| 0 <= j < 10 && s@[i + j] != marker()[j];
                assert(here[j] != marker()[j]);
            }
            assert(seen.drop_last() =~= s@.take(end - 1));
        }
        if same {
            return Some(i);
        }
        end = end - 1;
    }
    None
}

pub open spec fn segment_views(segments: Seq<String>) -> Seq<Seq<char>> {
    segments.map_values(|s: String| s@)
}

fn split_dash_exec(s: &Vec<char>) -> (r: Vec<String>)
    ensures
        segment_views(r@) == split_dash(s@),
{
    let mut done: Vec<String> = Vec::new();
    let mut open = String::new();
    let mut i: usize = 0;
    assert(s@.take(0) =~= Seq::<char>::empty());
    assert(segment_views(done@).push(open@) =~= split_dash(s@.take(0)));
    while i < s.len()
        invariant
            0 <= i <= s.len(),
            segment_views(done@).push(open@) == split_dash(s@.take(i as int)),
        decreases s.len() - i,
    {
        let c = s[i];
        let ghost seen = s@.take(i as int);
        let ghost next = s@.take(i as int + 1);
        assert(next.drop_last() =~= seen);
        assert(next.last() == c);
        let ghost before = segment_views(done@);
        if c == '-' {
            let ghost closed = open@;
            done.push(open);
            open = String::new();
            assert(segment_views(done@) =~= before.push(closed));
            assert(segment_views(done@).push(open@) =~= split_dash(next));
        } else {
            let ghost was = open@;
            open.push(c);
            assert(segment_views(done@).push(open@) =~= split_dash(next));
        }
        i = i + 1;
    }
    assert(s@.take(i as int) =~= s@);
    let ghost before = segment_views(done@);
    let ghost closed = open@;
    done.push(open);
    assert(segment_views(done@) =~= before.push(closed));
    done
}

fn digits_only(s: &Vec<char>, from: usize) -> (r: bool)
    requires
        from <= s.len(),
    ensures
        r == all_digits(s@.skip(from as int)),
{
    let mut i: usize = from;
    while i < s.len()
        invariant
            from <= i <= s.len(),
            forall|j: int| from <= j < i ==> is_digit(#[trigger] s@[j]),
        decreases s.len() - i,
    {
        let c = s[i];
        if !('0' <= c && c <= '9') {
            assert(s@.skip(from as int)[i - from] == c);
            return false;
        }
        i = i + 1;
    }
    assert forall|k: int| 0 <= k < s@.skip(from as int).len() implies is_digit(
        #[trigger] s@.skip(from as int)[k],
    ) by {
        assert(s@.skip(from as int)[k] == s@[from + k]);
    }
    true
}

proof fn lemma_digits_value_grows(s: Seq<char>, n: int)
    requires
        0 <= n <= s.len(),
        all_digits(s),
    ensures
        digits_value(s.take(n)) <= digits_value(s),
    decreases s.len() - n,
{
    if n < s.len() {
        let next = s.take(n + 1);
        assert(next.drop_last() =~= s.take(n));
        assert(is_digit(s[n]));
        lemma_digits_value_grows(s, n + 1);
    } else {
        assert(s.take(n) =~= s);
    }
}

/// Reads a decimal number, as `u64` values are written.
pub fn parse_number(text: &str) -> (r: Option<u64>)
    ensures
        r == parsed_number(text@),
{
    let chars = chars_of(text);
    let from: usize = if chars.len() > 0 && chars[0] == '+' {
        1
    } else {
        0
    };
    let ghost digits = text@.skip(from as int);
    assert(from == 0 ==> digits =~= text@);
    if from == chars.len() || !digits_only(&chars, from) {
        return None;
    }
    let mut value: u64 = 0;
    let mut i: usize = from;
    assert(digits.take(0) =~= Seq::<char>::empty());
    while i < chars.len()
        invariant
            chars@ == text@,
            from <= i <= chars.len(),
            digits == text@.skip(from as int),
            all_digits(digits),
            value as nat == digits_value(digits.take(i - from)),
            parsed_number(text@) == if digits_value(digits) <= u64::MAX {
                Some(digits_value(digits) as u64)
            } else {
                None
            },
        decreases chars.len() - i,
    {
        let c = chars[i];
        let ghost next = digits.take(i + 1 - from);
        assert(next.drop_last() =~= digits.take(i - from));
        assert(digits[i - from] == c);
        let digit: u64 = (c as u32 - 48) as u64;
        proof {
            lemma_digits_value_grows(digits, i + 1 - from);
        }
        if value > (u64::MAX - digit) / 10 {
            assert(digits_value(next) > u64::MAX) by {
                assert(10 * value + digit > u64::MAX) by (nonlinear_arith)
                    requires
                        value > (u64::MAX - digit) / 10,
                        digit <= 9,
                ;
            }
            return None;
        }
        assert(10 * value + digit <= u64::MAX) by (nonlinear_arith)
            requires
                value <= (u64::MAX - digit) / 10,
                digit <= 9,
        ;
        value = 10 * value + digit;
        i = i + 1;
    }
    assert(digits.take(i - from) =~= digits);
    Some(value)
}

/// Parses a file name made by [`conflict_copy_path`]; `None` for anything
/// else, so user files that merely hold the marker are not taken for copies.
pub fn parse_conflict_copy_name(file_name: &str) -> (r: Option<ConflictCopyName>)
    ensures
        match r {
            Some(name) => parse_name(file_name@) == Some(name@),
            None => parse_name(file_name@) is None,
        },
{
    let chars = chars_of(file_name);
    let point: usize = match find_last_dot(&chars) {
        Some(i) => if i > 0 {
            i
        } else {
            chars.len()
        },
        None => chars.len(),
    };
    let (cut, found): (usize, Option<usize>) = match find_last_marker(&chars, point) {
        Some(at) => (point, Some(at)),
        None => (chars.len(), find_last_marker(&chars, chars.len())),
    };
    assert(cut == copy_split(file_name@));
    let at: usize = match found {
        Some(at) => at,
        None => {
            return None;
        },
    };
    if at == 0 {
        return None;
    }
    let meta_text = string_of(&chars, at + 10, cut);
    let meta = chars_of(meta_text.as_str());
    assert(meta@ =~= file_name@.subrange(at + 10, cut as int));
    let segments = split_dash_exec(&meta);
    let ghost pieces = segment_views(segments@);
    let mut t: usize = segments.len();
    assert(pieces.take(t as int) =~= pieces);
    loop
        invariant_except_break
            t <= segments.len(),
            pieces == segment_views(segments@),
            last_timestamp(pieces) == last_timestamp(pieces.take(t as int)),
            parse_name(file_name@) is None <== last_timestamp(pieces) is None,
        ensures
            t < segments.len(),
            last_timestamp(pieces) == Some(t as int),
        decreases t,
    {
        if t == 0 {
            return None;
        }
        let ghost seen = pieces.take(t as int);
        t = t - 1;
        assert(seen.drop_last() =~= pieces.take(t as int));
        assert(seen.last() == segments@[t as int]@);
        let piece = chars_of(segments[t].as_str());
        if piece.len() >= TIMESTAMP_MIN_DIGITS && digits_only(&piece, 0) {
            assert(piece@.skip(0) =~= piece@);
            break;
        }
        assert(piece@.skip(0) =~= piece@);
    }
    if t == 0 {
        return None;
    }
    assert(pieces[t as int] == segments@[t as int]@);
    let timestamp_ms: u64 = match parse_number(segments[t].as_str()) {
        Some(n) => n,
        None => {
            return None;
        },
    };
    let sequence: Option<u64> = if t + 1 == segments.len() {
        None
    } else if t + 2 == segments.len() {
        assert(pieces[t + 1] == segments@[t + 1]@);
        match parse_number(segments[t + 1].as_str()) {
            Some(n) => Some(n),
            None => {
                return None;
            },
        }
    } else {
        return None;
    };
    let mut device_id = segments[0].clone();
    let mut k: usize = 1;
    assert(pieces.take(1).len() == 1);
    assert(device_id@ == join_dash(pieces.take(1)));
    while k < t
        invariant
            1 <= k <= t,
            t < segments.len(),
            pieces == segment_views(segments@),
            device_id@ == join_dash(pieces.take(k as int)),
        decreases t - k,
    {
        assert(pieces.take(k as int + 1).drop_last() =~= pieces.take(k as int));
        device_id.push('-');
        device_id.append(segments[k].as_str());
        assert(device_id@ =~= join_dash(pieces.take(k as int + 1)));
        k = k + 1;
    }
    let mut canonical_file_name = string_of(&chars, 0, at);
    let extension = string_of(&chars, cut, chars.len());
    assert(canonical_file_name@ =~= file_name@.take(at as int));
    assert(extension@ =~= file_name@.skip(cut as int));
    canonical_file_name.append(extension.as_str());
    Some(ConflictCopyName { canonical_file_name, device_id, timestamp_ms, sequence })
}


// ---------------------------------------------------------------------------
// Round trip
// ---------------------------------------------------------------------------

proof fn lemma_decimal(n: nat)
    ensures
        decimal(n).len() >= 1,
        all_digits(decimal(n)),
        digits_value(decimal(n)) == n,
    decreases n,
{
    let d = decimal(n);
    if n < 10 {
        assert(d.drop_last() =~= Seq::<char>::empty());
        assert(digits_value(d.drop_last()) == 0);
    } else {
        lemma_decimal(n / 10);
        assert(d.drop_last() =~= decimal(n / 10));
        assert forall|i: int| 0 <= i < d.len() implies is_digit(#[trigger] d[i]) by {
            if i < d.len() - 1 {
                assert(d[i] == decimal(n / 10)[i]);
            }
        }
    }
}

pub open spec fn power_of_ten(k: nat) -> nat
    decreases k,
{
    if k == 0 {
        1
    } else {
        10 * power_of_ten((k - 1) as nat)
    }
}

proof fn lemma_decimal_long(n: nat, k: nat)
    requires
        n >= power_of_ten(k),
    ensures
        decimal(n).len() >= k + 1,
    decreases k,
{
    lemma_decimal(n);
    if k > 0 {
        assert(power_of_ten((k - 1) as nat) >= 1) by {
            lemma_power_positive((k - 1) as nat);
        }
        lemma_decimal_long(n / 10, (k - 1) as nat);
    }
}

proof fn lemma_power_positive(k: nat)
    ensures
        power_of_ten(k) >= 1,
    decreases k,
{
    if k > 0 {
        lemma_power_positive((k - 1) as nat);
    }
}

proof fn lemma_decimal_short(n: nat, k: nat)
    requires
        k >= 1,
        n < power_of_ten(k),
    ensures
        decimal(n).len() <= k,
    decreases k,
{
    if n >= 10 {
        if k == 1 {
            assert(power_of_ten(0) == 1);
        } else {
            lemma_decimal_short(n / 10, (k - 1) as nat);
        }
    }
}

proof fn lemma_ten_to_eleven()
    ensures
        power_of_ten(11) == 100_000_000_000,
{
    reveal_with_fuel(power_of_ten, 12);
}

proof fn lemma_split_len(s: Seq<char>)
    ensures
        split_dash(s).len() >= 1,
    decreases s.len(),
{
    if s.len() > 0 {
        lemma_split_len(s.drop_last());
    }
}

proof fn lemma_split_plain(s: Seq<char>)
    requires
        forall|i: int| 0 <= i < s.len() ==> s[i] != '-',
    ensures
        split_dash(s) == seq![s],
    decreases s.len(),
{
    if s.len() == 0 {
        assert(s =~= Seq::<char>::empty());
    } else {
        assert forall|i: int| 0 <= i < s.drop_last().len() implies s.drop_last()[i] != '-' by {
            assert(s.drop_last()[i] == s[i]);
        }
        lemma_split_plain(s.drop_last());
        assert(s.last() == s[s.len() - 1]);
        assert(s.drop_last().push(s.last()) =~= s);
        assert(split_dash(s) =~= seq![s]);
    }
}

proof fn lemma_split_append(a: Seq<char>, b: Seq<char>)
    ensures
        split_dash(a + seq!['-'] + b) == split_dash(a) + split_dash(b),
    decreases b.len(),
{
    let whole = a + seq!['-'] + b;
    lemma_split_len(a);
    lemma_split_len(b);
    if b.len() == 0 {
        assert(whole.drop_last() =~= a);
        assert(whole.last() == '-');
        assert(split_dash(whole) =~= split_dash(a) + split_dash(b));
    } else {
        assert(whole.drop_last() =~= a + seq!['-'] + b.drop_last());
        assert(whole.last() == b.last());
        lemma_split_append(a, b.drop_last());
        lemma_split_len(b.drop_last());
        assert(split_dash(whole) =~= split_dash(a) + split_dash(b));
    }
}

proof fn lemma_join_update_last(segments: Seq<Seq<char>>, c: char)
    requires
        segments.len() >= 1,
    ensures
        join_dash(segments.update(segments.len() - 1, segments.last().push(c))) == join_dash(
            segments,
        ).push(c),
{
    let next = segments.update(segments.len() - 1, segments.last().push(c));
    if segments.len() > 1 {
        assert(next.drop_last() =~= segments.drop_last());
    }
    assert(join_dash(next) =~= join_dash(segments).push(c));
}

proof fn lemma_join_split(s: Seq<char>)
    ensures
        join_dash(split_dash(s)) == s,
    decreases s.len(),
{
    if s.len() == 0 {
        assert(s =~= Seq::<char>::empty());
    } else {
        let rest = split_dash(s.drop_last());
        lemma_join_split(s.drop_last());
        lemma_split_len(s.drop_last());
        if s.last() == '-' {
            let next = rest.push(Seq::<char>::empty());
            assert(next.drop_last() =~= rest);
            assert(join_dash(next) =~= s.drop_last() + seq!['-'] + Seq::<char>::empty());
            assert(join_dash(next) =~= s);
        } else {
            lemma_join_update_last(rest, s.last());
            assert(s.drop_last().push(s.last()) =~= s);
        }
    }
}

proof fn lemma_digits_plain(s: Seq<char>)
    requires
        all_digits(s),
        s.len() >= 1,
    ensures
        forall|i: int| 0 <= i < s.len() ==> s[i] != '-',
        forall|i: int| 0 <= i < s.len() ==> s[i] != '.',
        s[0] != '+',
{
    assert forall|i: int| 0 <= i < s.len() implies s[i] != '-' by {
        assert(is_digit(s[i]));
    }
    assert forall|i: int| 0 <= i < s.len() implies s[i] != '.' by {
        assert(is_digit(s[i]));
    }
    assert(is_digit(s[0]));
}

proof fn lemma_meta_round_trip(device: Seq<char>, timestamp: u64, sequence: Option<u64>)
    requires
        timestamp >= 100_000_000_000,
        sequence matches Some(n) ==> n < 100_000_000_000,
    ensures
        parse_meta(copy_meta(device, timestamp as nat, sequence)) == Some(
            (device, timestamp, sequence),
        ),
{
    let ts = decimal(timestamp as nat);
    let parts = split_dash(device);
    let meta = copy_meta(device, timestamp as nat, sequence);
    lemma_decimal(timestamp as nat);
    lemma_ten_to_eleven();
    lemma_decimal_long(timestamp as nat, 11);
    lemma_digits_plain(ts);
    lemma_split_plain(ts);
    lemma_split_append(device, ts);
    lemma_split_len(device);
    lemma_join_split(device);
    let head = device + seq!['-'] + ts;
    assert(split_dash(head) =~= parts.push(ts));
    assert(parts.push(ts).drop_last() =~= parts);
    assert(parts.push(ts).take(parts.len() as int) =~= parts);
    match sequence {
        None => {
            assert(meta =~= head);
            assert(last_timestamp(parts.push(ts)) == Some(parts.len() as int));
        },
        Some(n) => {
            let tail = decimal(n as nat);
            lemma_decimal(n as nat);
            lemma_decimal_short(n as nat, 11);
            lemma_digits_plain(tail);
            lemma_split_plain(tail);
            lemma_split_append(head, tail);
            assert(meta =~= head + seq!['-'] + tail);
            let all = parts.push(ts).push(tail);
            assert(split_dash(meta) =~= all);
            assert(all.drop_last() =~= parts.push(ts));
            assert(last_timestamp(parts.push(ts)) == Some(parts.len() as int));
            assert(last_timestamp(all) == Some(parts.len() as int));
            assert(all.take(parts.len() as int) =~= parts);
        },
    }
}

proof fn lemma_last_marker_before(stem: Seq<char>, tail: Seq<char>)
    requires
        forall|j: int| !marker_at(tail, j),
    ensures
        last_marker(stem + marker() + tail) == Some(stem.len() as int),
    decreases tail.len(),
{
    let whole = stem + marker() + tail;
    if tail.len() == 0 {
        assert(whole.subrange(stem.len() as int, stem.len() as int + 10) =~= marker());
    } else {
        let at = whole.len() - 10;
        assert(!marker_at(whole, at)) by {
            if marker_at(whole, at) {
                let here = whole.subrange(at, at + 10);
                assert(here[0] == whole[at]);
                if tail.len() < 10 {
                    assert(whole[at] == marker()[tail.len() as int]);
                } else {
                    assert(tail.subrange(tail.len() - 10, tail.len() as int) =~= here);
                    assert(marker_at(tail, tail.len() - 10));
                }
            }
        }
        let shorter = tail.drop_last();
        assert forall|j: int| !marker_at(shorter, j) by {
            if marker_at(shorter, j) {
                assert(shorter.subrange(j, j + 10) =~= tail.subrange(j, j + 10));
                assert(marker_at(tail, j));
            }
        }
        lemma_last_marker_before(stem, shorter);
        assert(whole.drop_last() =~= stem + marker() + shorter);
    }
}

/// Behind the marker of a generated name no other one stands, unless the
/// device id and the dash behind it hold one.
proof fn lemma_no_marker_in_meta(device: Seq<char>, timestamp: nat, sequence: Option<u64>)
    requires
        forall|j: int| !marker_at(device + seq!['-'], j),
    ensures
        forall|j: int| !marker_at(copy_meta(device, timestamp, sequence), j),
{
    let meta = copy_meta(device, timestamp, sequence);
    let ts = decimal(timestamp);
    lemma_decimal(timestamp);
    if let Some(n) = sequence {
        lemma_decimal(n as nat);
    }
    assert forall|k: int| device.len() <= k < meta.len() implies meta[k] == '-' || is_digit(
        meta[k],
    ) by {
        if k > device.len() {
            if k < device.len() + 1 + ts.len() {
                assert(meta[k] == ts[k - device.len() - 1]);
            } else if let Some(n) = sequence {
                let tail = decimal(n as nat);
                if k > device.len() + 1 + ts.len() {
                    assert(meta[k] == tail[k - device.len() - 2 - ts.len()]);
                }
            }
        }
    }
    assert forall|j: int| !marker_at(meta, j) by {
        if marker_at(meta, j) {
            let here = meta.subrange(j, j + 10);
            assert(here[8] == meta[j + 8]);
            assert(marker()[8] == 't');
            assert(j + 8 < device.len());
            let front = device + seq!['-'];
            assert(front.subrange(j, j + 10) =~= here);
            assert(marker_at(front, j));
        }
    }
}

/// Parsing a generated name gives back what it was generated from, also where
/// the name is a copy's itself. The timestamp has twelve digits or more and the
/// sequence fewer, the device id holds no marker, not even one that the dash
/// behind it completes, and behind a name without extension it holds no dot.
#[verifier::spinoff_prover]
#[verifier::rlimit(60)]
pub proof fn law_parse_inverts_generation(
    name: Seq<char>,
    device: Seq<char>,
    timestamp: u64,
    sequence: Option<u64>,
)
    requires
        name.len() > 0,
        forall|j: int| !marker_at(device + seq!['-'], j),
        split_point(name) == name.len() ==> forall|i: int|
            0 <= i < device.len() ==> device[i] != '.',
        timestamp >= 100_000_000_000,
        sequence matches Some(n) ==> n < 100_000_000_000,
    ensures
        parse_name(copy_name(name, device, timestamp as nat, sequence)) == Some(
            CopyNameView {
                canonical_file_name: name,
                device_id: device,
                timestamp_ms: timestamp,
                sequence,
            },
        ),
{
    let cut = split_point(name);
    let stem = name.take(cut);
    let ext = name.skip(cut);
    let meta = copy_meta(device, timestamp as nat, sequence);
    let whole = copy_name(name, device, timestamp as nat, sequence);
    let head = stem + marker() + meta;
    lemma_last_dot(name);
    assert(whole =~= head + ext);
    lemma_no_marker_in_meta(device, timestamp as nat, sequence);
    lemma_last_marker_before(stem, meta);
    lemma_meta_round_trip(device, timestamp, sequence);
    lemma_last_dot(whole);
    if ext.len() > 0 {
        assert(ext[0] == '.');
        assert forall|j: int| head.len() < j < whole.len() implies whole[j] != '.' by {
            assert(whole[j] == name[cut + (j - head.len())]);
        }
        assert(whole[head.len() as int] == ext[0]);
        lemma_last_dot_unique(whole, head.len() as int);
        assert(split_point(whole) == head.len());
    } else {
        lemma_decimal(timestamp as nat);
        lemma_digits_plain(decimal(timestamp as nat));
        if let Some(n) = sequence {
            lemma_decimal(n as nat);
            lemma_digits_plain(decimal(n as nat));
        }
        assert(whole =~= head);
        assert(stem =~= name);
        assert forall|j: int| 0 < j < whole.len() implies whole[j] != '.' by {
            let ts = decimal(timestamp as nat);
            if j < stem.len() {
                assert(whole[j] == name[j]);
            } else if j < stem.len() + 10 {
                assert(whole[j] == marker()[j - stem.len()]);
            } else {
                let k = j - stem.len() - 10;
                assert(whole[j] == meta[k]);
                if k < device.len() {
                    assert(meta[k] == device[k]);
                } else if k > device.len() {
                    if k < device.len() + 1 + ts.len() {
                        assert(meta[k] == ts[k - device.len() - 1]);
                    } else if let Some(n) = sequence {
                        let tail = decimal(n as nat);
                        if k > device.len() + 1 + ts.len() {
                            assert(meta[k] == tail[k - device.len() - 2 - ts.len()]);
                        }
                    }
                }
            }
        }
        assert(split_point(whole) == whole.len());
    }
    assert(whole.take(head.len() as int) =~= head);
    assert(copy_split(whole) == head.len());
    assert(whole.subrange(stem.len() as int + 10, head.len() as int) =~= meta);
    assert(whole.skip(head.len() as int) =~= ext);
    assert(whole.take(stem.len() as int) =~= stem);
    assert(stem + ext =~= name);
}

// ---------------------------------------------------------------------------
// What the names are for
// ---------------------------------------------------------------------------

proof fn lemma_walk_without_slash(s: Seq<char>)
    requires
        forall|i: int| 0 <= i < s.len() ==> #[trigger] s[i] != '/',
    ensures
        walk_segments(PathStyle::Unix, s) == (Seq::<Part>::empty(), s),
    decreases s.len(),
{
    if s.len() > 0 {
        let front = s.drop_last();
        assert forall|i: int| 0 <= i < front.len() implies #[trigger] front[i] != '/' by {
            assert(front[i] == s[i]);
        }
        lemma_walk_without_slash(front);
        assert(s[s.len() - 1] != '/');
        assert(front.push(s.last()) =~= s);
    } else {
        assert(s =~= Seq::empty());
    }
}

proof fn lemma_one_component(s: Seq<char>)
    requires
        s.len() > 2,
        forall|i: int| 0 <= i < s.len() ==> #[trigger] s[i] != '/',
    ensures
        path_parts(PathStyle::Unix, s) == seq![Part::Normal(s)],
{
    lemma_walk_without_slash(s);
    assert(s.skip(0) =~= s);
    assert(s[0] != '/' && s[1] != '/');
    assert(s != seq!['.'] && s != seq!['.', '.'] && s != Seq::<char>::empty());
    assert(path_parts(PathStyle::Unix, s) =~= seq![Part::Normal(s)]);
}

/// A conflict copy lies beside its original. Its name is the original's with a
/// marker, the device and the time put in before the extension, and with a
/// number behind the time where one is asked for.
pub proof fn law_a_copy_lies_beside_its_original(
    original: FsPath,
    stem: Seq<char>,
    extension: Seq<char>,
    device: &str,
    timestamp: u64,
    sequence: Option<u64>,
    digits: String,
    numbered: String,
    r: FsPath,
)
    requires
        call_ensures(conflict_candidate, (&original, device, timestamp, sequence), r),
        call_ensures(decimal_text, (timestamp as u128,), digits),
        sequence is Some ==> call_ensures(decimal_text, (sequence->0 as u128,), numbered),
        original@.len() > 0,
        original@.last() == Part::Normal(stem + extension),
        stem.len() > 0,
        extension.len() > 0 ==> extension[0] == '.' && forall|i: int|
            0 < i < extension.len() ==> #[trigger] extension[i] != '.',
        extension.len() == 0 ==> forall|i: int| 0 < i < stem.len() ==> #[trigger] stem[i] != '.',
        forall|i: int| 0 <= i < stem.len() ==> #[trigger] stem[i] != '/',
        forall|i: int| 0 <= i < extension.len() ==> #[trigger] extension[i] != '/',
        forall|i: int| 0 <= i < device@.len() ==> #[trigger] device@[i] != '/',
    ensures
        ({
            let name = stem + "~conflict-"@ + device@ + seq!['-'] + digits@ + (if sequence is Some {
                seq!['-'] + numbered@
            } else {
                Seq::empty()
            }) + extension;
            &&& r@.len() == original@.len()
            &&& r@.drop_last() == original@.drop_last()
            &&& r@.last() == Part::Normal(name)
            &&& r@ != original@
        }),
{
    let whole = stem + extension;
    lemma_marker();
    lemma_last_dot(whole);
    let cut = stem.len() as int;
    if extension.len() > 0 {
        assert(whole[cut] == extension[0]);
        assert forall|j: int| cut < j < whole.len() implies whole[j] != '.' by {
            assert(whole[j] == extension[j - cut]);
        }
        lemma_last_dot_unique(whole, cut);
    } else {
        assert(whole =~= stem);
        if let Some(i) = last_dot(whole) {
            assert(whole[i] == stem[i]);
        }
    }
    assert(split_point(whole) == cut);
    assert(whole.take(cut) =~= stem);
    assert(whole.skip(cut) =~= extension);
    let name = copy_name(whole, device@, timestamp as nat, sequence);
    let tail = if sequence is Some {
        seq!['-'] + numbered@
    } else {
        Seq::empty()
    };
    let expected = stem + "~conflict-"@ + device@ + seq!['-'] + digits@ + tail + extension;
    assert(name =~= expected);
    lemma_decimal(timestamp as nat);
    if let Some(n) = sequence {
        lemma_decimal(n as nat);
    }
    assert("~conflict-"@ == marker());
    let a = stem.len() as int;
    let b = a + 10;
    let c = b + device@.len();
    let d = c + 1 + digits@.len();
    let e = d + tail.len();
    assert forall|i: int| 0 <= i < name.len() implies #[trigger] name[i] != '/' by {
        if i < a {
            assert(name[i] == stem[i]);
        } else if i < b {
            assert(name[i] == marker()[i - a]);
        } else if i < c {
            assert(name[i] == device@[i - b]);
        } else if i == c {
            assert(name[i] == '-');
        } else if i < d {
            assert(name[i] == digits@[i - c - 1]);
            assert(is_digit(digits@[i - c - 1]));
        } else if i < e {
            assert(name[i] == tail[i - d]);
            if i > d {
                assert(tail[i - d] == numbered@[i - d - 1]);
                assert(is_digit(numbered@[i - d - 1]));
            }
        } else {
            assert(name[i] == extension[i - e]);
        }
    }
    lemma_one_component(name);
    assert(r@ =~= original@.drop_last().push(Part::Normal(name)));
    assert(name.len() > whole.len());
    assert(r@.drop_last() =~= original@.drop_last());
}

/// A copy never takes a path that is taken: the plain name where nobody holds
/// it, and otherwise a numbered one that was found free.
pub proof fn law_a_copy_takes_a_free_path<F: Fn(&FsPath) -> bool>(
    original: FsPath,
    device: &str,
    timestamp: u64,
    taken: F,
    plain: FsPath,
    r: FsPath,
)
    requires
        call_ensures(conflict_copy_path::<F>, (&original, device, timestamp, taken), r),
        call_ensures(conflict_candidate, (&original, device, timestamp, None), plain),
    ensures
        call_ensures(taken, (&r,), false),
        (forall|c: FsPath| c@ == plain@ ==> !#[trigger] call_ensures(taken, (&c,), true)) ==> r@
            == plain@,
{
    let k = choose|k: nat|
        #![trigger sequence_at(k)]
        r@ == copy_path(original@, device@, timestamp as nat, sequence_at(k)) && forall|j: nat|
            #![trigger sequence_at(j)]
            j < k ==> exists|c: FsPath|
                c@ == copy_path(original@, device@, timestamp as nat, sequence_at(j))
                    && call_ensures(taken, (&c,), true);
    assert(is_first_free(taken, original@, device@, timestamp as nat, r));
    if k > 0 {
        assert(sequence_at(0) is None);
    }
}

/// The name of a copy tells what it is a copy of: the canonical name, the
/// device and the time it was made from can be read off it.
pub proof fn law_a_copys_name_reads_back(
    name: Seq<char>,
    device: Seq<char>,
    timestamp: u64,
    sequence: Option<u64>,
    text: &str,
    r: Option<ConflictCopyName>,
)
    requires
        call_ensures(parse_conflict_copy_name, (text,), r),
        text@ == copy_name(name, device, timestamp as nat, sequence),
        name.len() > 0,
        forall|j: int| !marker_at(device + seq!['-'], j),
        split_point(name) == name.len() ==> forall|i: int|
            0 <= i < device.len() ==> device[i] != '.',
        timestamp >= 100_000_000_000,
        sequence matches Some(n) ==> n < 100_000_000_000,
    ensures
        r is Some,
        r->0.canonical_file_name@ == name,
        r->0.device_id@ == device,
        r->0.timestamp_ms == timestamp,
        r->0.sequence == sequence,
{
    law_parse_inverts_generation(name, device, timestamp, sequence);
}

/// A number is read from its digits alone, a plus in front aside; what does
/// not fit is not read.
pub proof fn law_a_number_is_read_from_digits(n: u64, text: &str, digits: String, r: Option<u64>)
    requires
        call_ensures(parse_number, (text,), r),
        call_ensures(decimal_text, (n as u128,), digits),
    ensures
        text@ == digits@ ==> r == Some(n),
        r is Some ==> text@.len() > 0,
        r is Some ==> forall|i: int|
            0 < i < text@.len() ==> '0' <= #[trigger] text@[i] <= '9',
        r is Some ==> text@[0] == '+' || '0' <= text@[0] <= '9',
{
    lemma_decimal(n as nat);
    if text@ == digits@ {
        assert(is_digit(digits@[0]));
    }
    if r is Some {
        let s = text@;
        let d = if s.len() > 0 && s[0] == '+' {
            s.skip(1)
        } else {
            s
        };
        assert(all_digits(d));
        assert forall|i: int| 0 < i < s.len() implies '0' <= #[trigger] s[i] <= '9' by {
            if s[0] == '+' {
                assert(is_digit(d[i - 1]));
            } else {
                assert(is_digit(d[i]));
            }
        }
        if s[0] != '+' {
            assert(is_digit(d[0]));
        }
    }
}

} // verus!
