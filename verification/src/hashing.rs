//! Content hashes of local files, in the algorithm the provider reports.
//!
//! A file is hashed in bounded steps. However it is cut into chunks, the
//! result is the hash of the bytes read.
use vstd::prelude::*;
use vstd::slice::*;

use crate::records::HashAlgorithm;

verus! {

/// Most bytes hashed in one advance.
pub const HASH_STAGE_STEP_BYTES: u64 = 8_388_608;

/// Size of one read.
pub const HASH_READ_BYTES: usize = 65_536;

/// Inputs of this many bytes or more are outside what SHA-256 is defined for.
pub const MAX_HASHED_BYTES: u64 = 2_305_843_009_213_693_952;

/// SHA-256 hasher of the `sha2` crate, a type whose bounds Verus cannot state.
#[verifier::external_body]
pub struct Sha256State {
    inner: sha2::Sha256,
}

/// MD5 hasher of the `md-5` crate, a type whose bounds Verus cannot state.
#[verifier::external_body]
pub struct Md5State {
    inner: md5::Md5,
}

/// The bytes a SHA-256 hasher has taken in.
pub uninterp spec fn sha256_absorbed(state: Sha256State) -> Seq<u8>;

/// The bytes an MD5 hasher has taken in.
pub uninterp spec fn md5_absorbed(state: Md5State) -> Seq<u8>;

/// The SHA-256 digest of some bytes.
pub uninterp spec fn sha256_digest(bytes: Seq<u8>) -> Seq<u8>;

/// The MD5 digest of some bytes.
pub uninterp spec fn md5_digest(bytes: Seq<u8>) -> Seq<u8>;

/// Calls `sha2::Sha256::new` (`Digest::new`): a hasher that has taken in
/// nothing yet.
#[verifier::external_body]
fn sha256_new() -> (r: Sha256State)
    ensures
        sha256_absorbed(r) == Seq::<u8>::empty(),
{
    Sha256State { inner: <sha2::Sha256 as sha2::Digest>::new() }
}

/// Calls `Digest::update` of `sha2::Sha256`: the bytes go in behind what the
/// hasher has already taken in. Its count of blocks must not overflow.
#[verifier::external_body]
fn sha256_update(state: &mut Sha256State, bytes: &[u8])
    requires
        sha256_absorbed(*old(state)).len() + bytes@.len() < MAX_HASHED_BYTES,
    ensures
        sha256_absorbed(*final(state)) == sha256_absorbed(*old(state)) + bytes@,
{
    sha2::Digest::update(&mut state.inner, bytes)
}

/// Calls `Digest::finalize` of `sha2::Sha256`: the 32-byte digest of all the
/// bytes taken in. The bit length of the input must fit in 64 bits.
#[verifier::external_body]
fn sha256_finalize(state: Sha256State) -> (r: Vec<u8>)
    requires
        sha256_absorbed(state).len() < MAX_HASHED_BYTES,
    ensures
        r@ == sha256_digest(sha256_absorbed(state)),
        r@.len() == 32,
{
    sha2::Digest::finalize(state.inner).to_vec()
}

/// Calls `md5::Md5::new` (`Digest::new`): a hasher that has taken in nothing
/// yet.
#[verifier::external_body]
fn md5_new() -> (r: Md5State)
    ensures
        md5_absorbed(r) == Seq::<u8>::empty(),
{
    Md5State { inner: <md5::Md5 as md5::Digest>::new() }
}

/// Calls `Digest::update` of `md5::Md5`: the bytes go in behind what the
/// hasher has already taken in.
#[verifier::external_body]
fn md5_update(state: &mut Md5State, bytes: &[u8])
    ensures
        md5_absorbed(*final(state)) == md5_absorbed(*old(state)) + bytes@,
{
    md5::Digest::update(&mut state.inner, bytes)
}

/// Calls `Digest::finalize` of `md5::Md5`: the 16-byte digest of all the
/// bytes taken in.
#[verifier::external_body]
fn md5_finalize(state: Md5State) -> (r: Vec<u8>)
    ensures
        r@ == md5_digest(md5_absorbed(state)),
        r@.len() == 16,
{
    md5::Digest::finalize(state.inner).to_vec()
}

/// The digest of some bytes in an algorithm.
pub open spec fn digest(algorithm: HashAlgorithm, bytes: Seq<u8>) -> Seq<u8> {
    match algorithm {
        HashAlgorithm::Sha256 => sha256_digest(bytes),
        HashAlgorithm::Md5 => md5_digest(bytes),
    }
}

/// A lower-case hexadecimal digit.
pub open spec fn hex_digit(n: int) -> char {
    if n < 10 {
        (n + 48) as char
    } else {
        (n + 87) as char
    }
}

/// Two lower-case hexadecimal digits per byte.
pub open spec fn hex_of(bytes: Seq<u8>) -> Seq<char>
    decreases bytes.len(),
{
    if bytes.len() == 0 {
        Seq::empty()
    } else {
        hex_of(bytes.drop_last()).push(hex_digit(bytes.last() as int / 16)).push(
            hex_digit(bytes.last() as int % 16),
        )
    }
}

/// The content hash of some bytes, as providers report it.
pub open spec fn content_hash(algorithm: HashAlgorithm, bytes: Seq<u8>) -> Seq<char> {
    hex_of(digest(algorithm, bytes))
}

fn hex_char(n: u8) -> (r: char)
    requires
        n < 16,
    ensures
        r == hex_digit(n as int),
{
    if n < 10 {
        (n + 48) as char
    } else {
        (n + 87) as char
    }
}

/// Lower-case hexadecimal text of `bytes`.
pub fn hex_text(bytes: &Vec<u8>) -> (r: String)
    ensures
        r@ == hex_of(bytes@),
{
    let mut out = String::new();
    let mut i: usize = 0;
    assert(bytes@.take(0) =~= Seq::<u8>::empty());
    while i < bytes.len()
        invariant
            0 <= i <= bytes.len(),
            out@ == hex_of(bytes@.take(i as int)),
        decreases bytes.len() - i,
    {
        let byte: u8 = bytes[i];
        assert(bytes@.take(i as int + 1).drop_last() =~= bytes@.take(i as int));
        out.push(hex_char(byte / 16));
        out.push(hex_char(byte % 16));
        i = i + 1;
    }
    assert(bytes@.take(i as int) =~= bytes@);
    out
}

/// A hash in progress.
pub enum HashState {
    Sha256(Sha256State),
    Md5(Md5State),
}

impl HashState {
    pub open spec fn algorithm(&self) -> HashAlgorithm {
        match self {
            HashState::Sha256(_) => HashAlgorithm::Sha256,
            HashState::Md5(_) => HashAlgorithm::Md5,
        }
    }

    /// The bytes taken in so far.
    pub open spec fn absorbed(&self) -> Seq<u8> {
        match self {
            HashState::Sha256(state) => sha256_absorbed(*state),
            HashState::Md5(state) => md5_absorbed(*state),
        }
    }

    pub fn new(algorithm: HashAlgorithm) -> (r: HashState)
        ensures
            r.algorithm() == algorithm,
            r.absorbed() == Seq::<u8>::empty(),
    {
        match algorithm {
            HashAlgorithm::Sha256 => HashState::Sha256(sha256_new()),
            HashAlgorithm::Md5 => HashState::Md5(md5_new()),
        }
    }

    /// Takes more bytes in.
    pub fn update(self, bytes: &[u8]) -> (r: HashState)
        requires
            self.absorbed().len() + bytes@.len() < MAX_HASHED_BYTES,
        ensures
            r.algorithm() == self.algorithm(),
            r.absorbed() == self.absorbed() + bytes@,
    {
        match self {
            HashState::Sha256(state) => {
                let mut state = state;
                sha256_update(&mut state, bytes);
                HashState::Sha256(state)
            },
            HashState::Md5(state) => {
                let mut state = state;
                md5_update(&mut state, bytes);
                HashState::Md5(state)
            },
        }
    }

    /// The hash of what was taken in, in hexadecimal.
    pub fn finalize_hex(self) -> (r: String)
        requires
            self.absorbed().len() < MAX_HASHED_BYTES,
        ensures
            r@ == content_hash(self.algorithm(), self.absorbed()),
    {
        match self {
            HashState::Sha256(state) => hex_text(&sha256_finalize(state)),
            HashState::Md5(state) => hex_text(&md5_finalize(state)),
        }
    }
}

/// Content hash of a whole buffer.
pub fn hash_hex_of_bytes(algorithm: HashAlgorithm, bytes: &[u8]) -> (r: String)
    requires
        bytes@.len() < MAX_HASHED_BYTES,
    ensures
        r@ == content_hash(algorithm, bytes@),
{
    let state = HashState::new(algorithm).update(bytes);
    assert(state.absorbed() =~= bytes@);
    state.finalize_hex()
}

/// What a hash step does next.
pub enum HashProgress {
    /// Read at most this many bytes.
    Read { state: HashState, at_most: usize },
    /// The budget is used up; go on in a later step.
    Paused(HashState),
    /// The file ended: its content hash.
    Finished(String),
}

/// One budgeted step of hashing a file.
#[derive(Clone, Copy, Debug, PartialEq, Eq, Structural)]
pub struct HashStep {
    pub remaining: u64,
}

impl HashStep {
    /// A step that hashes at most `max_bytes`.
    pub fn start(max_bytes: u64) -> (r: HashStep)
        ensures
            r.remaining == max_bytes,
    {
        HashStep { remaining: max_bytes }
    }

    /// How much to read next; nothing once the budget is used up.
    pub fn next(&self, state: HashState) -> (r: HashProgress)
        ensures
            if self.remaining == 0 {
                r == HashProgress::Paused(state)
            } else {
                r == (HashProgress::Read {
                    state,
                    at_most: if self.remaining < HASH_READ_BYTES {
                        self.remaining as usize
                    } else {
                        HASH_READ_BYTES
                    },
                })
            },
    {
        if self.remaining == 0 {
            return HashProgress::Paused(state);
        }
        let at_most: usize = if self.remaining < HASH_READ_BYTES as u64 {
            self.remaining as usize
        } else {
            HASH_READ_BYTES
        };
        HashProgress::Read { state, at_most }
    }

    /// Takes in what was read; an empty read is the end of the file.
    pub fn read(&mut self, state: HashState, bytes: &[u8]) -> (r: HashProgress)
        requires
            bytes@.len() <= old(self).remaining,
            state.absorbed().len() + bytes@.len() < MAX_HASHED_BYTES,
        ensures
            if bytes@.len() == 0 {
                &&& r matches HashProgress::Finished(hash)
                &&& hash@ == content_hash(state.algorithm(), state.absorbed())
                &&& *final(self) == *old(self)
            } else {
                let left = old(self).remaining - bytes@.len();
                &&& final(self).remaining == left
                &&& match r {
                    HashProgress::Paused(s) => left == 0 && s.absorbed() == state.absorbed()
                        + bytes@ && s.algorithm() == state.algorithm(),
                    HashProgress::Read { state: s, at_most } => left > 0 && s.absorbed()
                        == state.absorbed() + bytes@ && s.algorithm() == state.algorithm()
                        && at_most == (if left < HASH_READ_BYTES {
                        left
                    } else {
                        HASH_READ_BYTES as int
                    }),
                    HashProgress::Finished(_) => false,
                }
            },
    {
        if bytes.len() == 0 {
            return HashProgress::Finished(state.finalize_hex());
        }
        let next = state.update(bytes);
        self.remaining = self.remaining - bytes.len() as u64;
        self.next(next)
    }
}

/// The hexadecimal digits of a byte, the higher first.
proof fn lemma_hex_of(bytes: Seq<u8>)
    ensures
        hex_of(bytes).len() == 2 * bytes.len(),
        forall|i: int|
            0 <= i < bytes.len() ==> digit_of(hex_of(bytes)[2 * i]) * 16 + digit_of(
                hex_of(bytes)[2 * i + 1],
            ) == #[trigger] bytes[i],
    decreases bytes.len(),
{
    if bytes.len() > 0 {
        let front = bytes.drop_last();
        lemma_hex_of(front);
        let all = hex_of(bytes);
        assert forall|i: int| 0 <= i < bytes.len() implies digit_of(all[2 * i]) * 16 + digit_of(
            all[2 * i + 1],
        ) == #[trigger] bytes[i] by {
            if i < front.len() {
                assert(front[i] == bytes[i]);
                assert(all[2 * i] == hex_of(front)[2 * i]);
                assert(all[2 * i + 1] == hex_of(front)[2 * i + 1]);
            } else {
                let b = bytes[i] as int;
                assert(0 <= b < 256);
                assert(all[2 * i] == hex_digit(b / 16));
                assert(all[2 * i + 1] == hex_digit(b % 16));
            }
        }
    }
}

/// What a small hexadecimal digit stands for.
pub open spec fn digit_of(c: char) -> int {
    if '0' <= c <= '9' {
        c as int - '0' as int
    } else {
        c as int - 'a' as int + 10
    }
}

/// Two digits stand for each byte, so that no two contents of bytes have the
/// same text.
pub proof fn law_hex_digits_read_back(bytes: Vec<u8>, r: String)
    requires
        call_ensures(hex_text, (&bytes,), r),
    ensures
        r@.len() == 2 * bytes@.len(),
        forall|i: int|
            0 <= i < bytes@.len() ==> digit_of(r@[2 * i]) * 16 + digit_of(r@[2 * i + 1])
                == #[trigger] bytes@[i],
{
    lemma_hex_of(bytes@);
}

/// Hashing piece by piece comes to the hash of the whole, however the content
/// is cut.
pub proof fn law_pieces_hash_as_the_whole(
    algorithm: HashAlgorithm,
    front: &[u8],
    back: &[u8],
    whole: &[u8],
    s0: HashState,
    s1: HashState,
    s2: HashState,
    pieces: String,
    once: String,
)
    requires
        call_ensures(HashState::new, (algorithm,), s0),
        call_ensures(HashState::update, (s0, front), s1),
        call_ensures(HashState::update, (s1, back), s2),
        call_ensures(HashState::finalize_hex, (s2,), pieces),
        call_ensures(hash_hex_of_bytes, (algorithm, whole), once),
        whole@ == front@ + back@,
    ensures
        pieces@ == once@,
{
    assert(Seq::<u8>::empty() + front@ =~= front@);
    assert(s2.absorbed() =~= whole@);
}

/// A step of hashing reads no more than it may, pauses exactly when that is
/// used up and finishes only at the end of the file; nothing read is lost.
pub proof fn law_a_hash_step_keeps_its_budget(
    step: &mut HashStep,
    state: HashState,
    bytes: &[u8],
    r: HashProgress,
)
    requires
        call_ensures(HashStep::read, (step, state, bytes), r),
    ensures
        r is Finished <==> bytes@.len() == 0,
        r is Paused ==> final(step).remaining == 0,
        bytes@.len() > 0 ==> final(step).remaining == old(step).remaining - bytes@.len(),
        r matches HashProgress::Paused(s) ==> s.absorbed() == state.absorbed() + bytes@
            && s.algorithm() == state.algorithm(),
        r matches HashProgress::Read { state: s, at_most } ==> s.absorbed() == state.absorbed()
            + bytes@ && s.algorithm() == state.algorithm() && 0 < at_most
            <= final(step).remaining && at_most <= 65_536,
        r matches HashProgress::Finished(hash) ==> hash@ == content_hash(
            state.algorithm(),
            state.absorbed(),
        ),
{
}

} // verus!
