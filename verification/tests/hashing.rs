use vapor_daemon::hashing::{
    hash_hex_of_bytes, hex_text, HashProgress, HashState, HashStep, HASH_READ_BYTES,
};
use vapor_daemon::records::HashAlgorithm;

#[test]
fn known_digests() {
    assert_eq!(
        hash_hex_of_bytes(HashAlgorithm::Sha256, b"abc"),
        "ba7816bf8f01cfea414140de5dae2223b00361a396177a9cb410ff61f20015ad"
    );
    assert_eq!(
        hash_hex_of_bytes(HashAlgorithm::Sha256, b""),
        "e3b0c44298fc1c149afbf4c8996fb92427ae41e4649b934ca495991b7852b855"
    );
    assert_eq!(
        hash_hex_of_bytes(HashAlgorithm::Md5, b"abc"),
        "900150983cd24fb0d6963f7d28e17f72"
    );
    assert_eq!(
        hash_hex_of_bytes(HashAlgorithm::Md5, b""),
        "d41d8cd98f00b204e9800998ecf8427e"
    );
}

#[test]
fn bytes_are_written_as_two_hex_digits() {
    assert_eq!(hex_text(&vec![0, 15, 16, 255]), "000f10ff");
}

#[test]
fn hashing_in_pieces_gives_the_hash_of_the_whole() {
    for algorithm in [HashAlgorithm::Sha256, HashAlgorithm::Md5] {
        let state = HashState::new(algorithm).update(b"hel").update(b"").update(b"lo");
        assert_eq!(state.finalize_hex(), hash_hex_of_bytes(algorithm, b"hello"));
    }
}

#[test]
fn a_hash_goes_on_over_several_budgets() {
    let contents: Vec<u8> = (0..200_000u32).map(|i| (i % 251) as u8).collect();
    let mut state = HashState::new(HashAlgorithm::Sha256);
    let mut at = 0;
    let mut steps = 0;
    let hash = 'hashed: loop {
        steps += 1;
        let mut step = HashStep::start(70_000);
        let mut progress = step.next(state);
        loop {
            match progress {
                HashProgress::Read { state, at_most } => {
                    assert!(at_most > 0 && at_most <= HASH_READ_BYTES);
                    let end = (at + at_most).min(contents.len());
                    let bytes = &contents[at..end];
                    at = end;
                    progress = step.read(state, bytes);
                }
                HashProgress::Paused(paused) => {
                    state = paused;
                    break;
                }
                HashProgress::Finished(hash) => break 'hashed hash,
            }
        }
    };
    assert_eq!(steps, 3);
    assert_eq!(hash, hash_hex_of_bytes(HashAlgorithm::Sha256, &contents));
}
