use orbistoun_gpu::{content_hash, ContentHasher};

/// The reference hash the streaming form must agree with.
fn reference_hash(words: &[u32]) -> u64 {
    const K: u64 = 0x9E37_79B9_7F4A_7C15;
    let mut hash = (words.len() as u64).wrapping_mul(K);
    let mut pairs = words.chunks_exact(2);
    for pair in &mut pairs {
        let word = u64::from(pair[0]) | (u64::from(pair[1]) << 32);
        hash = (hash ^ word).wrapping_mul(K).rotate_left(29);
    }
    if let [last] = pairs.remainder() {
        hash = (hash ^ u64::from(*last)).wrapping_mul(K).rotate_left(29);
    }
    hash ^ (hash >> 32)
}

#[test]
fn streaming_matches_the_original_however_it_is_fed() {
    for total in [0usize, 1, 2, 7, 64, 99] {
        let words: Vec<u32> = (0..total as u32).map(|i| i.wrapping_mul(0x0101_0101) ^ 0xdead_beef).collect();
        assert_eq!(content_hash(&words), reference_hash(&words), "{total} words");
        for row in [1usize, 3, 5] {
            let mut hasher = ContentHasher::new(total);
            for chunk in words.chunks(row) {
                let bytes: Vec<u8> = chunk.iter().flat_map(|w| w.to_le_bytes()).collect();
                hasher.bytes(&bytes);
            }
            assert_eq!(hasher.finish(), reference_hash(&words), "{total} words in rows of {row}");
        }
    }
    assert_ne!(content_hash(&[1, 2]), content_hash(&[2, 1]));
}

#[test]
fn a_split_feed_hashes_as_the_whole() {
    let words: Vec<u32> = (0..11u32).map(|i| i * 7 + 3).collect();
    let mut hasher = ContentHasher::new(words.len());
    for w in &words[..4] {
        hasher.word(*w);
    }
    let tail: Vec<u8> = words[4..].iter().flat_map(|w| w.to_le_bytes()).collect();
    hasher.bytes(&tail);
    assert_eq!(hasher.finish(), content_hash(&words));
}

#[test]
fn a_trailing_partial_word_is_ignored() {
    let mut hasher = ContentHasher::new(1);
    hasher.bytes(&[1, 0, 0, 0, 0xff, 0xff]);
    assert_eq!(hasher.finish(), content_hash(&[1]));
}

#[test]
fn the_empty_hash_is_the_seed_folded() {
    assert_eq!(content_hash(&[]), 0);
    assert_eq!(content_hash(&[5]), reference_hash(&[5]));
}
