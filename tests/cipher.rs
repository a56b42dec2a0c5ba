use remote_backup::cipher::{
    decrypt_data, encrypt_chunked, encrypt_data, generate_key, nonce_for, CipherError,
    SealSession, CHUNK_SIZE, KEY_LEN, MARKER_LEN, RECORD_HEADER_LEN, TAG_LEN,
};

fn test_key() -> Vec<u8> {
    (0u8..32).collect()
}

fn sample(n: usize) -> Vec<u8> {
    (0..n).map(|i| (i * 31 % 251) as u8).collect()
}

fn read_u64(b: &[u8]) -> u64 {
    let mut a = [0u8; 8];
    a.copy_from_slice(&b[..8]);
    u64::from_le_bytes(a)
}

fn read_u32(b: &[u8]) -> u32 {
    let mut a = [0u8; 4];
    a.copy_from_slice(&b[..4]);
    u32::from_le_bytes(a)
}

/// Splits a sealed stream into its records: (index, sealed bytes).
fn records(sealed: &[u8]) -> Vec<(u64, Vec<u8>)> {
    let mut out = Vec::new();
    let mut pos = MARKER_LEN;
    while pos < sealed.len() {
        let idx = read_u64(&sealed[pos..]);
        let len = read_u32(&sealed[pos + 8..]) as usize;
        let start = pos + RECORD_HEADER_LEN;
        out.push((idx, sealed[start..start + len].to_vec()));
        pos = start + len;
    }
    out
}

#[test]
fn round_trip_empty() {
    let key = test_key();
    let sealed = encrypt_data(&[], &key).unwrap();
    assert_eq!(sealed.len(), MARKER_LEN);
    assert_eq!(decrypt_data(&sealed, &key).unwrap(), Vec::<u8>::new());
}

#[test]
fn round_trip_single_chunk() {
    let key = test_key();
    let data = b"hello, backup".to_vec();
    let sealed = encrypt_data(&data, &key).unwrap();
    assert_eq!(sealed.len(), MARKER_LEN + RECORD_HEADER_LEN + data.len() + TAG_LEN);
    assert_eq!(decrypt_data(&sealed, &key).unwrap(), data);
}

#[test]
fn round_trip_exactly_one_chunk() {
    let key = test_key();
    let data = sample(64);
    let sealed = encrypt_chunked(&data, &key, 64).unwrap();
    assert_eq!(records(&sealed).len(), 1);
    assert_eq!(decrypt_data(&sealed, &key).unwrap(), data);
}

#[test]
fn round_trip_many_chunks() {
    let key = test_key();
    let data = sample(1000);
    let sealed = encrypt_chunked(&data, &key, 64).unwrap();
    let recs = records(&sealed);
    assert_eq!(recs.len(), 16);
    assert_eq!(recs[15].1.len(), 1000 - 15 * 64 + TAG_LEN);
    assert_eq!(decrypt_data(&sealed, &key).unwrap(), data);
}

#[test]
fn round_trip_chunk_boundary_exact() {
    let key = test_key();
    let data = sample(256);
    let sealed = encrypt_chunked(&data, &key, 64).unwrap();
    let recs = records(&sealed);
    assert_eq!(recs.len(), 4);
    assert!(recs.iter().all(|(_, s)| s.len() == 64 + TAG_LEN));
    assert_eq!(decrypt_data(&sealed, &key).unwrap(), data);
}

#[test]
fn round_trip_default_chunk_size_two_chunks() {
    let key = test_key();
    let data = sample(CHUNK_SIZE + 5);
    let sealed = encrypt_data(&data, &key).unwrap();
    let recs = records(&sealed);
    assert_eq!(recs.len(), 2);
    assert_eq!(recs[0].1.len(), CHUNK_SIZE + TAG_LEN);
    assert_eq!(recs[1].1.len(), 5 + TAG_LEN);
    assert_eq!(decrypt_data(&sealed, &key).unwrap(), data);
}

#[test]
fn sealed_chunk_is_not_plaintext() {
    let key = test_key();
    let data = sample(100);
    let sealed = encrypt_data(&data, &key).unwrap();
    let recs = records(&sealed);
    assert_ne!(&recs[0].1[..100], &data[..]);
}

#[test]
fn format_marker_and_header_layout() {
    let key = test_key();
    let sealed = encrypt_chunked(&sample(10), &key, 4).unwrap();
    assert_eq!(&sealed[..MARKER_LEN], &[0x52, 0x42, 0x4b, 0x01]);
    assert_eq!(read_u64(&sealed[MARKER_LEN..]), 0);
    assert_eq!(read_u32(&sealed[MARKER_LEN + 8..]), (4 + TAG_LEN) as u32);
}

#[test]
fn chunk_indices_increase_from_zero() {
    let key = test_key();
    let sealed = encrypt_chunked(&sample(50), &key, 7).unwrap();
    let idx: Vec<u64> = records(&sealed).iter().map(|r| r.0).collect();
    assert_eq!(idx, (0u64..8).collect::<Vec<u64>>());
}

#[test]
fn nonces_are_index_in_low_bytes() {
    assert_eq!(nonce_for(0), [0u8; 12]);
    assert_eq!(nonce_for(1), [1, 0, 0, 0, 0, 0, 0, 0, 0, 0, 0, 0]);
    assert_eq!(nonce_for(0x0102), [2, 1, 0, 0, 0, 0, 0, 0, 0, 0, 0, 0]);
    assert_eq!(nonce_for(u64::MAX), [255, 255, 255, 255, 255, 255, 255, 255, 0, 0, 0, 0]);
    let all: Vec<[u8; 12]> = (0u64..300).map(nonce_for).collect();
    for i in 0..all.len() {
        for j in 0..i {
            assert_ne!(all[i], all[j]);
        }
    }
}

#[test]
fn session_counts_chunks() {
    let key = test_key();
    let mut session = SealSession::new(&key).unwrap();
    assert_eq!(session.chunks_sealed(), 0);
    let a = session.seal_next(b"abc");
    let b = session.seal_next(b"abc");
    assert_eq!(session.chunks_sealed(), 2);
    assert_eq!(read_u64(&a), 0);
    assert_eq!(read_u64(&b), 1);
    assert_ne!(a[RECORD_HEADER_LEN..], b[RECORD_HEADER_LEN..]);
}

#[test]
fn tampered_chunk_fails_whole_stream() {
    let key = test_key();
    let data = sample(200);
    let sealed = encrypt_chunked(&data, &key, 64).unwrap();
    let body_start = MARKER_LEN + RECORD_HEADER_LEN;
    for &pos in &[body_start, body_start + 10, body_start + 64 + TAG_LEN - 1] {
        let mut bad = sealed.clone();
        bad[pos] ^= 0x01;
        assert_eq!(decrypt_data(&bad, &key), Err(CipherError::DecryptionFailed));
    }
    // a bit flipped in the last chunk
    let mut bad = sealed.clone();
    let last = bad.len() - 1;
    bad[last] ^= 0x80;
    assert_eq!(decrypt_data(&bad, &key), Err(CipherError::DecryptionFailed));
}

#[test]
fn wrong_key_fails_authentication() {
    let key = test_key();
    let sealed = encrypt_data(b"secret", &key).unwrap();
    let other = vec![7u8; KEY_LEN];
    assert_eq!(decrypt_data(&sealed, &other), Err(CipherError::DecryptionFailed));
}

#[test]
fn reordered_records_are_rejected() {
    let key = test_key();
    let sealed = encrypt_chunked(&sample(20), &key, 10).unwrap();
    let rec_len = RECORD_HEADER_LEN + 10 + TAG_LEN;
    let mut swapped = sealed[..MARKER_LEN].to_vec();
    swapped.extend_from_slice(&sealed[MARKER_LEN + rec_len..]);
    swapped.extend_from_slice(&sealed[MARKER_LEN..MARKER_LEN + rec_len]);
    assert_eq!(decrypt_data(&swapped, &key), Err(CipherError::IntegrityViolation));
    // a dropped first record leaves a gap
    let mut dropped = sealed[..MARKER_LEN].to_vec();
    dropped.extend_from_slice(&sealed[MARKER_LEN + rec_len..]);
    assert_eq!(decrypt_data(&dropped, &key), Err(CipherError::IntegrityViolation));
    // a duplicated record
    let mut dup = sealed.clone();
    dup.extend_from_slice(&sealed[MARKER_LEN + rec_len..]);
    assert_eq!(decrypt_data(&dup, &key), Err(CipherError::IntegrityViolation));
}

#[test]
fn truncated_or_unmarked_streams_are_rejected() {
    let key = test_key();
    let sealed = encrypt_data(&sample(30), &key).unwrap();
    assert_eq!(decrypt_data(&sealed[..sealed.len() - 1], &key), Err(CipherError::IntegrityViolation));
    assert_eq!(decrypt_data(&sealed[..MARKER_LEN + 5], &key), Err(CipherError::IntegrityViolation));
    assert_eq!(decrypt_data(&sealed[..2], &key), Err(CipherError::IntegrityViolation));
    let mut bad = sealed.clone();
    bad[3] = 2;
    assert_eq!(decrypt_data(&bad, &key), Err(CipherError::IntegrityViolation));
}

#[test]
fn short_or_long_keys_are_rejected() {
    for len in [0usize, 16, 31, 33, 64] {
        let key = vec![1u8; len];
        assert_eq!(encrypt_data(b"x", &key), Err(CipherError::InvalidKey));
        assert_eq!(decrypt_data(&[0x52, 0x42, 0x4b, 0x01], &key), Err(CipherError::InvalidKey));
        assert_eq!(decrypt_data(&[], &key), Err(CipherError::InvalidKey));
        assert!(matches!(SealSession::new(&key), Err(CipherError::InvalidKey)));
    }
}

#[test]
fn generated_keys_have_key_length() {
    let a = generate_key();
    let b = generate_key();
    assert_eq!(a.len(), KEY_LEN);
    assert_eq!(b.len(), KEY_LEN);
    assert_ne!(a, b);
    let sealed = encrypt_data(b"with a fresh key", &a).unwrap();
    assert_eq!(decrypt_data(&sealed, &a).unwrap(), b"with a fresh key".to_vec());
}
