use otp_vault::cipher::{process_stream, xor, CipherStream, CHUNK_SIZE};
use otp_vault::digest::{content_hash, to_hex, StreamDigest};
use otp_vault::error::VaultError;

#[test]
fn hello_encrypts_and_decrypts_with_small_pad() {
    let pad = [1u8, 2, 3, 4, 5];
    let ciphertext = xor(b"HELLO", &pad);
    assert_eq!(
        ciphertext,
        vec![b'H' ^ 1, b'E' ^ 2, b'L' ^ 3, b'L' ^ 4, b'O' ^ 5]
    );
    assert_eq!(xor(&ciphertext, &pad), b"HELLO".to_vec());
}

#[test]
fn round_trip_with_longer_pad() {
    let plaintext: Vec<u8> = (0..10_000u32).map(|i| (i % 251) as u8).collect();
    let pad: Vec<u8> = (0..12_000u32).map(|i| ((i * 31 + 7) % 256) as u8).collect();
    let once = process_stream(&plaintext, &pad).unwrap();
    assert_eq!(once.len(), plaintext.len());
    assert_ne!(once, plaintext);
    let twice = process_stream(&once, &pad).unwrap();
    assert_eq!(twice, plaintext);
}

#[test]
fn process_stream_refuses_input_longer_than_segment() {
    let input = vec![0u8; CHUNK_SIZE + 1];
    let pad = vec![9u8; CHUNK_SIZE];
    assert_eq!(
        process_stream(&input, &pad),
        Err(VaultError::InputLongerThanSegment { segment_length: CHUNK_SIZE as u64 })
    );
}

#[test]
fn process_stream_of_empty_input_is_empty() {
    assert_eq!(process_stream(&[], &[1, 2, 3]), Ok(vec![]));
}

#[test]
fn cipher_stream_chunks_match_whole_xor() {
    let pad: Vec<u8> = (0..20u8).collect();
    let mut stream = CipherStream::new(pad.clone(), true);
    let a = stream.process_chunk(b"abcdefg").unwrap();
    let b = stream.process_chunk(b"hijklmnop").unwrap();
    assert_eq!(stream.processed_len(), 16);
    let mut joined = a.clone();
    joined.extend_from_slice(&b);
    assert_eq!(joined, xor(b"abcdefghijklmnop", &pad[..16]));
    let hash = stream.finish().unwrap();
    assert_eq!(hash, content_hash(&joined));
}

#[test]
fn cipher_stream_refuses_overflowing_chunk_and_keeps_state() {
    let mut stream = CipherStream::new(vec![0u8; 4], false);
    stream.process_chunk(b"ab").unwrap();
    assert_eq!(
        stream.process_chunk(b"cde"),
        Err(VaultError::InputLongerThanSegment { segment_length: 4 })
    );
    assert_eq!(stream.processed_len(), 2);
    assert_eq!(stream.process_chunk(b"cd"), Ok(b"cd".to_vec()));
    assert_eq!(stream.finish(), None);
}

#[test]
fn content_hash_is_sha256_hex() {
    assert_eq!(
        content_hash(b"abc"),
        "ba7816bf8f01cfea414140de5dae2223b00361a396177a9cb410ff61f20015ad"
    );
    assert_eq!(
        content_hash(b""),
        "e3b0c44298fc1c149afbf4c8996fb92427ae41e4649b934ca495991b7852b855"
    );
}

#[test]
fn stream_digest_equals_one_shot_hash() {
    let mut d = StreamDigest::new();
    d.update(b"ab");
    d.update(b"");
    d.update(b"c");
    assert_eq!(d.finish(), content_hash(b"abc"));
}

#[test]
fn hex_is_lower_case_two_digits_per_byte() {
    assert_eq!(to_hex(&[0x00, 0x0f, 0xa5, 0xff]), "000fa5ff");
    assert_eq!(to_hex(&[]), "");
}
