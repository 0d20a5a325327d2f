use duplicate_finder::hashing::{digest_text, BlockHasher, PARTIAL_HASH_BLOCKS, PARTIAL_HASH_BYTES, READ_BLOCK_SIZE};
use md5::{Digest, Md5};

fn md5_value(data: &[u8]) -> u128 {
    let out = Md5::digest(data);
    let mut b = [0u8; 16];
    b.copy_from_slice(&out);
    u128::from_be_bytes(b)
}

fn hash_reads(mut h: BlockHasher, reads: &[&[u8]]) -> u128 {
    for r in reads {
        if !h.feed(r) {
            break;
        }
    }
    h.digest()
}

#[test]
fn md5_of_empty_input() {
    let d = hash_reads(BlockHasher::for_full_hash(), &[b""]);
    assert_eq!(d, 0xd41d8cd98f00b204e9800998ecf8427e);
}

#[test]
fn md5_of_abc_in_one_read() {
    let d = hash_reads(BlockHasher::for_full_hash(), &[b"abc", b""]);
    assert_eq!(d, 0x900150983cd24fb0d6963f7d28e17f72);
}

#[test]
fn md5_of_split_reads_equals_one_read() {
    let a = hash_reads(BlockHasher::for_full_hash(), &[b"a", b"b", b"c", b""]);
    assert_eq!(a, 0x900150983cd24fb0d6963f7d28e17f72);
}

#[test]
fn partial_hash_takes_the_leading_bytes_whatever_the_reads() {
    assert_eq!(PARTIAL_HASH_BLOCKS, 3);
    assert_eq!(READ_BLOCK_SIZE, 65536);
    assert_eq!(PARTIAL_HASH_BYTES, 196608);
    let data: Vec<u8> = (0..300_000u32).map(|i| (i % 251) as u8).collect();
    let expected = md5_value(&data[..PARTIAL_HASH_BYTES]);
    let blocks: Vec<&[u8]> = data.chunks(READ_BLOCK_SIZE).collect();
    assert_eq!(hash_reads(BlockHasher::for_partial_hash(), &blocks), expected);
    let small: Vec<&[u8]> = data.chunks(1000).collect();
    assert_eq!(hash_reads(BlockHasher::for_partial_hash(), &small), expected);
    let uneven: Vec<&[u8]> = vec![&data[..1], &data[1..100_000], &data[100_000..]];
    assert_eq!(hash_reads(BlockHasher::for_partial_hash(), &uneven), expected);
}

#[test]
fn partial_hash_of_short_reads_continues() {
    let mut h = BlockHasher::for_partial_hash();
    assert!(h.feed(b"a"));
    assert!(h.feed(b"b"));
    assert!(h.feed(b"c"));
    assert!(!h.finished());
    assert!(!h.feed(b""));
    assert_eq!(h.digest(), 0x900150983cd24fb0d6963f7d28e17f72);
}

#[test]
fn partial_hash_stops_at_the_byte_limit() {
    let data = vec![7u8; PARTIAL_HASH_BYTES];
    let mut h = BlockHasher::for_partial_hash();
    assert!(h.feed(&data[..PARTIAL_HASH_BYTES - 1]));
    assert!(!h.feed(&data[..10]));
    assert_eq!(h.digest(), md5_value(&data));
}

#[test]
fn file_of_exactly_three_blocks_has_equal_partial_and_full() {
    let data = vec![3u8; PARTIAL_HASH_BYTES];
    let blocks: Vec<&[u8]> = data.chunks(READ_BLOCK_SIZE).chain(std::iter::once(&[][..])).collect();
    let partial = hash_reads(BlockHasher::for_partial_hash(), &blocks);
    let full = hash_reads(BlockHasher::for_full_hash(), &blocks);
    assert_eq!(partial, full);
}

#[test]
fn partial_hash_ignores_bytes_after_the_limit() {
    let mut a = vec![1u8; PARTIAL_HASH_BYTES + 10];
    let partial_a = hash_reads(BlockHasher::for_partial_hash(), &[&a[..]]);
    a[PARTIAL_HASH_BYTES + 5] = 9;
    let partial_b = hash_reads(BlockHasher::for_partial_hash(), &[&a[..]]);
    assert_eq!(partial_a, partial_b);
    let full = hash_reads(BlockHasher::for_full_hash(), &[&a[..], b""]);
    assert_ne!(partial_a, full);
}

#[test]
fn short_file_partial_equals_full() {
    let partial = hash_reads(BlockHasher::for_partial_hash(), &[b"hello ", b"world", b""]);
    let full = hash_reads(BlockHasher::for_full_hash(), &[b"hello ", b"world", b""]);
    assert_eq!(partial, full);
}

#[test]
fn empty_read_ends_hashing() {
    let mut h = BlockHasher::for_full_hash();
    assert!(h.feed(b"abc"));
    assert!(!h.feed(b""));
    assert!(h.finished());
}

#[test]
fn digest_text_matches_debug_form_of_bytes() {
    for d in [0u128, 0xd41d8cd98f00b204e9800998ecf8427e, u128::MAX, 0x0102030405060708090a0b0c0d0e0f10] {
        assert_eq!(digest_text(d), format!("{:?}", d.to_be_bytes()));
    }
}

#[test]
fn digest_text_exact_value() {
    assert_eq!(
        digest_text(0x900150983cd24fb0d6963f7d28e17f72),
        "[144, 1, 80, 152, 60, 210, 79, 176, 214, 150, 63, 125, 40, 225, 127, 114]"
    );
}

