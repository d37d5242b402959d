use std::hash::{BuildHasher, Hasher};

use cf_picker::hash::{fast_hash_bytes, FastBuildHasher, FastHasher, K};
use cf_picker::random::RandImpl;
use cf_picker::traits::{pick_u8, pick_usize, Rand};

fn chunked_digest(bytes: &[u8]) -> u64 {
    let mut hash = bytes.len() as u64;
    for chunk in bytes.chunks(8) {
        let mut val = 0u64;
        for (i, &b) in chunk.iter().enumerate() {
            val |= (b as u64) << (i * 8);
        }
        hash = hash.wrapping_add(val).wrapping_mul(K);
    }
    hash
}

#[test]
fn digest_of_empty_input_is_zero() {
    assert_eq!(fast_hash_bytes(&[]), 0);
}

#[test]
fn digest_of_one_byte() {
    assert_eq!(fast_hash_bytes(&[1]), 2u64.wrapping_mul(K));
    assert_eq!(fast_hash_bytes(&[1]), 0x3c6ef372fe94f82a);
}

#[test]
fn digest_matches_little_endian_chunks() {
    let data: Vec<u8> = (0u8..=40).collect();
    for len in [0usize, 1, 7, 8, 9, 15, 16, 17, 41] {
        assert_eq!(fast_hash_bytes(&data[..len]), chunked_digest(&data[..len]));
    }
}

#[test]
fn finish_rotates_the_state() {
    let h = FastHasher::new(5);
    assert_eq!(h.finish(), 5u64.rotate_left(26));
    assert_eq!(FastHasher::default().finish(), 0);
}

#[test]
fn integer_writes_absorb_the_value() {
    let mut h = FastHasher::new(5);
    h.write_u8(3);
    assert_eq!(h.finish(), 8u64.wrapping_mul(K).rotate_left(26));

    let mut a = FastHasher::new(9);
    let mut b = FastHasher::new(9);
    a.write_u16(700);
    b.write_u64(700);
    assert_eq!(a.finish(), b.finish());
    a.write_u32(70000);
    b.write_usize(70000);
    assert_eq!(a.finish(), b.finish());
}

#[test]
fn wide_writes_absorb_both_halves() {
    let mut a = FastHasher::new(1);
    a.write_u128((7u128 << 64) | 3);
    let mut b = FastHasher::new(1);
    b.write_u64(3);
    b.write_u64(7);
    assert_eq!(a.finish(), b.finish());
}

#[test]
fn byte_writes_absorb_the_digest() {
    let mut a = FastHasher::new(11);
    a.write(b"cloudflare");
    let mut b = FastHasher::new(11);
    b.write_u64(fast_hash_bytes(b"cloudflare"));
    assert_eq!(a.finish(), b.finish());
}

#[test]
fn builders_start_hashers_at_their_seed() {
    assert_eq!(FastBuildHasher::with_seed(7).build_hasher().finish(), 7u64.rotate_left(26));
    assert_eq!(FastBuildHasher::new().build_hasher().finish(), 0);
    assert_eq!(FastBuildHasher::default().build_hasher().finish(), 0);
    let b = FastBuildHasher::with_seed(42);
    assert_eq!(b.hash_one("HKG"), b.hash_one("HKG"));
}

struct Fixed(u64);

impl Rand for Fixed {
    fn next_u64(&mut self) -> u64 {
        self.0
    }
}

#[test]
fn builder_seed_comes_from_the_source() {
    let mut rng = Fixed(99);
    let b = FastBuildHasher::from_rng(&mut rng);
    assert_eq!(b.build_hasher().finish(), 99u64.rotate_left(26));
}

#[test]
fn ranges_map_the_draw() {
    assert_eq!(pick_usize(3, 7, 12), 5);
    assert_eq!(pick_usize(7, 7, 12), 7);
    assert_eq!(pick_usize(9, 2, 12), 9);
    assert_eq!(pick_u8(0, 255, 300), 44);
    assert_eq!(pick_u8(10, 10, 1), 10);
    assert_eq!(pick_u8(200, 100, 1), 200);
    let mut rng = Fixed(12);
    assert_eq!(rng.random_range_usize(3, 7), 5);
    assert_eq!(rng.random_range_u8(250, 255), 250);
    assert_eq!(rng.random_range_u8(9, 3), 9);
}

#[test]
fn process_source_stays_in_range() {
    let mut rng = RandImpl::new();
    for _ in 0..200 {
        let v = rng.random_range_usize(10, 20);
        assert!((10..=20).contains(&v));
        let b = rng.random_range_u8(5, 6);
        assert!(b == 5 || b == 6);
    }
    assert_eq!(rng.random_range_usize(4, 4), 4);
}
