//! A fast, non-cryptographic hasher for trusted internal keys.

use vstd::prelude::*;
use core::hash::{BuildHasher, Hasher};
use crate::traits::Rand;

verus! {

/// The multiplier applied after every absorbed word.
pub const K: u64 = 0x9e3779b97f4a7c15;

/// 2^64, the modulus of all hash arithmetic.
pub open spec fn word_modulus() -> int {
    0x1_0000_0000_0000_0000
}

/// One absorption step: add the word, then multiply by `K`, both modulo 2^64.
pub open spec fn mix(h: u64, i: u64) -> u64 {
    (((h as int + i as int) * K as int) % word_modulus()) as u64
}

/// The value of a byte sequence read as a little-endian number.
pub open spec fn le_value(s: Seq<u8>) -> nat
    decreases s.len(),
{
    if s.len() == 0 {
        0
    } else {
        s[0] as nat + 256 * le_value(s.drop_first())
    }
}

/// 256 to the power `n`.
pub open spec fn pow256(n: nat) -> nat
    decreases n,
{
    if n == 0 {
        1
    } else {
        256 * pow256((n - 1) as nat)
    }
}

/// Absorbs `s` into `h` in little-endian words of up to eight bytes.
pub open spec fn absorb_chunks(h: u64, s: Seq<u8>) -> u64
    decreases s.len(),
{
    if s.len() == 0 {
        h
    } else {
        let n: int = if s.len() < 8 { s.len() as int } else { 8 };
        absorb_chunks(mix(h, le_value(s.take(n)) as u64), s.skip(n))
    }
}

/// The digest of a byte string: its length, then every eight-byte chunk absorbed in turn.
pub open spec fn bytes_digest(s: Seq<u8>) -> u64 {
    absorb_chunks(s.len() as u64, s)
}

/// Rotation of a 64-bit word left by 26 bits.
pub open spec fn rotate26(x: u64) -> u64 {
    (x << 26u64) | (x >> 38u64)
}

proof fn lemma_le_value_bound(s: Seq<u8>)
    ensures
        le_value(s) < pow256(s.len()),
    decreases s.len(),
{
    if s.len() > 0 {
        lemma_le_value_bound(s.drop_first());
    }
}

proof fn lemma_pow256_mono(a: nat, b: nat)
    requires
        a <= b,
    ensures
        pow256(a) <= pow256(b),
    decreases b,
{
    if a < b {
        lemma_pow256_mono(a, (b - 1) as nat);
    }
}

proof fn lemma_mix_exec(h: u64, i: u64)
    ensures
        mix(h, i) == vstd::wrapping::u64_specs::wrapping_mul(
            vstd::wrapping::u64_specs::wrapping_add(h, i),
            K,
        ),
{
    let m = word_modulus();
    let s = h as int + i as int;
    let w: int = vstd::wrapping::u64_specs::wrapping_add(h, i) as int;
    assert(w == s % m);
    vstd::arithmetic::div_mod::lemma_mul_mod_noop_left(s, K as int, m);
}

/// Reads one little-endian word from `bytes[start..start + n]`.
fn le_word(bytes: &[u8], start: usize, n: usize) -> (v: u64)
    requires
        n <= 8,
        start + n <= bytes@.len(),
    ensures
        v as nat == le_value(bytes@.subrange(start as int, start + n)),
{
    let ghost s = bytes@;
    let blen = bytes.len();
    let mut val: u64 = 0;
    let mut j: usize = n;
    proof {
        assert(s.subrange(start + n, start + n) =~= Seq::<u8>::empty());
    }
    while j > 0
        invariant
            j <= n <= 8,
            start + n <= s.len(),
            s == bytes@,
            blen == s.len(),
            val as nat == le_value(s.subrange(start + j, start + n)),
        decreases j,
    {
        let ghost old_val = val;
        proof {
            lemma_le_value_bound(s.subrange(start + j, start + n));
            lemma_pow256_mono((n - j) as nat, 7);
            reveal_with_fuel(pow256, 8);
            assert(pow256(7) == 0x100_0000_0000_0000);
        }
        j = j - 1;
        let b = bytes[start + j];
        proof {
            assert(old_val * 256 + b < word_modulus()) by (nonlinear_arith)
                requires
                    old_val < 0x100_0000_0000_0000,
                    b < 256,
            ;
            let t = s.subrange(start + j, start + n);
            assert(t.drop_first() =~= s.subrange(start + j + 1, start + n));
        }
        val = val * 256 + b as u64;
    }
    val
}

/// Digest of a byte string; the same bytes always give the same digest.
pub fn fast_hash_bytes(bytes: &[u8]) -> (h: u64)
    ensures
        h == bytes_digest(bytes@),
{
    let ghost s = bytes@;
    let len = bytes.len();
    let mut hash: u64 = len as u64;
    let mut pos: usize = 0;
    proof {
        assert(s.skip(0) =~= s);
    }
    while pos < len
        invariant
            len == s.len(),
            s == bytes@,
            pos <= len,
            absorb_chunks(hash, s.skip(pos as int)) == bytes_digest(s),
        decreases len - pos,
    {
        let n: usize = if len - pos < 8 { len - pos } else { 8 };
        let val = le_word(bytes, pos, n);
        proof {
            let rest = s.skip(pos as int);
            assert(rest.take(n as int) =~= s.subrange(pos as int, pos + n));
            assert(rest.skip(n as int) =~= s.skip(pos + n));
            lemma_mix_exec(hash, val);
        }
        hash = hash.wrapping_add(val).wrapping_mul(K);
        pos = pos + n;
    }
    hash
}

/// Fast non-cryptographic hasher for fully trusted internal data.
#[derive(Debug, Clone)]
pub struct FastHasher {
    hash: u64,
}

impl View for FastHasher {
    type V = u64;

    /// The hasher's running state.
    closed spec fn view(&self) -> u64 {
        self.hash
    }
}

impl FastHasher {
    /// Creates a hasher whose state starts at `seed`.
    pub fn new(seed: u64) -> (h: Self)
        ensures
            h@ == seed,
    {
        Self { hash: seed }
    }

    fn add_to_hash(&mut self, i: u64)
        ensures
            final(self)@ == mix(old(self)@, i),
    {
        proof {
            lemma_mix_exec(self.hash, i);
        }
        self.hash = self.hash.wrapping_add(i).wrapping_mul(K);
    }
}

impl Default for FastHasher {
    fn default() -> (h: Self)
        ensures
            h@ == 0,
    {
        Self::new(0)
    }
}

impl Hasher for FastHasher {
    fn finish(&self) -> (r: u64)
        ensures
            r == rotate26(self@),
    {
        (self.hash << 26u64) | (self.hash >> 38u64)
    }

    fn write(&mut self, bytes: &[u8])
        ensures
            final(self)@ == mix(old(self)@, bytes_digest(bytes@)),
    {
        let d = fast_hash_bytes(bytes);
        self.write_u64(d);
    }

    fn write_u8(&mut self, i: u8)
        ensures
            final(self)@ == mix(old(self)@, i as u64),
    {
        self.add_to_hash(i as u64);
    }

    fn write_u16(&mut self, i: u16)
        ensures
            final(self)@ == mix(old(self)@, i as u64),
    {
        self.add_to_hash(i as u64);
    }

    fn write_u32(&mut self, i: u32)
        ensures
            final(self)@ == mix(old(self)@, i as u64),
    {
        self.add_to_hash(i as u64);
    }

    fn write_u64(&mut self, i: u64)
        ensures
            final(self)@ == mix(old(self)@, i),
    {
        self.add_to_hash(i);
    }

    fn write_u128(&mut self, i: u128)
        ensures
            final(self)@ == mix(mix(old(self)@, i as u64), (i >> 64u128) as u64),
    {
        self.add_to_hash(i as u64);
        self.add_to_hash((i >> 64u128) as u64);
    }

    fn write_usize(&mut self, i: usize)
        ensures
            final(self)@ == mix(old(self)@, i as u64),
    {
        self.add_to_hash(i as u64);
    }
}

/// Builder of `FastHasher`s for hash maps and sets; every hasher it builds starts from its seed.
#[derive(Debug, Clone, Copy)]
pub struct FastBuildHasher {
    seed: u64,
}

impl View for FastBuildHasher {
    type V = u64;

    /// The seed every built hasher starts from.
    closed spec fn view(&self) -> u64 {
        self.seed
    }
}

impl FastBuildHasher {
    /// A builder with seed 0.
    pub fn new() -> (b: Self)
        ensures
            b@ == 0,
    {
        Self { seed: 0 }
    }

    /// A builder with the given seed.
    pub fn with_seed(seed: u64) -> (b: Self)
        ensures
            b@ == seed,
    {
        Self { seed }
    }

    /// A builder seeded with one word drawn from `rng`.
    pub fn from_rng<G: Rand + ?Sized>(rng: &mut G) -> (b: Self)
        ensures
            G::obeys_rand_spec() ==> final(rng).drawn() == old(rng).drawn().push(b@),
    {
        Self { seed: rng.next_u64() }
    }
}

impl Default for FastBuildHasher {
    fn default() -> (b: Self)
        ensures
            b@ == 0,
    {
        Self { seed: 0 }
    }
}

impl BuildHasher for FastBuildHasher {
    type Hasher = FastHasher;

    fn build_hasher(&self) -> (h: FastHasher)
        ensures
            h@ == self@,
    {
        FastHasher::new(self.seed)
    }
}

} // verus!
