//! The process-wide random source.

use vstd::prelude::*;
use crate::traits::{Rand, pick_u8, pick_usize};

verus! {

/// Calls `rand::random::<u64>()`: a word from the thread-local generator. Nothing is
/// stated of its value; `rand` documents that obtaining the generator panics only
/// when the operating system cannot supply a seed.
#[verifier::external_body]
fn random_u64() -> u64 {
    rand::random::<u64>()
}

/// The random source backed by the thread-local generator of `rand`; it keeps, in
/// ghost state only, the words it has handed out.
#[derive(Clone, Copy)]
pub struct RandImpl {
    drawn: Ghost<Seq<u64>>,
}

impl RandImpl {
    /// A source that has handed out nothing yet.
    pub fn new() -> (r: Self)
        ensures
            r.drawn() == Seq::<u64>::empty(),
    {
        RandImpl { drawn: Ghost(Seq::empty()) }
    }
}

impl Rand for RandImpl {
    open spec fn obeys_rand_spec() -> bool {
        true
    }

    closed spec fn drawn(&self) -> Seq<u64> {
        self.drawn@
    }

    fn next_u64(&mut self) -> (w: u64) {
        let w = random_u64();
        self.drawn = Ghost(self.drawn@.push(w));
        w
    }

    fn random_range_usize(&mut self, min: usize, max: usize) -> (r: usize) {
        if min >= max {
            return min;
        }
        let w = random_u64();
        self.drawn = Ghost(self.drawn@.push(w));
        pick_usize(min, max, w)
    }

    fn random_range_u8(&mut self, min: u8, max: u8) -> (r: u8) {
        if min >= max {
            return min;
        }
        let w = random_u64();
        self.drawn = Ghost(self.drawn@.push(w));
        pick_u8(min, max, w)
    }
}

} // verus!
