//! A running checksum for comparing the state of two predictors.

use vstd::prelude::*;

verus! {

/// Number of places from `from` on, at most `max`, at which `data` holds the byte `b`
/// without a gap.
pub open spec fn byte_run(data: Seq<u8>, from: int, b: u8, max: int) -> int
    decreases max,
{
    if max <= 0 || from < 0 || from >= data.len() || data[from] != b {
        0
    } else {
        1 + byte_run(data, from + 1, b, max - 1)
    }
}

/// A run is not longer than its bound.
pub proof fn lemma_byte_run_bound(data: Seq<u8>, from: int, b: u8, max: int)
    ensures
        0 <= byte_run(data, from, b, max),
        max >= 0 ==> byte_run(data, from, b, max) <= max,
    decreases max,
{
    if max <= 0 || from < 0 || from >= data.len() || data[from] != b {
    } else {
        lemma_byte_run_bound(data, from + 1, b, max - 1);
    }
}

/// Each place of a run holds the byte of the run.
pub proof fn lemma_byte_run_elements(data: Seq<u8>, from: int, b: u8, max: int)
    ensures
        forall|i: int| 0 <= i < byte_run(data, from, b, max) ==> #[trigger] data[from + i] == b,
        byte_run(data, from, b, max) > 0 ==> 0 <= from && from + byte_run(data, from, b, max)
            <= data.len(),
    decreases max,
{
    if max <= 0 || from < 0 || from >= data.len() || data[from] != b {
    } else {
        lemma_byte_run_elements(data, from + 1, b, max - 1);
        assert forall|i: int| 0 <= i < byte_run(data, from, b, max) implies #[trigger] data[from
            + i] == b by {
            if i > 0 {
                assert(data[from + 1 + (i - 1)] == b);
            }
        }
    }
}

/// The checksum `hash` after `v` was added to it.
pub open spec fn checksum_step(hash: u64, v: u64) -> u64 {
    hash.wrapping_mul(13).wrapping_add(v)
}

/// The checksum `hash` after every entry of `values` was added to it in order.
pub open spec fn checksum_fold(hash: u64, values: Seq<u32>) -> u64
    decreases values.len(),
{
    if values.len() == 0 {
        hash
    } else {
        checksum_step(checksum_fold(hash, values.drop_last()), values.last() as u64)
    }
}

/// A checksum over a sequence of numbers that depends on their order.
#[derive(Clone, Copy, Debug, PartialEq, Eq, Structural)]
pub struct DebugHash {
    pub hash: u64,
}

impl DebugHash {
    pub fn new() -> (r: Self)
        ensures
            r.hash == 0,
    {
        DebugHash { hash: 0 }
    }

    /// Adds one number.
    pub fn update(&mut self, v: u64)
        ensures
            final(self).hash == checksum_step(old(self).hash, v),
    {
        self.hash = self.hash.wrapping_mul(13).wrapping_add(v);
    }

    /// Adds the numbers of `values` in order.
    pub fn update_slice(&mut self, values: &[u32])
        ensures
            final(self).hash == checksum_fold(old(self).hash, values@),
    {
        let mut i: usize = 0;
        let n: usize = values.len();
        while i < n
            invariant
                i <= n,
                n == values@.len(),
                self.hash == checksum_fold(old(self).hash, values@.take(i as int)),
            decreases n - i,
        {
            assert(values@.take(i + 1).drop_last() == values@.take(i as int));
            self.update(values[i] as u64);
            i += 1;
        }
        assert(values@.take(n as int) == values@);
    }

    pub fn hash(&self) -> (r: u64)
        ensures
            r == self.hash,
    {
        self.hash
    }
}

impl Default for DebugHash {
    fn default() -> (r: Self)
        ensures
            r.hash == 0,
    {
        DebugHash { hash: 0 }
    }
}

} // verus!
