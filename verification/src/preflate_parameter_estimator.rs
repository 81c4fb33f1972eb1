//! The options that steer prediction.

use vstd::prelude::*;

verus! {

/// What is known of the encoder that produced a stream.
#[derive(Clone, Copy, Debug, PartialEq, Eq, Structural)]
pub struct PreflateParameters {
    /// Binary logarithm of the window size.
    pub window_bits: u32,
    /// Number of bits by which the rolling hash is shifted for each byte.
    pub hash_shift: u32,
    /// Mask that cuts the rolling hash to the size of the hash table.
    pub hash_mask: u16,
    /// Number of tokens after which the encoder closed a block.
    pub max_token_count: u16,
    /// The match search follows zlib in every detail.
    pub zlib_compatible: bool,
    /// The encoder referred to the very first byte of the plaintext.
    pub matches_to_start_detected: bool,
    /// The encoder used the whole window for its matches.
    pub very_far_matches_detected: bool,
    /// The encoder makes a single pass without lazy matches.
    pub is_fast_compressor: bool,
    pub good_length: u32,
    pub nice_length: u32,
    pub max_lazy: u32,
    pub max_chain: u32,
    /// Matches of length 3 further away than this are written as literals.
    pub max_dist_3_matches: u16,
    /// Bound of the chain length where the search does not follow zlib.
    pub log2_of_max_chain_depth_m1: u32,
}

/// Shift of the rolling hash for a table of `hash_bits` bits: three shifts
/// move every bit of a byte out of the table's range.
pub open spec fn hash_shift_for(hash_bits: u32) -> u32 {
    ((hash_bits + 2) / 3) as u32
}

/// Mask of the rolling hash for a table of `hash_bits` bits.
pub open spec fn hash_mask_for(hash_bits: u32) -> u16 {
    if hash_bits == 9 {
        0x1ff
    } else if hash_bits == 10 {
        0x3ff
    } else if hash_bits == 11 {
        0x7ff
    } else if hash_bits == 12 {
        0xfff
    } else if hash_bits == 13 {
        0x1fff
    } else if hash_bits == 14 {
        0x3fff
    } else {
        0x7fff
    }
}

/// Shift and mask are those of a hash table of 9 to 15 bits.
pub open spec fn hash_config_wf(hash_shift: u32, hash_mask: u16) -> bool {
    exists|hash_bits: u32|
        9 <= hash_bits <= 15 && hash_shift == #[trigger] hash_shift_for(hash_bits) && hash_mask
            == hash_mask_for(hash_bits)
}

impl PreflateParameters {
    /// The options are in their ranges.
    pub open spec fn wf(&self) -> bool {
        &&& 8 <= self.window_bits <= 15
        &&& hash_config_wf(self.hash_shift, self.hash_mask)
        &&& self.log2_of_max_chain_depth_m1 <= 30
    }

    /// Size of the window in bytes.
    pub open spec fn spec_window_size(&self) -> u32 {
        1u32 << self.window_bits
    }

    /// Says whether the options are in their ranges.
    pub fn is_wf(&self) -> (r: bool)
        ensures
            r == self.wf(),
    {
        let bits: u32 = if self.hash_mask == 0x1ff {
            9
        } else if self.hash_mask == 0x3ff {
            10
        } else if self.hash_mask == 0x7ff {
            11
        } else if self.hash_mask == 0xfff {
            12
        } else if self.hash_mask == 0x1fff {
            13
        } else if self.hash_mask == 0x3fff {
            14
        } else if self.hash_mask == 0x7fff {
            15
        } else {
            assert forall|b: u32| 9 <= b <= 15 implies self.hash_mask != hash_mask_for(b) by {}
            return false;
        };
        assert(self.hash_mask == hash_mask_for(bits));
        assert forall|b: u32| 9 <= b <= 15 && self.hash_mask == hash_mask_for(b) implies b
            == bits by {}
        let shift_ok: bool = self.hash_shift == (bits + 2) / 3;
        if shift_ok {
            assert(self.hash_shift == hash_shift_for(bits));
        } else {
            assert forall|b: u32|
                9 <= b <= 15 && self.hash_mask == hash_mask_for(b) implies self.hash_shift
                != #[trigger] hash_shift_for(b) by {}
        }
        shift_ok && 8 <= self.window_bits && self.window_bits <= 15
            && self.log2_of_max_chain_depth_m1 <= 30
    }
}

} // verus!
