//! The header of a dynamic Huffman block as the original encoder wrote it.

use vstd::prelude::*;
use crate::preflate_constants::tree_code_order;

verus! {

/// The four ways in which the header encodes bit lengths.
#[derive(Clone, Copy, Debug, PartialEq, Eq, Structural)]
pub enum TreeCodeType {
    /// One bit length.
    Code,
    /// The bit length before, 3 to 6 times.
    Repeat,
    /// 3 to 10 times the bit length 0.
    ZeroShort,
    /// 11 to 138 times the bit length 0.
    ZeroLong,
}

impl TreeCodeType {
    pub open spec fn spec_code(self) -> u32 {
        match self {
            TreeCodeType::Code => 0,
            TreeCodeType::Repeat => 1,
            TreeCodeType::ZeroShort => 2,
            TreeCodeType::ZeroLong => 3,
        }
    }

    pub fn code(self) -> (r: u32)
        ensures
            r == self.spec_code(),
    {
        match self {
            TreeCodeType::Code => 0,
            TreeCodeType::Repeat => 1,
            TreeCodeType::ZeroShort => 2,
            TreeCodeType::ZeroLong => 3,
        }
    }

    pub open spec fn spec_from_code(code: u32) -> Option<TreeCodeType> {
        if code == 0 {
            Some(TreeCodeType::Code)
        } else if code == 1 {
            Some(TreeCodeType::Repeat)
        } else if code == 2 {
            Some(TreeCodeType::ZeroShort)
        } else if code == 3 {
            Some(TreeCodeType::ZeroLong)
        } else {
            None
        }
    }

    pub fn from_code(code: u32) -> (r: Option<TreeCodeType>)
        ensures
            r == Self::spec_from_code(code),
    {
        if code == 0 {
            Some(TreeCodeType::Code)
        } else if code == 1 {
            Some(TreeCodeType::Repeat)
        } else if code == 2 {
            Some(TreeCodeType::ZeroShort)
        } else if code == 3 {
            Some(TreeCodeType::ZeroLong)
        } else {
            None
        }
    }

    /// The data that can stand with this type: a bit length, or a number of repetitions.
    pub open spec fn accepts(self, data: int) -> bool {
        match self {
            TreeCodeType::Code => 0 <= data <= 15,
            TreeCodeType::Repeat => 3 <= data <= 6,
            TreeCodeType::ZeroShort => 3 <= data <= 10,
            TreeCodeType::ZeroLong => 11 <= data <= 138,
        }
    }

    /// Number of bit lengths that an entry of this type with `data` stands for.
    pub open spec fn advance(self, data: int) -> int {
        if self == TreeCodeType::Code {
            1
        } else {
            data
        }
    }

    /// The symbol of the code-length alphabet for an entry of this type with `data`.
    pub open spec fn symbol(self, data: u8) -> int {
        match self {
            TreeCodeType::Code => data as int,
            TreeCodeType::Repeat => 16,
            TreeCodeType::ZeroShort => 17,
            TreeCodeType::ZeroLong => 18,
        }
    }
}

/// Number of bit lengths that the first `n` entries of `lengths` stand for.
pub open spec fn rle_len(lengths: Seq<(TreeCodeType, u8)>, n: int) -> int
    decreases n,
{
    if n <= 0 {
        0
    } else {
        rle_len(lengths, n - 1) + lengths[n - 1].0.advance(lengths[n - 1].1 as int)
    }
}

/// Every entry has data that can stand with its type.
pub open spec fn rle_entries_wf(lengths: Seq<(TreeCodeType, u8)>) -> bool {
    forall|i: int| 0 <= i < lengths.len() ==> (#[trigger] lengths[i]).0.accepts(lengths[i].1 as int)
}

/// Each entry stands for at least one bit length.
pub proof fn lemma_rle_len_grows(lengths: Seq<(TreeCodeType, u8)>, k: int, n: int)
    requires
        rle_entries_wf(lengths),
        0 <= k <= n <= lengths.len(),
    ensures
        rle_len(lengths, k) + (n - k) <= rle_len(lengths, n),
        0 <= rle_len(lengths, k),
    decreases n,
{
    if n > 0 {
        if k < n {
            lemma_rle_len_grows(lengths, k, n - 1);
            assert(lengths[n - 1].0.accepts(lengths[n - 1].1 as int));
        } else {
            lemma_rle_len_grows(lengths, k - 1, n - 1);
            assert(lengths[n - 1].0.accepts(lengths[n - 1].1 as int));
        }
    }
}

/// The header of a dynamic Huffman block.
#[derive(Clone, Debug, PartialEq, Eq)]
pub struct HuffmanOriginalEncoding {
    /// The bit lengths of both alphabets in their run-length encoding.
    pub lengths: Vec<(TreeCodeType, u8)>,
    /// The bit lengths of the code-length alphabet, by symbol.
    pub code_lengths: [u8; 19],
    pub num_literals: usize,
    pub num_dist: usize,
    /// Number of bit lengths of the code-length alphabet that are transmitted.
    pub num_code_lengths: usize,
}

/// A header as a mathematical value.
pub struct HeaderModel {
    pub lengths: Seq<(TreeCodeType, u8)>,
    pub code_lengths: Seq<u8>,
    pub num_literals: usize,
    pub num_dist: usize,
    pub num_code_lengths: usize,
}

impl HeaderModel {
    /// The counts are in the ranges of the format, each entry of the
    /// run-length encoding has data that can stand with its type, and the
    /// bit lengths of the code-length alphabet that are not transmitted are 0.
    pub open spec fn ranges_wf(self) -> bool {
        &&& 257 <= self.num_literals <= 286
        &&& 1 <= self.num_dist <= 30
        &&& 4 <= self.num_code_lengths <= 19
        &&& self.code_lengths.len() == 19
        &&& forall|i: int| 0 <= i < 19 ==> #[trigger] self.code_lengths[i] <= 7
        &&& forall|i: int|
            self.num_code_lengths <= i < 19 ==> self.code_lengths[#[trigger] tree_code_order()[i] as int]
                == 0
        &&& rle_entries_wf(self.lengths)
    }

    /// The run-length encoding covers the bit lengths of both alphabets exactly.
    pub open spec fn covers(self) -> bool {
        rle_len(self.lengths, self.lengths.len() as int) == self.num_literals + self.num_dist
    }

    /// The fields are in their ranges and the run-length encoding covers
    /// the bit lengths of both alphabets exactly.
    pub open spec fn wf(self) -> bool {
        self.ranges_wf() && self.covers()
    }
}

/// Says whether the entries of `lengths` stand for exactly `total` bit lengths.
pub fn rle_covers(lengths: &[(TreeCodeType, u8)], total: usize) -> (r: bool)
    requires
        rle_entries_wf(lengths@),
    ensures
        r == (rle_len(lengths@, lengths@.len() as int) == total),
{
    let n: usize = lengths.len();
    let mut sum: usize = 0;
    let mut i: usize = 0;
    while i < n
        invariant
            i <= n,
            n == lengths@.len(),
            rle_entries_wf(lengths@),
            sum <= total,
            sum == rle_len(lengths@, i as int),
        decreases n - i,
    {
        assert(lengths@[i as int].0.accepts(lengths@[i as int].1 as int));
        let step: usize = if lengths[i].0 == TreeCodeType::Code {
            1
        } else {
            lengths[i].1 as usize
        };
        if step > total - sum {
            // The entries stand for more bit lengths than there are.
            proof {
                lemma_rle_len_grows(lengths@, i + 1, n as int);
            }
            return false;
        }
        sum += step;
        i += 1;
    }
    sum == total
}

impl View for HuffmanOriginalEncoding {
    type V = HeaderModel;

    open spec fn view(&self) -> HeaderModel {
        HeaderModel {
            lengths: self.lengths@,
            code_lengths: self.code_lengths@,
            num_literals: self.num_literals,
            num_dist: self.num_dist,
            num_code_lengths: self.num_code_lengths,
        }
    }
}

impl HuffmanOriginalEncoding {
    /// Says whether the fields of the header are in their ranges.
    pub fn is_ranges_wf(&self) -> (r: bool)
        ensures
            r == self@.ranges_wf(),
    {
        if self.num_literals < 257 || self.num_literals > 286 || self.num_dist < 1 || self.num_dist
            > 30 || self.num_code_lengths < 4 || self.num_code_lengths > 19 {
            return false;
        }
        let mut i: usize = 0;
        while i < 19
            invariant
                i <= 19,
                forall|j: int| 0 <= j < i ==> #[trigger] self.code_lengths@[j] <= 7,
            decreases 19 - i,
        {
            if self.code_lengths[i] > 7 {
                return false;
            }
            i += 1;
        }
        let mut i: usize = self.num_code_lengths;
        while i < 19
            invariant
                self.num_code_lengths <= i <= 19,
                forall|j: int|
                    self.num_code_lengths <= j < i ==> self.code_lengths@[#[trigger] tree_code_order()[j] as int]
                        == 0,
            decreases 19 - i,
        {
            if self.code_lengths[crate::preflate_constants::tree_code_at(i)] != 0 {
                return false;
            }
            i += 1;
        }
        let n: usize = self.lengths.len();
        let mut i: usize = 0;
        while i < n
            invariant
                i <= n,
                n == self.lengths@.len(),
                forall|j: int|
                    0 <= j < i ==> (#[trigger] self.lengths@[j]).0.accepts(self.lengths@[j].1 as int),
            decreases n - i,
        {
            let data: u8 = self.lengths[i].1;
            let accepted: bool = match self.lengths[i].0 {
                TreeCodeType::Code => data <= 15,
                TreeCodeType::Repeat => 3 <= data && data <= 6,
                TreeCodeType::ZeroShort => 3 <= data && data <= 10,
                TreeCodeType::ZeroLong => 11 <= data && data <= 138,
            };
            if !accepted {
                assert(!self.lengths@[i as int].0.accepts(self.lengths@[i as int].1 as int));
                return false;
            }
            i += 1;
        }
        true
    }

    /// Says whether the header is well-formed.
    pub fn is_wf(&self) -> (r: bool)
        ensures
            r == self@.wf(),
    {
        self.is_ranges_wf() && rle_covers(
            self.lengths.as_slice(),
            self.num_literals + self.num_dist,
        )
    }
}

impl Default for HuffmanOriginalEncoding {
    fn default() -> (r: Self)
        ensures
            r@.lengths == Seq::<(TreeCodeType, u8)>::empty(),
            r@.code_lengths == Seq::new(19, |i: int| 0u8),
            r@.num_literals == 0,
            r@.num_dist == 0,
            r@.num_code_lengths == 0,
    {
        let r = HuffmanOriginalEncoding {
            lengths: Vec::new(),
            code_lengths: [0u8; 19],
            num_literals: 0,
            num_dist: 0,
            num_code_lengths: 0,
        };
        assert(r@.code_lengths =~= Seq::new(19, |i: int| 0u8));
        r
    }
}

} // verus!
