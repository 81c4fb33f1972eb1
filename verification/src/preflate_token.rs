//! Tokens, blocks and symbol histograms of a DEFLATE stream.

use vstd::prelude::*;
use crate::preflate_constants::{NONLEN_CODE_COUNT, LITLEN_CODE_COUNT, DIST_CODE_COUNT};

verus! {

/// The three kinds of DEFLATE block, in the order of their two-bit codes.
#[derive(Clone, Copy, Debug, PartialEq, Eq, Structural)]
pub enum BlockType {
    Stored,
    StaticHuff,
    DynamicHuff,
}

impl BlockType {
    /// The two-bit code of the block type.
    pub open spec fn spec_code(self) -> u32 {
        match self {
            BlockType::Stored => 0,
            BlockType::StaticHuff => 1,
            BlockType::DynamicHuff => 2,
        }
    }

    /// The two-bit code of the block type.
    pub fn code(self) -> (r: u32)
        ensures
            r == self.spec_code(),
    {
        match self {
            BlockType::Stored => 0,
            BlockType::StaticHuff => 1,
            BlockType::DynamicHuff => 2,
        }
    }

    /// The block type with the given code, if there is one.
    pub open spec fn spec_from_code(code: u32) -> Option<BlockType> {
        if code == 0 {
            Some(BlockType::Stored)
        } else if code == 1 {
            Some(BlockType::StaticHuff)
        } else if code == 2 {
            Some(BlockType::DynamicHuff)
        } else {
            None
        }
    }

    /// The block type with the given code, if there is one.
    pub fn from_code(code: u32) -> (r: Option<BlockType>)
        ensures
            r == Self::spec_from_code(code),
    {
        if code == 0 {
            Some(BlockType::Stored)
        } else if code == 1 {
            Some(BlockType::StaticHuff)
        } else if code == 2 {
            Some(BlockType::DynamicHuff)
        } else {
            None
        }
    }
}

/// A back-reference: `len` bytes that repeat what stands `dist` bytes earlier.
#[derive(Clone, Copy, Debug, PartialEq, Eq, Structural)]
pub struct PreflateTokenReference {
    pub len: u32,
    pub dist: u32,
    pub irregular258: bool,
}

impl PreflateTokenReference {
    /// Length and distance are in the ranges that DEFLATE can express.
    pub open spec fn wf(&self) -> bool {
        3 <= self.len <= 258 && 1 <= self.dist <= 32768
    }

    pub fn new(len: u32, dist: u32, irregular258: bool) -> (r: Self)
        ensures
            r == (PreflateTokenReference { len, dist, irregular258 }),
    {
        PreflateTokenReference { len, dist, irregular258 }
    }

    pub fn len(&self) -> (r: u32)
        ensures
            r == self.len,
    {
        self.len
    }

    pub fn dist(&self) -> (r: u32)
        ensures
            r == self.dist,
    {
        self.dist
    }

    pub fn get_irregular258(&self) -> (r: bool)
        ensures
            r == self.irregular258,
    {
        self.irregular258
    }

    pub fn set_irregular258(&mut self, irregular258: bool)
        ensures
            *final(self) == (PreflateTokenReference { irregular258, ..*old(self) }),
    {
        self.irregular258 = irregular258;
    }
}

/// One LZ77 token. A literal stands for the next byte of the plaintext.
#[derive(Clone, Copy, Debug, PartialEq, Eq, Structural)]
pub enum PreflateToken {
    Literal,
    Reference(PreflateTokenReference),
}

impl PreflateToken {
    pub open spec fn wf(&self) -> bool {
        match *self {
            PreflateToken::Literal => true,
            PreflateToken::Reference(r) => r.wf(),
        }
    }

    /// Number of plaintext bytes that the token covers.
    pub open spec fn spec_len(&self) -> u32 {
        match *self {
            PreflateToken::Literal => 1,
            PreflateToken::Reference(r) => r.len,
        }
    }

    /// Distance of a reference, 0 for a literal.
    pub open spec fn spec_dist(&self) -> u32 {
        match *self {
            PreflateToken::Literal => 0,
            PreflateToken::Reference(r) => r.dist,
        }
    }

    pub fn len(&self) -> (r: u32)
        ensures
            r == self.spec_len(),
    {
        match self {
            PreflateToken::Literal => 1,
            PreflateToken::Reference(r) => r.len,
        }
    }

    pub fn dist(&self) -> (r: u32)
        ensures
            r == self.spec_dist(),
    {
        match self {
            PreflateToken::Literal => 0,
            PreflateToken::Reference(r) => r.dist,
        }
    }
}

/// First length of each of the 29 length codes.
pub const LENGTH_BASE_TABLE: [u32; 29] = [
    3, 4, 5, 6, 7, 8, 9, 10, 11, 13, 15, 17, 19, 23, 27, 31, 35, 43, 51, 59, 67, 83, 99, 115, 131,
    163, 195, 227, 258,
];

/// First distance of each of the 30 distance codes.
pub const DIST_BASE_TABLE: [u32; 30] = [
    1, 2, 3, 4, 5, 7, 9, 13, 17, 25, 33, 49, 65, 97, 129, 193, 257, 385, 513, 769, 1025, 1537,
    2049, 3073, 4097, 6145, 8193, 12289, 16385, 24577,
];

pub open spec fn length_base() -> Seq<u32> {
    seq![
        3, 4, 5, 6, 7, 8, 9, 10, 11, 13, 15, 17, 19, 23, 27, 31, 35, 43, 51, 59, 67, 83, 99, 115,
        131, 163, 195, 227, 258,
    ]
}

pub open spec fn dist_base() -> Seq<u32> {
    seq![
        1, 2, 3, 4, 5, 7, 9, 13, 17, 25, 33, 49, 65, 97, 129, 193, 257, 385, 513, 769, 1025, 1537,
        2049, 3073, 4097, 6145, 8193, 12289, 16385, 24577,
    ]
}

/// `code` is the last place of `base` whose entry does not exceed `value`.
pub open spec fn is_code_of(base: Seq<u32>, value: u32, code: int) -> bool {
    &&& 0 <= code < base.len()
    &&& base[code] <= value
    &&& code + 1 < base.len() ==> value < base[code + 1]
}

/// The place at or after `c` where a scan of `base` for `value` stops.
pub open spec fn code_from(base: Seq<u32>, value: u32, c: int) -> int
    decreases base.len() - c,
{
    if 0 <= c && c + 1 < base.len() && base[c + 1] <= value {
        code_from(base, value, c + 1)
    } else {
        c
    }
}

/// Index of the length code (counted from the first length code) for `len`.
pub open spec fn length_code(len: u32) -> int {
    code_from(length_base(), len, 0)
}

/// The distance code for `dist`.
pub open spec fn distance_code(dist: u32) -> int {
    code_from(dist_base(), dist, 0)
}

/// Index of the length code (counted from the first length code) for `len`.
pub fn quantize_length(len: u32) -> (r: usize)
    requires
        3 <= len <= 258,
    ensures
        r == length_code(len),
        is_code_of(length_base(), len, r as int),
{
    let mut c: usize = 0;
    while c + 1 < 29 && LENGTH_BASE_TABLE[c + 1] <= len
        invariant
            c < 29,
            length_base()[c as int] <= len,
            length_code(len) == code_from(length_base(), len, c as int),
            forall|i: int| 0 <= i < 29 ==> LENGTH_BASE_TABLE[i] == length_base()[i],
        decreases 29 - c,
    {
        c += 1;
    }
    c
}

/// The distance code for `dist`.
pub fn quantize_distance(dist: u32) -> (r: usize)
    requires
        1 <= dist <= 32768,
    ensures
        r == distance_code(dist),
        is_code_of(dist_base(), dist, r as int),
{
    let mut c: usize = 0;
    while c + 1 < 30 && DIST_BASE_TABLE[c + 1] <= dist
        invariant
            c < 30,
            dist_base()[c as int] <= dist,
            distance_code(dist) == code_from(dist_base(), dist, c as int),
            forall|i: int| 0 <= i < 30 ==> DIST_BASE_TABLE[i] == dist_base()[i],
        decreases 30 - c,
    {
        c += 1;
    }
    c
}

/// Histograms of the symbols of one block over the two alphabets.
#[derive(Clone, Debug, PartialEq, Eq)]
pub struct TokenFrequency {
    pub literal_codes: [u16; 286],
    pub distance_codes: [u16; 30],
}

impl Default for TokenFrequency {
    /// The histogram of an empty block: only the end-of-block symbol occurs.
    fn default() -> (r: Self)
        ensures
            r.literal_codes@ == Seq::new(286, |i: int| if i == 256 { 1u16 } else { 0u16 }),
            r.distance_codes@ == Seq::new(30, |i: int| 0u16),
    {
        let mut literal_codes = [0u16; 286];
        literal_codes[256] = 1;
        let r = TokenFrequency { literal_codes, distance_codes: [0u16; 30] };
        assert(r.literal_codes@ =~= Seq::new(286, |i: int| if i == 256 { 1u16 } else { 0u16 }));
        assert(r.distance_codes@ =~= Seq::new(30, |i: int| 0u16));
        r
    }
}

/// The two histograms as sequences.
pub struct FrequencyModel {
    pub literal_codes: Seq<u16>,
    pub distance_codes: Seq<u16>,
}

/// `hist` with one more occurrence of `symbol`; the counters wrap.
pub open spec fn count_symbol(hist: Seq<u16>, symbol: int) -> Seq<u16> {
    hist.update(symbol, hist[symbol].wrapping_add(1))
}

/// Place of the length symbol of a reference in the literal/length alphabet.
///
/// A length of 258 has a code of its own; an encoder that did not use it is
/// recorded with the flag of the reference and counted under the code before.
pub open spec fn length_symbol(len: u32, irregular258: bool) -> int {
    if len == 258 && irregular258 {
        284int
    } else {
        257 + length_code(len)
    }
}

impl FrequencyModel {
    /// The histograms have the sizes of the two alphabets.
    pub open spec fn wf(self) -> bool {
        self.literal_codes.len() == 286 && self.distance_codes.len() == 30
    }

    /// The histograms after one more literal `byte`.
    pub open spec fn with_literal(self, byte: u8) -> FrequencyModel {
        FrequencyModel {
            literal_codes: count_symbol(self.literal_codes, byte as int),
            distance_codes: self.distance_codes,
        }
    }

    /// The histograms after one more reference `r`.
    pub open spec fn with_reference(self, r: PreflateTokenReference) -> FrequencyModel {
        FrequencyModel {
            literal_codes: count_symbol(self.literal_codes, length_symbol(r.len, r.irregular258)),
            distance_codes: count_symbol(self.distance_codes, distance_code(r.dist)),
        }
    }
}

impl View for TokenFrequency {
    type V = FrequencyModel;

    open spec fn view(&self) -> FrequencyModel {
        FrequencyModel {
            literal_codes: self.literal_codes@,
            distance_codes: self.distance_codes@,
        }
    }
}

impl TokenFrequency {
    /// Counts one literal byte.
    pub fn count_literal(&mut self, byte: u8)
        ensures
            final(self)@ == old(self)@.with_literal(byte),
    {
        let i: usize = byte as usize;
        self.literal_codes[i] = self.literal_codes[i].wrapping_add(1);
    }

    /// Counts the length and the distance symbol of one reference.
    pub fn count_reference(&mut self, r: &PreflateTokenReference)
        requires
            r.wf(),
        ensures
            final(self)@ == old(self)@.with_reference(*r),
    {
        let l: usize = if r.len == 258 && r.irregular258 {
            NONLEN_CODE_COUNT + 27
        } else {
            NONLEN_CODE_COUNT + quantize_length(r.len)
        };
        let d: usize = quantize_distance(r.dist);
        self.literal_codes[l] = self.literal_codes[l].wrapping_add(1);
        self.distance_codes[d] = self.distance_codes[d].wrapping_add(1);
    }
}

/// One block of a DEFLATE stream as the token predictor sees it.
#[derive(Clone, Debug, PartialEq, Eq)]
pub struct PreflateTokenBlock {
    pub block_type: BlockType,
    /// Length of a stored block; unused for the other types.
    pub uncompressed_len: u32,
    /// The bits that pad the header of a stored block to a byte boundary.
    pub padding_bits: u8,
    pub tokens: Vec<PreflateToken>,
    pub freq: TokenFrequency,
}

/// A block as a mathematical value.
pub struct BlockModel {
    pub block_type: BlockType,
    pub uncompressed_len: u32,
    pub padding_bits: u8,
    pub tokens: Seq<PreflateToken>,
    pub freq: FrequencyModel,
}

impl BlockModel {
    /// An empty block of the given type.
    pub open spec fn empty(block_type: BlockType) -> BlockModel {
        BlockModel {
            block_type,
            uncompressed_len: 0,
            padding_bits: 0,
            tokens: Seq::empty(),
            freq: FrequencyModel {
                literal_codes: Seq::new(286, |i: int| if i == 256 { 1u16 } else { 0u16 }),
                distance_codes: Seq::new(30, |i: int| 0u16),
            },
        }
    }

    /// The block with a literal for `byte` added.
    pub open spec fn with_literal(self, byte: u8) -> BlockModel {
        BlockModel {
            tokens: self.tokens.push(PreflateToken::Literal),
            freq: self.freq.with_literal(byte),
            ..self
        }
    }

    /// The block with the reference `r` added.
    pub open spec fn with_reference(self, r: PreflateTokenReference) -> BlockModel {
        BlockModel {
            tokens: self.tokens.push(PreflateToken::Reference(r)),
            freq: self.freq.with_reference(r),
            ..self
        }
    }

    /// The block with `token` added, where `byte` is the byte a literal stands for.
    pub open spec fn with_token(self, token: PreflateToken, byte: u8) -> BlockModel {
        match token {
            PreflateToken::Literal => self.with_literal(byte),
            PreflateToken::Reference(r) => self.with_reference(r),
        }
    }

    /// Every reference of the block is in the ranges of the format.
    pub open spec fn wf(self) -> bool {
        &&& self.padding_bits < 8
        &&& self.uncompressed_len <= 65535
        &&& forall|i: int| 0 <= i < self.tokens.len() ==> (#[trigger] self.tokens[i]).wf()
    }
}

impl View for PreflateTokenBlock {
    type V = BlockModel;

    open spec fn view(&self) -> BlockModel {
        BlockModel {
            block_type: self.block_type,
            uncompressed_len: self.uncompressed_len,
            padding_bits: self.padding_bits,
            tokens: self.tokens@,
            freq: self.freq@,
        }
    }
}

impl PreflateTokenBlock {
    pub fn new(block_type: BlockType) -> (r: Self)
        ensures
            r@ == BlockModel::empty(block_type),
    {
        PreflateTokenBlock {
            block_type,
            uncompressed_len: 0,
            padding_bits: 0,
            tokens: Vec::new(),
            freq: TokenFrequency::default(),
        }
    }

    /// Says whether the block is well-formed.
    pub fn is_wf(&self) -> (r: bool)
        ensures
            r == self@.wf(),
    {
        if self.padding_bits >= 8 || self.uncompressed_len > 65535 {
            return false;
        }
        let mut i: usize = 0;
        while i < self.tokens.len()
            invariant
                i <= self.tokens@.len(),
                forall|j: int| 0 <= j < i ==> (#[trigger] self.tokens@[j]).wf(),
            decreases self.tokens@.len() - i,
        {
            let token: PreflateToken = self.tokens[i];
            let ok: bool = match token {
                PreflateToken::Literal => true,
                PreflateToken::Reference(r) => 3 <= r.len && r.len <= 258 && 1 <= r.dist && r.dist
                    <= 32768,
            };
            assert(ok == token.wf());
            if !ok {
                assert(!(#[trigger] self@.tokens[i as int]).wf());
                return false;
            }
            i += 1;
        }
        true
    }

    /// Adds a literal token and counts its byte.
    pub fn add_literal(&mut self, byte: u8)
        ensures
            final(self)@ == old(self)@.with_literal(byte),
    {
        self.tokens.push(PreflateToken::Literal);
        self.freq.count_literal(byte);
    }

    /// Adds a reference token and counts its two symbols.
    pub fn add_reference(&mut self, len: u32, dist: u32, irregular258: bool)
        requires
            3 <= len <= 258,
            1 <= dist <= 32768,
        ensures
            final(self)@ == old(self)@.with_reference(
                PreflateTokenReference { len, dist, irregular258 },
            ),
    {
        let r = PreflateTokenReference::new(len, dist, irregular258);
        self.tokens.push(PreflateToken::Reference(r));
        self.freq.count_reference(&r);
    }
}

} // verus!
