//! The parser settings of the nine zlib compression levels.

use vstd::prelude::*;

verus! {

/// The knobs of one zlib compression level.
#[derive(Clone, Copy, Debug, PartialEq, Eq, Structural)]
pub struct PreflateParserConfig {
    /// A match at least this long shortens the lazy search.
    pub good_length: u32,
    /// No lazy search is made for a match longer than this. For the fast
    /// levels: matches longer than this are not entered into the dictionary.
    pub max_lazy: u32,
    /// A match at least this long ends the search.
    pub nice_length: u32,
    /// Longest hash chain that is followed.
    pub max_chain: u32,
}

/// Settings of the fast levels 1 to 3, as a sequence.
pub open spec fn fast_parser_settings() -> Seq<PreflateParserConfig> {
    seq![
        PreflateParserConfig { good_length: 4, max_lazy: 4, nice_length: 8, max_chain: 4 },
        PreflateParserConfig { good_length: 4, max_lazy: 5, nice_length: 16, max_chain: 8 },
        PreflateParserConfig { good_length: 4, max_lazy: 6, nice_length: 32, max_chain: 32 },
    ]
}

/// Settings of the slow levels 4 to 9, as a sequence.
pub open spec fn slow_parser_settings() -> Seq<PreflateParserConfig> {
    seq![
        PreflateParserConfig { good_length: 4, max_lazy: 4, nice_length: 16, max_chain: 16 },
        PreflateParserConfig { good_length: 8, max_lazy: 16, nice_length: 32, max_chain: 32 },
        PreflateParserConfig { good_length: 8, max_lazy: 16, nice_length: 128, max_chain: 128 },
        PreflateParserConfig { good_length: 8, max_lazy: 32, nice_length: 128, max_chain: 256 },
        PreflateParserConfig { good_length: 32, max_lazy: 128, nice_length: 258, max_chain: 1024 },
        PreflateParserConfig { good_length: 32, max_lazy: 258, nice_length: 258, max_chain: 4096 },
    ]
}

/// Settings of the fast level `1 + i`.
pub fn fast_preflate_parser_settings(i: usize) -> (r: PreflateParserConfig)
    requires
        i < 3,
    ensures
        r == fast_parser_settings()[i as int],
{
    if i == 0 {
        PreflateParserConfig { good_length: 4, max_lazy: 4, nice_length: 8, max_chain: 4 }
    } else if i == 1 {
        PreflateParserConfig { good_length: 4, max_lazy: 5, nice_length: 16, max_chain: 8 }
    } else {
        PreflateParserConfig { good_length: 4, max_lazy: 6, nice_length: 32, max_chain: 32 }
    }
}

/// Settings of the slow level `4 + i`.
pub fn slow_preflate_parser_settings(i: usize) -> (r: PreflateParserConfig)
    requires
        i < 6,
    ensures
        r == slow_parser_settings()[i as int],
{
    if i == 0 {
        PreflateParserConfig { good_length: 4, max_lazy: 4, nice_length: 16, max_chain: 16 }
    } else if i == 1 {
        PreflateParserConfig { good_length: 8, max_lazy: 16, nice_length: 32, max_chain: 32 }
    } else if i == 2 {
        PreflateParserConfig { good_length: 8, max_lazy: 16, nice_length: 128, max_chain: 128 }
    } else if i == 3 {
        PreflateParserConfig { good_length: 8, max_lazy: 32, nice_length: 128, max_chain: 256 }
    } else if i == 4 {
        PreflateParserConfig { good_length: 32, max_lazy: 128, nice_length: 258, max_chain: 1024 }
    } else {
        PreflateParserConfig { good_length: 32, max_lazy: 258, nice_length: 258, max_chain: 4096 }
    }
}

} // verus!
