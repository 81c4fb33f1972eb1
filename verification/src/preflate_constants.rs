//! Constants of the DEFLATE format and of the zlib family of encoders.

use vstd::prelude::*;

verus! {

/// Shortest match a reference can describe.
pub const MIN_MATCH: u32 = 3;

/// Longest match a reference can describe.
pub const MAX_MATCH: u32 = 258;

/// Bytes an encoder keeps between the search position and the window's far edge.
pub const MIN_LOOKAHEAD: u32 = 262;

/// Number of literal bytes.
pub const LITERAL_COUNT: usize = 256;

/// Number of literal/length codes that are not length codes (literals and end of block).
pub const NONLEN_CODE_COUNT: usize = 257;

/// Size of the literal/length alphabet.
pub const LITLEN_CODE_COUNT: usize = 286;

/// Size of the distance alphabet.
pub const DIST_CODE_COUNT: usize = 30;

/// Size of the alphabet that encodes the bit lengths of the other two.
pub const CODETREE_CODE_COUNT: usize = 19;

/// Order in which the bit lengths of the code-length alphabet are transmitted.
pub const TREE_CODE_ORDER_TABLE: [usize; 19] = [
    16, 17, 18, 0, 8, 7, 9, 6, 10, 5, 11, 4, 12, 3, 13, 2, 14, 1, 15,
];

/// The transmission order as a sequence.
pub open spec fn tree_code_order() -> Seq<usize> {
    seq![16, 17, 18, 0, 8, 7, 9, 6, 10, 5, 11, 4, 12, 3, 13, 2, 14, 1, 15]
}

/// The place of each symbol in the transmission order.
pub open spec fn tree_code_place() -> Seq<usize> {
    seq![3, 17, 15, 13, 11, 9, 7, 5, 4, 6, 8, 10, 12, 14, 16, 18, 0, 1, 2]
}

/// The transmission order holds each symbol once.
pub proof fn lemma_tree_code_order_distinct()
    ensures
        forall|i: int| 0 <= i < 19 ==> 0 <= #[trigger] tree_code_order()[i] < 19,
        forall|i: int|
            0 <= i < 19 ==> tree_code_place()[#[trigger] tree_code_order()[i] as int] == i,
        forall|i: int, j: int|
            0 <= i < 19 && 0 <= j < 19 && i != j ==> #[trigger] tree_code_order()[i]
                != #[trigger] tree_code_order()[j],
{
    let order = tree_code_order();
    let place = tree_code_place();
    assert(place[order[0] as int] == 0);
    assert(place[order[1] as int] == 1);
    assert(place[order[2] as int] == 2);
    assert(place[order[3] as int] == 3);
    assert(place[order[4] as int] == 4);
    assert(place[order[5] as int] == 5);
    assert(place[order[6] as int] == 6);
    assert(place[order[7] as int] == 7);
    assert(place[order[8] as int] == 8);
    assert(place[order[9] as int] == 9);
    assert(place[order[10] as int] == 10);
    assert(place[order[11] as int] == 11);
    assert(place[order[12] as int] == 12);
    assert(place[order[13] as int] == 13);
    assert(place[order[14] as int] == 14);
    assert(place[order[15] as int] == 15);
    assert(place[order[16] as int] == 16);
    assert(place[order[17] as int] == 17);
    assert(place[order[18] as int] == 18);
    assert forall|i: int| 0 <= i < 19 implies tree_code_place()[#[trigger] tree_code_order()[i] as int]
        == i && 0 <= tree_code_order()[i] < 19 by {
        if i == 0 {
        } else if i == 1 {
        } else if i == 2 {
        } else if i == 3 {
        } else if i == 4 {
        } else if i == 5 {
        } else if i == 6 {
        } else if i == 7 {
        } else if i == 8 {
        } else if i == 9 {
        } else if i == 10 {
        } else if i == 11 {
        } else if i == 12 {
        } else if i == 13 {
        } else if i == 14 {
        } else if i == 15 {
        } else if i == 16 {
        } else if i == 17 {
        } else {
        }
    }
    assert forall|i: int, j: int| 0 <= i < 19 && 0 <= j < 19 && i != j implies #[trigger] order[i]
        != #[trigger] order[j] by {
        assert(place[order[i] as int] == i);
        assert(place[order[j] as int] == j);
    }
}

/// Symbol transmitted at place `i` of the code-length header.
pub fn tree_code_at(i: usize) -> (r: usize)
    requires
        i < 19,
    ensures
        r == tree_code_order()[i as int],
        r < 19,
{
    TREE_CODE_ORDER_TABLE[i]
}

} // verus!
