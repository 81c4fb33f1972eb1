//! The blocks of one stream, one after the other: each block is
//! described or rebuilt by the token predictor, and a dynamic block is
//! followed by its header, which is predicted from the symbols that the
//! block counted.

use vstd::prelude::*;
use crate::huffman_calc::HufftreeBitCalc;
use crate::huffman_encoding::{HeaderModel, HuffmanOriginalEncoding};
use crate::preflate_error::PreflateError;
use crate::preflate_token::{BlockModel, BlockType, PreflateTokenBlock};
use crate::statistical_codec::{CodecAction, PredictionDecoder, PredictionEncoder, extends};
use crate::token_predictor::{Encoded, TokenPredictor, TokenPredictorModel};
use crate::tree_predictor::{
    decode_header, predict_tree_for_block, recreate_tree_for_block, tree_events,
};

verus! {

/// A block with the header that it has where it is a dynamic one.
#[derive(Clone, Debug, PartialEq, Eq)]
pub struct BlockWithHeader {
    pub block: PreflateTokenBlock,
    pub header: Option<HuffmanOriginalEncoding>,
}

/// A block with its header as a mathematical value.
pub struct EntryModel {
    pub block: BlockModel,
    pub header: Option<HeaderModel>,
}

impl View for BlockWithHeader {
    type V = EntryModel;

    open spec fn view(&self) -> EntryModel {
        EntryModel {
            block: self.block@,
            header: match self.header {
                Some(header) => Some(header@),
                None => None,
            },
        }
    }
}

/// The blocks of a stream as mathematical values.
pub open spec fn entries_of(blocks: Seq<BlockWithHeader>) -> Seq<EntryModel> {
    Seq::new(blocks.len(), |i: int| blocks[i]@)
}

/// The events that describe one block and, for a dynamic block, its
/// header behind it. A dynamic block without a header, or with one whose
/// fields are out of range, is an error, and so is a header that does not
/// cover its two alphabets.
#[verifier::opaque]
pub open spec fn encode_entry(
    m: TokenPredictorModel,
    entry: EntryModel,
    last_block: bool,
    huffcalc: HufftreeBitCalc,
) -> Result<Encoded, PreflateError> {
    match m.encode_block(entry.block, last_block) {
        Err(e) => Err(e),
        Ok(enc) => if entry.block.block_type != BlockType::DynamicHuff {
            Ok(enc)
        } else {
            match entry.header {
                None => Err(PreflateError::InvalidHeader),
                Some(header) => if !header.ranges_wf() {
                    Err(PreflateError::InvalidHeader)
                } else if !header.covers() {
                    Err(PreflateError::RleLengthMismatch)
                } else {
                    Ok(
                        Encoded {
                            events: enc.events.add(
                                tree_events(header, entry.block.freq, huffcalc),
                            ),
                            state: enc.state,
                        },
                    )
                },
            }
        },
    }
}

/// The events that describe the first `n` blocks of `entries`, and the
/// state of the predictor after them. The last block of the stream is
/// described as the last.
pub open spec fn encode_stream(
    m: TokenPredictorModel,
    entries: Seq<EntryModel>,
    huffcalc: HufftreeBitCalc,
    n: int,
) -> Result<Encoded, PreflateError>
    decreases n,
{
    if n <= 0 {
        Ok(Encoded { events: Seq::empty(), state: m })
    } else {
        match encode_stream(m, entries, huffcalc, n - 1) {
            Err(e) => Err(e),
            Ok(before) => match encode_entry(
                before.state,
                entries[n - 1],
                n == entries.len(),
                huffcalc,
            ) {
                Err(e) => Err(e),
                Ok(enc) => Ok(
                    Encoded { events: before.events.add(enc.events), state: enc.state },
                ),
            },
        }
    }
}

/// Blocks that were rebuilt from events, the place of the first event
/// after them, and the state of the predictor after them.
pub struct DecodedStream {
    pub entries: Seq<EntryModel>,
    pub end: int,
    pub state: TokenPredictorModel,
}

/// A block that was rebuilt with its header, the place of the first
/// event after it, and the state of the predictor after it.
pub struct DecodedEntry {
    pub entry: EntryModel,
    pub end: int,
    pub state: TokenPredictorModel,
}

/// The block that the events from place `at` on describe and, behind a
/// dynamic block, the header that is predicted from the symbols that the
/// block counted.
#[verifier::opaque]
pub open spec fn decode_entry(
    m: TokenPredictorModel,
    huffcalc: HufftreeBitCalc,
    events: Seq<CodecAction>,
    at: int,
) -> Result<DecodedEntry, PreflateError> {
    match m.decode_block(events, at) {
        Err(e) => Err(e),
        Ok(b) => if b.block.block_type != BlockType::DynamicHuff {
            Ok(
                DecodedEntry {
                    entry: EntryModel { block: b.block, header: None },
                    end: b.end,
                    state: b.state,
                },
            )
        } else {
            match decode_header(b.block.freq, huffcalc, events, b.end) {
                Err(e) => Err(e),
                Ok(h) => Ok(
                    DecodedEntry {
                        entry: EntryModel { block: b.block, header: Some(h.header) },
                        end: h.end,
                        state: b.state,
                    },
                ),
            }
        },
    }
}

/// The first `n` blocks that the events from place `at` on describe,
/// one after the other.
pub open spec fn decode_stream(
    m: TokenPredictorModel,
    huffcalc: HufftreeBitCalc,
    events: Seq<CodecAction>,
    at: int,
    n: int,
) -> Result<DecodedStream, PreflateError>
    decreases n,
{
    if n <= 0 {
        Ok(DecodedStream { entries: Seq::empty(), end: at, state: m })
    } else {
        match decode_stream(m, huffcalc, events, at, n - 1) {
            Err(e) => Err(e),
            Ok(before) => match decode_entry(before.state, huffcalc, events, before.end) {
                Err(e) => Err(e),
                Ok(d) => Ok(
                    DecodedStream {
                        entries: before.entries.push(d.entry),
                        end: d.end,
                        state: d.state,
                    },
                ),
            },
        }
    }
}

/// A failure with the number of the block at which it came, counted from 0.
#[derive(Clone, Copy, Debug, PartialEq, Eq)]
pub struct BlockFailure {
    pub block: usize,
    pub error: PreflateError,
}

/// What a rebuilding of blocks that gave `r`, ended at the place `end`
/// and left the state `state` made of the events.
pub open spec fn stream_outcome(
    r: Result<Vec<BlockWithHeader>, BlockFailure>,
    end: int,
    state: TokenPredictorModel,
) -> Result<DecodedStream, PreflateError> {
    match r {
        Ok(blocks) => Ok(DecodedStream { entries: entries_of(blocks@), end, state }),
        Err(failure) => Err(failure.error),
    }
}

/// An error among the first `k` blocks is the error of every longer run.
pub proof fn lemma_encode_stream_err(
    m: TokenPredictorModel,
    entries: Seq<EntryModel>,
    huffcalc: HufftreeBitCalc,
    k: int,
    n: int,
)
    requires
        k <= n,
        encode_stream(m, entries, huffcalc, k) is Err,
    ensures
        encode_stream(m, entries, huffcalc, n) == encode_stream(m, entries, huffcalc, k),
    decreases n - k,
{
    if k < n {
        lemma_encode_stream_err(m, entries, huffcalc, k, n - 1);
    }
}

/// An error among the first `k` blocks is the error of every longer run.
pub proof fn lemma_decode_stream_err(
    m: TokenPredictorModel,
    huffcalc: HufftreeBitCalc,
    events: Seq<CodecAction>,
    at: int,
    k: int,
    n: int,
)
    requires
        k <= n,
        decode_stream(m, huffcalc, events, at, k) is Err,
    ensures
        decode_stream(m, huffcalc, events, at, n) == decode_stream(m, huffcalc, events, at, k),
    decreases n - k,
{
    if k < n {
        lemma_decode_stream_err(m, huffcalc, events, at, k, n - 1);
    }
}

/// What a rebuilding of one block that gave `r`, ended at the place
/// `end` and left the state `state` made of the events.
pub open spec fn entry_outcome(
    r: Result<BlockWithHeader, PreflateError>,
    end: int,
    state: TokenPredictorModel,
) -> Result<DecodedEntry, PreflateError> {
    match r {
        Ok(entry) => Ok(DecodedEntry { entry: entry@, end, state }),
        Err(e) => Err(e),
    }
}

/// Describes one block to `codec` and, for a dynamic block, its header
/// behind it.
pub fn predict_entry<'a, D: PredictionEncoder>(
    predictor: &mut TokenPredictor<'a>,
    entry: &BlockWithHeader,
    last_block: bool,
    huffcalc: HufftreeBitCalc,
    codec: &mut D,
) -> (r: Result<(), PreflateError>)
    requires
        old(predictor).wf(),
        entry.block@.wf(),
    ensures
        match r {
            Ok(()) => {
                &&& encode_entry(old(predictor)@, entry@, last_block, huffcalc) matches Ok(enc)
                    && final(codec).events() == old(codec).events().add(enc.events) && final(
                    predictor
                )@ == enc.state
                &&& final(predictor).wf()
            },
            Err(e) => encode_entry(old(predictor)@, entry@, last_block, huffcalc) == Err::<
                Encoded,
                PreflateError,
            >(e),
        },
{
    reveal(encode_entry);
    let ghost enc = old(predictor)@.encode_block(entry.block@, last_block);
    match predictor.predict_block(&entry.block, codec, last_block) {
        Ok(()) => {},
        Err(e) => {
            return Err(e);
        },
    }
    if entry.block.block_type != BlockType::DynamicHuff {
        return Ok(());
    }
    match &entry.header {
        None => Err(PreflateError::InvalidHeader),
        Some(header) => {
            if !header.is_ranges_wf() {
                return Err(PreflateError::InvalidHeader);
            }
            match predict_tree_for_block(header, &entry.block.freq, codec, huffcalc) {
                Ok(()) => {
                    assert(codec.events() =~= old(codec).events().add(
                        enc.unwrap().events.add(tree_events(header@, entry.block.freq@, huffcalc)),
                    ));
                    Ok(())
                },
                Err(e) => Err(e),
            }
        },
    }
}

/// Rebuilds one block from the events of `codec` and, for a dynamic
/// block, its header behind it.
pub fn recreate_entry<'a, D: PredictionDecoder>(
    predictor: &mut TokenPredictor<'a>,
    huffcalc: HufftreeBitCalc,
    codec: &mut D,
) -> (r: Result<BlockWithHeader, PreflateError>)
    requires
        old(predictor).wf(),
    ensures
        extends(final(codec).consumed(), old(codec).consumed()),
        final(codec).consumed().len() > old(codec).consumed().len(),
        final(codec).script() == old(codec).script(),
        old(codec).inv() ==> final(codec).inv(),
        forall|longer: Seq<CodecAction>|
            extends(longer, final(codec).consumed()) ==> (#[trigger] decode_entry(
                old(predictor)@,
                huffcalc,
                longer,
                old(codec).consumed().len() as int,
            )) == entry_outcome(r, final(codec).consumed().len() as int, final(predictor)@),
        r is Ok ==> final(predictor).wf(),
        !(r matches Err(PreflateError::EventsOutOfStep)),
{
    reveal(decode_entry);
    let ghost model = predictor@;
    let ghost at = old(codec).consumed().len() as int;
    let block: PreflateTokenBlock = match predictor.recreate_block(codec) {
        Ok(block) => block,
        Err(e) => {
            return Err(e);
        },
    };
    let ghost middle = codec.consumed();
    if block.block_type != BlockType::DynamicHuff {
        return Ok(BlockWithHeader { block, header: None });
    }
    match recreate_tree_for_block(&block.freq, codec, huffcalc) {
        Ok(header) => {
            proof {
                assert forall|longer: Seq<CodecAction>|
                    extends(longer, codec.consumed()) implies (#[trigger] decode_entry(
                    model,
                    huffcalc,
                    longer,
                    at,
                )) == Ok::<DecodedEntry, PreflateError>(
                    DecodedEntry {
                        entry: EntryModel { block: block@, header: Some(header@) },
                        end: codec.consumed().len() as int,
                        state: predictor@,
                    },
                ) by {
                    assert(extends(longer, middle));
                    assert(model.decode_block(longer, at) is Ok);
                    assert(decode_header(block.freq@, huffcalc, longer, middle.len() as int)
                        is Ok);
                }
            }
            Ok(BlockWithHeader { block, header: Some(header) })
        },
        Err(e) => {
            proof {
                assert forall|longer: Seq<CodecAction>|
                    extends(longer, codec.consumed()) implies (#[trigger] decode_entry(
                    model,
                    huffcalc,
                    longer,
                    at,
                )) == Err::<DecodedEntry, PreflateError>(e) by {
                    assert(extends(longer, middle));
                    assert(model.decode_block(longer, at) is Ok);
                    assert(decode_header(block.freq@, huffcalc, longer, middle.len() as int)
                        is Err);
                }
            }
            Err(e)
        },
    }
}

/// Describes the blocks of a stream to `codec`, one after the other,
/// from where `predictor` stands, the last of them as the last block of
/// the stream. A failure names the first block that cannot be described.
pub fn predict_stream<'a, D: PredictionEncoder>(
    predictor: &mut TokenPredictor<'a>,
    huffcalc: HufftreeBitCalc,
    blocks: &[BlockWithHeader],
    codec: &mut D,
) -> (r: Result<(), BlockFailure>)
    requires
        old(predictor).wf(),
        forall|i: int| 0 <= i < blocks@.len() ==> (#[trigger] blocks@[i]).block@.wf(),
    ensures
        match r {
            Ok(()) => {
                &&& encode_stream(
                    old(predictor)@,
                    entries_of(blocks@),
                    huffcalc,
                    blocks@.len() as int,
                ) matches Ok(enc) && final(codec).events() == old(codec).events().add(enc.events)
                    && final(predictor)@ == enc.state
                &&& final(predictor).wf()
            },
            Err(failure) => {
                &&& failure.block < blocks@.len()
                &&& encode_stream(
                    old(predictor)@,
                    entries_of(blocks@),
                    huffcalc,
                    failure.block as int,
                ) is Ok
                &&& encode_stream(
                    old(predictor)@,
                    entries_of(blocks@),
                    huffcalc,
                    failure.block + 1,
                ) == Err::<Encoded, PreflateError>(failure.error)
                &&& encode_stream(
                    old(predictor)@,
                    entries_of(blocks@),
                    huffcalc,
                    blocks@.len() as int,
                ) == Err::<Encoded, PreflateError>(failure.error)
            },
        },
{
    let ghost start = predictor@;
    let ghost entries = entries_of(blocks@);
    let n: usize = blocks.len();
    let mut i: usize = 0;
    assert(old(codec).events().add(Seq::empty()) =~= old(codec).events());
    while i < n
        invariant
            i <= n,
            n == blocks@.len(),
            entries == entries_of(blocks@),
            predictor.wf(),
            start == old(predictor)@,
            forall|j: int| 0 <= j < blocks@.len() ==> (#[trigger] blocks@[j]).block@.wf(),
            encode_stream(start, entries, huffcalc, i as int) matches Ok(enc) && codec.events()
                == old(codec).events().add(enc.events) && predictor@ == enc.state,
        decreases n - i,
    {
        let ghost before = encode_stream(start, entries, huffcalc, i as int).unwrap();
        assert(entries[i as int] == blocks@[i as int]@);
        match predict_entry(predictor, &blocks[i], i + 1 == n, huffcalc, codec) {
            Ok(()) => {},
            Err(e) => {
                proof {
                    assert(entries[i + 1 - 1] == entries[i as int]);
                    assert(encode_stream(start, entries, huffcalc, i + 1) == Err::<
                        Encoded,
                        PreflateError,
                    >(e));
                    lemma_encode_stream_err(start, entries, huffcalc, i + 1, n as int);
                }
                return Err(BlockFailure { block: i, error: e });
            },
        }
        proof {
            let enc = encode_entry(before.state, entries[i as int], i + 1 == n, huffcalc).unwrap();
            assert(codec.events() =~= old(codec).events().add(before.events.add(enc.events)));
        }
        i += 1;
    }
    Ok(())
}

/// Rebuilds `block_count` blocks of a stream from the events of `codec`,
/// one after the other, from where `predictor` stands. What is rebuilt
/// is what the events taken describe, in whatever sequence of events
/// they stand first. A failure names the first block that cannot be
/// rebuilt.
pub fn recreate_stream<'a, D: PredictionDecoder>(
    predictor: &mut TokenPredictor<'a>,
    huffcalc: HufftreeBitCalc,
    block_count: usize,
    codec: &mut D,
) -> (r: Result<Vec<BlockWithHeader>, BlockFailure>)
    requires
        old(predictor).wf(),
    ensures
        extends(final(codec).consumed(), old(codec).consumed()),
        final(codec).script() == old(codec).script(),
        old(codec).inv() ==> final(codec).inv(),
        forall|longer: Seq<CodecAction>|
            extends(longer, final(codec).consumed()) ==> (#[trigger] decode_stream(
                old(predictor)@,
                huffcalc,
                longer,
                old(codec).consumed().len() as int,
                block_count as int,
            )) == stream_outcome(r, final(codec).consumed().len() as int, final(predictor)@),
        match r {
            Ok(blocks) => blocks@.len() == block_count && final(predictor).wf(),
            Err(failure) => {
                &&& failure.block < block_count
                &&& failure.error != PreflateError::EventsOutOfStep
                &&& forall|longer: Seq<CodecAction>|
                    extends(longer, final(codec).consumed()) ==> (#[trigger] decode_stream(
                        old(predictor)@,
                        huffcalc,
                        longer,
                        old(codec).consumed().len() as int,
                        failure.block as int,
                    )) is Ok
                &&& forall|longer: Seq<CodecAction>|
                    extends(longer, final(codec).consumed()) ==> (#[trigger] decode_stream(
                        old(predictor)@,
                        huffcalc,
                        longer,
                        old(codec).consumed().len() as int,
                        failure.block + 1,
                    )) == Err::<DecodedStream, PreflateError>(failure.error)
            },
        },
{
    let ghost start = predictor@;
    let ghost at = old(codec).consumed().len() as int;
    let mut blocks: Vec<BlockWithHeader> = Vec::new();
    let mut i: usize = 0;
    assert(entries_of(blocks@) =~= Seq::<EntryModel>::empty());
    while i < block_count
        invariant
            i <= block_count,
            blocks@.len() == i,
            predictor.wf(),
            start == old(predictor)@,
            at == old(codec).consumed().len(),
            extends(codec.consumed(), old(codec).consumed()),
            codec.script() == old(codec).script(),
            old(codec).inv() ==> codec.inv(),
            forall|longer: Seq<CodecAction>|
                extends(longer, codec.consumed()) ==> (#[trigger] decode_stream(
                    start,
                    huffcalc,
                    longer,
                    at,
                    i as int,
                )) == Ok::<DecodedStream, PreflateError>(
                    DecodedStream {
                        entries: entries_of(blocks@),
                        end: codec.consumed().len() as int,
                        state: predictor@,
                    },
                ),
        decreases block_count - i,
    {
        let ghost before = codec.consumed();
        let ghost model = predictor@;
        let ghost rebuilt = entries_of(blocks@);
        let entry: BlockWithHeader = match recreate_entry(predictor, huffcalc, codec) {
            Ok(entry) => entry,
            Err(e) => {
                proof {
                    let log = codec.consumed();
                    assert forall|longer: Seq<CodecAction>| extends(longer, log) implies (
                    #[trigger] decode_stream(start, huffcalc, longer, at, i as int)) is Ok by {
                        assert(extends(longer, before));
                    }
                    assert forall|longer: Seq<CodecAction>| extends(longer, log) implies (
                    #[trigger] decode_stream(start, huffcalc, longer, at, i + 1)) == Err::<
                        DecodedStream,
                        PreflateError,
                    >(e) by {
                        assert(extends(longer, before));
                        assert(decode_stream(start, huffcalc, longer, at, i as int) is Ok);
                        assert(decode_entry(model, huffcalc, longer, before.len() as int) is Err);
                    }
                    assert forall|longer: Seq<CodecAction>| extends(longer, log) implies (
                    #[trigger] decode_stream(start, huffcalc, longer, at, block_count as int))
                        == Err::<DecodedStream, PreflateError>(e) by {
                        assert(decode_stream(start, huffcalc, longer, at, i + 1) is Err);
                        lemma_decode_stream_err(
                            start,
                            huffcalc,
                            longer,
                            at,
                            i + 1,
                            block_count as int,
                        );
                    }
                }
                return Err(BlockFailure { block: i, error: e });
            },
        };
        let ghost added = entry@;
        blocks.push(entry);
        proof {
            let log = codec.consumed();
            assert(entries_of(blocks@) =~= rebuilt.push(added));
            assert forall|longer: Seq<CodecAction>| extends(longer, log) implies (
            #[trigger] decode_stream(start, huffcalc, longer, at, i + 1)) == Ok::<
                DecodedStream,
                PreflateError,
            >(
                DecodedStream {
                    entries: entries_of(blocks@),
                    end: log.len() as int,
                    state: predictor@,
                },
            ) by {
                assert(extends(longer, before));
                assert(decode_stream(start, huffcalc, longer, at, i as int) is Ok);
                assert(decode_entry(model, huffcalc, longer, before.len() as int) is Ok);
            }
        }
        i += 1;
    }
    Ok(blocks)
}

} // verus!
