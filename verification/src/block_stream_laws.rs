//! What holds of the description of the blocks of a stream and of their
//! rebuilding together: blocks that are described are rebuilt as they
//! were, headers included, from exactly the events of their description,
//! and the rebuilding stays in step with a decoder that replays the
//! description.

use vstd::prelude::*;
use crate::block_stream::{
    DecodedEntry, DecodedStream, EntryModel, decode_entry, decode_stream, encode_entry,
    encode_stream,
};
use crate::huffman_calc::HufftreeBitCalc;
use crate::preflate_error::PreflateError;
use crate::preflate_token::BlockType;
use crate::replay_laws::{lemma_decode_block_left, lemma_decode_header_left};
use crate::statistical_codec::{
    CodecAction, extends, holds_at, left_at, lemma_holds_at_split, lemma_left_at_behind, replays,
};
use crate::token_predictor::TokenPredictorModel;
use crate::token_predictor_laws::{
    block_supported, lemma_block_roundtrip, lemma_decode_block_wf, rebuilt_form,
};
use crate::tree_predictor::tree_events;
use crate::tree_predictor_laws::{lemma_decode_header_end, lemma_header_roundtrip};

verus! {

/// What a block with its header has to be for its description to lead
/// back to it: the block is one whose description leads back to it, and
/// a dynamic block holds the counts of its own symbols, from which its
/// header is predicted.
pub open spec fn entry_supported(m: TokenPredictorModel, entry: EntryModel, last_block: bool) -> bool {
    &&& block_supported(m, entry.block, last_block)
    &&& entry.block.block_type == BlockType::DynamicHuff ==> entry.block.freq == rebuilt_form(
        m,
        entry.block,
    ).freq
}

/// The block with its header that the rebuilding makes of the
/// description of `entry`: the header of a dynamic block is kept, and
/// another block has none.
pub open spec fn rebuilt_entry(m: TokenPredictorModel, entry: EntryModel) -> EntryModel {
    EntryModel {
        block: rebuilt_form(m, entry.block),
        header: if entry.block.block_type == BlockType::DynamicHuff {
            entry.header
        } else {
            None
        },
    }
}

/// A block with its header that is described is rebuilt as it was, and
/// the rebuilding takes exactly the events of the description and
/// leaves the state that the description left.
pub proof fn lemma_entry_roundtrip(
    m: TokenPredictorModel,
    entry: EntryModel,
    last_block: bool,
    huffcalc: HufftreeBitCalc,
    events: Seq<CodecAction>,
    at: int,
)
    requires
        m.wf(),
        entry_supported(m, entry, last_block),
        encode_entry(m, entry, last_block, huffcalc) is Ok,
        holds_at(events, at, encode_entry(m, entry, last_block, huffcalc).unwrap().events),
    ensures
        decode_entry(m, huffcalc, events, at) == Ok::<DecodedEntry, PreflateError>(
            DecodedEntry {
                entry: rebuilt_entry(m, entry),
                end: at + encode_entry(m, entry, last_block, huffcalc).unwrap().events.len(),
                state: encode_entry(m, entry, last_block, huffcalc).unwrap().state,
            },
        ),
        encode_entry(m, entry, last_block, huffcalc).unwrap().state.wf(),
{
    reveal(encode_entry);
    reveal(decode_entry);
    let enc = m.encode_block(entry.block, last_block).unwrap();
    if entry.block.block_type == BlockType::DynamicHuff {
        let header = entry.header.unwrap();
        let tree = tree_events(header, entry.block.freq, huffcalc);
        lemma_holds_at_split(events, at, enc.events, tree);
        lemma_block_roundtrip(m, entry.block, last_block, events, at);
        lemma_header_roundtrip(header, entry.block.freq, huffcalc, events, at + enc.events.len());
    } else {
        lemma_block_roundtrip(m, entry.block, last_block, events, at);
    }
    lemma_decode_block_wf(m, events, at);
}

/// Each of the first `n` blocks is one whose description leads back to
/// it, in the state in which it is described.
pub open spec fn stream_supported(
    m: TokenPredictorModel,
    entries: Seq<EntryModel>,
    huffcalc: HufftreeBitCalc,
    n: int,
) -> bool {
    forall|k: int|
        0 <= k < n ==> ((#[trigger] encode_stream(m, entries, huffcalc, k)) matches Ok(before)
            ==> entry_supported(before.state, entries[k], k + 1 == entries.len()))
}

/// The blocks of a stream that are described are rebuilt as they were,
/// headers included, and the rebuilding takes exactly the events of the
/// description and leaves the state that the description left.
pub proof fn lemma_stream_roundtrip(
    m: TokenPredictorModel,
    entries: Seq<EntryModel>,
    huffcalc: HufftreeBitCalc,
    n: int,
    events: Seq<CodecAction>,
    at: int,
)
    requires
        m.wf(),
        0 <= n <= entries.len(),
        stream_supported(m, entries, huffcalc, n),
        encode_stream(m, entries, huffcalc, n) is Ok,
        holds_at(events, at, encode_stream(m, entries, huffcalc, n).unwrap().events),
    ensures
        decode_stream(m, huffcalc, events, at, n) is Ok,
        ({
            let enc = encode_stream(m, entries, huffcalc, n).unwrap();
            let d = decode_stream(m, huffcalc, events, at, n).unwrap();
            &&& d.end == at + enc.events.len()
            &&& d.state == enc.state
            &&& d.state.wf()
            &&& d.entries.len() == n
            &&& forall|k: int|
                0 <= k < n ==> #[trigger] d.entries[k] == rebuilt_entry(
                    encode_stream(m, entries, huffcalc, k).unwrap().state,
                    entries[k],
                )
        }),
    decreases n,
{
    if n > 0 {
        let before = encode_stream(m, entries, huffcalc, n - 1).unwrap();
        let last = n == entries.len();
        let here = encode_entry(before.state, entries[n - 1], last, huffcalc).unwrap();
        lemma_holds_at_split(events, at, before.events, here.events);
        assert forall|k: int| 0 <= k < n - 1 implies ((#[trigger] encode_stream(
            m,
            entries,
            huffcalc,
            k,
        )) matches Ok(b) ==> entry_supported(b.state, entries[k], k + 1 == entries.len())) by {}
        lemma_stream_roundtrip(m, entries, huffcalc, n - 1, events, at);
        assert(entry_supported(before.state, entries[n - 1], n - 1 + 1 == entries.len()));
        lemma_entry_roundtrip(
            before.state,
            entries[n - 1],
            last,
            huffcalc,
            events,
            at + before.events.len(),
        );
        let d0 = decode_stream(m, huffcalc, events, at, n - 1).unwrap();
        let d = decode_stream(m, huffcalc, events, at, n).unwrap();
        assert forall|k: int| 0 <= k < n implies #[trigger] d.entries[k] == rebuilt_entry(
            encode_stream(m, entries, huffcalc, k).unwrap().state,
            entries[k],
        ) by {
            if k < n - 1 {
                assert(d.entries[k] == d0.entries[k]);
            }
        }
    }
}

/// The rebuilding of a block with its header ends behind the place at
/// which it began, in a well-formed state.
pub proof fn lemma_decode_entry_end(
    m: TokenPredictorModel,
    huffcalc: HufftreeBitCalc,
    events: Seq<CodecAction>,
    at: int,
)
    requires
        m.wf(),
        decode_entry(m, huffcalc, events, at) is Ok,
    ensures
        decode_entry(m, huffcalc, events, at).unwrap().end > at,
        decode_entry(m, huffcalc, events, at).unwrap().state.wf(),
{
    reveal(decode_entry);
    lemma_decode_block_wf(m, events, at);
    let b = m.decode_block(events, at).unwrap();
    if b.block.block_type == BlockType::DynamicHuff {
        lemma_decode_header_end(b.block.freq, huffcalc, events, b.end);
    }
}

/// The block with its header that the script describes is rebuilt from
/// a log that holds its events; a log that left the script among them
/// is out of step.
pub proof fn lemma_decode_entry_left(
    m: TokenPredictorModel,
    huffcalc: HufftreeBitCalc,
    script: Seq<CodecAction>,
    log: Seq<CodecAction>,
    at: int,
    left: int,
)
    requires
        m.wf(),
        left_at(log, script, left),
        0 <= at <= left,
        decode_entry(m, huffcalc, script, at) is Ok,
    ensures
        left < decode_entry(m, huffcalc, script, at).unwrap().end ==> decode_entry(
            m,
            huffcalc,
            log,
            at,
        ) == Err::<DecodedEntry, PreflateError>(PreflateError::EventsOutOfStep),
        left >= decode_entry(m, huffcalc, script, at).unwrap().end ==> decode_entry(
            m,
            huffcalc,
            log,
            at,
        ) == decode_entry(m, huffcalc, script, at),
{
    reveal(decode_entry);
    lemma_decode_block_wf(m, script, at);
    lemma_decode_block_left(m, script, log, at, left);
    let b = m.decode_block(script, at).unwrap();
    if b.block.block_type == BlockType::DynamicHuff {
        lemma_decode_header_end(b.block.freq, huffcalc, script, b.end);
        if left >= b.end {
            lemma_decode_header_left(b.block.freq, huffcalc, script, log, b.end, left);
        }
    }
}

/// The rebuilding of blocks ends at or behind the place at which it
/// began, in a well-formed state.
pub proof fn lemma_decode_stream_end(
    m: TokenPredictorModel,
    huffcalc: HufftreeBitCalc,
    events: Seq<CodecAction>,
    at: int,
    n: int,
)
    requires
        m.wf(),
        decode_stream(m, huffcalc, events, at, n) is Ok,
    ensures
        decode_stream(m, huffcalc, events, at, n).unwrap().end >= at,
        decode_stream(m, huffcalc, events, at, n).unwrap().state.wf(),
    decreases n,
{
    if n > 0 {
        lemma_decode_stream_end(m, huffcalc, events, at, n - 1);
        let before = decode_stream(m, huffcalc, events, at, n - 1).unwrap();
        lemma_decode_entry_end(before.state, huffcalc, events, before.end);
    }
}

/// The blocks that the script describes are rebuilt from a log that
/// holds their events; a log that left the script among them is out of
/// step.
pub proof fn lemma_decode_stream_left(
    m: TokenPredictorModel,
    huffcalc: HufftreeBitCalc,
    script: Seq<CodecAction>,
    log: Seq<CodecAction>,
    at: int,
    n: int,
    left: int,
)
    requires
        m.wf(),
        left_at(log, script, left),
        0 <= at <= left,
        decode_stream(m, huffcalc, script, at, n) is Ok,
    ensures
        left < decode_stream(m, huffcalc, script, at, n).unwrap().end ==> decode_stream(
            m,
            huffcalc,
            log,
            at,
            n,
        ) == Err::<DecodedStream, PreflateError>(PreflateError::EventsOutOfStep),
        left >= decode_stream(m, huffcalc, script, at, n).unwrap().end ==> decode_stream(
            m,
            huffcalc,
            log,
            at,
            n,
        ) == decode_stream(m, huffcalc, script, at, n),
    decreases n,
{
    if n > 0 {
        lemma_decode_stream_left(m, huffcalc, script, log, at, n - 1, left);
        lemma_decode_stream_end(m, huffcalc, script, at, n - 1);
        let before = decode_stream(m, huffcalc, script, at, n - 1).unwrap();
        lemma_decode_entry_end(before.state, huffcalc, script, before.end);
        if left >= before.end {
            lemma_decode_entry_left(before.state, huffcalc, script, log, before.end, left);
        }
    }
}

/// The rebuilding of the blocks of a stream stays in step with a
/// decoder that replays a description of them. Where the script holds
/// `n` blocks at the place `at`, the log of a decoder that replays the
/// script held the events of the script up to that place, and a
/// rebuilding from that place took the events of the log behind it and
/// was not out of step, the log holds events of the script only, and
/// what was rebuilt are the blocks of the script.
pub proof fn lemma_stream_in_step(
    m: TokenPredictorModel,
    huffcalc: HufftreeBitCalc,
    script: Seq<CodecAction>,
    log: Seq<CodecAction>,
    at: int,
    n: int,
    outcome: Result<DecodedStream, PreflateError>,
)
    requires
        m.wf(),
        replays(log, script),
        0 <= at <= script.len(),
        at <= log.len(),
        forall|i: int| 0 <= i < at ==> #[trigger] log[i] == script[i],
        decode_stream(m, huffcalc, script, at, n) is Ok,
        forall|longer: Seq<CodecAction>|
            extends(longer, log) ==> #[trigger] decode_stream(m, huffcalc, longer, at, n)
                == outcome,
        outcome matches Ok(d) ==> d.end == log.len(),
        outcome != Err::<DecodedStream, PreflateError>(PreflateError::EventsOutOfStep),
    ensures
        extends(script, log),
        outcome == decode_stream(m, huffcalc, script, at, n),
        log.len() == decode_stream(m, huffcalc, script, at, n).unwrap().end,
{
    if extends(script, log) {
        assert(decode_stream(m, huffcalc, script, at, n) == outcome);
    } else {
        let left = choose|left: int| left_at(log, script, left);
        lemma_left_at_behind(log, script, left, at);
        assert(extends(log, log));
        assert(decode_stream(m, huffcalc, log, at, n) == outcome);
        lemma_decode_stream_left(m, huffcalc, script, log, at, n, left);
    }
}

/// The blocks of a stream that were described are rebuilt as they were
/// by a rebuilding whose decoder replays the description. Where the
/// script holds the description of the blocks at the place `at`, and a
/// rebuilding of as many blocks from that place drew on a decoder that
/// replays the script and had handed out the events of the script up to
/// that place, the rebuilding took the events of the description, each
/// by its kind and in their order, and no other, and gave the blocks
/// back, each with its header.
pub proof fn lemma_stream_roundtrip_in_step(
    m: TokenPredictorModel,
    entries: Seq<EntryModel>,
    huffcalc: HufftreeBitCalc,
    script: Seq<CodecAction>,
    log: Seq<CodecAction>,
    at: int,
    outcome: Result<DecodedStream, PreflateError>,
)
    requires
        m.wf(),
        stream_supported(m, entries, huffcalc, entries.len() as int),
        encode_stream(m, entries, huffcalc, entries.len() as int) is Ok,
        holds_at(
            script,
            at,
            encode_stream(m, entries, huffcalc, entries.len() as int).unwrap().events,
        ),
        replays(log, script),
        at <= log.len(),
        forall|i: int| 0 <= i < at ==> #[trigger] log[i] == script[i],
        forall|longer: Seq<CodecAction>|
            extends(longer, log) ==> #[trigger] decode_stream(
                m,
                huffcalc,
                longer,
                at,
                entries.len() as int,
            ) == outcome,
        outcome matches Ok(d) ==> d.end == log.len(),
        outcome != Err::<DecodedStream, PreflateError>(PreflateError::EventsOutOfStep),
    ensures
        extends(script, log),
        log.len() == at + encode_stream(
            m,
            entries,
            huffcalc,
            entries.len() as int,
        ).unwrap().events.len(),
        outcome is Ok,
        outcome.unwrap().state == encode_stream(
            m,
            entries,
            huffcalc,
            entries.len() as int,
        ).unwrap().state,
        outcome.unwrap().entries.len() == entries.len(),
        forall|k: int|
            0 <= k < entries.len() ==> #[trigger] outcome.unwrap().entries[k] == rebuilt_entry(
                encode_stream(m, entries, huffcalc, k).unwrap().state,
                entries[k],
            ),
{
    let n = entries.len() as int;
    lemma_stream_roundtrip(m, entries, huffcalc, n, script, at);
    lemma_stream_in_step(m, huffcalc, script, log, at, n, outcome);
}

} // verus!
