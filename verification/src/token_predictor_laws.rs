//! What holds of the description of a block and of its rebuilding
//! together: a block that is described is rebuilt as it was, from
//! exactly the events of its description, and a block that is rebuilt
//! from defaults is described by defaults.

use vstd::prelude::*;
use crate::bit_helper::{byte_run, lemma_byte_run_bound, lemma_byte_run_elements};
use crate::predictor_state::{
    MatchResult, PredictorModel, is_match, lemma_advance_wf, lemma_hop_match_inverse,
    lemma_hop_match_repeats, lemma_hop_match_wf, lemma_match_token_repeats, lemma_match_token_wf,
    match_result_wf, spec_min,
};
use crate::preflate_constants::MIN_MATCH;
use crate::preflate_error::PreflateError;
use crate::preflate_token::{BlockModel, BlockType, PreflateToken, PreflateTokenReference};
use crate::statistical_codec::{
    CodecAction, CodecCorrection, CodecMisprediction, all_default, correction_at, default_from,
    holds_at, lemma_all_default_add, lemma_default_reads, lemma_difference_roundtrip,
    lemma_holds_at_split, misprediction_at, spec_decode_difference, value_at, zigzag,
};
use crate::token_predictor::{
    DecodedBlock, DecodedToken, Encoded, Prediction, TokenPredictorModel,
};

verus! {

/// What a prediction holds: a predicted reference can stand at the
/// cursor, and a match that is kept for the token after can stand one
/// byte on and comes with a literal.
pub open spec fn prediction_wf(m: TokenPredictorModel, p: Prediction) -> bool {
    &&& p.token matches PreflateToken::Reference(t) ==> m.fits(t, 0) && !t.irregular258
        && p.pending is None
    &&& p.pending matches Some(q) ==> m.fits(q, 1) && !q.irregular258 && p.token
        == PreflateToken::Literal
}

/// The match that competes with a match at the cursor can stand one byte on.
pub proof fn lemma_lazy_match_wf(m: TokenPredictorModel, r: PreflateTokenReference)
    requires
        m.state.wf(),
        m.state.remaining() >= r.len + 2,
        3 <= r.len,
    ensures
        m.lazy_match(r) matches MatchResult::Success(next) ==> m.fits(next, 1) && next.len > r.len
            && !next.irregular258,
{
    reveal(TokenPredictorModel::lazy_match);
    lemma_match_token_wf(m.state, m.state.next_hash(), r.len, 1, m.lazy_depth());
    lemma_byte_run_bound(
        m.state.data,
        m.state.pos + 1,
        m.state.data[m.state.pos as int],
        crate::predictor_state::spec_min(m.state.remaining() - 1, 258),
    );
}

/// What an encoder does with a match that can stand at the cursor is a
/// prediction that is well-formed.
pub proof fn lemma_choose_token_wf(m: TokenPredictorModel, r: PreflateTokenReference)
    requires
        m.state.wf(),
        r.len >= MIN_MATCH ==> m.fits(r, 0) && !r.irregular258,
    ensures
        prediction_wf(m, m.choose_token(r)),
{
    reveal(TokenPredictorModel::choose_token);
    if r.len >= MIN_MATCH && m.state.remaining() >= r.len + 2 {
        lemma_lazy_match_wf(m, r);
    }
}

/// The prediction of a well-formed state is well-formed.
pub proof fn lemma_predict_token_wf(m: TokenPredictorModel)
    requires
        m.wf(),
    ensures
        prediction_wf(m, m.predict_token()),
        m.predict_token().token == PreflateToken::Literal ==> m.with_pending(
            m.predict_token().pending,
        ).wf_at(1),
        m.predict_token().token != PreflateToken::Literal ==> m.with_pending(
            m.predict_token().pending,
        ).wf(),
{
    reveal(TokenPredictorModel::predict_token);
    if m.state.pos == 0 || m.state.remaining() < MIN_MATCH {
    } else {
        match m.pending {
            Some(p) => {
                lemma_choose_token_wf(m, p);
            },
            None => {
                lemma_match_token_wf(m.state, m.state.cur_hash(), 0, 0, m.first_depth());
                match m.state.match_token(m.state.cur_hash(), 0, 0, m.first_depth()) {
                    MatchResult::Success(found) => {
                        lemma_choose_token_wf(m, found);
                    },
                    _ => {},
                }
            },
        }
    }
}

/// The reference that a deeper search finds can stand at the cursor.
pub proof fn lemma_repredict_wf(m: TokenPredictorModel)
    requires
        m.state.wf(),
    ensures
        m.repredict_reference() matches Ok(r) ==> m.fits(r, 0) && !r.irregular258,
{
    reveal(TokenPredictorModel::repredict_reference);
    lemma_match_token_wf(m.state, m.state.cur_hash(), 0, 0, m.second_depth());
}

/// A state stays well-formed where a token is taken that the plaintext
/// has room for.
pub proof fn lemma_commit_wf(m: TokenPredictorModel, token: PreflateToken)
    requires
        m.state.wf(),
        crate::hash_chain::primed(m.state.chain, m.state.data, m.state.pos as int),
        m.count <= m.state.pos,
        1 <= token.spec_len() <= m.state.remaining(),
        match m.pending {
            Some(q) => token == PreflateToken::Literal && m.fits(q, 1) && !q.irregular258,
            None => true,
        },
    ensures
        m.commit_token(token).wf(),
        m.commit_token(token).state.data == m.state.data,
        m.commit_token(token).state.params == m.state.params,
        m.commit_token(token).state.pos == m.state.pos + token.spec_len(),
        m.commit_token(token).max_token_count == m.max_token_count,
        m.commit_token(token).count == m.count + 1,
        m.commit_token(token).pending == m.pending,
{
    lemma_advance_wf(m.state, token.spec_len());
    crate::hash_chain::lemma_update_primed(
        m.state.chain,
        m.state.data,
        m.state.pos as int,
        token.spec_len() as nat,
    );
    crate::hash_chain::lemma_skip_primed(
        m.state.chain,
        m.state.data,
        m.state.pos as int,
        token.spec_len() as nat,
    );
}

/// What a reference has to be for its description to lead back to it:
/// of a length and a distance that the format can express, a repetition
/// of what stands before, and with the flag of the length code only
/// where the length has two codes.
pub open spec fn token_supported(m: TokenPredictorModel, token: PreflateToken) -> bool {
    match token {
        PreflateToken::Literal => true,
        PreflateToken::Reference(t) => {
            &&& t.wf()
            &&& m.state.matches(t.dist, t.len)
            &&& t.irregular258 ==> t.len == 258
        },
    }
}

/// The state after a token that was described is well-formed.
pub proof fn lemma_encode_token_wf(m: TokenPredictorModel, target: PreflateToken)
    requires
        m.wf(),
        target.wf(),
        m.encode_token(target) is Ok,
    ensures
        ({
            let after = m.encode_token(target).unwrap().state;
            &&& after.wf()
            &&& after.state.data == m.state.data
            &&& after.state.params == m.state.params
            &&& after.state.pos == m.state.pos + target.spec_len()
            &&& after.max_token_count == m.max_token_count
            &&& after.count == m.count + 1
            &&& 1 <= target.spec_len() <= m.state.remaining()
        }),
{
    reveal(TokenPredictorModel::encode_token);
    lemma_predict_token_wf(m);
    let p = m.predict_token();
    let predicted = m.with_pending(p.pending);
    match target {
        PreflateToken::Literal => {
            lemma_commit_wf(predicted, target);
        },
        PreflateToken::Reference(t) => {
            lemma_commit_wf(predicted.with_pending(None), target);
        },
    }
}

/// A reference that is described is rebuilt as it was.
pub proof fn lemma_reference_roundtrip(
    x: TokenPredictorModel,
    y: TokenPredictorModel,
    predicted: PreflateTokenReference,
    target: PreflateTokenReference,
    events: Seq<CodecAction>,
    at: int,
)
    requires
        x.state == y.state,
        predicted.wf(),
        !predicted.irregular258,
        token_supported(x, PreflateToken::Reference(target)),
        x.encode_reference(predicted, target) is Ok,
        holds_at(events, at, x.encode_reference(predicted, target).unwrap()),
    ensures
        y.decode_reference(predicted, events, at) == Ok::<
            (PreflateTokenReference, int),
            PreflateError,
        >((target, x.encode_reference(predicted, target).unwrap().len() as int)),
{
    let piece = x.encode_reference(predicted, target).unwrap();
    assert(events[at + 0] == piece[0]);
    assert(events[at + 1] == piece[1]);
    lemma_difference_roundtrip(predicted.len, target.len);
    if predicted.len != target.len || predicted.dist != target.dist {
        lemma_hop_match_inverse(x.state, target);
    }
    if target.len == 258 {
        assert(events[at + 2] == piece[2]);
    }
}

/// A token that is described is rebuilt as it was, from exactly the
/// events of its description, and leaves the same state behind.
pub proof fn lemma_token_roundtrip(
    m: TokenPredictorModel,
    target: PreflateToken,
    events: Seq<CodecAction>,
    at: int,
)
    requires
        m.wf(),
        target.wf(),
        token_supported(m, target),
        m.encode_token(target) is Ok,
        holds_at(events, at, m.encode_token(target).unwrap().events),
    ensures
        m.decode_token(events, at) == Ok::<DecodedToken, PreflateError>(
            DecodedToken {
                token: target,
                used: m.encode_token(target).unwrap().events.len() as int,
                state: m.encode_token(target).unwrap().state,
            },
        ),
{
    reveal(TokenPredictorModel::encode_token);
    reveal(TokenPredictorModel::decode_token);
    lemma_predict_token_wf(m);
    let enc = m.encode_token(target).unwrap();
    let p = m.predict_token();
    let predicted = m.with_pending(p.pending);
    assert(events[at + 0] == enc.events[0]);
    match target {
        PreflateToken::Literal => {},
        PreflateToken::Reference(t) => {
            match p.token {
                PreflateToken::Literal => {
                    lemma_repredict_wf(predicted);
                    let r = predicted.repredict_reference().unwrap();
                    let piece = m.encode_reference(r, t).unwrap();
                    let first = seq![
                        CodecAction::Misprediction(
                            CodecMisprediction::LiteralPredictionWrong,
                            true,
                        ),
                    ];
                    lemma_holds_at_split(events, at, first, piece);
                    lemma_reference_roundtrip(
                        m,
                        predicted.with_pending(None),
                        r,
                        t,
                        events,
                        at + 1,
                    );
                },
                PreflateToken::Reference(r) => {
                    let piece = m.encode_reference(r, t).unwrap();
                    let first = seq![
                        CodecAction::Misprediction(
                            CodecMisprediction::ReferencePredictionWrong,
                            false,
                        ),
                    ];
                    lemma_holds_at_split(events, at, first, piece);
                    lemma_reference_roundtrip(m, predicted, r, t, events, at + 1);
                },
            }
        },
    }
}

/// The description of the first tokens does not depend on the tokens after them.
pub proof fn lemma_encode_tokens_agree(
    start: TokenPredictorModel,
    a: Seq<PreflateToken>,
    b: Seq<PreflateToken>,
    n: nat,
)
    requires
        n <= a.len(),
        n <= b.len(),
        forall|i: int| 0 <= i < n ==> a[i] == b[i],
    ensures
        start.encode_tokens(a, n) == start.encode_tokens(b, n),
    decreases n,
{
    if n > 0 {
        lemma_encode_tokens_agree(start, a, b, (n - 1) as nat);
    }
}

/// Where a run of tokens can be described, each shorter run can, and the
/// description of each token stands in that of the run behind those of
/// the tokens before it.
pub proof fn lemma_encode_tokens_step(
    start: TokenPredictorModel,
    tokens: Seq<PreflateToken>,
    n: nat,
    k: nat,
)
    requires
        k < n,
        start.encode_tokens(tokens, n) is Ok,
    ensures
        start.encode_tokens(tokens, k) is Ok,
        start.encode_tokens(tokens, k).unwrap().state.encode_token(tokens[k as int]) is Ok,
        ({
            let all = start.encode_tokens(tokens, n).unwrap().events;
            let before = start.encode_tokens(tokens, k).unwrap();
            let here = before.state.encode_token(tokens[k as int]).unwrap();
            &&& start.encode_tokens(tokens, k + 1) == Ok::<Encoded, PreflateError>(
                Encoded { events: before.events.add(here.events), state: here.state },
            )
            &&& before.events.len() + here.events.len() <= all.len()
            &&& forall|i: int|
                0 <= i < here.events.len() ==> #[trigger] all[before.events.len() + i]
                    == here.events[i]
            &&& n == k + 1 ==> before.events.len() + here.events.len() == all.len()
        }),
    decreases n,
{
    if k + 1 < n {
        lemma_encode_tokens_step(start, tokens, (n - 1) as nat, k);
        let shorter = start.encode_tokens(tokens, (n - 1) as nat).unwrap();
        let last = shorter.state.encode_token(tokens[n - 1]).unwrap();
        let all = start.encode_tokens(tokens, n).unwrap().events;
        assert(all == shorter.events.add(last.events));
        let before = start.encode_tokens(tokens, k).unwrap();
        let here = before.state.encode_token(tokens[k as int]).unwrap();
        assert forall|i: int| 0 <= i < here.events.len() implies #[trigger] all[before.events.len()
            + i] == here.events[i] by {
            assert(shorter.events[before.events.len() + i] == here.events[i]);
        }
    } else {
        let before = start.encode_tokens(tokens, k).unwrap();
        let here = before.state.encode_token(tokens[k as int]).unwrap();
        let all = start.encode_tokens(tokens, n).unwrap().events;
        assert(all == before.events.add(here.events));
    }
}

/// The state after a run of tokens that was described is well-formed.
pub proof fn lemma_encode_tokens_wf(start: TokenPredictorModel, tokens: Seq<PreflateToken>, n: nat)
    requires
        start.wf(),
        n <= tokens.len(),
        forall|i: int| 0 <= i < tokens.len() ==> (#[trigger] tokens[i]).wf(),
        start.encode_tokens(tokens, n) is Ok,
    ensures
        ({
            let after = start.encode_tokens(tokens, n).unwrap().state;
            &&& after.wf()
            &&& after.state.data == start.state.data
            &&& after.state.params == start.state.params
            &&& after.state.pos >= start.state.pos + n
            &&& after.max_token_count == start.max_token_count
            &&& after.count == start.count + n
        }),
    decreases n,
{
    if n > 0 {
        lemma_encode_tokens_wf(start, tokens, (n - 1) as nat);
        let before = start.encode_tokens(tokens, (n - 1) as nat).unwrap();
        lemma_encode_token_wf(before.state, tokens[n - 1]);
    }
}

/// Every token of the first `n` is one whose description leads back to
/// it, at the state in which it is described.
pub open spec fn tokens_supported(start: TokenPredictorModel, tokens: Seq<PreflateToken>, n: nat) -> bool {
    forall|k: nat|
        k < n ==> token_supported(
            (#[trigger] start.encode_tokens(tokens, k)).unwrap().state,
            tokens[k as int],
        )
}

/// The block `block` with the first `k` tokens of `tokens` added, as the
/// rebuilding adds them: a literal is counted with the byte at the
/// cursor of the state in which it is described.
pub open spec fn block_after(
    start: TokenPredictorModel,
    block: BlockModel,
    tokens: Seq<PreflateToken>,
    k: nat,
) -> BlockModel
    decreases k,
{
    if k == 0 {
        block
    } else {
        let before = start.encode_tokens(tokens, (k - 1) as nat).unwrap().state;
        block_after(start, block, tokens, (k - 1) as nat).with_token(
            tokens[k - 1],
            before.state.data[before.state.pos as int],
        )
    }
}

/// The tokens of a block that was added to are its own and those added.
pub proof fn lemma_block_after_tokens(
    start: TokenPredictorModel,
    block: BlockModel,
    tokens: Seq<PreflateToken>,
    k: nat,
)
    requires
        k <= tokens.len(),
    ensures
        block_after(start, block, tokens, k).tokens == block.tokens.add(tokens.take(k as int)),
        block_after(start, block, tokens, k).block_type == block.block_type,
        block_after(start, block, tokens, k).uncompressed_len == block.uncompressed_len,
        block_after(start, block, tokens, k).padding_bits == block.padding_bits,
    decreases k,
{
    if k == 0 {
        assert(block.tokens.add(tokens.take(0)) =~= block.tokens);
    } else {
        lemma_block_after_tokens(start, block, tokens, (k - 1) as nat);
        assert(block.tokens.add(tokens.take(k - 1)).push(tokens[k - 1]) =~= block.tokens.add(
            tokens.take(k as int),
        ));
    }
}

/// The tokens of a run that is described are rebuilt as they were, from
/// exactly the events of their description.
pub proof fn lemma_decode_tokens_roundtrip(
    start: TokenPredictorModel,
    tokens: Seq<PreflateToken>,
    k: nat,
    events: Seq<CodecAction>,
    at: int,
    blocksize: u32,
    block: BlockModel,
)
    requires
        start.wf(),
        start.count == 0,
        forall|i: int| 0 <= i < tokens.len() ==> (#[trigger] tokens[i]).wf(),
        tokens_supported(start, tokens, tokens.len()),
        start.encode_tokens(tokens, tokens.len()) is Ok,
        holds_at(events, at, start.encode_tokens(tokens, tokens.len()).unwrap().events),
        k <= tokens.len() <= blocksize,
        start.encode_tokens(tokens, tokens.len()).unwrap().state.state.remaining() == 0
            || tokens.len() == blocksize,
        start.encode_tokens(tokens, k) is Ok,
    ensures
        start.encode_tokens(tokens, k).unwrap().state.decode_tokens(
            events,
            at + start.encode_tokens(tokens, k).unwrap().events.len(),
            blocksize,
            block_after(start, block, tokens, k),
        ) == Ok::<DecodedBlock, PreflateError>(
            DecodedBlock {
                block: block_after(start, block, tokens, tokens.len()),
                end: at + start.encode_tokens(tokens, tokens.len()).unwrap().events.len(),
                state: start.encode_tokens(tokens, tokens.len()).unwrap().state,
            },
        ),
    decreases tokens.len() - k,
{
    let n = tokens.len();
    let before = start.encode_tokens(tokens, k).unwrap();
    lemma_encode_tokens_wf(start, tokens, k);
    if k == n {
    } else {
        lemma_encode_tokens_step(start, tokens, n, k);
        let here = before.state.encode_token(tokens[k as int]).unwrap();
        let all = start.encode_tokens(tokens, n).unwrap().events;
        lemma_encode_token_wf(before.state, tokens[k as int]);
        assert(holds_at(events, at + before.events.len(), here.events)) by {
            assert forall|i: int| 0 <= i < here.events.len() implies #[trigger] events[at
                + before.events.len() + i] == here.events[i] by {
                assert(all[before.events.len() + i] == here.events[i]);
                assert(events[at + (before.events.len() + i)] == all[before.events.len() + i]);
            }
        }
        assert(token_supported(before.state, tokens[k as int]));
        lemma_token_roundtrip(before.state, tokens[k as int], events, at + before.events.len());
        lemma_decode_tokens_roundtrip(start, tokens, k + 1, events, at, blocksize, block);
    }
}

/// What a block has to be for its description to lead back to it: its
/// references repeat what stands before them, and where its length is
/// not sent it ends as the rebuilding expects, with the expected number
/// of tokens or with the plaintext.
pub open spec fn block_supported(m: TokenPredictorModel, block: BlockModel, last_block: bool) -> bool {
    &&& block.wf()
    &&& block.block_type != BlockType::Stored ==> {
        &&& tokens_supported(m.start_block(), block.tokens, block.tokens.len())
        &&& m.token_count_code(block.tokens.len(), last_block) == 0 && block.tokens.len()
            != m.max_token_count && m.start_block().encode_tokens(
            block.tokens,
            block.tokens.len(),
        ) is Ok ==> m.start_block().encode_tokens(
            block.tokens,
            block.tokens.len(),
        ).unwrap().state.state.remaining() == 0
    }
}

/// The block that the rebuilding makes of the description of `block`: a
/// stored block with its length and padding, another block with its
/// tokens, added one by one to an empty block, so that its symbols are
/// counted.
pub open spec fn rebuilt_form(m: TokenPredictorModel, block: BlockModel) -> BlockModel {
    if block.block_type == BlockType::Stored {
        BlockModel {
            uncompressed_len: block.uncompressed_len,
            padding_bits: block.padding_bits,
            ..BlockModel::empty(BlockType::Stored)
        }
    } else {
        block_after(
            m.start_block(),
            BlockModel::empty(block.block_type),
            block.tokens,
            block.tokens.len(),
        )
    }
}

/// A block that is described is rebuilt as it was, and the rebuilding
/// takes exactly the events of the description and leaves the state
/// that the description left.
pub proof fn lemma_block_roundtrip(
    m: TokenPredictorModel,
    block: BlockModel,
    last_block: bool,
    events: Seq<CodecAction>,
    at: int,
)
    requires
        m.wf(),
        block_supported(m, block, last_block),
        m.encode_block(block, last_block) is Ok,
        holds_at(events, at, m.encode_block(block, last_block).unwrap().events),
    ensures
        m.decode_block(events, at) is Ok,
        ({
            let enc = m.encode_block(block, last_block).unwrap();
            let d = m.decode_block(events, at).unwrap();
            &&& d.end == at + enc.events.len()
            &&& d.state == enc.state
            &&& d.block == rebuilt_form(m, block)
            &&& d.block.block_type == block.block_type
            &&& block.block_type == BlockType::Stored ==> d.block.uncompressed_len
                == block.uncompressed_len && d.block.padding_bits == block.padding_bits
            &&& block.block_type != BlockType::Stored ==> d.block.tokens == block.tokens
        }),
{
    let enc = m.encode_block(block, last_block).unwrap();
    let start = m.start_block();
    assert(events[at + 0] == enc.events[0]);
    assert(events[at + 1] == enc.events[1]);
    lemma_difference_roundtrip(
        BlockType::DynamicHuff.spec_code(),
        block.block_type.spec_code(),
    );
    if block.block_type == BlockType::Stored {
        assert(events[at + 2] == enc.events[2]);
    } else {
        let n = block.tokens.len();
        let code = m.token_count_code(n, last_block);
        let blocksize = if code == 0 {
            m.max_token_count
        } else {
            (code - 1) as u32
        };
        let tokens = start.encode_tokens(block.tokens, n).unwrap();
        let head = seq![
            CodecAction::Correction(
                CodecCorrection::BlockTypeCorrection,
                zigzag(block.block_type.spec_code() - BlockType::DynamicHuff.spec_code()) as u32,
            ),
            CodecAction::Correction(CodecCorrection::TokenCount, code),
        ];
        lemma_holds_at_split(events, at, head, tokens.events);
        let empty = BlockModel::empty(block.block_type);
        lemma_decode_tokens_roundtrip(start, block.tokens, 0, events, at + 2, blocksize, empty);
        lemma_block_after_tokens(start, empty, block.tokens, n);
        assert(empty.tokens.add(block.tokens.take(n as int)) =~= block.tokens);
    }
}

/// A token takes one event at least.
pub proof fn lemma_decode_token_used(m: TokenPredictorModel, events: Seq<CodecAction>, at: int)
    requires
        m.decode_token(events, at) is Ok,
    ensures
        1 <= m.decode_token(events, at).unwrap().used <= 4,
{
    reveal(TokenPredictorModel::decode_token);
}

/// The rebuilding of tokens ends at or behind the place at which it began.
pub proof fn lemma_decode_tokens_end(
    m: TokenPredictorModel,
    events: Seq<CodecAction>,
    at: int,
    blocksize: u32,
    block: BlockModel,
)
    requires
        m.decode_tokens(events, at, blocksize, block) is Ok,
    ensures
        m.decode_tokens(events, at, blocksize, block).unwrap().end >= at,
    decreases m.state.remaining(),
{
    if m.state.remaining() <= 0 || m.count >= blocksize {
    } else {
        let t = m.decode_token(events, at).unwrap();
        lemma_decode_token_used(m, events, at);
        if 0 <= t.state.state.remaining() < m.state.remaining() {
            lemma_decode_tokens_end(
                t.state,
                events,
                at + t.used,
                blocksize,
                block.with_token(t.token, m.state.data[m.state.pos as int]),
            );
        }
    }
}

/// A token that is rebuilt is one that can stand at the cursor, and the
/// state after it is well-formed and further on in the plaintext.
pub proof fn lemma_decode_token_advances(m: TokenPredictorModel, events: Seq<CodecAction>, at: int)
    requires
        m.wf(),
        m.state.remaining() > 0,
        m.decode_token(events, at) is Ok,
    ensures
        ({
            let t = m.decode_token(events, at).unwrap();
            &&& t.token.wf()
            &&& t.state.wf()
            &&& 0 <= t.state.state.remaining() < m.state.remaining()
            &&& t.state.count == m.count + 1
            &&& t.state.max_token_count == m.max_token_count
            &&& t.state.state.data == m.state.data
            &&& t.state.state.params == m.state.params
        }),
{
    reveal(TokenPredictorModel::decode_token);
    lemma_predict_token_wf(m);
    let p = m.predict_token();
    let predicted = m.with_pending(p.pending);
    let t = m.decode_token(events, at).unwrap();
    match t.token {
        PreflateToken::Literal => {
            lemma_commit_wf(predicted, PreflateToken::Literal);
        },
        PreflateToken::Reference(r) => {
            let from = match p.token {
                PreflateToken::Literal => predicted.repredict_reference().unwrap(),
                PreflateToken::Reference(q) => q,
            };
            lemma_repredict_wf(predicted);
            let new_len = spec_decode_difference(from.len, correction_at(events, at + 1));
            let hops = correction_at(events, at + 2);
            if new_len != from.len || hops != 0 {
                lemma_hop_match_wf(m.state, new_len, hops);
            }
            lemma_commit_wf(predicted.with_pending(None), t.token);
        },
    }
}

/// A token that is rebuilt from defaults is the predicted one, and is
/// described by defaults.
pub proof fn lemma_token_default(m: TokenPredictorModel, events: Seq<CodecAction>, at: int)
    requires
        m.wf(),
        m.state.remaining() > 0,
        0 <= at,
        default_from(events, at),
        m.decode_token(events, at) is Ok,
        at + m.decode_token(events, at).unwrap().used <= events.len(),
    ensures
        ({
            let t = m.decode_token(events, at).unwrap();
            &&& t.token.wf()
            &&& m.encode_token(t.token) is Ok
            &&& m.encode_token(t.token).unwrap().state == t.state
            &&& m.encode_token(t.token).unwrap().events.len() == t.used
            &&& all_default(m.encode_token(t.token).unwrap().events)
        }),
{
    reveal(TokenPredictorModel::encode_token);
    reveal(TokenPredictorModel::decode_token);
    lemma_predict_token_wf(m);
    lemma_decode_token_used(m, events, at);
    lemma_default_reads(events, at);
    let p = m.predict_token();
    match p.token {
        PreflateToken::Literal => {},
        PreflateToken::Reference(r) => {
            lemma_default_reads(events, at + 1);
            lemma_default_reads(events, at + 2);
            if r.len == 258 {
                lemma_default_reads(events, at + 3);
            }
        },
    }
}

/// Tokens that are rebuilt from defaults are described by defaults, and
/// the description leaves the state that the rebuilding left.
pub proof fn lemma_decode_tokens_default(
    start: TokenPredictorModel,
    m: TokenPredictorModel,
    events: Seq<CodecAction>,
    at: int,
    blocksize: u32,
    block: BlockModel,
)
    requires
        start.wf(),
        m.wf(),
        0 <= at,
        default_from(events, at),
        m.count <= blocksize,
        forall|i: int| 0 <= i < block.tokens.len() ==> (#[trigger] block.tokens[i]).wf(),
        start.encode_tokens(block.tokens, block.tokens.len()) is Ok,
        start.encode_tokens(block.tokens, block.tokens.len()).unwrap().state == m,
        all_default(start.encode_tokens(block.tokens, block.tokens.len()).unwrap().events),
        m.decode_tokens(events, at, blocksize, block) is Ok,
        m.decode_tokens(events, at, blocksize, block).unwrap().end <= events.len(),
    ensures
        ({
            let d = m.decode_tokens(events, at, blocksize, block).unwrap();
            let enc = start.encode_tokens(d.block.tokens, d.block.tokens.len());
            &&& enc is Ok
            &&& enc.unwrap().state == d.state
            &&& all_default(enc.unwrap().events)
            &&& enc.unwrap().events.len() == start.encode_tokens(
                block.tokens,
                block.tokens.len(),
            ).unwrap().events.len() + (d.end - at)
            &&& d.state.count <= blocksize
            &&& d.state.state.remaining() == 0 || d.state.count >= blocksize
            &&& d.block.block_type == block.block_type
            &&& forall|i: int| 0 <= i < d.block.tokens.len() ==> (#[trigger] d.block.tokens[i]).wf()
        }),
    decreases m.state.remaining(),
{
    if m.state.remaining() <= 0 || m.count >= blocksize {
    } else {
        let t = m.decode_token(events, at).unwrap();
        lemma_decode_token_used(m, events, at);
        lemma_decode_token_advances(m, events, at);
        let longer = block.with_token(t.token, m.state.data[m.state.pos as int]);
        lemma_decode_tokens_end(t.state, events, at + t.used, blocksize, longer);
        lemma_token_default(m, events, at);
        let n = block.tokens.len();
        assert(longer.tokens == block.tokens.push(t.token));
        assert(longer.block_type == block.block_type);
        lemma_encode_tokens_agree(start, longer.tokens, block.tokens, n);
        let before = start.encode_tokens(block.tokens, n).unwrap();
        let here = m.encode_token(t.token).unwrap();
        assert(start.encode_tokens(longer.tokens, n + 1) == Ok::<Encoded, PreflateError>(
            Encoded { events: before.events.add(here.events), state: here.state },
        ));
        lemma_all_default_add(before.events, here.events);
        assert forall|i: int| 0 <= i < longer.tokens.len() implies (#[trigger] longer.tokens[i]).wf() by {
            if i < n {
                assert(longer.tokens[i] == block.tokens[i]);
            }
        }
        lemma_decode_tokens_default(start, t.state, events, at + t.used, blocksize, longer);
    }
}

/// A block that is rebuilt from defaults is described by defaults: the
/// description of a prediction that was right holds no correction. The
/// block is described as the last one where it ends with the plaintext
/// before it has the expected number of tokens.
pub proof fn lemma_block_default(
    m: TokenPredictorModel,
    events: Seq<CodecAction>,
    at: int,
    last_block: bool,
)
    requires
        m.wf(),
        0 <= at,
        default_from(events, at),
        m.decode_block(events, at) is Ok,
        m.decode_block(events, at).unwrap().end <= events.len(),
        last_block || m.decode_block(events, at).unwrap().block.tokens.len()
            == m.max_token_count,
    ensures
        ({
            let d = m.decode_block(events, at).unwrap();
            let enc = m.encode_block(d.block, last_block);
            &&& enc is Ok
            &&& enc.unwrap().state == d.state
            &&& enc.unwrap().events.len() == d.end - at
            &&& all_default(enc.unwrap().events)
        }),
{
    let d = m.decode_block(events, at).unwrap();
    let start = m.start_block();
    let code = spec_decode_difference(
        BlockType::DynamicHuff.spec_code(),
        correction_at(events, at),
    );
    match BlockType::spec_from_code(code) {
        None => {},
        Some(BlockType::Stored) => {
            lemma_default_reads(events, at);
        },
        Some(block_type) => {
            let count = correction_at(events, at + 1);
            let blocksize = if count == 0 {
                m.max_token_count
            } else {
                (count - 1) as u32
            };
            lemma_decode_tokens_end(
                start,
                events,
                at + 2,
                blocksize,
                BlockModel::empty(block_type),
            );
            lemma_default_reads(events, at);
            lemma_default_reads(events, at + 1);
            let empty = BlockModel::empty(BlockType::DynamicHuff);
            assert(all_default(Seq::<CodecAction>::empty()));
            lemma_decode_tokens_default(start, start, events, at + 2, m.max_token_count, empty);
            let n = d.block.tokens.len();
            lemma_encode_tokens_wf(start, d.block.tokens, n);
            let tokens = start.encode_tokens(d.block.tokens, n).unwrap();
            let head = seq![
                CodecAction::Correction(CodecCorrection::BlockTypeCorrection, 0),
                CodecAction::Correction(CodecCorrection::TokenCount, 0),
            ];
            assert(head[0].is_default());
            assert(head[1].is_default());
            assert(all_default(head));
            lemma_all_default_add(head, tokens.events);
        },
    }
}

/// The match that is kept for the next token repeats what stands before
/// the place `offset` bytes after the cursor.
pub open spec fn pending_repeats(m: TokenPredictorModel, offset: int) -> bool {
    m.pending matches Some(q) ==> is_match(
        m.state.data,
        m.state.pos + offset,
        q.dist as int,
        q.len as int,
    )
}

/// What a prediction holds besides: its references repeat what stands before.
pub open spec fn prediction_repeats(m: TokenPredictorModel, p: Prediction) -> bool {
    &&& p.token matches PreflateToken::Reference(t) ==> m.state.matches(t.dist, t.len)
    &&& p.pending matches Some(q) ==> is_match(
        m.state.data,
        m.state.pos + 1,
        q.dist as int,
        q.len as int,
    )
}

/// The match that competes with a match at the cursor repeats what
/// stands before the byte after the cursor.
pub proof fn lemma_lazy_match_repeats(m: TokenPredictorModel, r: PreflateTokenReference)
    requires
        m.state.wf(),
        m.state.remaining() >= r.len + 2,
        3 <= r.len,
    ensures
        m.lazy_match(r) matches MatchResult::Success(next) ==> is_match(
            m.state.data,
            m.state.pos + 1,
            next.dist as int,
            next.len as int,
        ),
{
    reveal(TokenPredictorModel::lazy_match);
    lemma_match_token_repeats(m.state, m.state.next_hash(), r.len, 1, m.lazy_depth());
    let data = m.state.data;
    let pos = m.state.pos as int;
    let max = spec_min(m.state.remaining() - 1, 258);
    lemma_byte_run_bound(data, pos + 1, data[pos], max);
    lemma_byte_run_elements(data, pos + 1, data[pos], max);
    let rle = byte_run(data, pos + 1, data[pos], max);
    if rle > 0 {
        let a = data.subrange(pos, pos + rle);
        let b = data.subrange(pos + 1, pos + 1 + rle);
        assert forall|i: int| 0 <= i < rle implies a[i] == b[i] by {
            assert(data[pos + 1 + i] == data[pos]);
            if i > 0 {
                assert(data[pos + 1 + (i - 1)] == data[pos]);
            }
        }
        assert(a =~= b);
    }
}

/// What an encoder does with a match that repeats what stands before
/// is a prediction whose references repeat what stands before.
pub proof fn lemma_choose_token_repeats(m: TokenPredictorModel, r: PreflateTokenReference)
    requires
        m.state.wf(),
        r.len >= MIN_MATCH ==> m.fits(r, 0) && m.state.matches(r.dist, r.len),
    ensures
        prediction_repeats(m, m.choose_token(r)),
{
    reveal(TokenPredictorModel::choose_token);
    if r.len >= MIN_MATCH && m.state.remaining() >= r.len + 2 {
        lemma_lazy_match_repeats(m, r);
    }
}

/// The references of a prediction repeat what stands before.
pub proof fn lemma_predict_token_repeats(m: TokenPredictorModel)
    requires
        m.wf(),
        pending_repeats(m, 0),
    ensures
        prediction_repeats(m, m.predict_token()),
{
    reveal(TokenPredictorModel::predict_token);
    if m.state.pos == 0 || m.state.remaining() < MIN_MATCH {
    } else {
        match m.pending {
            Some(p) => {
                lemma_choose_token_repeats(m, p);
            },
            None => {
                lemma_match_token_wf(m.state, m.state.cur_hash(), 0, 0, m.first_depth());
                lemma_match_token_repeats(m.state, m.state.cur_hash(), 0, 0, m.first_depth());
                match m.state.match_token(m.state.cur_hash(), 0, 0, m.first_depth()) {
                    MatchResult::Success(found) => {
                        lemma_choose_token_repeats(m, found);
                    },
                    _ => {},
                }
            },
        }
    }
}

/// The reference that a deeper search finds repeats what stands before.
pub proof fn lemma_repredict_repeats(m: TokenPredictorModel)
    requires
        m.state.wf(),
    ensures
        m.repredict_reference() matches Ok(r) ==> m.state.matches(r.dist, r.len),
{
    reveal(TokenPredictorModel::repredict_reference);
    lemma_match_token_repeats(m.state, m.state.cur_hash(), 0, 0, m.second_depth());
}

/// A token that is rebuilt is one whose description leads back to it, and
/// the match that is kept after it repeats what stands before.
pub proof fn lemma_decode_token_supported(m: TokenPredictorModel, events: Seq<CodecAction>, at: int)
    requires
        m.wf(),
        pending_repeats(m, 0),
        m.state.remaining() > 0,
        m.decode_token(events, at) is Ok,
    ensures
        token_supported(m, m.decode_token(events, at).unwrap().token),
        pending_repeats(m.decode_token(events, at).unwrap().state, 0),
{
    reveal(TokenPredictorModel::decode_token);
    lemma_predict_token_wf(m);
    lemma_predict_token_repeats(m);
    lemma_decode_token_advances(m, events, at);
    let p = m.predict_token();
    let predicted = m.with_pending(p.pending);
    let t = m.decode_token(events, at).unwrap();
    match t.token {
        PreflateToken::Literal => {
            lemma_commit_wf(predicted, PreflateToken::Literal);
        },
        PreflateToken::Reference(r) => {
            let from = match p.token {
                PreflateToken::Literal => predicted.repredict_reference().unwrap(),
                PreflateToken::Reference(q) => q,
            };
            lemma_repredict_wf(predicted);
            lemma_repredict_repeats(predicted);
            let new_len = spec_decode_difference(from.len, correction_at(events, at + 1));
            let hops = correction_at(events, at + 2);
            if new_len != from.len || hops != 0 {
                lemma_hop_match_repeats(m.state, new_len, hops);
            }
            lemma_commit_wf(predicted.with_pending(None), t.token);
        },
    }
}

/// Where a token that was rebuilt can be described, the description
/// leaves the state that the rebuilding left.
pub proof fn lemma_encode_decoded_token(m: TokenPredictorModel, events: Seq<CodecAction>, at: int)
    requires
        m.wf(),
        m.decode_token(events, at) is Ok,
        m.encode_token(m.decode_token(events, at).unwrap().token) is Ok,
    ensures
        m.encode_token(m.decode_token(events, at).unwrap().token).unwrap().state
            == m.decode_token(events, at).unwrap().state,
{
    reveal(TokenPredictorModel::decode_token);
    reveal(TokenPredictorModel::encode_token);
    lemma_predict_token_wf(m);
}

/// The tokens of a block that is rebuilt begin with those that it began with.
pub proof fn lemma_decode_tokens_extend(
    m: TokenPredictorModel,
    events: Seq<CodecAction>,
    at: int,
    blocksize: u32,
    block: BlockModel,
)
    requires
        m.decode_tokens(events, at, blocksize, block) is Ok,
    ensures
        ({
            let d = m.decode_tokens(events, at, blocksize, block).unwrap();
            &&& d.block.tokens.len() >= block.tokens.len()
            &&& d.block.block_type == block.block_type
            &&& forall|i: int| 0 <= i < block.tokens.len() ==> d.block.tokens[i] == block.tokens[i]
        }),
    decreases m.state.remaining(),
{
    if m.state.remaining() <= 0 || m.count >= blocksize {
    } else {
        let t = m.decode_token(events, at).unwrap();
        if 0 <= t.state.state.remaining() < m.state.remaining() {
            let longer = block.with_token(t.token, m.state.data[m.state.pos as int]);
            assert(longer.tokens == block.tokens.push(t.token));
            assert(longer.block_type == block.block_type);
            lemma_decode_tokens_extend(t.state, events, at + t.used, blocksize, longer);
            let d = t.state.decode_tokens(events, at + t.used, blocksize, longer).unwrap();
            assert forall|i: int| 0 <= i < block.tokens.len() implies d.block.tokens[i]
                == block.tokens[i] by {
                assert(d.block.tokens[i] == longer.tokens[i]);
            }
        }
    }
}

/// Where the tokens that were rebuilt can be described, each of them is
/// one whose description leads back to it.
pub proof fn lemma_decode_tokens_supported(
    start: TokenPredictorModel,
    m: TokenPredictorModel,
    events: Seq<CodecAction>,
    at: int,
    blocksize: u32,
    block: BlockModel,
)
    requires
        start.wf(),
        m.wf(),
        pending_repeats(m, 0),
        start.encode_tokens(block.tokens, block.tokens.len()) is Ok,
        start.encode_tokens(block.tokens, block.tokens.len()).unwrap().state == m,
        tokens_supported(start, block.tokens, block.tokens.len()),
        m.decode_tokens(events, at, blocksize, block) is Ok,
        start.encode_tokens(
            m.decode_tokens(events, at, blocksize, block).unwrap().block.tokens,
            m.decode_tokens(events, at, blocksize, block).unwrap().block.tokens.len(),
        ) is Ok,
    ensures
        ({
            let d = m.decode_tokens(events, at, blocksize, block).unwrap();
            &&& tokens_supported(start, d.block.tokens, d.block.tokens.len())
            &&& start.encode_tokens(d.block.tokens, d.block.tokens.len()).unwrap().state
                == d.state
            &&& d.state.state.remaining() == 0 || d.state.count >= blocksize
        }),
    decreases m.state.remaining(),
{
    let d = m.decode_tokens(events, at, blocksize, block).unwrap();
    let k = block.tokens.len();
    if m.state.remaining() <= 0 || m.count >= blocksize {
    } else {
        let t = m.decode_token(events, at).unwrap();
        lemma_decode_token_advances(m, events, at);
        lemma_decode_token_supported(m, events, at);
        let longer = block.with_token(t.token, m.state.data[m.state.pos as int]);
        assert(longer.tokens == block.tokens.push(t.token));
        lemma_decode_tokens_extend(t.state, events, at + t.used, blocksize, longer);
        let n = d.block.tokens.len();
        assert(d.block.tokens[k as int] == longer.tokens[k as int]);
        assert forall|i: int| 0 <= i < k implies d.block.tokens[i] == block.tokens[i] by {
            assert(d.block.tokens[i] == longer.tokens[i]);
        }
        // The run that was rebuilt can be described, so its beginning can.
        lemma_encode_tokens_step(start, d.block.tokens, n, k);
        lemma_encode_tokens_agree(start, d.block.tokens, block.tokens, k);
        lemma_encode_tokens_agree(start, d.block.tokens, longer.tokens, k + 1);
        lemma_encode_decoded_token(m, events, at);
        assert forall|j: nat| j < k + 1 implies token_supported(
            (#[trigger] start.encode_tokens(longer.tokens, j)).unwrap().state,
            longer.tokens[j as int],
        ) by {
            lemma_encode_tokens_agree(
                start,
                longer.tokens,
                block.tokens,
                spec_min(j as int, k as int) as nat,
            );
            if j < k {
                assert(token_supported(
                    start.encode_tokens(block.tokens, j).unwrap().state,
                    block.tokens[j as int],
                ));
            }
        }
        lemma_decode_tokens_supported(start, t.state, events, at + t.used, blocksize, longer);
    }
}

/// A block that was rebuilt and can be described again is one whose
/// description leads back to it: the rebuilding of its description
/// gives the same block. It is described as the last block only where it
/// ends with the plaintext.
pub proof fn lemma_rebuilt_block_supported(
    m: TokenPredictorModel,
    events: Seq<CodecAction>,
    at: int,
    last_block: bool,
)
    requires
        m.wf(),
        m.decode_block(events, at) is Ok,
        m.encode_block(m.decode_block(events, at).unwrap().block, last_block) is Ok,
        m.decode_block(events, at).unwrap().block.wf(),
        last_block ==> m.decode_block(events, at).unwrap().state.state.remaining() == 0,
    ensures
        block_supported(m, m.decode_block(events, at).unwrap().block, last_block),
{
    let d = m.decode_block(events, at).unwrap();
    let start = m.start_block();
    let code = spec_decode_difference(
        BlockType::DynamicHuff.spec_code(),
        correction_at(events, at),
    );
    match BlockType::spec_from_code(code) {
        None => {},
        Some(BlockType::Stored) => {},
        Some(block_type) => {
            let count = correction_at(events, at + 1);
            let blocksize = if count == 0 {
                m.max_token_count
            } else {
                (count - 1) as u32
            };
            let empty = BlockModel::empty(block_type);
            lemma_decode_tokens_extend(start, events, at + 2, blocksize, empty);
            lemma_decode_tokens_supported(start, start, events, at + 2, blocksize, empty);
        },
    }
}

/// The state after the tokens that were rebuilt is well-formed.
pub proof fn lemma_decode_tokens_wf(
    m: TokenPredictorModel,
    events: Seq<CodecAction>,
    at: int,
    blocksize: u32,
    block: BlockModel,
)
    requires
        m.wf(),
        m.decode_tokens(events, at, blocksize, block) is Ok,
    ensures
        m.decode_tokens(events, at, blocksize, block).unwrap().state.wf(),
    decreases m.state.remaining(),
{
    if m.state.remaining() <= 0 || m.count >= blocksize {
    } else {
        let t = m.decode_token(events, at).unwrap();
        lemma_decode_token_advances(m, events, at);
        lemma_decode_tokens_wf(
            t.state,
            events,
            at + t.used,
            blocksize,
            block.with_token(t.token, m.state.data[m.state.pos as int]),
        );
    }
}

/// The state after a block that was rebuilt is well-formed.
pub proof fn lemma_decode_block_wf(m: TokenPredictorModel, events: Seq<CodecAction>, at: int)
    requires
        m.wf(),
        m.decode_block(events, at) is Ok,
    ensures
        m.decode_block(events, at).unwrap().state.wf(),
        m.decode_block(events, at).unwrap().end >= at + 2,
{
    let start = m.start_block();
    let code = spec_decode_difference(
        BlockType::DynamicHuff.spec_code(),
        correction_at(events, at),
    );
    match BlockType::spec_from_code(code) {
        None => {},
        Some(BlockType::Stored) => {
            let len = value_at(events, at + 1);
            lemma_advance_wf(start.state, len as u32);
            crate::hash_chain::lemma_update_primed(
                start.state.chain,
                start.state.data,
                start.state.pos as int,
                len as nat,
            );
        },
        Some(block_type) => {
            let count = correction_at(events, at + 1);
            let blocksize = if count == 0 {
                m.max_token_count
            } else {
                (count - 1) as u32
            };
            let empty = BlockModel::empty(block_type);
            lemma_decode_tokens_wf(start, events, at + 2, blocksize, empty);
            lemma_decode_tokens_end(start, events, at + 2, blocksize, empty);
        },
    }
}

} // verus!
