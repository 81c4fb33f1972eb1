//! Prediction of the tokens of a block: the literal/reference choices of a
//! zlib-like encoder are replayed on the plaintext, and a block is
//! described by the places where the encoder chose otherwise.

use vstd::prelude::*;
use crate::bit_helper::{DebugHash, byte_run, checksum_fold, checksum_step};
use crate::hash_chain::{HashChain, hash_of_three, lemma_skip_primed, lemma_update_primed, primed};
use crate::predictor_state::{MatchResult, PredictorModel, PredictorState, spec_min, min_u32};
use crate::preflate_constants::{MAX_MATCH, MIN_MATCH};
use crate::preflate_error::PreflateError;
use crate::preflate_parameter_estimator::PreflateParameters;
use crate::preflate_token::{
    BlockModel, BlockType, PreflateToken, PreflateTokenBlock, PreflateTokenReference,
};
use crate::statistical_codec::{
    CodecAction, CodecCorrection, CodecMisprediction, PredictionDecoder, PredictionEncoder,
    correction_at, decode_difference, encode_difference, extends, is_correction,
    is_misprediction, is_value, lemma_extends_at, misprediction_at, spec_decode_difference,
    value_at, zigzag,
};

verus! {

/// The state of the token predictor as a mathematical value.
pub struct TokenPredictorModel {
    pub state: PredictorModel,
    /// The match that a lazy search found one byte ahead.
    pub pending: Option<PreflateTokenReference>,
    /// Number of tokens of the current block so far.
    pub count: u32,
    /// Number of tokens after which the encoder closes a block.
    pub max_token_count: u32,
}

/// What the predictor expects next, and the match it keeps for the token after.
pub struct Prediction {
    pub token: PreflateToken,
    pub pending: Option<PreflateTokenReference>,
}

impl TokenPredictorModel {
    /// `m` is a match that can stand `offset` bytes after the cursor.
    pub open spec fn fits(self, m: PreflateTokenReference, offset: int) -> bool {
        &&& m.wf()
        &&& m.len <= self.state.remaining() - offset
        &&& m.dist <= self.state.pos + offset
    }

    /// The search state is well-formed, the rolling hash holds the two
    /// bytes at the cursor, the pending match can stand `offset` bytes
    /// after the cursor, and no more tokens were counted than bytes were
    /// passed.
    pub open spec fn wf_at(self, offset: int) -> bool {
        &&& self.state.wf()
        &&& self.count <= self.state.pos
        &&& primed(self.state.chain, self.state.data, self.state.pos as int)
        &&& match self.pending {
            Some(m) => self.fits(m, offset) && !m.irregular258,
            None => true,
        }
    }

    pub open spec fn wf(self) -> bool {
        self.wf_at(0)
    }

    /// Number of chain entries the first search looks at; 0 for the bound of the options.
    pub open spec fn first_depth(self) -> u32 {
        if self.state.params.zlib_compatible {
            0
        } else {
            1u32 << self.state.params.log2_of_max_chain_depth_m1
        }
    }

    /// Number of chain entries a search looks at where the first one failed
    /// or a lazy match is tried.
    pub open spec fn second_depth(self) -> u32 {
        2u32 << self.state.params.log2_of_max_chain_depth_m1
    }

    /// Number of chain entries the lazy search looks at.
    pub open spec fn lazy_depth(self) -> u32 {
        if self.state.params.zlib_compatible {
            0
        } else {
            self.second_depth()
        }
    }

    /// Length of the run of the byte at the cursor that starts one byte after it.
    pub open spec fn rle_len(self) -> u32 {
        byte_run(
            self.state.data,
            self.state.pos + 1,
            self.state.data[self.state.pos as int],
            spec_min(self.state.remaining() - 1, MAX_MATCH as int),
        ) as u32
    }

    /// The match one byte after the cursor that competes with the match
    /// `m` at the cursor: the one the chain gives, or the run of the byte
    /// at the cursor where that is longer than both.
    #[verifier::opaque]
    pub open spec fn lazy_match(self, m: PreflateTokenReference) -> MatchResult {
        let found = self.state.match_token(self.state.next_hash(), m.len, 1, self.lazy_depth());
        let found_len = match found {
            MatchResult::Success(s) => s.len,
            _ => 0,
        };
        let mask = self.state.params.hash_mask as u32;
        if self.state.next_hash() & mask == self.state.cur_hash() & mask && self.rle_len() > m.len
            && self.rle_len() > found_len {
            MatchResult::Success(
                PreflateTokenReference { len: self.rle_len(), dist: 1, irregular258: false },
            )
        } else {
            found
        }
    }

    /// What an encoder with the options of the predictor does with the
    /// match `m` at the cursor.
    #[verifier::opaque]
    pub open spec fn choose_token(self, m: PreflateTokenReference) -> Prediction {
        let params = self.state.params;
        if m.len < MIN_MATCH {
            Prediction { token: PreflateToken::Literal, pending: None }
        } else if params.is_fast_compressor {
            Prediction { token: PreflateToken::Reference(m), pending: None }
        } else if m.len == 3 && m.dist > params.max_dist_3_matches {
            Prediction { token: PreflateToken::Literal, pending: None }
        } else if m.len < params.max_lazy && self.state.remaining() >= m.len + 2 {
            match self.lazy_match(m) {
                MatchResult::Success(next) if next.len > m.len => Prediction {
                    token: PreflateToken::Literal,
                    pending: if params.zlib_compatible {
                        Some(next)
                    } else {
                        None
                    },
                },
                _ => Prediction { token: PreflateToken::Reference(m), pending: None },
            }
        } else {
            Prediction { token: PreflateToken::Reference(m), pending: None }
        }
    }

    /// The token that the predictor expects at the cursor.
    #[verifier::opaque]
    pub open spec fn predict_token(self) -> Prediction {
        if self.state.pos == 0 || self.state.remaining() < MIN_MATCH {
            Prediction { token: PreflateToken::Literal, pending: self.pending }
        } else {
            let m = match self.pending {
                Some(p) => MatchResult::Success(p),
                None => self.state.match_token(self.state.cur_hash(), 0, 0, self.first_depth()),
            };
            match m {
                MatchResult::Success(found) => self.choose_token(found),
                _ => Prediction { token: PreflateToken::Literal, pending: None },
            }
        }
    }

    /// The reference that a deeper search finds at the cursor where a
    /// literal was predicted.
    #[verifier::opaque]
    pub open spec fn repredict_reference(self) -> Result<PreflateTokenReference, PreflateError> {
        if self.state.pos == 0 || self.state.remaining() < MIN_MATCH {
            Err(PreflateError::NoSpaceForReference)
        } else {
            match self.state.match_token(self.state.cur_hash(), 0, 0, self.second_depth()) {
                MatchResult::Success(m) if m.len >= MIN_MATCH => Ok(m),
                _ => Err(PreflateError::NoMatchFound),
            }
        }
    }

    /// The state after `token` was taken as the next token: its bytes are
    /// entered into the hash chain. A fast encoder enters only the first
    /// position of a long match.
    pub open spec fn commit_token(self, token: PreflateToken) -> TokenPredictorModel {
        let params = self.state.params;
        TokenPredictorModel {
            state: match token {
                PreflateToken::Literal => self.state.update_hash(1),
                PreflateToken::Reference(t) => if params.is_fast_compressor && t.len
                    > params.max_lazy {
                    self.state.skip_hash(t.len)
                } else {
                    self.state.update_hash(t.len)
                },
            },
            count: (self.count + 1) as u32,
            ..self
        }
    }

    /// The state with another pending match.
    pub open spec fn with_pending(self, pending: Option<PreflateTokenReference>) -> TokenPredictorModel {
        TokenPredictorModel { pending, ..self }
    }

    /// The state at the start of a block.
    pub open spec fn start_block(self) -> TokenPredictorModel {
        TokenPredictorModel { pending: None, count: 0, ..self }
    }
}

/// The events that describe a run of tokens, and the state after them.
pub struct Encoded {
    pub events: Seq<CodecAction>,
    pub state: TokenPredictorModel,
}

/// A token that was rebuilt from events, the number of events that it
/// took, and the state after it.
pub struct DecodedToken {
    pub token: PreflateToken,
    pub used: int,
    pub state: TokenPredictorModel,
}

/// A block that was rebuilt from events, the place of the first event
/// after it, and the state after it.
pub struct DecodedBlock {
    pub block: BlockModel,
    pub end: int,
    pub state: TokenPredictorModel,
}

impl TokenPredictorModel {
    /// The event for the distance of `target` where `predicted` was expected.
    pub open spec fn encode_distance(
        self,
        predicted: PreflateTokenReference,
        target: PreflateTokenReference,
    ) -> Result<CodecAction, PreflateError> {
        if predicted.len != target.len {
            match self.state.calculate_hops(target) {
                Ok(hops) => Ok(
                    CodecAction::Correction(CodecCorrection::DistAfterLenCorrection, hops),
                ),
                Err(e) => Err(e),
            }
        } else if predicted.dist != target.dist {
            match self.state.calculate_hops(target) {
                Ok(hops) => Ok(CodecAction::Correction(CodecCorrection::DistOnlyCorrection, hops)),
                Err(e) => Err(e),
            }
        } else {
            Ok(CodecAction::Correction(CodecCorrection::DistOnlyCorrection, 0))
        }
    }

    /// The events that turn the reference `predicted` into `target`.
    pub open spec fn encode_reference(
        self,
        predicted: PreflateTokenReference,
        target: PreflateTokenReference,
    ) -> Result<Seq<CodecAction>, PreflateError> {
        match self.encode_distance(predicted, target) {
            Err(e) => Err(e),
            Ok(dist_event) => {
                let events = seq![
                    CodecAction::Correction(
                        CodecCorrection::LenCorrection,
                        zigzag(target.len - predicted.len) as u32,
                    ),
                    dist_event,
                ];
                if target.len == 258 {
                    Ok(
                        events.push(
                            CodecAction::Misprediction(
                                CodecMisprediction::IrregularLen258,
                                target.irregular258,
                            ),
                        ),
                    )
                } else {
                    Ok(events)
                }
            },
        }
    }

    /// The events that describe `target` as the next token, and the state after it.
    #[verifier::opaque]
    pub open spec fn encode_token(self, target: PreflateToken) -> Result<Encoded, PreflateError> {
        if target.spec_len() > self.state.remaining() {
            Err(PreflateError::PlaintextTooShort)
        } else {
            let p = self.predict_token();
            let predicted = self.with_pending(p.pending);
            match target {
                PreflateToken::Literal => Ok(
                    Encoded {
                        events: seq![
                            match p.token {
                                PreflateToken::Literal => CodecAction::Misprediction(
                                    CodecMisprediction::LiteralPredictionWrong,
                                    false,
                                ),
                                PreflateToken::Reference(_) => CodecAction::Misprediction(
                                    CodecMisprediction::ReferencePredictionWrong,
                                    true,
                                ),
                            },
                        ],
                        state: predicted.commit_token(target),
                    },
                ),
                PreflateToken::Reference(t) => match p.token {
                    PreflateToken::Literal => match predicted.repredict_reference() {
                        Err(e) => Err(e),
                        Ok(r) => match self.encode_reference(r, t) {
                            Err(e) => Err(e),
                            Ok(events) => Ok(
                                Encoded {
                                    events: seq![
                                        CodecAction::Misprediction(
                                            CodecMisprediction::LiteralPredictionWrong,
                                            true,
                                        ),
                                    ].add(events),
                                    state: predicted.with_pending(None).commit_token(target),
                                },
                            ),
                        },
                    },
                    PreflateToken::Reference(r) => match self.encode_reference(r, t) {
                        Err(e) => Err(e),
                        Ok(events) => Ok(
                            Encoded {
                                events: seq![
                                    CodecAction::Misprediction(
                                        CodecMisprediction::ReferencePredictionWrong,
                                        false,
                                    ),
                                ].add(events),
                                state: predicted.commit_token(target),
                            },
                        ),
                    },
                },
            }
        }
    }

    /// The events that describe the first `n` tokens of `tokens`, and the state after them.
    pub open spec fn encode_tokens(self, tokens: Seq<PreflateToken>, n: nat) -> Result<
        Encoded,
        PreflateError,
    >
        decreases n,
    {
        if n == 0 {
            Ok(Encoded { events: Seq::empty(), state: self })
        } else {
            match self.encode_tokens(tokens, (n - 1) as nat) {
                Err(e) => Err(e),
                Ok(before) => match before.state.encode_token(tokens[n - 1]) {
                    Err(e) => Err(e),
                    Ok(last) => Ok(
                        Encoded { events: before.events.add(last.events), state: last.state },
                    ),
                },
            }
        }
    }

    /// Number of the first `n` tokens that are described before one of
    /// them fails, where one does.
    pub open spec fn tokens_before_failure(self, tokens: Seq<PreflateToken>, n: nat) -> nat
        decreases n,
    {
        if n == 0 {
            0
        } else if self.encode_tokens(tokens, (n - 1) as nat) is Err {
            self.tokens_before_failure(tokens, (n - 1) as nat)
        } else {
            (n - 1) as nat
        }
    }

    /// The place in `block` of the token at which its description fails.
    pub open spec fn failing_token(self, block: BlockModel) -> nat {
        if block.block_type == BlockType::Stored || block.tokens.len() > self.state.remaining() {
            0
        } else {
            self.start_block().tokens_before_failure(block.tokens, block.tokens.len())
        }
    }

    /// The number sent for the token count of a block: 0 where the block
    /// ends as the encoder is expected to end it.
    pub open spec fn token_count_code(self, token_count: nat, last_block: bool) -> u32 {
        if (!last_block && token_count != self.max_token_count) || token_count
            > self.max_token_count {
            (token_count + 1) as u32
        } else {
            0
        }
    }

    /// The events that describe `block`, and the state after it.
    pub open spec fn encode_block(self, block: BlockModel, last_block: bool) -> Result<
        Encoded,
        PreflateError,
    > {
        let start = self.start_block();
        let type_event = CodecAction::Correction(
            CodecCorrection::BlockTypeCorrection,
            zigzag(block.block_type.spec_code() - BlockType::DynamicHuff.spec_code()) as u32,
        );
        if block.block_type == BlockType::Stored {
            if block.uncompressed_len > self.state.remaining() {
                Err(PreflateError::PlaintextTooShort)
            } else {
                Ok(
                    Encoded {
                        events: seq![
                            type_event,
                            CodecAction::Value(block.uncompressed_len as u16, 16),
                            CodecAction::Correction(
                                CodecCorrection::NonZeroPadding,
                                block.padding_bits as u32,
                            ),
                        ],
                        state: TokenPredictorModel {
                            state: start.state.update_hash(block.uncompressed_len),
                            ..start
                        },
                    },
                )
            }
        } else if block.tokens.len() > self.state.remaining() {
            Err(PreflateError::PlaintextTooShort)
        } else {
            match start.encode_tokens(block.tokens, block.tokens.len()) {
                Err(e) => Err(e),
                Ok(tokens) => Ok(
                    Encoded {
                        events: seq![
                            type_event,
                            CodecAction::Correction(
                                CodecCorrection::TokenCount,
                                self.token_count_code(block.tokens.len(), last_block),
                            ),
                        ].add(tokens.events),
                        state: tokens.state,
                    },
                ),
            }
        }
    }

    /// The reference that the events from place `at` on make of `predicted`,
    /// and the number of events that it takes: the correction of the
    /// length, the correction of the distance, which is of one kind where
    /// the length was corrected and of another where it was not, and for a
    /// length of 258 the flag of the length code.
    pub open spec fn decode_reference(
        self,
        predicted: PreflateTokenReference,
        events: Seq<CodecAction>,
        at: int,
    ) -> Result<(PreflateTokenReference, int), PreflateError> {
        let new_len = spec_decode_difference(predicted.len, correction_at(events, at));
        let hops = correction_at(events, at + 1);
        if !is_correction(events, at, CodecCorrection::LenCorrection) {
            Err(PreflateError::EventsOutOfStep)
        } else if !is_correction(
            events,
            at + 1,
            if new_len != predicted.len {
                CodecCorrection::DistAfterLenCorrection
            } else {
                CodecCorrection::DistOnlyCorrection
            },
        ) {
            Err(PreflateError::EventsOutOfStep)
        } else {
            let corrected = if new_len != predicted.len || hops != 0 {
                match self.state.hop_match(new_len, hops) {
                    Ok(dist) => Ok(
                        PreflateTokenReference { len: new_len, dist, irregular258: false },
                    ),
                    Err(e) => Err(e),
                }
            } else {
                Ok(predicted)
            };
            match corrected {
                Err(e) => Err(e),
                Ok(r) => if r.len == 258 {
                    if !is_misprediction(events, at + 2, CodecMisprediction::IrregularLen258) {
                        Err(PreflateError::EventsOutOfStep)
                    } else {
                        Ok(
                            (
                                PreflateTokenReference {
                                    irregular258: r.irregular258 || misprediction_at(
                                        events,
                                        at + 2,
                                    ),
                                    ..r
                                },
                                3,
                            ),
                        )
                    }
                } else {
                    Ok((r, 2))
                },
            }
        }
    }

    /// The reference token that the events from place `at` on make of
    /// `predicted`, taken as the next token.
    pub open spec fn decode_reference_token(
        self,
        predicted: PreflateTokenReference,
        events: Seq<CodecAction>,
        at: int,
    ) -> Result<DecodedToken, PreflateError> {
        match self.decode_reference(predicted, events, at + 1) {
            Err(e) => Err(e),
            Ok((r, used)) => Ok(
                DecodedToken {
                    token: PreflateToken::Reference(r),
                    used: 1 + used,
                    state: self.commit_token(PreflateToken::Reference(r)),
                },
            ),
        }
    }

    /// The next token as the events from place `at` on describe it: the
    /// first event says whether the prediction, a literal or a reference,
    /// was wrong.
    #[verifier::opaque]
    pub open spec fn decode_token(self, events: Seq<CodecAction>, at: int) -> Result<
        DecodedToken,
        PreflateError,
    > {
        let p = self.predict_token();
        let predicted = self.with_pending(p.pending);
        let wrong = misprediction_at(events, at);
        let literal = DecodedToken {
            token: PreflateToken::Literal,
            used: 1,
            state: predicted.commit_token(PreflateToken::Literal),
        };
        match p.token {
            PreflateToken::Literal => if !is_misprediction(
                events,
                at,
                CodecMisprediction::LiteralPredictionWrong,
            ) {
                Err(PreflateError::EventsOutOfStep)
            } else if !wrong {
                Ok(literal)
            } else {
                match predicted.repredict_reference() {
                    Err(e) => Err(e),
                    Ok(r) => predicted.with_pending(None).decode_reference_token(r, events, at),
                }
            },
            PreflateToken::Reference(r) => if !is_misprediction(
                events,
                at,
                CodecMisprediction::ReferencePredictionWrong,
            ) {
                Err(PreflateError::EventsOutOfStep)
            } else if wrong {
                Ok(literal)
            } else {
                predicted.decode_reference_token(r, events, at)
            },
        }
    }

    /// The tokens that the events from place `at` on describe, added to
    /// `block`, up to the end of the plaintext or to `blocksize` tokens.
    pub open spec fn decode_tokens(
        self,
        events: Seq<CodecAction>,
        at: int,
        blocksize: u32,
        block: BlockModel,
    ) -> Result<DecodedBlock, PreflateError>
        decreases self.state.remaining(),
    {
        if self.state.remaining() <= 0 || self.count >= blocksize {
            Ok(DecodedBlock { block, end: at, state: self })
        } else {
            match self.decode_token(events, at) {
                Err(e) => Err(e),
                Ok(t) => if 0 <= t.state.state.remaining() < self.state.remaining() {
                    t.state.decode_tokens(
                        events,
                        at + t.used,
                        blocksize,
                        block.with_token(t.token, self.state.data[self.state.pos as int]),
                    )
                } else {
                    Ok(DecodedBlock { block, end: at, state: self })
                },
            }
        }
    }

    /// The block that the events from place `at` on describe: the
    /// correction of the block type, then for a stored block its length
    /// in 16 bits and its padding, for another block the token count and
    /// the tokens.
    pub open spec fn decode_block(self, events: Seq<CodecAction>, at: int) -> Result<
        DecodedBlock,
        PreflateError,
    > {
        let start = self.start_block();
        let code = spec_decode_difference(
            BlockType::DynamicHuff.spec_code(),
            correction_at(events, at),
        );
        match BlockType::spec_from_code(code) {
            _ if !is_correction(events, at, CodecCorrection::BlockTypeCorrection) => Err(
                PreflateError::EventsOutOfStep,
            ),
            None => Err(PreflateError::InvalidBlockType),
            Some(BlockType::Stored) => {
                let len = value_at(events, at + 1);
                let padding = correction_at(events, at + 2);
                if !is_value(events, at + 1, 16) || !is_correction(
                    events,
                    at + 2,
                    CodecCorrection::NonZeroPadding,
                ) {
                    Err(PreflateError::EventsOutOfStep)
                } else if padding > 7 {
                    Err(PreflateError::InvalidHeader)
                } else if len > self.state.remaining() {
                    Err(PreflateError::PlaintextTooShort)
                } else {
                    Ok(
                        DecodedBlock {
                            block: BlockModel {
                                uncompressed_len: len as u32,
                                padding_bits: padding as u8,
                                ..BlockModel::empty(BlockType::Stored)
                            },
                            end: at + 3,
                            state: TokenPredictorModel {
                                state: start.state.update_hash(len as u32),
                                ..start
                            },
                        },
                    )
                }
            },
            Some(block_type) => {
                let count = correction_at(events, at + 1);
                let blocksize = if count == 0 {
                    self.max_token_count
                } else {
                    (count - 1) as u32
                };
                if !is_correction(events, at + 1, CodecCorrection::TokenCount) {
                    Err(PreflateError::EventsOutOfStep)
                } else {
                    start.decode_tokens(events, at + 2, blocksize, BlockModel::empty(block_type))
                }
            },
        }
    }

    /// Number of tokens of the block that were rebuilt when the
    /// rebuilding of tokens from place `at` on ended or failed.
    pub open spec fn tokens_rebuilt(self, events: Seq<CodecAction>, at: int, blocksize: u32) -> u32
        decreases self.state.remaining(),
    {
        if self.state.remaining() <= 0 || self.count >= blocksize {
            self.count
        } else {
            match self.decode_token(events, at) {
                Err(_) => self.count,
                Ok(t) => if 0 <= t.state.state.remaining() < self.state.remaining() {
                    t.state.tokens_rebuilt(events, at + t.used, blocksize)
                } else {
                    self.count
                },
            }
        }
    }

    /// Number of tokens that were rebuilt when the rebuilding of the
    /// block at place `at` ended or failed: none where it failed before
    /// the first token.
    pub open spec fn block_tokens_rebuilt(self, events: Seq<CodecAction>, at: int) -> u32 {
        let code = spec_decode_difference(
            BlockType::DynamicHuff.spec_code(),
            correction_at(events, at),
        );
        let count = correction_at(events, at + 1);
        let blocksize = if count == 0 {
            self.max_token_count
        } else {
            (count - 1) as u32
        };
        if !is_correction(events, at, CodecCorrection::BlockTypeCorrection) {
            0
        } else if BlockType::spec_from_code(code) is None || BlockType::spec_from_code(code)
            == Some(BlockType::Stored) {
            0
        } else if !is_correction(events, at + 1, CodecCorrection::TokenCount) {
            0
        } else {
            self.start_block().tokens_rebuilt(events, at + 2, blocksize)
        }
    }
}

/// What a rebuilding that gave `r`, ended at the place `end` and left the
/// state `state` made of the events.
pub open spec fn block_outcome(
    r: Result<PreflateTokenBlock, PreflateError>,
    end: int,
    state: TokenPredictorModel,
) -> Result<DecodedBlock, PreflateError> {
    match r {
        Ok(block) => Ok(DecodedBlock { block: block@, end, state }),
        Err(e) => Err(e),
    }
}

/// The predictor of the tokens of one stream.
pub struct TokenPredictor<'a> {
    pub state: PredictorState<'a>,
    pub params: PreflateParameters,
    pub pending_reference: Option<PreflateTokenReference>,
    pub current_token_count: u32,
    pub max_token_count: u32,
}

impl<'a> View for TokenPredictor<'a> {
    type V = TokenPredictorModel;

    open spec fn view(&self) -> TokenPredictorModel {
        TokenPredictorModel {
            state: self.state@,
            pending: self.pending_reference,
            count: self.current_token_count,
            max_token_count: self.max_token_count,
        }
    }
}

impl<'a> TokenPredictor<'a> {
    /// The model is well-formed with the pending match `offset` bytes
    /// after the cursor.
    pub open spec fn wf_at(&self, offset: int) -> bool {
        &&& self.state.wf()
        &&& self@.wf_at(offset)
        &&& self.params == self.state.params
    }

    pub open spec fn wf(&self) -> bool {
        self.wf_at(0)
    }

    /// The state of a predictor for `data` whose first `offset` bytes were
    /// passed before the first block.
    pub open spec fn spec_new(data: Seq<u8>, params: PreflateParameters, offset: u32) -> TokenPredictorModel {
        let empty = HashChain::spec_new(params.hash_shift, params.hash_mask, data.len() as u32);
        let primed = if data.len() >= 2 {
            empty.roll(data[0]).roll(data[1])
        } else {
            empty
        };
        TokenPredictorModel {
            state: (PredictorModel { data, pos: 0, chain: primed, params }).update_hash(offset),
            pending: None,
            count: 0,
            max_token_count: params.max_token_count as u32,
        }
    }

    /// A predictor for `uncompressed`. The first `offset` bytes are passed
    /// at once: they belong to what came before the first block.
    pub fn new(uncompressed: &'a [u8], params: &PreflateParameters, offset: u32) -> (r: Self)
        requires
            params.wf(),
            uncompressed@.len() < u32::MAX,
            offset <= uncompressed@.len(),
        ensures
            r.wf(),
            r@ == Self::spec_new(uncompressed@, *params, offset),
    {
        let mut state = PredictorState::new(uncompressed, params);
        if state.available_input_size() >= 2 {
            let b0: u8 = uncompressed[0];
            let b1: u8 = uncompressed[1];
            state.update_running_hash(b0);
            state.update_running_hash(b1);
        }
        proof {
            assert(primed(state@.chain, state@.data, 0));
            lemma_update_primed(state@.chain, state@.data, 0, offset as nat);
        }
        state.update_hash(offset);
        TokenPredictor {
            state,
            params: *params,
            pending_reference: None,
            current_token_count: 0,
            max_token_count: params.max_token_count as u32,
        }
    }

    /// A checksum over the state of the hash chain.
    pub fn checksum(&self) -> (r: DebugHash)
        ensures
            r.hash == checksum_fold(
                checksum_step(0, self@.state.chain.running_hash as u64),
                self@.state.chain.head,
            ),
    {
        let mut c = DebugHash::default();
        self.state.checksum(&mut c);
        c
    }

    /// The plaintext is used up.
    pub fn input_eof(&self) -> (r: bool)
        requires
            self.state.wf(),
        ensures
            r == (self@.state.remaining() == 0),
    {
        self.state.available_input_size() == 0
    }

    /// The match one byte after the cursor that competes with `m`.
    fn lazy_match(&self, m: &PreflateTokenReference, hash: u32) -> (r: MatchResult)
        requires
            self.state.wf(),
            self@.state.remaining() >= m.len + 2,
            3 <= m.len,
            hash == self@.state.cur_hash(),
        ensures
            r == self@.lazy_match(*m),
            r matches MatchResult::Success(next) ==> self@.fits(next, 1) && next.len > m.len
                && !next.irregular258,
    {
        reveal(TokenPredictorModel::lazy_match);
        let hash_next: u32 = self.state.calculate_hash_next();
        let depth: u32 = if self.state.params.zlib_compatible {
            0
        } else {
            2u32 << self.state.params.log2_of_max_chain_depth_m1
        };
        let mut match_next = self.state.match_token(hash_next, m.len, 1, depth);
        if self.state.hash_equal(hash_next, hash) {
            let max_size: u32 = min_u32(self.state.available_input_size() - 1, MAX_MATCH);
            let mut rle: u32 = 0;
            let c: &[u8] = self.state.input_cursor();
            let b: u8 = c[0];
            let ghost data = self@.state.data;
            let ghost pos = self@.state.pos as int;
            while rle < max_size && c[1 + rle as usize] == b
                invariant
                    rle <= max_size,
                    max_size < c@.len(),
                    c@ == data.skip(pos),
                    pos + c@.len() == data.len(),
                    0 <= pos,
                    b == data[pos],
                    byte_run(data, pos + 1, b, max_size as int) == rle + byte_run(
                        data,
                        pos + 1 + rle,
                        b,
                        max_size - rle,
                    ),
                decreases max_size - rle,
            {
                rle += 1;
            }
            let match_next_len: u32 = match match_next {
                MatchResult::Success(s) => s.len,
                _ => 0,
            };
            if rle > m.len && rle > match_next_len {
                match_next = MatchResult::Success(PreflateTokenReference::new(rle, 1, false));
            }
        }
        match_next
    }

    /// What an encoder with the options of the predictor does with the
    /// match `m` at the cursor.
    fn choose_token(&self, m: PreflateTokenReference, hash: u32) -> (r: Prediction)
        requires
            self.state.wf(),
            self.params == self.state.params,
            self@.state.remaining() >= 3,
            hash == self@.state.cur_hash(),
            m.len >= MIN_MATCH ==> self@.fits(m, 0),
        ensures
            r == self@.choose_token(m),
            r.token matches PreflateToken::Reference(t) ==> self@.fits(t, 0) && r.pending.is_none(),
            r.pending matches Some(p) ==> self@.fits(p, 1) && !p.irregular258,
    {
        reveal(TokenPredictorModel::choose_token);
        if m.len < MIN_MATCH {
            return Prediction { token: PreflateToken::Literal, pending: None };
        }
        if self.params.is_fast_compressor {
            return Prediction { token: PreflateToken::Reference(m), pending: None };
        }
        // Too short and too far away to be worth a reference.
        if m.len == 3 && m.dist > self.params.max_dist_3_matches as u32 {
            return Prediction { token: PreflateToken::Literal, pending: None };
        }
        // A longer match that starts at the next byte wins over this one.
        if m.len < self.params.max_lazy && self.state.available_input_size() - 2 >= m.len {
            let match_next = self.lazy_match(&m, hash);
            if let MatchResult::Success(next) = match_next {
                if next.len > m.len {
                    let pending = if self.params.zlib_compatible {
                        Some(next)
                    } else {
                        None
                    };
                    return Prediction { token: PreflateToken::Literal, pending };
                }
            }
        }
        Prediction { token: PreflateToken::Reference(m), pending: None }
    }

    /// The token that the predictor expects at the cursor. A match found
    /// one byte ahead is kept for the token after.
    pub fn predict_token(&mut self) -> (r: PreflateToken)
        requires
            old(self).wf(),
        ensures
            r == old(self)@.predict_token().token,
            final(self)@ == old(self)@.with_pending(old(self)@.predict_token().pending),
            final(self).state == old(self).state,
            final(self).params == old(self).params,
            r matches PreflateToken::Reference(t) ==> final(self).wf() && final(self)@.fits(t, 0)
                && final(self)@.pending.is_none(),
            r == PreflateToken::Literal ==> final(self).wf_at(1),
    {
        reveal(TokenPredictorModel::predict_token);
        if self.state.current_input_pos() == 0 || self.state.available_input_size() < MIN_MATCH {
            return PreflateToken::Literal;
        }
        let hash: u32 = self.state.calculate_hash();
        let depth: u32 = if self.params.zlib_compatible {
            0
        } else {
            1u32 << self.params.log2_of_max_chain_depth_m1
        };
        let m = match self.pending_reference {
            Some(pending) => MatchResult::Success(pending),
            None => self.state.match_token(hash, 0, 0, depth),
        };
        match m {
            MatchResult::Success(found) => {
                let p = self.choose_token(found, hash);
                self.pending_reference = p.pending;
                p.token
            },
            _ => {
                self.pending_reference = None;
                PreflateToken::Literal
            },
        }
    }

    /// Searches deeper for a reference at a place where a literal was predicted.
    pub fn repredict_reference(&mut self) -> (r: Result<PreflateTokenReference, PreflateError>)
        requires
            old(self).state.wf(),
            old(self).params == old(self).state.params,
        ensures
            r == old(self)@.repredict_reference(),
            final(self)@ == old(self)@.with_pending(None),
            final(self).state == old(self).state,
            final(self).params == old(self).params,
            r matches Ok(m) ==> final(self)@.fits(m, 0) && !m.irregular258,
            r matches Err(e) ==> e == PreflateError::NoSpaceForReference || e
                == PreflateError::NoMatchFound,
    {
        reveal(TokenPredictorModel::repredict_reference);
        if self.state.current_input_pos() == 0 || self.state.available_input_size() < MIN_MATCH {
            self.pending_reference = None;
            return Err(PreflateError::NoSpaceForReference);
        }
        let hash: u32 = self.state.calculate_hash();
        let match_token = self.state.match_token(
            hash,
            0,
            0,
            2u32 << self.params.log2_of_max_chain_depth_m1,
        );
        self.pending_reference = None;
        if let MatchResult::Success(m) = match_token {
            if m.len >= MIN_MATCH {
                return Ok(m);
            }
        }
        Err(PreflateError::NoMatchFound)
    }

    /// Takes `token` as the next token of the block and enters its bytes
    /// into the hash chain.
    pub fn commit_token(&mut self, token: &PreflateToken)
        requires
            old(self).state.wf(),
            old(self).params == old(self).state.params,
            old(self)@.count <= old(self)@.state.pos,
            token.spec_len() <= old(self)@.state.remaining(),
            token.spec_len() >= 1,
        ensures
            final(self)@ == old(self)@.commit_token(*token),
            final(self).state.wf(),
            final(self).params == final(self).state.params,
            final(self)@.count <= final(self)@.state.pos,
            final(self)@.state.pos == old(self)@.state.pos + token.spec_len(),
            final(self)@.state.data == old(self)@.state.data,
            final(self)@.state.params == old(self)@.state.params,
            primed(old(self)@.state.chain, old(self)@.state.data, old(self)@.state.pos as int)
                ==> primed(
                final(self)@.state.chain,
                final(self)@.state.data,
                final(self)@.state.pos as int,
            ),
            old(self).wf_at(1) && *token == PreflateToken::Literal ==> final(self).wf(),
            old(self).wf() && old(self)@.pending is None ==> final(self).wf(),
    {
        proof {
            if primed(self@.state.chain, self@.state.data, self@.state.pos as int) {
                lemma_update_primed(
                    self@.state.chain,
                    self@.state.data,
                    self@.state.pos as int,
                    token.spec_len() as nat,
                );
                lemma_skip_primed(
                    self@.state.chain,
                    self@.state.data,
                    self@.state.pos as int,
                    token.spec_len() as nat,
                );
            }
        }
        match token {
            PreflateToken::Literal => {
                self.state.update_hash(1);
            },
            PreflateToken::Reference(t) => {
                // A fast encoder does not enter a long match into its
                // dictionary, and keeps the limit in `max_lazy`.
                if self.params.is_fast_compressor && t.len > self.params.max_lazy {
                    self.state.skip_hash(t.len);
                } else {
                    self.state.update_hash(t.len);
                }
            },
        }
        self.current_token_count += 1;
    }

    /// Describes `target` as the next token of the block: whether it was
    /// predicted, and by how much the prediction is off.
    fn encode_token<D: PredictionEncoder>(&mut self, target: &PreflateToken, codec: &mut D) -> (r:
        Result<(), PreflateError>)
        requires
            old(self).wf(),
            target.wf(),
        ensures
            match r {
                Ok(()) => {
                    &&& old(self)@.encode_token(*target) matches Ok(enc) && final(codec).events()
                        == old(codec).events().add(enc.events) && final(self)@ == enc.state
                    &&& final(self).wf()
                    &&& final(self)@.count == old(self)@.count + 1
                },
                Err(e) => {
                    &&& old(self)@.encode_token(*target) matches Err(e2) && e2 == e
                    &&& final(self)@.count == old(self)@.count
                },
            },
    {
        reveal(TokenPredictorModel::encode_token);
        if target.len() > self.state.available_input_size() {
            return Err(PreflateError::PlaintextTooShort);
        }
        let predicted_token = self.predict_token();
        match target {
            PreflateToken::Literal => {
                match predicted_token {
                    PreflateToken::Literal => {
                        codec.encode_misprediction(
                            CodecMisprediction::LiteralPredictionWrong,
                            false,
                        );
                    },
                    PreflateToken::Reference(_) => {
                        // The target is a literal, so a predicted reference is wrong.
                        codec.encode_misprediction(
                            CodecMisprediction::ReferencePredictionWrong,
                            true,
                        );
                    },
                }
                assert(codec.events() =~= old(codec).events().add(
                    old(self)@.encode_token(*target).unwrap().events,
                ));
            },
            PreflateToken::Reference(target_ref) => {
                let predicted_ref = match predicted_token {
                    PreflateToken::Literal => {
                        // The target is a reference, so a predicted literal is wrong.
                        codec.encode_misprediction(
                            CodecMisprediction::LiteralPredictionWrong,
                            true,
                        );
                        match self.repredict_reference() {
                            Ok(r) => r,
                            Err(e) => {
                                return Err(e);
                            },
                        }
                    },
                    PreflateToken::Reference(r) => {
                        codec.encode_misprediction(
                            CodecMisprediction::ReferencePredictionWrong,
                            false,
                        );
                        r
                    },
                };
                codec.encode_correction(
                    CodecCorrection::LenCorrection,
                    encode_difference(predicted_ref.len(), target_ref.len()),
                );
                if predicted_ref.len() != target_ref.len() {
                    let rematch = match self.state.calculate_hops(target_ref) {
                        Ok(hops) => hops,
                        Err(e) => {
                            return Err(e);
                        },
                    };
                    codec.encode_correction(CodecCorrection::DistAfterLenCorrection, rematch);
                } else if target_ref.dist() != predicted_ref.dist() {
                    let rematch = match self.state.calculate_hops(target_ref) {
                        Ok(hops) => hops,
                        Err(e) => {
                            return Err(e);
                        },
                    };
                    codec.encode_correction(CodecCorrection::DistOnlyCorrection, rematch);
                } else {
                    codec.encode_correction(CodecCorrection::DistOnlyCorrection, 0);
                }
                if target_ref.len() == 258 {
                    codec.encode_misprediction(
                        CodecMisprediction::IrregularLen258,
                        target_ref.get_irregular258(),
                    );
                }
                assert(codec.events() =~= old(codec).events().add(
                    old(self)@.encode_token(*target).unwrap().events,
                ));
            },
        }
        self.commit_token(target);
        Ok(())
    }

    /// Describes `block` to `codec` as the corrections of what the
    /// predictor expects, and passes the plaintext that the block covers.
    #[verifier::loop_isolation(false)]
    pub fn predict_block<D: PredictionEncoder>(
        &mut self,
        block: &PreflateTokenBlock,
        codec: &mut D,
        last_block: bool,
    ) -> (r: Result<(), PreflateError>)
        requires
            old(self).wf(),
            block@.wf(),
        ensures
            match r {
                Ok(()) => {
                    &&& old(self)@.encode_block(block@, last_block) matches Ok(enc) && final(
                        codec
                    ).events() == old(codec).events().add(enc.events) && final(self)@ == enc.state
                    &&& final(self).wf()
                },
                Err(e) => {
                    &&& old(self)@.encode_block(block@, last_block) matches Err(e2) && e2 == e
                    &&& final(self)@.count == old(self)@.failing_token(block@)
                },
            },
    {
        self.current_token_count = 0;
        self.pending_reference = None;
        let ghost start = self@;
        codec.encode_verify_state("blocktypestart", 0);
        codec.encode_correction(
            CodecCorrection::BlockTypeCorrection,
            encode_difference(BlockType::DynamicHuff.code(), block.block_type.code()),
        );
        if block.block_type == BlockType::Stored {
            if block.uncompressed_len > self.state.available_input_size() {
                return Err(PreflateError::PlaintextTooShort);
            }
            codec.encode_value(block.uncompressed_len as u16, 16);
            codec.encode_correction(CodecCorrection::NonZeroPadding, block.padding_bits as u32);
            proof {
                lemma_update_primed(
                    self@.state.chain,
                    self@.state.data,
                    self@.state.pos as int,
                    block.uncompressed_len as nat,
                );
            }
            self.state.update_hash(block.uncompressed_len);
            assert(codec.events() =~= old(codec).events().add(
                old(self)@.encode_block(block@, last_block).unwrap().events,
            ));
            return Ok(());
        }
        let n: usize = block.tokens.len();
        if n > self.state.available_input_size() as usize {
            return Err(PreflateError::PlaintextTooShort);
        }
        // The number of tokens is sent where the block ends at another
        // place than the encoder is expected to end it.
        if (!last_block && n != self.max_token_count as usize) || n > self.max_token_count as usize {
            codec.encode_correction(CodecCorrection::TokenCount, n as u32 + 1);
        } else {
            codec.encode_correction(CodecCorrection::TokenCount, 0);
        }
        codec.encode_verify_state("start", self.checksum().hash());
        let ghost head = codec.events();
        let mut i: usize = 0;
        while i < n
            invariant
                i <= n,
                n == block@.tokens.len(),
                block@.wf(),
                self.wf(),
                self@.count == i,
                start.encode_tokens(block@.tokens, i as nat) matches Ok(enc) && codec.events()
                    == head.add(enc.events) && self@ == enc.state,
            decreases n - i,
        {
            codec.encode_verify_state("token", i as u64);
            let ghost before = start.encode_tokens(block@.tokens, i as nat).unwrap();
            match self.encode_token(&block.tokens[i], codec) {
                Ok(()) => {},
                Err(e) => {
                    proof {
                        assert(start.encode_tokens(block@.tokens, (i + 1) as nat) is Err);
                        lemma_encode_tokens_err(start, block@.tokens, (i + 1) as nat, n as nat);
                        lemma_tokens_before_failure(start, block@.tokens, i as nat, n as nat);
                    }
                    return Err(e);
                },
            }
            proof {
                let last = before.state.encode_token(block@.tokens[i as int]).unwrap();
                assert(head.add(before.events).add(last.events) =~= head.add(
                    before.events.add(last.events),
                ));
            }
            i += 1;
        }
        codec.encode_verify_state("done", self.checksum().hash());
        proof {
            let enc = start.encode_tokens(block@.tokens, n as nat).unwrap();
            let all = old(self)@.encode_block(block@, last_block).unwrap().events;
            assert(codec.events() =~= old(codec).events().add(all));
        }
        Ok(())
    }

    /// Rebuilds the next token from the events of `codec` and adds it to `block`.
    #[verifier::rlimit(40)]
    fn recreate_token<D: PredictionDecoder>(
        &mut self,
        codec: &mut D,
        block: &mut PreflateTokenBlock,
    ) -> (r: Result<(), PreflateError>)
        requires
            old(self).wf(),
            old(self)@.state.remaining() > 0,
        ensures
            extends(final(codec).consumed(), old(codec).consumed()),
            final(codec).script() == old(codec).script(),
            old(codec).inv() ==> final(codec).inv(),
            match r {
                Ok(()) => {
                    &&& final(self).wf()
                    &&& 0 <= final(self)@.state.remaining() < old(self)@.state.remaining()
                    &&& final(block)@.tokens.len() == old(block)@.tokens.len() + 1
                    &&& final(block)@.tokens.last().wf()
                    &&& final(block)@ == old(block)@.with_token(
                        final(block)@.tokens.last(),
                        old(self)@.state.data[old(self)@.state.pos as int],
                    )
                    &&& forall|ev2: Seq<CodecAction>|
                        extends(ev2, final(codec).consumed()) ==> (#[trigger] old(
                            self
                        )@.decode_token(ev2, old(codec).consumed().len() as int)) == Ok::<
                            DecodedToken,
                            PreflateError,
                        >(
                            DecodedToken {
                                token: final(block)@.tokens.last(),
                                used: final(codec).consumed().len() - old(codec).consumed().len(),
                                state: final(self)@,
                            },
                        )
                },
                Err(e) => forall|ev2: Seq<CodecAction>|
                    extends(ev2, final(codec).consumed()) ==> (#[trigger] old(self)@.decode_token(
                        ev2,
                        old(codec).consumed().len() as int,
                    )) == Err::<DecodedToken, PreflateError>(e),
            },
            r != Err::<(), PreflateError>(PreflateError::EventsOutOfStep),
            r is Err ==> final(self)@.count == old(self)@.count,
    {
        reveal(TokenPredictorModel::decode_token);
        let ghost at = old(codec).consumed().len() as int;
        let ghost model = self@;
        let byte: u8 = self.state.input.cur_char(0);
        let mut predicted_ref: PreflateTokenReference;
        let literal_is_next: bool;
        match self.predict_token() {
            PreflateToken::Literal => {
                let not_ok = codec.decode_misprediction(CodecMisprediction::LiteralPredictionWrong);
                if !not_ok {
                    literal_is_next = true;
                    predicted_ref = PreflateTokenReference::new(0, 0, false);
                } else {
                    literal_is_next = false;
                    match self.repredict_reference() {
                        Ok(r) => {
                            predicted_ref = r;
                        },
                        Err(e) => {
                            proof {
                                assert forall|ev2: Seq<CodecAction>|
                                    extends(ev2, codec.consumed()) implies (
                                #[trigger] model.decode_token(ev2, at)) == Err::<
                                    DecodedToken,
                                    PreflateError,
                                >(e) by {
                                    lemma_extends_at(ev2, codec.consumed(), at);
                                }
                            }
                            return Err(e);
                        },
                    }
                }
            },
            PreflateToken::Reference(r) => {
                let not_ok = codec.decode_misprediction(
                    CodecMisprediction::ReferencePredictionWrong,
                );
                literal_is_next = not_ok;
                predicted_ref = r;
            },
        }
        if literal_is_next {
            block.add_literal(byte);
            self.commit_token(&PreflateToken::Literal);
            proof {
                assert forall|ev2: Seq<CodecAction>| extends(ev2, codec.consumed()) implies (
                #[trigger] model.decode_token(ev2, at)) == Ok::<DecodedToken, PreflateError>(
                    DecodedToken {
                        token: block@.tokens.last(),
                        used: codec.consumed().len() - at,
                        state: self@,
                    },
                ) by {
                    lemma_extends_at(ev2, codec.consumed(), at);
                }
            }
            return Ok(());
        }
        let ghost predicted = predicted_ref;
        let correction = codec.decode_correction(CodecCorrection::LenCorrection);
        let new_len: u32 = decode_difference(predicted_ref.len(), correction);
        let hops: u32 = if new_len != predicted_ref.len() {
            codec.decode_correction(CodecCorrection::DistAfterLenCorrection)
        } else {
            codec.decode_correction(CodecCorrection::DistOnlyCorrection)
        };
        if new_len != predicted_ref.len() || hops != 0 {
            match self.state.hop_match(new_len, hops) {
                Ok(dist) => {
                    predicted_ref = PreflateTokenReference::new(new_len, dist, false);
                },
                Err(e) => {
                    proof {
                        assert forall|ev2: Seq<CodecAction>|
                            extends(ev2, codec.consumed()) implies (#[trigger] model.decode_token(
                            ev2,
                            at,
                        )) == Err::<DecodedToken, PreflateError>(e) by {
                            lemma_extends_at(ev2, codec.consumed(), at);
                            lemma_extends_at(ev2, codec.consumed(), at + 1);
                            lemma_extends_at(ev2, codec.consumed(), at + 2);
                        }
                    }
                    return Err(e);
                },
            }
        }
        if predicted_ref.len() == 258 && codec.decode_misprediction(
            CodecMisprediction::IrregularLen258,
        ) {
            predicted_ref.set_irregular258(true);
        }
        block.add_reference(
            predicted_ref.len(),
            predicted_ref.dist(),
            predicted_ref.get_irregular258(),
        );
        self.commit_token(&PreflateToken::Reference(predicted_ref));
        proof {
            assert forall|ev2: Seq<CodecAction>| extends(ev2, codec.consumed()) implies (
            #[trigger] model.decode_token(ev2, at)) == Ok::<DecodedToken, PreflateError>(
                DecodedToken {
                    token: block@.tokens.last(),
                    used: codec.consumed().len() - at,
                    state: self@,
                },
            ) by {
                lemma_extends_at(ev2, codec.consumed(), at);
                lemma_extends_at(ev2, codec.consumed(), at + 1);
                lemma_extends_at(ev2, codec.consumed(), at + 2);
                if predicted_ref.len == 258 {
                    lemma_extends_at(ev2, codec.consumed(), at + 3);
                }
            }
        }
        Ok(())
    }

    /// Rebuilds the next block from the events of `codec`, and passes the
    /// plaintext that the block covers. What is rebuilt is what the events
    /// taken describe, in whatever sequence of events they stand first;
    /// each event is asked for by the kind that the description has at its
    /// place, so the rebuilding itself is never out of step.
    /// Where the block type is none of the three, the predictor stands
    /// where it stood, at the start of a block, and one event was taken.
    /// Whether the block was rebuilt or not, the predictor has counted the
    /// tokens that were rebuilt.
    #[verifier::loop_isolation(false)]
    #[verifier::rlimit(40)]
    pub fn recreate_block<D: PredictionDecoder>(&mut self, codec: &mut D) -> (r: Result<
        PreflateTokenBlock,
        PreflateError,
    >)
        requires
            old(self).wf(),
        ensures
            extends(final(codec).consumed(), old(codec).consumed()),
            final(codec).script() == old(codec).script(),
            old(codec).inv() ==> final(codec).inv(),
            final(codec).consumed().len() > old(codec).consumed().len(),
            forall|ev2: Seq<CodecAction>|
                extends(ev2, final(codec).consumed()) ==> (#[trigger] old(self)@.decode_block(
                    ev2,
                    old(codec).consumed().len() as int,
                )) == block_outcome(r, final(codec).consumed().len() as int, final(self)@),
            r matches Ok(block) ==> final(self).wf() && block@.wf(),
            !(r matches Err(PreflateError::EventsOutOfStep)),
            forall|ev2: Seq<CodecAction>|
                extends(ev2, final(codec).consumed()) ==> final(self)@.count == (#[trigger] old(
                    self
                )@.block_tokens_rebuilt(ev2, old(codec).consumed().len() as int)),
            BlockType::spec_from_code(
                spec_decode_difference(
                    BlockType::DynamicHuff.spec_code(),
                    correction_at(final(codec).consumed(), old(codec).consumed().len() as int),
                ),
            ) is None ==> final(self)@ == old(self)@.start_block() && final(codec).consumed().len()
                == old(codec).consumed().len() + 1,
    {
        self.current_token_count = 0;
        self.pending_reference = None;
        let ghost start = self@;
        let ghost at = old(codec).consumed().len() as int;
        codec.decode_verify_state("blocktypestart", 0);
        let bt: u32 = decode_difference(
            BlockType::DynamicHuff.code(),
            codec.decode_correction(CodecCorrection::BlockTypeCorrection),
        );
        let ghost first = codec.consumed();
        let mut block: PreflateTokenBlock;
        match BlockType::from_code(bt) {
            None => {
                proof {
                    assert forall|ev2: Seq<CodecAction>| extends(ev2, first) implies (
                    #[trigger] old(self)@.decode_block(ev2, at)) == Err::<
                        DecodedBlock,
                        PreflateError,
                    >(PreflateError::InvalidBlockType) by {
                        lemma_extends_at(ev2, first, at);
                    }
                    assert forall|ev2: Seq<CodecAction>| extends(ev2, first) implies (
                    #[trigger] old(self)@.block_tokens_rebuilt(ev2, at)) == 0 by {
                        lemma_extends_at(ev2, first, at);
                    }
                }
                return Err(PreflateError::InvalidBlockType);
            },
            Some(BlockType::Stored) => {
                block = PreflateTokenBlock::new(BlockType::Stored);
                let len: u16 = codec.decode_value(16);
                let padding: u32 = codec.decode_correction(CodecCorrection::NonZeroPadding);
                let ghost stored = codec.consumed();
                let r: Result<PreflateTokenBlock, PreflateError>;
                if padding > 7 {
                    r = Err(PreflateError::InvalidHeader);
                } else if len as u32 > self.state.available_input_size() {
                    r = Err(PreflateError::PlaintextTooShort);
                } else {
                    block.uncompressed_len = len as u32;
                    block.padding_bits = padding as u8;
                    proof {
                        lemma_update_primed(
                            self@.state.chain,
                            self@.state.data,
                            self@.state.pos as int,
                            len as nat,
                        );
                    }
                    self.state.update_hash(block.uncompressed_len);
                    r = Ok(block);
                }
                proof {
                    lemma_extends_at(stored, first, at);
                    assert forall|ev2: Seq<CodecAction>| extends(ev2, stored) implies (
                    #[trigger] old(self)@.decode_block(ev2, at)) == block_outcome(
                        r,
                        stored.len() as int,
                        self@,
                    ) by {
                        lemma_extends_at(ev2, stored, at);
                        lemma_extends_at(ev2, stored, at + 1);
                        lemma_extends_at(ev2, stored, at + 2);
                    }
                    assert forall|ev2: Seq<CodecAction>| extends(ev2, stored) implies (
                    #[trigger] old(self)@.block_tokens_rebuilt(ev2, at)) == 0 by {
                        lemma_extends_at(ev2, stored, at);
                    }
                }
                return r;
            },
            Some(block_type) => {
                block = PreflateTokenBlock::new(block_type);
            },
        }
        let mut blocksize: u32 = codec.decode_correction(CodecCorrection::TokenCount);
        if blocksize == 0 {
            blocksize = self.max_token_count;
        } else {
            blocksize -= 1;
        }
        codec.decode_verify_state("start", self.checksum().hash());
        let ghost empty = block@;
        let ghost header = codec.consumed();
        assert(header.len() == at + 2);
        proof {
            lemma_extends_at(header, first, at);
        }
        while !self.input_eof() && self.current_token_count < blocksize
            invariant
                self.wf(),
                block@.wf(),
                extends(codec.consumed(), old(codec).consumed()),
                codec.script() == old(codec).script(),
                old(codec).inv() ==> codec.inv(),
                extends(codec.consumed(), header),
                codec.consumed().len() >= at + 2,
                forall|ev2: Seq<CodecAction>|
                    extends(ev2, codec.consumed()) ==> (#[trigger] start.decode_tokens(
                        ev2,
                        at + 2,
                        blocksize,
                        empty,
                    )) == self@.decode_tokens(
                        ev2,
                        codec.consumed().len() as int,
                        blocksize,
                        block@,
                    ),
                forall|ev2: Seq<CodecAction>|
                    extends(ev2, codec.consumed()) ==> (#[trigger] start.tokens_rebuilt(
                        ev2,
                        at + 2,
                        blocksize,
                    )) == self@.tokens_rebuilt(ev2, codec.consumed().len() as int, blocksize),
            decreases self@.state.remaining(),
        {
            codec.decode_verify_state("token", self.current_token_count as u64);
            let ghost model = self@;
            let ghost before = codec.consumed();
            let ghost block_before = block@;
            match self.recreate_token(codec, &mut block) {
                Ok(()) => {},
                Err(e) => {
                    proof {
                        let ev = codec.consumed();
                        lemma_extends_at(ev, header, at);
                        assert forall|ev2: Seq<CodecAction>| extends(ev2, ev) implies (
                        #[trigger] old(self)@.decode_block(ev2, at)) == Err::<
                            DecodedBlock,
                            PreflateError,
                        >(e) by {
                            assert(extends(ev2, before));
                            assert(extends(ev2, header));
                            assert(model.decode_token(ev2, before.len() as int) is Err);
                            assert(start.decode_tokens(ev2, at + 2, blocksize, empty)
                                == model.decode_tokens(
                                ev2,
                                before.len() as int,
                                blocksize,
                                block_before,
                            ));
                            lemma_extends_at(ev2, header, at);
                            lemma_extends_at(ev2, header, at + 1);
                        }
                        assert forall|ev2: Seq<CodecAction>| extends(ev2, ev) implies self@.count
                            == (#[trigger] old(self)@.block_tokens_rebuilt(ev2, at)) by {
                            assert(extends(ev2, before));
                            assert(extends(ev2, header));
                            assert(model.decode_token(ev2, before.len() as int) is Err);
                            assert(start.tokens_rebuilt(ev2, at + 2, blocksize)
                                == model.tokens_rebuilt(ev2, before.len() as int, blocksize));
                            lemma_extends_at(ev2, header, at);
                            lemma_extends_at(ev2, header, at + 1);
                        }
                    }
                    return Err(e);
                },
            }
            proof {
                assert forall|ev2: Seq<CodecAction>| extends(ev2, codec.consumed()) implies (
                #[trigger] start.decode_tokens(ev2, at + 2, blocksize, empty))
                    == self@.decode_tokens(
                    ev2,
                    codec.consumed().len() as int,
                    blocksize,
                    block@,
                ) by {
                    assert(extends(ev2, before));
                    let t = model.decode_token(ev2, before.len() as int);
                    assert(t is Ok);
                }
                assert forall|ev2: Seq<CodecAction>| extends(ev2, codec.consumed()) implies (
                #[trigger] start.tokens_rebuilt(ev2, at + 2, blocksize)) == self@.tokens_rebuilt(
                    ev2,
                    codec.consumed().len() as int,
                    blocksize,
                ) by {
                    assert(extends(ev2, before));
                    let t = model.decode_token(ev2, before.len() as int);
                    assert(t is Ok);
                    assert(start.tokens_rebuilt(ev2, at + 2, blocksize) == model.tokens_rebuilt(
                        ev2,
                        before.len() as int,
                        blocksize,
                    ));
                }
                assert forall|i: int| 0 <= i < block@.tokens.len() implies (
                #[trigger] block@.tokens[i]).wf() by {
                    if i < block_before.tokens.len() {
                        assert(block@.tokens[i] == block_before.tokens[i]);
                    }
                }
            }
        }
        codec.decode_verify_state("done", self.checksum().hash());
        proof {
            let ev = codec.consumed();
            lemma_extends_at(ev, header, at);
            assert forall|ev2: Seq<CodecAction>| extends(ev2, ev) implies (
            #[trigger] old(self)@.decode_block(ev2, at)) == Ok::<DecodedBlock, PreflateError>(
                DecodedBlock { block: block@, end: ev.len() as int, state: self@ },
            ) by {
                assert(extends(ev2, header));
                lemma_extends_at(ev2, header, at);
                lemma_extends_at(ev2, header, at + 1);
                assert(start.decode_tokens(ev2, at + 2, blocksize, empty) == self@.decode_tokens(
                    ev2,
                    ev.len() as int,
                    blocksize,
                    block@,
                ));
            }
            assert forall|ev2: Seq<CodecAction>| extends(ev2, ev) implies self@.count == (
            #[trigger] old(self)@.block_tokens_rebuilt(ev2, at)) by {
                assert(extends(ev2, header));
                lemma_extends_at(ev2, header, at);
                lemma_extends_at(ev2, header, at + 1);
                assert(start.tokens_rebuilt(ev2, at + 2, blocksize) == self@.tokens_rebuilt(
                    ev2,
                    ev.len() as int,
                    blocksize,
                ));
            }
        }
        Ok(block)
    }
}

/// The hash at the cursor of a well-formed predictor is the hash of the
/// three bytes at the cursor, whatever was hashed before them.
pub proof fn lemma_cursor_hash(m: TokenPredictorModel, offset: int)
    requires
        m.wf_at(offset),
        m.state.remaining() >= 3,
    ensures
        m.state.cur_hash() == hash_of_three(
            m.state.data[m.state.pos as int],
            m.state.data[m.state.pos + 1],
            m.state.data[m.state.pos + 2],
            m.state.chain.hash_shift,
            m.state.chain.hash_mask,
        ),
{
}

/// Where the first `k` tokens are described and the next one fails, `k`
/// tokens are described before the failure of every longer run.
pub proof fn lemma_tokens_before_failure(
    start: TokenPredictorModel,
    tokens: Seq<PreflateToken>,
    k: nat,
    n: nat,
)
    requires
        k < n,
        start.encode_tokens(tokens, k) is Ok,
        start.encode_tokens(tokens, k + 1) is Err,
    ensures
        start.tokens_before_failure(tokens, n) == k,
    decreases n,
{
    if n > k + 1 {
        lemma_encode_tokens_err(start, tokens, k + 1, (n - 1) as nat);
        lemma_tokens_before_failure(start, tokens, k, (n - 1) as nat);
    }
}

/// An error among the first `k` tokens is the error of every longer run.
pub proof fn lemma_encode_tokens_err(
    start: TokenPredictorModel,
    tokens: Seq<PreflateToken>,
    k: nat,
    n: nat,
)
    requires
        k <= n,
        start.encode_tokens(tokens, k) is Err,
    ensures
        start.encode_tokens(tokens, n) == start.encode_tokens(tokens, k),
    decreases n - k,
{
    if k < n {
        lemma_encode_tokens_err(start, tokens, k, (n - 1) as nat);
    }
}

} // verus!
