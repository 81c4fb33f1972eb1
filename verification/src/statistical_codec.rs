//! The surface of the statistical codec that carries the corrections.
//!
//! The predictors describe a stream as a sequence of events: a prediction
//! was right or wrong, a predicted value is corrected by some amount, a raw
//! field has some value. How the events are stored is the codec's business.
//! The predictors only need that decoding hands the same events out in the
//! same order.

use vstd::prelude::*;

verus! {

/// Yes/no events.
#[derive(Clone, Copy, Debug, PartialEq, Eq, Structural)]
pub enum CodecMisprediction {
    LiteralPredictionWrong,
    ReferencePredictionWrong,
    LiteralCountMisprediction,
    DistanceCountMisprediction,
    TreeCodeCountMisprediction,
    IrregularLen258,
    NonZeroPadding,
}

/// Events that carry a number, 0 where the prediction was right.
#[derive(Clone, Copy, Debug, PartialEq, Eq, Structural)]
pub enum CodecCorrection {
    BlockTypeCorrection,
    TokenCount,
    LenCorrection,
    DistOnlyCorrection,
    DistAfterLenCorrection,
    TreeCodeBitLengthCorrection,
    LDTypeCorrection,
    LDBitLengthCorrection,
    RepeatCountCorrection,
    NonZeroPadding,
}

/// One event of the correction stream.
#[derive(Clone, Copy, Debug, PartialEq, Eq, Structural)]
pub enum CodecAction {
    /// A raw field of `bits` bits.
    Value(u16, u8),
    Correction(CodecCorrection, u32),
    Misprediction(CodecMisprediction, bool),
}

impl CodecAction {
    /// The event says that a prediction was right.
    pub open spec fn is_default(self) -> bool {
        match self {
            CodecAction::Value(_, _) => false,
            CodecAction::Correction(_, v) => v == 0,
            CodecAction::Misprediction(_, v) => !v,
        }
    }
}

/// Every event of `events` says that a prediction was right.
pub open spec fn all_default(events: Seq<CodecAction>) -> bool {
    forall|i: int| 0 <= i < events.len() ==> (#[trigger] events[i]).is_default()
}

/// Number of events in `events` that do not say that a prediction was right.
pub open spec fn nondefault_count(events: Seq<CodecAction>) -> nat
    decreases events.len(),
{
    if events.len() == 0 {
        0
    } else {
        nondefault_count(events.drop_last()) + if events.last().is_default() {
            0nat
        } else {
            1nat
        }
    }
}

/// The yes/no that the event at place `at` carries.
pub open spec fn misprediction_at(events: Seq<CodecAction>, at: int) -> bool {
    match events[at] {
        CodecAction::Misprediction(_, v) => v,
        _ => false,
    }
}

/// The number that the event at place `at` carries.
pub open spec fn correction_at(events: Seq<CodecAction>, at: int) -> u32 {
    match events[at] {
        CodecAction::Correction(_, v) => v,
        _ => 0,
    }
}

/// The raw field that the event at place `at` carries.
pub open spec fn value_at(events: Seq<CodecAction>, at: int) -> u16 {
    match events[at] {
        CodecAction::Value(v, _) => v,
        _ => 0,
    }
}

/// The event at place `at` is a misprediction of the kind `kind`.
pub open spec fn is_misprediction(events: Seq<CodecAction>, at: int, kind: CodecMisprediction) -> bool {
    &&& 0 <= at < events.len()
    &&& events[at] matches CodecAction::Misprediction(k, _) && k == kind
}

/// The event at place `at` is a correction of the kind `kind`.
pub open spec fn is_correction(events: Seq<CodecAction>, at: int, kind: CodecCorrection) -> bool {
    &&& 0 <= at < events.len()
    &&& events[at] matches CodecAction::Correction(k, _) && k == kind
}

/// The event at place `at` is a raw field of `bits` bits.
pub open spec fn is_value(events: Seq<CodecAction>, at: int, bits: u8) -> bool {
    &&& 0 <= at < events.len()
    &&& events[at] matches CodecAction::Value(_, b) && b == bits
}

/// `longer` starts with the events of `events`.
pub open spec fn extends(longer: Seq<CodecAction>, events: Seq<CodecAction>) -> bool {
    &&& events.len() <= longer.len()
    &&& forall|i: int| 0 <= i < events.len() ==> #[trigger] longer[i] == events[i]
}

/// What stands at a place of `events` stands at the same place of every
/// sequence that starts with `events`.
pub proof fn lemma_extends_at(longer: Seq<CodecAction>, events: Seq<CodecAction>, at: int)
    requires
        extends(longer, events),
        0 <= at < events.len(),
    ensures
        longer[at] == events[at],
        misprediction_at(longer, at) == misprediction_at(events, at),
        correction_at(longer, at) == correction_at(events, at),
        value_at(longer, at) == value_at(events, at),
        forall|kind: CodecMisprediction| #[trigger]
            is_misprediction(longer, at, kind) == is_misprediction(events, at, kind),
        forall|kind: CodecCorrection| #[trigger]
            is_correction(longer, at, kind) == is_correction(events, at, kind),
        forall|bits: u8| #[trigger] is_value(longer, at, bits) == is_value(events, at, bits),
{
}

/// Two events are of one kind: raw fields of the same width, corrections
/// of the same kind or mispredictions of the same kind.
pub open spec fn same_kind(a: CodecAction, b: CodecAction) -> bool {
    match a {
        CodecAction::Value(_, bits) => b matches CodecAction::Value(_, other) && other == bits,
        CodecAction::Correction(kind, _) => b matches CodecAction::Correction(other, _) && other
            == kind,
        CodecAction::Misprediction(kind, _) => b matches CodecAction::Misprediction(other, _)
            && other == kind,
    }
}

/// `log` left `script` at place `at`: up to that place the two hold the
/// same events, and at it the script has run out or holds an event of
/// another kind than the log.
pub open spec fn left_at(log: Seq<CodecAction>, script: Seq<CodecAction>, at: int) -> bool {
    &&& 0 <= at < log.len()
    &&& at <= script.len()
    &&& forall|i: int| 0 <= i < at ==> #[trigger] log[i] == script[i]
    &&& at < script.len() ==> !same_kind(log[at], script[at])
}

/// `log` is what a decoder hands out that replays `script`: the events of
/// the script one by one as long as each is asked for by its kind. Either
/// the script starts with the log, or the log left the script at a place
/// where another kind was asked for than the script holds.
pub open spec fn replays(log: Seq<CodecAction>, script: Seq<CodecAction>) -> bool {
    extends(script, log) || exists|at: int| left_at(log, script, at)
}

/// Before the place at which a log left its script, the two read the same.
pub proof fn lemma_left_at_before(
    log: Seq<CodecAction>,
    script: Seq<CodecAction>,
    left: int,
    at: int,
)
    requires
        left_at(log, script, left),
        0 <= at < left,
    ensures
        log[at] == script[at],
        misprediction_at(log, at) == misprediction_at(script, at),
        correction_at(log, at) == correction_at(script, at),
        value_at(log, at) == value_at(script, at),
        forall|kind: CodecMisprediction| #[trigger]
            is_misprediction(log, at, kind) == is_misprediction(script, at, kind),
        forall|kind: CodecCorrection| #[trigger]
            is_correction(log, at, kind) == is_correction(script, at, kind),
        forall|bits: u8| #[trigger] is_value(log, at, bits) == is_value(script, at, bits),
{
}

/// At the place at which a log left its script, the log does not hold
/// what the script holds there.
pub proof fn lemma_left_at_here(log: Seq<CodecAction>, script: Seq<CodecAction>, left: int)
    requires
        left_at(log, script, left),
    ensures
        forall|kind: CodecMisprediction| #[trigger]
            is_misprediction(script, left, kind) ==> !is_misprediction(log, left, kind),
        forall|kind: CodecCorrection| #[trigger]
            is_correction(script, left, kind) ==> !is_correction(log, left, kind),
        forall|bits: u8| #[trigger] is_value(script, left, bits) ==> !is_value(log, left, bits),
{
}

/// A log that held the events of its script up to a place can have left
/// the script at that place or behind it only.
pub proof fn lemma_left_at_behind(
    log: Seq<CodecAction>,
    script: Seq<CodecAction>,
    left: int,
    at: int,
)
    requires
        left_at(log, script, left),
        0 <= at <= script.len(),
        at <= log.len(),
        forall|i: int| 0 <= i < at ==> #[trigger] log[i] == script[i],
    ensures
        at <= left,
{
    if left < at {
        assert(log[left] == script[left]);
    }
}

/// The events of `piece` stand in `events` from place `at` on.
pub open spec fn holds_at(events: Seq<CodecAction>, at: int, piece: Seq<CodecAction>) -> bool {
    &&& 0 <= at
    &&& at + piece.len() <= events.len()
    &&& forall|i: int| 0 <= i < piece.len() ==> #[trigger] events[at + i] == piece[i]
}

/// Where two pieces stand one after the other, each of them stands at its place.
pub proof fn lemma_holds_at_split(
    events: Seq<CodecAction>,
    at: int,
    first: Seq<CodecAction>,
    second: Seq<CodecAction>,
)
    requires
        holds_at(events, at, first.add(second)),
    ensures
        holds_at(events, at, first),
        holds_at(events, at + first.len(), second),
{
    let both = first.add(second);
    assert forall|i: int| 0 <= i < first.len() implies #[trigger] events[at + i] == first[i] by {
        assert(both[i] == first[i]);
    }
    assert forall|i: int| 0 <= i < second.len() implies #[trigger] events[at + first.len() + i]
        == second[i] by {
        assert(both[first.len() + i] == second[i]);
        assert(events[at + (first.len() + i)] == both[first.len() + i]);
    }
}

/// Every event of two pieces is a default where every event of each is.
pub proof fn lemma_all_default_add(first: Seq<CodecAction>, second: Seq<CodecAction>)
    requires
        all_default(first),
        all_default(second),
    ensures
        all_default(first.add(second)),
{
    let both = first.add(second);
    assert forall|i: int| 0 <= i < both.len() implies (#[trigger] both[i]).is_default() by {
        if i < first.len() {
            assert(both[i] == first[i]);
        } else {
            assert(both[i] == second[i - first.len()]);
        }
    }
}

/// The events of `events` from place `at` on say that every prediction was right.
pub open spec fn default_from(events: Seq<CodecAction>, at: int) -> bool {
    forall|i: int| at <= i < events.len() ==> (#[trigger] events[i]).is_default()
}

/// An event that says that a prediction was right carries neither a
/// correction nor a misprediction.
pub proof fn lemma_default_reads(events: Seq<CodecAction>, at: int)
    requires
        0 <= at < events.len(),
        events[at].is_default(),
    ensures
        correction_at(events, at) == 0,
        !misprediction_at(events, at),
{
}

/// The zig-zag number of a signed difference: 0, -1, 1, -2, 2, ... are
/// numbered 0, 1, 2, 3, 4, ...
pub open spec fn zigzag(delta: int) -> int {
    if delta >= 0 {
        2 * delta
    } else {
        -2 * delta - 1
    }
}

/// The signed difference with the zig-zag number `code`.
pub open spec fn unzigzag(code: int) -> int {
    if code % 2 == 0 {
        code / 2
    } else {
        -(code + 1) / 2
    }
}

/// The value that lies `unzigzag(encoded)` from `predicted`, wrapped to 32 bits.
pub open spec fn spec_decode_difference(predicted: u32, encoded: u32) -> u32 {
    if encoded % 2 == 0 {
        predicted.wrapping_add(encoded / 2)
    } else {
        predicted.wrapping_sub((encoded / 2 + 1) as u32)
    }
}

/// Zig-zag number of the difference between the actual and the predicted value.
pub fn encode_difference(predicted: u32, actual: u32) -> (r: u32)
    requires
        zigzag(actual - predicted) <= u32::MAX,
    ensures
        r == zigzag(actual - predicted),
        r == 0 <==> actual == predicted,
{
    if actual >= predicted {
        2 * (actual - predicted)
    } else {
        2 * (predicted - actual - 1) + 1
    }
}

/// The value whose difference to `predicted` has the zig-zag number `encoded`.
///
/// The result wraps around where the difference leads out of the 32-bit range.
pub fn decode_difference(predicted: u32, encoded: u32) -> (r: u32)
    ensures
        r == spec_decode_difference(predicted, encoded),
        0 <= predicted + unzigzag(encoded as int) <= u32::MAX ==> r == predicted + unzigzag(
            encoded as int,
        ),
        encoded == 0 ==> r == predicted,
{
    if encoded % 2 == 0 {
        predicted.wrapping_add(encoded / 2)
    } else {
        predicted.wrapping_sub(encoded / 2 + 1)
    }
}

/// Decoding the encoded difference gives the actual value back.
pub proof fn lemma_difference_roundtrip(predicted: u32, actual: u32)
    requires
        zigzag(actual - predicted) <= u32::MAX,
    ensures
        spec_decode_difference(predicted, zigzag(actual - predicted) as u32) == actual,
{
}

/// Two actual values with the same encoded difference are equal.
pub proof fn lemma_difference_injective(predicted: u32, a: u32, b: u32)
    requires
        zigzag(a - predicted) == zigzag(b - predicted),
    ensures
        a == b,
{
}

/// The sink of the events on the way from a stream to its corrections.
pub trait PredictionEncoder {
    /// Everything that was handed to the encoder, in order.
    spec fn events(&self) -> Seq<CodecAction>;

    /// Records a raw field of `max_bits` bits.
    fn encode_value(&mut self, value: u16, max_bits: u8)
        ensures
            final(self).events() == old(self).events().push(CodecAction::Value(value, max_bits)),
    ;

    /// Records by how much a predicted value was off.
    fn encode_correction(&mut self, action: CodecCorrection, value: u32)
        ensures
            final(self).events() == old(self).events().push(CodecAction::Correction(action, value)),
    ;

    /// Records whether a prediction was wrong.
    fn encode_misprediction(&mut self, action: CodecMisprediction, value: bool)
        ensures
            final(self).events() == old(self).events().push(
                CodecAction::Misprediction(action, value),
            ),
    ;

    /// A rendezvous for debugging: the decoding side passes the same place
    /// with the same checksum. It is no event.
    fn encode_verify_state(&mut self, message: &str, checksum: u64)
        ensures
            final(self).events() == old(self).events(),
    ;
}

/// The source of the events on the way from corrections back to a stream.
///
/// A decoder replays a script, the events that an encoder was given: it
/// hands them out one by one, each where it is asked for by its kind. A
/// decoder that holds no events replays the empty script.
pub trait PredictionDecoder {
    /// Everything that the decoder has handed out, in order.
    spec fn consumed(&self) -> Seq<CodecAction>;

    /// The events that the decoder replays.
    spec fn script(&self) -> Seq<CodecAction>;

    /// What the decoder keeps from call to call.
    spec fn inv(&self) -> bool;

    /// What a decoder has handed out replays its script.
    proof fn lemma_replays(&self)
        requires
            self.inv(),
        ensures
            replays(self.consumed(), self.script()),
    ;

    /// Hands out a raw field of `max_bits` bits.
    fn decode_value(&mut self, max_bits: u8) -> (r: u16)
        ensures
            final(self).consumed() == old(self).consumed().push(CodecAction::Value(r, max_bits)),
            final(self).script() == old(self).script(),
            old(self).inv() ==> final(self).inv(),
    ;

    /// Hands out by how much a predicted value is off.
    fn decode_correction(&mut self, action: CodecCorrection) -> (r: u32)
        ensures
            final(self).consumed() == old(self).consumed().push(CodecAction::Correction(action, r)),
            final(self).script() == old(self).script(),
            old(self).inv() ==> final(self).inv(),
    ;

    /// Hands out whether a prediction is wrong.
    fn decode_misprediction(&mut self, action: CodecMisprediction) -> (r: bool)
        ensures
            final(self).consumed() == old(self).consumed().push(
                CodecAction::Misprediction(action, r),
            ),
            final(self).script() == old(self).script(),
            old(self).inv() ==> final(self).inv(),
    ;

    /// The counterpart of `PredictionEncoder::encode_verify_state`.
    fn decode_verify_state(&mut self, message: &str, checksum: u64)
        ensures
            final(self).consumed() == old(self).consumed(),
            final(self).script() == old(self).script(),
            old(self).inv() ==> final(self).inv(),
    ;
}

/// An encoder that keeps the events in memory.
pub struct VerifyPredictionEncoder {
    pub actions: Vec<CodecAction>,
}

impl VerifyPredictionEncoder {
    pub fn new() -> (r: Self)
        ensures
            r.actions@ == Seq::<CodecAction>::empty(),
    {
        VerifyPredictionEncoder { actions: Vec::new() }
    }

    /// A copy of the events recorded so far.
    pub fn actions(&self) -> (r: Vec<CodecAction>)
        ensures
            r@ == self.actions@,
    {
        let mut r: Vec<CodecAction> = Vec::new();
        let mut i: usize = 0;
        while i < self.actions.len()
            invariant
                i <= self.actions.len(),
                r@ == self.actions@.take(i as int),
            decreases self.actions.len() - i,
        {
            r.push(self.actions[i]);
            assert(self.actions@.take(i + 1) == self.actions@.take(i as int).push(
                self.actions@[i as int],
            ));
            i += 1;
        }
        assert(self.actions@.take(i as int) == self.actions@);
        r
    }

    /// Number of recorded events that do not say that a prediction was right.
    pub fn count_nondefault_actions(&self) -> (r: usize)
        ensures
            r == nondefault_count(self.actions@),
            r == 0 <==> all_default(self.actions@),
    {
        let mut r: usize = 0;
        let mut i: usize = 0;
        while i < self.actions.len()
            invariant
                i <= self.actions.len(),
                r <= i,
                r == nondefault_count(self.actions@.take(i as int)),
                r == 0 <==> all_default(self.actions@.take(i as int)),
            decreases self.actions.len() - i,
        {
            let ghost before = self.actions@.take(i as int);
            let ghost after = self.actions@.take(i + 1);
            assert(after.drop_last() == before);
            assert(after.last() == self.actions@[i as int]);
            let is_default = match self.actions[i] {
                CodecAction::Value(_, _) => false,
                CodecAction::Correction(_, v) => v == 0,
                CodecAction::Misprediction(_, v) => !v,
            };
            if !is_default {
                r += 1;
                assert(!after[i as int].is_default());
            } else {
                assert(all_default(before) ==> all_default(after)) by {
                    if all_default(before) {
                        assert forall|j: int| 0 <= j < after.len() implies (
                        #[trigger] after[j]).is_default() by {
                            if j < i {
                                assert(after[j] == before[j]);
                            }
                        }
                    }
                }
                assert(all_default(after) ==> all_default(before)) by {
                    if all_default(after) {
                        assert forall|j: int| 0 <= j < before.len() implies (
                        #[trigger] before[j]).is_default() by {
                            assert(before[j] == after[j]);
                        }
                    }
                }
            }
            i += 1;
        }
        assert(self.actions@.take(i as int) == self.actions@);
        r
    }
}

impl Default for VerifyPredictionEncoder {
    fn default() -> (r: Self)
        ensures
            r.actions@ == Seq::<CodecAction>::empty(),
    {
        VerifyPredictionEncoder::new()
    }
}

impl PredictionEncoder for VerifyPredictionEncoder {
    open spec fn events(&self) -> Seq<CodecAction> {
        self.actions@
    }

    fn encode_value(&mut self, value: u16, max_bits: u8) {
        self.actions.push(CodecAction::Value(value, max_bits));
    }

    fn encode_correction(&mut self, action: CodecCorrection, value: u32) {
        self.actions.push(CodecAction::Correction(action, value));
    }

    fn encode_misprediction(&mut self, action: CodecMisprediction, value: bool) {
        self.actions.push(CodecAction::Misprediction(action, value));
    }

    fn encode_verify_state(&mut self, message: &str, checksum: u64) {
    }
}

/// A decoder for which every prediction is right.
pub struct DefaultOnlyDecoder {
    pub log: Ghost<Seq<CodecAction>>,
}

impl DefaultOnlyDecoder {
    pub fn new() -> (r: Self)
        ensures
            r.log@ == Seq::<CodecAction>::empty(),
    {
        DefaultOnlyDecoder { log: Ghost(Seq::empty()) }
    }
}

impl Default for DefaultOnlyDecoder {
    fn default() -> (r: Self)
        ensures
            r.log@ == Seq::<CodecAction>::empty(),
    {
        DefaultOnlyDecoder::new()
    }
}

impl PredictionDecoder for DefaultOnlyDecoder {
    open spec fn consumed(&self) -> Seq<CodecAction> {
        self.log@
    }

    open spec fn script(&self) -> Seq<CodecAction> {
        Seq::empty()
    }

    open spec fn inv(&self) -> bool {
        true
    }

    proof fn lemma_replays(&self) {
        if self.log@.len() > 0 {
            assert(left_at(self.log@, Seq::empty(), 0));
        }
    }

    fn decode_value(&mut self, max_bits: u8) -> (r: u16)
        ensures
            r == 0,
    {
        self.log = Ghost(self.log@.push(CodecAction::Value(0, max_bits)));
        0
    }

    fn decode_correction(&mut self, action: CodecCorrection) -> (r: u32)
        ensures
            r == 0,
    {
        self.log = Ghost(self.log@.push(CodecAction::Correction(action, 0)));
        0
    }

    fn decode_misprediction(&mut self, action: CodecMisprediction) -> (r: bool)
        ensures
            !r,
    {
        self.log = Ghost(self.log@.push(CodecAction::Misprediction(action, false)));
        false
    }

    fn decode_verify_state(&mut self, message: &str, checksum: u64) {
    }
}

/// A decoder that hands out events kept in memory.
///
/// An event is handed out where it is of the kind that is asked for. Where
/// it is of another kind, or the events have run out, the decoder answers
/// that the prediction is right, hands out no event and is out of step
/// from then on.
pub struct VerifyPredictionDecoder {
    pub actions: Vec<CodecAction>,
    pub index: usize,
    pub in_step: bool,
    pub log: Ghost<Seq<CodecAction>>,
}

impl VerifyPredictionDecoder {
    /// The next event has not run out yet; while in step, what was handed
    /// out is what stands before it, and out of step, what was handed out
    /// left the events at the next one.
    pub open spec fn wf(&self) -> bool {
        &&& self.index <= self.actions@.len()
        &&& self.in_step ==> self.log@ == self.actions@.take(self.index as int)
        &&& !self.in_step ==> left_at(self.log@, self.actions@, self.index as int)
    }

    /// A well-formed decoder is in step where its events start with what
    /// it has handed out, and the next event is then the first that was
    /// not handed out.
    pub proof fn lemma_in_step(&self)
        requires
            self.wf(),
        ensures
            self.in_step == extends(self.actions@, self.consumed()),
            self.in_step ==> self.consumed().len() == self.index,
    {
        if !self.in_step && extends(self.actions@, self.consumed()) {
            assert(self.log@[self.index as int] == self.actions@[self.index as int]);
        }
    }

    pub fn new(actions: Vec<CodecAction>) -> (r: Self)
        ensures
            r.wf(),
            r.actions@ == actions@,
            r.index == 0,
            r.in_step,
            r.log@ == Seq::<CodecAction>::empty(),
    {
        assert(actions@.take(0) =~= Seq::<CodecAction>::empty());
        VerifyPredictionDecoder { actions, index: 0, in_step: true, log: Ghost(Seq::empty()) }
    }

    /// The raw field of `max_bits` bits that is handed out next, if the
    /// decoder is in step and such a field is the next event.
    pub open spec fn next_value(&self, max_bits: u8) -> Option<u16> {
        if self.in_step && self.index < self.actions@.len() {
            match self.actions@[self.index as int] {
                CodecAction::Value(v, b) => if b == max_bits {
                    Some(v)
                } else {
                    None
                },
                _ => None,
            }
        } else {
            None
        }
    }

    /// The correction of the kind `action` that is handed out next, if the
    /// decoder is in step and such a correction is the next event.
    pub open spec fn next_correction(&self, action: CodecCorrection) -> Option<u32> {
        if self.in_step && self.index < self.actions@.len() {
            match self.actions@[self.index as int] {
                CodecAction::Correction(a, v) => if a == action {
                    Some(v)
                } else {
                    None
                },
                _ => None,
            }
        } else {
            None
        }
    }

    /// The misprediction of the kind `action` that is handed out next, if
    /// the decoder is in step and such a misprediction is the next event.
    pub open spec fn next_misprediction(&self, action: CodecMisprediction) -> Option<bool> {
        if self.in_step && self.index < self.actions@.len() {
            match self.actions@[self.index as int] {
                CodecAction::Misprediction(a, v) => if a == action {
                    Some(v)
                } else {
                    None
                },
                _ => None,
            }
        } else {
            None
        }
    }

    /// Every event was asked for by its kind and none is left.
    pub fn finished_in_step(&self) -> (r: bool)
        ensures
            r == (self.in_step && self.index == self.actions@.len()),
    {
        self.in_step && self.index == self.actions.len()
    }

    /// What was handed out is `events` followed by `next`.
    proof fn lemma_step(&self, next: CodecAction)
        requires
            self.index < self.actions@.len(),
            self.actions@[self.index as int] == next,
        ensures
            self.actions@.take(self.index + 1) == self.actions@.take(self.index as int).push(next),
    {
    }
}

impl PredictionDecoder for VerifyPredictionDecoder {
    open spec fn consumed(&self) -> Seq<CodecAction> {
        self.log@
    }

    open spec fn script(&self) -> Seq<CodecAction> {
        self.actions@
    }

    open spec fn inv(&self) -> bool {
        self.wf()
    }

    proof fn lemma_replays(&self) {
    }

    fn decode_value(&mut self, max_bits: u8) -> (r: u16)
        ensures
            final(self).actions == old(self).actions,
            old(self).wf() ==> final(self).wf(),
            match old(self).next_value(max_bits) {
                Some(v) => r == v && final(self).in_step && final(self).index == old(self).index
                    + 1,
                None => r == 0 && !final(self).in_step && final(self).index == old(self).index,
            },
    {
        if self.in_step && self.index < self.actions.len() {
            if let CodecAction::Value(v, b) = self.actions[self.index] {
                if b == max_bits {
                    proof {
                        self.lemma_step(CodecAction::Value(v, b));
                    }
                    self.log = Ghost(self.log@.push(CodecAction::Value(v, max_bits)));
                    self.index = self.index + 1;
                    return v;
                }
            }
        }
        self.in_step = false;
        self.log = Ghost(self.log@.push(CodecAction::Value(0, max_bits)));
        0
    }

    fn decode_correction(&mut self, action: CodecCorrection) -> (r: u32)
        ensures
            final(self).actions == old(self).actions,
            old(self).wf() ==> final(self).wf(),
            match old(self).next_correction(action) {
                Some(v) => r == v && final(self).in_step && final(self).index == old(self).index
                    + 1,
                None => r == 0 && !final(self).in_step && final(self).index == old(self).index,
            },
    {
        if self.in_step && self.index < self.actions.len() {
            if let CodecAction::Correction(a, v) = self.actions[self.index] {
                if a == action {
                    proof {
                        self.lemma_step(CodecAction::Correction(a, v));
                    }
                    self.log = Ghost(self.log@.push(CodecAction::Correction(action, v)));
                    self.index = self.index + 1;
                    return v;
                }
            }
        }
        self.in_step = false;
        self.log = Ghost(self.log@.push(CodecAction::Correction(action, 0)));
        0
    }

    fn decode_misprediction(&mut self, action: CodecMisprediction) -> (r: bool)
        ensures
            final(self).actions == old(self).actions,
            old(self).wf() ==> final(self).wf(),
            match old(self).next_misprediction(action) {
                Some(v) => r == v && final(self).in_step && final(self).index == old(self).index
                    + 1,
                None => !r && !final(self).in_step && final(self).index == old(self).index,
            },
    {
        if self.in_step && self.index < self.actions.len() {
            if let CodecAction::Misprediction(a, v) = self.actions[self.index] {
                if a == action {
                    proof {
                        self.lemma_step(CodecAction::Misprediction(a, v));
                    }
                    self.log = Ghost(self.log@.push(CodecAction::Misprediction(action, v)));
                    self.index = self.index + 1;
                    return v;
                }
            }
        }
        self.in_step = false;
        self.log = Ghost(self.log@.push(CodecAction::Misprediction(action, false)));
        false
    }

    fn decode_verify_state(&mut self, message: &str, checksum: u64) {
    }
}

} // verus!
