//! What holds of the description of a header and of its rebuilding
//! together: a header that is described is rebuilt as it was, from
//! exactly the events of its description, and a header that is rebuilt
//! from defaults is described by defaults.

use vstd::prelude::*;
use crate::huffman_calc::{HufftreeBitCalc, spec_calc_bit_lengths};
use crate::huffman_encoding::{
    HeaderModel, TreeCodeType, lemma_rle_len_grows, rle_entries_wf, rle_len,
};
use crate::preflate_constants::{lemma_tree_code_order_distinct, tree_code_order, tree_code_place};
use crate::preflate_error::PreflateError;
use crate::preflate_token::FrequencyModel;
use crate::statistical_codec::{
    CodecAction, CodecCorrection, CodecMisprediction, all_default, correction_at, default_from,
    holds_at, lemma_all_default_add, lemma_default_reads, lemma_difference_roundtrip,
    lemma_holds_at_split, misprediction_at, spec_decode_difference, value_at, zigzag,
};
use crate::tree_predictor::{
    DecodedHeader, DecodedLengths, code_length_events, codetree_freq, count_events, count_in_step,
    count_used, decode_code_lengths, decode_code_tree, decode_count, decode_header, decode_ld, ld_entry_events, ld_events,
    ld_previous, lemma_rle_len_prefix, predict_code_data_spec, predict_code_type_spec,
    predicted_bit_lengths, predicted_code_tree, strip_from, tree_events,
};

verus! {

/// The description of `n` entries has two events for each of them.
pub proof fn lemma_ld_events_index(bit_lengths: Seq<u8>, targets: Seq<(TreeCodeType, u8)>, n: int, k: int)
    requires
        0 <= k < n,
    ensures
        ld_events(bit_lengths, targets, n).len() == 2 * n,
        ld_events(bit_lengths, targets, n)[2 * k] == ld_entry_events(bit_lengths, targets, k)[0],
        ld_events(bit_lengths, targets, n)[2 * k + 1] == ld_entry_events(bit_lengths, targets, k)[1],
    decreases n,
{
    lemma_ld_events_len(bit_lengths, targets, n - 1);
    if k < n - 1 {
        lemma_ld_events_index(bit_lengths, targets, n - 1, k);
    }
}

/// The description of `n` entries has two events for each of them.
pub proof fn lemma_ld_events_len(bit_lengths: Seq<u8>, targets: Seq<(TreeCodeType, u8)>, n: int)
    requires
        0 <= n,
    ensures
        ld_events(bit_lengths, targets, n).len() == 2 * n,
    decreases n,
{
    if n > 0 {
        lemma_ld_events_len(bit_lengths, targets, n - 1);
    }
}

/// A code type is the one that its code stands for.
pub proof fn lemma_code_type_roundtrip(predicted: TreeCodeType, actual: TreeCodeType)
    ensures
        TreeCodeType::spec_from_code(
            spec_decode_difference(
                predicted.spec_code(),
                zigzag(actual.spec_code() - predicted.spec_code()) as u32,
            ),
        ) == Some(actual),
{
    lemma_difference_roundtrip(predicted.spec_code(), actual.spec_code());
}

/// The entries of a run-length encoding that is described are rebuilt
/// as they were, from two events each.
pub proof fn lemma_decode_ld_roundtrip(
    bit_lengths: Seq<u8>,
    targets: Seq<(TreeCodeType, u8)>,
    k: int,
    events: Seq<CodecAction>,
    at: int,
)
    requires
        rle_entries_wf(targets),
        rle_len(targets, targets.len() as int) == bit_lengths.len(),
        0 <= k <= targets.len(),
        holds_at(events, at, ld_events(bit_lengths, targets, targets.len() as int)),
    ensures
        decode_ld(
            bit_lengths,
            rle_len(targets, k),
            ld_previous(bit_lengths, targets, k),
            events,
            at + 2 * k,
            targets.take(k),
        ) == Ok::<DecodedLengths, PreflateError>(
            DecodedLengths { lengths: targets, end: at + 2 * targets.len() },
        ),
    decreases targets.len() - k,
{
    let n = targets.len() as int;
    lemma_rle_len_grows(targets, k, n);
    if k == n {
        assert(targets.take(k) =~= targets);
    } else {
        let pos = rle_len(targets, k);
        let symbols = bit_lengths.skip(pos);
        let code_type = targets[k].0;
        let data = targets[k].1;
        assert(code_type.accepts(data as int));
        lemma_rle_len_grows(targets, k + 1, n);
        lemma_ld_events_index(bit_lengths, targets, n, k);
        let all = ld_events(bit_lengths, targets, n);
        assert(events[at + 2 * k] == all[2 * k]);
        assert(events[at + (2 * k + 1)] == all[2 * k + 1]);
        let predicted = predict_code_type_spec(symbols, ld_previous(bit_lengths, targets, k));
        lemma_code_type_roundtrip(predicted, code_type);
        let predicted_data = predict_code_data_spec(symbols, code_type);
        lemma_difference_roundtrip(predicted_data as u32, data as u32);
        assert(targets.take(k).push((code_type, data)) =~= targets.take(k + 1));
        lemma_decode_ld_roundtrip(bit_lengths, targets, k + 1, events, at);
    }
}

/// A count of the header that is described is read as it was.
pub proof fn lemma_count_roundtrip(
    kind: CodecMisprediction,
    predicted: int,
    actual: int,
    base: int,
    bits: u8,
    events: Seq<CodecAction>,
    at: int,
)
    requires
        base <= actual <= base + 0xffff,
        holds_at(events, at, count_events(kind, predicted, actual, base, bits)),
    ensures
        count_in_step(kind, bits, events, at),
        decode_count(predicted, base, events, at) == actual,
        count_used(events, at) == count_events(kind, predicted, actual, base, bits).len(),
{
    let piece = count_events(kind, predicted, actual, base, bits);
    assert(events[at + 0] == piece[0]);
    if predicted != actual {
        assert(events[at + 1] == piece[1]);
    }
}

/// The bit lengths of the code-length alphabet when the first `n` of
/// `code_lengths` in the order of transmission are known.
pub open spec fn known_code_lengths(code_lengths: Seq<u8>, n: int) -> Seq<u8> {
    Seq::new(
        19,
        |s: int|
            if tree_code_place()[s] < n {
                code_lengths[s]
            } else {
                0u8
            },
    )
}

/// The description of `n` bit lengths has one event for each of them.
pub proof fn lemma_code_length_events_index(predicted: Seq<u8>, code_lengths: Seq<u8>, n: int, k: int)
    requires
        0 <= k < n,
    ensures
        code_length_events(predicted, code_lengths, n).len() == n,
        code_length_events(predicted, code_lengths, n)[k] == CodecAction::Correction(
            CodecCorrection::TreeCodeBitLengthCorrection,
            zigzag(
                code_lengths[tree_code_order()[k] as int] - predicted[tree_code_order()[k] as int],
            ) as u32,
        ),
    decreases n,
{
    lemma_code_length_events_len(predicted, code_lengths, n - 1);
    if k < n - 1 {
        lemma_code_length_events_index(predicted, code_lengths, n - 1, k);
    }
}

/// The description of `n` bit lengths has one event for each of them.
pub proof fn lemma_code_length_events_len(predicted: Seq<u8>, code_lengths: Seq<u8>, n: int)
    requires
        0 <= n,
    ensures
        code_length_events(predicted, code_lengths, n).len() == n,
    decreases n,
{
    if n > 0 {
        lemma_code_length_events_len(predicted, code_lengths, n - 1);
    }
}

/// The bit lengths of the code-length alphabet that are described are
/// rebuilt as they were, from one event each.
pub proof fn lemma_code_lengths_roundtrip(
    predicted: Seq<u8>,
    code_lengths: Seq<u8>,
    total: int,
    n: int,
    events: Seq<CodecAction>,
    at: int,
)
    requires
        predicted.len() == 19,
        code_lengths.len() == 19,
        forall|i: int| 0 <= i < 19 ==> #[trigger] code_lengths[i] <= 7,
        0 <= n <= total <= 19,
        holds_at(events, at, code_length_events(predicted, code_lengths, total)),
    ensures
        decode_code_lengths(predicted, events, at, n) == Ok::<Seq<u8>, PreflateError>(
            known_code_lengths(code_lengths, n),
        ),
    decreases n,
{
    lemma_tree_code_order_distinct();
    if n <= 0 {
        assert(known_code_lengths(code_lengths, n) =~= Seq::new(19, |i: int| 0u8));
    } else {
        lemma_code_lengths_roundtrip(predicted, code_lengths, total, n - 1, events, at);
        lemma_code_length_events_index(predicted, code_lengths, total, n - 1);
        let symbol = tree_code_order()[n - 1] as int;
        assert(events[at + (n - 1)] == code_length_events(predicted, code_lengths, total)[n - 1]);
        lemma_difference_roundtrip(predicted[symbol] as u32, code_lengths[symbol] as u32);
        assert(tree_code_place()[symbol] == n - 1);
        assert(known_code_lengths(code_lengths, n - 1).update(symbol, code_lengths[symbol])
            =~= known_code_lengths(code_lengths, n)) by {
            assert forall|s: int| 0 <= s < 19 implies known_code_lengths(
                code_lengths,
                n - 1,
            ).update(symbol, code_lengths[symbol])[s] == known_code_lengths(code_lengths, n)[s] by {
                lemma_place_is_inverse(s);
            }
        }
    }
}

/// The place of a symbol in the order of transmission is where the order holds it.
pub proof fn lemma_place_is_inverse(s: int)
    requires
        0 <= s < 19,
    ensures
        0 <= tree_code_place()[s] < 19,
        tree_code_order()[tree_code_place()[s] as int] == s,
{
    let order = tree_code_order();
    let place = tree_code_place();
    if s == 0 {
        assert(order[place[0] as int] == 0);
    } else if s == 1 {
        assert(order[place[1] as int] == 1);
    } else if s == 2 {
        assert(order[place[2] as int] == 2);
    } else if s == 3 {
        assert(order[place[3] as int] == 3);
    } else if s == 4 {
        assert(order[place[4] as int] == 4);
    } else if s == 5 {
        assert(order[place[5] as int] == 5);
    } else if s == 6 {
        assert(order[place[6] as int] == 6);
    } else if s == 7 {
        assert(order[place[7] as int] == 7);
    } else if s == 8 {
        assert(order[place[8] as int] == 8);
    } else if s == 9 {
        assert(order[place[9] as int] == 9);
    } else if s == 10 {
        assert(order[place[10] as int] == 10);
    } else if s == 11 {
        assert(order[place[11] as int] == 11);
    } else if s == 12 {
        assert(order[place[12] as int] == 12);
    } else if s == 13 {
        assert(order[place[13] as int] == 13);
    } else if s == 14 {
        assert(order[place[14] as int] == 14);
    } else if s == 15 {
        assert(order[place[15] as int] == 15);
    } else if s == 16 {
        assert(order[place[16] as int] == 16);
    } else if s == 17 {
        assert(order[place[17] as int] == 17);
    } else {
        assert(order[place[18] as int] == 18);
    }
}

/// A header that is described is rebuilt as it was, and the rebuilding
/// takes exactly the events of the description.
pub proof fn lemma_header_roundtrip(
    header: HeaderModel,
    freq: FrequencyModel,
    huffcalc: HufftreeBitCalc,
    events: Seq<CodecAction>,
    at: int,
)
    requires
        header.wf(),
        holds_at(events, at, tree_events(header, freq, huffcalc)),
    ensures
        decode_header(freq, huffcalc, events, at) == Ok::<DecodedHeader, PreflateError>(
            DecodedHeader { header, end: at + tree_events(header, freq, huffcalc).len() },
        ),
{
    reveal(decode_code_tree);
    let literals = spec_calc_bit_lengths(huffcalc, freq.literal_codes, 15);
    let distances = spec_calc_bit_lengths(huffcalc, freq.distance_codes, 15);
    let code_tree = predicted_code_tree(huffcalc, header.lengths);
    let bits = predicted_bit_lengths(
        huffcalc,
        freq,
        header.num_literals as int,
        header.num_dist as int,
    );
    let n = header.lengths.len() as int;
    let e1 = count_events(
        CodecMisprediction::LiteralCountMisprediction,
        literals.len() as int,
        header.num_literals as int,
        257,
        5,
    );
    let e2 = count_events(
        CodecMisprediction::DistanceCountMisprediction,
        distances.len() as int,
        header.num_dist as int,
        1,
        5,
    );
    let e3 = ld_events(bits, header.lengths, n);
    let e4 = count_events(
        CodecMisprediction::TreeCodeCountMisprediction,
        strip_from(code_tree, 19),
        header.num_code_lengths as int,
        4,
        4,
    );
    let e5 = code_length_events(code_tree, header.code_lengths, header.num_code_lengths as int);
    lemma_holds_at_split(events, at, e1.add(e2).add(e3).add(e4), e5);
    lemma_holds_at_split(events, at, e1.add(e2).add(e3), e4);
    lemma_holds_at_split(events, at, e1.add(e2), e3);
    lemma_holds_at_split(events, at, e1, e2);
    let a2 = at + e1.len();
    let a3 = a2 + e2.len();
    let a4 = a3 + e3.len();
    let a5 = a4 + e4.len();
    lemma_count_roundtrip(
        CodecMisprediction::LiteralCountMisprediction,
        literals.len() as int,
        header.num_literals as int,
        257,
        5,
        events,
        at,
    );
    lemma_count_roundtrip(
        CodecMisprediction::DistanceCountMisprediction,
        distances.len() as int,
        header.num_dist as int,
        1,
        5,
        events,
        a2,
    );
    lemma_ld_events_len(bits, header.lengths, n);
    lemma_decode_ld_roundtrip(bits, header.lengths, 0, events, a3);
    assert(header.lengths.take(0) =~= Seq::<(TreeCodeType, u8)>::empty());
    lemma_count_roundtrip(
        CodecMisprediction::TreeCodeCountMisprediction,
        strip_from(code_tree, 19),
        header.num_code_lengths as int,
        4,
        4,
        events,
        a4,
    );
    lemma_code_length_events_len(code_tree, header.code_lengths, header.num_code_lengths as int);
    lemma_code_lengths_roundtrip(
        code_tree,
        header.code_lengths,
        header.num_code_lengths as int,
        header.num_code_lengths as int,
        events,
        a5,
    );
    assert(known_code_lengths(header.code_lengths, header.num_code_lengths as int)
        =~= header.code_lengths) by {
        lemma_tree_code_order_distinct();
        assert forall|s: int| 0 <= s < 19 implies known_code_lengths(
            header.code_lengths,
            header.num_code_lengths as int,
        )[s] == header.code_lengths[s] by {
            lemma_place_is_inverse(s);
            let i = tree_code_place()[s] as int;
            if i >= header.num_code_lengths {
                assert(header.code_lengths[tree_code_order()[i] as int] == 0);
            }
        }
    }
}

/// Entry `j` of `lengths` is what a zlib-like encoder makes of the bit
/// lengths that it stands for.
pub open spec fn entry_predicted(bit_lengths: Seq<u8>, lengths: Seq<(TreeCodeType, u8)>, j: int) -> bool {
    let symbols = bit_lengths.skip(rle_len(lengths, j));
    &&& lengths[j].0 == predict_code_type_spec(symbols, ld_previous(bit_lengths, lengths, j))
    &&& lengths[j].1 == predict_code_data_spec(symbols, lengths[j].0)
}

/// A code type is the one that its own code stands for.
pub proof fn lemma_code_type_of_code(code_type: TreeCodeType)
    ensures
        TreeCodeType::spec_from_code(code_type.spec_code()) == Some(code_type),
{
}

/// Entries that are as predicted are described by defaults.
pub proof fn lemma_ld_events_default(bit_lengths: Seq<u8>, lengths: Seq<(TreeCodeType, u8)>, n: int)
    requires
        0 <= n <= lengths.len(),
        forall|j: int| 0 <= j < n ==> entry_predicted(bit_lengths, lengths, j),
    ensures
        all_default(ld_events(bit_lengths, lengths, n)),
    decreases n,
{
    if n > 0 {
        lemma_ld_events_default(bit_lengths, lengths, n - 1);
        assert(entry_predicted(bit_lengths, lengths, n - 1));
        let entry = ld_entry_events(bit_lengths, lengths, n - 1);
        assert(entry[0].is_default());
        assert(entry[1].is_default());
        assert(all_default(entry));
        lemma_all_default_add(ld_events(bit_lengths, lengths, n - 1), entry);
    }
}

/// A run-length encoding that is rebuilt from defaults holds the
/// entries that are predicted, after those that it began with.
pub proof fn lemma_decode_ld_default(
    bit_lengths: Seq<u8>,
    pos: int,
    previous: Option<u8>,
    events: Seq<CodecAction>,
    at: int,
    lengths: Seq<(TreeCodeType, u8)>,
)
    requires
        0 <= at,
        0 <= pos,
        default_from(events, at),
        pos == rle_len(lengths, lengths.len() as int),
        previous == ld_previous(bit_lengths, lengths, lengths.len() as int),
        decode_ld(bit_lengths, pos, previous, events, at, lengths) is Ok,
        decode_ld(bit_lengths, pos, previous, events, at, lengths).unwrap().end <= events.len(),
    ensures
        ({
            let d = decode_ld(bit_lengths, pos, previous, events, at, lengths).unwrap();
            &&& d.end >= at
            &&& d.lengths.len() >= lengths.len()
            &&& d.lengths.take(lengths.len() as int) == lengths
            &&& forall|j: int|
                lengths.len() <= j < d.lengths.len() ==> entry_predicted(
                    bit_lengths,
                    d.lengths,
                    j,
                )
        }),
    decreases bit_lengths.len() - pos,
{
    let d = decode_ld(bit_lengths, pos, previous, events, at, lengths).unwrap();
    let k = lengths.len() as int;
    if pos >= bit_lengths.len() {
        assert(d.lengths.take(k) =~= lengths);
    } else {
        let symbols = bit_lengths.skip(pos);
        let predicted = predict_code_type_spec(symbols, previous);
        let code_type = TreeCodeType::spec_from_code(
            spec_decode_difference(predicted.spec_code(), correction_at(events, at)),
        ).unwrap();
        let data = spec_decode_difference(
            predict_code_data_spec(symbols, code_type) as u32,
            correction_at(events, at + 1),
        );
        let step = code_type.advance(data as int);
        let longer = lengths.push((code_type, data as u8));
        assert(longer.take(k) =~= lengths);
        lemma_rle_len_prefix(longer, lengths, k);
        if k > 0 {
            lemma_rle_len_prefix(longer, lengths, k - 1);
        }
        assert(rle_len(longer, k + 1) == pos + step);
        lemma_decode_ld_default(
            bit_lengths,
            pos + step,
            Some(bit_lengths[pos]),
            events,
            at + 2,
            longer,
        );
        lemma_default_reads(events, at);
        lemma_default_reads(events, at + 1);
        lemma_code_type_of_code(predicted);
        assert(d.lengths.take(k) =~= lengths) by {
            assert(d.lengths.take(k + 1) == longer);
            assert forall|i: int| 0 <= i < k implies d.lengths.take(k)[i] == lengths[i] by {
                assert(d.lengths.take(k + 1)[i] == longer[i]);
            }
        }
        assert(d.lengths[k] == longer[k]) by {
            assert(d.lengths.take(k + 1)[k] == longer[k]);
        }
        assert forall|j: int| k <= j < d.lengths.len() implies entry_predicted(
            bit_lengths,
            d.lengths,
            j,
        ) by {
            if j == k {
                lemma_rle_len_prefix(d.lengths, lengths, k);
                if k > 0 {
                    lemma_rle_len_prefix(d.lengths, lengths, k - 1);
                }
            }
        }
    }
}

/// The bit lengths of the code-length alphabet that are rebuilt from
/// defaults are the predicted ones, as far as they are transmitted.
pub proof fn lemma_code_lengths_default(predicted: Seq<u8>, events: Seq<CodecAction>, at: int, n: int)
    requires
        predicted.len() == 19,
        0 <= at,
        0 <= n <= 19,
        at + n <= events.len(),
        default_from(events, at),
        decode_code_lengths(predicted, events, at, n) is Ok,
    ensures
        decode_code_lengths(predicted, events, at, n).unwrap() == known_code_lengths(predicted, n),
    decreases n,
{
    lemma_tree_code_order_distinct();
    if n <= 0 {
        assert(known_code_lengths(predicted, n) =~= Seq::new(19, |i: int| 0u8));
    } else {
        lemma_code_lengths_default(predicted, events, at, n - 1);
        let symbol = tree_code_order()[n - 1] as int;
        lemma_default_reads(events, at + n - 1);
        assert(tree_code_place()[symbol] == n - 1);
        assert(known_code_lengths(predicted, n - 1).update(symbol, predicted[symbol])
            =~= known_code_lengths(predicted, n)) by {
            assert forall|s: int| 0 <= s < 19 implies known_code_lengths(predicted, n - 1).update(
                symbol,
                predicted[symbol],
            )[s] == known_code_lengths(predicted, n)[s] by {
                lemma_place_is_inverse(s);
            }
        }
    }
}

/// Bit lengths that are the predicted ones are described by defaults.
pub proof fn lemma_code_length_events_default(predicted: Seq<u8>, n: int, k: int)
    requires
        predicted.len() == 19,
        0 <= k <= n <= 19,
    ensures
        all_default(code_length_events(predicted, known_code_lengths(predicted, n), k)),
    decreases k,
{
    lemma_tree_code_order_distinct();
    if k > 0 {
        lemma_code_length_events_default(predicted, n, k - 1);
        let before = code_length_events(predicted, known_code_lengths(predicted, n), k - 1);
        let symbol = tree_code_order()[k - 1] as int;
        assert(tree_code_place()[symbol] == k - 1);
        let last = CodecAction::Correction(
            CodecCorrection::TreeCodeBitLengthCorrection,
            zigzag(known_code_lengths(predicted, n)[symbol] - predicted[symbol]) as u32,
        );
        assert(last.is_default());
        assert(all_default(seq![last]));
        lemma_all_default_add(before, seq![last]);
        assert(before.push(last) =~= before.add(seq![last]));
    }
}

/// A header that is rebuilt from defaults is described by defaults: the
/// description of a prediction that was right holds no correction.
pub proof fn lemma_header_default(
    freq: FrequencyModel,
    huffcalc: HufftreeBitCalc,
    events: Seq<CodecAction>,
    at: int,
)
    requires
        0 <= at,
        default_from(events, at),
        decode_header(freq, huffcalc, events, at) is Ok,
        decode_header(freq, huffcalc, events, at).unwrap().end <= events.len(),
    ensures
        all_default(
            tree_events(decode_header(freq, huffcalc, events, at).unwrap().header, freq, huffcalc),
        ),
{
    reveal(decode_code_tree);
    let d = decode_header(freq, huffcalc, events, at).unwrap();
    let header = d.header;
    let literals = spec_calc_bit_lengths(huffcalc, freq.literal_codes, 15);
    let distances = spec_calc_bit_lengths(huffcalc, freq.distance_codes, 15);
    let at_dist = at + count_used(events, at);
    let at_ld = at_dist + count_used(events, at_dist);
    let num_literals = decode_count(literals.len() as int, 257, events, at);
    let num_dist = decode_count(distances.len() as int, 1, events, at_dist);
    let bits = predicted_bit_lengths(huffcalc, freq, num_literals, num_dist);
    let ld = decode_ld(bits, 0, None, events, at_ld, Seq::empty()).unwrap();
    lemma_decode_ld_default(bits, 0, None, events, at_ld, Seq::empty());
    let code_tree = predicted_code_tree(huffcalc, ld.lengths);
    let at_cl = ld.end + count_used(events, ld.end);
    let num_code_lengths = decode_count(strip_from(code_tree, 19), 4, events, ld.end);
    lemma_default_reads(events, at);
    lemma_default_reads(events, at_dist);
    lemma_default_reads(events, ld.end);
    lemma_code_lengths_default(code_tree, events, at_cl, num_code_lengths);
    lemma_ld_events_default(bits, ld.lengths, ld.lengths.len() as int);
    lemma_code_length_events_default(code_tree, num_code_lengths, num_code_lengths);
    let e1 = count_events(
        CodecMisprediction::LiteralCountMisprediction,
        literals.len() as int,
        header.num_literals as int,
        257,
        5,
    );
    let e2 = count_events(
        CodecMisprediction::DistanceCountMisprediction,
        distances.len() as int,
        header.num_dist as int,
        1,
        5,
    );
    let e3 = ld_events(bits, header.lengths, header.lengths.len() as int);
    let e4 = count_events(
        CodecMisprediction::TreeCodeCountMisprediction,
        strip_from(code_tree, 19),
        header.num_code_lengths as int,
        4,
        4,
    );
    let e5 = code_length_events(code_tree, header.code_lengths, header.num_code_lengths as int);
    assert(all_default(e1));
    assert(all_default(e2));
    assert(all_default(e4));
    lemma_all_default_add(e1, e2);
    lemma_all_default_add(e1.add(e2), e3);
    lemma_all_default_add(e1.add(e2).add(e3), e4);
    lemma_all_default_add(e1.add(e2).add(e3).add(e4), e5);
}

/// The rebuilding of a header ends behind the place at which it began.
pub proof fn lemma_decode_header_end(
    freq: FrequencyModel,
    huffcalc: HufftreeBitCalc,
    events: Seq<CodecAction>,
    at: int,
)
    requires
        decode_header(freq, huffcalc, events, at) is Ok,
    ensures
        decode_header(freq, huffcalc, events, at).unwrap().end > at,
{
    reveal(decode_code_tree);
    let literals = spec_calc_bit_lengths(huffcalc, freq.literal_codes, 15);
    let distances = spec_calc_bit_lengths(huffcalc, freq.distance_codes, 15);
    let num_literals = decode_count(literals.len() as int, 257, events, at);
    let at_dist = at + count_used(events, at);
    let num_dist = decode_count(distances.len() as int, 1, events, at_dist);
    let at_ld = at_dist + count_used(events, at_dist);
    let bits = predicted_bit_lengths(huffcalc, freq, num_literals, num_dist);
    lemma_decode_ld_end(bits, 0, None, events, at_ld, Seq::empty());
}

/// The rebuilding of a run-length encoding ends at or behind the place
/// at which it began.
pub proof fn lemma_decode_ld_end(
    bit_lengths: Seq<u8>,
    pos: int,
    previous: Option<u8>,
    events: Seq<CodecAction>,
    at: int,
    lengths: Seq<(TreeCodeType, u8)>,
)
    requires
        decode_ld(bit_lengths, pos, previous, events, at, lengths) is Ok,
    ensures
        decode_ld(bit_lengths, pos, previous, events, at, lengths).unwrap().end >= at,
    decreases bit_lengths.len() - pos,
{
    if pos < 0 || pos >= bit_lengths.len() {
    } else {
        let symbols = bit_lengths.skip(pos);
        let predicted = predict_code_type_spec(symbols, previous);
        let code_type = TreeCodeType::spec_from_code(
            spec_decode_difference(predicted.spec_code(), correction_at(events, at)),
        ).unwrap();
        let data = spec_decode_difference(
            predict_code_data_spec(symbols, code_type) as u32,
            correction_at(events, at + 1),
        );
        lemma_decode_ld_end(
            bit_lengths,
            pos + code_type.advance(data as int),
            Some(bit_lengths[pos]),
            events,
            at + 2,
            lengths.push((code_type, data as u8)),
        );
    }
}

} // verus!
