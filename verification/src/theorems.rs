//! What holds of every token of a given form, and of every call.

use vstd::prelude::*;
use vstd::math::{max, min};
use crate::arguments::{
    config_view, is_first_die_mark, lemma_dash_indices_unique, pair_bounds, range_type_of,
    token_config, ParseError,
};
use crate::decimal::{
    decimal_text, is_numeral, lemma_integer_text, lemma_minus_numeral,
    lemma_numeral_of, lemma_plain_numeral, lemma_unsigned_text, numeral_of, numeral_value,
    spec_parse_i32, spec_parse_u8,
};
use crate::rolls::{RangeType, RollConfig, RollConfigView, RollTypeView};

verus! {

/// One sample between two numbers, the smaller of which is the lower bound.
pub open spec fn single_roll(a: int, b: int, shape: RangeType) -> RollConfigView {
    RollConfigView {
        lower_bound: min(a, b),
        upper_bound: max(a, b),
        times_to_roll: 1,
        roll_type: RollTypeView::Range(shape),
    }
}

/// The text `0` denotes zero.
proof fn lemma_zero_text()
    ensures
        spec_parse_i32(seq!['0']) == Some(0i32),
{
    reveal_with_fuel(numeral_value, 2);
    lemma_plain_numeral(seq!['0']);
}

/// A token without a dash that denotes the integer `n` is a positive range:
/// one sample between zero and `n`.
pub proof fn theorem_positive(token: Seq<char>, n: i32)
    requires
        !token.contains('-'),
        spec_parse_i32(token) == Some(n),
    ensures
        range_type_of(token) == Ok::<RangeType, ParseError>(RangeType::Positive),
        token_config(token) == Ok::<RollConfigView, ParseError>(
            single_roll(0, n as int, RangeType::Positive),
        ),
{
    lemma_integer_text(token);
    lemma_dash_indices_unique(token, Seq::empty());
    lemma_zero_text();
}

/// A dash before a numeral makes a negative range: one sample between the
/// negated value of the numeral and zero.
pub proof fn theorem_negative(digits: Seq<char>)
    requires
        is_numeral(digits),
        numeral_value(digits) <= 0x8000_0000,
    ensures
        range_type_of(seq!['-'] + digits) == Ok::<RangeType, ParseError>(RangeType::Negative),
        token_config(seq!['-'] + digits) == Ok::<RollConfigView, ParseError>(
            single_roll(0, -numeral_value(digits), RangeType::Negative),
        ),
{
    let token = seq!['-'] + digits;
    lemma_minus_numeral(digits);
    lemma_integer_text(token);
    let dashes = seq![0int];
    assert forall|i: int| 0 <= i < token.len() && token[i] == '-' implies dashes.contains(i) by {
        assert(dashes[0] == i);
    }
    lemma_dash_indices_unique(token, dashes);
    lemma_zero_text();
}

/// Two integer texts without a sign of minus, with a dash between them, make
/// a range from positive to positive: one sample between the two integers.
pub proof fn theorem_positive_to_positive(a: Seq<char>, b: Seq<char>, x: i32, y: i32)
    requires
        spec_parse_i32(a) == Some(x),
        spec_parse_i32(b) == Some(y),
        a[0] != '-',
        b[0] != '-',
    ensures
        range_type_of(a + seq!['-'] + b) == Ok::<RangeType, ParseError>(
            RangeType::PositiveToPositive,
        ),
        token_config(a + seq!['-'] + b) == Ok::<RollConfigView, ParseError>(
            single_roll(x as int, y as int, RangeType::PositiveToPositive),
        ),
{
    let token = a + seq!['-'] + b;
    let at = a.len() as int;
    lemma_integer_text(a);
    lemma_integer_text(b);
    let dashes = seq![at];
    assert forall|i: int| 0 <= i < token.len() && token[i] == '-' implies dashes.contains(i) by {
        assert(dashes[0] == i);
    }
    lemma_dash_indices_unique(token, dashes);
    assert(token.subrange(0, at) =~= a);
    assert(token.subrange(at + 1, token.len() as int) =~= b);
}

/// An integer text without a sign of minus, two dashes and a numeral make a
/// range from positive to negative: one sample between the integer and the
/// negated value of the numeral.
pub proof fn theorem_positive_to_negative(a: Seq<char>, b: Seq<char>, x: i32)
    requires
        spec_parse_i32(a) == Some(x),
        a[0] != '-',
        is_numeral(b),
        numeral_value(b) <= 0x8000_0000,
    ensures
        range_type_of(a + seq!['-', '-'] + b) == Ok::<RangeType, ParseError>(
            RangeType::PositiveToNegative,
        ),
        token_config(a + seq!['-', '-'] + b) == Ok::<RollConfigView, ParseError>(
            single_roll(x as int, -numeral_value(b), RangeType::PositiveToNegative),
        ),
{
    let token = a + seq!['-', '-'] + b;
    let at = a.len() as int;
    lemma_integer_text(a);
    lemma_minus_numeral(b);
    lemma_integer_text(seq!['-'] + b);
    lemma_dash_indices_unique(token, seq![at, at + 1]);
    assert(token.subrange(0, at) =~= a);
    assert(token.subrange(at + 1, token.len() as int) =~= seq!['-'] + b);
}

/// A dash, a numeral, a dash and an integer text without a sign of minus make
/// a range from negative to positive: one sample between the negated value of
/// the numeral and the integer.
pub proof fn theorem_negative_to_positive(a: Seq<char>, b: Seq<char>, y: i32)
    requires
        is_numeral(a),
        numeral_value(a) <= 0x8000_0000,
        spec_parse_i32(b) == Some(y),
        b[0] != '-',
    ensures
        range_type_of(seq!['-'] + a + seq!['-'] + b) == Ok::<RangeType, ParseError>(
            RangeType::NegativeToPositive,
        ),
        token_config(seq!['-'] + a + seq!['-'] + b) == Ok::<RollConfigView, ParseError>(
            single_roll(-numeral_value(a), y as int, RangeType::NegativeToPositive),
        ),
{
    let token = seq!['-'] + a + seq!['-'] + b;
    let at = a.len() as int + 1;
    lemma_minus_numeral(a);
    lemma_integer_text(seq!['-'] + a);
    lemma_integer_text(b);
    lemma_dash_indices_unique(token, seq![0int, at]);
    assert(token.subrange(0, at) =~= seq!['-'] + a);
    assert(token.subrange(at + 1, token.len() as int) =~= b);
}

/// A dash, a numeral, two dashes and a numeral make a range from negative to
/// negative: one sample between the negated values of the two numerals.
pub proof fn theorem_negative_to_negative(a: Seq<char>, b: Seq<char>)
    requires
        is_numeral(a),
        numeral_value(a) <= 0x8000_0000,
        is_numeral(b),
        numeral_value(b) <= 0x8000_0000,
    ensures
        range_type_of(seq!['-'] + a + seq!['-', '-'] + b) == Ok::<RangeType, ParseError>(
            RangeType::NegativeToNegative,
        ),
        token_config(seq!['-'] + a + seq!['-', '-'] + b) == Ok::<RollConfigView, ParseError>(
            single_roll(-numeral_value(a), -numeral_value(b), RangeType::NegativeToNegative),
        ),
{
    let token = seq!['-'] + a + seq!['-', '-'] + b;
    let at = a.len() as int + 1;
    lemma_minus_numeral(a);
    lemma_minus_numeral(b);
    lemma_integer_text(seq!['-'] + a);
    lemma_integer_text(seq!['-'] + b);
    lemma_dash_indices_unique(token, seq![0int, at, at + 1]);
    assert(token.subrange(0, at) =~= seq!['-'] + a);
    assert(token.subrange(at + 1, token.len() as int) =~= seq!['-'] + b);
}

/// Every configuration that a token resolves to draws at least one sample.
/// That of a range expression draws exactly one, between bounds that are in
/// order; that of a die expression starts at one.
pub proof fn theorem_resolved_config(token: Seq<char>)
    ensures
        token_config(token) matches Ok(config) ==> {
            &&& config.times_to_roll >= 1
            &&& match config.roll_type {
                RollTypeView::Range(_) => config.times_to_roll == 1 && config.lower_bound
                    <= config.upper_bound,
                RollTypeView::Die(_) => config.lower_bound == 1,
            }
        },
{
}

/// A die expression whose count denotes zero is refused: no configuration
/// draws nothing.
pub proof fn theorem_zero_count_is_refused(count: Seq<char>, rest: Seq<char>)
    requires
        spec_parse_u8(count) == Some(0u8),
    ensures
        token_config(count + seq!['d'] + rest) == Err::<RollConfigView, ParseError>(
            ParseError::MalformedDieToken,
        ),
{
    let token = count + seq!['d'] + rest;
    let at = count.len() as int;
    lemma_unsigned_text(count);
    assert(is_first_die_mark(token, at));
    assert((choose|i: int| is_first_die_mark(token, i)) == at);
    assert(token.subrange(0, at) =~= count);
}

/// An integer written in decimal notation reads back as itself.
pub proof fn theorem_written_integer_reads_back(n: i32)
    ensures
        spec_parse_i32(decimal_text(n as int)) == Some(n),
{
    if n < 0 {
        let digits = numeral_of((-n) as nat);
        lemma_numeral_of((-n) as nat);
        lemma_minus_numeral(digits);
    } else {
        lemma_numeral_of(n as nat);
        lemma_plain_numeral(numeral_of(n as nat));
    }
}

/// The bounds that two integer texts give are in ascending order, and are
/// the same whichever of the two texts comes first.
pub proof fn theorem_bounds_ascend(first: Seq<char>, second: Seq<char>)
    requires
        spec_parse_i32(first) is Some,
        spec_parse_i32(second) is Some,
    ensures
        pair_bounds(first, second) matches Ok(bounds) && bounds.len() == 2 && bounds[0]
            <= bounds[1],
        pair_bounds(first, second) == pair_bounds(second, first),
{
}

/// Where one of two texts denotes no integer, no bounds come of them: the
/// outcome is the error for a malformed number.
pub proof fn theorem_malformed_bound(first: Seq<char>, second: Seq<char>)
    requires
        spec_parse_i32(first) is None || spec_parse_i32(second) is None,
    ensures
        pair_bounds(first, second) == Err::<Seq<i32>, ParseError>(ParseError::MalformedNumber),
{
}

/// A token without a dash and without a `d` that denotes no integer is
/// refused as a malformed number. It is never taken for zero.
pub proof fn theorem_malformed_number(token: Seq<char>)
    requires
        !token.contains('-'),
        !token.contains('d'),
        spec_parse_i32(token) is None,
    ensures
        token_config(token) == Err::<RollConfigView, ParseError>(ParseError::MalformedNumber),
{
    lemma_dash_indices_unique(token, Seq::empty());
}

/// What a token resolves to depends on its text alone: two calls on tokens of
/// the same text have the same outcome, configuration or error.
pub proof fn theorem_same_text_same_outcome(
    first: &str,
    second: &str,
    first_outcome: Result<RollConfig, ParseError>,
    second_outcome: Result<RollConfig, ParseError>,
)
    requires
        first@ == second@,
        config_view(first_outcome) == token_config(first@),
        config_view(second_outcome) == token_config(second@),
    ensures
        config_view(first_outcome) == config_view(second_outcome),
{
}

} // verus!
