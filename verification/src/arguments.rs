//! From tokens to roll configurations.
//!
//! A token with a `d` in it is a die expression. Any other token is a range
//! expression, and what its dashes mean (a sign, or the separator between two
//! bounds) is decided by how many there are and whether the first one opens
//! the token.

use vstd::prelude::*;
use vstd::seq_lib::{lemma_sorted_unique, to_multiset_build, to_multiset_insert};
use crate::decimal::{
    characters, decimal_text, parse_i32, parse_u8, push_decimal, spec_parse_i32, spec_parse_u8,
};
use crate::rolls::{RangeType, RollConfig, RollConfigView, RollType, RollTypeView};

verus! {

/// Why a token could not be resolved.
#[derive(Debug, Clone, Copy, PartialEq, Eq, Structural)]
pub enum ParseError {
    /// A part of a range expression that should be an integer is none.
    MalformedNumber,
    /// A range expression has more than three dashes.
    UnclassifiableRange,
    /// A die expression lacks a valid count, which is at least one, or a
    /// valid number of sides.
    MalformedDieToken,
}

impl ParseError {
    /// The words that say what went wrong.
    pub open spec fn message_text(self) -> Seq<char> {
        match self {
            ParseError::MalformedNumber => "Not an integer!"@,
            ParseError::UnclassifiableRange => "Unable to determine roll type"@,
            ParseError::MalformedDieToken => "Not a die roll!"@,
        }
    }

    /// Says in words what went wrong.
    pub fn message(&self) -> (text: &'static str)
        ensures
            text@ == self.message_text(),
    {
        match self {
            ParseError::MalformedNumber => "Not an integer!",
            ParseError::UnclassifiableRange => "Unable to determine roll type",
            ParseError::MalformedDieToken => "Not a die roll!",
        }
    }
}

/// The indices at which `s` has a dash, in ascending order.
pub open spec fn dash_indices(s: Seq<char>) -> Seq<int>
    decreases s.len(),
{
    if s.len() == 0 {
        Seq::empty()
    } else if s.last() == '-' {
        dash_indices(s.drop_last()).push(s.len() - 1)
    } else {
        dash_indices(s.drop_last())
    }
}

/// The shape of a range expression, which the number of its dashes and the
/// place of the first one decide. With more than three dashes it has none.
pub open spec fn range_type_of(s: Seq<char>) -> Result<RangeType, ParseError> {
    let dashes = dash_indices(s);
    if dashes.len() == 0 {
        Ok(RangeType::Positive)
    } else if dashes.len() == 1 {
        if dashes[0] == 0 {
            Ok(RangeType::Negative)
        } else {
            Ok(RangeType::PositiveToPositive)
        }
    } else if dashes.len() == 2 {
        if dashes[0] == 0 {
            Ok(RangeType::NegativeToPositive)
        } else {
            Ok(RangeType::PositiveToNegative)
        }
    } else if dashes.len() == 3 {
        Ok(RangeType::NegativeToNegative)
    } else {
        Err(ParseError::UnclassifiableRange)
    }
}

/// Each entry of `dash_indices` is the index of a dash, the entries ascend,
/// and no dash is left out.
pub proof fn lemma_dash_indices(s: Seq<char>)
    ensures
        forall|k: int|
            0 <= k < dash_indices(s).len() ==> 0 <= #[trigger] dash_indices(s)[k] < s.len()
                && s[dash_indices(s)[k]] == '-',
        forall|j: int, k: int|
            0 <= j < k < dash_indices(s).len() ==> dash_indices(s)[j] < dash_indices(s)[k],
        forall|i: int| 0 <= i < s.len() && s[i] == '-' ==> dash_indices(s).contains(i),
    decreases s.len(),
{
    if s.len() > 0 {
        let front = s.drop_last();
        lemma_dash_indices(front);
        assert forall|i: int| 0 <= i < s.len() && s[i] == '-' implies dash_indices(s).contains(
            i,
        ) by {
            if i < s.len() - 1 {
                assert(front[i] == '-');
                let k = choose|k: int|
                    0 <= k < dash_indices(front).len() && dash_indices(front)[k] == i;
                assert(dash_indices(s)[k] == i);
            } else {
                assert(dash_indices(s)[dash_indices(s).len() - 1] == i);
            }
        }
    }
}

/// The three facts of `lemma_dash_indices` leave no choice: a sequence of
/// which they hold is `dash_indices`.
pub proof fn lemma_dash_indices_unique(s: Seq<char>, dashes: Seq<int>)
    requires
        forall|k: int|
            0 <= k < dashes.len() ==> 0 <= #[trigger] dashes[k] < s.len() && s[dashes[k]] == '-',
        forall|j: int, k: int| 0 <= j < k < dashes.len() ==> dashes[j] < dashes[k],
        forall|i: int| 0 <= i < s.len() && s[i] == '-' ==> dashes.contains(i),
    ensures
        dash_indices(s) == dashes,
    decreases s.len(),
{
    if s.len() == 0 {
        if dashes.len() > 0 {
            assert(0 <= dashes[0] < s.len());
        }
    } else {
        let front = s.drop_last();
        let end = s.len() - 1;
        if s.last() == '-' {
            let k = choose|k: int| 0 <= k < dashes.len() && dashes[k] == end;
            if k < dashes.len() - 1 {
                assert(dashes[k] < dashes[dashes.len() - 1]);
            }
            let rest = dashes.drop_last();
            assert forall|i: int| 0 <= i < front.len() && front[i] == '-' implies rest.contains(
                i,
            ) by {
                let j = choose|j: int| 0 <= j < dashes.len() && dashes[j] == i;
                assert(rest[j] == i);
            }
            lemma_dash_indices_unique(front, rest);
        } else {
            lemma_dash_indices_unique(front, dashes);
        }
    }
}

/// Finds every dash of `arg`.
pub fn dash_positions(arg: &str) -> (dashes: Vec<usize>)
    ensures
        dashes@.map_values(|at: usize| at as int) == dash_indices(arg@),
{
    let chars = characters(arg);
    let mut dashes: Vec<usize> = Vec::new();
    let mut i: usize = 0;
    while i < chars.len()
        invariant
            i <= chars.len(),
            dashes@.map_values(|at: usize| at as int) == dash_indices(chars@.take(i as int)),
        decreases chars.len() - i,
    {
        assert(chars@.take(i + 1).drop_last() =~= chars@.take(i as int));
        if chars[i] == '-' {
            dashes.push(i);
        }
        i += 1;
    }
    assert(chars@.take(i as int) =~= chars@);
    dashes
}

/// Tells which of the six shapes a range expression has.
pub fn detect_range_type(arg: &str) -> (shape: Result<RangeType, ParseError>)
    ensures
        shape == range_type_of(arg@),
{
    let dashes = dash_positions(arg);
    let dash_count = dashes.len();
    match dash_count {
        0 => Ok(RangeType::Positive),
        1 => match dashes[0] {
            0 => Ok(RangeType::Negative),
            _ => Ok(RangeType::PositiveToPositive),
        },
        2 => match dashes[0] {
            0 => Ok(RangeType::NegativeToPositive),
            _ => Ok(RangeType::PositiveToNegative),
        },
        3 => Ok(RangeType::NegativeToNegative),
        _ => Err(ParseError::UnclassifiableRange),
    }
}

/// Every text of `texts` denotes an `i32`.
pub open spec fn all_integers(texts: Seq<&str>) -> bool {
    forall|i: int| 0 <= i < texts.len() ==> spec_parse_i32((#[trigger] texts[i])@) is Some
}

/// The integers that the texts denote, in the order of the texts.
pub open spec fn integers_of(texts: Seq<&str>) -> Seq<i32> {
    Seq::new(texts.len(), |i: int| spec_parse_i32(texts[i]@).unwrap())
}

/// No value is followed by a smaller one.
pub open spec fn is_ascending(values: Seq<i32>) -> bool {
    forall|i: int, j: int| 0 <= i < j < values.len() ==> values[i] <= values[j]
}

/// Two integers in ascending order.
pub open spec fn ascending_pair(a: i32, b: i32) -> Seq<i32> {
    if a <= b {
        seq![a, b]
    } else {
        seq![b, a]
    }
}

/// An ascending sequence made of the two values `a` and `b` is the pair of
/// them with the smaller one first.
pub proof fn lemma_ascending_pair(values: Seq<i32>, a: i32, b: i32)
    requires
        is_ascending(values),
        values.to_multiset() == seq![a, b].to_multiset(),
    ensures
        values == ascending_pair(a, b),
{
    let leq = |x: i32, y: i32| x <= y;
    let pair = ascending_pair(a, b);
    assert(pair.to_multiset() == seq![a, b].to_multiset()) by {
        let none = Seq::<i32>::empty();
        to_multiset_build(none, a);
        to_multiset_build(none, b);
        to_multiset_build(none.push(a), b);
        to_multiset_build(none.push(b), a);
        assert(seq![a, b] =~= none.push(a).push(b));
        assert(seq![b, a] =~= none.push(b).push(a));
    }
    lemma_sorted_unique(values, pair, leq);
}

/// Puts `value` into an ascending vector, behind the values that are not
/// greater and before those that are.
fn insert_ascending(values: &mut Vec<i32>, value: i32)
    requires
        is_ascending(old(values)@),
    ensures
        is_ascending(final(values)@),
        final(values)@.to_multiset() == old(values)@.to_multiset().insert(value),
{
    let mut at: usize = 0;
    while at < values.len() && values[at] <= value
        invariant
            at <= values.len(),
            values@ == old(values)@,
            forall|i: int| 0 <= i < at ==> values@[i] <= value,
        decreases values.len() - at,
    {
        at += 1;
    }
    proof {
        to_multiset_insert(values@, at as int, value);
    }
    values.insert(at, value);
}

/// Parses each text as an `i32` and puts the integers in ascending order.
/// Fails on the first text that denotes no `i32`.
pub fn parse_string_vector(input: &[&str]) -> (parsed: Result<Vec<i32>, ParseError>)
    ensures
        match parsed {
            Ok(values) => {
                &&& all_integers(input@)
                &&& is_ascending(values@)
                &&& values@.to_multiset() == integers_of(input@).to_multiset()
            },
            Err(error) => error == ParseError::MalformedNumber && !all_integers(input@),
        },
{
    let mut parsed: Vec<i32> = Vec::new();
    let mut i: usize = 0;
    assert(parsed@ =~= integers_of(input@.take(0)));
    while i < input.len()
        invariant
            i <= input.len(),
            all_integers(input@.take(i as int)),
            is_ascending(parsed@),
            parsed@.to_multiset() == integers_of(input@.take(i as int)).to_multiset(),
        decreases input.len() - i,
    {
        match parse_i32(input[i]) {
            Some(value) => {
                proof {
                    let before = integers_of(input@.take(i as int));
                    assert(integers_of(input@.take(i + 1)) =~= before.push(value));
                    to_multiset_build(before, value);
                }
                insert_ascending(&mut parsed, value);
            },
            None => {
                return Err(ParseError::MalformedNumber);
            },
        }
        i += 1;
    }
    assert(input@.take(i as int) =~= input@);
    Ok(parsed)
}

/// What a call that returns bounds has produced, with the vector as a sequence.
pub open spec fn bounds_view(bounds: Result<Vec<i32>, ParseError>) -> Result<Seq<i32>, ParseError> {
    match bounds {
        Ok(values) => Ok(values@),
        Err(error) => Err(error),
    }
}

/// The bounds that two texts give: the integers they denote, smaller one first.
pub open spec fn pair_bounds(first: Seq<char>, second: Seq<char>) -> Result<Seq<i32>, ParseError> {
    match (spec_parse_i32(first), spec_parse_i32(second)) {
        (Some(a), Some(b)) => Ok(ascending_pair(a, b)),
        _ => Err(ParseError::MalformedNumber),
    }
}

/// The bounds that `s` gives when the character at index `at` separates them.
pub open spec fn split_bounds(s: Seq<char>, at: int) -> Result<Seq<i32>, ParseError> {
    pair_bounds(s.subrange(0, at), s.subrange(at + 1, s.len() as int))
}

/// Parses two texts as the bounds of a range.
fn parse_pair(first: &str, second: &str) -> (bounds: Result<Vec<i32>, ParseError>)
    ensures
        bounds_view(bounds) == pair_bounds(first@, second@),
{
    let texts = [first, second];
    let bounds = parse_string_vector(&texts);
    proof {
        let given: Seq<&str> = texts@;
        if all_integers(given) {
            let a = spec_parse_i32(first@).unwrap();
            let b = spec_parse_i32(second@).unwrap();
            assert(integers_of(given) =~= seq![a, b]);
            lemma_ascending_pair(bounds.unwrap()@, a, b);
        }
    }
    bounds
}

/// Parses a range whose first bound has no sign: the first dash separates
/// the bounds.
pub fn parse_pos_start_range(arg: &str) -> (bounds: Result<Vec<i32>, ParseError>)
    requires
        dash_indices(arg@).len() >= 1,
    ensures
        bounds_view(bounds) == split_bounds(arg@, dash_indices(arg@)[0]),
{
    let dashes = dash_positions(arg);
    let split_at = dashes[0];
    proof {
        lemma_dash_indices(arg@);
    }
    let length = arg.unicode_len();
    let first = arg.substring_char(0, split_at);
    let second = arg.substring_char(split_at + 1, length);
    parse_pair(first, second)
}

/// Parses a range whose first bound is negative: the first dash is its sign,
/// and the second dash separates the bounds.
pub fn parse_neg_start_range(arg: &str) -> (bounds: Result<Vec<i32>, ParseError>)
    requires
        dash_indices(arg@).len() >= 2,
    ensures
        bounds_view(bounds) == split_bounds(arg@, dash_indices(arg@)[1]),
{
    let dashes = dash_positions(arg);
    let split_at = dashes[1];
    proof {
        lemma_dash_indices(arg@);
    }
    let length = arg.unicode_len();
    let first = arg.substring_char(0, split_at);
    let second = arg.substring_char(split_at + 1, length);
    parse_pair(first, second)
}

/// The bounds of a range expression of the given shape. A single number runs
/// from zero; in the other shapes a dash separates the two bounds.
pub open spec fn range_bounds(s: Seq<char>, shape: RangeType) -> Result<Seq<i32>, ParseError> {
    match shape {
        RangeType::Positive | RangeType::Negative => pair_bounds(seq!['0'], s),
        RangeType::NegativeToNegative | RangeType::NegativeToPositive => split_bounds(
            s,
            dash_indices(s)[1],
        ),
        RangeType::PositiveToNegative | RangeType::PositiveToPositive => split_bounds(
            s,
            dash_indices(s)[0],
        ),
    }
}

/// The configuration that a range expression resolves to: one sample between
/// its two bounds.
pub open spec fn range_config(s: Seq<char>) -> Result<RollConfigView, ParseError> {
    match range_type_of(s) {
        Ok(shape) => match range_bounds(s, shape) {
            Ok(bounds) => Ok(
                RollConfigView {
                    lower_bound: bounds[0] as int,
                    upper_bound: bounds[1] as int,
                    times_to_roll: 1,
                    roll_type: RollTypeView::Range(shape),
                },
            ),
            Err(error) => Err(error),
        },
        Err(error) => Err(error),
    }
}

/// What a call that returns a configuration has produced, with the
/// configuration as its mathematical value.
pub open spec fn config_view(config: Result<RollConfig, ParseError>) -> Result<
    RollConfigView,
    ParseError,
> {
    match config {
        Ok(config) => Ok(config@),
        Err(error) => Err(error),
    }
}

/// Resolves a range expression: finds its shape, parses its bounds as the
/// shape demands, and orders them.
pub fn generate_range_config(arg: &str) -> (config: Result<RollConfig, ParseError>)
    ensures
        config_view(config) == range_config(arg@),
{
    let range_type = match detect_range_type(arg) {
        Ok(range_type) => range_type,
        Err(error) => {
            return Err(error);
        },
    };
    proof {
        reveal_strlit("0");
        assert("0"@ =~= seq!['0']);
    }
    let parsed_arguments = match range_type {
        RangeType::Positive => parse_pair("0", arg),
        RangeType::Negative => parse_pair("0", arg),
        RangeType::NegativeToNegative => parse_neg_start_range(arg),
        RangeType::NegativeToPositive => parse_neg_start_range(arg),
        RangeType::PositiveToNegative => parse_pos_start_range(arg),
        RangeType::PositiveToPositive => parse_pos_start_range(arg),
    };
    match parsed_arguments {
        Ok(bounds) => {
            let lower = bounds[0];
            let upper = bounds[1];
            Ok(RollConfig::new(lower, upper, 1, RollType::Range(range_type)))
        },
        Err(error) => Err(error),
    }
}

/// The letter that separates the count of a die expression from its sides,
/// in either case.
pub open spec fn is_die_mark(c: char) -> bool {
    c == 'd' || c == 'D'
}

/// Index `at` holds the first die mark of `s`.
pub open spec fn is_first_die_mark(s: Seq<char>, at: int) -> bool {
    &&& 0 <= at < s.len()
    &&& is_die_mark(s[at])
    &&& forall|i: int| 0 <= i < at ==> !is_die_mark(#[trigger] s[i])
}

/// The label of a die expression: count, `d`, sides, each in decimal notation.
pub open spec fn die_label_text(times: u8, sides: i32) -> Seq<char> {
    decimal_text(times as int) + seq!['d'] + decimal_text(sides as int)
}

/// The count that the text before a die mark gives: one where there is no
/// text, else the `u8` that the text denotes. A roll draws at least one
/// sample, so a text that denotes zero gives no count.
pub open spec fn die_count(text: Seq<char>) -> Option<u8> {
    if text.len() == 0 {
        Some(1u8)
    } else {
        match spec_parse_u8(text) {
            Some(times) => if times >= 1 {
                Some(times)
            } else {
                None
            },
            None => None,
        }
    }
}

/// The configuration that a die expression resolves to. The text before the
/// first die mark gives the count; the text after it is the number of sides,
/// which bounds the samples from above, and the samples start at one.
pub open spec fn die_config(s: Seq<char>) -> Result<RollConfigView, ParseError> {
    if exists|at: int| is_first_die_mark(s, at) {
        let at = choose|at: int| is_first_die_mark(s, at);
        let times = die_count(s.subrange(0, at));
        let sides = spec_parse_i32(s.subrange(at + 1, s.len() as int));
        match (times, sides) {
            (Some(times), Some(sides)) => Ok(
                RollConfigView {
                    lower_bound: 1,
                    upper_bound: sides as int,
                    times_to_roll: times as nat,
                    roll_type: RollTypeView::Die(die_label_text(times, sides)),
                },
            ),
            _ => Err(ParseError::MalformedDieToken),
        }
    } else {
        Err(ParseError::MalformedDieToken)
    }
}

/// Finds the first die mark of `arg`.
pub fn find_die_mark(arg: &str) -> (found: Option<usize>)
    ensures
        match found {
            Some(at) => is_first_die_mark(arg@, at as int),
            None => forall|i: int| 0 <= i < arg@.len() ==> !is_die_mark(#[trigger] arg@[i]),
        },
{
    let chars = characters(arg);
    let mut i: usize = 0;
    while i < chars.len()
        invariant
            i <= chars.len(),
            chars@ == arg@,
            forall|j: int| 0 <= j < i ==> !is_die_mark(#[trigger] chars@[j]),
        decreases chars.len() - i,
    {
        if chars[i] == 'd' || chars[i] == 'D' {
            return Some(i);
        }
        i += 1;
    }
    None
}

/// Writes the label of a die expression.
pub fn die_label(times: u8, sides: i32) -> (label: String)
    ensures
        label@ == die_label_text(times, sides),
{
    let mut label = String::new();
    push_decimal(&mut label, times as i64);
    proof {
        reveal_strlit("d");
    }
    label.append("d");
    push_decimal(&mut label, sides as i64);
    label
}

/// Resolves a die expression. A count of zero is refused, as a count that
/// is no number is.
pub fn generate_die_config(arg: &str) -> (config: Result<RollConfig, ParseError>)
    ensures
        config_view(config) == die_config(arg@),
        config matches Ok(resolved) ==> resolved@.times_to_roll >= 1,
{
    let split_at = match find_die_mark(arg) {
        Some(at) => at,
        None => {
            return Err(ParseError::MalformedDieToken);
        },
    };
    assert((choose|at: int| is_first_die_mark(arg@, at)) == split_at);
    let length = arg.unicode_len();
    let times_to_roll: u8 = match split_at {
        0 => 1,
        _ => match parse_u8(arg.substring_char(0, split_at)) {
            Some(times) => {
                if times == 0 {
                    return Err(ParseError::MalformedDieToken);
                }
                times
            },
            None => {
                return Err(ParseError::MalformedDieToken);
            },
        },
    };
    let upper = match parse_i32(arg.substring_char(split_at + 1, length)) {
        Some(sides) => sides,
        None => {
            return Err(ParseError::MalformedDieToken);
        },
    };
    let roll_type = RollType::Die(die_label(times_to_roll, upper));
    Ok(RollConfig::new(1, upper, times_to_roll, roll_type))
}

/// The configuration that a token resolves to: that of a die expression
/// where the token has a lower-case `d`, and that of a range expression
/// where it has none.
pub open spec fn token_config(s: Seq<char>) -> Result<RollConfigView, ParseError> {
    if s.contains('d') {
        die_config(s)
    } else {
        range_config(s)
    }
}

/// Whether `arg` has a lower-case `d`.
pub fn has_lower_case_d(arg: &str) -> (found: bool)
    ensures
        found == arg@.contains('d'),
{
    let chars = characters(arg);
    let mut i: usize = 0;
    while i < chars.len()
        invariant
            i <= chars.len(),
            chars@ == arg@,
            forall|j: int| 0 <= j < i ==> chars@[j] != 'd',
        decreases chars.len() - i,
    {
        if chars[i] == 'd' {
            return true;
        }
        i += 1;
    }
    false
}

/// Resolves one token to the configuration of a roll, which draws at least
/// one sample.
pub fn generate_config(arg: &str) -> (config: Result<RollConfig, ParseError>)
    ensures
        config_view(config) == token_config(arg@),
        config matches Ok(resolved) ==> resolved@.times_to_roll >= 1,
{
    if has_lower_case_d(arg) {
        return generate_die_config(arg);
    }
    generate_range_config(arg)
}

/// What is rolled where no token is given: one sample from 1 up to 100.
pub open spec fn default_config() -> RollConfigView {
    RollConfigView {
        lower_bound: 1,
        upper_bound: 100,
        times_to_roll: 1,
        roll_type: RollTypeView::Range(RangeType::Positive),
    }
}

/// Token `at` is the first of `tokens` that cannot be resolved, and `error`
/// is why.
pub open spec fn fails_first_at(tokens: Seq<String>, at: int, error: ParseError) -> bool {
    &&& 0 <= at < tokens.len()
    &&& token_config(tokens[at]@) == Err::<RollConfigView, ParseError>(error)
    &&& forall|i: int| 0 <= i < at ==> token_config((#[trigger] tokens[i])@) is Ok
}

/// Resolves the tokens of a command line, the program's own name left out,
/// one configuration for each and in their order. Without any token the
/// outcome is the one default configuration. The first token that cannot be
/// resolved ends the work, and its error is the outcome. Each configuration
/// draws at least one sample.
pub fn parse(args: &[String]) -> (parsed: Result<Vec<RollConfig>, ParseError>)
    ensures
        match parsed {
            Ok(configs) => if args@.len() == 0 {
                configs@.len() == 1 && configs@[0]@ == default_config()
            } else {
                &&& configs@.len() == args@.len()
                &&& forall|i: int|
                    0 <= i < args@.len() ==> token_config((#[trigger] args@[i])@) == Ok::<
                        RollConfigView,
                        ParseError,
                    >(configs@[i]@)
            },
            Err(error) => exists|at: int| fails_first_at(args@, at, error),
        },
        parsed matches Ok(configs) ==> forall|i: int|
            0 <= i < configs@.len() ==> (#[trigger] configs@[i])@.times_to_roll >= 1,
{
    let mut parsed_arguments: Vec<RollConfig> = Vec::new();
    let mut i: usize = 0;
    while i < args.len()
        invariant
            i <= args.len(),
            parsed_arguments@.len() == i,
            forall|j: int|
                0 <= j < i ==> (#[trigger] parsed_arguments@[j])@.times_to_roll >= 1,
            forall|j: int|
                0 <= j < i ==> token_config((#[trigger] args@[j])@) == Ok::<
                    RollConfigView,
                    ParseError,
                >(parsed_arguments@[j]@),
        decreases args.len() - i,
    {
        match generate_config(args[i].as_str()) {
            Ok(config) => {
                parsed_arguments.push(config);
            },
            Err(error) => {
                assert(fails_first_at(args@, i as int, error));
                return Err(error);
            },
        }
        i += 1;
    }
    if parsed_arguments.len() == 0 {
        let roll_type = RollType::Range(RangeType::Positive);
        parsed_arguments.push(RollConfig::new(1, 100, 1, roll_type));
    }
    Ok(parsed_arguments)
}

} // verus!
