//! Roll configurations, their evaluation, and the results.

use vstd::prelude::*;

verus! {

/// The six shapes a range expression can take, told apart by its dashes.
#[derive(Debug, PartialEq, Eq, Clone, Copy, Structural)]
pub enum RangeType {
    Positive,
    Negative,
    PositiveToPositive,
    PositiveToNegative,
    NegativeToPositive,
    NegativeToNegative,
}

/// What kind of expression a roll came from.
#[derive(Debug, PartialEq, Eq)]
pub enum RollType {
    /// A die expression, with its label in the form `<count>d<sides>`.
    Die(String),
    /// A range expression of the given shape.
    Range(RangeType),
}

/// The mathematical value of a [`RollType`]: the label as a sequence of characters.
pub enum RollTypeView {
    Die(Seq<char>),
    Range(RangeType),
}

impl View for RollType {
    type V = RollTypeView;

    open spec fn view(&self) -> RollTypeView {
        match self {
            RollType::Die(label) => RollTypeView::Die(label@),
            RollType::Range(shape) => RollTypeView::Range(*shape),
        }
    }
}

impl Clone for RollType {
    fn clone(&self) -> (copy: Self)
        ensures
            copy@ == self@,
    {
        match self {
            RollType::Die(label) => RollType::Die(label.clone()),
            RollType::Range(shape) => RollType::Range(*shape),
        }
    }
}

/// What to roll: the bounds to draw from, how often, which is at least once,
/// and the kind of expression that asked for it.
#[derive(Debug)]
pub struct RollConfig {
    lower_bound: i32,
    upper_bound: i32,
    times_to_roll: u8,
    roll_type: RollType,
}

/// The mathematical value of a [`RollConfig`].
pub struct RollConfigView {
    pub lower_bound: int,
    pub upper_bound: int,
    pub times_to_roll: nat,
    pub roll_type: RollTypeView,
}

impl View for RollConfig {
    type V = RollConfigView;

    closed spec fn view(&self) -> RollConfigView {
        RollConfigView {
            lower_bound: self.lower_bound as int,
            upper_bound: self.upper_bound as int,
            times_to_roll: self.times_to_roll as nat,
            roll_type: self.roll_type@,
        }
    }
}

/// The sum of a sequence of samples.
pub open spec fn total(samples: Seq<i32>) -> int
    decreases samples.len(),
{
    if samples.len() == 0 {
        0
    } else {
        total(samples.drop_last()) + samples.last()
    }
}

/// The sum of samples lies between the least and the greatest sum that as
/// many values of `i32` can have.
pub proof fn lemma_total_bounds(samples: Seq<i32>)
    ensures
        samples.len() * i32::MIN <= total(samples) <= samples.len() * i32::MAX,
    decreases samples.len(),
{
    if samples.len() > 0 {
        lemma_total_bounds(samples.drop_last());
    }
}

/// `rand::rngs::ThreadRng`, the handle to the random number generator that
/// `rand` keeps for each thread. Nothing of what it holds is visible here.
#[verifier::external_type_specification]
#[verifier::external_body]
pub struct ExThreadRng(rand::rngs::ThreadRng);

/// `rand::thread_rng` hands out the generator of the current thread. Nothing
/// is claimed of the handle it returns.
pub assume_specification[ rand::thread_rng ]() -> (generator: rand::rngs::ThreadRng);

/// Draws one integer by `rand::Rng::gen_range`. Claimed of it: for
/// `lower < upper` it returns, and what it returns lies in the half-open
/// interval from `lower` up to, not including, `upper`. Which value of the
/// interval comes is left open.
#[verifier::external_body]
fn sample(generator: &mut rand::rngs::ThreadRng, lower: i32, upper: i32) -> (drawn: i32)
    requires
        lower < upper,
    ensures
        lower <= drawn < upper,
{
    rand::Rng::gen_range(generator, lower, upper)
}

impl RollConfig {
    /// A roll draws at least one sample.
    #[verifier::type_invariant]
    spec fn draws_a_sample(&self) -> bool {
        self.times_to_roll >= 1
    }

    /// A configuration that draws `r` samples, at least one, from `a` up to,
    /// not including, `b`, for an expression of kind `t`.
    pub fn new(a: i32, b: i32, r: u8, t: RollType) -> (config: RollConfig)
        requires
            r >= 1,
        ensures
            config@ == (RollConfigView {
                lower_bound: a as int,
                upper_bound: b as int,
                times_to_roll: r as nat,
                roll_type: t@,
            }),
    {
        RollConfig { lower_bound: a, upper_bound: b, times_to_roll: r, roll_type: t }
    }

    /// The least value that a sample can have.
    pub fn lower_bound(&self) -> (bound: i32)
        ensures
            bound == self@.lower_bound,
    {
        self.lower_bound
    }

    /// The value that every sample stays below.
    pub fn upper_bound(&self) -> (bound: i32)
        ensures
            bound == self@.upper_bound,
    {
        self.upper_bound
    }

    /// How many samples a roll draws: at least one.
    pub fn times_to_roll(&self) -> (times: u8)
        ensures
            times == self@.times_to_roll,
            times >= 1,
    {
        proof {
            use_type_invariant(self);
        }
        self.times_to_roll
    }

    /// The kind of expression that the configuration came from.
    pub fn roll_type(&self) -> (kind: &RollType)
        ensures
            kind@ == self@.roll_type,
    {
        &self.roll_type
    }

    /// Draws `times_to_roll` samples, each from `lower_bound` up to, not
    /// including, `upper_bound`, and collects them in the order drawn. There
    /// has to be a value to draw: the lower bound is below the upper bound.
    pub fn roll(&self) -> (roll: Roll)
        requires
            self@.lower_bound < self@.upper_bound,
        ensures
            roll@.roll_type == self@.roll_type,
            roll@.roll_results.len() == self@.times_to_roll,
            roll@.roll_results.len() >= 1,
            forall|i: int|
                0 <= i < roll@.roll_results.len() ==> self@.lower_bound
                    <= #[trigger] roll@.roll_results[i] < self@.upper_bound,
            roll@.roll_sum == total(roll@.roll_results),
    {
        proof {
            use_type_invariant(self);
        }
        let mut roll_results: Vec<i32> = Vec::new();
        let mut counter: u8 = 0;
        while counter < self.times_to_roll
            invariant
                counter <= self.times_to_roll,
                roll_results@.len() == counter,
                self.lower_bound < self.upper_bound,
                forall|i: int|
                    0 <= i < roll_results@.len() ==> self.lower_bound
                        <= #[trigger] roll_results@[i] < self.upper_bound,
            decreases self.times_to_roll - counter,
        {
            let mut generator = rand::thread_rng();
            let roll_result = sample(&mut generator, self.lower_bound, self.upper_bound);
            roll_results.push(roll_result);
            counter += 1;
        }
        proof {
            lemma_total_bounds(roll_results@);
        }
        Roll::new(self.roll_type.clone(), roll_results)
    }
}

/// The outcome of a roll: the samples in the order drawn, and their sum.
#[derive(Debug)]
pub struct Roll {
    roll_type: RollType,
    roll_results: Vec<i32>,
    roll_sum: i64,
}

/// The mathematical value of a [`Roll`].
pub struct RollView {
    pub roll_type: RollTypeView,
    pub roll_results: Seq<i32>,
    pub roll_sum: int,
}

impl View for Roll {
    type V = RollView;

    closed spec fn view(&self) -> RollView {
        RollView {
            roll_type: self.roll_type@,
            roll_results: self.roll_results@,
            roll_sum: self.roll_sum as int,
        }
    }
}

impl Roll {
    /// The sum that a roll holds is the sum of its samples.
    #[verifier::type_invariant]
    spec fn sum_is_total(&self) -> bool {
        self.roll_sum == total(self.roll_results@)
    }

    /// Makes the result of a roll from its samples, and sums them. The sum
    /// has to be in the range of `i64`, as that of fewer than `2^32` samples
    /// always is.
    pub fn new(roll_type: RollType, roll_results: Vec<i32>) -> (roll: Roll)
        requires
            i64::MIN <= total(roll_results@) <= i64::MAX,
        ensures
            roll@ == (RollView {
                roll_type: roll_type@,
                roll_results: roll_results@,
                roll_sum: total(roll_results@),
            }),
    {
        let mut sum: i128 = 0;
        let mut i: usize = 0;
        while i < roll_results.len()
            invariant
                i <= roll_results.len(),
                sum == total(roll_results@.take(i as int)),
            decreases roll_results.len() - i,
        {
            proof {
                lemma_total_bounds(roll_results@.take(i as int));
                assert(roll_results@.take(i + 1).drop_last() =~= roll_results@.take(i as int));
            }
            sum = sum + roll_results[i] as i128;
            i += 1;
        }
        assert(roll_results@.take(i as int) =~= roll_results@);
        Roll { roll_type, roll_results, roll_sum: sum as i64 }
    }

    /// The kind of expression that was rolled.
    pub fn roll_type(&self) -> (kind: &RollType)
        ensures
            kind@ == self@.roll_type,
    {
        &self.roll_type
    }

    /// The samples, in the order drawn.
    pub fn roll_results(&self) -> (samples: &Vec<i32>)
        ensures
            samples@ == self@.roll_results,
    {
        &self.roll_results
    }

    /// The sum of the samples.
    pub fn roll_sum(&self) -> (sum: i64)
        ensures
            sum == self@.roll_sum,
            sum == total(self@.roll_results),
    {
        proof {
            use_type_invariant(self);
        }
        self.roll_sum
    }
}

} // verus!
