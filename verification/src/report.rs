//! The record of a finished run and its two renderings: one line for a
//! machine, two lines for a reader.

use crate::clock::{millis_of, whole_millis};
use crate::text::{decimal_string, decimal_text, grouped, grouped_count};
use std::time::Duration;
use vstd::prelude::*;
use vstd::string::*;

verus! {

/// What a finished run leaves behind: its two counters and the time it took.
#[derive(Clone, Copy, Debug, PartialEq, Eq)]
pub struct TrajectoryResult {
    multiply_count: u64,
    divide_count: u64,
    elapsed: Duration,
}

impl TrajectoryResult {
    /// The record of a run with these counters that took `elapsed`.
    pub fn new(multiply_count: u64, divide_count: u64, elapsed: Duration) -> (r: Self)
        ensures
            r.multiplies() == multiply_count,
            r.divides() == divide_count,
            r.span() == elapsed,
    {
        TrajectoryResult { multiply_count, divide_count, elapsed }
    }

    /// The odd steps of the run.
    pub closed spec fn multiplies(&self) -> u64 {
        self.multiply_count
    }

    /// The halvings of the run.
    pub closed spec fn divides(&self) -> u64 {
        self.divide_count
    }

    /// The time the run took.
    pub closed spec fn span(&self) -> Duration {
        self.elapsed
    }

    /// The odd steps of the run.
    pub fn multiply_count(&self) -> (r: u64)
        ensures
            r == self.multiplies(),
    {
        self.multiply_count
    }

    /// The halvings of the run.
    pub fn divide_count(&self) -> (r: u64)
        ensures
            r == self.divides(),
    {
        self.divide_count
    }

    /// The time the run took.
    pub fn elapsed(&self) -> (r: Duration)
        ensures
            r == self.span(),
    {
        self.elapsed
    }

    /// All the steps of the run: both counters together.
    pub fn total_steps(&self) -> (r: u128)
        ensures
            r == self.multiplies() + self.divides(),
    {
        self.multiply_count as u128 + self.divide_count as u128
    }

    /// The record as the triple that the renderings take.
    pub fn as_tuple(&self) -> (r: (u64, u64, Duration))
        ensures
            r == (self.multiplies(), self.divides(), self.span()),
    {
        (self.multiply_count, self.divide_count, self.elapsed)
    }
}

/// The text that `{:.2?}` writes for a `Duration`.
pub uninterp spec fn debug_text_of(span: Duration) -> Seq<char>;

/// `format!("{:.2?}", span)`: the span as std's `Debug` writes it with two
/// decimals.
#[verifier::external_body]
pub(crate) fn debug_text(span: &Duration) -> (r: String)
    ensures
        r@ == debug_text_of(*span),
{
    format!("{:.2?}", span)
}

/// The machine-readable line: both counters and the milliseconds, in decimal,
/// with commas between them.
pub open spec fn csv_text(multiplies: nat, divides: nat, millis: nat) -> Seq<char> {
    decimal_text(multiplies) + seq![','] + decimal_text(divides) + seq![','] + decimal_text(
        millis,
    )
}

/// The two lines for a reader, made of the four texts they show.
pub open spec fn summary_text(
    total: Seq<char>,
    multiplies: Seq<char>,
    divides: Seq<char>,
    elapsed: Seq<char>,
) -> Seq<char> {
    "Iterations = "@ + total + " : * "@ + multiplies + ", / "@ + divides
        + "\nComputation time: "@ + elapsed
}

/// Writes the machine-readable line for the two counters and a number of
/// milliseconds.
pub fn csv_line(multiplies: u64, divides: u64, millis: u128) -> (r: String)
    ensures
        r@ == csv_text(multiplies as nat, divides as nat, millis as nat),
{
    proof {
        reveal_strlit(",");
    }
    let mut line = decimal_string(multiplies as u128);
    line.append(",");
    let second = decimal_string(divides as u128);
    line.append(second.as_str());
    line.append(",");
    let third = decimal_string(millis);
    line.append(third.as_str());
    assert(line@ =~= csv_text(multiplies as nat, divides as nat, millis as nat));
    line
}

/// Renders a result for a machine: `multiplies,divides,milliseconds`.
pub fn format_results(input: (u64, u64, Duration)) -> (r: String)
    ensures
        r@ == csv_text(input.0 as nat, input.1 as nat, millis_of(input.2)),
{
    let millis = whole_millis(&input.2);
    csv_line(input.0, input.1, millis)
}

/// Puts the two lines for a reader together from the four texts they show.
pub fn compose_summary(total: &str, multiplies: &str, divides: &str, elapsed: &str) -> (r:
    String)
    ensures
        r@ == summary_text(total@, multiplies@, divides@, elapsed@),
{
    let mut text = String::from_str("Iterations = ");
    text.append(total);
    text.append(" : * ");
    text.append(multiplies);
    text.append(", / ");
    text.append(divides);
    text.append("\nComputation time: ");
    text.append(elapsed);
    assert(text@ =~= summary_text(total@, multiplies@, divides@, elapsed@));
    text
}

/// Renders a result for a reader: the steps in all, the odd steps and the
/// halvings, each grouped in threes, and below them the time taken.
pub fn describe_results(input: (u64, u64, Duration)) -> (r: String)
    ensures
        r@ == summary_text(
            grouped(decimal_text((input.0 + input.1) as nat)),
            grouped(decimal_text(input.0 as nat)),
            grouped(decimal_text(input.1 as nat)),
            debug_text_of(input.2),
        ),
{
    let total = grouped_count(input.0 as u128 + input.1 as u128);
    let multiplies = grouped_count(input.0 as u128);
    let divides = grouped_count(input.1 as u128);
    let elapsed = debug_text(&input.2);
    compose_summary(total.as_str(), multiplies.as_str(), divides.as_str(), elapsed.as_str())
}

} // verus!
