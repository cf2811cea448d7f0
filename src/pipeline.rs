//! The end of a run: the validation pass and the decision whether the lines
//! go on to the emitter.
use vstd::prelude::*;

use crate::model::{Line, OutputFormat};
use crate::validate::{Report, all_keys, describes, lemma_keys_len_grows, line_keys, validate};

verus! {

/// What a run does once its lines are in.
#[derive(Debug, PartialEq, Eq)]
pub enum Outcome {
    /// Hand `lines`, unchanged, to the emitter, after reporting `report`.
    Emit { report: Report, lines: Vec<Line> },
    /// There were no lines: report that and stop without emitting.
    NoData,
    /// The requested output has no transform: stop without doing anything.
    Unsupported,
}

/// Counts the route sections of `lines`, or `None` where the count does not
/// fit in a `usize`.
pub fn section_total(lines: &Vec<Line>) -> (r: Option<usize>)
    ensures
        match r {
            Some(n) => n == all_keys(lines@).len(),
            None => all_keys(lines@).len() > usize::MAX,
        },
{
    let mut total: usize = 0;
    let mut i: usize = 0;
    proof {
        assert(lines@.take(0) =~= Seq::<Line>::empty());
    }
    while i < lines.len()
        invariant
            i <= lines@.len(),
            total == all_keys(lines@.take(i as int)).len(),
        decreases lines@.len() - i,
    {
        let n = lines[i].route_sections.len();
        proof {
            assert(lines@.take(i + 1).drop_last() =~= lines@.take(i as int));
            assert(line_keys(lines@[i as int]).len() == n);
        }
        if total > usize::MAX - n {
            proof {
                lemma_keys_len_grows(lines@, i + 1, lines@.len() as int);
                assert(lines@.take(lines@.len() as int) =~= lines@);
            }
            return None;
        }
        total = total + n;
        i += 1;
    }
    proof {
        assert(lines@.take(lines@.len() as int) =~= lines@);
    }
    Some(total)
}

/// Validates `lines` for the GTFS output: no lines gives `NoData`; otherwise
/// the report of the pass and the lines themselves, nothing filtered.
pub fn transform_gtfs(lines: Vec<Line>) -> (r: Outcome)
    requires
        all_keys(lines@).len() <= usize::MAX,
    ensures
        lines@.len() == 0 <==> r is NoData,
        !(r is Unsupported),
        match r {
            Outcome::Emit { report, lines: emitted } => emitted@ == lines@ && describes(report, lines@),
            _ => true,
        },
{
    let report = validate(&lines);
    if lines.len() == 0 {
        Outcome::NoData
    } else {
        Outcome::Emit { report, lines }
    }
}

/// Decides what a run does with its lines for the requested output.
pub fn conclude(format: OutputFormat, lines: Vec<Line>) -> (r: Outcome)
    requires
        all_keys(lines@).len() <= usize::MAX,
    ensures
        format is Other ==> r is Unsupported,
        format is Gtfs ==> (lines@.len() == 0 <==> r is NoData),
        format is Gtfs ==> !(r is Unsupported),
        match r {
            Outcome::Emit { report, lines: emitted } => emitted@ == lines@ && describes(report, lines@),
            _ => true,
        },
{
    match format {
        OutputFormat::Gtfs => transform_gtfs(lines),
        OutputFormat::Other => Outcome::Unsupported,
    }
}

} // verus!
