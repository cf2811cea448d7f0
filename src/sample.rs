//! The sampling window: a contiguous run of `n` lines that starts at a
//! random index and is shifted left where it would pass the end.
use rand::distributions::IndependentSample;
use vstd::prelude::*;

use crate::model::Line;

verus! {

/// The window `[start, end)` of `n` items out of `total` for a drawn `seed`.
pub open spec fn window(total: int, n: int, seed: int) -> (int, int) {
    if seed + n > total {
        (total - n, total)
    } else {
        (seed, seed + n)
    }
}

/// Whether a requested sample size restricts a list of `total` items.
pub open spec fn restricts(total: int, sample_size: Option<usize>) -> bool {
    match sample_size {
        Some(n) => n <= total,
        None => false,
    }
}

/// What is left of `lines` after sampling with `sample_size` and `seed`.
pub open spec fn sampled(lines: Seq<Line>, sample_size: Option<usize>, seed: int) -> Seq<Line> {
    match sample_size {
        Some(n) => if n <= lines.len() {
            let w = window(lines.len() as int, n as int, seed);
            lines.subrange(w.0, w.1)
        } else {
            lines
        },
        None => lines,
    }
}

/// A window of `n` items out of `total` has length `n` and lies in bounds,
/// whatever the seed drawn from `[0, total)`.
pub proof fn lemma_window_bounds(total: int, n: int, seed: int)
    requires
        total > 0,
        0 < n <= total,
        0 <= seed < total,
    ensures
        window(total, n, seed).1 - window(total, n, seed).0 == n,
        0 <= window(total, n, seed).0,
        window(total, n, seed).1 <= total,
{
}

/// Without a sample size, or with one larger than the list, sampling keeps
/// the whole list in its order.
pub proof fn lemma_sampling_keeps_all(lines: Seq<Line>, sample_size: Option<usize>, seed: int)
    requires
        !restricts(lines.len() as int, sample_size),
    ensures
        sampled(lines, sample_size, seed) == lines,
{
}

/// Computes the window `[start, end)` of `n` items out of `total`.
pub fn sample_window(total: usize, n: usize, seed: usize) -> (r: (usize, usize))
    requires
        n <= total,
    ensures
        r.0 == window(total as int, n as int, seed as int).0,
        r.1 == window(total as int, n as int, seed as int).1,
        r.1 - r.0 == n,
        r.1 <= total,
{
    if seed > total - n {
        (total - n, total)
    } else {
        (seed, seed + n)
    }
}

/// Keeps the window of `lines` that `sample_size` and `seed` select.
pub fn sample_lines(lines: Vec<Line>, sample_size: Option<usize>, seed: usize) -> (r: Vec<Line>)
    ensures
        r@ == sampled(lines@, sample_size, seed as int),
{
    match sample_size {
        Some(n) => {
            if n <= lines.len() {
                let (start, end) = sample_window(lines.len(), n, seed);
                let mut lines = lines;
                let mut rest = lines.split_off(start);
                rest.truncate(end - start);
                rest
            } else {
                lines
            }
        },
        None => lines,
    }
}

/// Relies on rand's `Range::new(0, bound)` and `ind_sample` over the thread
/// generator: a value drawn from `[0, bound)`; `Range::new` panics on an
/// empty range.
#[verifier::external_body]
fn draw_index(bound: usize) -> (r: usize)
    requires
        bound > 0,
    ensures
        r < bound,
{
    let between = rand::distributions::Range::new(0usize, bound);
    between.ind_sample(&mut rand::thread_rng())
}

/// Samples `lines` with a seed drawn uniformly from `[0, lines.len())`,
/// returning the kept lines and the window chosen, if any.
pub fn choose_sample(lines: Vec<Line>, sample_size: Option<usize>) -> (r: (
    Vec<Line>,
    Option<(usize, usize)>,
))
    ensures
        restricts(lines@.len() as int, sample_size) <==> r.1 is Some,
        match r.1 {
            Some(w) => {
                &&& w.1 - w.0 == sample_size->Some_0
                &&& w.1 <= lines@.len()
                &&& r.0@ == lines@.subrange(w.0 as int, w.1 as int)
            },
            None => r.0@ == lines@,
        },
{
    match sample_size {
        Some(n) => {
            if n <= lines.len() && lines.len() > 0 {
                let seed = draw_index(lines.len());
                let w = sample_window(lines.len(), n, seed);
                let kept = sample_lines(lines, sample_size, seed);
                (kept, Some(w))
            } else if n <= lines.len() {
                (lines, Some((0, 0)))
            } else {
                (lines, None)
            }
        },
        None => (lines, None),
    }
}

} // verus!
