//! The merge of fetched details into the lines: sequences, stops and one
//! timetable per route section, with the order of the lines kept.
use vstd::prelude::*;

use crate::model::{Line, RouteSection, SectionId, Sequence, Stop, Timetable, route_section_id, section_key};

verus! {

/// What the fetches return for one line: both sequences, the stops, and the
/// timetable of each route section in the line's order.
#[derive(Clone, Debug, PartialEq, Eq)]
pub struct LineDetails {
    pub inbound_sequence: Sequence,
    pub outbound_sequence: Sequence,
    pub stops: Vec<Stop>,
    pub timetables: Vec<Option<Timetable>>,
}

/// Whether `d` holds one timetable for each route section of `l`.
pub open spec fn fits(l: Line, d: LineDetails) -> bool {
    d.timetables@.len() == l.route_sections@.len()
}

/// Whether `new` is `old` with the details `d` written into it.
pub open spec fn enriched_with(new: Line, old: Line, d: LineDetails) -> bool {
    &&& new.id == old.id
    &&& new.name == old.name
    &&& new.inbound_sequence == Some(d.inbound_sequence)
    &&& new.outbound_sequence == Some(d.outbound_sequence)
    &&& new.stops == Some(d.stops)
    &&& new.route_sections@.len() == old.route_sections@.len()
    &&& forall|k: int|
        0 <= k < new.route_sections@.len() ==> {
            let a = #[trigger] new.route_sections@[k];
            let b = old.route_sections@[k];
            &&& a.name == b.name
            &&& a.originator == b.originator
            &&& a.destination == b.destination
            &&& a.timetable == d.timetables@[k]
        }
}

/// Whether every field that enrichment fills is present on `l`.
pub open spec fn is_enriched(l: Line) -> bool {
    &&& l.inbound_sequence is Some
    &&& l.outbound_sequence is Some
    &&& l.stops is Some
}

/// The timetable requests of a line, one per route section in order, each
/// keyed by the line's id, the section's originator and its destination.
pub fn timetable_requests(line: &Line) -> (r: Vec<SectionId>)
    ensures
        r@.len() == line.route_sections@.len(),
        forall|k: int|
            0 <= k < r@.len() ==> #[trigger] r@[k].key() == section_key(*line, line.route_sections@[k]),
{
    let mut r: Vec<SectionId> = Vec::new();
    let mut k: usize = 0;
    while k < line.route_sections.len()
        invariant
            k <= line.route_sections@.len(),
            r@.len() == k,
            forall|j: int| 0 <= j < k ==> #[trigger] r@[j].key() == section_key(*line, line.route_sections@[j]),
        decreases line.route_sections@.len() - k,
    {
        r.push(route_section_id(line, &line.route_sections[k]));
        k += 1;
    }
    r
}

/// Writes the fetched details `details` into `line`.
pub fn enrich_line(line: &mut Line, details: LineDetails)
    requires
        fits(*old(line), details),
    ensures
        enriched_with(*final(line), *old(line), details),
        is_enriched(*final(line)),
{
    let LineDetails { inbound_sequence, outbound_sequence, stops, timetables } = details;
    let ghost tts = timetables@;
    let mut timetables = timetables;
    let mut sections: Vec<RouteSection> = Vec::new();
    std::mem::swap(&mut sections, &mut line.route_sections);
    let ghost olds = sections@;
    let mut filled: Vec<RouteSection> = Vec::new();
    while sections.len() > 0
        invariant
            olds.len() == tts.len(),
            filled@.len() + sections@.len() == olds.len(),
            sections@ == olds.subrange(filled@.len() as int, olds.len() as int),
            timetables@ == tts.subrange(filled@.len() as int, tts.len() as int),
            forall|k: int|
                0 <= k < filled@.len() ==> {
                    let a = #[trigger] filled@[k];
                    let b = olds[k];
                    &&& a.name == b.name
                    &&& a.originator == b.originator
                    &&& a.destination == b.destination
                    &&& a.timetable == tts[k]
                },
        decreases sections@.len(),
    {
        let rs = sections.remove(0);
        let timetable = timetables.remove(0);
        filled.push(RouteSection { timetable, ..rs });
    }
    line.route_sections = filled;
    line.inbound_sequence = Some(inbound_sequence);
    line.outbound_sequence = Some(outbound_sequence);
    line.stops = Some(stops);
}

/// Writes `details[i]` into `lines[i]` for every `i`, keeping the order of
/// the lines.
pub fn enrich_all(lines: Vec<Line>, details: Vec<LineDetails>) -> (r: Vec<Line>)
    requires
        details@.len() == lines@.len(),
        forall|i: int| 0 <= i < lines@.len() ==> fits(#[trigger] lines@[i], details@[i]),
    ensures
        r@.len() == lines@.len(),
        forall|i: int|
            0 <= i < r@.len() ==> enriched_with(#[trigger] r@[i], lines@[i], details@[i]),
        forall|i: int| 0 <= i < r@.len() ==> is_enriched(#[trigger] r@[i]),
{
    let ghost olds = lines@;
    let ghost dets = details@;
    let mut lines = lines;
    let mut details = details;
    let mut r: Vec<Line> = Vec::new();
    while lines.len() > 0
        invariant
            olds.len() == dets.len(),
            r@.len() + lines@.len() == olds.len(),
            lines@ == olds.subrange(r@.len() as int, olds.len() as int),
            details@ == dets.subrange(r@.len() as int, dets.len() as int),
            forall|i: int| 0 <= i < olds.len() ==> fits(#[trigger] olds[i], dets[i]),
            forall|i: int| 0 <= i < r@.len() ==> enriched_with(#[trigger] r@[i], olds[i], dets[i]),
            forall|i: int| 0 <= i < r@.len() ==> is_enriched(#[trigger] r@[i]),
        decreases lines@.len(),
    {
        let mut line = lines.remove(0);
        let d = details.remove(0);
        proof {
            assert(olds[r@.len() as int] == line);
        }
        enrich_line(&mut line, d);
        r.push(line);
    }
    r
}

} // verus!
