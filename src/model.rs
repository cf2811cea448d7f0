//! The records that the pipeline reads and fills.
use vstd::prelude::*;

verus! {

/// A stop served by a line.
#[derive(Clone, Debug, PartialEq, Eq)]
pub struct Stop {
    pub id: String,
    pub name: String,
}

/// The ordered stops of a line in one direction.
#[derive(Clone, Debug, PartialEq, Eq)]
pub struct Sequence {
    pub direction: String,
    pub stop_ids: Vec<String>,
}

/// The schedule payload of a route section.
#[derive(Clone, Debug, PartialEq, Eq)]
pub struct Timetable {
    pub schedule_names: Vec<String>,
}

/// A directional part of a line, between an originator and a destination.
#[derive(Clone, Debug, PartialEq, Eq)]
pub struct RouteSection {
    pub name: String,
    pub originator: String,
    pub destination: String,
    pub timetable: Option<Timetable>,
}

/// A transit line; the sequences, the stops and the timetables of its
/// route sections stay empty until the line is enriched.
#[derive(Clone, Debug, PartialEq, Eq)]
pub struct Line {
    pub id: String,
    pub name: String,
    pub inbound_sequence: Option<Sequence>,
    pub outbound_sequence: Option<Sequence>,
    pub stops: Option<Vec<Stop>>,
    pub route_sections: Vec<RouteSection>,
}

/// Where the base line list comes from.
#[derive(Clone, Copy, Debug, PartialEq, Eq)]
pub enum DataSource {
    Api,
    Cache,
}

/// The output that a run is asked to produce.
#[derive(Clone, Copy, Debug, PartialEq, Eq)]
pub enum OutputFormat {
    Gtfs,
    Other,
}

/// The identity of a route section: its line's id, its originator and its
/// destination.
#[derive(Clone, Debug, PartialEq, Eq)]
pub struct SectionId {
    pub line_id: String,
    pub originator: String,
    pub destination: String,
}

/// The mathematical value of a section identity.
pub type SectionKey = (Seq<char>, Seq<char>, Seq<char>);

impl SectionId {
    pub open spec fn key(&self) -> SectionKey {
        (self.line_id@, self.originator@, self.destination@)
    }
}

/// The identity of route section `rs` of line `l`.
pub open spec fn section_key(l: Line, rs: RouteSection) -> SectionKey {
    (l.id@, rs.originator@, rs.destination@)
}

/// The schedule names that a timetable exposes.
pub open spec fn timetable_names(t: Timetable) -> Set<Seq<char>> {
    t.schedule_names@.map_values(|s: String| s@).to_set()
}

/// Builds the identity of route section `rs` of line `line`.
pub fn route_section_id(line: &Line, rs: &RouteSection) -> (r: SectionId)
    ensures
        r.key() == section_key(*line, *rs),
{
    SectionId {
        line_id: line.id.clone(),
        originator: rs.originator.clone(),
        destination: rs.destination.clone(),
    }
}

/// Whether two section identities are equal.
pub fn same_section(a: &SectionId, b: &SectionId) -> (r: bool)
    ensures
        r == (a.key() == b.key()),
{
    a.line_id == b.line_id && a.originator == b.originator && a.destination == b.destination
}

} // verus!
