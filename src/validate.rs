//! The validation pass: one walk over the lines, in order, that flags
//! repeated lines and route sections, counts them, and gathers every
//! schedule name that a timetable exposes.
use vstd::prelude::*;
use vstd::seq_lib::lemma_seq_contains_after_push;

use crate::model::{Line, RouteSection, SectionId, SectionKey, route_section_id, same_section, section_key, timetable_names};

verus! {

/// What the pass says of one route section.
#[derive(Clone, Debug, PartialEq, Eq)]
pub struct SectionReport {
    pub id: SectionId,
    pub has_timetable: bool,
    pub duplicate: bool,
}

/// What the pass says of one line and of its route sections, in order.
#[derive(Clone, Debug, PartialEq, Eq)]
pub struct LineReport {
    pub id: String,
    pub name: String,
    pub duplicate: bool,
    pub sections: Vec<SectionReport>,
}

/// The result of the pass over a list of lines.
#[derive(Clone, Debug, PartialEq, Eq)]
pub struct Report {
    pub lines: Vec<LineReport>,
    pub duplicate_lines: usize,
    pub duplicate_sections: usize,
    pub schedule_names: Vec<String>,
}

pub open spec fn strs(v: Seq<String>) -> Seq<Seq<char>> {
    v.map_values(|s: String| s@)
}

pub open spec fn keys(v: Seq<SectionId>) -> Seq<SectionKey> {
    v.map_values(|s: SectionId| s.key())
}

/// The ids of `lines`, in order.
pub open spec fn line_ids(lines: Seq<Line>) -> Seq<Seq<char>> {
    lines.map_values(|l: Line| l.id@)
}

/// Whether the id of line `i` occurs on an earlier line.
pub open spec fn line_repeated(lines: Seq<Line>, i: int) -> bool {
    line_ids(lines.take(i)).contains(lines[i].id@)
}

/// The identities of the route sections of `l`, in order.
pub open spec fn line_keys(l: Line) -> Seq<SectionKey> {
    l.route_sections@.map_values(|rs: RouteSection| section_key(l, rs))
}

/// The identities of all route sections of `lines`, line by line.
pub open spec fn all_keys(lines: Seq<Line>) -> Seq<SectionKey>
    decreases lines.len(),
{
    if lines.len() == 0 {
        Seq::empty()
    } else {
        all_keys(lines.drop_last()) + line_keys(lines.last())
    }
}

/// The identities of the route sections met before section `k` of line `i`.
pub open spec fn keys_before(lines: Seq<Line>, i: int, k: int) -> Seq<SectionKey> {
    all_keys(lines.take(i)) + line_keys(lines[i]).take(k)
}

/// Whether section `k` of line `i` repeats the identity of an earlier section.
pub open spec fn section_repeated(lines: Seq<Line>, i: int, k: int) -> bool {
    keys_before(lines, i, k).contains(line_keys(lines[i])[k])
}

/// The flag reported as "has timetable": true only for a timetable whose
/// set of schedule names is empty.
pub open spec fn timetable_flag(rs: RouteSection) -> bool {
    match rs.timetable {
        Some(t) => timetable_names(t) == Set::<Seq<char>>::empty(),
        None => false,
    }
}

/// The schedule names of a route section; none without a timetable.
pub open spec fn section_names(rs: RouteSection) -> Set<Seq<char>> {
    match rs.timetable {
        Some(t) => timetable_names(t),
        None => Set::empty(),
    }
}

/// The schedule names of the first `k` route sections of `l`.
pub open spec fn line_names(l: Line, k: int) -> Set<Seq<char>>
    decreases k,
{
    if k <= 0 {
        Set::empty()
    } else {
        line_names(l, k - 1).union(section_names(l.route_sections@[k - 1]))
    }
}

/// The schedule names of all route sections of `lines`.
pub open spec fn all_names(lines: Seq<Line>) -> Set<Seq<char>>
    decreases lines.len(),
{
    if lines.len() == 0 {
        Set::empty()
    } else {
        all_names(lines.drop_last()).union(
            line_names(lines.last(), lines.last().route_sections@.len() as int),
        )
    }
}

/// Whether `r` tells of route section `k` of line `i` of `lines`.
pub open spec fn describes_section(r: SectionReport, lines: Seq<Line>, i: int, k: int) -> bool {
    let rs = lines[i].route_sections@[k];
    &&& r.id.key() == section_key(lines[i], rs)
    &&& r.has_timetable == timetable_flag(rs)
    &&& r.duplicate == section_repeated(lines, i, k)
}

/// Whether `r` tells of line `i` of `lines`.
pub open spec fn describes_line(r: LineReport, lines: Seq<Line>, i: int) -> bool {
    &&& r.id == lines[i].id
    &&& r.name == lines[i].name
    &&& r.duplicate == line_repeated(lines, i)
    &&& r.sections@.len() == lines[i].route_sections@.len()
    &&& forall|k: int|
        0 <= k < r.sections@.len() ==> describes_section(#[trigger] r.sections@[k], lines, i, k)
}

/// Whether `r` is the report of the pass over `lines`.
pub open spec fn describes(r: Report, lines: Seq<Line>) -> bool {
    &&& r.lines@.len() == lines.len()
    &&& forall|i: int| 0 <= i < lines.len() ==> describes_line(#[trigger] r.lines@[i], lines, i)
    &&& r.duplicate_lines == lines.len() - line_ids(lines).to_set().len()
    &&& r.duplicate_sections == all_keys(lines).len() - all_keys(lines).to_set().len()
    &&& strs(r.schedule_names@).no_duplicates()
    &&& strs(r.schedule_names@).to_set() == all_names(lines)
}

/// Whether `s` occurs in `v`.
fn contains_str(v: &Vec<String>, s: &String) -> (r: bool)
    ensures
        r == strs(v@).contains(s@),
{
    let mut j: usize = 0;
    while j < v.len()
        invariant
            j <= v@.len(),
            forall|m: int| 0 <= m < j ==> v@[m]@ != s@,
        decreases v@.len() - j,
    {
        if v[j] == *s {
            assert(strs(v@)[j as int] == s@);
            return true;
        }
        j += 1;
    }
    assert(forall|m: int| 0 <= m < v@.len() ==> strs(v@)[m] == v@[m]@);
    false
}

/// Adds `s` to `v` unless it occurs there already.
fn insert_str(v: &mut Vec<String>, s: &String)
    requires
        strs(old(v)@).no_duplicates(),
    ensures
        strs(final(v)@).no_duplicates(),
        forall|x: Seq<char>| #[trigger]
            strs(final(v)@).contains(x) <==> strs(old(v)@).contains(x) || x == s@,
{
    if !contains_str(v, s) {
        let ghost before = strs(v@);
        v.push(s.clone());
        assert(strs(v@) =~= before.push(s@));
        assert forall|x: Seq<char>| #[trigger] strs(v@).contains(x) <==> before.contains(x) || x == s@ by {
            lemma_seq_contains_after_push(before, s@, x);
        }
    }
}

/// Whether an identity equal to that of `id` occurs in `v`.
fn contains_section(v: &Vec<SectionId>, id: &SectionId) -> (r: bool)
    ensures
        r == keys(v@).contains(id.key()),
{
    let mut j: usize = 0;
    while j < v.len()
        invariant
            j <= v@.len(),
            forall|m: int| 0 <= m < j ==> v@[m].key() != id.key(),
        decreases v@.len() - j,
    {
        if same_section(&v[j], id) {
            assert(keys(v@)[j as int] == id.key());
            return true;
        }
        j += 1;
    }
    assert(forall|m: int| 0 <= m < v@.len() ==> keys(v@)[m] == v@[m].key());
    false
}

/// Adds `id` to `v` unless an equal identity occurs there already.
fn insert_section(v: &mut Vec<SectionId>, id: SectionId)
    requires
        keys(old(v)@).no_duplicates(),
    ensures
        keys(final(v)@).no_duplicates(),
        forall|x: SectionKey| #[trigger]
            keys(final(v)@).contains(x) <==> keys(old(v)@).contains(x) || x == id.key(),
{
    if !contains_section(v, &id) {
        let ghost before = keys(v@);
        let ghost k = id.key();
        v.push(id);
        assert(keys(v@) =~= before.push(k));
        assert forall|x: SectionKey| #[trigger] keys(v@).contains(x) <==> before.contains(x) || x == k by {
            lemma_seq_contains_after_push(before, k, x);
        }
    }
}

proof fn lemma_keys_step(lines: Seq<Line>, i: int)
    requires
        0 <= i < lines.len(),
    ensures
        all_keys(lines.take(i + 1)) == all_keys(lines.take(i)) + line_keys(lines[i]),
        all_names(lines.take(i + 1)) == all_names(lines.take(i)).union(
            line_names(lines[i], lines[i].route_sections@.len() as int),
        ),
        line_ids(lines.take(i + 1)) == line_ids(lines.take(i)).push(lines[i].id@),
{
    assert(lines.take(i + 1).drop_last() =~= lines.take(i));
    assert(line_ids(lines.take(i + 1)) =~= line_ids(lines.take(i)).push(lines[i].id@));
}

pub(crate) proof fn lemma_keys_len_grows(lines: Seq<Line>, i: int, j: int)
    requires
        0 <= i <= j <= lines.len(),
    ensures
        all_keys(lines.take(i)).len() <= all_keys(lines.take(j)).len(),
    decreases j - i,
{
    if i < j {
        lemma_keys_len_grows(lines, i, j - 1);
        lemma_keys_step(lines, j - 1);
    }
}

/// Adds each of `names` to `acc` that does not occur there already.
fn merge_names(acc: &mut Vec<String>, names: &Vec<String>)
    requires
        strs(old(acc)@).no_duplicates(),
    ensures
        strs(final(acc)@).no_duplicates(),
        forall|x: Seq<char>| #[trigger]
            strs(final(acc)@).contains(x) <==> strs(old(acc)@).contains(x) || strs(names@).contains(x),
{
    let ghost start = strs(acc@);
    let mut m: usize = 0;
    while m < names.len()
        invariant
            m <= names@.len(),
            strs(acc@).no_duplicates(),
            forall|x: Seq<char>| #[trigger]
                strs(acc@).contains(x) <==> start.contains(x) || strs(names@.take(m as int)).contains(x),
        decreases names@.len() - m,
    {
        proof {
            assert(strs(names@.take(m + 1)) =~= strs(names@.take(m as int)).push(names@[m as int]@));
            assert forall|x: Seq<char>| #[trigger] strs(names@.take(m + 1)).contains(x)
                <==> strs(names@.take(m as int)).contains(x) || x == names@[m as int]@ by {
                lemma_seq_contains_after_push(strs(names@.take(m as int)), names@[m as int]@, x);
            }
        }
        insert_str(acc, &names[m]);
        m += 1;
    }
    assert(names@.take(names@.len() as int) =~= names@);
}

/// Adds the schedule names of `rs` to `acc` and returns the flag reported
/// as "has timetable".
fn gather_section(acc: &mut Vec<String>, rs: &RouteSection) -> (r: bool)
    requires
        strs(old(acc)@).no_duplicates(),
    ensures
        r == timetable_flag(*rs),
        strs(final(acc)@).no_duplicates(),
        forall|x: Seq<char>| #[trigger]
            strs(final(acc)@).contains(x) <==> strs(old(acc)@).contains(x) || section_names(*rs).contains(x),
{
    match &rs.timetable {
        Some(t) => {
            merge_names(acc, &t.schedule_names);
            let empty = t.schedule_names.len() == 0;
            proof {
                if empty {
                    assert(timetable_names(*t) =~= Set::<Seq<char>>::empty());
                } else {
                    assert(strs(t.schedule_names@)[0] == t.schedule_names@[0]@);
                    assert(timetable_names(*t).contains(t.schedule_names@[0]@));
                }
            }
            empty
        },
        None => false,
    }
}

/// Walks `lines` once, in order, and reports each line and route section
/// with its duplicate flag, the duplicate counts, and the schedule names of
/// all timetables.
pub fn validate(lines: &Vec<Line>) -> (r: Report)
    requires
        all_keys(lines@).len() <= usize::MAX,
    ensures
        describes(r, lines@),
{
    let mut seen_ids: Vec<String> = Vec::new();
    let mut seen_sections: Vec<SectionId> = Vec::new();
    let mut names: Vec<String> = Vec::new();
    let mut line_count: usize = 0;
    let mut section_count: usize = 0;
    let mut reports: Vec<LineReport> = Vec::new();
    let mut i: usize = 0;
    proof {
        assert(strs(seen_ids@) =~= Seq::<Seq<char>>::empty());
        assert(keys(seen_sections@) =~= Seq::<SectionKey>::empty());
        assert(strs(names@) =~= Seq::<Seq<char>>::empty());
        assert(lines@.take(0) =~= Seq::<Line>::empty());
        assert(line_ids(lines@.take(0)) =~= Seq::<Seq<char>>::empty());
    }
    while i < lines.len()
        invariant
            i <= lines@.len(),
            all_keys(lines@).len() <= usize::MAX,
            line_count == i,
            reports@.len() == i,
            forall|j: int| 0 <= j < i ==> describes_line(#[trigger] reports@[j], lines@, j),
            strs(seen_ids@).no_duplicates(),
            forall|x: Seq<char>| #[trigger]
                strs(seen_ids@).contains(x) <==> line_ids(lines@.take(i as int)).contains(x),
            keys(seen_sections@).no_duplicates(),
            forall|x: SectionKey| #[trigger]
                keys(seen_sections@).contains(x) <==> all_keys(lines@.take(i as int)).contains(x),
            section_count == all_keys(lines@.take(i as int)).len(),
            strs(names@).no_duplicates(),
            forall|x: Seq<char>| #[trigger]
                strs(names@).contains(x) <==> all_names(lines@.take(i as int)).contains(x),
        decreases lines@.len() - i,
    {
        let line = &lines[i];
        let duplicate = contains_str(&seen_ids, &line.id);
        let ghost lk = line_keys(*line);
        proof {
            lemma_keys_step(lines@, i as int);
            lemma_keys_len_grows(lines@, i + 1, lines@.len() as int);
            assert(lines@.take(lines@.len() as int) =~= lines@);
            assert(lk.take(0) =~= Seq::<SectionKey>::empty());
            assert(keys_before(lines@, i as int, 0) =~= all_keys(lines@.take(i as int)));
        }
        let mut sections: Vec<SectionReport> = Vec::new();
        let mut k: usize = 0;
        while k < line.route_sections.len()
            invariant
                i < lines@.len(),
                line == lines@[i as int],
                lk == line_keys(*line),
                k <= line.route_sections@.len(),
                sections@.len() == k,
                forall|m: int|
                    0 <= m < k ==> describes_section(#[trigger] sections@[m], lines@, i as int, m),
                keys(seen_sections@).no_duplicates(),
                forall|x: SectionKey| #[trigger]
                    keys(seen_sections@).contains(x) <==> keys_before(lines@, i as int, k as int).contains(x),
                section_count == keys_before(lines@, i as int, k as int).len(),
                all_keys(lines@.take(i as int)).len() + lk.len() <= usize::MAX,
                strs(names@).no_duplicates(),
                forall|x: Seq<char>| #[trigger]
                    strs(names@).contains(x) <==> all_names(lines@.take(i as int)).contains(x)
                        || line_names(*line, k as int).contains(x),
            decreases line.route_sections@.len() - k,
        {
            let rs = &line.route_sections[k];
            let has_timetable = gather_section(&mut names, rs);
            let id = route_section_id(line, rs);
            let repeated = contains_section(&seen_sections, &id);
            insert_section(&mut seen_sections, route_section_id(line, rs));
            section_count += 1;
            sections.push(SectionReport { id, has_timetable, duplicate: repeated });
            proof {
                assert(lk[k as int] == section_key(*line, *rs));
                assert(lk.take(k + 1) =~= lk.take(k as int).push(lk[k as int]));
                assert(keys_before(lines@, i as int, k + 1) =~= keys_before(lines@, i as int, k as int).push(lk[k as int]));
                assert forall|x: SectionKey| #[trigger] keys_before(lines@, i as int, k + 1).contains(x)
                    <==> keys_before(lines@, i as int, k as int).contains(x) || x == lk[k as int] by {
                    lemma_seq_contains_after_push(keys_before(lines@, i as int, k as int), lk[k as int], x);
                }
                assert(describes_section(sections@[k as int], lines@, i as int, k as int));
            }
            k += 1;
        }
        line_count += 1;
        insert_str(&mut seen_ids, &line.id);
        reports.push(LineReport {
            id: line.id.clone(),
            name: line.name.clone(),
            duplicate,
            sections,
        });
        proof {
            assert(lk.take(lk.len() as int) =~= lk);
            assert(keys_before(lines@, i as int, k as int) =~= all_keys(lines@.take(i + 1)));
            assert forall|x: Seq<char>| #[trigger] line_ids(lines@.take(i + 1)).contains(x)
                <==> line_ids(lines@.take(i as int)).contains(x) || x == lines@[i as int].id@ by {
                lemma_seq_contains_after_push(line_ids(lines@.take(i as int)), lines@[i as int].id@, x);
            }
            assert(describes_line(reports@[i as int], lines@, i as int));
        }
        i += 1;
    }
    proof {
        assert(lines@.take(lines@.len() as int) =~= lines@);
        strs(seen_ids@).unique_seq_to_set();
        keys(seen_sections@).unique_seq_to_set();
        assert(strs(seen_ids@).to_set() =~= line_ids(lines@).to_set());
        assert(keys(seen_sections@).to_set() =~= all_keys(lines@).to_set());
        assert(strs(names@).to_set() =~= all_names(lines@));
        line_ids(lines@).lemma_cardinality_of_set();
        all_keys(lines@).lemma_cardinality_of_set();
    }
    Report {
        lines: reports,
        duplicate_lines: line_count - seen_ids.len(),
        duplicate_sections: section_count - seen_sections.len(),
        schedule_names: names,
    }
}

/// Whether `n` is a schedule name of the timetable of section `k` of line `i`.
pub open spec fn names_section(lines: Seq<Line>, i: int, k: int, n: Seq<char>) -> bool {
    &&& 0 <= i < lines.len()
    &&& 0 <= k < lines[i].route_sections@.len()
    &&& section_names(lines[i].route_sections@[k]).contains(n)
}

/// The union, over every route section of `lines` that has a timetable, of
/// that timetable's schedule names.
pub open spec fn timetable_union(lines: Seq<Line>) -> Set<Seq<char>> {
    Set::new(|n: Seq<char>| exists|i: int, k: int| #[trigger] names_section(lines, i, k, n))
}

proof fn lemma_line_names(l: Line, k: int)
    requires
        0 <= k <= l.route_sections@.len(),
    ensures
        forall|n: Seq<char>| #[trigger] line_names(l, k).contains(n)
            <==> exists|m: int| 0 <= m < k && #[trigger] section_names(l.route_sections@[m]).contains(n),
    decreases k,
{
    if k > 0 {
        lemma_line_names(l, k - 1);
        assert forall|n: Seq<char>| #[trigger] line_names(l, k).contains(n)
            implies exists|m: int| 0 <= m < k && #[trigger] section_names(l.route_sections@[m]).contains(n) by {
            if !line_names(l, k - 1).contains(n) {
                assert(section_names(l.route_sections@[k - 1]).contains(n));
            }
        }
        assert forall|n: Seq<char>, m: int|
            0 <= m < k && #[trigger] section_names(l.route_sections@[m]).contains(n)
            implies line_names(l, k).contains(n) by {
            if m < k - 1 {
                assert(line_names(l, k - 1).contains(n));
            }
        }
    }
}

/// The schedule names that the pass gathers are exactly the union, over all
/// route sections with a timetable, of the timetable's schedule names.
pub proof fn lemma_schedule_names_union(lines: Seq<Line>)
    ensures
        all_names(lines) == timetable_union(lines),
    decreases lines.len(),
{
    if lines.len() > 0 {
        let init = lines.drop_last();
        let last = lines.last();
        let j = lines.len() - 1;
        lemma_schedule_names_union(init);
        lemma_line_names(last, last.route_sections@.len() as int);
        assert forall|n: Seq<char>| all_names(lines).contains(n) <==> timetable_union(lines).contains(n) by {
            if all_names(lines).contains(n) {
                if timetable_union(init).contains(n) {
                    let (i, k) = choose|i: int, k: int| #[trigger] names_section(init, i, k, n);
                    assert(names_section(lines, i, k, n));
                } else {
                    let m = choose|m: int|
                        0 <= m < last.route_sections@.len() && #[trigger] section_names(last.route_sections@[m]).contains(n);
                    assert(names_section(lines, j, m, n));
                }
            }
            if timetable_union(lines).contains(n) {
                let (i, k) = choose|i: int, k: int| #[trigger] names_section(lines, i, k, n);
                if i < j {
                    assert(names_section(init, i, k, n));
                } else {
                    assert(section_names(last.route_sections@[k]).contains(n));
                }
            }
        }
        assert(all_names(lines) =~= timetable_union(lines));
    } else {
        assert(all_names(lines) =~= timetable_union(lines));
    }
}

} // verus!
