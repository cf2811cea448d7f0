use transit_harvest::enrich::{enrich_all, enrich_line, timetable_requests, LineDetails};
use transit_harvest::model::{route_section_id, same_section, Line, OutputFormat, RouteSection, Sequence, Stop, Timetable};
use transit_harvest::pipeline::{conclude, section_total, transform_gtfs, Outcome};
use transit_harvest::sample::{choose_sample, sample_lines, sample_window};
use transit_harvest::validate::validate;

fn section(name: &str, originator: &str, destination: &str, timetable: Option<Timetable>) -> RouteSection {
    RouteSection {
        name: name.to_string(),
        originator: originator.to_string(),
        destination: destination.to_string(),
        timetable,
    }
}

fn timetable(names: &[&str]) -> Timetable {
    Timetable { schedule_names: names.iter().map(|n| n.to_string()).collect() }
}

fn line(id: &str, sections: Vec<RouteSection>) -> Line {
    Line {
        id: id.to_string(),
        name: format!("Line {}", id),
        inbound_sequence: None,
        outbound_sequence: None,
        stops: None,
        route_sections: sections,
    }
}

fn numbered(n: usize) -> Vec<Line> {
    (0..n).map(|i| line(&i.to_string(), vec![])).collect()
}

fn ids(lines: &[Line]) -> Vec<String> {
    lines.iter().map(|l| l.id.clone()).collect()
}

fn sequence(direction: &str, stops: &[&str]) -> Sequence {
    Sequence {
        direction: direction.to_string(),
        stop_ids: stops.iter().map(|s| s.to_string()).collect(),
    }
}

fn details(tag: &str, timetables: Vec<Option<Timetable>>) -> LineDetails {
    LineDetails {
        inbound_sequence: sequence("inbound", &[tag, "x"]),
        outbound_sequence: sequence("outbound", &["x", tag]),
        stops: vec![Stop { id: format!("stop-{}", tag), name: format!("Stop {}", tag) }],
        timetables,
    }
}

#[test]
fn window_inside_the_list() {
    assert_eq!(sample_window(10, 5, 2), (2, 7));
    assert_eq!(sample_window(10, 5, 5), (5, 10));
}

#[test]
fn window_shifted_left_at_the_end() {
    assert_eq!(sample_window(10, 5, 7), (5, 10));
    assert_eq!(sample_window(10, 10, 9), (0, 10));
    assert_eq!(sample_window(3, 1, 2), (2, 3));
}

#[test]
fn window_of_zero_lines() {
    assert_eq!(sample_window(4, 0, 3), (3, 3));
}

#[test]
fn window_has_the_requested_length_for_every_seed() {
    for total in 1..12usize {
        for n in 1..=total {
            for seed in 0..total {
                let (r, s) = sample_window(total, n, seed);
                assert_eq!(s - r, n);
                assert!(s <= total);
            }
        }
    }
}

#[test]
fn sample_keeps_the_window() {
    let kept = sample_lines(numbered(10), Some(3), 8);
    assert_eq!(ids(&kept), vec!["7", "8", "9"]);
    let kept = sample_lines(numbered(10), Some(3), 1);
    assert_eq!(ids(&kept), vec!["1", "2", "3"]);
}

#[test]
fn sample_without_size_keeps_everything() {
    assert_eq!(sample_lines(numbered(4), None, 2), numbered(4));
}

#[test]
fn sample_larger_than_the_list_keeps_everything() {
    assert_eq!(sample_lines(numbered(4), Some(5), 1), numbered(4));
}

#[test]
fn chosen_sample_is_a_contiguous_window() {
    for _ in 0..50 {
        let (kept, window) = choose_sample(numbered(10), Some(4));
        let (r, s) = window.expect("a window is chosen");
        assert_eq!(s - r, 4);
        assert!(s <= 10);
        let expected: Vec<String> = (r..s).map(|i| i.to_string()).collect();
        assert_eq!(ids(&kept), expected);
    }
}

#[test]
fn chosen_empty_sample_starts_inside_the_list() {
    for _ in 0..50 {
        let (kept, window) = choose_sample(numbered(3), Some(0));
        let (r, s) = window.expect("a window is chosen");
        assert_eq!(r, s);
        assert!(r < 3);
        assert!(kept.is_empty());
    }
}

#[test]
fn chosen_sample_without_restriction() {
    let (kept, window) = choose_sample(numbered(3), Some(7));
    assert_eq!(window, None);
    assert_eq!(kept, numbered(3));
    let (kept, window) = choose_sample(numbered(3), None);
    assert_eq!(window, None);
    assert_eq!(kept, numbered(3));
}

#[test]
fn requests_follow_the_sections() {
    let l = line("25", vec![section("a", "o1", "d1", None), section("b", "o2", "d2", None)]);
    let requests = timetable_requests(&l);
    assert_eq!(requests.len(), 2);
    assert_eq!(requests[0].line_id, "25");
    assert_eq!(requests[0].originator, "o1");
    assert_eq!(requests[0].destination, "d1");
    assert_eq!(requests[1].originator, "o2");
    assert_eq!(requests[1].destination, "d2");
}

#[test]
fn enriching_one_line_fills_every_field() {
    let mut l = line("25", vec![section("a", "o1", "d1", None), section("b", "o2", "d2", None)]);
    enrich_line(&mut l, details("25", vec![Some(timetable(&["Mon"])), None]));
    assert_eq!(l.id, "25");
    assert_eq!(l.inbound_sequence, Some(sequence("inbound", &["25", "x"])));
    assert_eq!(l.outbound_sequence, Some(sequence("outbound", &["x", "25"])));
    assert_eq!(l.stops.as_ref().map(|s| s.len()), Some(1));
    assert_eq!(l.route_sections[0].name, "a");
    assert_eq!(l.route_sections[0].timetable, Some(timetable(&["Mon"])));
    assert_eq!(l.route_sections[1].originator, "o2");
    assert_eq!(l.route_sections[1].timetable, None);
}

#[test]
fn enriching_keeps_the_order_of_the_lines() {
    let lines = vec![
        line("c", vec![section("s", "o", "d", None)]),
        line("a", vec![]),
        line("b", vec![section("s", "o", "d", None), section("t", "d", "o", None)]),
    ];
    let all = vec![
        details("c", vec![Some(timetable(&["x"]))]),
        details("a", vec![]),
        details("b", vec![None, Some(timetable(&["y"]))]),
    ];
    let out = enrich_all(lines, all);
    assert_eq!(ids(&out), vec!["c", "a", "b"]);
    for l in &out {
        assert!(l.inbound_sequence.is_some());
        assert!(l.outbound_sequence.is_some());
        assert!(l.stops.is_some());
        assert_eq!(l.inbound_sequence.as_ref().unwrap().stop_ids[0], l.id);
    }
    assert_eq!(out[0].route_sections[0].timetable, Some(timetable(&["x"])));
    assert_eq!(out[2].route_sections[1].timetable, Some(timetable(&["y"])));
}

#[test]
fn duplicate_lines_are_counted_against_distinct_ids() {
    let lines: Vec<Line> = ["A", "B", "A", "C", "A"].iter().map(|id| line(id, vec![])).collect();
    let report = validate(&lines);
    assert_eq!(report.duplicate_lines, 2);
    let flags: Vec<bool> = report.lines.iter().map(|l| l.duplicate).collect();
    assert_eq!(flags, vec![false, false, true, false, true]);
    assert_eq!(report.duplicate_sections, 0);
}

#[test]
fn duplicate_sections_are_found_by_identity() {
    let lines = vec![
        line("1", vec![section("a", "x", "y", None), section("b", "x", "y", None), section("c", "y", "x", None)]),
        line("2", vec![section("a", "x", "y", None)]),
        line("1", vec![section("z", "y", "x", None)]),
    ];
    let report = validate(&lines);
    let flags: Vec<Vec<bool>> = report
        .lines
        .iter()
        .map(|l| l.sections.iter().map(|s| s.duplicate).collect())
        .collect();
    assert_eq!(flags, vec![vec![false, true, false], vec![false], vec![true]]);
    assert_eq!(report.duplicate_sections, 2);
    assert_eq!(report.duplicate_lines, 1);
    assert_eq!(report.lines[1].sections[0].id.line_id, "2");
}

#[test]
fn timetable_flag_reports_empty_schedule_names() {
    let lines = vec![line(
        "1",
        vec![
            section("a", "o", "d", Some(timetable(&["Mon"]))),
            section("b", "o", "e", Some(timetable(&[]))),
            section("c", "o", "f", None),
        ],
    )];
    let report = validate(&lines);
    let flags: Vec<bool> = report.lines[0].sections.iter().map(|s| s.has_timetable).collect();
    assert_eq!(flags, vec![false, true, false]);
}

#[test]
fn schedule_names_are_the_union_without_repeats() {
    let lines = vec![
        line("1", vec![section("a", "o", "d", Some(timetable(&["Mon", "Sat", "Mon"])))]),
        line("2", vec![section("b", "o", "d", None), section("c", "d", "o", Some(timetable(&["Sun", "Sat"])))]),
    ];
    let report = validate(&lines);
    let mut names = report.schedule_names.clone();
    names.sort();
    assert_eq!(names, vec!["Mon", "Sat", "Sun"]);
}

#[test]
fn empty_input_gives_no_data() {
    assert_eq!(transform_gtfs(vec![]), Outcome::NoData);
    assert_eq!(conclude(OutputFormat::Gtfs, vec![]), Outcome::NoData);
}

#[test]
fn validation_hands_on_every_line() {
    let lines: Vec<Line> = ["A", "B", "A"].iter().map(|id| line(id, vec![section("s", "o", "d", None)])).collect();
    match transform_gtfs(lines.clone()) {
        Outcome::Emit { report, lines: emitted } => {
            assert_eq!(emitted, lines);
            assert_eq!(report.lines.len(), 3);
            assert_eq!(report.duplicate_lines, 1);
            assert_eq!(report.duplicate_sections, 1);
        }
        other => panic!("expected lines to emit, got {:?}", other),
    }
}

#[test]
fn other_formats_are_unsupported() {
    assert_eq!(conclude(OutputFormat::Other, numbered(2)), Outcome::Unsupported);
    assert_eq!(conclude(OutputFormat::Other, vec![]), Outcome::Unsupported);
}

#[test]
fn sections_are_counted_over_all_lines() {
    let lines = vec![
        line("1", vec![section("a", "o", "d", None), section("b", "o", "e", None)]),
        line("2", vec![]),
        line("3", vec![section("c", "o", "d", None)]),
    ];
    assert_eq!(section_total(&lines), Some(3));
    assert_eq!(section_total(&vec![]), Some(0));
}

#[test]
fn section_identity_uses_line_and_endpoints() {
    let l1 = line("1", vec![section("a", "x", "y", None), section("b", "x", "y", None)]);
    let l2 = line("2", vec![section("a", "x", "y", None)]);
    let a = route_section_id(&l1, &l1.route_sections[0]);
    let b = route_section_id(&l1, &l1.route_sections[1]);
    let c = route_section_id(&l2, &l2.route_sections[0]);
    assert!(same_section(&a, &b));
    assert!(!same_section(&a, &c));
    assert_eq!(a.line_id, "1");
    assert_eq!(a.originator, "x");
    assert_eq!(a.destination, "y");
}
