use aoc19::advent3::{
    from_comma_separated_str, points_in_both_paths, Advent3Riddle1, Point, Segment,
    SegmentParseError,
};
use aoc19::riddle::{RiddleError, Solution};

#[test]
fn advent3_it_works_as_expected() {
    let segments = from_comma_separated_str("R5,U3,D8").unwrap();
    let expected = vec![Segment::R(5), Segment::U(3), Segment::D(8)];
    assert_eq!(segments, expected);
}

#[test]
fn advent3_it_works_as_expected_points_in_both_paths() {
    let path1 = vec![Segment::R(8), Segment::U(5), Segment::L(5), Segment::D(3)];
    let path2 = vec![Segment::U(7), Segment::R(6), Segment::D(4), Segment::L(4)];
    let intersection = points_in_both_paths(&path1, &path2);

    assert_eq!(intersection.len(), 2);
    assert!(intersection.contains(&Point { x: 3, y: 3 }));
    assert!(intersection.contains(&Point { x: 6, y: 5 }));
}

#[test]
fn it_complains_when_segments_are_too_short() {
    for s in vec!["", "X"] {
        let s = String::from(s);
        assert_eq!(
            s.parse::<Segment>().unwrap_err(),
            SegmentParseError::TooShort(s)
        );
    }
}

#[test]
fn it_complains_when_direction_is_unknown() {
    for s in vec!["X10", "r10"] {
        let s = String::from(s);
        assert_eq!(
            s.parse::<Segment>().unwrap_err(),
            SegmentParseError::UnknownDirectoion(s)
        );
    }
}

#[test]
fn it_complains_when_length_is_not_a_number() -> Result<(), String> {
    for s in vec!["DD", "Rxxx"] {
        let s = String::from(s);
        match s.parse::<Segment>().unwrap_err() {
            SegmentParseError::LengthParseError(_) => {}
            _ => return Err("expected LengthParseError".to_string()),
        }
    }
    Ok(())
}

#[test]
fn it_complains_when_length_is_non_positive() {
    for s in vec!["R0", "D0"] {
        let s = String::from(s);
        assert_eq!(
            s.parse::<Segment>().unwrap_err(),
            SegmentParseError::LengthZero(s)
        );
    }
}

#[test]
fn advent3_it_works_as_expected_parse() {
    for (s, expected) in vec![
        ("R10", Segment::R(10)),
        ("U9", Segment::U(9)),
        ("L1", Segment::L(1)),
    ] {
        let s = String::from(s);
        assert_eq!(s.parse::<Segment>().unwrap(), expected);
    }
}

#[test]
fn the_norm_works_as_expected() {
    let p = Point { x: -3, y: 2 };
    assert_eq!(p.manhattan_norm(), 5);
}

#[test]
fn points_in_seqment_works_as_expected() {
    let test_cases: Vec<((i64, i64), _, Vec<(i64, i64)>)> = vec![
        ((3, 2), Segment::R(4), vec![(4, 2), (5, 2), (6, 2), (7, 2)]),
        ((1, -1), Segment::U(2), vec![(1, 0), (1, 1)]),
        ((0, 0), Segment::L(3), vec![(-1, 0), (-2, 0), (-3, 0)]),
        ((4, 4), Segment::D(4), vec![(4, 3), (4, 2), (4, 1), (4, 0)]),
    ];

    for (origin, segment, expected) in test_cases {
        let origin = Point {
            x: origin.0,
            y: origin.1,
        };
        let expected: Vec<Point> = expected.iter().map(|p| Point { x: p.0, y: p.1 }).collect();
        let points_in_segment = origin.points_in_segment(segment);

        assert_eq!(points_in_segment, expected);
    }
}

#[test]
fn points_in_path_works_as_expected() {
    let calculated_path_points = Point { x: 0, y: 0 }.points_in_path(&vec![
        Segment::R(4),
        Segment::U(4),
        Segment::L(4),
        Segment::D(2),
        Segment::R(6),
    ]);
    let expected_points: Vec<(i64, i64)> = vec![
        (1, 0),
        (2, 0),
        (3, 0),
        (4, 0),
        (4, 1),
        (4, 2),
        (4, 3),
        (4, 4),
        (3, 4),
        (2, 4),
        (1, 4),
        (0, 4),
        (0, 3),
        (0, 2),
        (1, 2),
        (2, 2),
        (2, 2),
        (3, 2),
        (5, 2),
        (6, 2),
    ];
    // The walk revisits (2, 2), so the set holds one point fewer than
    // the list of steps.
    assert_eq!(calculated_path_points.len(), 19);
    for (x, y) in expected_points {
        assert!(calculated_path_points.contains(&Point { x, y }));
    }
}

#[test]
fn advent3_riddle_finds_the_nearest_crossing() {
    let riddle = Advent3Riddle1::new("unused.txt");
    let lines = vec!["R8,U5,L5,D3".to_string(), "U7,R6,D4,L4".to_string()];
    let solution = riddle.solve_lines(&lines).unwrap();
    assert_eq!(solution, Solution::Number(6));
}

#[test]
fn advent3_riddle_wants_exactly_two_lines() {
    let riddle = Advent3Riddle1::new("unused.txt");
    let lines = vec!["R8".to_string()];
    match riddle.solve_lines(&lines) {
        Err(RiddleError::Generic(m)) => assert_eq!(m, "expected two input lines"),
        other => panic!("expected a Generic error, got {:?}", other),
    }
}

#[test]
fn advent3_riddle_reports_paths_that_never_cross() {
    let riddle = Advent3Riddle1::new("unused.txt");
    let lines = vec!["R2".to_string(), "U2".to_string()];
    match riddle.solve_lines(&lines) {
        Err(RiddleError::Generic(m)) => assert_eq!(m, "could not determine min"),
        other => panic!("expected a Generic error, got {:?}", other),
    }
}
