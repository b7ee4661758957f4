use aoc19::advent1::{calculate_fuel, calculate_fuel_recursive, Advent1Riddle1, Advent1Riddle2};
use aoc19::riddle::{RiddleError, Solution};

#[test]
fn advent1_it_works_as_expected() {
    for i in 0..6 {
        assert_eq!(calculate_fuel(i), 0);
    }
    assert_eq!(calculate_fuel(12), 2);
    assert_eq!(calculate_fuel(14), 2);
    assert_eq!(calculate_fuel(1969), 654);
    assert_eq!(calculate_fuel(100756), 33583);
}

#[test]
fn advent1_it_works_as_expected_recursive() {
    let test_cases = vec![(14, 2), (1969, 966), (100756, 50346)];
    for (value, expected) in test_cases {
        assert_eq!(calculate_fuel_recursive(value), expected);
    }
}

#[test]
fn advent1_riddle1_sums_the_fuel_of_all_masses() {
    let riddle = Advent1Riddle1::new("unused.txt");
    let lines = vec!["12".to_string(), "14".to_string(), "1969".to_string()];
    let solution = riddle.solve_lines(&lines).unwrap();
    assert_eq!(solution, Solution::Number(2 + 2 + 654));
}

#[test]
fn advent1_riddle2_sums_the_recursive_fuel_of_all_masses() {
    let riddle = Advent1Riddle2::new("unused.txt");
    let lines = vec!["14".to_string(), "1969".to_string()];
    let solution = riddle.solve_lines(&lines).unwrap();
    assert_eq!(solution, Solution::Number(2 + 966));
}

#[test]
fn advent1_riddle1_reports_the_first_unparsable_line() {
    let riddle = Advent1Riddle1::new("unused.txt");
    let lines = vec!["12".to_string(), "mass".to_string()];
    match riddle.solve_lines(&lines) {
        Err(RiddleError::Generic(m)) => {
            assert_eq!(m, "could not convert mass to int");
        }
        other => panic!("expected a Generic error, got {:?}", other),
    }
}

#[test]
fn advent1_riddle1_rejects_a_negative_mass() {
    let riddle = Advent1Riddle1::new("unused.txt");
    let lines = vec!["-3".to_string()];
    match riddle.solve_lines(&lines) {
        Err(RiddleError::Generic(m)) => {
            assert_eq!(m, "mass must not be negative");
        }
        other => panic!("expected a Generic error, got {:?}", other),
    }
}
