use aoc19::riddle::{RiddleError, Solution};
use aoc19::riddlecontainer::RiddleContainer;

#[test]
fn it_works() {
    let _ = RiddleContainer::new();
    assert_eq!(1, 1);
}

#[test]
fn solve_riddle_dispatches_on_the_riddle_key() {
    let container = RiddleContainer::new();
    let lines = vec!["12".to_string(), "14".to_string()];
    let solution = container
        .solve_riddle("1.1".to_string(), &lines)
        .unwrap();
    assert_eq!(solution, Solution::Number(4));

    let wires = vec!["R8,U5,L5,D3".to_string(), "U7,R6,D4,L4".to_string()];
    let solution = container
        .solve_riddle("3.1".to_string(), &wires)
        .unwrap();
    assert_eq!(solution, Solution::Number(6));
}

#[test]
fn solve_riddle_rejects_an_unknown_key() {
    let container = RiddleContainer::new();
    let result = container.solve_riddle("9.9".to_string(), &vec![]);
    assert_eq!(
        result,
        Err(RiddleError::UnknownRiddle("9.9".to_string()))
    );
}

#[test]
fn each_riddle_key_names_its_input_file() {
    let container = RiddleContainer::new();
    assert_eq!(
        container.input_file_for(&"1.1".to_string()).unwrap(),
        "./data/input/1.txt"
    );
    assert_eq!(
        container.input_file_for(&"2.2".to_string()).unwrap(),
        "./data/input/2.txt"
    );
    assert_eq!(
        container.input_file_for(&"3.1".to_string()).unwrap(),
        "./data/input/3.txt"
    );
    assert!(matches!(
        container.input_file_for(&"0.0".to_string()),
        Err(RiddleError::UnknownRiddle(_))
    ));
}
