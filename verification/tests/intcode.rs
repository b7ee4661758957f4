use aoc19::advent2::{
    find_parameters, get_numbers, Advent2Riddle1, IntcodeError, NextAction, Program,
};
use aoc19::riddle::{RiddleError, Solution};

#[test]
fn advent2_it_works_as_expected() {
    let mut program = Program::new(vec![1, 0, 0, 0, 99]);
    let result = program.run_with_parameters(4, 1).unwrap();
    assert_eq!(result, 103);
}

#[test]
fn advent2_it_works_as_expected_run() {
    let test_cases = vec![
        (
            vec![1, 9, 10, 3, 2, 3, 11, 0, 99, 30, 40, 50],
            vec![3500, 9, 10, 70, 2, 3, 11, 0, 99, 30, 40, 50],
        ),
        (vec![1, 0, 0, 0, 99], vec![2, 0, 0, 0, 99]),
        (vec![2, 3, 0, 3, 99], vec![2, 3, 0, 6, 99]),
        (vec![2, 4, 4, 5, 99, 0], vec![2, 4, 4, 5, 99, 9801]),
        (
            vec![1, 1, 1, 4, 99, 5, 6, 0, 99],
            vec![30, 1, 1, 4, 2, 5, 6, 0, 99],
        ),
    ];
    for (input, output) in test_cases {
        let mut input = Program::new(input);
        let output = Program::new(output);

        input.run().unwrap();
        assert_eq!(input, output);
    }
}

#[test]
fn it_works_for_opcode_1() {
    let mut program = Program::new(vec![1, 2, 2, 0]);
    let next = program.execute_step(0).unwrap();
    assert_eq!(program, Program::new(vec![4, 2, 2, 0]));
    assert_eq!(next, NextAction::Proceed);
}

#[test]
fn it_works_for_opcode_2() {
    let mut program = Program::new(vec![2, 1, 0, 3]);
    let next = program.execute_step(0).unwrap();
    assert_eq!(program, Program::new(vec![2, 1, 0, 2]));
    assert_eq!(next, NextAction::Proceed);
}

#[test]
fn it_works_for_opcode_99() {
    let mut program = Program::new(vec![99]);
    let next = program.execute_step(0).unwrap();
    assert_eq!(next, NextAction::Stop);
}

#[test]
fn it_complains_for_other_opcodes() {
    let mut program = Program::new(vec![3, 5, 10, 2]);
    let result = program.execute_step(0);
    assert_eq!(result, Err(IntcodeError::UnknownOpcode(3, 0)));
}

#[test]
fn it_complains_when_the_store_position_is_out_of_bounds() {
    {
        let mut program = Program::new(vec![1, 5, 10, -1]);
        let result = program.execute_step(0);
        assert_eq!(result, Err(IntcodeError::ModifyPositionOutOfBounds(-1)));
    }
    {
        let mut program = Program::new(vec![1, 5, 10, 10]);
        let result = program.execute_step(0);
        assert_eq!(result, Err(IntcodeError::ModifyPositionOutOfBounds(10)));
    }
}

#[test]
fn it_complains_when_the_program_position_is_out_of_bounds() {
    let mut program = Program::new(vec![1, 5, 10, 10]);
    let result = program.execute_step(10);
    assert_eq!(
        result,
        Err(IntcodeError::ProgramPositionOutOfBounds(10))
    );
}

#[test]
fn advent2_it_works_as_expected_get_arg() {
    let program = Program::new(vec![1, 2, 3, 4, 5, 6, 7, 8]);
    assert_eq!(program.get_arg(1).unwrap(), 3);
}

#[test]
fn it_complains_when_position_is_out_of_bounds() {
    let program = Program::new(vec![1, 25, 3, 4, 5, 6, 7, 8]);
    assert_eq!(
        program.get_arg(1),
        Err(IntcodeError::ArgumentPositionOutOfBounds(1, 25))
    );
}

#[test]
fn get_opcode_reads_cells_and_rejects_positions_past_the_end() {
    let program = Program::new(vec![7, 8, 9]);
    assert_eq!(program.get_opcode(0).unwrap(), 7);
    assert_eq!(program.get_opcode(2).unwrap(), 9);
    assert_eq!(
        program.get_opcode(5),
        Err(IntcodeError::ProgramPositionOutOfBounds(5))
    );
}

#[test]
fn trailing_cells_that_form_no_instruction_are_never_decoded() {
    // Length 7: only the instruction at 0 runs; cells 4..7 are ignored
    // even though cell 4 is no valid opcode.
    let mut program = Program::new(vec![1, 0, 0, 0, 7, 7, 7]);
    program.run().unwrap();
    assert_eq!(program, Program::new(vec![2, 0, 0, 0, 7, 7, 7]));
}

#[test]
fn run_with_parameters_overwrites_cells_one_and_two() {
    // Whatever stood in cells 1 and 2, the parameters replace it.
    let mut a = Program::new(vec![1, 50, 60, 0, 99]);
    let mut b = Program::new(vec![1, 0, 0, 0, 99]);
    assert_eq!(a.run_with_parameters(0, 0).unwrap(), 2);
    assert_eq!(b.run_with_parameters(0, 0).unwrap(), 2);
    assert_eq!(a, b);
}

#[test]
fn run_with_parameters_rejects_programs_too_short_for_an_instruction() {
    let mut program = Program::new(vec![1, 0, 0, 0]);
    assert_eq!(
        program.run_with_parameters(0, 0),
        Err(IntcodeError::ProgramPositionOutOfBounds(4))
    );
}

#[test]
fn run_is_deterministic_across_independent_clones() {
    let source = vec![1, 0, 0, 0, 99];
    let mut first = Program::new(source.clone());
    let mut second = Program::new(source.clone());
    let r1 = first.run_with_parameters(4, 1);
    let r2 = second.run_with_parameters(4, 1);
    assert_eq!(r1, r2);
    assert_eq!(first, second);
}

#[test]
fn addition_wraps_around_on_overflow() {
    let mut program = Program::new(vec![1, 4, 4, 0, i64::MAX]);
    program.run().unwrap();
    assert_eq!(
        program,
        Program::new(vec![-2, 4, 4, 0, i64::MAX])
    );
}

#[test]
fn multiplication_wraps_around_on_overflow() {
    let mut program = Program::new(vec![2, 4, 4, 0, i64::MAX]);
    program.run().unwrap();
    assert_eq!(program, Program::new(vec![1, 4, 4, 0, i64::MAX]));
}

#[test]
fn get_numbers_accepts_a_leading_plus_sign() {
    assert_eq!(get_numbers("+1,2").unwrap(), vec![1, 2]);
}

#[test]
fn find_parameters_returns_the_first_match_in_noun_major_order() {
    // Cell 0 becomes mem[noun] + mem[verb]; cells from 5 on hold their
    // own index, so the first pair reaching 150 is noun 2, verb 75.
    let mut memory: Vec<i64> = vec![1, 1, 2, 0, 99];
    for i in 5..105 {
        memory.push(i);
    }
    assert_eq!(find_parameters(&memory, 150), Ok(275));
}

#[test]
fn find_parameters_reports_when_no_pair_matches() {
    let mut memory: Vec<i64> = vec![1, 1, 2, 0, 99];
    for i in 5..105 {
        memory.push(i);
    }
    assert_eq!(
        find_parameters(&memory, 1_000_000),
        Err(RiddleError::NoSolutionFound)
    );
}

#[test]
fn find_parameters_propagates_machine_errors() {
    let memory: Vec<i64> = vec![7, 0, 0, 0, 99];
    assert_eq!(
        find_parameters(&memory, 0),
        Err(RiddleError::Intcode(IntcodeError::UnknownOpcode(7, 0)))
    );
}

#[test]
fn get_numbers_reads_a_comma_separated_line() {
    assert_eq!(
        get_numbers("1, -2 ,3").unwrap(),
        vec![1, -2, 3]
    );
}

#[test]
fn get_numbers_rejects_text_that_is_no_number() {
    assert!(matches!(
        get_numbers("1,,3"),
        Err(RiddleError::Generic(_))
    ));
}

#[test]
fn advent2_riddle1_solves_from_its_input_line() {
    let riddle = Advent2Riddle1::new("unused.txt");
    let lines = vec!["1,0,0,0,99,0,0,0,0,0,0,0,7".to_string()];
    let solution = riddle.solve_lines(&lines).unwrap();
    assert_eq!(solution, Solution::Number(9));
}
