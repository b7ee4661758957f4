//! The riddle dispatch: one container that owns every solver and hands
//! a riddle key to the right one.

use vstd::prelude::*;
use vstd::string::StringExecFns;

use crate::advent1::{advent1_post, Advent1Riddle1, Advent1Riddle2};
use crate::advent2::{advent2_riddle1_post, advent2_riddle2_post, Advent2Riddle1, Advent2Riddle2};
use crate::advent3::{advent3_post, Advent3Riddle1};
use crate::riddle::{RiddleError, Solution};

verus! {

pub struct RiddleContainer {
    advent1_riddle1: Advent1Riddle1,
    advent1_riddle2: Advent1Riddle2,
    advent2_riddle1: Advent2Riddle1,
    advent2_riddle2: Advent2Riddle2,
    advent3_riddle1: Advent3Riddle1,
}

impl RiddleContainer {
    /// Every solver reads the input file of its own riddle.
    pub closed spec fn wf(&self) -> bool {
        &&& self.advent1_riddle1.path_view() == "./data/input/1.txt"@
        &&& self.advent1_riddle2.path_view() == "./data/input/1.txt"@
        &&& self.advent2_riddle1.path_view() == "./data/input/2.txt"@
        &&& self.advent2_riddle2.path_view() == "./data/input/2.txt"@
        &&& self.advent3_riddle1.path_view() == "./data/input/3.txt"@
    }

    pub fn new() -> (r: RiddleContainer)
        ensures
            r.wf(),
    {
        let advent1_riddle1 = Advent1Riddle1::new("./data/input/1.txt");
        let advent1_riddle2 = Advent1Riddle2::new("./data/input/1.txt");
        let advent2_riddle1 = Advent2Riddle1::new("./data/input/2.txt");
        let advent2_riddle2 = Advent2Riddle2::new("./data/input/2.txt");
        let advent3_riddle1 = Advent3Riddle1::new("./data/input/3.txt");

        RiddleContainer {
            advent1_riddle1,
            advent1_riddle2,
            advent2_riddle1,
            advent2_riddle2,
            advent3_riddle1,
        }
    }

    /// The input file the named riddle reads; an unknown key is
    /// reported back as such.
    pub fn input_file_for(&self, riddle: &String) -> (r: Result<&String, RiddleError>)
        requires
            self.wf(),
        ensures
            riddle@ == "1.1"@ || riddle@ == "1.2"@ ==> (r matches Ok(p) && p@
                == "./data/input/1.txt"@),
            riddle@ == "2.1"@ || riddle@ == "2.2"@ ==> (r matches Ok(p) && p@
                == "./data/input/2.txt"@),
            riddle@ == "3.1"@ ==> (r matches Ok(p) && p@ == "./data/input/3.txt"@),
            !(riddle@ == "1.1"@ || riddle@ == "1.2"@ || riddle@ == "2.1"@ || riddle@ == "2.2"@
                || riddle@ == "3.1"@) ==> (r matches Err(e) && (e
                matches RiddleError::UnknownRiddle(m) && m@ == riddle@)),
    {
        proof {
            reveal_strlit("1.1");
            reveal_strlit("1.2");
            reveal_strlit("2.1");
            reveal_strlit("2.2");
            reveal_strlit("3.1");
            assert("1.1"@[0] == '1' && "1.1"@[2] == '1');
            assert("1.2"@[0] == '1' && "1.2"@[2] == '2');
            assert("2.1"@[0] == '2' && "2.1"@[2] == '1');
            assert("2.2"@[0] == '2' && "2.2"@[2] == '2');
            assert("3.1"@[0] == '3');
        }
        if *riddle == "1.1".to_owned() {
            Ok(self.advent1_riddle1.path())
        } else if *riddle == "1.2".to_owned() {
            Ok(self.advent1_riddle2.path())
        } else if *riddle == "2.1".to_owned() {
            Ok(self.advent2_riddle1.path())
        } else if *riddle == "2.2".to_owned() {
            Ok(self.advent2_riddle2.path())
        } else if *riddle == "3.1".to_owned() {
            Ok(self.advent3_riddle1.path())
        } else {
            Err(RiddleError::UnknownRiddle(riddle.clone()))
        }
    }

    /// Hand the lines of the named riddle's input to its solver; an
    /// unknown key is reported back as such.
    pub fn solve_riddle(&self, riddle: String, lines: &Vec<String>) -> (r: Result<
        Solution,
        RiddleError,
    >)
        ensures
            riddle@ == "1.1"@ ==> advent1_post(lines@, r, false),
            riddle@ == "1.2"@ ==> advent1_post(lines@, r, true),
            riddle@ == "2.1"@ ==> advent2_riddle1_post(lines@, r),
            riddle@ == "2.2"@ ==> advent2_riddle2_post(lines@, r),
            riddle@ == "3.1"@ ==> advent3_post(lines@, r),
            !(riddle@ == "1.1"@ || riddle@ == "1.2"@ || riddle@ == "2.1"@ || riddle@ == "2.2"@
                || riddle@ == "3.1"@) ==> (r matches Err(e) && (e
                matches RiddleError::UnknownRiddle(m) && m@ == riddle@)),
    {
        proof {
            reveal_strlit("1.1");
            reveal_strlit("1.2");
            reveal_strlit("2.1");
            reveal_strlit("2.2");
            reveal_strlit("3.1");
            assert("1.1"@[0] == '1' && "1.1"@[2] == '1');
            assert("1.2"@[0] == '1' && "1.2"@[2] == '2');
            assert("2.1"@[0] == '2' && "2.1"@[2] == '1');
            assert("2.2"@[0] == '2' && "2.2"@[2] == '2');
            assert("3.1"@[0] == '3');
        }
        if riddle == "1.1".to_owned() {
            self.advent1_riddle1.solve_lines(lines)
        } else if riddle == "1.2".to_owned() {
            self.advent1_riddle2.solve_lines(lines)
        } else if riddle == "2.1".to_owned() {
            self.advent2_riddle1.solve_lines(lines)
        } else if riddle == "2.2".to_owned() {
            self.advent2_riddle2.solve_lines(lines)
        } else if riddle == "3.1".to_owned() {
            self.advent3_riddle1.solve_lines(lines)
        } else {
            Err(RiddleError::UnknownRiddle(riddle))
        }
    }
}

} // verus!
