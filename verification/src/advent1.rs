//! Fuel requirements: the mass-to-fuel formula, its recursive closure,
//! and the two riddles that sum one or the other over a list of masses.

use vstd::prelude::*;

use crate::io::{IntsError, convert_msg, first_bad_line, int_str_val, ints_from_lines};
use crate::riddle::{Riddle, RiddleError, Solution};

verus! {

/// Fuel needed to lift a single mass: a third of the mass, rounded down,
/// minus two, and never negative.
pub open spec fn spec_fuel(mass: int) -> int {
    if mass <= 6 {
        0
    } else {
        mass / 3 - 2
    }
}

/// Total fuel for a mass when the fuel itself must be lifted too: the
/// formula is applied repeatedly until it yields nothing.
pub open spec fn spec_fuel_recursive(mass: int) -> int
    decreases mass,
{
    if mass <= 6 {
        0
    } else {
        spec_fuel(mass) + spec_fuel_recursive(spec_fuel(mass))
    }
}

/// The total fuel never exceeds the mass it lifts.
pub proof fn lemma_fuel_recursive_le(mass: int)
    requires
        0 <= mass,
    ensures
        0 <= spec_fuel_recursive(mass) <= mass,
    decreases mass,
{
    if mass > 6 {
        lemma_fuel_recursive_le(spec_fuel(mass));
    }
}

pub fn calculate_fuel(mass: i64) -> (fuel: i64)
    requires
        mass >= 0,
    ensures
        fuel == spec_fuel(mass as int),
{
    if mass <= 6 {
        0
    } else {
        (((mass as u64) / 3) - 2) as i64
    }
}

pub fn calculate_fuel_recursive(mass: i64) -> (fuel: i64)
    requires
        mass >= 0,
    ensures
        fuel == spec_fuel_recursive(mass as int),
    decreases mass,
{
    let increment = calculate_fuel(mass);
    if increment == 0 {
        assert(spec_fuel_recursive(0) == 0);
        assert(spec_fuel_recursive(mass as int) == 0);
        increment
    } else {
        proof {
            lemma_fuel_recursive_le(increment as int);
        }
        increment + calculate_fuel_recursive(increment)
    }
}

/// How summing fuel over a list of masses ends: with the total, or at
/// the first negative mass, or at the first partial sum past `i64`.
pub enum FuelOutcome {
    Total(int),
    NegativeMass,
    Overflow,
}

/// Fold the fuel formula over the masses from the front, accumulating
/// into `acc`: a negative mass or a partial sum that no longer fits a
/// 64-bit value stops the fold where it happens.
pub open spec fn fuel_fold(vals: Seq<i64>, acc: int, recursive: bool) -> FuelOutcome
    decreases vals.len(),
{
    if vals.len() == 0 {
        FuelOutcome::Total(acc)
    } else if vals[0] < 0 {
        FuelOutcome::NegativeMass
    } else {
        let f = if recursive {
            spec_fuel_recursive(vals[0] as int)
        } else {
            spec_fuel(vals[0] as int)
        };
        if acc + f > i64::MAX {
            FuelOutcome::Overflow
        } else {
            fuel_fold(vals.drop_first(), acc + f, recursive)
        }
    }
}

/// The values the input lines denote.
pub open spec fn line_vals(lines: Seq<String>) -> Seq<i64> {
    lines.map_values(|l: String| (int_str_val(l@) as i64))
}

/// What solving a fuel riddle yields: every input line is a mass, and
/// the answer is the fuel formula (plain or recursive) summed over
/// them; an unparsable line, a negative mass, or a sum past `i64` is an
/// error naming that failure.
pub open spec fn advent1_post(lines: Seq<String>, r: Result<Solution, RiddleError>,
    recursive: bool) -> bool {
    if first_bad_line(lines) < lines.len() {
        r matches Err(e) && e matches RiddleError::Generic(m) && m@ == convert_msg(
            lines[first_bad_line(lines)]@,
        )
    } else {
        match fuel_fold(line_vals(lines), 0, recursive) {
            FuelOutcome::Total(s) => r == Ok::<Solution, RiddleError>(
                Solution::Number(s as i64),
            ),
            FuelOutcome::NegativeMass => r matches Err(e) && e matches RiddleError::Generic(m)
                && m@ == "mass must not be negative"@,
            FuelOutcome::Overflow => r matches Err(e) && e matches RiddleError::Generic(m) && m@
                == "total fuel does not fit"@,
        }
    }
}

/// Sum a fuel formula over the parsed masses, stopping at the first
/// negative mass or overflowing sum, exactly as `fuel_fold` describes.
fn total_fuel(ints: &Vec<i64>, recursive: bool) -> (r: Result<i64, RiddleError>)
    ensures
        match fuel_fold(ints@, 0, recursive) {
            FuelOutcome::Total(s) => r == Ok::<i64, RiddleError>(s as i64),
            FuelOutcome::NegativeMass => r matches Err(e) && e matches RiddleError::Generic(m)
                && m@ == "mass must not be negative"@,
            FuelOutcome::Overflow => r matches Err(e) && e matches RiddleError::Generic(m) && m@
                == "total fuel does not fit"@,
        },
{
    let ghost vals = ints@;
    let mut total: i64 = 0;
    let mut i: usize = 0;
    proof {
        assert(vals.subrange(0, vals.len() as int) =~= vals);
    }
    while i < ints.len()
        invariant
            0 <= i <= ints@.len(),
            vals == ints@,
            0 <= total,
            fuel_fold(vals, 0, recursive) == fuel_fold(
                vals.subrange(i as int, vals.len() as int),
                total as int,
                recursive,
            ),
        decreases ints@.len() - i,
    {
        let ghost suffix = vals.subrange(i as int, vals.len() as int);
        let v = ints[i];
        proof {
            assert(suffix[0] == v);
        }
        if v < 0 {
            return Err(RiddleError::Generic("mass must not be negative".to_owned()));
        }
        let f = if recursive {
            calculate_fuel_recursive(v)
        } else {
            calculate_fuel(v)
        };
        proof {
            if recursive {
                lemma_fuel_recursive_le(v as int);
            }
        }
        if total > i64::MAX - f {
            return Err(RiddleError::Generic("total fuel does not fit".to_owned()));
        }
        proof {
            assert(suffix.drop_first() =~= vals.subrange(i as int + 1, vals.len() as int));
        }
        total = total + f;
        i = i + 1;
    }
    proof {
        assert(vals.subrange(vals.len() as int, vals.len() as int).len() == 0);
    }
    Ok(total)
}

/// Parse the input lines as masses; an unparsable line becomes the
/// riddle's error.
fn masses_from_lines(lines: &Vec<String>) -> (r: Result<Vec<i64>, RiddleError>)
    ensures
        r is Ok <==> first_bad_line(lines@) == lines@.len(),
        r matches Ok(v) ==> v@ == line_vals(lines@),
        r matches Err(e) ==> first_bad_line(lines@) < lines@.len() && (e
            matches RiddleError::Generic(m) && m@ == convert_msg(
            lines@[first_bad_line(lines@)]@,
        )),
{
    match ints_from_lines(lines) {
        Ok(v) => {
            proof {
                assert(v@ =~= line_vals(lines@));
            }
            Ok(v)
        },
        Err(e) => match e {
            IntsError::Convert(m) => Err(RiddleError::Generic(m)),
            _ => vstd::pervasive::unreached(),
        },
    }
}

/// The first fuel riddle: the plain formula summed over all masses.
pub struct Advent1Riddle1 {
    input_file: String,
}

impl Advent1Riddle1 {
    /// The path of this riddle's input file.
    pub closed spec fn path_view(&self) -> Seq<char> {
        self.input_file@
    }

    pub fn new(input_file: &str) -> (r: Advent1Riddle1)
        ensures
            r.path_view() == input_file@,
    {
        let input_file = input_file.to_owned();
        Advent1Riddle1 { input_file }
    }

    /// The file this riddle reads its masses from.
    pub fn path(&self) -> (r: &String)
        ensures
            r@ == self.path_view(),
    {
        &self.input_file
    }

    /// Solve the riddle from the lines of its input file: the plain
    /// fuel formula summed over all masses.
    pub fn solve_lines(&self, lines: &Vec<String>) -> (r: Result<Solution, RiddleError>)
        ensures
            advent1_post(lines@, r, false),
    {
        let ints = match masses_from_lines(lines) {
            Ok(v) => v,
            Err(e) => {
                return Err(e);
            },
        };
        match total_fuel(&ints, false) {
            Ok(total) => Ok(Solution::Number(total)),
            Err(e) => Err(e),
        }
    }
}

impl Riddle for Advent1Riddle1 {
    fn solve(&self, lines: &Vec<String>) -> Result<Solution, RiddleError> {
        self.solve_lines(lines)
    }
}

/// The second fuel riddle: the recursive formula summed over all
/// masses.
pub struct Advent1Riddle2 {
    input_file: String,
}

impl Advent1Riddle2 {
    /// The path of this riddle's input file.
    pub closed spec fn path_view(&self) -> Seq<char> {
        self.input_file@
    }

    pub fn new(input_file: &str) -> (r: Advent1Riddle2)
        ensures
            r.path_view() == input_file@,
    {
        let input_file = input_file.to_owned();
        Advent1Riddle2 { input_file }
    }

    /// The file this riddle reads its masses from.
    pub fn path(&self) -> (r: &String)
        ensures
            r@ == self.path_view(),
    {
        &self.input_file
    }

    /// Solve the riddle from the lines of its input file: the recursive
    /// fuel formula summed over all masses.
    pub fn solve_lines(&self, lines: &Vec<String>) -> (r: Result<Solution, RiddleError>)
        ensures
            advent1_post(lines@, r, true),
    {
        let ints = match masses_from_lines(lines) {
            Ok(v) => v,
            Err(e) => {
                return Err(e);
            },
        };
        match total_fuel(&ints, true) {
            Ok(total) => Ok(Solution::Number(total)),
            Err(e) => Err(e),
        }
    }
}

impl Riddle for Advent1Riddle2 {
    fn solve(&self, lines: &Vec<String>) -> Result<Solution, RiddleError> {
        self.solve_lines(lines)
    }
}

} // verus!
