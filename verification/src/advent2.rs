//! The Intcode virtual machine: a memory of signed 64-bit cells that is both
//! program and data, decoded in strides of four cells, plus the brute-force
//! search for the two input parameters that produce a target output.

use vstd::pervasive::VecAdditionalExecFns;
use vstd::prelude::*;

use crate::io::{line_ok, int_str_val, split_commas, trim_spec, find_comma, trim_range, parse_i64_range, lemma_first_comma};
use crate::riddle::{Riddle, RiddleError, Solution};

verus! {

/// What a single decoded instruction asks the execution loop to do next.
#[derive(PartialEq, Eq, Debug)]
pub enum NextAction {
    Proceed,
    Stop,
}

/// Everything that can go wrong while the machine runs; each variant
/// names the position or address at fault.
#[derive(Debug, Eq, PartialEq)]
pub enum IntcodeError {
    UnknownOpcode(i64, usize),
    ProgramPositionOutOfBounds(usize),
    ModifyPositionOutOfBounds(i64),
    ArgumentPositionOutOfBounds(usize, i64),
    ProgramTooShort(usize),
}

/// Outcome of decoding and executing one instruction on a given memory.
pub enum StepSpec {
    Proceed(Seq<i64>),
    Stop,
    Fail(IntcodeError),
}

/// Outcome of the whole decode-execute loop: the final memory, and the
/// error if one terminated the run.
pub enum RunSpec {
    Done(Seq<i64>),
    Fail(IntcodeError, Seq<i64>),
}

/// Addition on cells wraps around on overflow.
pub open spec fn wrap_add(a: i64, b: i64) -> i64 {
    vstd::wrapping::i64_specs::wrapping_add(a, b)
}

/// Multiplication on cells wraps around on overflow.
pub open spec fn wrap_mul(a: i64, b: i64) -> i64 {
    vstd::wrapping::i64_specs::wrapping_mul(a, b)
}

/// One step of the machine at position `pos`: decode the opcode, then for
/// add and multiply read the destination from `pos + 3`, the two operand
/// addresses from `pos + 1` and `pos + 2`, dereference them, and store the
/// result. Checks are made in exactly this order, so the first violated
/// one names the error.
pub open spec fn spec_step(mem: Seq<i64>, pos: int) -> StepSpec {
    let len = mem.len() as int;
    if pos >= len {
        StepSpec::Fail(IntcodeError::ProgramPositionOutOfBounds(pos as usize))
    } else {
        let opcode = mem[pos];
        if opcode == 1 || opcode == 2 {
            if pos + 3 >= len {
                StepSpec::Fail(IntcodeError::ProgramPositionOutOfBounds((pos + 3) as usize))
            } else {
                let dest = mem[pos + 3];
                if dest < 0 || dest >= len {
                    StepSpec::Fail(IntcodeError::ModifyPositionOutOfBounds(dest))
                } else {
                    let a1 = mem[pos + 1];
                    if a1 < 0 || a1 >= len {
                        StepSpec::Fail(
                            IntcodeError::ArgumentPositionOutOfBounds((pos + 1) as usize, a1),
                        )
                    } else {
                        let a2 = mem[pos + 2];
                        if a2 < 0 || a2 >= len {
                            StepSpec::Fail(
                                IntcodeError::ArgumentPositionOutOfBounds((pos + 2) as usize, a2),
                            )
                        } else {
                            let value = if opcode == 1 {
                                wrap_add(mem[a1 as int], mem[a2 as int])
                            } else {
                                wrap_mul(mem[a1 as int], mem[a2 as int])
                            };
                            StepSpec::Proceed(mem.update(dest as int, value))
                        }
                    }
                }
            }
        } else if opcode == 99 {
            StepSpec::Stop
        } else {
            StepSpec::Fail(IntcodeError::UnknownOpcode(opcode, pos as usize))
        }
    }
}

/// The decode-execute loop from `pos` in strides of four, never reaching
/// `bound`: it applies `spec_step` until a halt, an error, or the bound.
/// Trailing cells that cannot form a whole instruction are never decoded.
pub open spec fn spec_run_from(mem: Seq<i64>, pos: int, bound: int) -> RunSpec
    decreases bound - pos,
{
    if pos < 0 || pos + 4 > bound {
        RunSpec::Done(mem)
    } else {
        match spec_step(mem, pos) {
            StepSpec::Fail(e) => RunSpec::Fail(e, mem),
            StepSpec::Stop => RunSpec::Done(mem),
            StepSpec::Proceed(mem2) => spec_run_from(mem2, pos + 4, bound),
        }
    }
}

/// The loop bound for a memory of length `len`: the largest multiple of
/// four that fits.
pub open spec fn spec_bound(len: int) -> int {
    len - len % 4
}

/// The result of a full run started at position zero.
pub open spec fn spec_run(mem: Seq<i64>) -> RunSpec {
    spec_run_from(mem, 0, spec_bound(mem.len() as int))
}

/// What `run_with_parameters` returns: too-short programs are rejected,
/// otherwise cells 1 and 2 are overwritten and the machine runs from
/// position zero; on a halt the value of cell 0 comes back.
pub open spec fn spec_run_result(mem: Seq<i64>, noun: i64, verb: i64) -> Result<
    i64,
    IntcodeError,
> {
    if mem.len() <= 4 {
        Err(IntcodeError::ProgramPositionOutOfBounds(mem.len() as usize))
    } else {
        match spec_run(mem.update(1, noun).update(2, verb)) {
            RunSpec::Done(m) => Ok(m[0]),
            RunSpec::Fail(e, _) => Err(e),
        }
    }
}

/// A run never changes the length of the memory.
pub proof fn lemma_run_preserves_len(mem: Seq<i64>, pos: int, bound: int)
    ensures
        spec_run_from(mem, pos, bound) matches RunSpec::Done(m) ==> m.len() == mem.len(),
        spec_run_from(mem, pos, bound) matches RunSpec::Fail(_, m) ==> m.len() == mem.len(),
    decreases bound - pos,
{
    if !(pos < 0 || pos + 4 > bound) {
        match spec_step(mem, pos) {
            StepSpec::Proceed(mem2) => {
                lemma_run_preserves_len(mem2, pos + 4, bound);
            },
            _ => {},
        }
    }
}

/// An Intcode program: the memory it runs on, owned outright.
#[derive(Eq, PartialEq, Debug)]
pub struct Program {
    int_code: Vec<i64>,
}

impl Program {
    /// The memory the program runs on, as a mathematical sequence.
    pub closed spec fn mem(&self) -> Seq<i64> {
        self.int_code@
    }

    /// A usable program: non-empty, and small enough that positions a
    /// stride past the end still fit in `usize` and in `i64`.
    pub open spec fn wf(&self) -> bool {
        &&& 1 <= self.mem().len()
        &&& self.mem().len() + 4 <= usize::MAX
        &&& self.mem().len() + 4 <= i64::MAX
    }

    /// Take ownership of a non-empty memory; the bounds keep every
    /// position a stride past the end representable.
    pub fn new(int_code: Vec<i64>) -> (p: Program)
        requires
            1 <= int_code@.len(),
            int_code@.len() + 4 <= usize::MAX,
            int_code@.len() + 4 <= i64::MAX,
        ensures
            p.mem() == int_code@,
            p.wf(),
    {
        Program { int_code }
    }

    /// Read the cell at `position`, or report that the position lies
    /// outside the memory.
    pub fn get_opcode(&self, position: usize) -> (r: Result<i64, IntcodeError>)
        ensures
            position < self.mem().len() ==> r == Ok::<i64, IntcodeError>(
                self.mem()[position as int],
            ),
            position >= self.mem().len() ==> r == Err::<i64, IntcodeError>(
                IntcodeError::ProgramPositionOutOfBounds(position),
            ),
    {
        if position >= self.int_code.len() {
            Err(IntcodeError::ProgramPositionOutOfBounds(position))
        } else {
            Ok(self.int_code[position])
        }
    }

    /// Treat the cell at `position` as an address and read the cell it
    /// points to; the address must lie inside the memory.
    pub fn get_arg(&self, position: usize) -> (r: Result<i64, IntcodeError>)
        ensures
            position >= self.mem().len() ==> r == Err::<i64, IntcodeError>(
                IntcodeError::ProgramPositionOutOfBounds(position),
            ),
            position < self.mem().len() ==> {
                let ap = self.mem()[position as int];
                if ap < 0 || ap >= self.mem().len() {
                    r == Err::<i64, IntcodeError>(
                        IntcodeError::ArgumentPositionOutOfBounds(position, ap),
                    )
                } else {
                    r == Ok::<i64, IntcodeError>(self.mem()[ap as int])
                }
            },
    {
        let argument_pos = match self.get_opcode(position) {
            Ok(v) => v,
            Err(e) => {
                return Err(e);
            },
        };
        if argument_pos < 0 || argument_pos as u64 >= self.int_code.len() as u64 {
            return Err(IntcodeError::ArgumentPositionOutOfBounds(position, argument_pos));
        }
        Ok(self.int_code[argument_pos as usize])
    }

    /// Read the two operands and the destination address of the add or
    /// multiply instruction at `position`, each bounds-checked in the
    /// order destination, first operand, second operand.
    pub fn get_args_and_pos(&self, position: usize) -> (r: Result<(i64, i64, i64), IntcodeError>)
        requires
            self.wf(),
            position + 3 <= usize::MAX,
        ensures
            ({
                let len = self.mem().len() as int;
                if position + 3 >= len {
                    r == Err::<(i64, i64, i64), IntcodeError>(
                        IntcodeError::ProgramPositionOutOfBounds((position + 3) as usize),
                    )
                } else {
                    let dest = self.mem()[position + 3];
                    let a1 = self.mem()[position + 1];
                    let a2 = self.mem()[position + 2];
                    if dest < 0 || dest >= len {
                        r == Err::<(i64, i64, i64), IntcodeError>(
                            IntcodeError::ModifyPositionOutOfBounds(dest),
                        )
                    } else if a1 < 0 || a1 >= len {
                        r == Err::<(i64, i64, i64), IntcodeError>(
                            IntcodeError::ArgumentPositionOutOfBounds((position + 1) as usize, a1),
                        )
                    } else if a2 < 0 || a2 >= len {
                        r == Err::<(i64, i64, i64), IntcodeError>(
                            IntcodeError::ArgumentPositionOutOfBounds((position + 2) as usize, a2),
                        )
                    } else {
                        r == Ok::<(i64, i64, i64), IntcodeError>(
                            (self.mem()[a1 as int], self.mem()[a2 as int], dest),
                        )
                    }
                }
            }),
    {
        let modify_position = match self.get_opcode(position + 3) {
            Ok(v) => v,
            Err(e) => {
                return Err(e);
            },
        };
        if modify_position < 0 || modify_position >= self.int_code.len() as i64 {
            return Err(IntcodeError::ModifyPositionOutOfBounds(modify_position));
        }
        let arg1 = match self.get_arg(position + 1) {
            Ok(v) => v,
            Err(e) => {
                return Err(e);
            },
        };
        let arg2 = match self.get_arg(position + 2) {
            Ok(v) => v,
            Err(e) => {
                return Err(e);
            },
        };
        Ok((arg1, arg2, modify_position))
    }

    /// Decode and execute the single instruction at `program_position`,
    /// exactly as `spec_step` describes it.
    pub fn execute_step(&mut self, program_position: usize) -> (r: Result<
        NextAction,
        IntcodeError,
    >)
        requires
            old(self).wf(),
        ensures
            final(self).wf(),
            final(self).mem().len() == old(self).mem().len(),
            match spec_step(old(self).mem(), program_position as int) {
                StepSpec::Proceed(m2) => final(self).mem() == m2 && r == Ok::<
                    NextAction,
                    IntcodeError,
                >(NextAction::Proceed),
                StepSpec::Stop => final(self).mem() == old(self).mem() && r == Ok::<
                    NextAction,
                    IntcodeError,
                >(NextAction::Stop),
                StepSpec::Fail(e) => final(self).mem() == old(self).mem() && r == Err::<
                    NextAction,
                    IntcodeError,
                >(e),
            },
    {
        let opcode = match self.get_opcode(program_position) {
            Ok(v) => v,
            Err(e) => {
                return Err(e);
            },
        };
        if opcode == 1 || opcode == 2 {
            let (arg1, arg2, modify_position) = match self.get_args_and_pos(program_position) {
                Ok(v) => v,
                Err(e) => {
                    return Err(e);
                },
            };
            let new_value = if opcode == 1 {
                arg1.wrapping_add(arg2)
            } else {
                arg1.wrapping_mul(arg2)
            };
            self.int_code.set(modify_position as usize, new_value);
            Ok(NextAction::Proceed)
        } else if opcode == 99 {
            Ok(NextAction::Stop)
        } else {
            Err(IntcodeError::UnknownOpcode(opcode, program_position))
        }
    }

    /// Run the decode-execute loop from position zero, exactly as
    /// `spec_run` describes it: the memory ends as the sequential
    /// application of the steps leaves it.
    pub fn run(&mut self) -> (r: Result<(), IntcodeError>)
        requires
            old(self).wf(),
        ensures
            final(self).wf(),
            match spec_run(old(self).mem()) {
                RunSpec::Done(m) => final(self).mem() == m && r == Ok::<(), IntcodeError>(()),
                RunSpec::Fail(e, m) => final(self).mem() == m && r == Err::<(), IntcodeError>(e),
            },
    {
        let opcodes = self.int_code.len();
        let highest_idx = opcodes - opcodes % 4;
        let ghost bound = highest_idx as int;
        let ghost orig = self.mem();
        let mut i: usize = 0;
        while i + 4 <= highest_idx
            invariant
                self.wf(),
                self.mem().len() == orig.len(),
                orig == old(self).mem(),
                bound == highest_idx as int,
                i % 4 == 0,
                0 <= i <= highest_idx,
                highest_idx == spec_bound(orig.len() as int),
                highest_idx <= self.mem().len(),
                spec_run_from(orig, 0, bound) == spec_run_from(self.mem(), i as int, bound),
            decreases highest_idx - i,
        {
            let ghost pre = self.mem();
            let ghost gi = i as int;
            match self.execute_step(i) {
                Ok(NextAction::Proceed) => {
                    proof {
                        assert(spec_step(pre, gi) matches StepSpec::Proceed(m2) && m2
                            == self.mem());
                        assert(spec_run_from(pre, gi, bound) == spec_run_from(
                            self.mem(),
                            gi + 4,
                            bound,
                        ));
                    }
                },
                Ok(NextAction::Stop) => {
                    proof {
                        assert(spec_run_from(pre, gi, bound) == RunSpec::Done(pre));
                    }
                    return Ok(());
                },
                Err(e) => {
                    proof {
                        assert(spec_run_from(pre, gi, bound) == RunSpec::Fail(e, pre));
                    }
                    return Err(e);
                },
            }
            i = i + 4;
        }
        Ok(())
    }

    /// Overwrite cells 1 and 2 with `noun` and `verb`, run the program,
    /// and return cell 0; programs too short to hold one instruction are
    /// rejected. The result is `spec_run_result` of the starting memory.
    pub fn run_with_parameters(&mut self, noun: i64, verb: i64) -> (r: Result<i64, IntcodeError>)
        requires
            old(self).wf(),
        ensures
            final(self).wf(),
            r == spec_run_result(old(self).mem(), noun, verb),
            old(self).mem().len() <= 4 ==> final(self).mem() == old(self).mem(),
            old(self).mem().len() > 4 ==> {
                let started = old(self).mem().update(1, noun).update(2, verb);
                match spec_run(started) {
                    RunSpec::Done(m) => final(self).mem() == m,
                    RunSpec::Fail(_, m) => final(self).mem() == m,
                }
            },
    {
        let int_code_len = self.int_code.len();
        if int_code_len <= 4 {
            return Err(IntcodeError::ProgramPositionOutOfBounds(int_code_len));
        }
        self.int_code.set(1, noun);
        self.int_code.set(2, verb);
        proof {
            lemma_run_preserves_len(self.mem(), 0, spec_bound(self.mem().len() as int));
        }
        match self.run() {
            Ok(()) => {},
            Err(e) => {
                return Err(e);
            },
        }
        Ok(self.int_code[0])
    }
}

/// The outcome of trying the pair encoded by `k` (`noun` is `k / 100`,
/// `verb` is `k % 100`) on a fresh copy of `base`.
pub open spec fn spec_trial(base: Seq<i64>, k: int) -> Result<i64, IntcodeError> {
    spec_run_result(base, (k / 100) as i64, (k % 100) as i64)
}

/// The parameter search from the pair encoded by `k` on: pairs are tried
/// in order of their encoding `100 * noun + verb`, a machine error ends
/// the search at once, the first pair whose run returns `target` wins,
/// and an exhausted range reports that no solution was found.
pub open spec fn spec_search(base: Seq<i64>, target: i64, k: int) -> Result<i64, RiddleError>
    decreases 10000 - k,
{
    if !(0 <= k < 10000) {
        Err(RiddleError::NoSolutionFound)
    } else {
        match spec_trial(base, k) {
            Err(e) => Err(RiddleError::Intcode(e)),
            Ok(v) => if v == target {
                Ok(k as i64)
            } else {
                spec_search(base, target, k + 1)
            },
        }
    }
}

/// What the search promises: a returned encoding names the first pair,
/// in noun-major then verb-minor order, whose run yields the target; a
/// machine error is the first one any pair produced, and every earlier
/// pair ran to a value other than the target; and no solution is
/// reported only when every pair ran to a value other than the target.
#[verifier::rlimit(100)]
#[verifier::spinoff_prover]
pub proof fn lemma_search_characterization(base: Seq<i64>, target: i64, k: int)
    requires
        0 <= k <= 10000,
    ensures
        spec_search(base, target, k) matches Ok(res) ==> {
            &&& k <= res < 10000
            &&& spec_trial(base, res as int) == Ok::<i64, IntcodeError>(target)
            &&& forall|j: int|
                k <= j < res ==> #[trigger] spec_trial(base, j) is Ok && spec_trial(base, j)
                    != Ok::<i64, IntcodeError>(target)
        },
        spec_search(base, target, k) == Err::<i64, RiddleError>(RiddleError::NoSolutionFound)
            ==> forall|j: int|
            k <= j < 10000 ==> #[trigger] spec_trial(base, j) is Ok && spec_trial(base, j)
                != Ok::<i64, IntcodeError>(target),
        forall|e: IntcodeError|
            spec_search(base, target, k) == Err::<i64, RiddleError>(RiddleError::Intcode(e))
                ==> exists|m: int|
                #![trigger spec_trial(base, m)]
                {
                    &&& k <= m < 10000
                    &&& spec_trial(base, m) == Err::<i64, IntcodeError>(e)
                    &&& forall|j: int|
                        k <= j < m ==> #[trigger] spec_trial(base, j) is Ok && spec_trial(base, j)
                            != Ok::<i64, IntcodeError>(target)
                },
    decreases 10000 - k,
{
    if k < 10000 {
        lemma_search_characterization(base, target, k + 1);
    }
}

/// Overwriting cells 1 and 2 erases whatever stood there: two memories
/// that differ at most in those two cells run to the same outcome under
/// the same noun and verb.
pub proof fn lemma_parameters_override(a: Seq<i64>, b: Seq<i64>, noun: i64, verb: i64)
    requires
        a.len() == b.len(),
        forall|i: int| 0 <= i < a.len() && i != 1 && i != 2 ==> a[i] == b[i],
    ensures
        spec_run_result(a, noun, verb) == spec_run_result(b, noun, verb),
{
    if a.len() > 4 {
        assert(a.update(1, noun).update(2, verb) =~= b.update(1, noun).update(2, verb));
    }
}

/// Running two programs over the same memory with the same parameters
/// gives the same outcome: the machine is deterministic, with no state
/// outside its memory.
pub proof fn lemma_run_deterministic(p: Program, q: Program, noun: i64, verb: i64)
    requires
        p.mem() == q.mem(),
    ensures
        spec_run_result(p.mem(), noun, verb) == spec_run_result(q.mem(), noun, verb),
{
}

/// Try every pair of noun and verb, each from 0 to 99, on a fresh copy
/// of `int_code`, in noun-major then verb-minor order, until one makes
/// the program halt with `target` in cell 0; its encoding
/// `100 * noun + verb` comes back. A machine error ends the search at
/// once, and an exhausted range reports `NoSolutionFound`, exactly as
/// `spec_search` describes.
pub fn find_parameters(int_code: &Vec<i64>, target: i64) -> (r: Result<i64, RiddleError>)
    requires
        1 <= int_code@.len(),
        int_code@.len() + 4 <= usize::MAX,
        int_code@.len() + 4 <= i64::MAX,
    ensures
        r == spec_search(int_code@, target, 0),
{
    let ghost base = int_code@;
    let mut noun: i64 = 0;
    while noun < 100
        invariant
            0 <= noun <= 100,
            base == int_code@,
            1 <= int_code@.len(),
            int_code@.len() + 4 <= usize::MAX,
            int_code@.len() + 4 <= i64::MAX,
            spec_search(base, target, 0) == spec_search(base, target, 100 * noun),
        decreases 100 - noun,
    {
        let mut verb: i64 = 0;
        while verb < 100
            invariant
                0 <= noun < 100,
                0 <= verb <= 100,
                base == int_code@,
                1 <= int_code@.len(),
                int_code@.len() + 4 <= usize::MAX,
                int_code@.len() + 4 <= i64::MAX,
                spec_search(base, target, 0) == spec_search(base, target, 100 * noun + verb),
            decreases 100 - verb,
        {
            let copy = clone_int_code(int_code);
            let mut program = Program::new(copy);
            let ghost k = 100 * noun + verb;
            proof {
                lemma_encoded_pair(noun as int, verb as int);
            }
            let result = match program.run_with_parameters(noun, verb) {
                Ok(v) => v,
                Err(e) => {
                    return Err(RiddleError::Intcode(e));
                },
            };
            if result == target {
                return Ok(100 * noun + verb);
            }
            verb = verb + 1;
        }
        noun = noun + 1;
    }
    Err(RiddleError::NoSolutionFound)
}

/// The pair encoded by `100 * noun + verb` decodes back to `noun` and
/// `verb` when both lie below 100.
proof fn lemma_encoded_pair(noun: int, verb: int)
    requires
        0 <= noun < 100,
        0 <= verb < 100,
    ensures
        (100 * noun + verb) / 100 == noun,
        (100 * noun + verb) % 100 == verb,
{
    assert((100 * noun + verb) / 100 == noun && (100 * noun + verb) % 100 == verb)
        by (nonlinear_arith)
        requires
            0 <= noun < 100,
            0 <= verb < 100,
    ;
}

/// A fresh copy of the program memory for one search attempt.
fn clone_int_code(int_code: &Vec<i64>) -> (r: Vec<i64>)
    ensures
        r@ == int_code@,
{
    let r = int_code.clone();
    proof {
        assert(r@ =~= int_code@);
    }
    r
}

/// Every comma-separated piece of the text, once trimmed, is a 64-bit
/// integer.
pub open spec fn numbers_ok(t: Seq<char>) -> bool {
    forall|i: int|
        0 <= i < split_commas(t).len() ==> line_ok(trim_spec(#[trigger] split_commas(t)[i]))
}

/// The values of the comma-separated pieces, in order.
pub open spec fn numbers_of(t: Seq<char>) -> Seq<i64> {
    split_commas(t).map_values(|p: Seq<char>| (int_str_val(trim_spec(p)) as i64))
}

/// Read a program memory from text: integers separated by commas, each
/// with optional surrounding white space. The first piece that is not a
/// 64-bit integer makes the whole text unreadable.
pub fn get_numbers(content: &str) -> (r: Result<Vec<i64>, RiddleError>)
    ensures
        r is Ok <==> numbers_ok(content@),
        r matches Ok(v) ==> v@ == numbers_of(content@),
        r matches Err(e) ==> e matches RiddleError::Generic(m) && m@
            == "could not parse numbers"@,
{
    let n = content.unicode_len();
    let ghost t = content@;
    let ghost toks = split_commas(t);
    let mut out: Vec<i64> = Vec::new();
    let mut start: usize = 0;
    let mut done = false;
    proof {
        assert(t.subrange(0, n as int) =~= t);
        assert(toks.subrange(0, toks.len() as int) =~= toks);
    }
    while !done
        invariant
            start <= n == t.len(),
            t == content@,
            toks == split_commas(t),
            out@.len() <= toks.len(),
            !done ==> split_commas(t.subrange(start as int, n as int)) == toks.subrange(
                out@.len() as int,
                toks.len() as int,
            ),
            done ==> out@.len() == toks.len(),
            forall|j: int|
                0 <= j < out@.len() ==> line_ok(trim_spec(#[trigger] toks[j])) && out@[j]
                    == int_str_val(trim_spec(toks[j])),
        decreases n - start + (if done {
            0int
        } else {
            1int
        }),
    {
        let ghost k = out@.len() as int;
        let ghost suffix = t.subrange(start as int, n as int);
        let p = find_comma(content, start, n);
        let ghost tok = t.subrange(start as int, p as int);
        proof {
            lemma_first_comma(suffix);
            if p < n {
                assert(suffix.subrange(0, p - start) =~= tok);
                assert(suffix.subrange(p - start + 1, suffix.len() as int) =~= t.subrange(
                    p as int + 1,
                    n as int,
                ));
                let tail = split_commas(t.subrange(p as int + 1, n as int));
                assert(split_commas(suffix) == seq![tok] + tail);
                assert(toks.subrange(k, toks.len() as int) == seq![tok] + tail);
                assert(toks.len() - k == 1 + tail.len());
                assert(toks.subrange(k, toks.len() as int)[0] == toks[k]);
                assert((seq![tok] + tail)[0] == tok);
                assert(toks[k] == tok);
                assert forall|j: int| 0 <= j < tail.len() implies #[trigger] tail[j] == toks[k + 1
                    + j] by {
                    assert((seq![tok] + tail)[j + 1] == tail[j]);
                    assert(toks.subrange(k, toks.len() as int)[j + 1] == toks[k + 1 + j]);
                }
                assert(tail =~= toks.subrange(k + 1, toks.len() as int));
            } else {
                assert(p - start == suffix.len());
                assert(suffix =~= tok);
                assert(split_commas(suffix) == seq![tok]);
                assert(toks.subrange(k, toks.len() as int) == seq![tok]);
                assert(seq![tok].len() == 1);
                assert(toks.subrange(k, toks.len() as int).len() == toks.len() - k);
                assert(toks.len() - k == 1);
                assert(toks.subrange(k, toks.len() as int)[0] == toks[k]);
                assert(toks[k] == tok);
                assert(toks.len() == k + 1);
            }
        }
        let (lo, hi) = trim_range(content, start, p);
        let value = match parse_i64_range(content, lo, hi) {
            Some(v) => v,
            None => {
                proof {
                    assert(!line_ok(trim_spec(toks[k])));
                }
                return Err(RiddleError::Generic("could not parse numbers".to_owned()));
            },
        };
        out.push(value);
        if p < n {
            start = p + 1;
        } else {
            done = true;
        }
    }
    proof {
        assert(out@ =~= numbers_of(t));
    }
    Ok(out)
}

/// A memory of this size can be loaded into a `Program`.
pub open spec fn program_size_ok(n: int) -> bool {
    1 <= n && n + 4 <= usize::MAX && n + 4 <= i64::MAX
}

/// The comma-separated text of the first input line, or nothing when
/// there is no line at all.
pub open spec fn first_line(lines: Seq<String>) -> Seq<char> {
    if lines.len() == 0 {
        Seq::<char>::empty()
    } else {
        lines[0]@
    }
}

/// What loading a program memory from the first input line yields.
pub open spec fn load_post(lines: Seq<String>, r: Result<Vec<i64>, RiddleError>) -> bool {
    let content = first_line(lines);
    if !numbers_ok(content) {
        r matches Err(e) && e matches RiddleError::Generic(m) && m@ == "could not parse numbers"@
    } else if !program_size_ok(numbers_of(content).len() as int) {
        r matches Err(e) && e matches RiddleError::Generic(m) && m@ == "program too large"@
    } else {
        r matches Ok(v) && v@ == numbers_of(content)
    }
}

/// Read the program memory for an Intcode riddle from the first input
/// line.
fn load_numbers(lines: &Vec<String>) -> (r: Result<Vec<i64>, RiddleError>)
    ensures
        load_post(lines@, r),
        r matches Ok(v) ==> program_size_ok(v@.len() as int),
{
    let content: &str = if lines.len() == 0 {
        proof {
            reveal_strlit("");
            assert(""@ =~= Seq::<char>::empty());
        }
        ""
    } else {
        lines[0].as_str()
    };
    let numbers = match get_numbers(content) {
        Ok(v) => v,
        Err(e) => {
            return Err(e);
        },
    };
    if numbers.len() < 1 || numbers.len() > usize::MAX - 4 || numbers.len() as u64 > (i64::MAX
        - 4) as u64 {
        return Err(RiddleError::Generic("program too large".to_owned()));
    }
    Ok(numbers)
}

/// What solving the first Intcode riddle yields: the program of the
/// first input line runs with noun 12 and verb 2, and cell 0 is the
/// answer.
pub open spec fn advent2_riddle1_post(lines: Seq<String>, r: Result<
    Solution,
    RiddleError,
>) -> bool {
    let content = first_line(lines);
    if !numbers_ok(content) {
        r matches Err(e) && e matches RiddleError::Generic(m) && m@ == "could not parse numbers"@
    } else if !program_size_ok(numbers_of(content).len() as int) {
        r matches Err(e) && e matches RiddleError::Generic(m) && m@ == "program too large"@
    } else {
        match spec_run_result(numbers_of(content), 12, 2) {
            Ok(v) => r == Ok::<Solution, RiddleError>(Solution::Number(v)),
            Err(e) => r == Err::<Solution, RiddleError>(RiddleError::Intcode(e)),
        }
    }
}

/// The first Intcode riddle: one run with noun 12 and verb 2.
pub struct Advent2Riddle1 {
    input_file: String,
}

impl Advent2Riddle1 {
    /// The path of this riddle's input file.
    pub closed spec fn path_view(&self) -> Seq<char> {
        self.input_file@
    }

    pub fn new(input_file: &str) -> (r: Advent2Riddle1)
        ensures
            r.path_view() == input_file@,
    {
        let input_file = input_file.to_owned();
        Advent2Riddle1 { input_file }
    }

    /// The file this riddle reads its program from.
    pub fn path(&self) -> (r: &String)
        ensures
            r@ == self.path_view(),
    {
        &self.input_file
    }

    /// Solve the riddle from the lines of its input file.
    pub fn solve_lines(&self, lines: &Vec<String>) -> (r: Result<Solution, RiddleError>)
        ensures
            advent2_riddle1_post(lines@, r),
    {
        let numbers = match load_numbers(lines) {
            Ok(v) => v,
            Err(e) => {
                return Err(e);
            },
        };
        let mut program = Program::new(numbers);
        let noun: i64 = 12;
        let verb: i64 = 2;
        match program.run_with_parameters(noun, verb) {
            Ok(result) => Ok(Solution::Number(result)),
            Err(e) => Err(RiddleError::Intcode(e)),
        }
    }
}

impl Riddle for Advent2Riddle1 {
    fn solve(&self, lines: &Vec<String>) -> Result<Solution, RiddleError> {
        self.solve_lines(lines)
    }
}

/// The output the second Intcode riddle searches for.
pub open spec fn spec_search_target() -> i64 {
    19690720
}

/// What solving the second Intcode riddle yields: the encoding of the
/// first noun and verb pair that makes the program of the first input
/// line halt with the target value in cell 0.
pub open spec fn advent2_riddle2_post(lines: Seq<String>, r: Result<
    Solution,
    RiddleError,
>) -> bool {
    let content = first_line(lines);
    if !numbers_ok(content) {
        r matches Err(e) && e matches RiddleError::Generic(m) && m@ == "could not parse numbers"@
    } else if !program_size_ok(numbers_of(content).len() as int) {
        r matches Err(e) && e matches RiddleError::Generic(m) && m@ == "program too large"@
    } else {
        match spec_search(numbers_of(content), spec_search_target(), 0) {
            Ok(v) => r == Ok::<Solution, RiddleError>(Solution::Number(v)),
            Err(e) => r == Err::<Solution, RiddleError>(e),
        }
    }
}

/// The second Intcode riddle: the search for the pair that hits the
/// target output.
pub struct Advent2Riddle2 {
    input_file: String,
}

impl Advent2Riddle2 {
    /// The path of this riddle's input file.
    pub closed spec fn path_view(&self) -> Seq<char> {
        self.input_file@
    }

    pub fn new(input_file: &str) -> (r: Advent2Riddle2)
        ensures
            r.path_view() == input_file@,
    {
        Advent2Riddle2 { input_file: input_file.to_owned() }
    }

    /// The file this riddle reads its program from.
    pub fn path(&self) -> (r: &String)
        ensures
            r@ == self.path_view(),
    {
        &self.input_file
    }

    /// Solve the riddle from the lines of its input file.
    pub fn solve_lines(&self, lines: &Vec<String>) -> (r: Result<Solution, RiddleError>)
        ensures
            advent2_riddle2_post(lines@, r),
    {
        let numbers = match load_numbers(lines) {
            Ok(v) => v,
            Err(e) => {
                return Err(e);
            },
        };
        let target_result: i64 = 19690720;
        match find_parameters(&numbers, target_result) {
            Ok(code) => Ok(Solution::Number(code)),
            Err(e) => Err(e),
        }
    }
}

impl Riddle for Advent2Riddle2 {
    fn solve(&self, lines: &Vec<String>) -> Result<Solution, RiddleError> {
        self.solve_lines(lines)
    }
}

} // verus!
