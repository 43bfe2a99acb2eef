//! Simulate Peppermint code on Tick Talk, the accumulator machine.
//!
//! The machine holds a flat word memory, an accumulator and a program
//! counter.  Each step executes the statement at the program counter: a bare
//! literal loads itself into the accumulator, the arithmetic and bitwise
//! instructions combine the accumulator with a memory word (addition and
//! subtraction wrap around), `Store` writes the accumulator to memory,
//! `Jump` sets the program counter to its resolved statement index, and a
//! label is a no-op.  An access outside of memory is an error distinct from
//! normal completion; the program counter reaching past the last statement
//! is normal termination.
//!
//! [`step_spec`] is the machine semantics; [`TickTalk::step`] is the
//! verified implementation of one step.

use crate::{DoubleWord, Instruction, InstructionV, Program, Statement, StatementV};
use vstd::pervasive::VecAdditionalExecFns;
use vstd::prelude::*;

verus! {

/// Error in simulation.
#[derive(Debug, Clone, Copy, PartialEq, Eq, Structural)]
pub enum Error {
    /// Tried to access an address outside of memory.
    AccessOutOfBounds,
}

/// Machine state as a mathematical value: the memory words, the program
/// counter and the accumulator.
pub struct MachineV {
    /// Memory of the system.
    pub memory: Seq<DoubleWord>,
    /// Program counter.
    pub program_counter: int,
    /// Accumulator.
    pub accumulator: DoubleWord,
}

/// The machine semantics: one execution step of the program `prog` from
/// state `s`.
///
/// A halted machine (program counter at or past the end) does not change.
/// Otherwise the statement at the program counter executes, with the counter
/// first moving to the next statement; a memory access outside of the
/// memory is an error.  Addition and subtraction wrap around the word size.
pub open spec fn step_spec(prog: Seq<StatementV>, s: MachineV) -> Result<MachineV, Error> {
    if s.program_counter >= prog.len() {
        Ok(s)
    } else {
        let pc1 = s.program_counter + 1;
        match prog[s.program_counter] {
            StatementV::Label(_) => Ok(
                MachineV {
                    memory: s.memory,
                    program_counter: pc1,
                    accumulator: s.accumulator,
                },
            ),
            StatementV::Literal(v) => Ok(
                MachineV { memory: s.memory, program_counter: pc1, accumulator: v },
            ),
            StatementV::InstrLine(i) => match i {
                InstructionV::Load(a) => {
                    if a < s.memory.len() {
                        Ok(
                            MachineV {
                                memory: s.memory,
                                program_counter: pc1,
                                accumulator: s.memory[a as int],
                            },
                        )
                    } else {
                        Err(Error::AccessOutOfBounds)
                    }
                },
                InstructionV::And(a) => {
                    if a < s.memory.len() {
                        Ok(
                            MachineV {
                                memory: s.memory,
                                program_counter: pc1,
                                accumulator: s.accumulator & s.memory[a as int],
                            },
                        )
                    } else {
                        Err(Error::AccessOutOfBounds)
                    }
                },
                InstructionV::Xor(a) => {
                    if a < s.memory.len() {
                        Ok(
                            MachineV {
                                memory: s.memory,
                                program_counter: pc1,
                                accumulator: s.accumulator ^ s.memory[a as int],
                            },
                        )
                    } else {
                        Err(Error::AccessOutOfBounds)
                    }
                },
                InstructionV::Or(a) => {
                    if a < s.memory.len() {
                        Ok(
                            MachineV {
                                memory: s.memory,
                                program_counter: pc1,
                                accumulator: s.accumulator | s.memory[a as int],
                            },
                        )
                    } else {
                        Err(Error::AccessOutOfBounds)
                    }
                },
                InstructionV::Add(a) => {
                    if a < s.memory.len() {
                        Ok(
                            MachineV {
                                memory: s.memory,
                                program_counter: pc1,
                                accumulator: s.accumulator.wrapping_add(s.memory[a as int]),
                            },
                        )
                    } else {
                        Err(Error::AccessOutOfBounds)
                    }
                },
                InstructionV::Sub(a) => {
                    if a < s.memory.len() {
                        Ok(
                            MachineV {
                                memory: s.memory,
                                program_counter: pc1,
                                accumulator: s.accumulator.wrapping_sub(s.memory[a as int]),
                            },
                        )
                    } else {
                        Err(Error::AccessOutOfBounds)
                    }
                },
                InstructionV::Store(a) => {
                    if a < s.memory.len() {
                        Ok(
                            MachineV {
                                memory: s.memory.update(a as int, s.accumulator),
                                program_counter: pc1,
                                accumulator: s.accumulator,
                            },
                        )
                    } else {
                        Err(Error::AccessOutOfBounds)
                    }
                },
                InstructionV::Jump(t) => Ok(
                    MachineV { memory: s.memory, program_counter: t, accumulator: s.accumulator },
                ),
            },
        }
    }
}

/// The machine state after `n` steps from `s`, or the error of the first
/// failing step.
pub open spec fn run_steps(prog: Seq<StatementV>, s: MachineV, n: nat) -> Result<MachineV, Error>
    decreases n,
{
    if n == 0 {
        Ok(s)
    } else {
        match step_spec(prog, s) {
            Err(e) => Err(e),
            Ok(s2) => run_steps(prog, s2, (n - 1) as nat),
        }
    }
}

/// A run of `n` steps extends by one step at its end.
pub proof fn lemma_run_steps_snoc(prog: Seq<StatementV>, s: MachineV, n: nat)
    ensures
        run_steps(prog, s, n) matches Ok(s2) ==> run_steps(prog, s, n + 1) == step_spec(prog, s2),
    decreases n,
{
    if n == 0 {
        match step_spec(prog, s) {
            Ok(s2) => {
                assert(run_steps(prog, s2, 0) == Ok::<MachineV, Error>(s2));
            },
            Err(_) => {},
        }
    } else {
        match step_spec(prog, s) {
            Ok(s2) => {
                lemma_run_steps_snoc(prog, s2, (n - 1) as nat);
            },
            Err(_) => {},
        }
    }
}

/// Simulator for Peppermint on Tick Talk.
///
/// Represents the state of a Tick Talk machine as a program runs on it.
pub struct TickTalk<'a> {
    /// Memory of the system.
    pub memory: Vec<DoubleWord>,
    /// Program code that the system is executing.
    pub program: &'a Program,
    /// Program counter register.
    pub program_counter: usize,
    /// Accumulator of the system.
    pub accumulator: DoubleWord,
}

impl<'a> View for TickTalk<'a> {
    type V = MachineV;

    open spec fn view(&self) -> MachineV {
        MachineV {
            memory: self.memory@,
            program_counter: self.program_counter as int,
            accumulator: self.accumulator,
        }
    }
}

impl<'a> TickTalk<'a> {
    /// Create a new simulator with `memory_size` zeroed memory words and
    /// load a program into it.
    ///
    /// To parse into a program, see [`Program::parse_source`].
    pub fn new(program: &'a Program, memory_size: usize) -> (r: Self)
        ensures
            r.program == program,
            r@.memory.len() == memory_size,
            forall|i: int| 0 <= i < memory_size ==> r@.memory[i] == 0u16,
            r@.program_counter == 0,
            r@.accumulator == 0u16,
    {
        let mut memory: Vec<DoubleWord> = Vec::new();
        let mut i: usize = 0;
        while i < memory_size
            invariant
                i <= memory_size,
                memory@.len() == i,
                forall|q: int| 0 <= q < i ==> memory@[q] == 0u16,
            decreases memory_size - i,
        {
            memory.push(0);
            i += 1;
        }
        TickTalk { memory, program, program_counter: 0, accumulator: 0 }
    }

    /// Create a new simulator with an externally allocated memory buffer and
    /// load a program into it.
    ///
    /// To parse into a program, see [`Program::parse_source`].
    pub fn with_external_mem(program: &'a Program, memory: Vec<DoubleWord>) -> (r: Self)
        ensures
            r.program == program,
            r@.memory == memory@,
            r@.program_counter == 0,
            r@.accumulator == 0u16,
    {
        TickTalk { memory, program, program_counter: 0, accumulator: 0 }
    }

    /// Check if the machine is halted: the program counter is past the last
    /// statement.
    pub fn halted(&self) -> (r: bool)
        ensures
            r == (self@.program_counter >= self.program@.len()),
    {
        let stmts = self.program.statements();
        self.program_counter >= stmts.len()
    }

    /// Read a word from an address in memory.
    fn read_address(&self, addr: crate::Address) -> (r: Result<DoubleWord, Error>)
        ensures
            (match r {
                Ok(v) => addr < self@.memory.len() && v == self@.memory[addr as int],
                Err(e) => addr >= self@.memory.len() && e == Error::AccessOutOfBounds,
            }),
    {
        if (addr as usize) < self.memory.len() {
            Ok(self.memory[addr as usize])
        } else {
            Err(Error::AccessOutOfBounds)
        }
    }

    /// Step the program by a single instruction, per [`step_spec`].
    ///
    /// Returns whether the program had already halted (in which case nothing
    /// changes).  On an out-of-bounds access the program counter has moved
    /// past the failing statement and everything else is unchanged.
    pub fn step(&mut self) -> (r: Result<bool, Error>)
        ensures
            final(self).program == old(self).program,
            (match r {
                Ok(halted) => {
                    &&& step_spec(old(self).program@, old(self)@) == Ok::<MachineV, Error>(
                        final(self)@,
                    )
                    &&& halted == (old(self)@.program_counter >= old(self).program@.len())
                },
                Err(e) => {
                    &&& step_spec(old(self).program@, old(self)@) == Err::<MachineV, Error>(e)
                    &&& final(self)@.memory == old(self)@.memory
                    &&& final(self)@.accumulator == old(self)@.accumulator
                    &&& final(self)@.program_counter == old(self)@.program_counter + 1
                },
            }),
    {
        let p = self.program;
        let stmts = p.statements();
        if self.program_counter >= stmts.len() {
            return Ok(true);
        }
        let pc = self.program_counter;
        self.program_counter = pc + 1;
        proof {
            assert(p@[pc as int] == stmts@[pc as int]@);
        }
        match &stmts[pc] {
            Statement::Label(_) => Ok(false),
            Statement::Literal(v) => {
                self.accumulator = *v;
                Ok(false)
            },
            Statement::InstrLine(ins) => match ins {
                Instruction::Load(a) => match self.read_address(*a) {
                    Ok(v) => {
                        self.accumulator = v;
                        Ok(false)
                    },
                    Err(e) => Err(e),
                },
                Instruction::And(a) => match self.read_address(*a) {
                    Ok(v) => {
                        self.accumulator = self.accumulator & v;
                        Ok(false)
                    },
                    Err(e) => Err(e),
                },
                Instruction::Xor(a) => match self.read_address(*a) {
                    Ok(v) => {
                        self.accumulator = self.accumulator ^ v;
                        Ok(false)
                    },
                    Err(e) => Err(e),
                },
                Instruction::Or(a) => match self.read_address(*a) {
                    Ok(v) => {
                        self.accumulator = self.accumulator | v;
                        Ok(false)
                    },
                    Err(e) => Err(e),
                },
                Instruction::Add(a) => match self.read_address(*a) {
                    Ok(v) => {
                        self.accumulator = self.accumulator.wrapping_add(v);
                        Ok(false)
                    },
                    Err(e) => Err(e),
                },
                Instruction::Sub(a) => match self.read_address(*a) {
                    Ok(v) => {
                        self.accumulator = self.accumulator.wrapping_sub(v);
                        Ok(false)
                    },
                    Err(e) => Err(e),
                },
                Instruction::Store(a) => {
                    if (*a as usize) < self.memory.len() {
                        self.memory.set(*a as usize, self.accumulator);
                        Ok(false)
                    } else {
                        Err(Error::AccessOutOfBounds)
                    }
                },
                Instruction::Jump(t) => {
                    self.program_counter = *t;
                    Ok(false)
                },
            },
        }
    }

    /// Run the simulator until the program exits or the step budget runs
    /// out, per [`run_steps`].
    ///
    /// Peppermint programs can loop forever, so the simulator takes at most
    /// `max_steps` steps; `Ok(true)` means the program halted, `Ok(false)`
    /// that the whole budget was spent first, and an error that some step of
    /// the run accessed memory out of bounds, in which case the machine is
    /// left as that step left it: the program counter has moved past the
    /// failing statement and everything else is unchanged.
    pub fn run_to_completion(&mut self, max_steps: usize) -> (r: Result<bool, Error>)
        ensures
            final(self).program == old(self).program,
            (match r {
                Ok(halted) => {
                    &&& exists|n: nat|
                        n <= max_steps && run_steps(old(self).program@, old(self)@, n) == Ok::<
                            MachineV,
                            Error,
                        >(final(self)@) && (halted || n == max_steps)
                    &&& halted == (final(self)@.program_counter >= final(self).program@.len())
                },
                Err(e) => exists|n: nat, s: MachineV|
                    {
                        &&& n < max_steps
                        &&& run_steps(old(self).program@, old(self)@, n) == Ok::<MachineV, Error>(s)
                        &&& step_spec(old(self).program@, s) == Err::<MachineV, Error>(e)
                        &&& final(self)@.memory == s.memory
                        &&& final(self)@.accumulator == s.accumulator
                        &&& final(self)@.program_counter == s.program_counter + 1
                    },
            }),
    {
        let ghost prog = self.program@;
        let ghost s0 = self@;
        proof {
            assert(run_steps(prog, s0, 0) == Ok::<MachineV, Error>(self@));
        }
        let mut steps: usize = 0;
        let mut halted = self.halted();
        while !halted && steps < max_steps
            invariant
                self.program == old(self).program,
                prog == self.program@,
                s0 == old(self)@,
                steps <= max_steps,
                run_steps(prog, s0, steps as nat) == Ok::<MachineV, Error>(self@),
                halted == (self@.program_counter >= prog.len()),
            decreases max_steps - steps,
        {
            let ghost before = self@;
            proof {
                lemma_run_steps_snoc(prog, s0, steps as nat);
            }
            match self.step() {
                Ok(_) => {
                    proof {
                        assert(run_steps(prog, s0, (steps + 1) as nat) == Ok::<MachineV, Error>(
                            self@,
                        ));
                    }
                },
                Err(e) => {
                    proof {
                        assert(run_steps(prog, s0, steps as nat) == Ok::<MachineV, Error>(before));
                        assert(step_spec(prog, before) == Err::<MachineV, Error>(e));
                    }
                    return Err(e);
                },
            }
            halted = self.halted();
            steps += 1;
        }
        Ok(halted)
    }
}

} // verus!
