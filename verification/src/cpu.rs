//! The execution engine: machine state (registers, program counter,
//! flags, output sink) and the fetch-decode-execute loop that runs a
//! stream of 16-bit instruction words.

use crate::isa::{decode_spec, reg_idx, DecodeError, Op, OpPlace, Reg};
use vstd::prelude::*;

verus! {

broadcast use vstd::array::group_array_axioms;

/// Why executing a decoded instruction failed.
#[derive(Clone, Copy, Debug, PartialEq, Eq, Structural)]
pub enum ExecError {
    /// An interrupt was raised with a vector other than 0, the only
    /// supported vector.
    UnsupportedInterrupt,
}

/// Why running a program aborted.
#[derive(Clone, Copy, Debug, PartialEq, Eq, Structural)]
pub enum RunError {
    /// The word at the current program counter failed to decode.
    Decode(DecodeError),
    /// The decoded instruction failed to execute.
    Exec(ExecError),
}

/// The mathematical model of the machine: the register file, the program
/// counter, the two flags, and the bytes emitted so far through the
/// output sink.
#[verifier::ext_equal]
pub ghost struct MachineState {
    pub regs: Seq<u8>,
    pub pc: u8,
    pub zero_flag: bool,
    pub carry_flag: bool,
    pub out: Seq<u8>,
}

/// The current 8-bit value of a source operand: the named register's
/// content, or the embedded immediate. Never mutates state.
pub open spec fn value_spec(s: MachineState, p: OpPlace) -> u8 {
    match p {
        OpPlace::Reg(r) => s.regs[reg_idx(r) as int],
        OpPlace::Imm(v) => v,
    }
}

/// Wrapping 8-bit addition.
pub open spec fn wrap_add(d: u8, v: u8) -> u8 {
    ((d + v) % 256) as u8
}

/// Wrapping 8-bit subtraction (the wrapped difference `d - v`).
pub open spec fn wrap_sub(d: u8, v: u8) -> u8 {
    ((d + 256 - v) % 256) as u8
}

/// The wrapped sum, written without the modulus.
proof fn lemma_wrap_add_val(d: u8, v: u8)
    ensures
        d + v < 256 ==> wrap_add(d, v) == d + v,
        d + v >= 256 ==> wrap_add(d, v) == d + v - 256,
{
}

/// The wrapped difference, written without the modulus.
proof fn lemma_wrap_sub_val(d: u8, v: u8)
    ensures
        v <= d ==> wrap_sub(d, v) == d - v,
        v > d ==> wrap_sub(d, v) == 256 + d - v,
{
}

/// The effect of one decoded instruction on machine state. Only Subtract
/// and Compare touch the flags; every other instruction leaves them
/// unchanged. Interrupt with a non-zero vector is the only failure.
pub open spec fn apply_op(s: MachineState, op: Op) -> Result<MachineState, ExecError> {
    match op {
        Op::Mov(src, dst) => Ok(
            MachineState { regs: s.regs.update(reg_idx(dst) as int, value_spec(s, src)), ..s },
        ),
        Op::Add(src, dst) => {
            let d0: u8 = s.regs[reg_idx(dst) as int];
            Ok(
                MachineState {
                    regs: s.regs.update(reg_idx(dst) as int, wrap_add(d0, value_spec(s, src))),
                    ..s
                },
            )
        },
        Op::Sub(src, dst) => {
            let v: u8 = value_spec(s, src);
            let d0: u8 = s.regs[reg_idx(dst) as int];
            let res: u8 = wrap_sub(d0, v);
            Ok(
                MachineState {
                    regs: s.regs.update(reg_idx(dst) as int, res),
                    zero_flag: res == 0,
                    carry_flag: v > d0,
                    ..s
                },
            )
        },
        Op::Cmp(src, dst) => {
            let v: u8 = value_spec(s, src);
            let d0: u8 = s.regs[reg_idx(dst) as int];
            let res: u8 = wrap_sub(d0, v);
            Ok(MachineState { zero_flag: res == 0, carry_flag: v > d0, ..s })
        },
        Op::Jmp(src) => Ok(MachineState { pc: value_spec(s, src), ..s }),
        Op::Je(src) => if s.zero_flag {
            Ok(MachineState { pc: value_spec(s, src), ..s })
        } else {
            Ok(s)
        },
        Op::Jne(src) => if !s.zero_flag {
            Ok(MachineState { pc: value_spec(s, src), ..s })
        } else {
            Ok(s)
        },
        Op::Int(src) => if value_spec(s, src) == 0 {
            Ok(MachineState { out: s.out.push(s.regs[1]), ..s })
        } else {
            Err(ExecError::UnsupportedInterrupt)
        },
    }
}

/// One fetch-decode-execute step when the program counter is in bounds:
/// the program counter first moves past the current word, then the
/// instruction's effect applies, so control transfers overwrite it with
/// an absolute target.
pub open spec fn step_once(s: MachineState, prog: Seq<u16>) -> Result<
    MachineState,
    (MachineState, RunError),
>
    recommends
        s.pc < prog.len(),
{
    match decode_spec(prog[s.pc as int]) {
        Err(de) => Err((s, RunError::Decode(de))),
        Ok(op) => {
            let s1 = MachineState { pc: (s.pc + 1) as u8, ..s };
            match apply_op(s1, op) {
                Err(e) => Err((s1, RunError::Exec(e))),
                Ok(s2) => Ok(s2),
            }
        },
    }
}

/// The machine state after at most `n` steps of the program, starting
/// from `s`: `Ok` with the state reached (held fixed once the program
/// counter leaves the word stream, the machine's only halt), or `Err`
/// with the state and error at the first failing step.
#[verifier::opaque]
pub open spec fn run_steps(s: MachineState, prog: Seq<u16>, n: nat) -> Result<
    MachineState,
    (MachineState, RunError),
>
    decreases n,
{
    if n == 0 || s.pc >= prog.len() {
        Ok(s)
    } else {
        match step_once(s, prog) {
            Ok(s2) => run_steps(s2, prog, (n - 1) as nat),
            Err(e) => Err(e),
        }
    }
}

/// The state a run starts from: the caller's machine with the program
/// counter reset to word 0.
pub open spec fn start_state(s: MachineState) -> MachineState {
    MachineState { pc: 0, ..s }
}

/// A program whose program counter has reached the word count halts
/// cleanly, with no error, in the state it reached: taking any further
/// steps changes nothing.
pub proof fn lemma_halted_runs_clean(s: MachineState, prog: Seq<u16>, n: nat)
    requires
        s.pc >= prog.len(),
    ensures
        run_steps(s, prog, n) == Ok::<MachineState, (MachineState, RunError)>(s),
{
    reveal(run_steps);
}

/// Taking no steps leaves the machine where it stands.
proof fn lemma_run_steps_zero(s: MachineState, prog: Seq<u16>)
    ensures
        run_steps(s, prog, 0) == Ok::<MachineState, (MachineState, RunError)>(s),
{
    reveal(run_steps);
}

/// A halt or an error is final: once `n` steps reach a halted state or a
/// failure, every longer run reaches exactly the same outcome. No later
/// instruction runs after a failure.
pub proof fn lemma_run_outcome_stable(s: MachineState, prog: Seq<u16>, n: nat, m: nat)
    requires
        n <= m,
    ensures
        (run_steps(s, prog, n) matches Ok(t) && t.pc >= prog.len()) ==> run_steps(s, prog, m)
            == run_steps(s, prog, n),
        run_steps(s, prog, n) matches Err(e) ==> run_steps(s, prog, m) == run_steps(s, prog, n),
    decreases n,
{
    reveal(run_steps);
    if n == 0 {
        if s.pc >= prog.len() {
            lemma_halted_runs_clean(s, prog, m);
        }
    } else {
        if s.pc < prog.len() {
            match step_once(s, prog) {
                Ok(s2) => {
                    lemma_run_outcome_stable(s2, prog, (n - 1) as nat, (m - 1) as nat);
                },
                Err(_) => {},
            }
        }
    }
}

/// Interrupt law: an interrupt whose vector is anything but 0 fails with
/// `UnsupportedInterrupt` and has no other effect on machine state.
pub proof fn lemma_interrupt_unsupported(s: MachineState, src: OpPlace)
    requires
        value_spec(s, src) != 0,
    ensures
        apply_op(s, Op::Int(src)) == Err::<MachineState, ExecError>(ExecError::UnsupportedInterrupt),
{
}

/// Subtract/Compare law: both compute the wrapped 8-bit difference of the
/// destination register and the source value, set the carry flag exactly
/// when a borrow occurred (source value greater than destination), and
/// set the zero flag exactly when the difference is zero; Subtract writes
/// the difference to the destination while Compare leaves every register
/// unchanged. Neither moves the program counter or touches the output.
pub proof fn lemma_sub_cmp_semantics(s: MachineState, src: OpPlace, dst: Reg)
    ensures
        apply_op(s, Op::Sub(src, dst)) matches Ok(t) && {
            let v = value_spec(s, src);
            let d0 = s.regs[reg_idx(dst) as int];
            &&& t.regs == s.regs.update(reg_idx(dst) as int, wrap_sub(d0, v))
            &&& t.carry_flag == (v > d0)
            &&& t.zero_flag == (wrap_sub(d0, v) == 0)
            &&& t.pc == s.pc
            &&& t.out == s.out
        },
        apply_op(s, Op::Cmp(src, dst)) matches Ok(u) && {
            let v = value_spec(s, src);
            let d0 = s.regs[reg_idx(dst) as int];
            &&& u.regs == s.regs
            &&& u.carry_flag == (v > d0)
            &&& u.zero_flag == (wrap_sub(d0, v) == 0)
            &&& u.pc == s.pc
            &&& u.out == s.out
        },
{
}

/// One unfolding of `run_steps` when the step's word fails to decode.
proof fn lemma_run_steps_decode_err(s: MachineState, prog: Seq<u16>, n: nat, de: DecodeError)
    requires
        s.pc < prog.len(),
        n >= 1,
        decode_spec(prog[s.pc as int]) == Err::<Op, DecodeError>(de),
    ensures
        run_steps(s, prog, n) == Err::<MachineState, (MachineState, RunError)>(
            (s, RunError::Decode(de)),
        ),
{
    reveal(run_steps);
    assert(step_once(s, prog) == Err::<MachineState, (MachineState, RunError)>(
        (s, RunError::Decode(de)),
    ));
}

/// One unfolding of `run_steps` when the decoded instruction fails.
proof fn lemma_run_steps_exec_err(
    s: MachineState,
    prog: Seq<u16>,
    n: nat,
    op: Op,
    s1: MachineState,
    e: ExecError,
)
    requires
        s.pc < prog.len(),
        n >= 1,
        decode_spec(prog[s.pc as int]) == Ok::<Op, DecodeError>(op),
        s1 == (MachineState { pc: (s.pc + 1) as u8, ..s }),
        apply_op(s1, op) == Err::<MachineState, ExecError>(e),
    ensures
        run_steps(s, prog, n) == Err::<MachineState, (MachineState, RunError)>(
            (s1, RunError::Exec(e)),
        ),
{
    reveal(run_steps);
    assert(step_once(s, prog) == Err::<MachineState, (MachineState, RunError)>(
        (s1, RunError::Exec(e)),
    ));
}

/// One unfolding of `run_steps` when the step goes through.
proof fn lemma_run_steps_ok_step(
    s: MachineState,
    prog: Seq<u16>,
    n: nat,
    op: Op,
    s1: MachineState,
    s2: MachineState,
)
    requires
        s.pc < prog.len(),
        n >= 1,
        decode_spec(prog[s.pc as int]) == Ok::<Op, DecodeError>(op),
        s1 == (MachineState { pc: (s.pc + 1) as u8, ..s }),
        apply_op(s1, op) == Ok::<MachineState, ExecError>(s2),
    ensures
        run_steps(s, prog, n) == run_steps(s2, prog, (n - 1) as nat),
{
    reveal(run_steps);
    assert(step_once(s, prog) == Ok::<MachineState, (MachineState, RunError)>(s2));
}

/// The machine: a fixed-size register file of 8-bit cells (three of them
/// assembler-addressable), an 8-bit program counter, the two flags, and
/// the bytes emitted through interrupt vector 0.
pub struct CPU {
    registers: [u8; 8],
    pc: u8,
    zero_flag: bool,
    carry_flag: bool,
    output: Vec<u8>,
}

impl View for CPU {
    type V = MachineState;

    closed spec fn view(&self) -> MachineState {
        MachineState {
            regs: self.registers@,
            pc: self.pc,
            zero_flag: self.zero_flag,
            carry_flag: self.carry_flag,
            out: self.output@,
        }
    }
}

/// The machine state every register file starts from: all registers 0,
/// program counter 0, flags clear, nothing emitted.
pub open spec fn initial_state() -> MachineState {
    MachineState {
        regs: Seq::new(8, |i: int| 0u8),
        pc: 0,
        zero_flag: false,
        carry_flag: false,
        out: Seq::empty(),
    }
}

impl Default for CPU {
    /// A machine in its initial state.
    fn default() -> (c: CPU)
        ensures
            c@ == initial_state(),
    {
        let c = CPU {
            registers: [0u8; 8],
            pc: 0,
            zero_flag: false,
            carry_flag: false,
            output: Vec::new(),
        };
        proof {
            assert(c@ =~= initial_state());
        }
        c
    }
}

/// How a bounded run ended without a fatal error.
#[derive(Clone, Copy, Debug, PartialEq, Eq, Structural)]
pub enum RunOutcome {
    /// The program counter reached or passed the word count: the
    /// machine's only halt.
    Halted,
    /// The step budget ran out first. The architecture has no halt
    /// opcode, so a program may loop forever; the caller bounds the
    /// number of steps.
    StepLimit,
}

/// Running a binary program to halt or to a fatal error.
pub trait Run: View<V = MachineState> {
    /// Runs the word stream from word 0, for at most `max_steps`
    /// fetch-decode-execute steps. The machine ends in exactly the state
    /// that `run_steps` assigns to the caller's machine with its program
    /// counter reset: `Halted` when the program counter left the word
    /// stream, `StepLimit` when the budget ran out first, and the step's
    /// error when a step failed, the machine left as that step found it.
    fn run(&mut self, program: &[u16], max_steps: u64) -> (r: Result<RunOutcome, RunError>)
        requires
            program@.len() < 256,
        ensures
            run_steps(start_state(old(self)@), program@, max_steps as nat) matches Ok(t)
                ==> final(self)@ == t && r == Ok::<RunOutcome, RunError>(
                if t.pc >= program@.len() {
                    RunOutcome::Halted
                } else {
                    RunOutcome::StepLimit
                },
            ),
            run_steps(start_state(old(self)@), program@, max_steps as nat) matches Err(p)
                ==> final(self)@ == p.0 && r == Err::<RunOutcome, RunError>(p.1),
    ;
}

/// Writing a register of the machine, for an external driver.
pub trait SetReg: View<V = MachineState> {
    fn set(&mut self, reg: &Reg, value: u8)
        ensures
            final(self)@ == (MachineState {
                regs: old(self)@.regs.update(reg_idx(*reg) as int, value),
                ..old(self)@
            }),
    ;
}

/// Reading a register of the machine, for an external viewer.
pub trait Get: View<V = MachineState> {
    fn get(&mut self, reg: &Reg) -> (v: u8)
        ensures
            v == old(self)@.regs[reg_idx(*reg) as int],
            final(self)@ == old(self)@,
    ;
}

impl CPU {
    /// The current program counter.
    pub fn pc(&self) -> (p: u8)
        ensures
            p == self@.pc,
    {
        self.pc
    }

    /// The zero flag: whether the last Subtract or Compare produced 0.
    pub fn zero_flag(&self) -> (z: bool)
        ensures
            z == self@.zero_flag,
    {
        self.zero_flag
    }

    /// The carry flag: whether the last Subtract or Compare borrowed.
    pub fn carry_flag(&self) -> (c: bool)
        ensures
            c == self@.carry_flag,
    {
        self.carry_flag
    }

    /// The bytes emitted so far through interrupt vector 0, in call
    /// order.
    pub fn output(&self) -> (o: &Vec<u8>)
        ensures
            o@ == self@.out,
    {
        &self.output
    }

    /// The current value of a source operand.
    fn value_of(&self, p: &OpPlace) -> (v: u8)
        ensures
            v == value_spec(self@, *p),
    {
        match p {
            OpPlace::Reg(r) => {
                let i: usize = r.ordinal();
                self.registers[i]
            },
            OpPlace::Imm(x) => *x,
        }
    }

    /// Applies one decoded instruction to the machine, per `apply_op`:
    /// the instruction's whole effect on registers, program counter,
    /// flags and output, or an error that leaves the machine untouched.
    #[verifier::rlimit(100)]
    pub fn execute(&mut self, op: &Op) -> (r: Result<(), ExecError>)
        ensures
            apply_op(old(self)@, *op) matches Ok(t) ==> r == Ok::<(), ExecError>(())
                && final(self)@ == t,
            apply_op(old(self)@, *op) matches Err(e) ==> r == Err::<(), ExecError>(e)
                && final(self)@ == old(self)@,
    {
        match op {
            Op::Mov(src, dst) => {
                let v: u8 = self.value_of(src);
                let di: usize = dst.ordinal();
                self.registers[di] = v;
                proof {
                    assert(self@ =~= apply_op(old(self)@, *op).unwrap());
                }
                Ok(())
            },
            Op::Add(src, dst) => {
                let v: u8 = self.value_of(src);
                let di: usize = dst.ordinal();
                let d0: u8 = self.registers[di];
                let sum: u16 = d0 as u16 + v as u16;
                let res: u8 = if sum >= 256 {
                    (sum - 256) as u8
                } else {
                    sum as u8
                };
                proof {
                    lemma_wrap_add_val(d0, v);
                }
                self.registers[di] = res;
                proof {
                    assert(self@ =~= apply_op(old(self)@, *op).unwrap());
                }
                Ok(())
            },
            Op::Sub(src, dst) => {
                let v: u8 = self.value_of(src);
                let di: usize = dst.ordinal();
                let d0: u8 = self.registers[di];
                let res: u8 = if v <= d0 {
                    d0 - v
                } else {
                    (256 + d0 as u16 - v as u16) as u8
                };
                proof {
                    lemma_wrap_sub_val(d0, v);
                }
                self.carry_flag = v > d0;
                self.zero_flag = res == 0;
                self.registers[di] = res;
                proof {
                    assert(self@ =~= apply_op(old(self)@, *op).unwrap());
                }
                Ok(())
            },
            Op::Cmp(src, dst) => {
                let v: u8 = self.value_of(src);
                let di: usize = dst.ordinal();
                let d0: u8 = self.registers[di];
                let res: u8 = if v <= d0 {
                    d0 - v
                } else {
                    (256 + d0 as u16 - v as u16) as u8
                };
                proof {
                    lemma_wrap_sub_val(d0, v);
                }
                self.carry_flag = v > d0;
                self.zero_flag = res == 0;
                proof {
                    assert(self@ =~= apply_op(old(self)@, *op).unwrap());
                }
                Ok(())
            },
            Op::Jmp(src) => {
                let v: u8 = self.value_of(src);
                self.pc = v;
                proof {
                    assert(self@ =~= apply_op(old(self)@, *op).unwrap());
                }
                Ok(())
            },
            Op::Je(src) => {
                let v: u8 = self.value_of(src);
                if self.zero_flag {
                    self.pc = v;
                }
                proof {
                    assert(self@ =~= apply_op(old(self)@, *op).unwrap());
                }
                Ok(())
            },
            Op::Jne(src) => {
                let v: u8 = self.value_of(src);
                if !self.zero_flag {
                    self.pc = v;
                }
                proof {
                    assert(self@ =~= apply_op(old(self)@, *op).unwrap());
                }
                Ok(())
            },
            Op::Int(src) => {
                let v: u8 = self.value_of(src);
                if v == 0 {
                    let b: u8 = self.registers[1];
                    self.output.push(b);
                    proof {
                        assert(self@ =~= apply_op(old(self)@, *op).unwrap());
                    }
                    Ok(())
                } else {
                    Err(ExecError::UnsupportedInterrupt)
                }
            },
        }
    }
}

impl SetReg for CPU {
    fn set(&mut self, reg: &Reg, value: u8) {
        let i: usize = reg.ordinal();
        self.registers[i] = value;
        proof {
            assert(self@ =~= (MachineState {
                regs: old(self)@.regs.update(reg_idx(*reg) as int, value),
                ..old(self)@
            }));
        }
    }
}

impl Get for CPU {
    fn get(&mut self, reg: &Reg) -> (v: u8) {
        let i: usize = reg.ordinal();
        self.registers[i]
    }
}

impl Run for CPU {
    #[verifier::rlimit(100)]
    fn run(&mut self, program: &[u16], max_steps: u64) -> (r: Result<RunOutcome, RunError>) {
        self.pc = 0;
        let ghost init: MachineState = start_state(old(self)@);
        proof {
            assert(self@ =~= init);
        }
        let mut remaining: u64 = max_steps;
        loop
            invariant
                program@.len() < 256,
                init == start_state(old(self)@),
                run_steps(init, program@, max_steps as nat) == run_steps(
                    self@,
                    program@,
                    remaining as nat,
                ),
            decreases remaining,
        {
            if self.pc as usize >= program.len() {
                proof {
                    lemma_halted_runs_clean(self@, program@, remaining as nat);
                }
                return Ok(RunOutcome::Halted);
            }
            if remaining == 0 {
                proof {
                    lemma_run_steps_zero(self@, program@);
                }
                return Ok(RunOutcome::StepLimit);
            }
            let w: u16 = program[self.pc as usize];
            let ghost cur: MachineState = self@;
            match Op::decode(w) {
                Err(de) => {
                    proof {
                        lemma_run_steps_decode_err(cur, program@, remaining as nat, de);
                    }
                    return Err(RunError::Decode(de));
                },
                Ok(op) => {
                    self.pc = self.pc + 1;
                    proof {
                        assert(self@ =~= (MachineState { pc: (cur.pc + 1) as u8, ..cur }));
                    }
                    match self.execute(&op) {
                        Err(e) => {
                            proof {
                                lemma_run_steps_exec_err(
                                    cur,
                                    program@,
                                    remaining as nat,
                                    op,
                                    self@,
                                    e,
                                );
                            }
                            return Err(RunError::Exec(e));
                        },
                        Ok(()) => {
                            proof {
                                lemma_run_steps_ok_step(
                                    cur,
                                    program@,
                                    remaining as nat,
                                    op,
                                    (MachineState { pc: (cur.pc + 1) as u8, ..cur }),
                                    self@,
                                );
                            }
                            remaining = remaining - 1;
                        },
                    }
                },
            }
        }
    }
}

} // verus!
