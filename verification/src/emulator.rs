use vstd::prelude::*;

use crate::isa::{Instruction, InstructionView, Operand, OperandView, Register};
use crate::regfile::RegisterFile;
use crate::resolver::{instr_views, Resolved};

verus! {

/// Whether the machine is still running or has halted.  `Halted` is
/// terminal: a halted machine never changes again.
#[derive(Debug, Clone, Copy, PartialEq, Eq, Structural)]
pub enum MachineState {
    Halted,
    Running,
}

/// Mathematical image of the machine state: the eight register values, the
/// program counter, and whether the machine has halted.
pub ghost struct MachineView {
    pub regs: Seq<i32>,
    pub pc: int,
    pub halted: bool,
}

/// Mathematical image of an [`ExecErrorKind`].
pub ghost enum ExecErrorKindV {
    InvalidDestination,
    UnresolvedLabel(Seq<char>),
    OutOfRangeJump(int),
}

/// Why one instruction failed to execute.
#[derive(Debug, PartialEq, Eq)]
pub enum ExecErrorKind {
    /// The destination operand of `ADD`, `ADDI` or `MOV` is not a register.
    InvalidDestination,
    /// A label used as a source operand is not declared.
    UnresolvedLabel(String),
    /// A jump target outside the address range of the program.
    OutOfRangeJump(i32),
}

impl View for ExecErrorKind {
    type V = ExecErrorKindV;

    open spec fn view(&self) -> ExecErrorKindV {
        match self {
            ExecErrorKind::InvalidDestination => ExecErrorKindV::InvalidDestination,
            ExecErrorKind::UnresolvedLabel(n) => ExecErrorKindV::UnresolvedLabel(n@),
            ExecErrorKind::OutOfRangeJump(t) => ExecErrorKindV::OutOfRangeJump(*t as int),
        }
    }
}

/// Mathematical image of an [`ExecError`].
pub ghost struct ExecErrorV {
    pub addr: int,
    pub kind: ExecErrorKindV,
}

/// An execution error: the address of the failing instruction and the
/// reason.  The machine state at the point of failure stays on the emulator
/// that raised the error.
#[derive(Debug, PartialEq, Eq)]
pub struct ExecError {
    pub addr: usize,
    pub kind: ExecErrorKind,
}

impl View for ExecError {
    type V = ExecErrorV;

    open spec fn view(&self) -> ExecErrorV {
        ExecErrorV { addr: self.addr as int, kind: self.kind@ }
    }
}

/// 32-bit two's-complement wraparound addition: overflow discards the high
/// bits instead of failing.
pub open spec fn wrap_add(a: i32, b: i32) -> i32 {
    vstd::wrapping::i32_specs::wrapping_add(a, b)
}

/// The fresh register file: every register holds zero.
pub open spec fn zero_regs() -> Seq<i32> {
    Seq::new(8, |i: int| 0i32)
}

/// What a source operand resolves to: a register's current value, an
/// immediate itself, or the address of a declared label (a label used as a
/// value yields its address); an undeclared label is an error.
pub open spec fn spec_src_value(
    m: MachineView,
    lm: Map<Seq<char>, int>,
    op: OperandView,
) -> Result<i32, ExecErrorKindV> {
    match op {
        OperandView::Register(r) => Ok(m.regs[r.spec_num()]),
        OperandView::Immediate(n) => Ok(n),
        OperandView::Label(n) => if lm.contains_key(n) {
            Ok(lm[n] as i32)
        } else {
            Err(ExecErrorKindV::UnresolvedLabel(n))
        },
    }
}

/// What a jump-target operand resolves to: a label resolves through the
/// label table, an immediate is a literal address, and a register holds a
/// computed address.  A valid address lies between 0 and the program length;
/// the length itself is the one-past-the-end address, and jumping there
/// halts the machine on the next step.
pub open spec fn spec_target(
    m: MachineView,
    lm: Map<Seq<char>, int>,
    len: int,
    op: OperandView,
) -> Result<int, ExecErrorKindV> {
    match op {
        OperandView::Label(n) => if !lm.contains_key(n) {
            Err(ExecErrorKindV::UnresolvedLabel(n))
        } else if 0 <= lm[n] <= len {
            Ok(lm[n])
        } else {
            Err(ExecErrorKindV::OutOfRangeJump(lm[n]))
        },
        OperandView::Immediate(v) => if 0 <= v <= len {
            Ok(v as int)
        } else {
            Err(ExecErrorKindV::OutOfRangeJump(v as int))
        },
        OperandView::Register(r) => {
            let v = m.regs[r.spec_num()];
            if 0 <= v <= len {
                Ok(v as int)
            } else {
                Err(ExecErrorKindV::OutOfRangeJump(v as int))
            }
        },
    }
}

/// One `ADD`-shaped step: `d` must name a register, the two sources resolve
/// left to right, and the destination receives their wraparound sum.
pub open spec fn spec_step_add(
    m: MachineView,
    lm: Map<Seq<char>, int>,
    d: OperandView,
    a: OperandView,
    b: OperandView,
) -> Result<MachineView, ExecErrorV> {
    match d {
        OperandView::Register(r) => match spec_src_value(m, lm, a) {
            Err(k) => Err(ExecErrorV { addr: m.pc, kind: k }),
            Ok(av) => match spec_src_value(m, lm, b) {
                Err(k) => Err(ExecErrorV { addr: m.pc, kind: k }),
                Ok(bv) => Ok(
                    MachineView {
                        regs: m.regs.update(r.spec_num(), wrap_add(av, bv)),
                        pc: m.pc + 1,
                        halted: false,
                    },
                ),
            },
        },
        _ => Err(ExecErrorV { addr: m.pc, kind: ExecErrorKindV::InvalidDestination }),
    }
}

/// One fetch-decode-execute step of the machine.
///
/// A halted machine does not change.  A program counter past the end of the
/// program is an implicit halt, not an error.  Otherwise the instruction at
/// the program counter executes: the destination operand is checked first,
/// then source operands resolve left to right; `JZ` resolves its target only
/// when the condition is zero.
pub open spec fn spec_step(
    instrs: Seq<InstructionView>,
    lm: Map<Seq<char>, int>,
    m: MachineView,
) -> Result<MachineView, ExecErrorV> {
    if m.halted {
        Ok(m)
    } else if !(0 <= m.pc < instrs.len()) {
        Ok(MachineView { regs: m.regs, pc: m.pc, halted: true })
    } else {
        match instrs[m.pc] {
            InstructionView::HALT => Ok(MachineView { regs: m.regs, pc: m.pc, halted: true }),
            InstructionView::ADD(d, a, b) => spec_step_add(m, lm, d, a, b),
            InstructionView::ADDI(d, a, b) => spec_step_add(m, lm, d, a, b),
            InstructionView::MOV(d, s) => match d {
                OperandView::Register(r) => match spec_src_value(m, lm, s) {
                    Err(k) => Err(ExecErrorV { addr: m.pc, kind: k }),
                    Ok(v) => Ok(
                        MachineView {
                            regs: m.regs.update(r.spec_num(), v),
                            pc: m.pc + 1,
                            halted: false,
                        },
                    ),
                },
                _ => Err(ExecErrorV { addr: m.pc, kind: ExecErrorKindV::InvalidDestination }),
            },
            InstructionView::JMP(t) => match spec_target(m, lm, instrs.len() as int, t) {
                Err(k) => Err(ExecErrorV { addr: m.pc, kind: k }),
                Ok(a) => Ok(MachineView { regs: m.regs, pc: a, halted: false }),
            },
            InstructionView::JZ(c, t) => match spec_src_value(m, lm, c) {
                Err(k) => Err(ExecErrorV { addr: m.pc, kind: k }),
                Ok(cv) => if cv == 0 {
                    match spec_target(m, lm, instrs.len() as int, t) {
                        Err(k) => Err(ExecErrorV { addr: m.pc, kind: k }),
                        Ok(a) => Ok(MachineView { regs: m.regs, pc: a, halted: false }),
                    }
                } else {
                    Ok(MachineView { regs: m.regs, pc: m.pc + 1, halted: false })
                },
            },
        }
    }
}

/// The machine after `n` steps, or the first error on the way.
pub open spec fn spec_steps(
    instrs: Seq<InstructionView>,
    lm: Map<Seq<char>, int>,
    m: MachineView,
    n: nat,
) -> Result<MachineView, ExecErrorV>
    decreases n,
{
    if n == 0 {
        Ok(m)
    } else {
        match spec_step(instrs, lm, m) {
            Ok(m2) => spec_steps(instrs, lm, m2, (n - 1) as nat),
            Err(e) => Err(e),
        }
    }
}

/// Taking `n + 1` steps is taking `n` steps and then one more.
pub proof fn lemma_steps_snoc(
    instrs: Seq<InstructionView>,
    lm: Map<Seq<char>, int>,
    m: MachineView,
    n: nat,
)
    ensures
        spec_steps(instrs, lm, m, n) matches Ok(m2) ==> spec_steps(instrs, lm, m, n + 1)
            == spec_step(instrs, lm, m2),
        spec_steps(instrs, lm, m, n) matches Err(e) ==> spec_steps(instrs, lm, m, n + 1)
            == Err::<MachineView, ExecErrorV>(e),
    decreases n,
{
    assert(spec_steps(instrs, lm, m, n + 1) == match spec_step(instrs, lm, m) {
        Ok(m2) => spec_steps(instrs, lm, m2, n),
        Err(e) => Err(e),
    });
    if n > 0 {
        if let Ok(m2) = spec_step(instrs, lm, m) {
            lemma_steps_snoc(instrs, lm, m2, (n - 1) as nat);
        }
    }
}

/// Halting is idempotent: stepping a halted machine changes nothing, so no
/// further step after `HALT` can alter registers, program counter or state.
pub proof fn lemma_halt_idempotent(
    instrs: Seq<InstructionView>,
    lm: Map<Seq<char>, int>,
    m: MachineView,
    n: nat,
)
    requires
        m.halted,
    ensures
        spec_step(instrs, lm, m) == Ok::<MachineView, ExecErrorV>(m),
        spec_steps(instrs, lm, m, n) == Ok::<MachineView, ExecErrorV>(m),
    decreases n,
{
    if n > 0 {
        lemma_halt_idempotent(instrs, lm, m, (n - 1) as nat);
    }
}

/// Execution is deterministic: the same resolved program in the same machine
/// state steps to the same outcome, however many steps are taken.
pub proof fn lemma_execution_deterministic(
    instrs: Seq<InstructionView>,
    lm: Map<Seq<char>, int>,
    m1: MachineView,
    m2: MachineView,
    n: nat,
)
    requires
        m1 == m2,
    ensures
        spec_steps(instrs, lm, m1, n) == spec_steps(instrs, lm, m2, n),
{
}

/// `ADD` wraps around on overflow: with both sources resolved, the
/// destination register receives the 32-bit two's-complement wraparound sum,
/// and no error is raised, whatever the magnitudes.
pub proof fn lemma_add_wraparound(
    instrs: Seq<InstructionView>,
    lm: Map<Seq<char>, int>,
    m: MachineView,
    r: Register,
    a: OperandView,
    b: OperandView,
    av: i32,
    bv: i32,
)
    requires
        !m.halted,
        0 <= m.pc < instrs.len(),
        instrs[m.pc] == InstructionView::ADD(OperandView::Register(r), a, b),
        spec_src_value(m, lm, a) == Ok::<i32, ExecErrorKindV>(av),
        spec_src_value(m, lm, b) == Ok::<i32, ExecErrorKindV>(bv),
    ensures
        spec_step(instrs, lm, m) == Ok::<MachineView, ExecErrorV>(
            MachineView {
                regs: m.regs.update(r.spec_num(), wrap_add(av, bv)),
                pc: m.pc + 1,
                halted: false,
            },
        ),
{
}

// ---------------------------------------------------------------------------
// The emulator
// ---------------------------------------------------------------------------

/// The execution engine: a register file, a resolved program, a program
/// counter and the machine state flag.  Created fresh per run; the program
/// is only read.
pub struct Emulator {
    register_file: RegisterFile,
    program: Resolved,
    state: MachineState,
    pc: usize,
}

impl View for Emulator {
    type V = MachineView;

    closed spec fn view(&self) -> MachineView {
        MachineView {
            regs: self.register_file@,
            pc: self.pc as int,
            halted: self.state is Halted,
        }
    }
}

impl Emulator {
    /// The instructions of the loaded program, in address order.
    pub closed spec fn prog(&self) -> Seq<InstructionView> {
        instr_views(self.program.instrs@)
    }

    /// The label table of the loaded program.
    pub closed spec fn labels(&self) -> Map<Seq<char>, int> {
        self.program.label_map()
    }

    /// The machine is well formed: the register file holds all eight
    /// registers, the program's label table is in range, and every address
    /// fits in an `i32`, so that a label used as a value can yield it.
    pub closed spec fn wf(&self) -> bool {
        &&& self.register_file.wf()
        &&& self.program.wf()
        &&& self.program.instrs@.len() <= 0x7fff_ffff
    }

    /// A fresh machine over a resolved program: all registers zero, program
    /// counter zero, running.  The program length may not exceed `i32::MAX`,
    /// since a label used as a source operand yields its address as a 32-bit
    /// value.
    pub fn new(program: Resolved) -> (e: Emulator)
        requires
            program.wf(),
            program.instrs@.len() <= 0x7fff_ffff,
        ensures
            e.wf(),
            e.prog() == instr_views(program.instrs@),
            e.labels() == program.label_map(),
            e@ == (MachineView { regs: zero_regs(), pc: 0, halted: false }),
    {
        let e = Emulator {
            register_file: RegisterFile::new(),
            program,
            state: MachineState::Running,
            pc: 0,
        };
        proof {
            assert(e@.regs =~= zero_regs());
        }
        e
    }

    /// The machine state flag.
    pub fn state(&self) -> (s: MachineState)
        ensures
            (s is Halted) == self@.halted,
    {
        self.state
    }

    /// The current program counter.
    pub fn pc(&self) -> (p: usize)
        ensures
            p == self@.pc,
    {
        self.pc
    }

    /// The current value of register `r`.
    pub fn register(&self, r: Register) -> (v: i32)
        requires
            self.wf(),
        ensures
            v == self@.regs[r.spec_num()],
    {
        self.register_file.read(r)
    }

    /// Resolves a source operand against the current machine state.
    fn src_value(&self, op: &Operand) -> (r: Result<i32, ExecError>)
        requires
            self.wf(),
        ensures
            r matches Ok(v) ==> spec_src_value(self@, self.labels(), op@) == Ok::<
                i32,
                ExecErrorKindV,
            >(v),
            r matches Err(e) ==> spec_src_value(self@, self.labels(), op@) == Err::<
                i32,
                ExecErrorKindV,
            >(e.kind@) && e@.addr == self@.pc,
    {
        match op {
            Operand::Register(reg) => Ok(self.register_file.read(*reg)),
            Operand::Immediate(n) => Ok(*n),
            Operand::Label(name) => match self.program.lookup(name) {
                Some(a) => Ok(a as i32),
                None => Err(
                    ExecError {
                        addr: self.pc,
                        kind: ExecErrorKind::UnresolvedLabel(name.clone()),
                    },
                ),
            },
        }
    }

    /// Resolves a jump-target operand against the current machine state.
    fn target_addr(&self, op: &Operand) -> (r: Result<usize, ExecError>)
        requires
            self.wf(),
        ensures
            r matches Ok(t) ==> spec_target(
                self@,
                self.labels(),
                self.prog().len() as int,
                op@,
            ) == Ok::<int, ExecErrorKindV>(t as int) && t <= self.prog().len(),
            r matches Err(e) ==> spec_target(
                self@,
                self.labels(),
                self.prog().len() as int,
                op@,
            ) == Err::<int, ExecErrorKindV>(e.kind@) && e@.addr == self@.pc,
    {
        let n = self.program.instrs.len();
        match op {
            Operand::Label(name) => match self.program.lookup(name) {
                Some(a) => Ok(a),
                None => Err(
                    ExecError {
                        addr: self.pc,
                        kind: ExecErrorKind::UnresolvedLabel(name.clone()),
                    },
                ),
            },
            Operand::Immediate(v) => {
                if 0 <= *v && *v as usize <= n {
                    Ok(*v as usize)
                } else {
                    Err(ExecError { addr: self.pc, kind: ExecErrorKind::OutOfRangeJump(*v) })
                }
            },
            Operand::Register(reg) => {
                let v = self.register_file.read(*reg);
                if 0 <= v && v as usize <= n {
                    Ok(v as usize)
                } else {
                    Err(ExecError { addr: self.pc, kind: ExecErrorKind::OutOfRangeJump(v) })
                }
            },
        }
    }

    /// One fetch-decode-execute step.
    ///
    /// A halted machine stays exactly as it is.  A program counter at or
    /// past the end of the program halts the machine (implicit halt).  On an
    /// execution error nothing changes and the error carries the failing
    /// address.
    pub fn step(&mut self) -> (r: Result<(), ExecError>)
        requires
            old(self).wf(),
        ensures
            final(self).wf(),
            final(self).prog() == old(self).prog(),
            final(self).labels() == old(self).labels(),
            r matches Ok(_) ==> spec_step(old(self).prog(), old(self).labels(), old(self)@)
                == Ok::<MachineView, ExecErrorV>(final(self)@),
            r matches Err(e) ==> spec_step(old(self).prog(), old(self).labels(), old(self)@)
                == Err::<MachineView, ExecErrorV>(e@) && final(self)@ == old(self)@,
    {
        if self.state == MachineState::Halted {
            return Ok(());
        }
        let pc = self.pc;
        let n = self.program.instrs.len();
        if pc >= n {
            self.state = MachineState::Halted;
            return Ok(());
        }
        let ins = self.program.instrs[pc].clone();
        proof {
            assert(old(self).prog()[pc as int] == ins@);
        }
        match ins {
            Instruction::HALT => {
                self.state = MachineState::Halted;
                Ok(())
            },
            Instruction::ADD(d, a, b) => self.step_add(&d, &a, &b),
            Instruction::ADDI(d, a, b) => self.step_add(&d, &a, &b),
            Instruction::MOV(d, s) => {
                let reg = match d {
                    Operand::Register(reg) => reg,
                    _ => {
                        return Err(
                            ExecError { addr: pc, kind: ExecErrorKind::InvalidDestination },
                        );
                    },
                };
                let v = match self.src_value(&s) {
                    Ok(v) => v,
                    Err(e) => {
                        return Err(e);
                    },
                };
                self.register_file.write(reg, v);
                self.pc = pc + 1;
                Ok(())
            },
            Instruction::JMP(t) => {
                let a = match self.target_addr(&t) {
                    Ok(a) => a,
                    Err(e) => {
                        return Err(e);
                    },
                };
                self.pc = a;
                Ok(())
            },
            Instruction::JZ(c, t) => {
                let cv = match self.src_value(&c) {
                    Ok(v) => v,
                    Err(e) => {
                        return Err(e);
                    },
                };
                if cv == 0 {
                    let a = match self.target_addr(&t) {
                        Ok(a) => a,
                        Err(e) => {
                            return Err(e);
                        },
                    };
                    self.pc = a;
                } else {
                    self.pc = pc + 1;
                }
                Ok(())
            },
        }
    }

    /// The shared body of `ADD` and `ADDI`: destination first, then the two
    /// sources left to right, then the wraparound sum.
    fn step_add(&mut self, d: &Operand, a: &Operand, b: &Operand) -> (r: Result<(), ExecError>)
        requires
            old(self).wf(),
            !old(self)@.halted,
            0 <= old(self)@.pc < old(self).prog().len(),
        ensures
            final(self).wf(),
            final(self).prog() == old(self).prog(),
            final(self).labels() == old(self).labels(),
            r matches Ok(_) ==> spec_step_add(old(self)@, old(self).labels(), d@, a@, b@)
                == Ok::<MachineView, ExecErrorV>(final(self)@),
            r matches Err(e) ==> spec_step_add(old(self)@, old(self).labels(), d@, a@, b@)
                == Err::<MachineView, ExecErrorV>(e@) && final(self)@ == old(self)@,
    {
        let pc = self.pc;
        let reg = match d {
            Operand::Register(reg) => *reg,
            _ => {
                return Err(ExecError { addr: pc, kind: ExecErrorKind::InvalidDestination });
            },
        };
        let av = match self.src_value(a) {
            Ok(v) => v,
            Err(e) => {
                return Err(e);
            },
        };
        let bv = match self.src_value(b) {
            Ok(v) => v,
            Err(e) => {
                return Err(e);
            },
        };
        let sum = av.wrapping_add(bv);
        self.register_file.write(reg, sum);
        self.pc = pc + 1;
        Ok(())
    }

    /// Runs the machine until it halts, explicitly or implicitly, or an
    /// execution error is raised, taking at most `max_steps` further steps:
    /// an assembly program can loop forever through `JMP` and `JZ`, so every
    /// run carries a step ceiling chosen by the harness around it.  On
    /// success the machine has halted, or the budget is spent; on an error
    /// the machine state at the point of failure stays on the emulator.
    /// Either way the machine ends exactly where stepping the starting state
    /// one step at a time lands it.
    pub fn run(&mut self, max_steps: usize) -> (r: Result<(), ExecError>)
        requires
            old(self).wf(),
        ensures
            final(self).wf(),
            final(self).prog() == old(self).prog(),
            final(self).labels() == old(self).labels(),
            exists|k: nat|
                k <= max_steps && spec_steps(old(self).prog(), old(self).labels(), old(self)@, k)
                    == Ok::<MachineView, ExecErrorV>(final(self)@),
            r matches Ok(_) ==> final(self)@.halted || spec_steps(
                old(self).prog(),
                old(self).labels(),
                old(self)@,
                max_steps as nat,
            ) == Ok::<MachineView, ExecErrorV>(final(self)@),
            r matches Err(e) ==> spec_step(final(self).prog(), final(self).labels(), final(self)@)
                == Err::<MachineView, ExecErrorV>(e@),
    {
        let ghost prog = self.prog();
        let ghost lm = self.labels();
        let ghost m0 = self@;
        let mut steps: usize = 0;
        while steps < max_steps
            invariant
                self.wf(),
                prog == old(self).prog(),
                lm == old(self).labels(),
                m0 == old(self)@,
                self.prog() == prog,
                self.labels() == lm,
                steps <= max_steps,
                spec_steps(prog, lm, m0, steps as nat) == Ok::<MachineView, ExecErrorV>(self@),
            decreases max_steps - steps,
        {
            if self.state == MachineState::Halted {
                return Ok(());
            }
            let r = self.step();
            proof {
                lemma_steps_snoc(prog, lm, m0, steps as nat);
            }
            if let Err(e) = r {
                return Err(e);
            }
            steps = steps + 1;
        }
        Ok(())
    }
}

} // verus!
