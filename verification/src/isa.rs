use vstd::prelude::*;

verus! {

/// One of the eight architectural registers, `X0` through `X7`.
#[derive(Debug, Clone, Copy, PartialEq, Eq, Structural)]
pub enum Register {
    X0,
    X1,
    X2,
    X3,
    X4,
    X5,
    X6,
    X7,
}

impl Register {
    /// The position of this register within the register file, 0 through 7.
    pub open spec fn spec_num(self) -> int {
        match self {
            Register::X0 => 0,
            Register::X1 => 1,
            Register::X2 => 2,
            Register::X3 => 3,
            Register::X4 => 4,
            Register::X5 => 5,
            Register::X6 => 6,
            Register::X7 => 7,
        }
    }

    /// The register file slot this register names.
    pub fn number(self) -> (n: u64)
        ensures
            n == self.spec_num(),
    {
        match self {
            Register::X0 => 0,
            Register::X1 => 1,
            Register::X2 => 2,
            Register::X3 => 3,
            Register::X4 => 4,
            Register::X5 => 5,
            Register::X6 => 6,
            Register::X7 => 7,
        }
    }
}

/// Mathematical image of an [`Operand`]: label names become character
/// sequences.
pub ghost enum OperandView {
    Register(Register),
    Immediate(i32),
    Label(Seq<char>),
}

/// A value-or-reference used by an instruction: a named register, a literal
/// 32-bit integer, or a symbolic label name.
///
/// The grammar accepts any operand kind in any position; whether a given kind
/// is legal where it stands is checked when the instruction executes.
#[derive(Debug, PartialEq, Eq)]
pub enum Operand {
    Register(Register),
    Immediate(i32),
    Label(String),
}

impl View for Operand {
    type V = OperandView;

    open spec fn view(&self) -> OperandView {
        match self {
            Operand::Register(r) => OperandView::Register(*r),
            Operand::Immediate(n) => OperandView::Immediate(*n),
            Operand::Label(s) => OperandView::Label(s@),
        }
    }
}

impl Clone for Operand {
    fn clone(&self) -> (r: Self)
        ensures
            r@ == self@,
    {
        match self {
            Operand::Register(reg) => Operand::Register(*reg),
            Operand::Immediate(n) => Operand::Immediate(*n),
            Operand::Label(s) => Operand::Label(s.clone()),
        }
    }
}

/// Mathematical image of an [`Instruction`].
pub ghost enum InstructionView {
    ADD(OperandView, OperandView, OperandView),
    ADDI(OperandView, OperandView, OperandView),
    MOV(OperandView, OperandView),
    JMP(OperandView),
    JZ(OperandView, OperandView),
    HALT,
}

/// One machine instruction.  The first operand of `ADD`, `ADDI` and `MOV` is
/// the destination; the remaining operands are sources.  `JMP` carries its
/// jump target; `JZ` carries a condition followed by a jump target.
#[derive(Debug, PartialEq, Eq)]
pub enum Instruction {
    ADD(Operand, Operand, Operand),
    ADDI(Operand, Operand, Operand),
    MOV(Operand, Operand),
    JMP(Operand),
    JZ(Operand, Operand),
    HALT,
}

impl View for Instruction {
    type V = InstructionView;

    open spec fn view(&self) -> InstructionView {
        match self {
            Instruction::ADD(a, b, c) => InstructionView::ADD(a@, b@, c@),
            Instruction::ADDI(a, b, c) => InstructionView::ADDI(a@, b@, c@),
            Instruction::MOV(a, b) => InstructionView::MOV(a@, b@),
            Instruction::JMP(a) => InstructionView::JMP(a@),
            Instruction::JZ(a, b) => InstructionView::JZ(a@, b@),
            Instruction::HALT => InstructionView::HALT,
        }
    }
}

impl Clone for Instruction {
    fn clone(&self) -> (r: Self)
        ensures
            r@ == self@,
    {
        match self {
            Instruction::ADD(a, b, c) => Instruction::ADD(a.clone(), b.clone(), c.clone()),
            Instruction::ADDI(a, b, c) => Instruction::ADDI(a.clone(), b.clone(), c.clone()),
            Instruction::MOV(a, b) => Instruction::MOV(a.clone(), b.clone()),
            Instruction::JMP(a) => Instruction::JMP(a.clone()),
            Instruction::JZ(a, b) => Instruction::JZ(a.clone(), b.clone()),
            Instruction::HALT => Instruction::HALT,
        }
    }
}

/// Mathematical image of a [`Stmt`].
pub ghost enum StmtView {
    Label(Seq<char>),
    Instr(InstructionView),
}

/// One program statement: a label declaration, which marks the address of the
/// next instruction, or an instruction proper.
#[derive(Debug, PartialEq, Eq)]
pub enum Stmt {
    Label(String),
    Instr(Instruction),
}

impl View for Stmt {
    type V = StmtView;

    open spec fn view(&self) -> StmtView {
        match self {
            Stmt::Label(s) => StmtView::Label(s@),
            Stmt::Instr(i) => StmtView::Instr(i@),
        }
    }
}

impl Clone for Stmt {
    fn clone(&self) -> (r: Self)
        ensures
            r@ == self@,
    {
        match self {
            Stmt::Label(s) => Stmt::Label(s.clone()),
            Stmt::Instr(i) => Stmt::Instr(i.clone()),
        }
    }
}

/// An ordered sequence of statements, in source order.  Statement order is
/// meaningful: the resolver assigns addresses by it.
#[derive(Debug, PartialEq, Eq)]
pub struct Program(pub Vec<Stmt>);

/// The statements of an exec statement vector, viewed, in order.
pub open spec fn stmt_views(v: Seq<Stmt>) -> Seq<StmtView> {
    v.map_values(|s: Stmt| s@)
}

impl View for Program {
    type V = Seq<StmtView>;

    open spec fn view(&self) -> Seq<StmtView> {
        stmt_views(self.0@)
    }
}

} // verus!
