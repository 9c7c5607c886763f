use asmvm::isa::{Instruction, Operand, Program, Register, Stmt};
use asmvm::parser::{program, SyntaxErrorKind};

fn imm(n: i32) -> Operand {
    Operand::Immediate(n)
}

fn reg(r: Register) -> Operand {
    Operand::Register(r)
}

fn lab(n: &str) -> Operand {
    Operand::Label(n.to_string())
}

#[test]
fn parses_simple_program() {
    let p = program("MOV X0, 5\nADD X1, X0, X0\nHALT\n").unwrap();
    let expected = Program(vec![
        Stmt::Instr(Instruction::MOV(reg(Register::X0), imm(5))),
        Stmt::Instr(Instruction::ADD(
            reg(Register::X1),
            reg(Register::X0),
            reg(Register::X0),
        )),
        Stmt::Instr(Instruction::HALT),
    ]);
    assert_eq!(p, expected);
}

#[test]
fn parsing_is_deterministic() {
    let src = "loop: ADDI X0, X0, 1\nJZ X1, loop\nHALT\n";
    let first = program(src).unwrap();
    let second = program(src).unwrap();
    assert_eq!(first, second);
}

#[test]
fn labels_and_comments() {
    let src = "; leading comment\nstart:\n    MOV X0, 1 ; trailing comment\n\n\nend: HALT\n";
    let p = program(src).unwrap();
    let expected = Program(vec![
        Stmt::Label("start".to_string()),
        Stmt::Instr(Instruction::MOV(reg(Register::X0), imm(1))),
        Stmt::Label("end".to_string()),
        Stmt::Instr(Instruction::HALT),
    ]);
    assert_eq!(p, expected);
}

#[test]
fn empty_source_is_empty_program() {
    assert_eq!(program("").unwrap(), Program(vec![]));
    assert_eq!(program("\n\n  \n; only comments\n  ; more\n").unwrap(), Program(vec![]));
}

#[test]
fn integer_literal_forms() {
    let p = program("MOV X0, -5\nMOV X1, +7\nMOV X2, 0x1F\nMOV X3, -0x10\nMOV X4, 0\n").unwrap();
    let expected = Program(vec![
        Stmt::Instr(Instruction::MOV(reg(Register::X0), imm(-5))),
        Stmt::Instr(Instruction::MOV(reg(Register::X1), imm(7))),
        Stmt::Instr(Instruction::MOV(reg(Register::X2), imm(31))),
        Stmt::Instr(Instruction::MOV(reg(Register::X3), imm(-16))),
        Stmt::Instr(Instruction::MOV(reg(Register::X4), imm(0))),
    ]);
    assert_eq!(p, expected);
}

#[test]
fn extreme_integer_literals() {
    let p = program("MOV X0, 2147483647\nMOV X1, -2147483647\n").unwrap();
    let expected = Program(vec![
        Stmt::Instr(Instruction::MOV(reg(Register::X0), imm(2147483647))),
        Stmt::Instr(Instruction::MOV(reg(Register::X1), imm(-2147483647))),
    ]);
    assert_eq!(p, expected);
}

#[test]
fn hex_overflow_is_a_syntax_error() {
    let errs = program("MOV X0, 0xFFFFFFFF\n").unwrap_err();
    assert_eq!(errs.len(), 1);
    assert_eq!(errs[0].line, 0);
    assert_eq!(errs[0].kind, SyntaxErrorKind::BadIntLiteral);
    assert_eq!(errs[0].message(), "malformed integer literal");
}

#[test]
fn decimal_overflow_is_a_syntax_error() {
    let errs = program("MOV X0, 2147483648\n").unwrap_err();
    assert_eq!(errs.len(), 1);
    assert_eq!(errs[0].kind, SyntaxErrorKind::BadIntLiteral);
}

#[test]
fn register_words_are_not_labels() {
    // X0 must parse as a register, while X01 is an ordinary identifier.
    let p = program("JMP X01\nMOV X0, X7\n").unwrap();
    let expected = Program(vec![
        Stmt::Instr(Instruction::JMP(lab("X01"))),
        Stmt::Instr(Instruction::MOV(reg(Register::X0), reg(Register::X7))),
    ]);
    assert_eq!(p, expected);
}

#[test]
fn any_operand_kind_is_accepted_anywhere() {
    // an immediate in destination position parses; rejecting it is the
    // engine's job
    let p = program("ADD 5, X0, X0\nHALT\n").unwrap();
    let expected = Program(vec![
        Stmt::Instr(Instruction::ADD(imm(5), reg(Register::X0), reg(Register::X0))),
        Stmt::Instr(Instruction::HALT),
    ]);
    assert_eq!(p, expected);
}

#[test]
fn unknown_opcode_is_reported() {
    let errs = program("NOP\n").unwrap_err();
    assert_eq!(errs.len(), 1);
    assert_eq!(errs[0].line, 0);
    assert_eq!(errs[0].kind, SyntaxErrorKind::UnknownOpcode);
    assert_eq!(errs[0].message(), "unknown opcode");
}

#[test]
fn all_errors_are_collected() {
    let errs = program("MOV X0, 1\nBADOP\nADD X0\nMOV X1, 2\n???\n").unwrap_err();
    assert_eq!(errs.len(), 3);
    assert_eq!(errs[0].line, 1);
    assert_eq!(errs[0].kind, SyntaxErrorKind::UnknownOpcode);
    assert_eq!(errs[1].line, 2);
    assert_eq!(errs[1].kind, SyntaxErrorKind::MalformedLine);
    assert_eq!(errs[2].line, 4);
    assert_eq!(errs[2].kind, SyntaxErrorKind::MalformedLine);
    assert_eq!(errs[2].message(), "malformed line");
}

#[test]
fn wrong_arity_is_an_error() {
    assert!(program("MOV X0\n").is_err());
    assert!(program("JMP\n").is_err());
    assert!(program("HALT X0\n").is_err());
    assert!(program("ADD X0, X1\n").is_err());
}

#[test]
fn crlf_terminators_are_accepted() {
    let p = program("MOV X0, 1\r\nHALT\r\n").unwrap();
    let expected = Program(vec![
        Stmt::Instr(Instruction::MOV(reg(Register::X0), imm(1))),
        Stmt::Instr(Instruction::HALT),
    ]);
    assert_eq!(p, expected);
}

#[test]
fn final_line_needs_no_terminator() {
    let p = program("HALT").unwrap();
    assert_eq!(p, Program(vec![Stmt::Instr(Instruction::HALT)]));
}
