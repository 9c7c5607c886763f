use asmvm::emulator::{Emulator, ExecErrorKind, MachineState};
use asmvm::parser::program;
use asmvm::resolver::{resolve, ResolutionError};
use asmvm::isa::Register;

fn load(src: &str) -> Emulator {
    let p = program(src).unwrap();
    let r = resolve(&p).unwrap();
    assert!(r.instrs.len() <= 0x7fff_ffff);
    Emulator::new(r)
}

#[test]
fn mov_add_halt_scenario() {
    let mut e = load("MOV X0, 5\nADD X1, X0, X0\nHALT\n");
    e.run(1000).unwrap();
    assert!(matches!(e.state(), MachineState::Halted));
    assert_eq!(e.register(Register::X0), 5);
    assert_eq!(e.register(Register::X1), 10);
}

#[test]
fn backward_jump_loops_forever_within_budget() {
    // X1 starts at zero, so JZ always jumps back to address 0; the run only
    // stops because the harness bounds the number of steps
    let mut e = load("loop: ADDI X0, X0, 1\nJZ X1, loop\nHALT\n");
    e.run(100).unwrap();
    assert!(matches!(e.state(), MachineState::Running));
    // two steps per loop iteration: 100 steps mean 50 increments
    assert_eq!(e.register(Register::X0), 50);
    assert_eq!(e.pc(), 0);
}

#[test]
fn duplicate_label_is_a_resolution_error() {
    let p = program("foo:\nMOV X0, 1\nfoo:\nHALT\n").unwrap();
    match resolve(&p) {
        Err(ResolutionError::DuplicateLabel(name)) => assert_eq!(name, "foo"),
        other => panic!("expected a duplicate label error, got {:?}", other),
    }
}

#[test]
fn unresolved_jump_target_is_a_resolution_error() {
    let p = program("JMP missing\n").unwrap();
    match resolve(&p) {
        Err(ResolutionError::UnresolvedLabel(name)) => assert_eq!(name, "missing"),
        other => panic!("expected an unresolved label error, got {:?}", other),
    }
}

#[test]
fn immediate_destination_fails_at_execution() {
    let mut e = load("ADD 5, X0, X0\nHALT\n");
    let err = e.run(10).unwrap_err();
    assert_eq!(err.addr, 0);
    assert!(matches!(err.kind, ExecErrorKind::InvalidDestination));
}

#[test]
fn empty_program_halts_implicitly() {
    let mut e = load("\n; nothing here\n   \n");
    e.run(10).unwrap();
    assert!(matches!(e.state(), MachineState::Halted));
    for r in [
        Register::X0,
        Register::X1,
        Register::X2,
        Register::X3,
        Register::X4,
        Register::X5,
        Register::X6,
        Register::X7,
    ] {
        assert_eq!(e.register(r), 0);
    }
}

#[test]
fn address_assignment_skips_labels() {
    let p = program("a:\nMOV X0, 1\nb:\nc:\nADD X0, X0, X0\nd:\nHALT\n").unwrap();
    let r = resolve(&p).unwrap();
    assert_eq!(r.instrs.len(), 3);
    assert_eq!(r.lookup(&"a".to_string()), Some(0));
    assert_eq!(r.lookup(&"b".to_string()), Some(1));
    assert_eq!(r.lookup(&"c".to_string()), Some(1));
    assert_eq!(r.lookup(&"d".to_string()), Some(2));
    assert_eq!(r.lookup(&"nowhere".to_string()), None);
}

#[test]
fn add_wraps_around_on_overflow() {
    let mut e = load("MOV X0, 2147483647\nADD X1, X0, X0\nHALT\n");
    e.run(10).unwrap();
    assert!(matches!(e.state(), MachineState::Halted));
    assert_eq!(e.register(Register::X1), -2);
}

#[test]
fn halt_is_idempotent() {
    let mut e = load("MOV X3, 9\nHALT\n");
    e.run(10).unwrap();
    assert!(matches!(e.state(), MachineState::Halted));
    let pc = e.pc();
    for _ in 0..5 {
        e.step().unwrap();
        assert!(matches!(e.state(), MachineState::Halted));
        assert_eq!(e.pc(), pc);
        assert_eq!(e.register(Register::X3), 9);
    }
}

#[test]
fn execution_is_deterministic() {
    let src = "MOV X0, 3\nADD X1, X0, 4\nJZ X2, skip\nHALT\nskip: MOV X2, 1\nHALT\n";
    let mut first = load(src);
    let mut second = load(src);
    first.run(100).unwrap();
    second.run(100).unwrap();
    for r in [Register::X0, Register::X1, Register::X2] {
        assert_eq!(first.register(r), second.register(r));
    }
    assert_eq!(first.pc(), second.pc());
}

#[test]
fn unresolved_source_label_fails_at_execution() {
    // only jump targets are checked by the resolver; a label used as a
    // source operand fails when the instruction executes
    let mut e = load("MOV X0, missing\nHALT\n");
    let err = e.run(10).unwrap_err();
    assert_eq!(err.addr, 0);
    match err.kind {
        ExecErrorKind::UnresolvedLabel(name) => assert_eq!(name, "missing"),
        other => panic!("expected an unresolved label error, got {:?}", other),
    }
}

#[test]
fn out_of_range_jump_fails_at_execution() {
    let mut e = load("JMP 99\nHALT\n");
    let err = e.run(10).unwrap_err();
    assert_eq!(err.addr, 0);
    match err.kind {
        ExecErrorKind::OutOfRangeJump(t) => assert_eq!(t, 99),
        other => panic!("expected an out-of-range jump error, got {:?}", other),
    }
}

#[test]
fn negative_jump_target_fails_at_execution() {
    let mut e = load("MOV X0, -1\nJMP X0\n");
    let err = e.run(10).unwrap_err();
    assert_eq!(err.addr, 1);
    assert!(matches!(err.kind, ExecErrorKind::OutOfRangeJump(-1)));
}

#[test]
fn jump_one_past_the_end_halts() {
    // the one-past-the-end address is a valid target and halts the machine
    let mut e = load("JMP 1\n");
    e.run(10).unwrap();
    assert!(matches!(e.state(), MachineState::Halted));
}

#[test]
fn register_holds_computed_jump_target() {
    let mut e = load("MOV X0, 3\nJMP X0\nMOV X1, 7\nHALT\n");
    e.run(10).unwrap();
    assert!(matches!(e.state(), MachineState::Halted));
    assert_eq!(e.register(Register::X1), 0);
}

#[test]
fn label_as_source_value_yields_its_address() {
    let mut e = load("MOV X0, end\nMOV X1, 1\nend: HALT\n");
    e.run(10).unwrap();
    assert!(matches!(e.state(), MachineState::Halted));
    assert_eq!(e.register(Register::X0), 2);
    assert_eq!(e.register(Register::X1), 1);
}

#[test]
fn jz_falls_through_on_nonzero() {
    let mut e = load("MOV X0, 1\nJZ X0, end\nMOV X1, 5\nend: HALT\n");
    e.run(10).unwrap();
    assert!(matches!(e.state(), MachineState::Halted));
    assert_eq!(e.register(Register::X1), 5);
}

#[test]
fn addi_adds_an_immediate() {
    let mut e = load("MOV X0, 40\nADDI X0, X0, 2\nHALT\n");
    e.run(10).unwrap();
    assert_eq!(e.register(Register::X0), 42);
}

#[test]
fn label_at_end_of_program_halts_when_jumped_to() {
    // a label declared after the last instruction points one past the end;
    // jumping there is an implicit halt
    let mut e = load("JMP end\nMOV X0, 1\nend:\n");
    e.run(10).unwrap();
    assert!(matches!(e.state(), MachineState::Halted));
    assert_eq!(e.register(Register::X0), 0);
    assert_eq!(e.pc(), 2);
}
