use peppermint::simulate::{Error, TickTalk};
use peppermint::Program;

#[test]
fn simple_jump() {
    let source = "10
        STORE [0x00]
        JUMP :skip
        100
        ADD [0x00]
        STORE [0x00]
        skip: 1
        ADD [0x00]
        STORE [0x00]";

    let program = Program::parse_source(source).expect("parse error");
    let mut sim = TickTalk::new(&program, 10);
    let halted = sim.run_to_completion(1_000).expect("simulation error");
    assert!(halted);

    assert_eq!(sim.memory[0x00], 11);
}

#[test]
fn store_then_add() {
    let source = "
        10
        STORE [0x10]
        5
        ADD [0x10]
        STORE [0x20]
    ";

    let program = Program::parse_source(source).expect("parse error");
    let mut sim = TickTalk::new(&program, 100);
    let halted = sim.run_to_completion(1_000).expect("simulation error");
    assert!(halted);

    assert_eq!(sim.memory[0x20], 15);
}

#[test]
fn literal_loads_accumulator() {
    let program = Program::parse_source("42").expect("parse error");
    let mut sim = TickTalk::new(&program, 1);
    let halted = sim.run_to_completion(10).expect("simulation error");
    assert!(halted);
    assert_eq!(sim.accumulator, 42);
}

#[test]
fn bitwise_instructions() {
    let source = "0b1100
        STORE [0]
        0b1010
        AND [0]
        STORE [1]
        0b1010
        OR [0]
        STORE [2]
        0b1010
        XOR [0]
        STORE [3]";
    let program = Program::parse_source(source).expect("parse error");
    let mut sim = TickTalk::new(&program, 4);
    sim.run_to_completion(1_000).expect("simulation error");
    assert_eq!(sim.memory[1], 0b1000);
    assert_eq!(sim.memory[2], 0b1110);
    assert_eq!(sim.memory[3], 0b0110);
}

#[test]
fn addition_wraps_around() {
    let source = "0xFFFF
        STORE [0]
        0xFFFF
        ADD [0]";
    let program = Program::parse_source(source).expect("parse error");
    let mut sim = TickTalk::new(&program, 1);
    let halted = sim.run_to_completion(100).expect("simulation error");
    assert!(halted);
    assert_eq!(sim.accumulator, 0xFFFE);
}

#[test]
fn subtraction_wraps_around() {
    let source = "5
        STORE [0]
        3
        SUB [0]";
    let program = Program::parse_source(source).expect("parse error");
    let mut sim = TickTalk::new(&program, 1);
    sim.run_to_completion(100).expect("simulation error");
    assert_eq!(sim.accumulator, 3u16.wrapping_sub(5));
}

#[test]
fn store_out_of_bounds() {
    let program = Program::parse_source("1\nSTORE [0x10]").expect("parse error");
    let mut sim = TickTalk::new(&program, 1);
    assert_eq!(
        sim.run_to_completion(100),
        Err(Error::AccessOutOfBounds)
    );
}

#[test]
fn load_out_of_bounds() {
    let program = Program::parse_source("LOAD [5]").expect("parse error");
    let mut sim = TickTalk::new(&program, 5);
    assert_eq!(sim.step(), Err(Error::AccessOutOfBounds));
}

#[test]
fn empty_program_halts_immediately() {
    let program = Program::parse_source("").expect("parse error");
    let mut sim = TickTalk::new(&program, 1);
    assert!(sim.halted());
    assert_eq!(sim.step(), Ok(true));
}

#[test]
fn labels_are_no_ops() {
    let program = Program::parse_source("a: 1\nb: 2").expect("parse error");
    let mut sim = TickTalk::new(&program, 1);
    let halted = sim.run_to_completion(100).expect("simulation error");
    assert!(halted);
    assert_eq!(sim.accumulator, 2);
}

#[test]
fn budget_runs_out_on_infinite_loop() {
    let program = Program::parse_source("here: JUMP :here").expect("parse error");
    let mut sim = TickTalk::new(&program, 1);
    let halted = sim.run_to_completion(50).expect("simulation error");
    assert!(!halted);
}

#[test]
fn with_external_mem_keeps_buffer() {
    let program = Program::parse_source("LOAD [2]\nADD [3]\nSTORE [0]").expect("parse error");
    let memory = vec![0, 0, 20, 22];
    let mut sim = TickTalk::with_external_mem(&program, memory);
    let halted = sim.run_to_completion(100).expect("simulation error");
    assert!(halted);
    assert_eq!(sim.memory, vec![42, 0, 20, 22]);
}
