use peppermint::error::{Error, Span};
use peppermint::{Instruction, Program, Statement};

fn parse(input: &str) -> Vec<Statement> {
    Program::parse_source(input)
        .expect("parse error")
        .statements()
        .to_vec()
}

fn pipeline_error(input: &str) -> Error<Span> {
    Program::parse_source(input).err().expect("no error thrown")
}

// Forward reference: the jump resolves to the index of the label statement
// itself, not to the statement after it.
#[test]
fn forward_reference() {
    let stmts = parse("JUMP :skip\n1\nskip: 2");
    assert_eq!(
        stmts,
        vec![
            Statement::InstrLine(Instruction::Jump(2)),
            Statement::Literal(1),
            Statement::Label(b"skip".to_vec()),
            Statement::Literal(2),
        ]
    );
}

// Round trip on a backward reference: the label statement already has its
// index when the jump is read, and the jump resolves to exactly that index.
#[test]
fn backward_reference_round_trip() {
    let stmts = parse("0\nstart: 1\nJUMP :start");
    assert_eq!(
        stmts,
        vec![
            Statement::Literal(0),
            Statement::Label(b"start".to_vec()),
            Statement::Literal(1),
            Statement::InstrLine(Instruction::Jump(1)),
        ]
    );
}

// Duplicate detection: the two spans point at the two distinct `a:`
// occurrences.
#[test]
fn duplicate_label() {
    assert_eq!(
        pipeline_error("a: 1\na: 2"),
        Error::DuplicateLabel {
            prev: Span { start: 0, end: 2 },
            this: Span { start: 5, end: 7 },
        }
    );
}

#[test]
fn duplicate_label_rendered_against_source() {
    let source = "a: 1\na: 2";
    let err = Program::parse_source(source).err().expect("no error thrown");
    assert_eq!(
        err.spans_to_source(source),
        Error::DuplicateLabel {
            prev: b"a:".to_vec(),
            this: b"a:".to_vec(),
        }
    );
}

#[test]
fn bad_operand_rendered_against_source() {
    let source = "LOAD :label";
    let err = Program::parse_source(source).err().expect("no error thrown");
    assert_eq!(
        err.spans_to_source(source),
        Error::BadOperand {
            opcode: b"LOAD".to_vec(),
            operand: b":label".to_vec(),
            wanted: peppermint::error::OperandType::Address,
        }
    );
}

#[test]
fn undefined_label() {
    assert_eq!(
        pipeline_error("JUMP :nowhere"),
        Error::UndefinedLabel {
            token: Span { start: 0, end: 13 }
        }
    );
}

// End-to-end: every label occupies its own statement index, so `skip`
// resolves to index 6, the label statement itself.
#[test]
fn end_to_end_skip_program() {
    let source = "10\nSTORE [0x10]\nJUMP :skip\n100\nADD [0x10]\nSTORE [0x10]\nskip: 1\nADD [0x10]\nSTORE [0x10]";
    let stmts = parse(source);
    assert_eq!(stmts.len(), 10);
    assert_eq!(stmts[2], Statement::InstrLine(Instruction::Jump(6)));
    assert_eq!(stmts[6], Statement::Label(b"skip".to_vec()));
    assert_eq!(stmts[7], Statement::Literal(1));
}

// Radix invariance through the whole pipeline: three spellings of 16.
#[test]
fn radix_invariance_parsed() {
    assert_eq!(
        parse("16 0x10 0b10000"),
        vec![
            Statement::Literal(16),
            Statement::Literal(16),
            Statement::Literal(16),
        ]
    );
}

#[test]
fn empty_source_is_empty_program() {
    assert_eq!(parse(""), vec![]);
    assert_eq!(parse("; only a comment"), vec![]);
}

#[test]
fn lexer_error_surfaces_through_parse_source() {
    assert_eq!(
        pipeline_error("LOAD [0x10]\n???"),
        Error::InvalidToken {
            token: Span { start: 12, end: 13 }
        }
    );
}

#[test]
fn eof_error_surfaces_through_parse_source() {
    assert_eq!(
        pipeline_error("STORE"),
        Error::EndOfFile {
            last_token: Span { start: 0, end: 5 }
        }
    );
}

// The error kind survives rendering: an unexpected token stays an
// unexpected token once its span is replaced by source text.
#[test]
fn unexpected_token_kind_preserved_by_rendering() {
    let source = ":label";
    let err = Program::parse_source(source).err().expect("no error thrown");
    assert_eq!(
        err.spans_to_source(source),
        Error::UnexpectedToken {
            token: b":label".to_vec()
        }
    );
}
