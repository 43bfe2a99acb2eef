use peppermint::error::{Error, OperandType, Span};
use peppermint::lex::tokenize;
use peppermint::parse::{Ast, LabelledStatement, SymInstruction, SymStatement};

fn parse_statements(input: &str) -> Vec<LabelledStatement> {
    let tokens = tokenize(input).expect("lexing error");
    let ast = Ast::consume_token_stream(&tokens).expect("parse error");
    ast.statements
}

fn parse_error(input: &str) -> Error<Span> {
    let tokens = tokenize(input).expect("lexing error");
    Ast::consume_token_stream(&tokens)
        .err()
        .expect("no error thrown")
}

#[test]
fn statement_sequence_single_load() {
    let stmts = parse_statements("load [0x10]");
    assert_eq!(stmts.len(), 1);
    assert_eq!(stmts[0].label, None);
    assert_eq!(
        stmts[0].statement,
        SymStatement::InstrLine(SymInstruction::Load(16))
    );
}

#[test]
fn statement_sequence_from_str() {
    let stmts = parse_statements("load [0x10] 10 jump :label");
    let kinds: Vec<SymStatement> = stmts.iter().map(|s| s.statement.clone()).collect();
    assert_eq!(
        kinds,
        vec![
            SymStatement::InstrLine(SymInstruction::Load(16)),
            SymStatement::Literal(10),
            SymStatement::InstrLine(SymInstruction::Jump(b"label".to_vec())),
        ]
    );
    assert!(stmts.iter().all(|s| s.label.is_none()));
}

#[test]
fn statement_spans_cover_head_and_operand() {
    let stmts = parse_statements("load [0x10]");
    assert_eq!(stmts[0].span, Span { start: 0, end: 11 });
}

#[test]
fn label_attaches_to_next_statement() {
    let stmts = parse_statements("begin: 7");
    assert_eq!(stmts.len(), 1);
    assert_eq!(
        stmts[0].label,
        Some((b"begin".to_vec(), Span { start: 0, end: 6 }))
    );
    assert_eq!(stmts[0].statement, SymStatement::Literal(7));
}

#[test]
fn flatten_makes_labels_first_class() {
    let tokens = tokenize("begin: 7").expect("lexing error");
    let ast = Ast::consume_token_stream(&tokens).expect("parse error");
    let flat = ast.flatten();
    assert_eq!(flat.len(), 2);
    assert_eq!(flat[0].0, SymStatement::Label(b"begin".to_vec()));
    assert_eq!(flat[0].1, Span { start: 0, end: 6 });
    assert_eq!(flat[1].0, SymStatement::Literal(7));
}

// Operand mismatch: every opcode but jump wants an address.
#[test]
fn statement_error_from_str() {
    assert_eq!(
        parse_error("load :label"),
        Error::BadOperand {
            opcode: Span { start: 0, end: 4 },
            operand: Span { start: 5, end: 11 },
            wanted: OperandType::Address,
        }
    );
}

// Operand mismatch: jump wants a label.
#[test]
fn jump_with_address_operand() {
    assert_eq!(
        parse_error("JUMP [0x10]"),
        Error::BadOperand {
            opcode: Span { start: 0, end: 4 },
            operand: Span { start: 5, end: 11 },
            wanted: OperandType::Label,
        }
    );
}

#[test]
fn jump_with_literal_operand() {
    assert_eq!(
        parse_error("JUMP 10"),
        Error::BadOperand {
            opcode: Span { start: 0, end: 4 },
            operand: Span { start: 5, end: 7 },
            wanted: OperandType::Label,
        }
    );
}

// Truncated input: the end-of-file span points at the opcode.
#[test]
fn truncated_instruction() {
    assert_eq!(
        parse_error("STORE"),
        Error::EndOfFile {
            last_token: Span { start: 0, end: 5 }
        }
    );
}

#[test]
fn label_at_end_of_input() {
    assert_eq!(
        parse_error("1\nfoo:"),
        Error::EndOfFile {
            last_token: Span { start: 2, end: 6 }
        }
    );
}

#[test]
fn bare_jump_label_reference() {
    assert_eq!(
        parse_error(":label"),
        Error::UnexpectedToken {
            token: Span { start: 0, end: 6 }
        }
    );
}

#[test]
fn bare_address_statement() {
    assert_eq!(
        parse_error("[0x10]"),
        Error::UnexpectedToken {
            token: Span { start: 0, end: 6 }
        }
    );
}

#[test]
fn second_label_in_a_row() {
    assert_eq!(
        parse_error("a: b: 1"),
        Error::UnexpectedToken {
            token: Span { start: 3, end: 5 }
        }
    );
}

#[test]
fn take_from_token_stream_steps_through() {
    let tokens = tokenize("1 2").expect("lexing error");
    let (first, next) = LabelledStatement::take_from_token_stream(&tokens, 0)
        .expect("parse error")
        .expect("no statement");
    assert_eq!(first.statement, SymStatement::Literal(1));
    assert_eq!(next, 1);
    let (second, next) = LabelledStatement::take_from_token_stream(&tokens, next)
        .expect("parse error")
        .expect("no statement");
    assert_eq!(second.statement, SymStatement::Literal(2));
    assert_eq!(next, 2);
    assert!(LabelledStatement::take_from_token_stream(&tokens, next)
        .expect("parse error")
        .is_none());
}
