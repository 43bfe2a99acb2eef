use peppermint::error::{Error, Span};
use peppermint::lex::{tokenize, InstructionKind, Token};

fn single_token(input: &str) -> Token {
    let tokens = tokenize(input).expect("lexing error");
    assert_eq!(tokens.len(), 1, "expected exactly one token");
    tokens[0].0.clone()
}

fn token_kinds(input: &str) -> Vec<Token> {
    tokenize(input)
        .expect("lexing error")
        .into_iter()
        .map(|(t, _)| t)
        .collect()
}

fn lex_error(input: &str) -> Error<Span> {
    tokenize(input).err().expect("lexer didn't throw an error")
}

#[test]
fn single_token_lex_instruction() {
    assert_eq!(
        single_token("load"),
        Token::Instruction(InstructionKind::Load)
    );
}

#[test]
fn single_token_lex_mixed_case_instr() {
    assert_eq!(
        single_token("lOaD"),
        Token::Instruction(InstructionKind::Load)
    );
}

#[test]
fn single_token_lex_hex_address() {
    assert_eq!(single_token("[0x10]"), Token::Address(16));
}

#[test]
fn single_token_lex_decimal_address() {
    assert_eq!(single_token("[12]"), Token::Address(12));
}

#[test]
fn single_token_lex_binary_address() {
    assert_eq!(single_token("[0b10]"), Token::Address(2));
}

#[test]
fn single_token_lex_hex_literal_upper() {
    assert_eq!(single_token("0x1A"), Token::Literal(26));
}

#[test]
fn single_token_lex_hex_literal_lower() {
    assert_eq!(single_token("0x2a"), Token::Literal(42));
}

#[test]
fn single_token_lex_binary_literal() {
    assert_eq!(single_token("0b1110"), Token::Literal(14));
}

#[test]
fn single_token_lex_decimal_literal() {
    assert_eq!(single_token("1120"), Token::Literal(1120));
}

#[test]
fn single_token_lex_label() {
    assert_eq!(
        single_token("my10th-label:"),
        Token::Label(b"my10th-label".to_vec())
    );
}

#[test]
fn single_token_lex_label_case_sensitive() {
    assert_eq!(
        single_token("my10th-LABEL:"),
        Token::Label(b"my10th-LABEL".to_vec())
    );
}

#[test]
fn single_token_lex_jump_label() {
    assert_eq!(single_token(":skip"), Token::JumpLabel(b"skip".to_vec()));
}

// These inputs do not have to be valid code, just valid token streams.
#[test]
fn token_seq_random_sequence() {
    assert_eq!(
        token_kinds("LOAD 10 [0x10]label:"),
        vec![
            Token::Instruction(InstructionKind::Load),
            Token::Literal(10),
            Token::Address(16),
            Token::Label(b"label".to_vec()),
        ]
    );
}

#[test]
fn token_seq_comment_followed_by_code() {
    assert_eq!(
        token_kinds("; a comment\nLOAD 10"),
        vec![Token::Instruction(InstructionKind::Load), Token::Literal(10)]
    );
}

#[test]
fn token_seq_comment_with_instr_followed_by_code() {
    assert_eq!(
        token_kinds("; a comment with the load instruction in it\nLOAD 10"),
        vec![Token::Instruction(InstructionKind::Load), Token::Literal(10)]
    );
}

#[test]
fn token_seq_hash_comment() {
    assert_eq!(
        token_kinds("# hash comment\n42"),
        vec![Token::Literal(42)]
    );
}

// Radix invariance: the same value written in all three radixes.
#[test]
fn radix_invariance_bare_literals() {
    assert_eq!(single_token("16"), Token::Literal(16));
    assert_eq!(single_token("0x10"), Token::Literal(16));
    assert_eq!(single_token("0b10000"), Token::Literal(16));
}

#[test]
fn token_spans_are_byte_offsets() {
    let tokens = tokenize("load [0x10]").expect("lexing error");
    assert_eq!(
        tokens,
        vec![
            (
                Token::Instruction(InstructionKind::Load),
                Span { start: 0, end: 4 }
            ),
            (Token::Address(16), Span { start: 5, end: 11 }),
        ]
    );
}

#[test]
fn error_hex_overflow() {
    assert_eq!(
        lex_error("0x1bababab"),
        Error::MalformedInteger {
            token: Span { start: 0, end: 10 }
        }
    );
}

#[test]
fn error_binary_bad_digit() {
    assert_eq!(
        lex_error("0b1a"),
        Error::MalformedInteger {
            token: Span { start: 0, end: 4 }
        }
    );
}

#[test]
fn error_decimal_bad_digit() {
    assert_eq!(
        lex_error("10ab"),
        Error::MalformedInteger {
            token: Span { start: 0, end: 4 }
        }
    );
}

#[test]
fn error_unknown_instruction() {
    assert_eq!(
        lex_error("aslkdajns"),
        Error::UnknownInstruction {
            token: Span { start: 0, end: 9 }
        }
    );
}

#[test]
fn error_invalid_token() {
    assert_eq!(
        lex_error("%"),
        Error::InvalidToken {
            token: Span { start: 0, end: 1 }
        }
    );
}

#[test]
fn error_malformed_address_interior() {
    assert_eq!(
        lex_error("[0b12]"),
        Error::MalformedInteger {
            token: Span { start: 0, end: 6 }
        }
    );
}

#[test]
fn error_unclosed_bracket() {
    assert_eq!(
        lex_error("[12"),
        Error::InvalidToken {
            token: Span { start: 0, end: 1 }
        }
    );
}

#[test]
fn first_error_aborts() {
    // The bad token comes after two good ones; only the error is reported.
    assert_eq!(
        lex_error("load [1] %"),
        Error::InvalidToken {
            token: Span { start: 9, end: 10 }
        }
    );
}
