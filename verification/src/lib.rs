//! Front end for the Peppermint accumulator-machine assembly language.
//!
//! Source text is turned into a fully resolved, immutable [`Program`] by a
//! three-stage pipeline: the lexer ([`lex::tokenize`]) produces tokens with
//! byte spans, the statement parser ([`parse::Ast::consume_token_stream`])
//! groups them into statements whose jump targets are still label names, and
//! the label resolver ([`resolve::resolve`]) rewrites every symbolic jump
//! target into an absolute statement index.  Every failure carries the byte
//! span(s) needed to point a diagnostic at the offending source text.

use vstd::prelude::*;
use vstd::string::StringSliceAdditionalSpecFns;

pub mod error;
pub mod lex;
pub mod parse;
pub mod resolve;
pub mod simulate;
pub mod util;

verus! {

/// One memory word.
pub type Word = u8;

/// Two memory words.
pub type DoubleWord = u16;

/// Memory address.
pub type Address = u16;

/// Literal integer.
pub type Literal = u16;

/// Instruction with its jump target resolved to an absolute statement index.
#[derive(Debug, Clone, PartialEq)]
pub enum Instruction {
    /// Load a word from memory into the accumulator.
    Load(Address),
    /// Bitwise-and the accumulator with a memory word.
    And(Address),
    /// Bitwise-xor the accumulator with a memory word.
    Xor(Address),
    /// Bitwise-or the accumulator with a memory word.
    Or(Address),
    /// Add a memory word to the accumulator.
    Add(Address),
    /// Subtract a memory word from the accumulator.
    Sub(Address),
    /// Store the accumulator into memory.
    Store(Address),
    /// Jump to the statement at this index.
    Jump(usize),
}

/// Mathematical image of an [`Instruction`].
pub enum InstructionV {
    /// Load a word from memory into the accumulator.
    Load(Address),
    /// Bitwise-and the accumulator with a memory word.
    And(Address),
    /// Bitwise-xor the accumulator with a memory word.
    Xor(Address),
    /// Bitwise-or the accumulator with a memory word.
    Or(Address),
    /// Add a memory word to the accumulator.
    Add(Address),
    /// Subtract a memory word from the accumulator.
    Sub(Address),
    /// Store the accumulator into memory.
    Store(Address),
    /// Jump to the statement at this index.
    Jump(int),
}

impl View for Instruction {
    type V = InstructionV;

    open spec fn view(&self) -> InstructionV {
        match self {
            Instruction::Load(a) => InstructionV::Load(*a),
            Instruction::And(a) => InstructionV::And(*a),
            Instruction::Xor(a) => InstructionV::Xor(*a),
            Instruction::Or(a) => InstructionV::Or(*a),
            Instruction::Add(a) => InstructionV::Add(*a),
            Instruction::Sub(a) => InstructionV::Sub(*a),
            Instruction::Store(a) => InstructionV::Store(*a),
            Instruction::Jump(t) => InstructionV::Jump(*t as int),
        }
    }
}

/// Fully resolved statement: the resolved phase of the pipeline, where jump
/// targets are absolute statement indices.
#[derive(Debug, Clone, PartialEq)]
pub enum Statement {
    /// A label declaration: a statement of its own with no execution effect,
    /// whose resolved value is its own index in the statement sequence.
    Label(Vec<u8>),
    /// An instruction line.
    InstrLine(Instruction),
    /// A bare integer literal: an immediate accumulator load.
    Literal(Literal),
}

/// Mathematical image of a [`Statement`].
pub enum StatementV {
    /// A label declaration.
    Label(Seq<u8>),
    /// An instruction line.
    InstrLine(InstructionV),
    /// A bare integer literal.
    Literal(Literal),
}

impl View for Statement {
    type V = StatementV;

    open spec fn view(&self) -> StatementV {
        match self {
            Statement::Label(n) => StatementV::Label(n@),
            Statement::InstrLine(i) => StatementV::InstrLine(i@),
            Statement::Literal(v) => StatementV::Literal(*v),
        }
    }
}

/// Image of a resolved-statement list under [`View`].
pub open spec fn prog_view(v: Seq<Statement>) -> Seq<StatementV> {
    v.map_values(|st: Statement| st@)
}

/// The invariant of a resolved program: every jump targets a statement of
/// the program.
pub open spec fn program_wf(s: Seq<StatementV>) -> bool {
    forall|k: int|
        0 <= k < s.len() ==> ((#[trigger] s[k]) matches StatementV::InstrLine(
            InstructionV::Jump(t),
        ) ==> 0 <= t < s.len())
}

/// Parsed and checked Peppermint program.
///
/// The terminal artifact of the pipeline: an ordered, immutable sequence of
/// resolved statements.  Every jump targets a statement index of the
/// program, label names are unique, and statement order is source order.
/// No mutation is possible after construction, which is what keeps the
/// label-index invariant valid for the life of the value.
#[derive(Debug)]
pub struct Program {
    statements: Vec<Statement>,
}

impl View for Program {
    type V = Seq<StatementV>;

    closed spec fn view(&self) -> Seq<StatementV> {
        prog_view(self.statements@)
    }
}

impl Program {
    #[verifier::type_invariant]
    spec fn wf(self) -> bool {
        program_wf(self@)
    }

    /// Read-only view of the internal statement list.
    pub fn statements(&self) -> (r: &[Statement])
        ensures
            prog_view(r@) == self@,
            program_wf(self@),
    {
        proof {
            use_type_invariant(self);
        }
        self.statements.as_slice()
    }
}

/// The whole pipeline's specification: the resolved statements of the
/// source bytes, or the first error of the first failing stage, in the
/// order lexer, statement parser, label resolver.
pub open spec fn parse_source_spec(src: Seq<u8>) -> Result<Seq<StatementV>, error::Error<
    error::Span,
>> {
    match lex::lex_from(src, 0) {
        Err(e) => Err(e),
        Ok(toks) => match parse::parse_all(toks, 0) {
            Err(e) => Err(e),
            Ok(ls) => resolve::resolve_spec(parse::flatten(ls)),
        },
    }
}

impl Program {
    /// Fully parse source code into the final resolved program.
    ///
    /// Sequences the lexer, the statement parser and the label resolver; the
    /// result is exactly what [`parse_source_spec`] says of the source
    /// bytes: the resolved program, or the first error of the first failing
    /// stage.  Every span an error carries lies within the source, so the
    /// error can always be rendered with
    /// [`error::Error::spans_to_source`] against the same source text.
    pub fn parse_source(input: &str) -> (r: Result<Program, error::Error<error::Span>>)
        ensures
            (match (r, parse_source_spec(input.spec_bytes())) {
                (Ok(p), Ok(sv)) => p@ == sv,
                (Err(e), Err(ev)) => e == ev,
                _ => false,
            }),
            r matches Err(e) ==> e.spans_wf(input.spec_bytes().len()),
    {
        let ghost src = input.spec_bytes();
        let tokens = match lex::tokenize(input) {
            Ok(t) => t,
            Err(e) => {
                return Err(e);
            },
        };
        proof {
            lex::lemma_lex_from_spans(src, 0);
        }
        let ast = match parse::Ast::consume_token_stream(tokens.as_slice()) {
            Ok(a) => a,
            Err(e) => {
                proof {
                    parse::lemma_parse_all_spans(lex::toks_view(tokens@), 0, src.len());
                }
                return Err(e);
            },
        };
        let flat = ast.flatten();
        proof {
            parse::lemma_parse_all_spans(lex::toks_view(tokens@), 0, src.len());
            parse::lemma_flatten_spans(parse::stmts_view(ast.statements@), src.len());
        }
        let statements = match resolve::resolve(&flat) {
            Ok(s) => s,
            Err(e) => {
                proof {
                    resolve::lemma_resolve_spec_spans(parse::sym_view(flat@), src.len());
                }
                return Err(e);
            },
        };
        proof {
            resolve::lemma_resolution_wf(parse::sym_view(flat@), prog_view(statements@));
        }
        Ok(Program { statements })
    }
}

} // verus!
