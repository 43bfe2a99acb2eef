//! Statement parser: tokens to statements whose jump targets are still
//! symbolic label names.
//!
//! One pull reads an optional label declaration and then the statement it
//! precedes: a bare integer literal, or an instruction with exactly one
//! operand.  Every opcode except `Jump` requires an address operand; `Jump`
//! requires a jump-label operand; a mismatch reports which kind was wanted.
//! A label must be followed by a real statement: a label at the end of the
//! input is an end-of-file error and a label followed by another label is an
//! unexpected-token error.
//!
//! [`parse_one`] and [`parse_all`] are the parser's specification;
//! [`LabelledStatement::take_from_token_stream`] and
//! [`Ast::consume_token_stream`] are the verified implementations.

use crate::error::{Error, OperandType, Span};
use crate::lex::{toks_view, InstructionKind, Token, TokenV};
use vstd::prelude::*;
use vstd::slice::slice_to_vec;

verus! {

/// Instruction whose jump target is still a symbolic label name.
#[derive(Debug, Clone, PartialEq)]
pub enum SymInstruction {
    /// Load a word from memory into the accumulator.
    Load(crate::Address),
    /// Bitwise-and the accumulator with a memory word.
    And(crate::Address),
    /// Bitwise-xor the accumulator with a memory word.
    Xor(crate::Address),
    /// Bitwise-or the accumulator with a memory word.
    Or(crate::Address),
    /// Add a memory word to the accumulator.
    Add(crate::Address),
    /// Subtract a memory word from the accumulator.
    Sub(crate::Address),
    /// Store the accumulator into memory.
    Store(crate::Address),
    /// Jump to the statement declared under this label name.
    Jump(Vec<u8>),
}

/// Mathematical image of a [`SymInstruction`].
pub enum SymInstructionV {
    /// Load a word from memory into the accumulator.
    Load(crate::Address),
    /// Bitwise-and the accumulator with a memory word.
    And(crate::Address),
    /// Bitwise-xor the accumulator with a memory word.
    Xor(crate::Address),
    /// Bitwise-or the accumulator with a memory word.
    Or(crate::Address),
    /// Add a memory word to the accumulator.
    Add(crate::Address),
    /// Subtract a memory word from the accumulator.
    Sub(crate::Address),
    /// Store the accumulator into memory.
    Store(crate::Address),
    /// Jump to the statement declared under this label name.
    Jump(Seq<u8>),
}

impl View for SymInstruction {
    type V = SymInstructionV;

    open spec fn view(&self) -> SymInstructionV {
        match self {
            SymInstruction::Load(a) => SymInstructionV::Load(*a),
            SymInstruction::And(a) => SymInstructionV::And(*a),
            SymInstruction::Xor(a) => SymInstructionV::Xor(*a),
            SymInstruction::Or(a) => SymInstructionV::Or(*a),
            SymInstruction::Add(a) => SymInstructionV::Add(*a),
            SymInstruction::Sub(a) => SymInstructionV::Sub(*a),
            SymInstruction::Store(a) => SymInstructionV::Store(*a),
            SymInstruction::Jump(n) => SymInstructionV::Jump(n@),
        }
    }
}

/// Statement whose jump targets are still symbolic label names.
///
/// This is the symbolic phase of the pipeline; resolution turns it into
/// [`crate::Statement`], where jump targets are absolute statement indices.
#[derive(Debug, Clone, PartialEq)]
pub enum SymStatement {
    /// A label declaration, a statement of its own with no execution effect.
    Label(Vec<u8>),
    /// An instruction line.
    InstrLine(SymInstruction),
    /// A bare integer literal: an immediate accumulator load.
    Literal(crate::Literal),
}

/// Mathematical image of a [`SymStatement`].
pub enum SymStatementV {
    /// A label declaration.
    Label(Seq<u8>),
    /// An instruction line.
    InstrLine(SymInstructionV),
    /// A bare integer literal.
    Literal(crate::Literal),
}

impl View for SymStatement {
    type V = SymStatementV;

    open spec fn view(&self) -> SymStatementV {
        match self {
            SymStatement::Label(n) => SymStatementV::Label(n@),
            SymStatement::InstrLine(i) => SymStatementV::InstrLine(i@),
            SymStatement::Literal(v) => SymStatementV::Literal(*v),
        }
    }
}

/// One parsed statement together with the label declared in front of it, if
/// any; both keep their spans for later diagnostics.
#[derive(Debug, Clone, PartialEq)]
pub struct LabelledStatement {
    /// Label declared in front of the statement, with the span of the
    /// declaration token.
    pub label: Option<(Vec<u8>, Span)>,
    /// The statement itself (never [`SymStatement::Label`]).
    pub statement: SymStatement,
    /// Span of the statement: from the head token to the end of the operand.
    pub span: Span,
}

/// Mathematical image of a [`LabelledStatement`].
pub struct LabelledStatementV {
    /// Label declared in front of the statement, with its span.
    pub label: Option<(Seq<u8>, Span)>,
    /// The statement itself.
    pub statement: SymStatementV,
    /// Span of the statement.
    pub span: Span,
}

impl View for LabelledStatement {
    type V = LabelledStatementV;

    open spec fn view(&self) -> LabelledStatementV {
        LabelledStatementV {
            label: match &self.label {
                Some((n, sp)) => Some((n@, *sp)),
                None => None,
            },
            statement: self.statement@,
            span: self.span,
        }
    }
}

/// Image of a labelled-statement list under [`View`].
pub open spec fn stmts_view(v: Seq<LabelledStatement>) -> Seq<LabelledStatementV> {
    v.map_values(|l: LabelledStatement| l@)
}

// --- the parser's specification ---

/// The operand kind an opcode requires.
pub open spec fn expected_operand(k: InstructionKind) -> OperandType {
    if k is Jump {
        OperandType::Label
    } else {
        OperandType::Address
    }
}

/// The statement head (a literal or an instruction with its operand) at
/// token position `pos`, its span, and the position after it; or the error
/// the token stream produces there.  `pos` must be within the stream.
pub open spec fn parse_head(toks: Seq<(TokenV, Span)>, pos: nat) -> Result<
    (SymStatementV, Span, nat),
    Error<Span>,
> {
    let (t0, sp0) = toks[pos as int];
    match t0 {
        TokenV::Literal(v) => Ok((SymStatementV::Literal(v), sp0, pos + 1)),
        TokenV::Instruction(k) => {
            if pos + 1 >= toks.len() {
                Err(Error::EndOfFile { last_token: sp0 })
            } else {
                let (t1, sp1) = toks[pos as int + 1];
                let whole = Span { start: sp0.start, end: sp1.end };
                match (k, t1) {
                    (InstructionKind::Load, TokenV::Address(a)) => Ok(
                        (SymStatementV::InstrLine(SymInstructionV::Load(a)), whole, pos + 2),
                    ),
                    (InstructionKind::And, TokenV::Address(a)) => Ok(
                        (SymStatementV::InstrLine(SymInstructionV::And(a)), whole, pos + 2),
                    ),
                    (InstructionKind::Xor, TokenV::Address(a)) => Ok(
                        (SymStatementV::InstrLine(SymInstructionV::Xor(a)), whole, pos + 2),
                    ),
                    (InstructionKind::Or, TokenV::Address(a)) => Ok(
                        (SymStatementV::InstrLine(SymInstructionV::Or(a)), whole, pos + 2),
                    ),
                    (InstructionKind::Add, TokenV::Address(a)) => Ok(
                        (SymStatementV::InstrLine(SymInstructionV::Add(a)), whole, pos + 2),
                    ),
                    (InstructionKind::Sub, TokenV::Address(a)) => Ok(
                        (SymStatementV::InstrLine(SymInstructionV::Sub(a)), whole, pos + 2),
                    ),
                    (InstructionKind::Store, TokenV::Address(a)) => Ok(
                        (SymStatementV::InstrLine(SymInstructionV::Store(a)), whole, pos + 2),
                    ),
                    (InstructionKind::Jump, TokenV::JumpLabel(n)) => Ok(
                        (SymStatementV::InstrLine(SymInstructionV::Jump(n)), whole, pos + 2),
                    ),
                    (k2, _) => Err(
                        Error::BadOperand {
                            opcode: sp0,
                            operand: sp1,
                            wanted: expected_operand(k2),
                        },
                    ),
                }
            }
        },
        _ => Err(Error::UnexpectedToken { token: sp0 }),
    }
}

/// The parser's specification for one pull: the next labelled statement from
/// token position `pos` and the position after it, `None` at the end of the
/// stream, or the error the token stream produces there.
pub open spec fn parse_one(toks: Seq<(TokenV, Span)>, pos: nat) -> Result<
    Option<(LabelledStatementV, nat)>,
    Error<Span>,
> {
    if pos >= toks.len() {
        Ok(None)
    } else {
        let (t0, sp0) = toks[pos as int];
        match t0 {
            TokenV::Label(name) => {
                if pos + 1 >= toks.len() {
                    Err(Error::EndOfFile { last_token: sp0 })
                } else {
                    match parse_head(toks, pos + 1) {
                        Ok((st, sp, next)) => Ok(
                            Some(
                                (
                                    LabelledStatementV {
                                        label: Some((name, sp0)),
                                        statement: st,
                                        span: sp,
                                    },
                                    next,
                                ),
                            ),
                        ),
                        Err(e) => Err(e),
                    }
                }
            },
            _ => match parse_head(toks, pos) {
                Ok((st, sp, next)) => Ok(
                    Some((LabelledStatementV { label: None, statement: st, span: sp }, next)),
                ),
                Err(e) => Err(e),
            },
        }
    }
}

/// The parser's specification: all labelled statements from token position
/// `pos` to the end of the stream, or the first error in stream order.
pub open spec fn parse_all(toks: Seq<(TokenV, Span)>, pos: nat) -> Result<
    Seq<LabelledStatementV>,
    Error<Span>,
>
    decreases toks.len() - pos,
{
    if pos > toks.len() {
        Ok(Seq::empty())
    } else {
        match parse_one(toks, pos) {
            Err(e) => Err(e),
            Ok(None) => Ok(Seq::empty()),
            Ok(Some((st, next))) => {
                if pos < next <= toks.len() {
                    match parse_all(toks, next) {
                        Err(e) => Err(e),
                        Ok(rest) => Ok(seq![st].add(rest)),
                    }
                } else {
                    Ok(seq![st])
                }
            },
        }
    }
}

/// What [`parse_one`] guarantees: a pull makes progress and stays within the
/// stream, and an error's spans come from the stream's spans.
pub proof fn lemma_parse_one(toks: Seq<(TokenV, Span)>, pos: nat)
    requires
        pos <= toks.len(),
    ensures
        parse_one(toks, pos) matches Ok(Some((st, next))) ==> pos < next <= toks.len(),
{
}

/// Spans of the statements and of their labels lie within a buffer of `len`
/// bytes.
pub open spec fn lstmts_spans_wf(ls: Seq<LabelledStatementV>, len: nat) -> bool {
    forall|k: int|
        0 <= k < ls.len() ==> (#[trigger] ls[k]).span.wf(len) && (ls[k].label matches Some(l)
            ==> l.1.wf(len))
}

/// With token spans that are ordered byte ranges of the input, the parser's
/// statement and label spans lie within the input, and so do the spans of a
/// parse error.
pub proof fn lemma_parse_all_spans(toks: Seq<(TokenV, Span)>, pos: nat, len: nat)
    requires
        pos <= toks.len(),
        crate::lex::spans_chained(toks, 0, len),
    ensures
        parse_all(toks, pos) matches Ok(ls) ==> lstmts_spans_wf(ls, len),
        parse_all(toks, pos) matches Err(e) ==> e.spans_wf(len),
    decreases toks.len() - pos,
{
    if pos < toks.len() {
        match parse_one(toks, pos) {
            Ok(Some((st, next))) => {
                lemma_parse_all_spans(toks, next, len);
                match parse_all(toks, next) {
                    Ok(rest) => {
                        let ls = seq![st].add(rest);
                        assert forall|k: int| 0 <= k < ls.len() implies (
                        #[trigger] ls[k]).span.wf(len) && (ls[k].label matches Some(l) ==> l.1.wf(
                            len,
                        )) by {
                            if k > 0 {
                                assert(ls[k] == rest[k - 1]);
                            }
                        }
                    },
                    Err(_) => {},
                }
            },
            _ => {},
        }
    }
}

// --- the executable parser ---

/// Copy of a byte string.
pub(crate) fn copy_bytes(v: &Vec<u8>) -> (r: Vec<u8>)
    ensures
        r@ == v@,
{
    slice_to_vec(v.as_slice())
}

/// Copy of a symbolic statement.
fn copy_sym(st: &SymStatement) -> (r: SymStatement)
    ensures
        r@ == st@,
{
    match st {
        SymStatement::Label(n) => SymStatement::Label(copy_bytes(n)),
        SymStatement::Literal(v) => SymStatement::Literal(*v),
        SymStatement::InstrLine(i) => SymStatement::InstrLine(
            match i {
                SymInstruction::Load(a) => SymInstruction::Load(*a),
                SymInstruction::And(a) => SymInstruction::And(*a),
                SymInstruction::Xor(a) => SymInstruction::Xor(*a),
                SymInstruction::Or(a) => SymInstruction::Or(*a),
                SymInstruction::Add(a) => SymInstruction::Add(*a),
                SymInstruction::Sub(a) => SymInstruction::Sub(*a),
                SymInstruction::Store(a) => SymInstruction::Store(*a),
                SymInstruction::Jump(n) => SymInstruction::Jump(copy_bytes(n)),
            },
        ),
    }
}

/// The statement head (a literal or an instruction with its operand) at
/// token position `pos`, per [`parse_head`].
fn take_head(tokens: &[(Token, Span)], pos: usize) -> (r: Result<
    (SymStatement, Span, usize),
    Error<Span>,
>)
    requires
        pos < tokens@.len(),
    ensures
        (match (r, parse_head(toks_view(tokens@), pos as nat)) {
            (Ok((st, sp, next)), Ok((stv, spv, nextv))) => st@ == stv && sp == spv && next
                == nextv,
            (Err(e), Err(ev)) => e == ev,
            _ => false,
        }),
{
    let t0 = &tokens[pos];
    match &t0.0 {
        Token::Literal(v) => Ok((SymStatement::Literal(*v), t0.1, pos + 1)),
        Token::Instruction(k) => {
            if pos + 1 >= tokens.len() {
                Err(Error::EndOfFile { last_token: t0.1 })
            } else {
                let t1 = &tokens[pos + 1];
                let whole = Span { start: t0.1.start, end: t1.1.end };
                match (k, &t1.0) {
                    (InstructionKind::Load, Token::Address(a)) => Ok(
                        (SymStatement::InstrLine(SymInstruction::Load(*a)), whole, pos + 2),
                    ),
                    (InstructionKind::And, Token::Address(a)) => Ok(
                        (SymStatement::InstrLine(SymInstruction::And(*a)), whole, pos + 2),
                    ),
                    (InstructionKind::Xor, Token::Address(a)) => Ok(
                        (SymStatement::InstrLine(SymInstruction::Xor(*a)), whole, pos + 2),
                    ),
                    (InstructionKind::Or, Token::Address(a)) => Ok(
                        (SymStatement::InstrLine(SymInstruction::Or(*a)), whole, pos + 2),
                    ),
                    (InstructionKind::Add, Token::Address(a)) => Ok(
                        (SymStatement::InstrLine(SymInstruction::Add(*a)), whole, pos + 2),
                    ),
                    (InstructionKind::Sub, Token::Address(a)) => Ok(
                        (SymStatement::InstrLine(SymInstruction::Sub(*a)), whole, pos + 2),
                    ),
                    (InstructionKind::Store, Token::Address(a)) => Ok(
                        (SymStatement::InstrLine(SymInstruction::Store(*a)), whole, pos + 2),
                    ),
                    (InstructionKind::Jump, Token::JumpLabel(n)) => Ok(
                        (
                            SymStatement::InstrLine(SymInstruction::Jump(copy_bytes(n))),
                            whole,
                            pos + 2,
                        ),
                    ),
                    (k2, _) => {
                        let wanted = match k2 {
                            InstructionKind::Jump => OperandType::Label,
                            _ => OperandType::Address,
                        };
                        Err(Error::BadOperand { opcode: t0.1, operand: t1.1, wanted })
                    },
                }
            }
        },
        _ => Err(Error::UnexpectedToken { token: t0.1 }),
    }
}

impl LabelledStatement {
    /// Take the next labelled statement from the token stream, starting at
    /// token position `pos`.
    ///
    /// Returns the statement and the position after it, `Ok(None)` at the
    /// end of the stream, or the first error: the end of input in the middle
    /// of a statement, a mismatched operand, or a token that cannot head a
    /// statement.  The result is exactly what [`parse_one`] specifies.
    pub fn take_from_token_stream(tokens: &[(Token, Span)], pos: usize) -> (r: Result<
        Option<(LabelledStatement, usize)>,
        Error<Span>,
    >)
        ensures
            (match (r, parse_one(toks_view(tokens@), pos as nat)) {
                (Ok(None), Ok(None)) => true,
                (Ok(Some((ls, next))), Ok(Some((lsv, nextv)))) => ls@ == lsv && next == nextv,
                (Err(e), Err(ev)) => e == ev,
                _ => false,
            }),
    {
        if pos >= tokens.len() {
            return Ok(None);
        }
        let t0 = &tokens[pos];
        match &t0.0 {
            Token::Label(name) => {
                if pos + 1 >= tokens.len() {
                    Err(Error::EndOfFile { last_token: t0.1 })
                } else {
                    match take_head(tokens, pos + 1) {
                        Ok((st, sp, next)) => Ok(
                            Some(
                                (
                                    LabelledStatement {
                                        label: Some((copy_bytes(name), t0.1)),
                                        statement: st,
                                        span: sp,
                                    },
                                    next,
                                ),
                            ),
                        ),
                        Err(e) => Err(e),
                    }
                }
            },
            _ => match take_head(tokens, pos) {
                Ok((st, sp, next)) => Ok(
                    Some((LabelledStatement { label: None, statement: st, span: sp }, next)),
                ),
                Err(e) => Err(e),
            },
        }
    }
}

/// Sequence of statements whose jump targets are still symbolic label names,
/// as pulled from the token stream, with labels attached to the statements
/// they precede.
#[derive(Debug, Clone, PartialEq)]
pub struct Ast {
    /// The labelled statements, in source order.
    pub statements: Vec<LabelledStatement>,
}

impl Ast {
    /// Parse the whole token stream into statements.
    ///
    /// Returns the statements in source order, or the first parse error: the
    /// result is exactly what [`parse_all`] specifies.
    pub fn consume_token_stream(tokens: &[(Token, Span)]) -> (r: Result<Ast, Error<Span>>)
        ensures
            (match (r, parse_all(toks_view(tokens@), 0)) {
                (Ok(ast), Ok(sv)) => stmts_view(ast.statements@) == sv,
                (Err(e), Err(ev)) => e == ev,
                _ => false,
            }),
    {
        let ghost toks = toks_view(tokens@);
        let mut out: Vec<LabelledStatement> = Vec::new();
        let mut pos: usize = 0;
        proof {
            crate::util::lemma_seq_app_nil(parse_all(toks, 0));
            assert(stmts_view(out@) =~= Seq::empty());
        }
        loop
            invariant
                pos <= tokens@.len(),
                toks == toks_view(tokens@),
                parse_all(toks, 0) == crate::util::seq_app(stmts_view(out@), parse_all(toks, pos as nat)),
            decreases tokens@.len() - pos,
        {
            proof {
                lemma_parse_one(toks, pos as nat);
            }
            match LabelledStatement::take_from_token_stream(tokens, pos) {
                Err(e) => {
                    proof {
                        assert(parse_all(toks, pos as nat) == Err::<
                            Seq<LabelledStatementV>,
                            Error<Span>,
                        >(e));
                    }
                    return Err(e);
                },
                Ok(None) => {
                    proof {
                        assert(parse_all(toks, pos as nat) == Ok::<
                            Seq<LabelledStatementV>,
                            Error<Span>,
                        >(Seq::empty()));
                        assert(stmts_view(out@).add(Seq::empty()) =~= stmts_view(out@));
                    }
                    return Ok(Ast { statements: out });
                },
                Ok(Some((ls, next))) => {
                    let ghost prev = out@;
                    let ghost x = ls@;
                    proof {
                        assert(parse_all(toks, pos as nat) == crate::util::seq_app(
                            seq![x],
                            parse_all(toks, next as nat),
                        ));
                        crate::util::lemma_seq_app_push(stmts_view(prev), x, parse_all(toks, next as nat));
                    }
                    out.push(ls);
                    proof {
                        assert(stmts_view(out@) =~= stmts_view(prev).push(x));
                    }
                    pos = next;
                },
            }
        }
    }
}

// --- flattening: labels become first-class statements ---

/// Image of a symbolic-statement-and-span list under [`View`].
pub open spec fn sym_view(v: Seq<(SymStatement, Span)>) -> Seq<(SymStatementV, Span)> {
    v.map_values(|p: (SymStatement, Span)| (p.0@, p.1))
}

/// The first-class statements one labelled statement contributes: its label
/// declaration, if any, as a statement of its own, then the statement.
pub open spec fn flatten_one(l: LabelledStatementV) -> Seq<(SymStatementV, Span)> {
    match l.label {
        Some((n, sp)) => seq![(SymStatementV::Label(n), sp), (l.statement, l.span)],
        None => seq![(l.statement, l.span)],
    }
}

/// Labelled statements as a flat sequence of first-class statements: every
/// label declaration occupies a statement index of its own, directly before
/// the statement it precedes.
pub open spec fn flatten(ls: Seq<LabelledStatementV>) -> Seq<(SymStatementV, Span)>
    decreases ls.len(),
{
    if ls.len() == 0 {
        Seq::empty()
    } else {
        flatten_one(ls[0]).add(flatten(ls.drop_first()))
    }
}

proof fn lemma_flatten_push(ls: Seq<LabelledStatementV>, x: LabelledStatementV)
    ensures
        flatten(ls.push(x)) == flatten(ls).add(flatten_one(x)),
    decreases ls.len(),
{
    if ls.len() == 0 {
        assert(ls.push(x).drop_first() =~= Seq::empty());
        assert(ls.push(x)[0] == x);
        assert(flatten(ls.push(x)) == flatten_one(x).add(flatten(Seq::empty())));
        assert(flatten_one(x).add(Seq::empty()) =~= flatten_one(x));
        assert(flatten(ls) == Seq::<(SymStatementV, Span)>::empty());
        assert(Seq::empty().add(flatten_one(x)) =~= flatten_one(x));
    } else {
        assert(ls.push(x).drop_first() =~= ls.drop_first().push(x));
        assert(ls.push(x)[0] == ls[0]);
        assert(flatten(ls.push(x)) == flatten_one(ls[0]).add(flatten(ls.drop_first().push(x))));
        lemma_flatten_push(ls.drop_first(), x);
        assert(flatten(ls) == flatten_one(ls[0]).add(flatten(ls.drop_first())));
        assert(flatten_one(ls[0]).add(flatten(ls.drop_first()).add(flatten_one(x))) =~= flatten_one(
            ls[0],
        ).add(flatten(ls.drop_first())).add(flatten_one(x)));
    }
}

/// Flattening keeps every span within the input: each first-class statement
/// carries either a statement span or a label span of the parser's output.
pub proof fn lemma_flatten_spans(ls: Seq<LabelledStatementV>, len: nat)
    requires
        lstmts_spans_wf(ls, len),
    ensures
        forall|k: int| 0 <= k < flatten(ls).len() ==> (#[trigger] flatten(ls)[k]).1.wf(len),
    decreases ls.len(),
{
    if ls.len() > 0 {
        assert(lstmts_spans_wf(ls.drop_first(), len)) by {
            assert forall|k: int| 0 <= k < ls.drop_first().len() implies (#[trigger] ls.drop_first()[k]).span.wf(
                len,
            ) && (ls.drop_first()[k].label matches Some(l) ==> l.1.wf(len)) by {
                assert(ls.drop_first()[k] == ls[k + 1]);
            }
        }
        lemma_flatten_spans(ls.drop_first(), len);
        let head = flatten_one(ls[0]);
        let rest = flatten(ls.drop_first());
        assert forall|k: int| 0 <= k < flatten(ls).len() implies (#[trigger] flatten(ls)[k]).1.wf(
            len,
        ) by {
            assert(ls[0].span.wf(len) && (ls[0].label matches Some(l) ==> l.1.wf(len)));
            if k >= head.len() {
                assert(flatten(ls)[k] == rest[k - head.len()]);
            }
        }
    }
}

impl Ast {
    /// The statements as a flat sequence: each declared label becomes its
    /// own preceding [`SymStatement::Label`] entry, occupying a statement
    /// index of its own.
    pub fn flatten(&self) -> (r: Vec<(SymStatement, Span)>)
        ensures
            sym_view(r@) == flatten(stmts_view(self.statements@)),
    {
        let ghost all = stmts_view(self.statements@);
        let mut out: Vec<(SymStatement, Span)> = Vec::new();
        let n = self.statements.len();
        let mut k: usize = 0;
        proof {
            assert(sym_view(out@) =~= flatten(all.take(0)));
            assert(all.take(0) =~= Seq::empty());
        }
        while k < n
            invariant
                k <= n,
                n == self.statements@.len(),
                all == stmts_view(self.statements@),
                sym_view(out@) == flatten(all.take(k as int)),
            decreases n - k,
        {
            let l = &self.statements[k];
            let ghost prev = out@;
            proof {
                assert(all.take(k + 1) =~= all.take(k as int).push(all[k as int]));
                lemma_flatten_push(all.take(k as int), all[k as int]);
            }
            match &l.label {
                Some((name, sp)) => {
                    out.push((SymStatement::Label(copy_bytes(name)), *sp));
                },
                None => {},
            }
            out.push((copy_sym(&l.statement), l.span));
            proof {
                assert(sym_view(out@) =~= flatten(all.take(k + 1)));
            }
            k += 1;
        }
        proof {
            assert(all.take(n as int) =~= all);
        }
        out
    }
}

} // verus!
