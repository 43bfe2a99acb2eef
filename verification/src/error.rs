//! Error taxonomy shared by the lexer, the statement parser and the label
//! resolver.
//!
//! Every variant carries the byte span(s) of the offending token(s), so a
//! caller can point a diagnostic at the original source text.  The spans are
//! needed only for display: [`Error::spans_to_source`] replaces each one by
//! the exact source bytes it denotes.

use vstd::prelude::*;
use vstd::slice::{slice_subrange, slice_to_vec};
use vstd::string::StringSliceAdditionalSpecFns;

verus! {

/// Half-open byte-offset range `[start, end)` into the source text.
///
/// Identifies the lexical unit a token or an error refers to.  Spans are
/// only meaningful against the source buffer they index.
#[derive(Debug, Clone, Copy, PartialEq, Eq, Structural)]
pub struct Span {
    /// Offset of the first byte of the region.
    pub start: usize,
    /// Offset one past the last byte of the region.
    pub end: usize,
}

impl Span {
    /// The span is ordered and lies within a buffer of `len` bytes.
    pub open spec fn wf(self, len: nat) -> bool {
        self.start <= self.end && self.end <= len
    }
}

/// The bytes of `src` that the span `sp` denotes.
pub open spec fn span_bytes(src: Seq<u8>, sp: Span) -> Seq<u8> {
    src.subrange(sp.start as int, sp.end as int)
}

/// Kinds of operand an instruction can expect.
#[derive(Debug, Clone, Copy, PartialEq, Eq, Hash)]
pub enum OperandType {
    /// Memory address operand, like `[0x10]`.
    Address,
    /// Jump-target label operand, like `:my-label`.
    Label,
}

/// Error in malformed input.
///
/// Generic over the span representation: the pipeline produces `Error<Span>`,
/// and [`Error::spans_to_source`] rewrites it to `Error<Vec<u8>>`, where every
/// span has been replaced by the source bytes it denotes.
#[derive(Debug, Clone, PartialEq)]
pub enum Error<S> {
    /// Encountered input matching no lexical production.
    InvalidToken {
        /// Span of the invalid input.
        token: S,
    },
    /// Token present but of the wrong kind for the current grammar position.
    UnexpectedToken {
        /// Span of the unexpected token.
        token: S,
    },
    /// Mnemonic-shaped text that names no known opcode.
    UnknownInstruction {
        /// Span of the unknown mnemonic.
        token: S,
    },
    /// Numeric-shaped text that fails the radix parse.
    MalformedInteger {
        /// Span of the malformed literal.
        token: S,
    },
    /// Input ended in the middle of a statement.
    EndOfFile {
        /// Span of the last token seen before the end of input.
        last_token: S,
    },
    /// Operand kind does not match what the opcode requires.
    BadOperand {
        /// Span of the instruction expecting the operand.
        opcode: S,
        /// Span of the mismatched operand.
        operand: S,
        /// Operand kind the instruction wanted.
        wanted: OperandType,
    },
    /// Same label name declared twice.
    DuplicateLabel {
        /// Span of the first definition.
        prev: S,
        /// Span of the repeated definition.
        this: S,
    },
    /// Jump referencing a label that is never declared.
    UndefinedLabel {
        /// Span of the jump statement with the unknown target.
        token: S,
    },
}

impl Error<Span> {
    /// Every span carried by this error lies within a buffer of `len` bytes.
    pub open spec fn spans_wf(self, len: nat) -> bool {
        match self {
            Error::InvalidToken { token } => token.wf(len),
            Error::UnexpectedToken { token } => token.wf(len),
            Error::UnknownInstruction { token } => token.wf(len),
            Error::MalformedInteger { token } => token.wf(len),
            Error::EndOfFile { last_token } => last_token.wf(len),
            Error::BadOperand { opcode, operand, wanted } => opcode.wf(len) && operand.wf(len),
            Error::DuplicateLabel { prev, this } => prev.wf(len) && this.wf(len),
            Error::UndefinedLabel { token } => token.wf(len),
        }
    }

    /// Runtime check of [`Self::spans_wf`], for callers outside verified code
    /// that want to render an error of unknown provenance.
    pub fn spans_wf_check(&self, len: usize) -> (r: bool)
        ensures
            r == self.spans_wf(len as nat),
    {
        match self {
            Error::InvalidToken { token } => span_wf_check(token, len),
            Error::UnexpectedToken { token } => span_wf_check(token, len),
            Error::UnknownInstruction { token } => span_wf_check(token, len),
            Error::MalformedInteger { token } => span_wf_check(token, len),
            Error::EndOfFile { last_token } => span_wf_check(last_token, len),
            Error::BadOperand { opcode, operand, wanted } => {
                span_wf_check(opcode, len) && span_wf_check(operand, len)
            },
            Error::DuplicateLabel { prev, this } => {
                span_wf_check(prev, len) && span_wf_check(this, len)
            },
            Error::UndefinedLabel { token } => span_wf_check(token, len),
        }
    }

    /// `r` is this error rendered against the source bytes `src`: the variant
    /// is unchanged and every span has been replaced by the exact byte range
    /// it denotes.
    pub open spec fn renders_to(self, r: Error<Vec<u8>>, src: Seq<u8>) -> bool {
        match (self, r) {
            (Error::InvalidToken { token: a }, Error::InvalidToken { token: b }) => b@
                == span_bytes(src, a),
            (Error::UnexpectedToken { token: a }, Error::UnexpectedToken { token: b }) => b@
                == span_bytes(src, a),
            (Error::UnknownInstruction { token: a }, Error::UnknownInstruction { token: b }) => b@
                == span_bytes(src, a),
            (Error::MalformedInteger { token: a }, Error::MalformedInteger { token: b }) => b@
                == span_bytes(src, a),
            (Error::EndOfFile { last_token: a }, Error::EndOfFile { last_token: b }) => b@
                == span_bytes(src, a),
            (
                Error::BadOperand { opcode: a1, operand: a2, wanted: w1 },
                Error::BadOperand { opcode: b1, operand: b2, wanted: w2 },
            ) => b1@ == span_bytes(src, a1) && b2@ == span_bytes(src, a2) && w1 == w2,
            (
                Error::DuplicateLabel { prev: a1, this: a2 },
                Error::DuplicateLabel { prev: b1, this: b2 },
            ) => b1@ == span_bytes(src, a1) && b2@ == span_bytes(src, a2),
            (Error::UndefinedLabel { token: a }, Error::UndefinedLabel { token: b }) => b@
                == span_bytes(src, a),
            _ => false,
        }
    }

    /// Replace every numeric span in the error by the source bytes it
    /// denotes, for diagnostic rendering.
    ///
    /// The error kind is preserved exactly; only the span payloads change.
    pub fn spans_to_source(self, source: &str) -> (r: Error<Vec<u8>>)
        requires
            self.spans_wf(source.spec_bytes().len()),
        ensures
            self.renders_to(r, source.spec_bytes()),
    {
        let bytes: &[u8] = source.as_bytes();
        match self {
            Error::InvalidToken { token } => Error::InvalidToken {
                token: slice_span(bytes, token),
            },
            Error::UnexpectedToken { token } => Error::UnexpectedToken {
                token: slice_span(bytes, token),
            },
            Error::UnknownInstruction { token } => Error::UnknownInstruction {
                token: slice_span(bytes, token),
            },
            Error::MalformedInteger { token } => Error::MalformedInteger {
                token: slice_span(bytes, token),
            },
            Error::EndOfFile { last_token } => Error::EndOfFile {
                last_token: slice_span(bytes, last_token),
            },
            Error::BadOperand { opcode, operand, wanted } => Error::BadOperand {
                opcode: slice_span(bytes, opcode),
                operand: slice_span(bytes, operand),
                wanted,
            },
            Error::DuplicateLabel { prev, this } => Error::DuplicateLabel {
                prev: slice_span(bytes, prev),
                this: slice_span(bytes, this),
            },
            Error::UndefinedLabel { token } => Error::UndefinedLabel {
                token: slice_span(bytes, token),
            },
        }
    }
}

/// Runtime check that `sp` lies within a buffer of `len` bytes.
fn span_wf_check(sp: &Span, len: usize) -> (r: bool)
    ensures
        r == sp.wf(len as nat),
{
    sp.start <= sp.end && sp.end <= len
}

/// Copy of the bytes of `src` that the span `sp` denotes.
fn slice_span(src: &[u8], sp: Span) -> (r: Vec<u8>)
    requires
        sp.wf(src@.len()),
    ensures
        r@ == span_bytes(src@, sp),
{
    let sub = slice_subrange(src, sp.start, sp.end);
    slice_to_vec(sub)
}

} // verus!
