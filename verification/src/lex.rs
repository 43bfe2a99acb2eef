//! Lexer: source bytes to tokens with byte spans.
//!
//! The lexical grammar, resolved by longest match:
//! - whitespace (space, tab, newline, form feed) is skipped;
//! - comments (`;` or `#` up to the end of the line) are skipped;
//! - a run of letters is an instruction mnemonic, matched case-insensitively
//!   against the opcode set (an unknown mnemonic is an error, not a fallback
//!   identifier);
//! - `name:` declares a label and `:name` references one; a name starts with
//!   a letter and continues with letters, digits, `_` or `-`;
//! - a bracketed run of letters and digits (`[123]`, `[0x1F]`, `[0b101]`) is
//!   an address literal and a bare run starting with a digit is an integer
//!   literal; both use a radix prefix (`0x` is 16, `0b` is 2, else 10), and
//!   once the shape matches, bad digits for the radix are an integer error,
//!   never a different token;
//! - anything else is an invalid-token error at that byte.
//!
//! [`lex_from`] is the lexer's specification; [`tokenize`] is the verified
//! implementation, proved to return exactly that token sequence, or the first
//! error in source order.

use crate::error::{Error, Span};
use vstd::prelude::*;
use vstd::slice::{slice_subrange, slice_to_vec};
use vstd::string::StringSliceAdditionalSpecFns;

verus! {

// --- character classes ---

/// Whitespace: space, tab, newline, form feed.
pub open spec fn is_ws(c: u8) -> bool {
    c == ' ' as u8 || c == '\t' as u8 || c == '\n' as u8 || c == 12u8
}

/// Start of a comment that runs to the end of the line.
pub open spec fn is_comment_start(c: u8) -> bool {
    c == ';' as u8 || c == '#' as u8
}

/// ASCII letter.
pub open spec fn is_alpha(c: u8) -> bool {
    ('a' as u8 <= c && c <= 'z' as u8) || ('A' as u8 <= c && c <= 'Z' as u8)
}

/// ASCII digit.
pub open spec fn is_digit(c: u8) -> bool {
    '0' as u8 <= c && c <= '9' as u8
}

/// ASCII letter or digit.
pub open spec fn is_alnum(c: u8) -> bool {
    is_alpha(c) || is_digit(c)
}

/// Character allowed after the first letter of a label name.
pub open spec fn is_label_char(c: u8) -> bool {
    is_alnum(c) || c == '_' as u8 || c == '-' as u8
}

// --- integer literals ---

/// Numeric value of a digit character, as `from_str_radix` reads it:
/// `0`-`9`, then `a`-`z` and `A`-`Z` for 10 to 35.  Any other character
/// gets the sentinel 36, which no radix here admits.
pub open spec fn digit_val(c: u8) -> nat {
    if '0' as u8 <= c && c <= '9' as u8 {
        (c - '0' as u8) as nat
    } else if 'a' as u8 <= c && c <= 'z' as u8 {
        (c - 'a' as u8 + 10) as nat
    } else if 'A' as u8 <= c && c <= 'Z' as u8 {
        (c - 'A' as u8 + 10) as nat
    } else {
        36
    }
}

/// The digit string is non-empty and every digit is valid for the radix.
pub open spec fn valid_digits(s: Seq<u8>, radix: nat) -> bool {
    s.len() > 0 && (forall|k: int| 0 <= k < s.len() ==> digit_val(s[k]) < radix)
}

/// Value of a digit string read in the given radix.
pub open spec fn radix_value(s: Seq<u8>, radix: nat) -> nat
    decreases s.len(),
{
    if s.len() == 0 {
        0
    } else {
        radix_value(s.drop_last(), radix) * radix + digit_val(s.last())
    }
}

/// Split a numeric literal into its digit string and radix: a `0x` prefix
/// selects 16, a `0b` prefix selects 2, anything else is read in base 10.
pub open spec fn int_radix(s: Seq<u8>) -> (Seq<u8>, nat) {
    if s.len() >= 2 && s[0] == '0' as u8 && s[1] == 'x' as u8 {
        (s.skip(2), 16 as nat)
    } else if s.len() >= 2 && s[0] == '0' as u8 && s[1] == 'b' as u8 {
        (s.skip(2), 2 as nat)
    } else {
        (s, 10 as nat)
    }
}

/// The value a numeric literal denotes, or `None` when a digit is invalid
/// for the selected radix or the value does not fit in a machine word.
pub open spec fn parse_int_spec(s: Seq<u8>) -> Option<u16> {
    let (digits, radix) = int_radix(s);
    if valid_digits(digits, radix) && radix_value(digits, radix) <= u16::MAX {
        Some(radix_value(digits, radix) as u16)
    } else {
        None
    }
}

// --- opcodes ---

/// Kind of instruction opcode.
#[derive(Debug, Clone, Copy, PartialEq, Eq, Structural)]
pub enum InstructionKind {
    /// Load a word from memory into the accumulator.
    Load,
    /// Bitwise-and the accumulator with a memory word.
    And,
    /// Bitwise-xor the accumulator with a memory word.
    Xor,
    /// Bitwise-or the accumulator with a memory word.
    Or,
    /// Add a memory word to the accumulator.
    Add,
    /// Subtract a memory word from the accumulator.
    Sub,
    /// Store the accumulator into memory.
    Store,
    /// Jump to a labelled statement.
    Jump,
}

/// Lower-case image of an ASCII character.
pub open spec fn lower(c: u8) -> u8 {
    if 'A' as u8 <= c && c <= 'Z' as u8 {
        (c + 32) as u8
    } else {
        c
    }
}

/// Lower-case image of a byte string.
pub open spec fn lower_seq(s: Seq<u8>) -> Seq<u8> {
    s.map_values(|c: u8| lower(c))
}

/// The opcode a mnemonic names, matched case-insensitively.
pub open spec fn opcode_of(name: Seq<u8>) -> Option<InstructionKind> {
    let l = lower_seq(name);
    if l == seq!['l' as u8, 'o' as u8, 'a' as u8, 'd' as u8] {
        Some(InstructionKind::Load)
    } else if l == seq!['a' as u8, 'n' as u8, 'd' as u8] {
        Some(InstructionKind::And)
    } else if l == seq!['x' as u8, 'o' as u8, 'r' as u8] {
        Some(InstructionKind::Xor)
    } else if l == seq!['o' as u8, 'r' as u8] {
        Some(InstructionKind::Or)
    } else if l == seq!['a' as u8, 'd' as u8, 'd' as u8] {
        Some(InstructionKind::Add)
    } else if l == seq!['s' as u8, 'u' as u8, 'b' as u8] {
        Some(InstructionKind::Sub)
    } else if l == seq!['s' as u8, 't' as u8, 'o' as u8, 'r' as u8, 'e' as u8] {
        Some(InstructionKind::Store)
    } else if l == seq!['j' as u8, 'u' as u8, 'm' as u8, 'p' as u8] {
        Some(InstructionKind::Jump)
    } else {
        None
    }
}

// --- tokens ---

/// One lexical token in Peppermint.
#[derive(Debug, Clone, PartialEq)]
pub enum Token {
    /// Instruction opcode.
    Instruction(InstructionKind),
    /// Address literal, like `[0x10]`.
    Address(crate::Address),
    /// Integer literal, like `0x10`.
    Literal(crate::Literal),
    /// Target label for a jump instruction, like `:loop`.
    JumpLabel(Vec<u8>),
    /// Label declaration, like `loop:`.
    Label(Vec<u8>),
}

/// Mathematical image of a [`Token`]: label names as byte sequences.
pub enum TokenV {
    /// Instruction opcode.
    Instruction(InstructionKind),
    /// Address literal.
    Address(crate::Address),
    /// Integer literal.
    Literal(crate::Literal),
    /// Target label for a jump instruction.
    JumpLabel(Seq<u8>),
    /// Label declaration.
    Label(Seq<u8>),
}

impl View for Token {
    type V = TokenV;

    open spec fn view(&self) -> TokenV {
        match self {
            Token::Instruction(k) => TokenV::Instruction(*k),
            Token::Address(a) => TokenV::Address(*a),
            Token::Literal(v) => TokenV::Literal(*v),
            Token::JumpLabel(n) => TokenV::JumpLabel(n@),
            Token::Label(n) => TokenV::Label(n@),
        }
    }
}

/// Image of a token-and-span list under [`View`].
pub open spec fn toks_view(v: Seq<(Token, Span)>) -> Seq<(TokenV, Span)> {
    v.map_values(|p: (Token, Span)| (p.0@, p.1))
}

// --- scans: ends of maximal character runs ---

/// End of the maximal run of letters starting at `i`.
pub open spec fn scan_alpha(s: Seq<u8>, i: nat) -> nat
    decreases s.len() - i,
{
    if i < s.len() && is_alpha(s[i as int]) {
        scan_alpha(s, i + 1)
    } else {
        i
    }
}

/// End of the maximal run of letters and digits starting at `i`.
pub open spec fn scan_alnum(s: Seq<u8>, i: nat) -> nat
    decreases s.len() - i,
{
    if i < s.len() && is_alnum(s[i as int]) {
        scan_alnum(s, i + 1)
    } else {
        i
    }
}

/// End of the maximal run of label characters starting at `i`.
pub open spec fn scan_label(s: Seq<u8>, i: nat) -> nat
    decreases s.len() - i,
{
    if i < s.len() && is_label_char(s[i as int]) {
        scan_label(s, i + 1)
    } else {
        i
    }
}

/// Position of the next newline at or after `i`, or the end of input.
pub open spec fn scan_line(s: Seq<u8>, i: nat) -> nat
    decreases s.len() - i,
{
    if i < s.len() && s[i as int] != '\n' as u8 {
        scan_line(s, i + 1)
    } else {
        i
    }
}

/// Bounds and characterization of [`scan_line`]: it stays within the input,
/// never moves backwards, and stops exactly at a newline or the end.
pub proof fn lemma_scan_line(s: Seq<u8>, i: nat)
    requires
        i <= s.len(),
    ensures
        i <= scan_line(s, i) <= s.len(),
        forall|k: int| i <= k < scan_line(s, i) ==> s[k] != '\n' as u8,
        scan_line(s, i) < s.len() ==> s[scan_line(s, i) as int] == '\n' as u8,
    decreases s.len() - i,
{
    if i < s.len() && s[i as int] != '\n' as u8 {
        lemma_scan_line(s, i + 1);
    }
}

/// Position of the next byte at or after `i` that belongs to a token:
/// whitespace and comments are passed over.
pub open spec fn skip_trivia(s: Seq<u8>, i: nat) -> nat
    decreases s.len() - i,
    via skip_trivia_decreases
{
    if i < s.len() && is_ws(s[i as int]) {
        skip_trivia(s, i + 1)
    } else if i < s.len() && is_comment_start(s[i as int]) {
        skip_trivia(s, scan_line(s, i + 1))
    } else {
        i
    }
}

#[via_fn]
proof fn skip_trivia_decreases(s: Seq<u8>, i: nat) {
    if i < s.len() && !is_ws(s[i as int]) && is_comment_start(s[i as int]) {
        lemma_scan_line(s, i + 1);
    }
}

/// Bounds and characterization of [`scan_alpha`].
pub proof fn lemma_scan_alpha(s: Seq<u8>, i: nat)
    requires
        i <= s.len(),
    ensures
        i <= scan_alpha(s, i) <= s.len(),
        forall|k: int| i <= k < scan_alpha(s, i) ==> is_alpha(s[k]),
        scan_alpha(s, i) < s.len() ==> !is_alpha(s[scan_alpha(s, i) as int]),
    decreases s.len() - i,
{
    if i < s.len() && is_alpha(s[i as int]) {
        lemma_scan_alpha(s, i + 1);
    }
}

/// Bounds and characterization of [`scan_alnum`].
pub proof fn lemma_scan_alnum(s: Seq<u8>, i: nat)
    requires
        i <= s.len(),
    ensures
        i <= scan_alnum(s, i) <= s.len(),
        forall|k: int| i <= k < scan_alnum(s, i) ==> is_alnum(s[k]),
        scan_alnum(s, i) < s.len() ==> !is_alnum(s[scan_alnum(s, i) as int]),
    decreases s.len() - i,
{
    if i < s.len() && is_alnum(s[i as int]) {
        lemma_scan_alnum(s, i + 1);
    }
}

/// Bounds and characterization of [`scan_label`].
pub proof fn lemma_scan_label(s: Seq<u8>, i: nat)
    requires
        i <= s.len(),
    ensures
        i <= scan_label(s, i) <= s.len(),
        forall|k: int| i <= k < scan_label(s, i) ==> is_label_char(s[k]),
        scan_label(s, i) < s.len() ==> !is_label_char(s[scan_label(s, i) as int]),
    decreases s.len() - i,
{
    if i < s.len() && is_label_char(s[i as int]) {
        lemma_scan_label(s, i + 1);
    }
}

/// Bounds of [`skip_trivia`]: it stays within the input and never moves
/// backwards, and it lands on a byte that starts a token (or the end).
pub proof fn lemma_skip_trivia(s: Seq<u8>, i: nat)
    requires
        i <= s.len(),
    ensures
        i <= skip_trivia(s, i) <= s.len(),
        skip_trivia(s, i) < s.len() ==> !is_ws(s[skip_trivia(s, i) as int]) && !is_comment_start(
            s[skip_trivia(s, i) as int],
        ),
    decreases s.len() - i,
{
    if i < s.len() && is_ws(s[i as int]) {
        lemma_skip_trivia(s, i + 1);
    } else if i < s.len() && is_comment_start(s[i as int]) {
        lemma_scan_line(s, i + 1);
        lemma_skip_trivia(s, scan_line(s, i + 1));
    }
}

// --- the lexer's specification ---

/// The span `[i, j)`.
pub open spec fn span_of(i: nat, j: nat) -> Span {
    Span { start: i as usize, end: j as usize }
}

/// A numeric literal over the bytes `[from, to)` of `s`: the token it
/// denotes (an address when `address` is set, so the bare and bracketed
/// shapes share the radix rules), or a malformed-integer error covering the
/// span `[lo, hi)`.
pub open spec fn lex_number(
    s: Seq<u8>,
    from: nat,
    to: nat,
    lo: nat,
    hi: nat,
    address: bool,
) -> Result<(TokenV, Span), Error<Span>> {
    match parse_int_spec(s.subrange(from as int, to as int)) {
        Some(v) => Ok(
            (
                if address {
                    TokenV::Address(v)
                } else {
                    TokenV::Literal(v)
                },
                span_of(lo, hi),
            ),
        ),
        None => Err(Error::MalformedInteger { token: span_of(lo, hi) }),
    }
}

/// The token starting at position `i`, or the error the input produces
/// there.  `i` must be a position on a token byte (after [`skip_trivia`]).
///
/// Longest-match disambiguation, mirrored from the lexical grammar:
/// - at a letter, the whole label-character run followed by `:` is a label
///   declaration; otherwise the run of letters and digits, when longer than
///   the run of letters alone, is a numeric literal, and the run of letters
///   is an instruction mnemonic;
/// - at a digit, the run of letters and digits is a numeric literal;
/// - `:` followed by a letter opens a jump-label reference;
/// - `[` opens an address literal, closed by `]`.
pub open spec fn lex_one(s: Seq<u8>, i: nat) -> Result<(TokenV, Span), Error<Span>> {
    let c = s[i as int];
    if is_digit(c) {
        let j = scan_alnum(s, i);
        lex_number(s, i, j, i, j, false)
    } else if is_alpha(c) {
        let m = scan_label(s, i);
        if m < s.len() && s[m as int] == ':' as u8 {
            Ok((TokenV::Label(s.subrange(i as int, m as int)), span_of(i, m + 1)))
        } else {
            let a = scan_alpha(s, i);
            let n = scan_alnum(s, i);
            if n > a {
                lex_number(s, i, n, i, n, false)
            } else {
                match opcode_of(s.subrange(i as int, a as int)) {
                    Some(k) => Ok((TokenV::Instruction(k), span_of(i, a))),
                    None => Err(Error::UnknownInstruction { token: span_of(i, a) }),
                }
            }
        }
    } else if c == ':' as u8 {
        if i + 1 < s.len() && is_alpha(s[i as int + 1]) {
            let m = scan_label(s, i + 1);
            Ok((TokenV::JumpLabel(s.subrange(i as int + 1, m as int)), span_of(i, m)))
        } else {
            Err(Error::InvalidToken { token: span_of(i, i + 1) })
        }
    } else if c == '[' as u8 {
        let j = scan_alnum(s, i + 1);
        if j > i + 1 && j < s.len() && s[j as int] == ']' as u8 {
            lex_number(s, i + 1, j, i, j + 1, true)
        } else {
            Err(Error::InvalidToken { token: span_of(i, i + 1) })
        }
    } else {
        Err(Error::InvalidToken { token: span_of(i, i + 1) })
    }
}

/// The lexer's specification: the tokens of `s` from position `i` on, each
/// with its span, or the first error in source order.
pub open spec fn lex_from(s: Seq<u8>, i: nat) -> Result<Seq<(TokenV, Span)>, Error<Span>>
    decreases s.len() - i,
    via lex_from_decreases
{
    if i > s.len() {
        Ok(Seq::empty())
    } else {
        let j = skip_trivia(s, i);
        if j >= s.len() {
            Ok(Seq::empty())
        } else {
            match lex_one(s, j) {
                Err(e) => Err(e),
                Ok((t, sp)) => {
                    if j < sp.end <= s.len() {
                        match lex_from(s, sp.end as nat) {
                            Err(e) => Err(e),
                            Ok(rest) => Ok(seq![(t, sp)].add(rest)),
                        }
                    } else {
                        Ok(seq![(t, sp)])
                    }
                },
            }
        }
    }
}

#[via_fn]
proof fn lex_from_decreases(s: Seq<u8>, i: nat) {
    if i <= s.len() {
        lemma_skip_trivia(s, i);
    }
}

/// Reading more digits can only grow the value of a digit string.
pub proof fn lemma_radix_value_monotone(s: Seq<u8>, radix: nat, m: int)
    requires
        0 <= m <= s.len(),
        radix >= 2,
    ensures
        radix_value(s, radix) >= radix_value(s.take(m), radix),
    decreases s.len() - m,
{
    if m < s.len() {
        assert(s.take(m + 1).drop_last() =~= s.take(m));
        assert(radix_value(s.take(m + 1), radix) >= radix_value(s.take(m), radix))
            by (nonlinear_arith)
            requires
                radix >= 2,
                radix_value(s.take(m + 1), radix) == radix_value(s.take(m), radix) * radix
                    + digit_val(s.take(m + 1).last()),
        ;
        lemma_radix_value_monotone(s, radix, m + 1);
        assert(s.take(s.len() as int) =~= s);
    } else {
        assert(s.take(m) =~= s);
    }
}

/// What [`lex_one`] guarantees at a real token position: the span starts
/// there, makes progress, and stays within the input; an error's span is
/// within the input as well.
pub proof fn lemma_lex_one(s: Seq<u8>, i: nat)
    requires
        i < s.len(),
        s.len() <= usize::MAX,
    ensures
        lex_one(s, i) matches Ok((t, sp)) ==> sp.start == i && i < sp.end <= s.len(),
        lex_one(s, i) matches Err(e) ==> e.spans_wf(s.len()),
{
    lemma_scan_alpha(s, i);
    lemma_scan_alnum(s, i);
    lemma_scan_label(s, i);
    if i + 1 <= s.len() {
        lemma_scan_alnum(s, i + 1);
        lemma_scan_label(s, i + 1);
    }
}

/// Token spans are ordered byte ranges of the input: every span lies within
/// a buffer of `len` bytes, starts no earlier than `lo`, and consecutive
/// tokens do not overlap.
pub open spec fn spans_chained(toks: Seq<(TokenV, Span)>, lo: int, len: nat) -> bool {
    &&& (forall|k: int|
        0 <= k < toks.len() ==> lo <= (#[trigger] toks[k]).1.start && toks[k].1.start
            <= toks[k].1.end <= len)
    &&& (forall|k: int|
        0 <= k < toks.len() - 1 ==> (#[trigger] toks[k]).1.end <= toks[k + 1].1.start)
}

/// The spans [`lex_from`] produces are ordered byte ranges of the input, and
/// a lexing error's span lies within the input.
pub proof fn lemma_lex_from_spans(s: Seq<u8>, i: nat)
    requires
        i <= s.len(),
        s.len() <= usize::MAX,
    ensures
        lex_from(s, i) matches Ok(toks) ==> spans_chained(toks, i as int, s.len()),
        lex_from(s, i) matches Err(e) ==> e.spans_wf(s.len()),
    decreases s.len() - i,
{
    lemma_skip_trivia(s, i);
    let j = skip_trivia(s, i);
    if j < s.len() {
        lemma_lex_one(s, j);
        match lex_one(s, j) {
            Ok((t, sp)) => {
                lemma_lex_from_spans(s, sp.end as nat);
                match lex_from(s, sp.end as nat) {
                    Ok(rest) => {
                        let toks = seq![(t, sp)].add(rest);
                        assert forall|k: int| 0 <= k < toks.len() implies i <= (
                        #[trigger] toks[k]).1.start && toks[k].1.start <= toks[k].1.end
                            <= s.len() by {
                            if k > 0 {
                                assert(toks[k] == rest[k - 1]);
                            }
                        }
                        assert forall|k: int| 0 <= k < toks.len() - 1 implies (
                        #[trigger] toks[k]).1.end <= toks[k + 1].1.start by {
                            if k > 0 {
                                assert(toks[k] == rest[k - 1]);
                                assert(toks[k + 1] == rest[k]);
                            } else {
                                assert(toks[1] == rest[0]);
                            }
                        }
                    },
                    Err(_) => {},
                }
            },
            Err(_) => {},
        }
    }
}

// --- executable character classes ---

fn ws_check(c: u8) -> (r: bool)
    ensures
        r == is_ws(c),
{
    c == ' ' as u8 || c == '\t' as u8 || c == '\n' as u8 || c == 12u8
}

fn comment_check(c: u8) -> (r: bool)
    ensures
        r == is_comment_start(c),
{
    c == ';' as u8 || c == '#' as u8
}

fn alpha_check(c: u8) -> (r: bool)
    ensures
        r == is_alpha(c),
{
    ('a' as u8 <= c && c <= 'z' as u8) || ('A' as u8 <= c && c <= 'Z' as u8)
}

fn digit_check(c: u8) -> (r: bool)
    ensures
        r == is_digit(c),
{
    '0' as u8 <= c && c <= '9' as u8
}

fn alnum_check(c: u8) -> (r: bool)
    ensures
        r == is_alnum(c),
{
    alpha_check(c) || digit_check(c)
}

fn label_char_check(c: u8) -> (r: bool)
    ensures
        r == is_label_char(c),
{
    alnum_check(c) || c == '_' as u8 || c == '-' as u8
}

// --- executable scans ---

fn scan_alpha_run(s: &[u8], i: usize) -> (j: usize)
    requires
        i <= s@.len(),
    ensures
        j == scan_alpha(s@, i as nat),
{
    let n: usize = s.len();
    let mut j = i;
    while j < n && alpha_check(s[j])
        invariant
            i <= j <= n,
            n == s@.len(),
            scan_alpha(s@, i as nat) == scan_alpha(s@, j as nat),
        decreases n - j,
    {
        proof {
            assert(scan_alpha(s@, j as nat) == scan_alpha(s@, (j + 1) as nat));
        }
        j += 1;
    }
    j
}

fn scan_alnum_run(s: &[u8], i: usize) -> (j: usize)
    requires
        i <= s@.len(),
    ensures
        j == scan_alnum(s@, i as nat),
{
    let n: usize = s.len();
    let mut j = i;
    while j < n && alnum_check(s[j])
        invariant
            i <= j <= n,
            n == s@.len(),
            scan_alnum(s@, i as nat) == scan_alnum(s@, j as nat),
        decreases n - j,
    {
        proof {
            assert(scan_alnum(s@, j as nat) == scan_alnum(s@, (j + 1) as nat));
        }
        j += 1;
    }
    j
}

fn scan_label_run(s: &[u8], i: usize) -> (j: usize)
    requires
        i <= s@.len(),
    ensures
        j == scan_label(s@, i as nat),
{
    let n: usize = s.len();
    let mut j = i;
    while j < n && label_char_check(s[j])
        invariant
            i <= j <= n,
            n == s@.len(),
            scan_label(s@, i as nat) == scan_label(s@, j as nat),
        decreases n - j,
    {
        proof {
            assert(scan_label(s@, j as nat) == scan_label(s@, (j + 1) as nat));
        }
        j += 1;
    }
    j
}

fn scan_line_run(s: &[u8], i: usize) -> (j: usize)
    requires
        i <= s@.len(),
    ensures
        j == scan_line(s@, i as nat),
{
    let n: usize = s.len();
    let mut j = i;
    while j < n && s[j] != '\n' as u8
        invariant
            i <= j <= n,
            n == s@.len(),
            scan_line(s@, i as nat) == scan_line(s@, j as nat),
        decreases n - j,
    {
        proof {
            assert(scan_line(s@, j as nat) == scan_line(s@, (j + 1) as nat));
        }
        j += 1;
    }
    j
}

fn skip_trivia_run(s: &[u8], i: usize) -> (j: usize)
    requires
        i <= s@.len(),
    ensures
        j == skip_trivia(s@, i as nat),
{
    let n: usize = s.len();
    let mut j = i;
    loop
        invariant
            i <= j <= n,
            n == s@.len(),
            skip_trivia(s@, i as nat) == skip_trivia(s@, j as nat),
        decreases n - j,
    {
        if j < n && ws_check(s[j]) {
            proof {
                assert(skip_trivia(s@, j as nat) == skip_trivia(s@, (j + 1) as nat));
            }
            j += 1;
        } else if j < n && comment_check(s[j]) {
            let e = scan_line_run(s, j + 1);
            proof {
                lemma_scan_line(s@, (j + 1) as nat);
                assert(skip_trivia(s@, j as nat) == skip_trivia(s@, e as nat));
            }
            j = e;
        } else {
            proof {
                assert(skip_trivia(s@, j as nat) == j as nat);
            }
            return j;
        }
    }
}

// --- executable integer parsing ---

fn digit_value(c: u8) -> (d: u32)
    ensures
        d as nat == digit_val(c),
{
    if '0' as u8 <= c && c <= '9' as u8 {
        (c - '0' as u8) as u32
    } else if 'a' as u8 <= c && c <= 'z' as u8 {
        (c - 'a' as u8) as u32 + 10
    } else if 'A' as u8 <= c && c <= 'Z' as u8 {
        (c - 'A' as u8) as u32 + 10
    } else {
        36
    }
}

/// Parse the numeric literal in the bytes `[from, to)` of `s`.
fn parse_int_range(s: &[u8], from: usize, to: usize) -> (r: Option<u16>)
    requires
        from <= to <= s@.len(),
    ensures
        r == parse_int_spec(s@.subrange(from as int, to as int)),
{
    let ghost full = s@.subrange(from as int, to as int);
    let mut dstart = from;
    let mut radix: u32 = 10;
    if to - from >= 2 && s[from] == '0' as u8 {
        if s[from + 1] == 'x' as u8 {
            dstart = from + 2;
            radix = 16;
        } else if s[from + 1] == 'b' as u8 {
            dstart = from + 2;
            radix = 2;
        }
    }
    let ghost digits = int_radix(full).0;
    let ghost srad = int_radix(full).1;
    proof {
        assert(digits =~= s@.subrange(dstart as int, to as int));
        assert(srad == radix as nat);
    }
    if dstart == to {
        return None;
    }
    let mut acc: u32 = 0;
    let mut k = dstart;
    while k < to
        invariant
            from <= dstart <= k <= to,
            to <= s@.len(),
            full == s@.subrange(from as int, to as int),
            digits == s@.subrange(dstart as int, to as int),
            digits == int_radix(full).0,
            srad == int_radix(full).1,
            srad == radix as nat,
            radix == 2 || radix == 10 || radix == 16,
            acc <= 0xFFFF,
            acc as nat == radix_value(digits.take(k - dstart), srad),
            forall|q: int| 0 <= q < k - dstart ==> digit_val(digits[q]) < srad,
        decreases to - k,
    {
        let d = digit_value(s[k]);
        proof {
            assert(digits[k - dstart] == s@[k as int]);
        }
        if d >= radix {
            proof {
                assert(!valid_digits(digits, srad));
            }
            return None;
        }
        proof {
            assert(acc * radix + d <= 0xFFFF * 16 + 15) by (nonlinear_arith)
                requires
                    acc <= 0xFFFF,
                    radix <= 16,
                    d < radix,
            ;
            assert(digits.take(k + 1 - dstart).drop_last() =~= digits.take(k - dstart));
            assert(digits.take(k + 1 - dstart).last() == digits[k - dstart]);
        }
        acc = acc * radix + d;
        if acc > 0xFFFF {
            proof {
                lemma_radix_value_monotone(digits, srad, k + 1 - dstart);
                assert(radix_value(digits, srad) > 0xFFFF);
            }
            return None;
        }
        k += 1;
    }
    proof {
        assert(digits.take(to - dstart) =~= digits);
        assert(valid_digits(digits, srad));
    }
    Some(acc as u16)
}

// --- executable opcode lookup ---

fn lower_byte(c: u8) -> (r: u8)
    ensures
        r == lower(c),
{
    if 'A' as u8 <= c && c <= 'Z' as u8 {
        c + 32
    } else {
        c
    }
}

/// Lower-case copy of the bytes `[from, to)` of `s`.
fn lower_range(s: &[u8], from: usize, to: usize) -> (low: Vec<u8>)
    requires
        from <= to <= s@.len(),
    ensures
        low@ == lower_seq(s@.subrange(from as int, to as int)),
{
    let ghost name = s@.subrange(from as int, to as int);
    let mut low: Vec<u8> = Vec::new();
    let mut k = from;
    while k < to
        invariant
            from <= k <= to,
            to <= s@.len(),
            name == s@.subrange(from as int, to as int),
            low@ =~= lower_seq(name).take(k - from),
        decreases to - k,
    {
        low.push(lower_byte(s[k]));
        k += 1;
    }
    proof {
        assert(lower_seq(name).take(to - from) =~= lower_seq(name));
    }
    low
}

fn is_word2(low: &Vec<u8>, c0: u8, c1: u8) -> (r: bool)
    ensures
        r == (low@ == seq![c0, c1]),
{
    let r = low.len() == 2 && low[0] == c0 && low[1] == c1;
    proof {
        if r {
            assert(low@ =~= seq![c0, c1]);
        }
    }
    r
}

fn is_word3(low: &Vec<u8>, c0: u8, c1: u8, c2: u8) -> (r: bool)
    ensures
        r == (low@ == seq![c0, c1, c2]),
{
    let r = low.len() == 3 && low[0] == c0 && low[1] == c1 && low[2] == c2;
    proof {
        if r {
            assert(low@ =~= seq![c0, c1, c2]);
        }
    }
    r
}

fn is_word4(low: &Vec<u8>, c0: u8, c1: u8, c2: u8, c3: u8) -> (r: bool)
    ensures
        r == (low@ == seq![c0, c1, c2, c3]),
{
    let r = low.len() == 4 && low[0] == c0 && low[1] == c1 && low[2] == c2 && low[3] == c3;
    proof {
        if r {
            assert(low@ =~= seq![c0, c1, c2, c3]);
        }
    }
    r
}

fn is_word5(low: &Vec<u8>, c0: u8, c1: u8, c2: u8, c3: u8, c4: u8) -> (r: bool)
    ensures
        r == (low@ == seq![c0, c1, c2, c3, c4]),
{
    let r = low.len() == 5 && low[0] == c0 && low[1] == c1 && low[2] == c2 && low[3] == c3
        && low[4] == c4;
    proof {
        if r {
            assert(low@ =~= seq![c0, c1, c2, c3, c4]);
        }
    }
    r
}

/// Look the mnemonic in the bytes `[from, to)` of `s` up in the opcode set,
/// case-insensitively.
fn opcode_lookup(s: &[u8], from: usize, to: usize) -> (r: Option<InstructionKind>)
    requires
        from <= to <= s@.len(),
    ensures
        r == opcode_of(s@.subrange(from as int, to as int)),
{
    let low = lower_range(s, from, to);
    if is_word4(&low, 'l' as u8, 'o' as u8, 'a' as u8, 'd' as u8) {
        Some(InstructionKind::Load)
    } else if is_word3(&low, 'a' as u8, 'n' as u8, 'd' as u8) {
        Some(InstructionKind::And)
    } else if is_word3(&low, 'x' as u8, 'o' as u8, 'r' as u8) {
        Some(InstructionKind::Xor)
    } else if is_word2(&low, 'o' as u8, 'r' as u8) {
        Some(InstructionKind::Or)
    } else if is_word3(&low, 'a' as u8, 'd' as u8, 'd' as u8) {
        Some(InstructionKind::Add)
    } else if is_word3(&low, 's' as u8, 'u' as u8, 'b' as u8) {
        Some(InstructionKind::Sub)
    } else if is_word5(&low, 's' as u8, 't' as u8, 'o' as u8, 'r' as u8, 'e' as u8) {
        Some(InstructionKind::Store)
    } else if is_word4(&low, 'j' as u8, 'u' as u8, 'm' as u8, 'p' as u8) {
        Some(InstructionKind::Jump)
    } else {
        None
    }
}

// --- the executable lexer ---

/// Copy of the bytes `[from, to)` of `s`.
fn copy_range(s: &[u8], from: usize, to: usize) -> (r: Vec<u8>)
    requires
        from <= to <= s@.len(),
    ensures
        r@ == s@.subrange(from as int, to as int),
{
    slice_to_vec(slice_subrange(s, from, to))
}

/// The token starting at position `i`, or the error the input produces
/// there.
fn lex_one_at(s: &[u8], i: usize) -> (r: Result<(Token, Span), Error<Span>>)
    requires
        i < s@.len(),
    ensures
        (match (r, lex_one(s@, i as nat)) {
            (Ok((t, sp)), Ok((tv, spv))) => t@ == tv && sp == spv,
            (Err(e), Err(ev)) => e == ev,
            _ => false,
        }),
{
    let n: usize = s.len();
    let c = s[i];
    if digit_check(c) {
        let j = scan_alnum_run(s, i);
        proof {
            lemma_scan_alnum(s@, i as nat);
        }
        match parse_int_range(s, i, j) {
            Some(v) => Ok((Token::Literal(v), Span { start: i, end: j })),
            None => Err(Error::MalformedInteger { token: Span { start: i, end: j } }),
        }
    } else if alpha_check(c) {
        let m = scan_label_run(s, i);
        proof {
            lemma_scan_label(s@, i as nat);
        }
        if m < n && s[m] == ':' as u8 {
            let name = copy_range(s, i, m);
            Ok((Token::Label(name), Span { start: i, end: m + 1 }))
        } else {
            let a = scan_alpha_run(s, i);
            let nn = scan_alnum_run(s, i);
            proof {
                lemma_scan_alpha(s@, i as nat);
                lemma_scan_alnum(s@, i as nat);
            }
            if nn > a {
                match parse_int_range(s, i, nn) {
                    Some(v) => Ok((Token::Literal(v), Span { start: i, end: nn })),
                    None => Err(Error::MalformedInteger { token: Span { start: i, end: nn } }),
                }
            } else {
                match opcode_lookup(s, i, a) {
                    Some(k) => Ok((Token::Instruction(k), Span { start: i, end: a })),
                    None => Err(Error::UnknownInstruction { token: Span { start: i, end: a } }),
                }
            }
        }
    } else if c == ':' as u8 {
        if i + 1 < n && alpha_check(s[i + 1]) {
            let m = scan_label_run(s, i + 1);
            proof {
                lemma_scan_label(s@, (i + 1) as nat);
            }
            let name = copy_range(s, i + 1, m);
            Ok((Token::JumpLabel(name), Span { start: i, end: m }))
        } else {
            Err(Error::InvalidToken { token: Span { start: i, end: i + 1 } })
        }
    } else if c == '[' as u8 {
        let j = scan_alnum_run(s, i + 1);
        proof {
            lemma_scan_alnum(s@, (i + 1) as nat);
        }
        if j > i + 1 && j < n && s[j] == ']' as u8 {
            match parse_int_range(s, i + 1, j) {
                Some(v) => Ok((Token::Address(v), Span { start: i, end: j + 1 })),
                None => Err(Error::MalformedInteger { token: Span { start: i, end: j + 1 } }),
            }
        } else {
            Err(Error::InvalidToken { token: Span { start: i, end: i + 1 } })
        }
    } else {
        Err(Error::InvalidToken { token: Span { start: i, end: i + 1 } })
    }
}

/// Tokenize a source string.
///
/// Returns the token sequence that [`lex_from`] specifies for the source
/// bytes, each token with its byte span, or the first error in source order.
pub fn tokenize(input: &str) -> (r: Result<Vec<(Token, Span)>, Error<Span>>)
    ensures
        input.spec_bytes().len() <= usize::MAX,
        (match (r, lex_from(input.spec_bytes(), 0)) {
            (Ok(v), Ok(tv)) => toks_view(v@) == tv,
            (Err(e), Err(ev)) => e == ev && e.spans_wf(input.spec_bytes().len()),
            _ => false,
        }),
{
    let s: &[u8] = input.as_bytes();
    let n: usize = s.len();
    let mut out: Vec<(Token, Span)> = Vec::new();
    let mut pos: usize = 0;
    proof {
        crate::util::lemma_seq_app_nil(lex_from(s@, 0));
        assert(toks_view(out@) =~= Seq::empty());
    }
    loop
        invariant
            pos <= n,
            n == s@.len(),
            s@ == input.spec_bytes(),
            lex_from(s@, 0) == crate::util::seq_app(toks_view(out@), lex_from(s@, pos as nat)),
        decreases n - pos,
    {
        let j = skip_trivia_run(s, pos);
        proof {
            lemma_skip_trivia(s@, pos as nat);
        }
        if j >= n {
            proof {
                assert(lex_from(s@, pos as nat) == Ok::<Seq<(TokenV, Span)>, Error<Span>>(
                    Seq::empty(),
                ));
                assert(toks_view(out@).add(Seq::empty()) =~= toks_view(out@));
            }
            return Ok(out);
        }
        proof {
            lemma_lex_one(s@, j as nat);
        }
        match lex_one_at(s, j) {
            Err(e) => {
                proof {
                    assert(lex_from(s@, pos as nat) == Err::<Seq<(TokenV, Span)>, Error<Span>>(e));
                }
                return Err(e);
            },
            Ok((t, sp)) => {
                let ghost prev = out@;
                let ghost x = (t@, sp);
                proof {
                    assert(lex_from(s@, pos as nat) == crate::util::seq_app(seq![x], lex_from(s@, sp.end as nat)));
                    crate::util::lemma_seq_app_push(toks_view(prev), x, lex_from(s@, sp.end as nat));
                }
                out.push((t, sp));
                proof {
                    assert(toks_view(out@) =~= toks_view(prev).push(x));
                }
                pos = sp.end;
            },
        }
    }
}

} // verus!
