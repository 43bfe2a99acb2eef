//! Label resolver: a two-pass transformation from symbolic statements to the
//! fully resolved program.
//!
//! Pass 1 walks the statement sequence once and builds a table from label
//! name to the index of the statement that declares it, failing on a repeated
//! name with the spans of both declarations.  Pass 2 rewrites every jump's
//! label name into the declaring statement's absolute index; a jump to a name
//! that is never declared is an undefined-label error.  The passes cannot be
//! fused: a jump may reference a label declared after it (a forward
//! reference), so pass 2 needs the complete table.
//!
//! [`resolve_spec`] is the resolver's specification; [`resolve`] is the
//! verified implementation.

use crate::error::{Error, Span};
use crate::parse::{copy_bytes, sym_view, SymInstruction, SymInstructionV, SymStatement, SymStatementV};
use crate::{Instruction, InstructionV, Statement, StatementV};
use vstd::prelude::*;

verus! {

/// The label a statement declares, if it is a label declaration.
pub open spec fn label_of(st: SymStatementV) -> Option<Seq<u8>> {
    match st {
        SymStatementV::Label(n) => Some(n),
        _ => None,
    }
}

/// Pass 1, from statement index `k` on, continuing the table `acc`: the
/// completed label table, mapping each label name to the index and span of
/// its declaration, or a duplicate-label error carrying the spans of the
/// first declaration and of the repeat.
pub open spec fn collect_from(
    sv: Seq<(SymStatementV, Span)>,
    k: nat,
    acc: Map<Seq<u8>, (int, Span)>,
) -> Result<Map<Seq<u8>, (int, Span)>, Error<Span>>
    decreases sv.len() - k,
{
    if k >= sv.len() {
        Ok(acc)
    } else {
        match label_of(sv[k as int].0) {
            Some(n) => {
                if acc.contains_key(n) {
                    Err(Error::DuplicateLabel { prev: acc[n].1, this: sv[k as int].1 })
                } else {
                    collect_from(sv, k + 1, acc.insert(n, (k as int, sv[k as int].1)))
                }
            },
            None => collect_from(sv, k + 1, acc),
        }
    }
}

/// The label table of a statement sequence, or the first duplicate-label
/// error.
pub open spec fn label_table(sv: Seq<(SymStatementV, Span)>) -> Result<
    Map<Seq<u8>, (int, Span)>,
    Error<Span>,
> {
    collect_from(sv, 0, Map::empty())
}

/// Pass 2 for one statement: everything passes through unchanged but a jump,
/// whose label name is replaced by the declaring statement's index from the
/// table; a name absent from the table is an undefined-label error at the
/// jump's span.
pub open spec fn resolve_stmt(p: (SymStatementV, Span), tbl: Map<Seq<u8>, (int, Span)>) -> Result<
    StatementV,
    Error<Span>,
> {
    match p.0 {
        SymStatementV::Label(n) => Ok(StatementV::Label(n)),
        SymStatementV::Literal(v) => Ok(StatementV::Literal(v)),
        SymStatementV::InstrLine(i) => match i {
            SymInstructionV::Load(a) => Ok(StatementV::InstrLine(InstructionV::Load(a))),
            SymInstructionV::And(a) => Ok(StatementV::InstrLine(InstructionV::And(a))),
            SymInstructionV::Xor(a) => Ok(StatementV::InstrLine(InstructionV::Xor(a))),
            SymInstructionV::Or(a) => Ok(StatementV::InstrLine(InstructionV::Or(a))),
            SymInstructionV::Add(a) => Ok(StatementV::InstrLine(InstructionV::Add(a))),
            SymInstructionV::Sub(a) => Ok(StatementV::InstrLine(InstructionV::Sub(a))),
            SymInstructionV::Store(a) => Ok(StatementV::InstrLine(InstructionV::Store(a))),
            SymInstructionV::Jump(n) => {
                if tbl.contains_key(n) {
                    Ok(StatementV::InstrLine(InstructionV::Jump(tbl[n].0)))
                } else {
                    Err(Error::UndefinedLabel { token: p.1 })
                }
            },
        },
    }
}

/// Pass 2, from statement index `k` on: the resolved statements, or the
/// first undefined-label error.
pub open spec fn resolve_from(
    sv: Seq<(SymStatementV, Span)>,
    k: nat,
    tbl: Map<Seq<u8>, (int, Span)>,
) -> Result<Seq<StatementV>, Error<Span>>
    decreases sv.len() - k,
{
    if k >= sv.len() {
        Ok(Seq::empty())
    } else {
        match resolve_stmt(sv[k as int], tbl) {
            Err(e) => Err(e),
            Ok(st) => match resolve_from(sv, k + 1, tbl) {
                Err(e) => Err(e),
                Ok(rest) => Ok(seq![st].add(rest)),
            },
        }
    }
}

/// The resolver's specification: the fully resolved statement sequence, or
/// the first error (a duplicate label from pass 1, or an undefined label
/// from pass 2).
pub open spec fn resolve_spec(sv: Seq<(SymStatementV, Span)>) -> Result<
    Seq<StatementV>,
    Error<Span>,
> {
    match label_table(sv) {
        Err(e) => Err(e),
        Ok(tbl) => resolve_from(sv, 0, tbl),
    }
}

// --- the executable label table ---

/// The map a table vector denotes: later entries win, though the resolver
/// only ever inserts fresh names.
pub open spec fn tbl_map(t: Seq<(Vec<u8>, usize, Span)>) -> Map<Seq<u8>, (int, Span)>
    decreases t.len(),
{
    if t.len() == 0 {
        Map::empty()
    } else {
        tbl_map(t.drop_last()).insert(t.last().0@, (t.last().1 as int, t.last().2))
    }
}

/// Byte-string equality.
fn bytes_eq(a: &Vec<u8>, b: &Vec<u8>) -> (r: bool)
    ensures
        r == (a@ == b@),
{
    if a.len() != b.len() {
        return false;
    }
    let n = a.len();
    let mut i: usize = 0;
    while i < n
        invariant
            i <= n,
            n == a@.len() == b@.len(),
            forall|q: int| 0 <= q < i ==> a@[q] == b@[q],
        decreases n - i,
    {
        if a[i] != b[i] {
            return false;
        }
        i += 1;
    }
    proof {
        assert(a@ =~= b@);
    }
    true
}

/// Look a name up in the table vector.
fn tbl_lookup(t: &Vec<(Vec<u8>, usize, Span)>, name: &Vec<u8>) -> (r: Option<(usize, Span)>)
    ensures
        (match r {
            Some((i, sp)) => tbl_map(t@).contains_key(name@) && tbl_map(t@)[name@] == (
                i as int,
                sp,
            ),
            None => !tbl_map(t@).contains_key(name@),
        }),
{
    let n = t.len();
    let mut j = n;
    proof {
        assert(t@.take(n as int) =~= t@);
    }
    while j > 0
        invariant
            j <= n,
            n == t@.len(),
            tbl_map(t@).contains_key(name@) == tbl_map(t@.take(j as int)).contains_key(name@),
            tbl_map(t@).contains_key(name@) ==> tbl_map(t@)[name@] == tbl_map(t@.take(j as int))[name@],
        decreases j,
    {
        let entry = &t[j - 1];
        proof {
            assert(t@.take(j as int).drop_last() =~= t@.take(j - 1));
            assert(t@.take(j as int).last() == t@[j - 1]);
        }
        if bytes_eq(&entry.0, name) {
            return Some((entry.1, entry.2));
        }
        j -= 1;
    }
    proof {
        assert(t@.take(0) =~= Seq::empty());
    }
    None
}

/// Pass 1: collect the label table, failing on a repeated name with the
/// spans of both declarations.
fn collect_labels(flat: &Vec<(SymStatement, Span)>) -> (r: Result<
    Vec<(Vec<u8>, usize, Span)>,
    Error<Span>,
>)
    ensures
        (match (r, label_table(sym_view(flat@))) {
            (Ok(t), Ok(m)) => tbl_map(t@) == m,
            (Err(e), Err(ev)) => e == ev,
            _ => false,
        }),
{
    let ghost sv = sym_view(flat@);
    let n = flat.len();
    let mut tbl: Vec<(Vec<u8>, usize, Span)> = Vec::new();
    let mut k: usize = 0;
    proof {
        assert(tbl_map(tbl@) =~= Map::<Seq<u8>, (int, Span)>::empty());
    }
    while k < n
        invariant
            k <= n,
            n == flat@.len(),
            sv == sym_view(flat@),
            collect_from(sv, 0, Map::empty()) == collect_from(sv, k as nat, tbl_map(tbl@)),
        decreases n - k,
    {
        let p = &flat[k];
        proof {
            assert(sv[k as int] == (p.0@, p.1));
        }
        match &p.0 {
            SymStatement::Label(name) => {
                match tbl_lookup(&tbl, name) {
                    Some((_, psp)) => {
                        return Err(Error::DuplicateLabel { prev: psp, this: p.1 });
                    },
                    None => {
                        let ghost prev = tbl@;
                        tbl.push((copy_bytes(name), k, p.1));
                        proof {
                            assert(tbl@.drop_last() =~= prev);
                            assert(tbl_map(tbl@) =~= tbl_map(prev).insert(
                                name@,
                                (k as int, p.1),
                            ));
                        }
                    },
                }
            },
            _ => {
                proof {
                    assert(label_of(sv[k as int].0) is None);
                }
            },
        }
        k += 1;
    }
    Ok(tbl)
}

/// Pass 2: rewrite every jump's label name into the declaring statement's
/// index from the table.
fn resolve_statements(flat: &Vec<(SymStatement, Span)>, tbl: &Vec<(Vec<u8>, usize, Span)>) -> (r:
    Result<Vec<Statement>, Error<Span>>)
    ensures
        (match (r, resolve_from(sym_view(flat@), 0, tbl_map(tbl@))) {
            (Ok(out), Ok(sv)) => crate::prog_view(out@) == sv,
            (Err(e), Err(ev)) => e == ev,
            _ => false,
        }),
{
    let ghost sv = sym_view(flat@);
    let ghost m = tbl_map(tbl@);
    let n = flat.len();
    let mut out: Vec<Statement> = Vec::new();
    let mut k: usize = 0;
    proof {
        crate::util::lemma_seq_app_nil(resolve_from(sv, 0, m));
        assert(crate::prog_view(out@) =~= Seq::empty());
    }
    while k < n
        invariant
            k <= n,
            n == flat@.len(),
            sv == sym_view(flat@),
            m == tbl_map(tbl@),
            resolve_from(sv, 0, m) == crate::util::seq_app(
                crate::prog_view(out@),
                resolve_from(sv, k as nat, m),
            ),
        decreases n - k,
    {
        let p = &flat[k];
        proof {
            assert(sv[k as int] == (p.0@, p.1));
        }
        let st: Statement = match &p.0 {
            SymStatement::Label(nm) => Statement::Label(copy_bytes(nm)),
            SymStatement::Literal(v) => Statement::Literal(*v),
            SymStatement::InstrLine(i) => match i {
                SymInstruction::Load(a) => Statement::InstrLine(Instruction::Load(*a)),
                SymInstruction::And(a) => Statement::InstrLine(Instruction::And(*a)),
                SymInstruction::Xor(a) => Statement::InstrLine(Instruction::Xor(*a)),
                SymInstruction::Or(a) => Statement::InstrLine(Instruction::Or(*a)),
                SymInstruction::Add(a) => Statement::InstrLine(Instruction::Add(*a)),
                SymInstruction::Sub(a) => Statement::InstrLine(Instruction::Sub(*a)),
                SymInstruction::Store(a) => Statement::InstrLine(Instruction::Store(*a)),
                SymInstruction::Jump(nm) => match tbl_lookup(tbl, nm) {
                    Some((idx, _)) => Statement::InstrLine(Instruction::Jump(idx)),
                    None => {
                        proof {
                            assert(resolve_stmt(sv[k as int], m) == Err::<StatementV, Error<Span>>(
                                Error::UndefinedLabel { token: p.1 },
                            ));
                        }
                        return Err(Error::UndefinedLabel { token: p.1 });
                    },
                },
            },
        };
        let ghost prev = out@;
        proof {
            assert(resolve_stmt(sv[k as int], m) == Ok::<StatementV, Error<Span>>(st@));
            assert(resolve_from(sv, k as nat, m) == crate::util::seq_app(
                seq![st@],
                resolve_from(sv, (k + 1) as nat, m),
            ));
            crate::util::lemma_seq_app_push(
                crate::prog_view(prev),
                st@,
                resolve_from(sv, (k + 1) as nat, m),
            );
        }
        out.push(st);
        proof {
            assert(crate::prog_view(out@) =~= crate::prog_view(prev).push(st@));
        }
        k += 1;
    }
    proof {
        assert(crate::prog_view(out@).add(Seq::empty()) =~= crate::prog_view(out@));
    }
    Ok(out)
}

/// Two-pass label resolution: build the label table, then rewrite every
/// symbolic jump target into the absolute index of its declaring statement.
///
/// The result is exactly what [`resolve_spec`] specifies: the resolved
/// statement sequence, a duplicate-label error with the spans of both
/// declarations, or an undefined-label error at the offending jump.
pub fn resolve(flat: &Vec<(SymStatement, Span)>) -> (r: Result<Vec<Statement>, Error<Span>>)
    ensures
        (match (r, resolve_spec(sym_view(flat@))) {
            (Ok(out), Ok(sv)) => crate::prog_view(out@) == sv,
            (Err(e), Err(ev)) => e == ev,
            _ => false,
        }),
{
    match collect_labels(flat) {
        Err(e) => Err(e),
        Ok(tbl) => resolve_statements(flat, &tbl),
    }
}

// --- what successful resolution means ---

/// What pass 1 guarantees of a completed label table, scanning from
/// statement index `k` with the table so far `acc`: every new entry points
/// at the first declaration of its name at or after `k`, carries that
/// declaration's span, no label at or after `k` was already in `acc`, and no
/// name is declared twice at or after `k`.
proof fn lemma_collect_from(sv: Seq<(SymStatementV, Span)>, k: nat, acc: Map<Seq<u8>, (int, Span)>)
    requires
        k <= sv.len(),
    ensures
        collect_from(sv, k, acc) matches Ok(m) ==> {
            &&& (forall|n: Seq<u8>| #[trigger] acc.contains_key(n) ==> m.contains_key(n) && m[n]
                == acc[n])
            &&& (forall|n: Seq<u8>|
                #[trigger] m.contains_key(n) && !acc.contains_key(n) ==> k <= m[n].0 < sv.len()
                    && label_of(sv[m[n].0].0) == Some(n) && m[n].1 == sv[m[n].0].1 && (forall|
                    j: int,
                |
                    k <= j < m[n].0 ==> label_of((#[trigger] sv[j]).0) != Some(n)))
            &&& (forall|j: int, n: Seq<u8>|
                k <= j < sv.len() && label_of((#[trigger] sv[j]).0) == Some(n) ==> !(
                #[trigger] acc.contains_key(n)))
            &&& (forall|i: int, j: int|
                k <= i < j < sv.len() && label_of((#[trigger] sv[i]).0) is Some ==> label_of(
                    sv[i].0,
                ) != label_of((#[trigger] sv[j]).0))
        },
    decreases sv.len() - k,
{
    if k < sv.len() {
        match label_of(sv[k as int].0) {
            Some(n0) => {
                if !acc.contains_key(n0) {
                    let acc2 = acc.insert(n0, (k as int, sv[k as int].1));
                    lemma_collect_from(sv, k + 1, acc2);
                    match collect_from(sv, k + 1, acc2) {
                        Ok(m) => {
                            assert forall|n: Seq<u8>| #[trigger]
                                acc.contains_key(n) implies m.contains_key(n) && m[n]
                                == acc[n] by {
                                assert(acc2.contains_key(n) && acc2[n] == acc[n]);
                            }
                            assert forall|j: int, n: Seq<u8>|
                                k <= j < sv.len() && label_of((#[trigger] sv[j]).0) == Some(
                                    n,
                                ) implies !(#[trigger] acc.contains_key(n)) by {
                                if j > k {
                                    assert(!acc2.contains_key(n));
                                }
                            }
                            assert forall|i: int, j: int|
                                k <= i < j < sv.len() && label_of(
                                    (#[trigger] sv[i]).0,
                                ) is Some implies label_of(sv[i].0) != label_of(
                                (#[trigger] sv[j]).0,
                            ) by {
                                if i == k && label_of(sv[j].0) == Some(n0) {
                                    assert(acc2.contains_key(n0));
                                }
                            }
                            assert forall|n: Seq<u8>|
                                #[trigger] m.contains_key(n) && !acc.contains_key(
                                    n,
                                ) implies k <= m[n].0 < sv.len() && label_of(sv[m[n].0].0) == Some(
                                n,
                            ) && m[n].1 == sv[m[n].0].1 && (forall|j: int|
                                k <= j < m[n].0 ==> label_of((#[trigger] sv[j]).0) != Some(n)) by {
                                if n == n0 {
                                    assert(acc2.contains_key(n0) && acc2[n0] == (
                                        k as int,
                                        sv[k as int].1,
                                    ));
                                } else {
                                    assert(!acc2.contains_key(n));
                                }
                            }
                        },
                        Err(_) => {},
                    }
                }
            },
            None => {
                lemma_collect_from(sv, k + 1, acc);
            },
        }
    }
}

/// What pass 2 guarantees: on success the resolved sequence is pointwise the
/// image of the symbolic one under [`resolve_stmt`].
proof fn lemma_resolve_from(
    sv: Seq<(SymStatementV, Span)>,
    k: nat,
    tbl: Map<Seq<u8>, (int, Span)>,
)
    requires
        k <= sv.len(),
    ensures
        resolve_from(sv, k, tbl) matches Ok(out) ==> {
            &&& out.len() == sv.len() - k
            &&& (forall|q: int|
                0 <= q < out.len() ==> resolve_stmt(sv[k + q], tbl) == Ok::<
                    StatementV,
                    Error<Span>,
                >(#[trigger] out[q]))
        },
    decreases sv.len() - k,
{
    if k < sv.len() {
        lemma_resolve_from(sv, k + 1, tbl);
    }
}

/// Every statement other than a jump passes through resolution unchanged.
pub open spec fn passes_through(sym: SymStatementV, res: StatementV) -> bool {
    match sym {
        SymStatementV::Label(n) => res == StatementV::Label(n),
        SymStatementV::Literal(v) => res == StatementV::Literal(v),
        SymStatementV::InstrLine(i) => match i {
            SymInstructionV::Load(a) => res == StatementV::InstrLine(InstructionV::Load(a)),
            SymInstructionV::And(a) => res == StatementV::InstrLine(InstructionV::And(a)),
            SymInstructionV::Xor(a) => res == StatementV::InstrLine(InstructionV::Xor(a)),
            SymInstructionV::Or(a) => res == StatementV::InstrLine(InstructionV::Or(a)),
            SymInstructionV::Add(a) => res == StatementV::InstrLine(InstructionV::Add(a)),
            SymInstructionV::Sub(a) => res == StatementV::InstrLine(InstructionV::Sub(a)),
            SymInstructionV::Store(a) => res == StatementV::InstrLine(InstructionV::Store(a)),
            SymInstructionV::Jump(_) => res matches StatementV::InstrLine(InstructionV::Jump(_)),
        },
    }
}

/// A jump at some index has been rewritten to the absolute, zero-based index
/// of the one statement of the sequence that declares its label.
pub open spec fn jump_target_resolved(
    sv: Seq<(SymStatementV, Span)>,
    sym: SymStatementV,
    res: StatementV,
) -> bool {
    match (sym, res) {
        (
            SymStatementV::InstrLine(SymInstructionV::Jump(n)),
            StatementV::InstrLine(InstructionV::Jump(t)),
        ) => {
            &&& 0 <= t < sv.len()
            &&& sv[t].0 == SymStatementV::Label(n)
            &&& (forall|j: int|
                0 <= j < sv.len() && (#[trigger] sv[j]).0 == SymStatementV::Label(n) ==> j == t)
        },
        _ => true,
    }
}

/// Law: a successful resolution keeps the statement count and order, passes
/// every statement through unchanged except jumps, and rewrites every jump's
/// label name to the index, counted from zero in declaration order, of the
/// unique statement that declares that label.  In particular a program with
/// only backward references resolves each jump to the index its label's
/// declaration already had, and a forward reference resolves to the index of
/// the later declaration.
pub proof fn lemma_resolution(sv: Seq<(SymStatementV, Span)>, out: Seq<StatementV>)
    requires
        resolve_spec(sv) == Ok::<Seq<StatementV>, Error<Span>>(out),
    ensures
        out.len() == sv.len(),
        forall|k: int|
            0 <= k < sv.len() ==> passes_through((#[trigger] sv[k]).0, out[k])
                && jump_target_resolved(sv, sv[k].0, out[k]),
{
    let m = match label_table(sv) {
        Ok(m) => m,
        Err(_) => arbitrary(),
    };
    lemma_collect_from(sv, 0, Map::empty());
    lemma_resolve_from(sv, 0, m);
    assert forall|k: int|
        0 <= k < sv.len() implies passes_through((#[trigger] sv[k]).0, out[k])
        && jump_target_resolved(sv, sv[k].0, out[k]) by {
        assert(resolve_stmt(sv[k], m) == Ok::<StatementV, Error<Span>>(out[k]));
        match sv[k].0 {
            SymStatementV::InstrLine(SymInstructionV::Jump(n)) => {
                assert(m.contains_key(n));
                let t = m[n].0;
                assert(out[k] == StatementV::InstrLine(InstructionV::Jump(t)));
                assert(0 <= t < sv.len() && label_of(sv[t].0) == Some(n));
                assert(sv[t].0 == SymStatementV::Label(n));
                assert forall|j: int|
                    0 <= j < sv.len() && (#[trigger] sv[j]).0 == SymStatementV::Label(
                        n,
                    ) implies j == t by {
                    if j < t {
                        assert(label_of(sv[j].0) != Some(n));
                    } else if j > t {
                        assert(label_of(sv[t].0) is Some);
                        assert(label_of(sv[t].0) != label_of(sv[j].0));
                    }
                }
            },
            _ => {},
        }
    }
}

/// With statement spans within the input, the spans of a pass-1 error lie
/// within the input: every span in the table is a statement span.
proof fn lemma_collect_from_spans(
    sv: Seq<(SymStatementV, Span)>,
    k: nat,
    acc: Map<Seq<u8>, (int, Span)>,
    len: nat,
)
    requires
        k <= sv.len(),
        forall|q: int| 0 <= q < sv.len() ==> (#[trigger] sv[q]).1.wf(len),
        forall|n: Seq<u8>| #[trigger] acc.contains_key(n) ==> acc[n].1.wf(len),
    ensures
        collect_from(sv, k, acc) matches Err(e) ==> e.spans_wf(len),
    decreases sv.len() - k,
{
    if k < sv.len() {
        match label_of(sv[k as int].0) {
            Some(n0) => {
                if !acc.contains_key(n0) {
                    let acc2 = acc.insert(n0, (k as int, sv[k as int].1));
                    assert forall|n: Seq<u8>| #[trigger] acc2.contains_key(n) implies acc2[n].1.wf(
                        len,
                    ) by {
                        if n != n0 {
                            assert(acc.contains_key(n));
                        }
                    }
                    lemma_collect_from_spans(sv, k + 1, acc2, len);
                }
            },
            None => {
                lemma_collect_from_spans(sv, k + 1, acc, len);
            },
        }
    }
}

/// With statement spans within the input, the span of a pass-2 error lies
/// within the input.
proof fn lemma_resolve_from_spans(
    sv: Seq<(SymStatementV, Span)>,
    k: nat,
    tbl: Map<Seq<u8>, (int, Span)>,
    len: nat,
)
    requires
        k <= sv.len(),
        forall|q: int| 0 <= q < sv.len() ==> (#[trigger] sv[q]).1.wf(len),
    ensures
        resolve_from(sv, k, tbl) matches Err(e) ==> e.spans_wf(len),
    decreases sv.len() - k,
{
    if k < sv.len() {
        lemma_resolve_from_spans(sv, k + 1, tbl, len);
    }
}

/// With statement spans within the input, the spans of a resolution error
/// lie within the input.
pub proof fn lemma_resolve_spec_spans(sv: Seq<(SymStatementV, Span)>, len: nat)
    requires
        forall|q: int| 0 <= q < sv.len() ==> (#[trigger] sv[q]).1.wf(len),
    ensures
        resolve_spec(sv) matches Err(e) ==> e.spans_wf(len),
{
    lemma_collect_from_spans(sv, 0, Map::empty(), len);
    match label_table(sv) {
        Ok(tbl) => {
            lemma_resolve_from_spans(sv, 0, tbl, len);
        },
        Err(_) => {},
    }
}

/// A successfully resolved sequence satisfies the program invariant: every
/// jump targets a statement of the sequence.
pub proof fn lemma_resolution_wf(sv: Seq<(SymStatementV, Span)>, out: Seq<StatementV>)
    requires
        resolve_spec(sv) == Ok::<Seq<StatementV>, Error<Span>>(out),
    ensures
        crate::program_wf(out),
{
    lemma_resolution(sv, out);
    assert forall|k: int|
        0 <= k < out.len() implies ((#[trigger] out[k]) matches StatementV::InstrLine(
        InstructionV::Jump(t),
    ) ==> 0 <= t < out.len()) by {
        assert(passes_through(sv[k].0, out[k]) && jump_target_resolved(sv, sv[k].0, out[k]));
        match out[k] {
            StatementV::InstrLine(InstructionV::Jump(t)) => {
                match sv[k].0 {
                    SymStatementV::InstrLine(SymInstructionV::Jump(n)) => {},
                    _ => {
                        assert(false);
                    },
                }
            },
            _ => {},
        }
    }
}

} // verus!
