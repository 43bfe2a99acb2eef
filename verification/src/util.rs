//! Small sequence helpers shared by the pipeline stages.
//!
//! Each stage's specification is a recursive function producing either the
//! remaining items or the first error; the verified loops that implement the
//! stages maintain "everything produced so far, prefixed onto what the
//! specification says about the rest" as their invariant.  [`seq_app`] is
//! that prefixing.

use crate::error::{Error, Span};
use vstd::prelude::*;

verus! {

/// Prefix an item list onto a stage outcome: an error passes through.
pub open spec fn seq_app<T>(pre: Seq<T>, r: Result<Seq<T>, Error<Span>>) -> Result<
    Seq<T>,
    Error<Span>,
> {
    match r {
        Ok(rest) => Ok(pre.add(rest)),
        Err(e) => Err(e),
    }
}

/// Prefixing the empty list changes nothing.
pub proof fn lemma_seq_app_nil<T>(r: Result<Seq<T>, Error<Span>>)
    ensures
        seq_app(Seq::empty(), r) == r,
{
    match r {
        Ok(v) => {
            assert(Seq::empty().add(v) =~= v);
        },
        Err(_) => {},
    }
}

/// Prefixing one item, then a list, is prefixing the list with the item
/// pushed on.
pub proof fn lemma_seq_app_push<T>(pre: Seq<T>, x: T, r: Result<Seq<T>, Error<Span>>)
    ensures
        seq_app(pre, seq_app(seq![x], r)) == seq_app(pre.push(x), r),
{
    match r {
        Ok(v) => {
            assert(pre.add(seq![x].add(v)) =~= pre.push(x).add(v));
        },
        Err(_) => {},
    }
}

} // verus!
