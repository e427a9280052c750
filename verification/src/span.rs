//! Source positions, and values that carry one.

use vstd::prelude::*;

verus! {

/// A stretch of source text, from byte `lo` up to byte `hi`.
#[derive(Clone, Copy, PartialEq, Eq, Structural, Debug, Hash)]
pub struct Span {
    pub lo: u32,
    pub hi: u32,
}

/// The span of what was written nowhere.
#[verifier::allow_in_spec]
pub fn dummy_sp() -> Span
    returns
        (Span { lo: 0, hi: 0 }),
{
    Span { lo: 0, hi: 0 }
}

/// A value together with the place in the source that asked for it.
#[derive(Clone, Copy, PartialEq, Eq, Structural, Debug, Hash)]
pub struct Spanned<T> {
    pub node: T,
    pub span: Span,
}

/// Puts `node` at `span`.
pub fn respan<T>(span: Span, node: T) -> (res: Spanned<T>)
    ensures
        res == (Spanned { node, span }),
{
    Spanned { node, span }
}

/// Puts `node` at [`dummy_sp`].
pub fn dummy_spanned<T>(node: T) -> (res: Spanned<T>)
    ensures
        res == (Spanned { node, span: dummy_sp() }),
{
    respan(dummy_sp(), node)
}

} // verus!
