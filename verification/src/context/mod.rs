//! The contexts handed to handlers, one per table format. Each carries the
//! consumed token, the left operand where the format has one, and exactly the
//! capability tokens the format permits.

pub mod utils;

use core::marker::PhantomData;
use vstd::prelude::*;
use crate::capabilities::{Atom, Consumed, Enclosed, Resume, Rhs, Seed, Subexpr};
use crate::engine::VprattCore;

verus! {

/// Context of a `.terminal()` handler: a leaf value, nothing to recurse into.
pub struct TerminalCtx<'a, P: VprattCore> {
    pub consumed: Consumed<P::Item>,
    pub _marker: PhantomData<&'a ()>,
}

/// Context of a `.group()` handler: the opening delimiter and the capability
/// that parses the interior and consumes the closing delimiter.
pub struct GroupCtx<'a, P: VprattCore> {
    pub consumed: Consumed<P::Item>,
    pub enclosed: Enclosed<P>,
    pub _marker: PhantomData<&'a ()>,
}

/// Context of a `.structural()` handler: the keyword, a single-atom parser and
/// a fresh sub-expression parser.
pub struct StructuralCtx<'a, P: VprattCore> {
    pub consumed: Consumed<P::Item>,
    pub atom: Atom<P>,
    pub sub: Subexpr<P>,
    pub _marker: PhantomData<&'a ()>,
}

/// Context of a `.prefix()` handler: the operator and its operand parser.
pub struct PrefixCtx<'a, P: VprattCore> {
    pub consumed: Consumed<P::Item>,
    pub rhs: Rhs<P>,
    pub _marker: PhantomData<&'a ()>,
}

/// Context of an `.infix()` handler: the left operand, the operator and the
/// right operand parser.
pub struct InfixCtx<'a, P: VprattCore> {
    pub lhs: P::Output,
    pub consumed: Consumed<P::Item>,
    pub rhs: Rhs<P>,
    pub _marker: PhantomData<&'a ()>,
}

/// Context of a `.postfix()` handler: the operand and the operator.
pub struct PostfixCtx<'a, P: VprattCore> {
    pub lhs: P::Output,
    pub consumed: Consumed<P::Item>,
    pub _marker: PhantomData<&'a ()>,
}

/// Context of a `.juxt()` handler: the left operand, the opening delimiter,
/// the interior parser and the infix re-entry.
pub struct JuxtCtx<'a, P: VprattCore> {
    pub lhs: P::Output,
    pub consumed: Consumed<P::Item>,
    pub enclosed: Enclosed<P>,
    pub resume: Resume<P>,
    pub _marker: PhantomData<&'a ()>,
}

/// Context of an `.implied()` handler: the left operand, the adjacent token,
/// the prefix re-entry for it and the infix re-entry.
pub struct ImpliedCtx<'a, P: VprattCore> {
    pub lhs: P::Output,
    pub consumed: Consumed<P::Item>,
    pub seed: Seed<P>,
    pub resume: Resume<P>,
    pub _marker: PhantomData<&'a ()>,
}

} // verus!
