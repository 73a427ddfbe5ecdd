//! Traits a token type implements to describe itself to the engine.

use vstd::prelude::*;

verus! {

/// How the routing token is read off a stream item.
pub trait VprattToken {
    /// The stream item.
    type Item;
    /// The routing token used to navigate the table.
    type PrattToken: Copy + PartialEq;

    /// The routing token of `item`.
    fn extract(item: &Self::Item) -> Self::PrattToken;
}

/// Where an item sits in the source.
pub trait Spanned {
    /// The span type; convertible into a byte range.
    type Span: Copy + Into<core::ops::Range<usize>>;

    /// The span of this item.
    fn span(&self) -> Self::Span;
}

} // verus!
