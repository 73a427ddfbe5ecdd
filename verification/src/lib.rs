//! A Pratt parsing engine: a precedence loop, capability tokens, stream
//! utilities and a routing table, each with a contract that its code is
//! proved to meet.
//!
//! The grammar is declared in a [`Table`]: each entry ties a routing token to a
//! handler under one of eight formats (terminal, group, prefix, structural,
//! infix, postfix, juxt, implied). The engine ([`VprattCore`]) drives the
//! left-binding-power loop; handlers receive typed contexts whose capability
//! tokens ([`Rhs`], [`Subexpr`], [`Enclosed`], ...) re-enter the engine at the
//! correct binding power.

pub mod capabilities;
pub mod config;
pub mod context;
pub mod dsl;
pub mod engine;
pub mod plan;
pub mod error;
pub mod token;
pub mod token_impl;

use vstd::prelude::*;

pub use crate::capabilities::{Atom, Consumed, Enclosed, Resume, Rhs, Seed, Subexpr};
pub use crate::context::utils::CtxUtils;
pub use crate::context::{
    GroupCtx, ImpliedCtx, InfixCtx, JuxtCtx, PostfixCtx, PrefixCtx, StructuralCtx, TerminalCtx,
};
pub use crate::dsl::{validate, Assoc, Entry, LedCall, NudCall, Phase, Table, TableError};
pub use crate::engine::{Associativity, Precedence, VprattCore};
pub use crate::error::VprattError;
pub use crate::token::{Spanned, VprattToken};

verus! {

/// The result type of handlers and of the engine for a parser `P`.
pub type Result<P> = core::result::Result<<P as VprattCore>::Output, <P as VprattCore>::Error>;

} // verus!
