//! The routing plan of a generated engine impl: the arms of its binding-power
//! match, of its prefix dispatch and of its infix dispatch, one per table
//! entry with that role, in declaration order, each with the binding power,
//! delimiter and re-entry power its format gives the handler's context.
//!
//! The first arm of a token's kind decides, as in a `match`; a token with no
//! prefix arm is an `UnexpectedToken`, and one with no binding-power arm has
//! binding power 0. That is exactly how the table routes.

use vstd::prelude::*;
use crate::dsl::{Entry, Table, first_route, led_key, led_power, rbp_for, right_bp, table_lbp};
use crate::engine::{Associativity, Precedence, VprattCore, same_route};

verus! {

/// An arm of the prefix dispatch: the token (or opening delimiter) it
/// matches, the handler, and what its context is built with.
#[derive(Debug, Clone, Copy, PartialEq)]
pub enum NudArm<K, H> {
    /// A leaf: the handler gets the consumed token.
    Terminal { token: K, handler: H },
    /// A group: the interior is closed by `close`.
    Group { open: K, close: K, handler: H },
    /// A keyword construct: the handler gets an atom and a sub-expression parser.
    Keyword { token: K, handler: H },
    /// A prefix operator: its operand is parsed at `rbp`.
    Prefix { token: K, handler: H, rbp: Precedence },
}

/// An arm of the infix dispatch: the token (or opening delimiter) it
/// matches, the handler, and what its context is built with.
#[derive(Debug, Clone, Copy, PartialEq)]
pub enum LedArm<K, H> {
    /// A binary operator: its right operand is parsed at `rbp`.
    Infix { token: K, handler: H, rbp: Precedence },
    /// A postfix operator.
    Postfix { token: K, handler: H },
    /// Juxtaposition with a group closed by `close`, resuming at `resume`.
    Juxt { open: K, close: K, handler: H, resume: Precedence },
    /// Juxtaposition with a token, resuming at `resume`.
    Implied { token: K, handler: H, resume: Precedence },
}

/// The prefix arm an entry gives, if it has a prefix role.
pub open spec fn nud_arm_of<K, H>(e: Entry<K, H>) -> Option<NudArm<K, H>> {
    match e {
        Entry::Terminal { token, handler } => Some(NudArm::Terminal { token, handler }),
        Entry::Group { open, close, handler } => Some(NudArm::Group { open, close, handler }),
        Entry::Keyword { token, handler } => Some(NudArm::Keyword { token, handler }),
        Entry::Prefix { bp, token, handler } => Some(NudArm::Prefix { token, handler, rbp: bp }),
        _ => None,
    }
}

/// The infix arm an entry gives, if it has an infix role: infix and implied
/// operands at the entry's right binding power, a juxtaposed group resuming
/// at the entry's level.
pub open spec fn led_arm_of<K, H>(e: Entry<K, H>) -> Option<LedArm<K, H>> {
    match e {
        Entry::Infix { bp, assoc, token, handler } => Some(
            LedArm::Infix { token, handler, rbp: right_bp(bp, assoc) },
        ),
        Entry::Postfix { token, handler, .. } => Some(LedArm::Postfix { token, handler }),
        Entry::Juxt { bp, open, close, handler } => Some(
            LedArm::Juxt { open, close, handler, resume: bp },
        ),
        Entry::Implied { bp, assoc, token, handler } => Some(
            LedArm::Implied { token, handler, resume: right_bp(bp, assoc) },
        ),
        _ => None,
    }
}

/// The binding-power arm an entry gives, if it has an infix role: its token
/// and level.
pub open spec fn lbp_arm_of<K, H>(e: Entry<K, H>) -> Option<(K, Precedence)> {
    match led_key(e) {
        Some(k) => Some((k, led_power(e))),
        None => None,
    }
}

/// The token a prefix arm matches.
pub open spec fn nud_arm_key<K, H>(a: NudArm<K, H>) -> K {
    match a {
        NudArm::Terminal { token, .. } => token,
        NudArm::Group { open, .. } => open,
        NudArm::Keyword { token, .. } => token,
        NudArm::Prefix { token, .. } => token,
    }
}

/// The token an infix arm matches.
pub open spec fn led_arm_key<K, H>(a: LedArm<K, H>) -> K {
    match a {
        LedArm::Infix { token, .. } => token,
        LedArm::Postfix { token, .. } => token,
        LedArm::Juxt { open, .. } => open,
        LedArm::Implied { token, .. } => token,
    }
}

/// The prefix arms of the entries, in order.
pub open spec fn nud_plan<K, H>(entries: Seq<Entry<K, H>>) -> Seq<NudArm<K, H>>
    decreases entries.len(),
{
    if entries.len() == 0 {
        Seq::empty()
    } else {
        match nud_arm_of(entries[0]) {
            Some(a) => seq![a] + nud_plan(entries.drop_first()),
            None => nud_plan(entries.drop_first()),
        }
    }
}

/// The infix arms of the entries, in order.
pub open spec fn led_plan<K, H>(entries: Seq<Entry<K, H>>) -> Seq<LedArm<K, H>>
    decreases entries.len(),
{
    if entries.len() == 0 {
        Seq::empty()
    } else {
        match led_arm_of(entries[0]) {
            Some(a) => seq![a] + led_plan(entries.drop_first()),
            None => led_plan(entries.drop_first()),
        }
    }
}

/// The binding-power arms of the entries, in order.
pub open spec fn lbp_plan<K, H>(entries: Seq<Entry<K, H>>) -> Seq<(K, Precedence)>
    decreases entries.len(),
{
    if entries.len() == 0 {
        Seq::empty()
    } else {
        match lbp_arm_of(entries[0]) {
            Some(a) => seq![a] + lbp_plan(entries.drop_first()),
            None => lbp_plan(entries.drop_first()),
        }
    }
}

/// The prefix arm a token of the kind of `key` takes: the first that matches its kind.
pub open spec fn pick_nud<P: VprattCore, H>(arms: Seq<NudArm<P::PrattToken, H>>, key: P::PrattToken) -> Option<
    NudArm<P::PrattToken, H>,
>
    decreases arms.len(),
{
    if arms.len() == 0 {
        None
    } else if same_route::<P>(nud_arm_key(arms[0]), key) {
        Some(arms[0])
    } else {
        pick_nud::<P, H>(arms.drop_first(), key)
    }
}

/// The infix arm a token of the kind of `key` takes: the first that matches its kind.
pub open spec fn pick_led<P: VprattCore, H>(arms: Seq<LedArm<P::PrattToken, H>>, key: P::PrattToken) -> Option<
    LedArm<P::PrattToken, H>,
>
    decreases arms.len(),
{
    if arms.len() == 0 {
        None
    } else if same_route::<P>(led_arm_key(arms[0]), key) {
        Some(arms[0])
    } else {
        pick_led::<P, H>(arms.drop_first(), key)
    }
}

/// The binding power the binding-power arms give a token of the kind of
/// `key`: that of the first arm of its kind, or 0 (the catch-all arm).
pub open spec fn pick_lbp<P: VprattCore>(arms: Seq<(P::PrattToken, Precedence)>, key: P::PrattToken) -> Precedence
    decreases arms.len(),
{
    if arms.len() == 0 {
        0
    } else if same_route::<P>(arms[0].0, key) {
        arms[0].1
    } else {
        pick_lbp::<P>(arms.drop_first(), key)
    }
}

/// The plan routes as the table does: a token takes the prefix arm, the
/// infix arm and the binding power of the table's first route of its kind
/// in each phase; with no prefix route it has no prefix arm (the dispatch
/// answers `UnexpectedToken`), with no infix route it has binding power 0
/// and no infix arm; and every token with a positive binding power has an
/// infix arm.
pub proof fn lemma_plan_routes_as_table<P: VprattCore, H>(
    entries: Seq<Entry<P::PrattToken, H>>,
    key: P::PrattToken,
)
    ensures
        pick_nud::<P, H>(nud_plan(entries), key) == (match first_route::<P, H>(entries, key, false) {
            Some(e) => nud_arm_of(e),
            None => None,
        }),
        pick_led::<P, H>(led_plan(entries), key) == (match first_route::<P, H>(entries, key, true) {
            Some(e) => led_arm_of(e),
            None => None,
        }),
        pick_lbp::<P>(lbp_plan(entries), key) == table_lbp::<P, H>(entries, key),
        pick_lbp::<P>(lbp_plan(entries), key) > 0 ==> pick_led::<P, H>(led_plan(entries), key) is Some,
    decreases entries.len(),
{
    if entries.len() > 0 {
        let e = entries[0];
        let rest = entries.drop_first();
        lemma_plan_routes_as_table::<P, H>(rest, key);
        match nud_arm_of(e) {
            Some(a) => {
                let s = seq![a] + nud_plan(rest);
                assert(s[0] == a);
                assert(s.drop_first() =~= nud_plan(rest));
            },
            None => {},
        }
        match led_arm_of(e) {
            Some(a) => {
                let s = seq![a] + led_plan(rest);
                assert(s[0] == a);
                assert(s.drop_first() =~= led_plan(rest));
            },
            None => {},
        }
        match lbp_arm_of(e) {
            Some(a) => {
                let s = seq![a] + lbp_plan(rest);
                assert(s[0] == a);
                assert(s.drop_first() =~= lbp_plan(rest));
            },
            None => {},
        }
    }
}

/// What an infix arm's continuation means. For an infix or implied entry of
/// level `bp > 0`, the power its arm continues at (the infix operand's `rbp`,
/// the implied re-entry's `resume`) lets a following operator of level
/// `next` bind inside exactly when `next > bp` for a left-associative entry
/// (so `f a b` is `(f a) b`) and when `next >= bp` for a right-associative
/// one (so `a ^ b ^ c` is `a ^ (b ^ c)`). A juxtaposed group resumes at its
/// level, and a postfix arm continues nothing; entries with no infix role
/// give no arm.
pub proof fn lemma_led_arm_associativity<K, H>(e: Entry<K, H>, next: Precedence)
    ensures
        e matches Entry::Infix { bp, assoc, token, handler } ==> led_arm_of(e) matches Some(
            LedArm::Infix { token: t, handler: h, rbp },
        ) && t == token && h == handler && (bp > 0 ==> (assoc == Associativity::Left ==> (next > rbp
            <==> next > bp)) && (assoc == Associativity::Right ==> (next > rbp <==> next >= bp))),
        e matches Entry::Implied { bp, assoc, token, handler } ==> led_arm_of(e) matches Some(
            LedArm::Implied { token: t, handler: h, resume },
        ) && t == token && h == handler && (bp > 0 ==> (assoc == Associativity::Left ==> (next
            > resume <==> next > bp)) && (assoc == Associativity::Right ==> (next > resume <==> next
            >= bp))),
        e matches Entry::Juxt { bp, open, close, handler } ==> led_arm_of(e) == Some(
            LedArm::Juxt { open, close, handler, resume: bp },
        ),
        e matches Entry::Postfix { token, handler, .. } ==> led_arm_of(e) == Some(
            LedArm::Postfix { token, handler },
        ),
        led_key(e) is None <==> led_arm_of(e) is None,
{
}

/// What prefix and binding-power arms carry: a prefix operator's operand is
/// parsed at the operator's level; a group closes at its closing delimiter;
/// terminals and keyword constructs pass their handler on. Every entry with
/// an infix role gives a binding-power arm for its token (a juxtaposed
/// group's for its opening delimiter) at its level, and only such entries do.
pub proof fn lemma_nud_and_lbp_arms<K, H>(e: Entry<K, H>)
    ensures
        e matches Entry::Prefix { bp, token, handler } ==> nud_arm_of(e) == Some(
            NudArm::Prefix { token, handler, rbp: bp },
        ),
        e matches Entry::Group { open, close, handler } ==> nud_arm_of(e) == Some(
            NudArm::Group { open, close, handler },
        ),
        e matches Entry::Terminal { token, handler } ==> nud_arm_of(e) == Some(
            NudArm::Terminal { token, handler },
        ),
        e matches Entry::Keyword { token, handler } ==> nud_arm_of(e) == Some(
            NudArm::Keyword { token, handler },
        ),
        (e is Infix || e is Postfix || e is Juxt || e is Implied) <==> nud_arm_of(e) is None,
        e matches Entry::Infix { bp, token, .. } ==> lbp_arm_of(e) == Some((token, bp)),
        e matches Entry::Postfix { bp, token, .. } ==> lbp_arm_of(e) == Some((token, bp)),
        e matches Entry::Juxt { bp, open, .. } ==> lbp_arm_of(e) == Some((open, bp)),
        e matches Entry::Implied { bp, token, .. } ==> lbp_arm_of(e) == Some((token, bp)),
        (e is Terminal || e is Group || e is Keyword || e is Prefix) <==> lbp_arm_of(e) is None,
{
}

/// The prefix arm of an entry.
fn nud_arm<K: Copy, H: Copy>(e: &Entry<K, H>) -> (r: Option<NudArm<K, H>>)
    ensures
        r == nud_arm_of(*e),
{
    match e {
        Entry::Terminal { token, handler } => Some(NudArm::Terminal { token: *token, handler: *handler }),
        Entry::Group { open, close, handler } => Some(
            NudArm::Group { open: *open, close: *close, handler: *handler },
        ),
        Entry::Keyword { token, handler } => Some(NudArm::Keyword { token: *token, handler: *handler }),
        Entry::Prefix { bp, token, handler } => Some(
            NudArm::Prefix { token: *token, handler: *handler, rbp: *bp },
        ),
        _ => None,
    }
}

/// The infix arm of an entry.
fn led_arm<K: Copy, H: Copy>(e: &Entry<K, H>) -> (r: Option<LedArm<K, H>>)
    ensures
        r == led_arm_of(*e),
{
    match e {
        Entry::Infix { bp, assoc, token, handler } => Some(
            LedArm::Infix { token: *token, handler: *handler, rbp: rbp_for(*bp, *assoc) },
        ),
        Entry::Postfix { token, handler, .. } => Some(LedArm::Postfix { token: *token, handler: *handler }),
        Entry::Juxt { bp, open, close, handler } => Some(
            LedArm::Juxt { open: *open, close: *close, handler: *handler, resume: *bp },
        ),
        Entry::Implied { bp, assoc, token, handler } => Some(
            LedArm::Implied { token: *token, handler: *handler, resume: rbp_for(*bp, *assoc) },
        ),
        _ => None,
    }
}

/// The binding-power arm of an entry.
fn lbp_arm<K: Copy, H: Copy>(e: &Entry<K, H>) -> (r: Option<(K, Precedence)>)
    ensures
        r == lbp_arm_of(*e),
{
    match e {
        Entry::Infix { bp, token, .. } => Some((*token, *bp)),
        Entry::Postfix { bp, token, .. } => Some((*token, *bp)),
        Entry::Juxt { bp, open, .. } => Some((*open, *bp)),
        Entry::Implied { bp, token, .. } => Some((*token, *bp)),
        _ => None,
    }
}

/// The three arm lists of a table: prefix, infix and binding power.
pub fn plan_of<P: VprattCore, H: Copy>(table: &Table<P, H>) -> (r: (
    Vec<NudArm<P::PrattToken, H>>,
    Vec<LedArm<P::PrattToken, H>>,
    Vec<(P::PrattToken, Precedence)>,
))
    ensures
        r.0@ == nud_plan(table@),
        r.1@ == led_plan(table@),
        r.2@ == lbp_plan(table@),
{
    let entries = table.entries();
    let n = entries.len();
    let mut nud: Vec<NudArm<P::PrattToken, H>> = Vec::new();
    let mut led: Vec<LedArm<P::PrattToken, H>> = Vec::new();
    let mut lbp: Vec<(P::PrattToken, Precedence)> = Vec::new();
    let mut i: usize = 0;
    proof {
        assert(entries@.skip(0) =~= entries@);
        assert(nud@ + nud_plan(entries@) =~= nud_plan(entries@));
        assert(led@ + led_plan(entries@) =~= led_plan(entries@));
        assert(lbp@ + lbp_plan(entries@) =~= lbp_plan(entries@));
    }
    while i < n
        invariant
            n == entries@.len(),
            entries@ == table@,
            i <= n,
            nud@ + nud_plan(entries@.skip(i as int)) == nud_plan(entries@),
            led@ + led_plan(entries@.skip(i as int)) == led_plan(entries@),
            lbp@ + lbp_plan(entries@.skip(i as int)) == lbp_plan(entries@),
        decreases n - i,
    {
        let ghost rest = entries@.skip(i as int);
        proof {
            assert(rest[0] == entries@[i as int]);
            assert(rest.drop_first() =~= entries@.skip(i + 1));
        }
        let e = &entries[i];
        let ghost nud0 = nud@;
        let ghost led0 = led@;
        let ghost lbp0 = lbp@;
        match nud_arm(e) {
            Some(a) => {
                nud.push(a);
                assert(nud0 + (seq![a] + nud_plan(rest.drop_first())) =~= nud@ + nud_plan(rest.drop_first()));
            },
            None => {},
        }
        match led_arm(e) {
            Some(a) => {
                led.push(a);
                assert(led0 + (seq![a] + led_plan(rest.drop_first())) =~= led@ + led_plan(rest.drop_first()));
            },
            None => {},
        }
        match lbp_arm(e) {
            Some(a) => {
                lbp.push(a);
                assert(lbp0 + (seq![a] + lbp_plan(rest.drop_first())) =~= lbp@ + lbp_plan(rest.drop_first()));
            },
            None => {},
        }
        i = i + 1;
    }
    proof {
        assert(entries@.skip(n as int) =~= Seq::<Entry<P::PrattToken, H>>::empty());
        assert(nud@ + Seq::<NudArm<P::PrattToken, H>>::empty() =~= nud@);
        assert(led@ + Seq::<LedArm<P::PrattToken, H>>::empty() =~= led@);
        assert(lbp@ + Seq::<(P::PrattToken, Precedence)>::empty() =~= lbp@);
    }
    (nud, led, lbp)
}

} // verus!
