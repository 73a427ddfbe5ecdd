//! The grammar table: every terminal, operator and keyword construct, with
//! its format, binding power, associativity and handler, declared in one
//! place. The table routes routing tokens to handlers for the prefix (NUD)
//! and infix (LED) phases, gives each token its left binding power, and
//! checks itself for associativity clashes and duplicate routes.

use vstd::prelude::*;
use crate::capabilities::{Atom, Consumed, Enclosed, Resume, Rhs, Seed, Subexpr};
use crate::context::{
    GroupCtx, ImpliedCtx, InfixCtx, JuxtCtx, PostfixCtx, PrefixCtx, StructuralCtx, TerminalCtx,
};
use crate::engine::{Associativity, Precedence, VprattCore, pratt_run, same_kind, same_route};
use crate::error::VprattError;
use core::marker::PhantomData;

verus! {

/// One declaration of the table: a routing token (or delimiter pair) in one
/// format, with its binding power, associativity and handler where the
/// format has them.
#[derive(Debug, Clone, Copy)]
pub enum Entry<K, H> {
    Terminal { token: K, handler: H },
    Group { open: K, close: K, handler: H },
    /// A `.structural()` keyword construct.
    Keyword { token: K, handler: H },
    Prefix { bp: Precedence, token: K, handler: H },
    Infix { bp: Precedence, assoc: Associativity, token: K, handler: H },
    Postfix { bp: Precedence, token: K, handler: H },
    Juxt { bp: Precedence, open: K, close: K, handler: H },
    Implied { bp: Precedence, assoc: Associativity, token: K, handler: H },
}

/// The associativity an infix or implied entry declares.
pub type Assoc = Associativity;

/// The token that routes an entry in prefix position, if it has a prefix role.
pub open spec fn nud_key<K, H>(e: Entry<K, H>) -> Option<K> {
    match e {
        Entry::Terminal { token, .. } => Some(token),
        Entry::Group { open, .. } => Some(open),
        Entry::Keyword { token, .. } => Some(token),
        Entry::Prefix { token, .. } => Some(token),
        _ => None,
    }
}

/// The token that routes an entry in infix position, if it has an infix role.
pub open spec fn led_key<K, H>(e: Entry<K, H>) -> Option<K> {
    match e {
        Entry::Infix { token, .. } => Some(token),
        Entry::Postfix { token, .. } => Some(token),
        Entry::Juxt { open, .. } => Some(open),
        Entry::Implied { token, .. } => Some(token),
        _ => None,
    }
}

/// The routing key of an entry in the given phase (`led` for the infix phase).
pub open spec fn phase_key<K, H>(e: Entry<K, H>, led: bool) -> Option<K> {
    if led {
        led_key(e)
    } else {
        nud_key(e)
    }
}

/// The binding power of an entry with an infix role (0 otherwise).
pub open spec fn led_power<K, H>(e: Entry<K, H>) -> Precedence {
    match e {
        Entry::Infix { bp, .. } => bp,
        Entry::Postfix { bp, .. } => bp,
        Entry::Juxt { bp, .. } => bp,
        Entry::Implied { bp, .. } => bp,
        _ => 0,
    }
}

/// The precedence level and associativity an entry declares (infix and implied entries).
pub open spec fn level_of<K, H>(e: Entry<K, H>) -> Option<(Precedence, Associativity)> {
    match e {
        Entry::Infix { bp, assoc, .. } => Some((bp, assoc)),
        Entry::Implied { bp, assoc, .. } => Some((bp, assoc)),
        _ => None,
    }
}

/// Entry `e` is routed, in the given phase, by tokens of the kind of `key`
/// (the payload of the token written in the entry is a placeholder).
pub open spec fn routes<P: VprattCore, H>(e: Entry<P::PrattToken, H>, key: P::PrattToken, led: bool) -> bool {
    phase_key(e, led) matches Some(k) && same_route::<P>(k, key)
}

/// The first entry of `entries` routed by the kind of `key` in the given phase.
pub open spec fn first_route<P: VprattCore, H>(
    entries: Seq<Entry<P::PrattToken, H>>,
    key: P::PrattToken,
    led: bool,
) -> Option<Entry<P::PrattToken, H>>
    decreases entries.len(),
{
    if entries.len() == 0 {
        None
    } else if routes::<P, H>(entries[0], key, led) {
        Some(entries[0])
    } else {
        first_route::<P, H>(entries.drop_first(), key, led)
    }
}

/// The route found for `key` is an entry routed by the kind of `key` in that phase.
proof fn lemma_first_route_key<P: VprattCore, H>(
    entries: Seq<Entry<P::PrattToken, H>>,
    key: P::PrattToken,
    led: bool,
)
    ensures
        first_route::<P, H>(entries, key, led) matches Some(e) ==> routes::<P, H>(e, key, led),
    decreases entries.len(),
{
    if entries.len() > 0 && !routes::<P, H>(entries[0], key, led) {
        lemma_first_route_key::<P, H>(entries.drop_first(), key, led);
    }
}

/// The left binding power the table gives `key`: that of the first infix
/// route of its kind, or 0 when it has none.
pub open spec fn table_lbp<P: VprattCore, H>(entries: Seq<Entry<P::PrattToken, H>>, key: P::PrattToken) -> Precedence {
    match first_route::<P, H>(entries, key, true) {
        Some(e) => led_power(e),
        None => 0,
    }
}

/// A token the table gives a positive binding power has an infix route, so
/// the infix dispatch is only ever asked for tokens the table routes.
pub proof fn lemma_binding_token_is_routed<P: VprattCore, H>(
    entries: Seq<Entry<P::PrattToken, H>>,
    key: P::PrattToken,
)
    requires
        table_lbp::<P, H>(entries, key) > 0,
    ensures
        first_route::<P, H>(entries, key, true) is Some,
        led_power(first_route::<P, H>(entries, key, true)->0) == table_lbp::<P, H>(entries, key),
{
}

/// The binding power at which the right operand of an operator of level
/// `bp` is parsed: `bp` itself when left-associative, one less when
/// right-associative, so that another operator of the same level binds
/// inside the right operand (level 0, which never binds, stays 0).
pub open spec fn right_bp(bp: Precedence, assoc: Associativity) -> Precedence {
    match assoc {
        Associativity::Left => bp,
        Associativity::Right => if bp == 0 {
            0
        } else {
            (bp - 1) as Precedence
        },
    }
}

/// Associativity decides who wins between two operators of one level: a
/// left-associative right operand stops before another operator of its
/// level, a right-associative one takes it in; an operator of a higher level
/// is always taken in, and one of a lower level never is.
pub proof fn lemma_associativity(bp: Precedence, assoc: Associativity, next: Precedence)
    requires
        bp > 0,
    ensures
        assoc == Associativity::Left ==> (next > right_bp(bp, assoc) <==> next > bp),
        assoc == Associativity::Right ==> (next > right_bp(bp, assoc) <==> next >= bp),
{
}

/// The associativity of the first entry of `entries` that declares level `bp`.
pub open spec fn first_level<K, H>(entries: Seq<Entry<K, H>>, bp: Precedence) -> Option<Associativity>
    decreases entries.len(),
{
    if entries.len() == 0 {
        None
    } else {
        match level_of(entries[0]) {
            Some((b, a)) => if b == bp {
                Some(a)
            } else {
                first_level(entries.drop_first(), bp)
            },
            None => first_level(entries.drop_first(), bp),
        }
    }
}

/// Which routing phase a duplicate was found in.
#[derive(Debug, Clone, Copy, PartialEq, Eq, Structural)]
pub enum Phase {
    /// Terminal, group, structural and prefix entries.
    Prefix,
    /// Infix, postfix, juxt and implied entries.
    Infix,
}

/// Why a table is not a sound grammar.
#[derive(Debug, Clone, Copy, PartialEq)]
pub enum TableError<K> {
    /// Entry `index` declares level `bp` with the associativity opposite to
    /// `existing`, the one an earlier entry gave that level.
    AssociativityConflict { index: usize, bp: Precedence, existing: Associativity },
    /// Entry `index` routes `token`'s kind in a phase where an earlier entry already does.
    DuplicateRouting { index: usize, phase: Phase, token: K },
}

/// The problem entry `i` has given the entries before it, if any: first an
/// associativity clash, then a duplicate route in its phase.
pub open spec fn entry_problem<P: VprattCore, H>(
    entries: Seq<Entry<P::PrattToken, H>>,
    i: int,
) -> Option<TableError<P::PrattToken>> {
    let e = entries[i];
    let before = entries.take(i);
    match level_of(e) {
        Some((bp, assoc)) if first_level(before, bp) is Some && first_level(before, bp)->0 != assoc => {
            Some(
                TableError::AssociativityConflict {
                    index: i as usize,
                    bp,
                    existing: first_level(before, bp)->0,
                },
            )
        },
        _ => {
            let led = led_key(e) is Some;
            let key = phase_key(e, led)->0;
            if exists|j: int| 0 <= j < i && routes::<P, H>(#[trigger] entries[j], key, led) {
                Some(
                    TableError::DuplicateRouting {
                        index: i as usize,
                        phase: if led {
                            Phase::Infix
                        } else {
                            Phase::Prefix
                        },
                        token: key,
                    },
                )
            } else {
                None
            }
        },
    }
}

/// The verdict on the first `n` entries: the problem of the first entry that
/// has one, or success.
pub open spec fn check_upto<P: VprattCore, H>(
    entries: Seq<Entry<P::PrattToken, H>>,
    n: int,
) -> Result<(), TableError<P::PrattToken>>
    decreases n,
{
    if n <= 0 {
        Ok(())
    } else {
        match check_upto::<P, H>(entries, n - 1) {
            Err(e) => Err(e),
            Ok(_) => match entry_problem::<P, H>(entries, n - 1) {
                Some(e) => Err(e),
                None => Ok(()),
            },
        }
    }
}

/// Once a problem is found, later entries do not change the verdict.
proof fn lemma_check_upto_sticks<P: VprattCore, H>(entries: Seq<Entry<P::PrattToken, H>>, i: int, m: int)
    requires
        0 <= i <= m,
        check_upto::<P, H>(entries, i) is Err,
    ensures
        check_upto::<P, H>(entries, m) == check_upto::<P, H>(entries, i),
    decreases m - i,
{
    if m > i {
        lemma_check_upto_sticks::<P, H>(entries, i, m - 1);
    }
}

/// A valid prefix of the table has no problem at any of its entries.
proof fn lemma_check_upto_entries<P: VprattCore, H>(entries: Seq<Entry<P::PrattToken, H>>, n: int, j: int)
    requires
        0 <= j < n,
        check_upto::<P, H>(entries, n) is Ok,
    ensures
        entry_problem::<P, H>(entries, j) is None,
    decreases n,
{
    if j < n - 1 {
        lemma_check_upto_entries::<P, H>(entries, n - 1, j);
    }
}

/// Appending an entry only matters to a level no earlier entry declared.
proof fn lemma_first_level_push<K, H>(s: Seq<Entry<K, H>>, e: Entry<K, H>, bp: Precedence)
    ensures
        first_level(s.push(e), bp) == (match first_level(s, bp) {
            Some(a) => Some(a),
            None => match level_of(e) {
                Some((b, a)) => if b == bp {
                    Some(a)
                } else {
                    None
                },
                None => None,
            },
        }),
    decreases s.len(),
{
    if s.len() > 0 {
        assert(s.push(e).drop_first() =~= s.drop_first().push(e));
        lemma_first_level_push(s.drop_first(), e, bp);
    } else {
        assert(s.push(e).drop_first() =~= s);
    }
}

/// Once a level has an associativity, a longer prefix keeps it.
proof fn lemma_first_level_grows<K, H>(s: Seq<Entry<K, H>>, n: int, m: int, bp: Precedence)
    requires
        0 <= n <= m <= s.len(),
        first_level(s.take(n), bp) is Some,
    ensures
        first_level(s.take(m), bp) == first_level(s.take(n), bp),
    decreases m - n,
{
    if m > n {
        lemma_first_level_grows(s, n, m - 1, bp);
        assert(s.take(m) =~= s.take(m - 1).push(s[m - 1]));
        lemma_first_level_push(s.take(m - 1), s[m - 1], bp);
    }
}

/// In a table that validates, a token kind has at most one entry in each
/// phase (so routing never depends on declaration order), and every
/// precedence level is declared with a single associativity.
pub proof fn lemma_valid_table_is_unambiguous<P: VprattCore, H>(
    entries: Seq<Entry<P::PrattToken, H>>,
    i: int,
    j: int,
    led: bool,
)
    requires
        check_upto::<P, H>(entries, entries.len() as int) is Ok,
        0 <= i < j < entries.len(),
    ensures
        phase_key(entries[i], led) matches Some(k) ==> !routes::<P, H>(entries[j], k, led),
        ({
            match (level_of(entries[i]), level_of(entries[j])) {
                (Some((bi, ai)), Some((bj, aj))) => bi == bj ==> ai == aj,
                _ => true,
            }
        }),
{
    let n = entries.len() as int;
    lemma_check_upto_entries::<P, H>(entries, n, i);
    lemma_check_upto_entries::<P, H>(entries, n, j);
    if phase_key(entries[i], led) is Some && routes::<P, H>(entries[j], phase_key(entries[i], led)->0, led) {
        assert(led_key(entries[j]) is Some == led);
        assert(routes::<P, H>(entries[i], phase_key(entries[j], led)->0, led));
        assert(level_of(entries[j]) matches Some((bp, assoc)) ==> !(first_level(
            entries.take(j),
            bp,
        ) is Some && first_level(entries.take(j), bp)->0 != assoc));
        assert(false);
    }
    if let (Some((bp, ai)), Some((bj, aj))) = (level_of(entries[i]), level_of(entries[j])) {
        assert(entries.take(i + 1) =~= entries.take(i).push(entries[i]));
        lemma_first_level_push(entries.take(i), entries[i], bp);
        assert(first_level(entries.take(i + 1), bp) == Some(ai));
        lemma_first_level_grows(entries, i + 1, j, bp);
    }
}

/// The first entry routed by a kind decides: when entry `i` is routed by
/// the kind of `key` and no earlier entry is, the route is entry `i`.
proof fn lemma_first_route_at<P: VprattCore, H>(
    entries: Seq<Entry<P::PrattToken, H>>,
    i: int,
    key: P::PrattToken,
    led: bool,
)
    requires
        0 <= i < entries.len(),
        routes::<P, H>(entries[i], key, led),
        forall|j: int| 0 <= j < i ==> !routes::<P, H>(#[trigger] entries[j], key, led),
    ensures
        first_route::<P, H>(entries, key, led) == Some(entries[i]),
    decreases i,
{
    if i > 0 {
        let rest = entries.drop_first();
        assert(!routes::<P, H>(entries[0], key, led));
        assert forall|j: int| 0 <= j < i - 1 implies !routes::<P, H>(#[trigger] rest[j], key, led) by {
            assert(rest[j] == entries[j + 1]);
        }
        lemma_first_route_at::<P, H>(rest, i - 1, key, led);
    }
}

/// In a table that validates, a token is routed in each phase to the one
/// entry of its kind there: whatever entry routes the kind of `key` is the
/// route.
pub proof fn lemma_valid_table_routes_to_its_entry<P: VprattCore, H>(
    entries: Seq<Entry<P::PrattToken, H>>,
    i: int,
    key: P::PrattToken,
    led: bool,
)
    requires
        check_upto::<P, H>(entries, entries.len() as int) is Ok,
        0 <= i < entries.len(),
        routes::<P, H>(entries[i], key, led),
    ensures
        first_route::<P, H>(entries, key, led) == Some(entries[i]),
{
    assert forall|j: int| 0 <= j < i implies !routes::<P, H>(#[trigger] entries[j], key, led) by {
        lemma_valid_table_is_unambiguous::<P, H>(entries, j, i, led);
    }
    lemma_first_route_at::<P, H>(entries, i, key, led);
}

/// Entry `e` is an infix or implied entry of level `bp` with associativity `assoc`.
pub open spec fn declares_level<K, H>(e: Entry<K, H>, bp: Precedence, assoc: Associativity) -> bool {
    ||| e matches Entry::Infix { bp: b, assoc: a, .. } && b == bp && a == assoc
    ||| e matches Entry::Implied { bp: b, assoc: a, .. } && b == bp && a == assoc
}

/// Only infix and implied entries declare a precedence level with an
/// associativity; terminal, group, structural, prefix, postfix and juxt
/// entries declare none.
pub proof fn lemma_only_binary_entries_declare_levels<K, H>(e: Entry<K, H>)
    ensures
        level_of(e) is Some <==> (e is Infix || e is Implied),
        forall|bp: Precedence, assoc: Associativity|
            level_of(e) == Some((bp, assoc)) <==> #[trigger] declares_level(e, bp, assoc),
{
}

/// The level found for `bp` among `s` is one an entry of `s` declares.
proof fn lemma_first_level_declared<K, H>(s: Seq<Entry<K, H>>, bp: Precedence)
    ensures
        first_level(s, bp) matches Some(a) ==> exists|i: int|
            0 <= i < s.len() && declares_level(#[trigger] s[i], bp, a),
    decreases s.len(),
{
    if s.len() > 0 {
        lemma_first_level_declared(s.drop_first(), bp);
        if let Some(a) = first_level(s, bp) {
            if level_of(s[0]) == Some((bp, a)) {
                assert(declares_level(s[0], bp, a));
            } else {
                let i = choose|i: int| 0 <= i < s.drop_first().len() && declares_level(#[trigger] s.drop_first()[i], bp, a);
                assert(s[i + 1] == s.drop_first()[i]);
            }
        }
    }
}

/// `validate` accepts every sound table: one whose infix and implied
/// entries give each level a single associativity, and in which no two
/// entries route the same token kind in the same phase.
pub proof fn lemma_validate_accepts_sound_tables<P: VprattCore, H>(entries: Seq<Entry<P::PrattToken, H>>)
    requires
        forall|i: int, j: int, bp: Precedence, a1: Associativity, a2: Associativity|
            0 <= i < j < entries.len() && #[trigger] declares_level(entries[i], bp, a1)
                && #[trigger] declares_level(entries[j], bp, a2) ==> a1 == a2,
        forall|i: int, j: int, led: bool|
            0 <= i < j < entries.len() && #[trigger] phase_key(entries[i], led) is Some
                ==> !routes::<P, H>(#[trigger] entries[j], phase_key(entries[i], led)->0, led),
    ensures
        check_upto::<P, H>(entries, entries.len() as int) is Ok,
{
    lemma_sound_prefix_is_valid::<P, H>(entries, entries.len() as int);
}

proof fn lemma_sound_prefix_is_valid<P: VprattCore, H>(entries: Seq<Entry<P::PrattToken, H>>, n: int)
    requires
        0 <= n <= entries.len(),
        forall|i: int, j: int, bp: Precedence, a1: Associativity, a2: Associativity|
            0 <= i < j < entries.len() && #[trigger] declares_level(entries[i], bp, a1)
                && #[trigger] declares_level(entries[j], bp, a2) ==> a1 == a2,
        forall|i: int, j: int, led: bool|
            0 <= i < j < entries.len() && #[trigger] phase_key(entries[i], led) is Some
                ==> !routes::<P, H>(#[trigger] entries[j], phase_key(entries[i], led)->0, led),
    ensures
        check_upto::<P, H>(entries, n) is Ok,
    decreases n,
{
    if n > 0 {
        lemma_sound_prefix_is_valid::<P, H>(entries, n - 1);
        let j = n - 1;
        let e = entries[j];
        let before = entries.take(j);
        if let Some((bp, assoc)) = level_of(e) {
            lemma_only_binary_entries_declare_levels(e);
            assert(declares_level(e, bp, assoc));
            lemma_first_level_declared(before, bp);
            if let Some(a) = first_level(before, bp) {
                let i = choose|i: int| 0 <= i < before.len() && declares_level(#[trigger] before[i], bp, a);
                assert(before[i] == entries[i]);
                assert(declares_level(entries[i], bp, a));
            }
        }
        let led = led_key(e) is Some;
        let key = phase_key(e, led)->0;
        assert forall|i: int| 0 <= i < j implies !routes::<P, H>(#[trigger] entries[i], key, led) by {
            if routes::<P, H>(entries[i], key, led) {
                assert(phase_key(entries[i], led) is Some);
                assert(!routes::<P, H>(entries[j], phase_key(entries[i], led)->0, led));
            }
        }
    }
}

/// A parser's hooks follow the table `entries`: its left binding powers are
/// the table's (`__lbp__`), and its prefix dispatch (`__nud__`) answers a
/// token of a kind with no prefix route with `UnexpectedToken`, taking
/// nothing more from the stream. A parser built on `Table::binding_power`
/// and `Table::nud_call` has such hooks.
pub open spec fn follows_table<P: VprattCore, H>(entries: Seq<Entry<P::PrattToken, H>>) -> bool {
    &&& forall|t: P::PrattToken| #[trigger] P::lbp_of(t) == table_lbp::<P, H>(entries, t)
    &&& forall|before: P, item: P::Item, after: P, r: Result<P::Output, P::Error>|
        #[trigger] P::nud_post(before, item, after, r) && first_route::<P, H>(entries, P::kind_of(item), false)
            is None ==> r == Err::<P::Output, P::Error>(P::error_of(VprattError::UnexpectedToken(item)))
            && after.remaining() == before.remaining()
}

/// A parser whose hooks follow an empty table routes nothing: no token
/// binds, and a parse of a non-empty stream fails on its first item with
/// `UnexpectedToken`, having taken only that item.
pub proof fn lemma_empty_table_routes_nothing<P: VprattCore, H>(
    start: Seq<P::Item>,
    minbp: Precedence,
    end: P,
    r: Result<P::Output, P::Error>,
    t: P::PrattToken,
)
    requires
        follows_table::<P, H>(Seq::empty()),
        start.len() > 0,
        pratt_run::<P>(start, minbp, end, r),
    ensures
        P::lbp_of(t) == 0,
        r == Err::<P::Output, P::Error>(P::error_of(VprattError::UnexpectedToken(start[0]))),
        end.remaining() == start.drop_first(),
{
    let entries = Seq::<Entry<P::PrattToken, H>>::empty();
    assert(P::lbp_of(t) == table_lbp::<P, H>(entries, t));
    let (before, after, first) = choose|before: P, after: P, first: Result<P::Output, P::Error>|
        {
            &&& before.remaining() == start.drop_first()
            &&& P::nud_post(before, start[0], after, first)
            &&& match first {
                Err(e) => r == Err::<P::Output, P::Error>(e) && end == after,
                Ok(v) => crate::engine::infix_run::<P>(after.remaining(), v, minbp, end, r),
            }
        };
    assert(first_route::<P, H>(entries, P::kind_of(start[0]), false) is None);
    assert(first == Err::<P::Output, P::Error>(P::error_of(VprattError::UnexpectedToken(start[0]))));
}

/// In a table that validates, with a parser whose hooks follow it: an entry
/// is the route of every token of its kind in its phase, so the context the
/// table's dispatch builds for such a token is that entry's (an infix
/// operand at the entry's right binding power, a prefix operand at its
/// level); and a token of the kind of an infix-phase entry binds at that
/// entry's level.
pub proof fn lemma_parser_follows_its_entry<P: VprattCore, H>(
    entries: Seq<Entry<P::PrattToken, H>>,
    i: int,
    key: P::PrattToken,
    led: bool,
)
    requires
        follows_table::<P, H>(entries),
        check_upto::<P, H>(entries, entries.len() as int) is Ok,
        0 <= i < entries.len(),
        routes::<P, H>(entries[i], key, led),
    ensures
        first_route::<P, H>(entries, key, led) == Some(entries[i]),
        led ==> P::lbp_of(key) == led_power(entries[i]),
{
    lemma_valid_table_routes_to_its_entry::<P, H>(entries, i, key, led);
    assert(P::lbp_of(key) == table_lbp::<P, H>(entries, key));
}

/// The routing table of a parser `P` whose handlers are named by `H`.
pub struct Table<P: VprattCore, H> {
    entries: Vec<Entry<P::PrattToken, H>>,
    _marker: PhantomData<P>,
}

impl<P: VprattCore, H> View for Table<P, H> {
    type V = Seq<Entry<P::PrattToken, H>>;

    closed spec fn view(&self) -> Seq<Entry<P::PrattToken, H>> {
        self.entries@
    }
}

impl<P: VprattCore, H> Table<P, H> {
    /// An empty table.
    pub fn new() -> (r: Self)
        ensures
            r@ == Seq::<Entry<P::PrattToken, H>>::empty(),
    {
        Table { entries: Vec::new(), _marker: PhantomData }
    }

    /// Appends an entry.
    fn with(self, e: Entry<P::PrattToken, H>) -> (r: Self)
        ensures
            r@ == self@.push(e),
    {
        let mut entries = self.entries;
        entries.push(e);
        Table { entries, _marker: PhantomData }
    }

    /// Registers a terminal: a token that is a leaf value in prefix position.
    pub fn terminal(self, token: P::PrattToken, handler: H) -> (r: Self)
        ensures
            r@ == self@.push(Entry::Terminal { token, handler }),
    {
        self.with(Entry::Terminal { token, handler })
    }

    /// Registers a group: `open` starts a delimited interior closed by `close`.
    pub fn group(self, open: P::PrattToken, close: P::PrattToken, handler: H) -> (r: Self)
        ensures
            r@ == self@.push(Entry::Group { open, close, handler }),
    {
        self.with(Entry::Group { open, close, handler })
    }

    /// Registers a unary prefix operator whose operand is parsed at `bp`.
    pub fn prefix(self, bp: Precedence, token: P::PrattToken, handler: H) -> (r: Self)
        ensures
            r@ == self@.push(Entry::Prefix { bp, token, handler }),
    {
        self.with(Entry::Prefix { bp, token, handler })
    }

    /// Registers a keyword construct in prefix position.
    pub fn structural(self, token: P::PrattToken, handler: H) -> (r: Self)
        ensures
            r@ == self@.push(Entry::Keyword { token, handler }),
    {
        self.with(Entry::Keyword { token, handler })
    }

    /// Registers a binary infix operator of level `bp`.
    pub fn infix(self, bp: Precedence, assoc: Associativity, token: P::PrattToken, handler: H) -> (r:
        Self)
        ensures
            r@ == self@.push(Entry::Infix { bp, assoc, token, handler }),
    {
        self.with(Entry::Infix { bp, assoc, token, handler })
    }

    /// Registers a unary postfix operator of level `bp`.
    pub fn postfix(self, bp: Precedence, token: P::PrattToken, handler: H) -> (r: Self)
        ensures
            r@ == self@.push(Entry::Postfix { bp, token, handler }),
    {
        self.with(Entry::Postfix { bp, token, handler })
    }

    /// Registers juxtaposition with a group: a left operand directly
    /// followed by `open` ... `close`, at level `bp`.
    pub fn juxt(self, bp: Precedence, open: P::PrattToken, close: P::PrattToken, handler: H) -> (r:
        Self)
        ensures
            r@ == self@.push(Entry::Juxt { bp, open, close, handler }),
    {
        self.with(Entry::Juxt { bp, open, close, handler })
    }

    /// Registers juxtaposition with a token: a left operand directly followed
    /// by `token`, with no operator between them, at level `bp`.
    pub fn implied(self, bp: Precedence, assoc: Associativity, token: P::PrattToken, handler: H) -> (r:
        Self)
        ensures
            r@ == self@.push(Entry::Implied { bp, assoc, token, handler }),
    {
        self.with(Entry::Implied { bp, assoc, token, handler })
    }
}

/// The handler call a prefix-position token is routed to, with its context.
pub enum NudCall<'a, P: VprattCore, H> {
    Terminal(H, TerminalCtx<'a, P>),
    Group(H, GroupCtx<'a, P>),
    Keyword(H, StructuralCtx<'a, P>),
    Prefix(H, PrefixCtx<'a, P>),
}

/// The handler call an infix-position token is routed to, with its context.
pub enum LedCall<'a, P: VprattCore, H> {
    Infix(H, InfixCtx<'a, P>),
    Postfix(H, PostfixCtx<'a, P>),
    Juxt(H, JuxtCtx<'a, P>),
    Implied(H, ImpliedCtx<'a, P>),
}

/// The routing key of an entry in the given phase.
fn entry_key<K: Copy, H>(e: &Entry<K, H>, led: bool) -> (r: Option<K>)
    ensures
        r == phase_key(*e, led),
{
    match e {
        Entry::Terminal { token, .. } => if led {
            None
        } else {
            Some(*token)
        },
        Entry::Group { open, .. } => if led {
            None
        } else {
            Some(*open)
        },
        Entry::Keyword { token, .. } => if led {
            None
        } else {
            Some(*token)
        },
        Entry::Prefix { token, .. } => if led {
            None
        } else {
            Some(*token)
        },
        Entry::Infix { token, .. } => if led {
            Some(*token)
        } else {
            None
        },
        Entry::Postfix { token, .. } => if led {
            Some(*token)
        } else {
            None
        },
        Entry::Juxt { open, .. } => if led {
            Some(*open)
        } else {
            None
        },
        Entry::Implied { token, .. } => if led {
            Some(*token)
        } else {
            None
        },
    }
}

impl<K, H> Entry<K, H> {
    /// The precedence level and associativity this entry declares, if it is
    /// an infix or implied entry.
    pub fn associativity(&self) -> (r: Option<(Precedence, Associativity)>)
        ensures
            r == level_of(*self),
    {
        match self {
            Entry::Infix { bp, assoc, .. } => Some((*bp, *assoc)),
            Entry::Implied { bp, assoc, .. } => Some((*bp, *assoc)),
            _ => None,
        }
    }
}

/// The right binding power of an operator of level `bp`.
pub(crate) fn rbp_for(bp: Precedence, assoc: Associativity) -> (r: Precedence)
    ensures
        r == right_bp(bp, assoc),
{
    match assoc {
        Associativity::Left => bp,
        Associativity::Right => if bp == 0 {
            0
        } else {
            bp - 1
        },
    }
}

impl<P: VprattCore, H: Copy> Table<P, H> {
    /// The number of entries.
    pub fn len(&self) -> (r: usize)
        ensures
            r == self@.len(),
    {
        self.entries.len()
    }

    /// The entries, in declaration order.
    pub fn entries(&self) -> (r: &Vec<Entry<P::PrattToken, H>>)
        ensures
            r@ == self@,
    {
        &self.entries
    }

    /// The index of the first entry routed by the kind of `key` in the given phase.
    fn find_route(&self, key: &P::PrattToken, led: bool) -> (r: Option<usize>)
        ensures
            match r {
                Some(i) => i < self@.len() && first_route::<P, H>(self@, *key, led) == Some(self@[i as int]),
                None => first_route::<P, H>(self@, *key, led) is None,
            },
    {
        let n = self.entries.len();
        let mut i: usize = 0;
        proof {
            assert(self@.skip(0) =~= self@);
        }
        while i < n
            invariant
                n == self@.len(),
                i <= n,
                first_route::<P, H>(self@, *key, led) == first_route::<P, H>(self@.skip(i as int), *key, led),
                decreases n - i,
        {
            let k = entry_key(&self.entries[i], led);
            proof {
                assert(self@.skip(i as int)[0] == self@[i as int]);
                assert(self@.skip(i as int).drop_first() =~= self@.skip(i + 1));
            }
            match k {
                Some(k) => {
                    if same_kind::<P>(&k, key) {
                        return Some(i);
                    }
                },
                None => {},
            }
            i = i + 1;
        }
        proof {
            assert(self@.skip(i as int).len() == 0);
        }
        None
    }

    /// The left binding power of `token`: the level of its first infix-phase
    /// entry, or 0 when it has none.
    pub fn binding_power(&self, token: &P::PrattToken) -> (r: Precedence)
        ensures
            r == table_lbp::<P, H>(self@, *token),
    {
        match self.find_route(token, true) {
            None => 0,
            Some(i) => match &self.entries[i] {
                Entry::Infix { bp, .. } => *bp,
                Entry::Postfix { bp, .. } => *bp,
                Entry::Juxt { bp, .. } => *bp,
                Entry::Implied { bp, .. } => *bp,
                _ => 0,
            },
        }
    }

    /// Routes an item in prefix position: the handler of the first prefix
    /// entry of its routing token and the context that entry's format gives
    /// it, or `UnexpectedToken` when no prefix entry routes it.
    pub fn nud_call<'a>(&self, token: P::Item) -> (r: Result<
        NudCall<'a, P, H>,
        VprattError<P::Item, P::PrattToken>,
    >)
        ensures
            match first_route::<P, H>(self@, P::kind_of(token), false) {
                None => r == Err::<NudCall<'a, P, H>, VprattError<P::Item, P::PrattToken>>(
                    VprattError::UnexpectedToken(token),
                ),
                Some(Entry::Terminal { handler, .. }) => r matches Ok(NudCall::Terminal(h, ctx)) && h
                    == handler && ctx.consumed.token == token,
                Some(Entry::Group { close, handler, .. }) => r matches Ok(NudCall::Group(h, ctx)) && h
                    == handler && ctx.consumed.token == token && ctx.enclosed.expected_close == close,
                Some(Entry::Keyword { handler, .. }) => r matches Ok(NudCall::Keyword(h, ctx)) && h
                    == handler && ctx.consumed.token == token,
                Some(Entry::Prefix { bp, handler, .. }) => r matches Ok(NudCall::Prefix(h, ctx)) && h
                    == handler && ctx.consumed.token == token && ctx.rhs.rbp == bp,
                Some(_) => false,
            },
    {
        let kind = P::__extract__(&token);
        let i = match self.find_route(&kind, false) {
            None => {
                return Err(VprattError::UnexpectedToken(token));
            },
            Some(i) => i,
        };
        match &self.entries[i] {
            Entry::Terminal { handler, .. } => Ok(
                NudCall::Terminal(
                    *handler,
                    TerminalCtx { consumed: Consumed::__new__(token), _marker: PhantomData },
                ),
            ),
            Entry::Group { close, handler, .. } => Ok(
                NudCall::Group(
                    *handler,
                    GroupCtx {
                        consumed: Consumed::__new__(token),
                        enclosed: Enclosed::__new__(*close),
                        _marker: PhantomData,
                    },
                ),
            ),
            Entry::Keyword { handler, .. } => Ok(
                NudCall::Keyword(
                    *handler,
                    StructuralCtx {
                        consumed: Consumed::__new__(token),
                        atom: Atom::__new__(),
                        sub: Subexpr::__new__(),
                        _marker: PhantomData,
                    },
                ),
            ),
            Entry::Prefix { bp, handler, .. } => Ok(
                NudCall::Prefix(
                    *handler,
                    PrefixCtx {
                        consumed: Consumed::__new__(token),
                        rhs: Rhs::__new__(*bp),
                        _marker: PhantomData,
                    },
                ),
            ),
            _ => {
                proof {
                    lemma_first_route_key::<P, H>(self@, kind, false);
                }
                Err(VprattError::UnexpectedToken(token))
            },
        }
    }

    /// Routes an item in infix position, with `lhs` as the left operand: the
    /// handler of the first infix-phase entry of its routing token and the
    /// context that entry's format gives it. Infix and implied right
    /// operands are parsed at the entry's right binding power; a juxtaposed
    /// group resumes at the entry's level.
    pub fn led_call<'a>(&self, lhs: P::Output, token: P::Item) -> (r: LedCall<'a, P, H>)
        requires
            table_lbp::<P, H>(self@, P::kind_of(token)) > 0,
        ensures
            match first_route::<P, H>(self@, P::kind_of(token), true) {
                Some(Entry::Infix { bp, assoc, handler, .. }) => r matches LedCall::Infix(h, ctx) && h
                    == handler && ctx.lhs == lhs && ctx.consumed.token == token && ctx.rhs.rbp
                    == right_bp(bp, assoc),
                Some(Entry::Postfix { handler, .. }) => r matches LedCall::Postfix(h, ctx) && h
                    == handler && ctx.lhs == lhs && ctx.consumed.token == token,
                Some(Entry::Juxt { bp, close, handler, .. }) => r matches LedCall::Juxt(h, ctx) && h
                    == handler && ctx.lhs == lhs && ctx.consumed.token == token
                    && ctx.enclosed.expected_close == close && ctx.resume.rbp == bp,
                Some(Entry::Implied { bp, assoc, handler, .. }) => r matches LedCall::Implied(h, ctx)
                    && h == handler && ctx.lhs == lhs && ctx.consumed.token == token
                    && ctx.resume.rbp == right_bp(bp, assoc),
                _ => false,
            },
    {
        let kind = P::__extract__(&token);
        let i = match self.find_route(&kind, true) {
            Some(i) => i,
            None => {
                proof {
                    assert(false);
                }
                0
            },
        };
        match &self.entries[i] {
            Entry::Infix { bp, assoc, handler, .. } => LedCall::Infix(
                *handler,
                InfixCtx {
                    lhs,
                    consumed: Consumed::__new__(token),
                    rhs: Rhs::__new__(rbp_for(*bp, *assoc)),
                    _marker: PhantomData,
                },
            ),
            Entry::Postfix { handler, .. } => LedCall::Postfix(
                *handler,
                PostfixCtx { lhs, consumed: Consumed::__new__(token), _marker: PhantomData },
            ),
            Entry::Juxt { bp, close, handler, .. } => LedCall::Juxt(
                *handler,
                JuxtCtx {
                    lhs,
                    consumed: Consumed::__new__(token),
                    enclosed: Enclosed::__new__(*close),
                    resume: Resume::__new__(*bp),
                    _marker: PhantomData,
                },
            ),
            Entry::Implied { bp, assoc, handler, .. } => LedCall::Implied(
                *handler,
                ImpliedCtx {
                    lhs,
                    consumed: Consumed::__new__(token),
                    seed: Seed::__new__(),
                    resume: Resume::__new__(rbp_for(*bp, *assoc)),
                    _marker: PhantomData,
                },
            ),
            Entry::Terminal { handler, .. }
            | Entry::Group { handler, .. }
            | Entry::Keyword { handler, .. }
            | Entry::Prefix { handler, .. } => {
                proof {
                    lemma_first_route_key::<P, H>(self@, kind, true);
                }
                LedCall::Postfix(
                    *handler,
                    PostfixCtx { lhs, consumed: Consumed::__new__(token), _marker: PhantomData },
                )
            },
        }
    }
}

impl<P: VprattCore, H: Copy> Table<P, H> {
    /// The associativity the first of the first `upto` entries that declares
    /// level `bp` gives it.
    fn level_before(&self, upto: usize, bp: Precedence) -> (r: Option<Associativity>)
        requires
            upto <= self@.len(),
        ensures
            r == first_level(self@.take(upto as int), bp),
    {
        let mut j: usize = 0;
        proof {
            assert(self@.take(upto as int) =~= self@.subrange(0, upto as int));
        }
        while j < upto
            invariant
                upto <= self@.len(),
                j <= upto,
                first_level(self@.take(upto as int), bp) == first_level(
                    self@.subrange(j as int, upto as int),
                    bp,
                ),
            decreases upto - j,
        {
            proof {
                assert(self@.subrange(j as int, upto as int)[0] == self@[j as int]);
                assert(self@.subrange(j as int, upto as int).drop_first() =~= self@.subrange(
                    j + 1,
                    upto as int,
                ));
            }
            match &self.entries[j] {
                Entry::Infix { bp: b, assoc, .. } => {
                    if *b == bp {
                        return Some(*assoc);
                    }
                },
                Entry::Implied { bp: b, assoc, .. } => {
                    if *b == bp {
                        return Some(*assoc);
                    }
                },
                _ => {},
            }
            j = j + 1;
        }
        proof {
            assert(self@.subrange(j as int, upto as int).len() == 0);
        }
        None
    }

    /// Whether one of the first `upto` entries is routed by the kind of `key` in the given phase.
    fn routed_before(&self, upto: usize, key: &P::PrattToken, led: bool) -> (r: bool)
        requires
            upto <= self@.len(),
        ensures
            r == exists|j: int| 0 <= j < upto && routes::<P, H>(#[trigger] self@[j], *key, led),
    {
        let mut j: usize = 0;
        while j < upto
            invariant
                upto <= self@.len(),
                j <= upto,
                forall|k: int| 0 <= k < j ==> !routes::<P, H>(#[trigger] self@[k], *key, led),
                decreases upto - j,
        {
            match entry_key(&self.entries[j], led) {
                Some(k) => {
                    if same_kind::<P>(&k, key) {
                        return true;
                    }
                },
                None => {},
            }
            j = j + 1;
        }
        false
    }

    /// The problem entry `i` has given the entries before it, if any.
    fn problem_at(&self, i: usize) -> (r: Option<TableError<P::PrattToken>>)
        requires
            i < self@.len(),
        ensures
            r == entry_problem::<P, H>(self@, i as int),
    {
        match self.entries[i].associativity() {
            Some((bp, assoc)) => {
                match self.level_before(i, bp) {
                    Some(existing) => {
                        if existing != assoc {
                            return Some(
                                TableError::AssociativityConflict { index: i, bp, existing },
                            );
                        }
                    },
                    None => {},
                }
            },
            None => {},
        }
        let in_led = match entry_key(&self.entries[i], true) {
            Some(_) => true,
            None => false,
        };
        let key = match entry_key(&self.entries[i], in_led) {
            Some(k) => k,
            None => {
                proof {
                    assert(false);
                }
                return None;
            },
        };
        if self.routed_before(i, &key, in_led) {
            Some(
                TableError::DuplicateRouting {
                    index: i,
                    phase: if in_led {
                        Phase::Infix
                    } else {
                        Phase::Prefix
                    },
                    token: key,
                },
            )
        } else {
            None
        }
    }

}


/// Checks the table, entry by entry in declaration order, and reports the
/// first problem: an infix or implied entry whose level an earlier entry
/// declared with the other associativity, or an entry whose token an
/// earlier entry already routes in the same phase (prefix: terminal,
/// group, structural, prefix; infix: infix, postfix, juxt, implied).
pub fn validate<P: VprattCore, H: Copy>(table: &Table<P, H>) -> (r: Result<(), TableError<P::PrattToken>>)
    ensures
        r == check_upto::<P, H>(table@, table@.len() as int),
{
    let n = table.len();
    let mut i: usize = 0;
    while i < n
        invariant
            n == table@.len(),
            i <= n,
            check_upto::<P, H>(table@, i as int) == Ok::<(), TableError<P::PrattToken>>(()),
        decreases n - i,
    {
        match table.problem_at(i) {
            Some(e) => {
                proof {
                    lemma_check_upto_sticks::<P, H>(table@, i + 1, n as int);
                }
                return Err(e);
            },
            None => {},
        }
        i = i + 1;
    }
    Ok(())
}

} // verus!
