//! Capability tokens: the parsing actions a handler may take, each bound to
//! the binding power or delimiter its format fixes.

use core::marker::PhantomData;
use vstd::prelude::*;
use crate::engine::{
    Precedence, VprattCore, advanced, infix_run, lemma_advanced_drop_first, lemma_advanced_refl,
    lemma_advanced_trans, pratt_run, same_kind, same_route,
};
use crate::error::VprattError;

verus! {

/// A token that the engine consumed and hands to a handler.
#[derive(Debug, Clone, Copy)]
pub struct Consumed<T> {
    pub token: T,
}

impl<T> Consumed<T> {
    pub fn __new__(token: T) -> (r: Self)
        ensures
            r.token == token,
    {
        Consumed { token }
    }
}

/// The run `Seed` makes: the prefix dispatch on `token` from parser
/// `before`, ending in `after` with `r`, taking items only off the front.
pub open spec fn seed_run<P: VprattCore>(
    before: P,
    token: P::Item,
    after: P,
    r: Result<P::Output, P::Error>,
) -> bool {
    advanced(before.remaining(), after.remaining()) && P::nud_post(before, token, after, r)
}

/// The run `Atom` makes from stream `start`: the front item is taken, and
/// the parser left with the rest seeds it.
pub open spec fn atom_run<P: VprattCore>(start: Seq<P::Item>, after: P, r: Result<P::Output, P::Error>) -> bool {
    &&& start.len() > 0
    &&& exists|before: P|
        #![trigger seed_run::<P>(before, start[0], after, r)]
        before.remaining() == start.drop_first() && seed_run::<P>(before, start[0], after, r)
}

/// An atom is the front item taken and then seeded: seeding it from the
/// parser left after taking it is a run of `Atom`.
pub proof fn lemma_atom_is_take_then_seed<P: VprattCore>(
    start: Seq<P::Item>,
    before: P,
    after: P,
    r: Result<P::Output, P::Error>,
)
    requires
        start.len() > 0,
        before.remaining() == start.drop_first(),
        seed_run::<P>(before, start[0], after, r),
    ensures
        atom_run::<P>(start, after, r),
{
}

/// Parses a single atomic item: one prefix dispatch, no infix loop.
pub struct Atom<P: VprattCore> {
    _marker: PhantomData<P>,
}

impl<P: VprattCore> Atom<P> {
    pub fn __new__() -> (r: Self) {
        Atom { _marker: PhantomData }
    }

    /// Takes the next item and routes it through the prefix dispatch.
    /// Fails with `UnexpectedEOF` on an exhausted stream, consuming nothing.
    pub fn parse(&self, p: &mut P) -> (r: Result<P::Output, P::Error>)
        ensures
            advanced(old(p).remaining(), final(p).remaining()),
            old(p).remaining().len() == 0 ==> r == Err::<P::Output, P::Error>(
                P::error_of(VprattError::UnexpectedEOF),
            ) && final(p).remaining() == old(p).remaining(),
            old(p).remaining().len() > 0 ==> final(p).remaining().len() < old(p).remaining().len(),
            old(p).remaining().len() > 0 ==> atom_run::<P>(old(p).remaining(), *final(p), r),
    {
        let ghost start = p.remaining();
        proof {
            lemma_advanced_refl(start);
        }
        let token = match p.__next__() {
            Some(token) => token,
            None => {
                return Err(P::__convert_error__(VprattError::UnexpectedEOF));
            },
        };
        proof {
            lemma_advanced_drop_first(start);
        }
        let ghost mid = p.remaining();
        let ghost before = *p;
        let r = p.__nud__(token);
        proof {
            lemma_advanced_trans(start, mid, p.remaining());
            assert(before.remaining() == start.drop_first());
            assert(seed_run::<P>(before, start[0], *p, r));
        }
        r
    }
}

/// Re-enters the prefix dispatch with an item that was already consumed.
pub struct Seed<P: VprattCore> {
    _marker: PhantomData<P>,
}

impl<P: VprattCore> Seed<P> {
    pub fn __new__() -> (r: Self) {
        Seed { _marker: PhantomData }
    }

    /// Routes `token` through the prefix dispatch.
    pub fn parse(&self, p: &mut P, token: P::Item) -> (r: Result<P::Output, P::Error>)
        ensures
            seed_run::<P>(*old(p), token, *final(p), r),
    {
        p.__nud__(token)
    }
}

/// Parses a right-hand side at the binding power its format fixed.
pub struct Rhs<P: VprattCore> {
    pub rbp: Precedence,
    pub _marker: PhantomData<P>,
}

impl<P: VprattCore> Rhs<P> {
    pub fn __new__(rbp: Precedence) -> (r: Self)
        ensures
            r.rbp == rbp,
    {
        Rhs { rbp, _marker: PhantomData }
    }

    /// Runs the Pratt algorithm at `self.rbp`: on success the next item (if
    /// any) does not bind tighter than `self.rbp`.
    pub fn parse(&self, p: &mut P) -> (r: Result<P::Output, P::Error>)
        ensures
            advanced(old(p).remaining(), final(p).remaining()),
            old(p).remaining().len() == 0 ==> r == Err::<P::Output, P::Error>(
                P::error_of(VprattError::UnexpectedEOF),
            ) && final(p).remaining() == old(p).remaining(),
            old(p).remaining().len() > 0 ==> final(p).remaining().len() < old(p).remaining().len(),
            r is Ok ==> (final(p).remaining().len() == 0 || P::lbp_of(
                P::kind_of(final(p).remaining()[0]),
            ) <= self.rbp),
            old(p).remaining().len() > 0 ==> pratt_run::<P>(old(p).remaining(), self.rbp, *final(p), r),
    {
        p.__pratt_parse_internal__(self.rbp)
    }
}

/// Parses a complete sub-expression from binding power 0.
pub struct Subexpr<P: VprattCore> {
    pub _marker: PhantomData<P>,
}

impl<P: VprattCore> Subexpr<P> {
    pub fn __new__() -> (r: Self) {
        Subexpr { _marker: PhantomData }
    }

    /// Runs the Pratt algorithm at binding power 0: on success the next item
    /// (if any) has no infix role.
    pub fn parse(&self, p: &mut P) -> (r: Result<P::Output, P::Error>)
        ensures
            advanced(old(p).remaining(), final(p).remaining()),
            old(p).remaining().len() == 0 ==> r == Err::<P::Output, P::Error>(
                P::error_of(VprattError::UnexpectedEOF),
            ) && final(p).remaining() == old(p).remaining(),
            old(p).remaining().len() > 0 ==> final(p).remaining().len() < old(p).remaining().len(),
            r is Ok ==> (final(p).remaining().len() == 0 || P::lbp_of(
                P::kind_of(final(p).remaining()[0]),
            ) == 0),
            old(p).remaining().len() > 0 ==> pratt_run::<P>(old(p).remaining(), 0, *final(p), r),
    {
        p.__pratt_parse_internal__(0)
    }
}

/// Re-enters the infix loop with a given left operand.
pub struct Resume<P: VprattCore> {
    pub rbp: Precedence,
    pub _marker: PhantomData<P>,
}

impl<P: VprattCore> Resume<P> {
    pub fn __new__(rbp: Precedence) -> (r: Self)
        ensures
            r.rbp == rbp,
    {
        Resume { rbp, _marker: PhantomData }
    }

    /// Runs the infix loop at `self.rbp` with `lhs` as the left operand.
    /// When the next item does not bind tighter than `self.rbp`, `lhs` comes
    /// back untouched and nothing is consumed.
    pub fn parse(&self, p: &mut P, lhs: P::Output) -> (r: Result<P::Output, P::Error>)
        ensures
            advanced(old(p).remaining(), final(p).remaining()),
            (old(p).remaining().len() == 0 || P::lbp_of(P::kind_of(old(p).remaining()[0])) <= self.rbp)
                ==> r == Ok::<P::Output, P::Error>(lhs) && final(p).remaining() == old(p).remaining(),
            r is Ok ==> (final(p).remaining().len() == 0 || P::lbp_of(
                P::kind_of(final(p).remaining()[0]),
            ) <= self.rbp),
            infix_run::<P>(old(p).remaining(), lhs, self.rbp, *final(p), r),
    {
        p.__pratt_resume_infix__(lhs, self.rbp)
    }
}

/// Parses a delimited interior from binding power 0 and consumes its closing delimiter.
pub struct Enclosed<P: VprattCore> {
    pub expected_close: P::PrattToken,
}

impl<P: VprattCore> Enclosed<P> {
    pub fn __new__(expected_close: P::PrattToken) -> (r: Self)
        ensures
            r.expected_close == expected_close,
    {
        Enclosed { expected_close }
    }

    /// Parses the interior, then takes the next item, which must be the
    /// closing delimiter. Returns the interior and the closing item.
    ///
    /// On success the closing item is the last item consumed and its routing
    /// token is of the kind of `expected_close`. When the stream ends right
    /// after the interior the closing delimiter is missing: it fails with
    /// `UnmatchedDelimiter(expected_close, last)`, `last` being the item taken
    /// before the end (`UnexpectedEOF` if the parser reports none); when an
    /// item of another kind follows it fails with
    /// `UnmatchedDelimiter(expected_close, item)`. An empty stream, with no
    /// interior at all, fails with `UnexpectedEOF`.
    pub fn parse(&self, p: &mut P) -> (r: Result<(P::Output, P::Item), P::Error>)
        ensures
            advanced(old(p).remaining(), final(p).remaining()),
            old(p).remaining().len() == 0 ==> r == Err::<(P::Output, P::Item), P::Error>(
                P::error_of(VprattError::UnexpectedEOF),
            ) && final(p).remaining() == old(p).remaining(),
            old(p).remaining().len() > 0 ==> final(p).remaining().len() < old(p).remaining().len(),
            r matches Ok((_, close)) ==> {
                let n = old(p).remaining().len() - final(p).remaining().len();
                &&& n >= 2
                &&& old(p).remaining()[n - 1] == close
                &&& same_route::<P>(P::kind_of(close), self.expected_close)
            },
            old(p).remaining().len() > 0 ==> exists|mid: P, inner: Result<P::Output, P::Error>|
                #![trigger pratt_run::<P>(old(p).remaining(), 0, mid, inner)]
                {
                    &&& pratt_run::<P>(old(p).remaining(), 0, mid, inner)
                    &&& match inner {
                        Err(e) => r == Err::<(P::Output, P::Item), P::Error>(e) && *final(p) == mid,
                        Ok(v) => if mid.remaining().len() == 0 {
                            &&& r == Err::<(P::Output, P::Item), P::Error>(
                                P::error_of(
                                    match mid.last_taken() {
                                        Some(t) => VprattError::UnmatchedDelimiter(self.expected_close, t),
                                        None => VprattError::UnexpectedEOF,
                                    },
                                ),
                            )
                            &&& final(p).remaining() == mid.remaining()
                        } else {
                            let t = mid.remaining()[0];
                            &&& final(p).remaining() == mid.remaining().drop_first()
                            &&& same_route::<P>(P::kind_of(t), self.expected_close) ==> r == Ok::<
                                (P::Output, P::Item),
                                P::Error,
                            >((v, t))
                            &&& !same_route::<P>(P::kind_of(t), self.expected_close) ==> r == Err::<
                                (P::Output, P::Item),
                                P::Error,
                            >(P::error_of(VprattError::UnmatchedDelimiter(self.expected_close, t)))
                        },
                    }
                },
    {
        let ghost start = p.remaining();
        let inner_r = p.__pratt_parse_internal__(0);
        let ghost mid_state = *p;
        let inner = match inner_r {
            Ok(inner) => inner,
            Err(e) => {
                proof {
                    if start.len() > 0 {
                        assert(pratt_run::<P>(start, 0, mid_state, inner_r));
                    }
                }
                return Err(e);
            },
        };
        proof {
            assert(pratt_run::<P>(start, 0, mid_state, inner_r));
        }
        let ghost mid = p.remaining();
        let token = match p.__next__() {
            Some(token) => token,
            None => {
                let err = match p.__last__() {
                    Some(last) => VprattError::UnmatchedDelimiter(self.expected_close, last),
                    None => VprattError::UnexpectedEOF,
                };
                return Err(P::__convert_error__(err));
            },
        };
        proof {
            lemma_advanced_drop_first(mid);
            lemma_advanced_trans(start, mid, p.remaining());
            assert(start.skip(start.len() - mid.len())[0] == start[start.len() - mid.len()]);
        }
        let kind = P::__extract__(&token);
        if same_kind::<P>(&kind, &self.expected_close) {
            Ok((inner, token))
        } else {
            Err(P::__convert_error__(VprattError::UnmatchedDelimiter(self.expected_close, token)))
        }
    }
}

} // verus!
