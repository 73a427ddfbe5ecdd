use vstd::prelude::*;
use crate::error::VprattError;

verus! {

/// The binding power of an operator. Higher numbers bind tighter.
pub type Precedence = u16;

/// How operators of the same precedence bind to each other.
#[derive(Debug, Clone, Copy, PartialEq, Eq, Structural)]
pub enum Associativity {
    /// `a - b - c` parses as `(a - b) - c`.
    Left,
    /// `a ^ b ^ c` parses as `a ^ (b ^ c)`.
    Right,
}

/// `after` is what remains of `before` once some tokens were taken from its front.
pub open spec fn advanced<T>(before: Seq<T>, after: Seq<T>) -> bool {
    &&& after.len() <= before.len()
    &&& after == before.skip(before.len() - after.len())
}

/// Two routing tokens are of one kind: they share a table route and match
/// each other in `expect`, `accept`, `series`, `separated` and `Enclosed`.
/// A payload, such as the `0.0` of a table entry written `Num(0.0)`, is no
/// part of the kind.
pub open spec fn same_route<P: VprattCore>(a: P::PrattToken, b: P::PrattToken) -> bool {
    P::kind_code(a) == P::kind_code(b)
}

/// Whether two routing tokens are of one kind.
pub fn same_kind<P: VprattCore>(a: &P::PrattToken, b: &P::PrattToken) -> (r: bool)
    ensures
        r == same_route::<P>(*a, *b),
{
    P::__kind__(a) == P::__kind__(b)
}

/// Taking nothing leaves the stream where it was.
pub proof fn lemma_advanced_refl<T>(s: Seq<T>)
    ensures
        advanced(s, s),
{
    assert(s.skip(0) =~= s);
}

/// Advancing twice is advancing.
pub proof fn lemma_advanced_trans<T>(a: Seq<T>, b: Seq<T>, c: Seq<T>)
    requires
        advanced(a, b),
        advanced(b, c),
    ensures
        advanced(a, c),
{
    assert(a.skip(a.len() - c.len()) =~= c);
}

/// Taking the front item advances the stream.
pub proof fn lemma_advanced_drop_first<T>(s: Seq<T>)
    requires
        s.len() > 0,
    ensures
        advanced(s, s.drop_first()),
{
    assert(s.skip(1) =~= s.drop_first());
}

/// One call of a handler dispatch made by the engine: the stream before the
/// item was taken (the item at its front), the parser state the dispatch ran
/// from and ended in, the stream it left, the left operand handed to it
/// (for infix calls) and what it gave back.
pub struct Step<S, T, O, E> {
    pub stream: Seq<T>,
    pub before: S,
    pub lhs: O,
    pub after: S,
    pub after_stream: Seq<T>,
    pub result: Result<O, E>,
}

/// `steps` chain the infix loop from stream `start` with left operand `lhs`:
/// each step takes the front item of the stream the previous one left, with
/// the operand the previous one produced; all but the last succeeded.
pub open spec fn infix_chain<S, T, O, E>(steps: Seq<Step<S, T, O, E>>, start: Seq<T>, lhs: O) -> bool {
    &&& steps.len() > 0 ==> steps[0].stream == start && steps[0].lhs == lhs
    &&& forall|i: int, j: int|
        #![trigger steps[i], steps[j]]
        0 <= i && j == i + 1 && j < steps.len() ==> steps[j].stream == steps[i].after_stream
            && steps[i].result == Ok::<O, E>(steps[j].lhs)
    &&& forall|i: int| 0 <= i < steps.len() ==> (#[trigger] steps[i]).stream.len() > 0
}

/// What the infix loop gives after `steps` from stream `start` with left
/// operand `lhs`: the operand itself when no step ran, else the last step's
/// result; and the stream it leaves.
pub open spec fn chain_outcome<S, T, O, E>(steps: Seq<Step<S, T, O, E>>, start: Seq<T>, lhs: O) -> (
    Result<O, E>,
    Seq<T>,
) {
    if steps.len() == 0 {
        (Ok(lhs), start)
    } else {
        (steps.last().result, steps.last().after_stream)
    }
}

/// Extending a chain with a step that takes the front of the stream the
/// chain left, with the operand the chain produced, gives a chain.
pub proof fn lemma_chain_push<S, T, O, E>(
    steps: Seq<Step<S, T, O, E>>,
    start: Seq<T>,
    lhs: O,
    step: Step<S, T, O, E>,
)
    requires
        infix_chain(steps, start, lhs),
        chain_outcome(steps, start, lhs).0 == Ok::<O, E>(step.lhs),
        chain_outcome(steps, start, lhs).1 == step.stream,
        step.stream.len() > 0,
    ensures
        infix_chain(steps.push(step), start, lhs),
        chain_outcome(steps.push(step), start, lhs) == (step.result, step.after_stream),
{
    let s2 = steps.push(step);
    assert(s2.last() == step);
    assert forall|i: int, j: int|
        #![trigger s2[i], s2[j]]
        0 <= i && j == i + 1 && j < s2.len() implies s2[j].stream == s2[i].after_stream
        && s2[i].result == Ok::<O, E>(s2[j].lhs) by {
        if j < steps.len() {
            assert(s2[i] == steps[i] && s2[j] == steps[j]);
        } else {
            assert(s2[i] == steps.last());
        }
    }
    assert forall|i: int| 0 <= i < s2.len() implies (#[trigger] s2[i]).stream.len() > 0 by {
        if i < steps.len() {
            assert(s2[i] == steps[i]);
        }
    }
}

/// The engine behind a parser.
///
/// A parser supplies the token stream (`__next__`, `__peek__`, and
/// `__last__` for the item it took last), the routing
/// token of an item (`__extract__`), the kind of a routing token
/// (`__kind__`), the binding power of a routing token (`__lbp__`), the
/// prefix and infix dispatch (`__nud__`, `__led__`) and the mapping of engine
/// failures into its own error type (`__convert_error__`). The precedence
/// loop itself (`__pratt_parse_internal__`, `__pratt_resume_infix__`,
/// `pratt_parse`) is provided and verified here.
///
/// The spec functions are the model the contracts speak of: the items left
/// in the stream, the item taken last, the routing token of an item, the kind of a routing token,
/// its left binding power, what the dispatches may do, and the error an
/// engine failure becomes. A parser defines them together with the methods.
/// Their default bodies only let an impl written in plain Rust, which has no
/// spec functions, compile; such an impl's model is unspecified.
pub trait VprattCore: Sized {
    /// The raw item yielded by the stream.
    type Item;
    /// The routing token extracted from an item to navigate the table.
    type PrattToken: Copy + PartialEq;
    /// The node type returned by handlers.
    type Output;
    /// The error type returned by handlers.
    type Error;

    /// The items that remain in the stream, front first.
    closed spec fn remaining(&self) -> Seq<Self::Item> {
        arbitrary()
    }

    /// The item most recently taken off the stream, if any.
    closed spec fn last_taken(&self) -> Option<Self::Item> {
        arbitrary()
    }

    /// The routing token of an item.
    closed spec fn kind_of(item: Self::Item) -> Self::PrattToken {
        arbitrary()
    }

    /// The kind of a routing token, as a number: tokens of one kind route
    /// alike whatever their payload.
    closed spec fn kind_code(token: Self::PrattToken) -> u64 {
        arbitrary()
    }

    /// The left binding power of a routing token (0 for tokens with no infix role).
    closed spec fn lbp_of(token: Self::PrattToken) -> Precedence {
        arbitrary()
    }

    /// What a run of the prefix dispatch on `token` may do, from parser state
    /// `before` to `after`, giving `r`.
    closed spec fn nud_post(before: Self, token: Self::Item, after: Self, r: Result<Self::Output, Self::Error>) -> bool {
        arbitrary()
    }

    /// What a run of the infix dispatch on `token` with left operand `lhs`
    /// may do, from parser state `before` to `after`, giving `r`.
    closed spec fn led_post(
        before: Self,
        lhs: Self::Output,
        token: Self::Item,
        after: Self,
        r: Result<Self::Output, Self::Error>,
    ) -> bool {
        arbitrary()
    }

    /// The parser's error for an engine failure.
    closed spec fn error_of(err: VprattError<Self::Item, Self::PrattToken>) -> Self::Error {
        arbitrary()
    }

    /// Takes the next item off the stream.
    fn __next__(&mut self) -> (r: Option<Self::Item>)
        ensures
            old(self).remaining().len() == 0 ==> r is None && final(self).remaining() == old(self).remaining()
                && final(self).last_taken() == old(self).last_taken(),
            old(self).remaining().len() > 0 ==> r == Some(old(self).remaining()[0])
                && final(self).remaining() == old(self).remaining().drop_first()
                && final(self).last_taken() == Some(old(self).remaining()[0]),
    ;

    /// The item most recently taken off the stream, if any (a copy: the
    /// parser keeps it to name the token before the end of input).
    fn __last__(&self) -> (r: Option<Self::Item>)
        ensures
            r == self.last_taken(),
    ;

    /// The routing token of the next item, leaving the stream as it is.
    fn __peek__(&mut self) -> (r: Option<Self::PrattToken>)
        ensures
            final(self).remaining() == old(self).remaining(),
            final(self).last_taken() == old(self).last_taken(),
            old(self).remaining().len() == 0 ==> r is None,
            old(self).remaining().len() > 0 ==> r == Some(Self::kind_of(old(self).remaining()[0])),
    ;

    /// The routing token of an item.
    fn __extract__(token: &Self::Item) -> (r: Self::PrattToken)
        ensures
            r == Self::kind_of(*token),
    ;

    /// The kind of a routing token.
    fn __kind__(token: &Self::PrattToken) -> (r: u64)
        ensures
            r == Self::kind_code(*token),
    ;

    /// The left binding power of a routing token.
    fn __lbp__(token: &Self::PrattToken) -> (r: Precedence)
        ensures
            r == Self::lbp_of(*token),
    ;

    /// Prefix dispatch: runs the handler registered for `token` in prefix position.
    /// Handlers only ever take items off the front of the stream.
    fn __nud__(&mut self, token: Self::Item) -> (r: Result<Self::Output, Self::Error>)
        ensures
            advanced(old(self).remaining(), final(self).remaining()),
            Self::nud_post(*old(self), token, *final(self), r),
    ;

    /// Infix dispatch: runs the handler registered for `token` in infix
    /// position with `lhs` as its left operand. The engine only calls it for
    /// tokens that bind (positive left binding power).
    fn __led__(&mut self, lhs: Self::Output, token: Self::Item) -> (r: Result<Self::Output, Self::Error>)
        requires
            Self::lbp_of(Self::kind_of(token)) > 0,
        ensures
            advanced(old(self).remaining(), final(self).remaining()),
            Self::led_post(*old(self), lhs, token, *final(self), r),
    ;

    /// Maps an engine failure into the parser's error type.
    fn __convert_error__(err: VprattError<Self::Item, Self::PrattToken>) -> (r: Self::Error)
        ensures
            r == Self::error_of(err),
    ;

    /// The Pratt algorithm: takes one item, routes it through the prefix
    /// dispatch, then runs the infix loop at `minbp`.
    ///
    /// On an exhausted stream it fails with `UnexpectedEOF` and consumes
    /// nothing; otherwise it consumes at least one item, and when it succeeds
    /// the next item (if any) does not bind tighter than `minbp`.
    fn __pratt_parse_internal__(&mut self, minbp: Precedence) -> (r: Result<Self::Output, Self::Error>)
        ensures
            advanced(old(self).remaining(), final(self).remaining()),
            old(self).remaining().len() == 0 ==> r == Err::<Self::Output, Self::Error>(
                Self::error_of(VprattError::UnexpectedEOF),
            ) && final(self).remaining() == old(self).remaining(),
            old(self).remaining().len() > 0 ==> final(self).remaining().len() < old(self).remaining().len(),
            r is Ok ==> (final(self).remaining().len() == 0 || Self::lbp_of(Self::kind_of(final(self).remaining()[0])) <= minbp),
            old(self).remaining().len() > 0 ==> exists|
                before: Self,
                after: Self,
                first: Result<Self::Output, Self::Error>,
            |
                #![trigger Self::nud_post(before, old(self).remaining()[0], after, first)]
            {
                &&& before.remaining() == old(self).remaining().drop_first()
                &&& Self::nud_post(before, old(self).remaining()[0], after, first)
                &&& match first {
                    Err(e) => r == Err::<Self::Output, Self::Error>(e) && *final(self) == after,
                    Ok(v) => exists|steps: Seq<Step<Self, Self::Item, Self::Output, Self::Error>>| {
                        &&& infix_chain(steps, after.remaining(), v)
                        &&& forall|i: int| 0 <= i < steps.len() ==> {
                            let st = #[trigger] steps[i];
                            &&& st.before.remaining() == st.stream.drop_first()
                            &&& st.after.remaining() == st.after_stream
                            &&& advanced(st.before.remaining(), st.after_stream)
                            &&& Self::lbp_of(Self::kind_of(st.stream[0])) > minbp
                            &&& Self::led_post(st.before, st.lhs, st.stream[0], st.after, st.result)
                        }
                        &&& r == chain_outcome(steps, after.remaining(), v).0
                        &&& steps.len() + final(self).remaining().len() <= after.remaining().len()
                        &&& final(self).remaining() == chain_outcome(steps, after.remaining(), v).1
                        &&& steps.len() > 0 && steps.last().result is Err ==> *final(self) == steps.last().after
                    },
                }
            },
    {
        let ghost start = self.remaining();
        proof {
            lemma_advanced_refl(start);
        }
        let token = match self.__next__() {
            Some(token) => token,
            None => {
                return Err(Self::__convert_error__(VprattError::UnexpectedEOF));
            },
        };
        proof {
            lemma_advanced_drop_first(start);
        }
        let ghost mid = self.remaining();
        let ghost before = *self;
        let first = self.__nud__(token);
        let ghost after = *self;
        let lhs = match first {
            Ok(lhs) => lhs,
            Err(e) => {
                proof {
                    lemma_advanced_trans(start, mid, self.remaining());
                    assert(before.remaining() == start.drop_first());
                    assert(Self::nud_post(before, start[0], after, first));
                }
                return Err(e);
            },
        };
        let ghost after_nud = self.remaining();
        proof {
            lemma_advanced_trans(start, mid, after_nud);
        }
        let r = self.__pratt_resume_infix__(lhs, minbp);
        proof {
            lemma_advanced_trans(start, after_nud, self.remaining());
            assert(before.remaining() == start.drop_first());
            assert(Self::nud_post(before, start[0], after, first));
        }
        r
    }

    /// Parses one complete expression: the Pratt algorithm from binding power 0.
    fn pratt_parse(&mut self) -> (r: Result<Self::Output, Self::Error>)
        ensures
            advanced(old(self).remaining(), final(self).remaining()),
            old(self).remaining().len() == 0 ==> r == Err::<Self::Output, Self::Error>(
                Self::error_of(VprattError::UnexpectedEOF),
            ) && final(self).remaining() == old(self).remaining(),
            old(self).remaining().len() > 0 ==> final(self).remaining().len() < old(self).remaining().len(),
            r is Ok ==> (final(self).remaining().len() == 0 || Self::lbp_of(Self::kind_of(final(self).remaining()[0])) == 0),
            old(self).remaining().len() > 0 ==> exists|
                before: Self,
                after: Self,
                first: Result<Self::Output, Self::Error>,
            |
                #![trigger Self::nud_post(before, old(self).remaining()[0], after, first)]
            {
                &&& before.remaining() == old(self).remaining().drop_first()
                &&& Self::nud_post(before, old(self).remaining()[0], after, first)
                &&& match first {
                    Err(e) => r == Err::<Self::Output, Self::Error>(e) && *final(self) == after,
                    Ok(v) => exists|steps: Seq<Step<Self, Self::Item, Self::Output, Self::Error>>| {
                        &&& infix_chain(steps, after.remaining(), v)
                        &&& forall|i: int| 0 <= i < steps.len() ==> {
                            let st = #[trigger] steps[i];
                            &&& st.before.remaining() == st.stream.drop_first()
                            &&& st.after.remaining() == st.after_stream
                            &&& advanced(st.before.remaining(), st.after_stream)
                            &&& Self::lbp_of(Self::kind_of(st.stream[0])) > 0
                            &&& Self::led_post(st.before, st.lhs, st.stream[0], st.after, st.result)
                        }
                        &&& r == chain_outcome(steps, after.remaining(), v).0
                        &&& steps.len() + final(self).remaining().len() <= after.remaining().len()
                        &&& final(self).remaining() == chain_outcome(steps, after.remaining(), v).1
                        &&& steps.len() > 0 && steps.last().result is Err ==> *final(self) == steps.last().after
                    },
                }
            },
    {
        self.__pratt_parse_internal__(0)
    }

    /// The left-binding-power loop: while the next item binds tighter than
    /// `rbp`, takes it and hands it with the current left operand to the
    /// infix dispatch.
    ///
    /// When the next item does not bind tighter than `rbp` it returns `lhs`
    /// untouched and consumes nothing; when it succeeds the next item (if
    /// any) does not bind tighter than `rbp`. Each dispatch consumes the item
    /// it is handed, so the loop makes at most one dispatch per item it
    /// consumes: the engine is linear in the length of the stream.
    fn __pratt_resume_infix__(&mut self, lhs: Self::Output, rbp: Precedence) -> (r: Result<Self::Output, Self::Error>)
        ensures
            advanced(old(self).remaining(), final(self).remaining()),
            (old(self).remaining().len() == 0 || Self::lbp_of(Self::kind_of(old(self).remaining()[0])) <= rbp) ==> r == Ok::<Self::Output, Self::Error>(lhs)
                && final(self).remaining() == old(self).remaining(),
            r is Ok ==> (final(self).remaining().len() == 0 || Self::lbp_of(Self::kind_of(final(self).remaining()[0])) <= rbp),
            exists|steps: Seq<Step<Self, Self::Item, Self::Output, Self::Error>>| {
                &&& infix_chain(steps, old(self).remaining(), lhs)
                &&& forall|i: int| 0 <= i < steps.len() ==> {
                    let st = #[trigger] steps[i];
                    &&& st.before.remaining() == st.stream.drop_first()
                    &&& st.after.remaining() == st.after_stream
                    &&& advanced(st.before.remaining(), st.after_stream)
                    &&& Self::lbp_of(Self::kind_of(st.stream[0])) > rbp
                    &&& Self::led_post(st.before, st.lhs, st.stream[0], st.after, st.result)
                }
                &&& r == chain_outcome(steps, old(self).remaining(), lhs).0
                &&& steps.len() + final(self).remaining().len() <= old(self).remaining().len()
                &&& final(self).remaining() == chain_outcome(steps, old(self).remaining(), lhs).1
                &&& steps.len() > 0 && steps.last().result is Err ==> *final(self) == steps.last().after
            },
    {
        let ghost start = self.remaining();
        let ghost lhs0 = lhs;
        let ghost mut steps: Seq<Step<Self, Self::Item, Self::Output, Self::Error>> = Seq::empty();
        let mut acc = lhs;
        proof {
            lemma_advanced_refl(start);
        }
        loop
            invariant
                start == old(self).remaining(),
                lhs0 == lhs,
                advanced(start, self.remaining()),
                (start.len() == 0 || Self::lbp_of(Self::kind_of(start[0])) <= rbp) ==> self.remaining() == start && acc == lhs0,
                infix_chain(steps, start, lhs0),
                forall|i: int| 0 <= i < steps.len() ==> {
                    let st = #[trigger] steps[i];
                    &&& st.before.remaining() == st.stream.drop_first()
                    &&& st.after.remaining() == st.after_stream
                    &&& advanced(st.before.remaining(), st.after_stream)
                    &&& Self::lbp_of(Self::kind_of(st.stream[0])) > rbp
                    &&& Self::led_post(st.before, st.lhs, st.stream[0], st.after, st.result)
                },
                chain_outcome(steps, start, lhs0).0 == Ok::<Self::Output, Self::Error>(acc),
                chain_outcome(steps, start, lhs0).1 == self.remaining(),
                steps.len() + self.remaining().len() <= start.len(),
            ensures
                advanced(start, self.remaining()),
                (self.remaining().len() == 0 || Self::lbp_of(Self::kind_of(self.remaining()[0])) <= rbp),
                (start.len() == 0 || Self::lbp_of(Self::kind_of(start[0])) <= rbp) ==> self.remaining() == start && acc == lhs0,
                infix_chain(steps, start, lhs0),
                forall|i: int| 0 <= i < steps.len() ==> {
                    let st = #[trigger] steps[i];
                    &&& st.before.remaining() == st.stream.drop_first()
                    &&& st.after.remaining() == st.after_stream
                    &&& advanced(st.before.remaining(), st.after_stream)
                    &&& Self::lbp_of(Self::kind_of(st.stream[0])) > rbp
                    &&& Self::led_post(st.before, st.lhs, st.stream[0], st.after, st.result)
                },
                chain_outcome(steps, start, lhs0).0 == Ok::<Self::Output, Self::Error>(acc),
                chain_outcome(steps, start, lhs0).1 == self.remaining(),
                steps.len() + self.remaining().len() <= start.len(),
            decreases self.remaining().len(),
        {
            let lbp = match self.__peek__() {
                Some(kind) => Self::__lbp__(&kind),
                None => {
                    break;
                },
            };
            if lbp <= rbp {
                break;
            }
            let ghost before = self.remaining();
            let token = match self.__next__() {
                Some(token) => token,
                None => {
                    break;
                },
            };
            proof {
                lemma_advanced_drop_first(before);
                lemma_advanced_trans(start, before, self.remaining());
            }
            let ghost mid = self.remaining();
            let ghost mid_state = *self;
            let ghost lhs_in = acc;
            let r = self.__led__(acc, token);
            let ghost step = Step {
                stream: before,
                before: mid_state,
                lhs: lhs_in,
                after: *self,
                after_stream: self.remaining(),
                result: r,
            };
            proof {
                lemma_advanced_trans(start, mid, self.remaining());
                lemma_chain_push(steps, start, lhs0, step);
                let old_steps = steps;
                steps = steps.push(step);
                assert(steps.last() == step);
                assert forall|i: int| 0 <= i < steps.len() implies {
                    let st = #[trigger] steps[i];
                    &&& st.before.remaining() == st.stream.drop_first()
                    &&& st.after.remaining() == st.after_stream
                    &&& advanced(st.before.remaining(), st.after_stream)
                    &&& Self::lbp_of(Self::kind_of(st.stream[0])) > rbp
                    &&& Self::led_post(st.before, st.lhs, st.stream[0], st.after, st.result)
                } by {
                    if i < old_steps.len() {
                        assert(steps[i] == old_steps[i]);
                    }
                }
            }
            acc = match r {
                Ok(next) => next,
                Err(e) => {
                    return Err(e);
                },
            };
        }
        Ok(acc)
    }
}

/// The infix loop at right binding power `rbp`, run from a parser whose
/// stream is `start` with left operand `lhs`, ended in parser `end` giving
/// `r`: some sequence of infix dispatches, each on the front item of the
/// stream the previous one left, each item binding tighter than `rbp`, each
/// handed the operand the previous one produced; it gives the last result
/// (or `lhs` when no item bound), and stops at the first failure. Each
/// dispatch only takes items off the front of the stream it was handed, and
/// there are at most as many dispatches as items consumed.
pub open spec fn infix_run<P: VprattCore>(
    start: Seq<P::Item>,
    lhs: P::Output,
    rbp: Precedence,
    end: P,
    r: Result<P::Output, P::Error>,
) -> bool {
    exists|steps: Seq<Step<P, P::Item, P::Output, P::Error>>| {
        &&& infix_chain(steps, start, lhs)
        &&& forall|i: int| 0 <= i < steps.len() ==> {
            let st = #[trigger] steps[i];
            &&& st.before.remaining() == st.stream.drop_first()
            &&& st.after.remaining() == st.after_stream
            &&& advanced(st.before.remaining(), st.after_stream)
            &&& P::lbp_of(P::kind_of(st.stream[0])) > rbp
            &&& P::led_post(st.before, st.lhs, st.stream[0], st.after, st.result)
        }
        &&& r == chain_outcome(steps, start, lhs).0
        &&& end.remaining() == chain_outcome(steps, start, lhs).1
        &&& steps.len() + end.remaining().len() <= start.len()
        &&& steps.len() > 0 && steps.last().result is Err ==> end == steps.last().after
    }
}

/// The Pratt algorithm at `minbp`, run from a parser whose stream is `start`
/// (not empty), ended in parser `end` giving `r`: the prefix dispatch on the
/// front item, then, when it succeeds, the infix loop at `minbp` with its
/// result as the left operand.
pub open spec fn pratt_run<P: VprattCore>(
    start: Seq<P::Item>,
    minbp: Precedence,
    end: P,
    r: Result<P::Output, P::Error>,
) -> bool {
    exists|before: P, after: P, first: Result<P::Output, P::Error>|
        #![trigger P::nud_post(before, start[0], after, first)]
        {
            &&& before.remaining() == start.drop_first()
            &&& P::nud_post(before, start[0], after, first)
            &&& match first {
                Err(e) => r == Err::<P::Output, P::Error>(e) && end == after,
                Ok(v) => infix_run::<P>(after.remaining(), v, minbp, end, r),
            }
        }
}

} // verus!
