//! Stream utilities available on every context: typed navigation for the
//! parts of a grammar that precedence does not drive.

use vstd::prelude::*;
use crate::capabilities::Consumed;
use crate::engine::{
    VprattCore, advanced, lemma_advanced_drop_first, lemma_advanced_refl, lemma_advanced_trans,
    pratt_run, same_kind, same_route,
};
use crate::error::VprattError;

verus! {

/// One item of a list: the stream at the item, the parser its parse ended
/// in, and what it gave.
pub struct ItemStep<S, T, O, E> {
    pub stream: Seq<T>,
    pub after: S,
    pub result: Result<O, E>,
}

/// Parsing one list item from stream `s`, ending in parser `after` with `r`:
/// for an atom, the front item is taken and routed through the prefix
/// dispatch; otherwise a sub-expression is parsed at binding power 0. Either
/// way at least that item is consumed, from the front only.
pub open spec fn item_run<P: VprattCore>(
    atoms: bool,
    s: Seq<P::Item>,
    after: P,
    r: Result<P::Output, P::Error>,
) -> bool {
    &&& s.len() > 0
    &&& advanced(s, after.remaining())
    &&& after.remaining().len() < s.len()
    &&& if atoms {
        exists|before: P|
            #![trigger P::nud_post(before, s[0], after, r)]
            before.remaining() == s.drop_first() && P::nud_post(before, s[0], after, r)
    } else {
        pratt_run::<P>(s, 0, after, r)
    }
}

/// The values the items gave.
pub open spec fn outputs<S, T, O, E>(steps: Seq<ItemStep<S, T, O, E>>) -> Seq<O> {
    steps.map_values(|st: ItemStep<S, T, O, E>| st.result->Ok_0)
}

/// Whether a series goes on at stream `s`: an item is next, not of the kind
/// of `delimiter`, and (for atoms) of the kind of `of`.
pub open spec fn series_continues<P: VprattCore>(
    atoms: bool,
    s: Seq<P::Item>,
    of: P::PrattToken,
    delimiter: P::PrattToken,
) -> bool {
    &&& s.len() > 0
    &&& !same_route::<P>(P::kind_of(s[0]), delimiter)
    &&& atoms ==> same_route::<P>(P::kind_of(s[0]), of)
}

/// `steps` are the items a series read from `start`, ending in parser `end`
/// with `r`: each item is parsed where the series goes on, from where the
/// previous one ended, and all but the last succeeded. A failed item's error
/// is the result; otherwise the series stops where it does not go on, that
/// next item left in the stream, and gives the items' values in order.
pub open spec fn series_chain<P: VprattCore>(
    steps: Seq<ItemStep<P, P::Item, P::Output, P::Error>>,
    atoms: bool,
    of: P::PrattToken,
    delimiter: P::PrattToken,
    start: Seq<P::Item>,
    end: P,
    r: Result<Vec<P::Output>, P::Error>,
) -> bool {
    &&& steps.len() > 0 ==> steps[0].stream == start
    &&& forall|i: int|
        0 <= i < steps.len() ==> {
            let st = #[trigger] steps[i];
            &&& series_continues::<P>(atoms, st.stream, of, delimiter)
            &&& item_run::<P>(atoms, st.stream, st.after, st.result)
        }
    &&& forall|i: int, j: int|
        #![trigger steps[i], steps[j]]
        0 <= i && j == i + 1 && j < steps.len() ==> steps[i].result is Ok && steps[j].stream
            == steps[i].after.remaining()
    &&& if steps.len() > 0 && steps.last().result is Err {
        r == Err::<Vec<P::Output>, P::Error>(steps.last().result->Err_0) && end == steps.last().after
    } else {
        let cursor = if steps.len() == 0 {
            start
        } else {
            steps.last().after.remaining()
        };
        &&& r matches Ok(v) && v@ == outputs(steps)
        &&& end.remaining() == cursor
        &&& !series_continues::<P>(atoms, cursor, of, delimiter)
    }
}

/// A series read from `start`, ending in parser `end` with `r`.
pub open spec fn series_run<P: VprattCore>(
    atoms: bool,
    of: P::PrattToken,
    delimiter: P::PrattToken,
    start: Seq<P::Item>,
    end: P,
    r: Result<Vec<P::Output>, P::Error>,
) -> bool {
    exists|steps: Seq<ItemStep<P, P::Item, P::Output, P::Error>>|
        #[trigger] series_chain::<P>(steps, atoms, of, delimiter, start, end, r)
}

/// Whether an item may start at stream `s`: one is there and (for atoms) it
/// is of the kind of `of`.
pub open spec fn item_ok<P: VprattCore>(atoms: bool, s: Seq<P::Item>, of: P::PrattToken) -> bool {
    &&& s.len() > 0
    &&& atoms ==> same_route::<P>(P::kind_of(s[0]), of)
}

/// An item was due at `c` and none may start there: at the end of input
/// that is `UnexpectedEOF`; otherwise the item there is consumed and
/// reported as `UnexpectedToken`.
pub open spec fn item_failure<P: VprattCore>(
    atoms: bool,
    of: P::PrattToken,
    c: Seq<P::Item>,
    end: P,
    r: Result<Vec<P::Output>, P::Error>,
) -> bool {
    &&& !item_ok::<P>(atoms, c, of)
    &&& if c.len() == 0 {
        r == Err::<Vec<P::Output>, P::Error>(P::error_of(VprattError::UnexpectedEOF)) && end.remaining() == c
    } else {
        r == Err::<Vec<P::Output>, P::Error>(P::error_of(VprattError::UnexpectedToken(c[0])))
            && end.remaining() == c.drop_first()
    }
}

/// `steps` are the items of the list `item (sep item)* end` read from
/// `start`, ending in parser `end` with `r`: each item starts where one may,
/// the first at `start` and each later one right after a separator that
/// follows the previous item, which succeeded. The list ends at the first
/// failed item (its error), at an item due where none may start, or after an
/// item at the end of input (`UnexpectedEOF`), at `end_kind` (consumed; the
/// items' values in order), or at anything else (consumed, `UnexpectedToken`).
pub open spec fn separated_chain<P: VprattCore>(
    steps: Seq<ItemStep<P, P::Item, P::Output, P::Error>>,
    atoms: bool,
    of: P::PrattToken,
    sep: P::PrattToken,
    end_kind: P::PrattToken,
    start: Seq<P::Item>,
    end: P,
    r: Result<Vec<P::Output>, P::Error>,
) -> bool {
    &&& steps.len() > 0 ==> steps[0].stream == start
    &&& forall|i: int|
        0 <= i < steps.len() ==> {
            let st = #[trigger] steps[i];
            &&& item_ok::<P>(atoms, st.stream, of)
            &&& item_run::<P>(atoms, st.stream, st.after, st.result)
        }
    &&& forall|i: int, j: int|
        #![trigger steps[i], steps[j]]
        0 <= i && j == i + 1 && j < steps.len() ==> {
            let a = steps[i].after.remaining();
            &&& steps[i].result is Ok
            &&& a.len() > 0
            &&& same_route::<P>(P::kind_of(a[0]), sep)
            &&& steps[j].stream == a.drop_first()
        }
    &&& if steps.len() > 0 && steps.last().result is Err {
        r == Err::<Vec<P::Output>, P::Error>(steps.last().result->Err_0) && end == steps.last().after
    } else if steps.len() == 0 {
        item_failure::<P>(atoms, of, start, end, r)
    } else {
        let a = steps.last().after.remaining();
        if a.len() == 0 {
            r == Err::<Vec<P::Output>, P::Error>(P::error_of(VprattError::UnexpectedEOF)) && end.remaining() == a
        } else if same_route::<P>(P::kind_of(a[0]), sep) {
            item_failure::<P>(atoms, of, a.drop_first(), end, r)
        } else if same_route::<P>(P::kind_of(a[0]), end_kind) {
            r matches Ok(v) && v@ == outputs(steps) && end.remaining() == a.drop_first()
        } else {
            r == Err::<Vec<P::Output>, P::Error>(P::error_of(VprattError::UnexpectedToken(a[0])))
                && end.remaining() == a.drop_first()
        }
    }
}

/// A separated list read from `start`, ending in parser `end` with `r`.
pub open spec fn separated_run<P: VprattCore>(
    atoms: bool,
    of: P::PrattToken,
    sep: P::PrattToken,
    end_kind: P::PrattToken,
    start: Seq<P::Item>,
    end: P,
    r: Result<Vec<P::Output>, P::Error>,
) -> bool {
    exists|steps: Seq<ItemStep<P, P::Item, P::Output, P::Error>>|
        #[trigger] separated_chain::<P>(steps, atoms, of, sep, end_kind, start, end, r)
}

/// In an atom series, every item parsed is of the kind of `of` and none of
/// the kind of `delimiter`; a successful series stops at the end of input,
/// at an item of the kind of `delimiter`, or at one not of the kind of `of`,
/// and leaves that item in the stream.
pub proof fn lemma_series_atoms_are_of_kind<P: VprattCore>(
    steps: Seq<ItemStep<P, P::Item, P::Output, P::Error>>,
    of: P::PrattToken,
    delimiter: P::PrattToken,
    start: Seq<P::Item>,
    end: P,
    r: Result<Vec<P::Output>, P::Error>,
)
    requires
        series_chain::<P>(steps, true, of, delimiter, start, end, r),
    ensures
        forall|i: int|
            0 <= i < steps.len() ==> (#[trigger] steps[i]).stream.len() > 0 && same_route::<P>(
                P::kind_of(steps[i].stream[0]),
                of,
            ) && !same_route::<P>(P::kind_of(steps[i].stream[0]), delimiter),
        r is Ok ==> end.remaining().len() == 0 || same_route::<P>(P::kind_of(end.remaining()[0]), delimiter)
            || !same_route::<P>(P::kind_of(end.remaining()[0]), of),
        start.len() > 0 && (same_route::<P>(P::kind_of(start[0]), delimiter) || !same_route::<P>(
            P::kind_of(start[0]),
            of,
        )) ==> (steps.len() == 0 && (r matches Ok(v) && v@.len() == 0) && end.remaining() == start),
{
    assert forall|i: int| 0 <= i < steps.len() implies (#[trigger] steps[i]).stream.len() > 0
        && same_route::<P>(P::kind_of(steps[i].stream[0]), of) && !same_route::<P>(
        P::kind_of(steps[i].stream[0]),
        delimiter,
    ) by {
        assert(series_continues::<P>(true, steps[i].stream, of, delimiter));
    }
    if steps.len() > 0 {
        assert(steps[0].stream == start);
        assert(series_continues::<P>(true, steps[0].stream, of, delimiter));
    }
}

/// In an atom list, only items of the kind of `of` are list items: every
/// item the list parses is of that kind, and where an item is due (at the
/// start, or after a separator) and the next item is of another kind, the
/// list fails with `UnexpectedToken` naming that item, which is consumed.
pub proof fn lemma_separated_atoms_are_of_kind<P: VprattCore>(
    steps: Seq<ItemStep<P, P::Item, P::Output, P::Error>>,
    of: P::PrattToken,
    sep: P::PrattToken,
    end_kind: P::PrattToken,
    start: Seq<P::Item>,
    end: P,
    r: Result<Vec<P::Output>, P::Error>,
)
    requires
        separated_chain::<P>(steps, true, of, sep, end_kind, start, end, r),
    ensures
        forall|i: int|
            0 <= i < steps.len() ==> (#[trigger] steps[i]).stream.len() > 0 && same_route::<P>(
                P::kind_of(steps[i].stream[0]),
                of,
            ),
        start.len() > 0 && !same_route::<P>(P::kind_of(start[0]), of) ==> r == Err::<
            Vec<P::Output>,
            P::Error,
        >(P::error_of(VprattError::UnexpectedToken(start[0]))) && end.remaining() == start.drop_first(),
        r is Ok ==> forall|i: int|
            0 <= i < steps.len() ==> same_route::<P>(P::kind_of((#[trigger] steps[i]).stream[0]), of),
{
    assert forall|i: int| 0 <= i < steps.len() implies (#[trigger] steps[i]).stream.len() > 0
        && same_route::<P>(P::kind_of(steps[i].stream[0]), of) by {
        assert(item_ok::<P>(true, steps[i].stream, of));
    }
    if start.len() > 0 && !same_route::<P>(P::kind_of(start[0]), of) {
        if steps.len() > 0 {
            assert(steps[0].stream == start);
            assert(item_ok::<P>(true, steps[0].stream, of));
        }
    }
}

/// The same, of a whole run: a list whose first item is not of the kind of
/// `of` fails on it with `UnexpectedToken`, having consumed only it.
pub proof fn lemma_separated_atoms_first_item<P: VprattCore>(
    of: P::PrattToken,
    sep: P::PrattToken,
    end_kind: P::PrattToken,
    start: Seq<P::Item>,
    end: P,
    r: Result<Vec<P::Output>, P::Error>,
)
    requires
        separated_run::<P>(true, of, sep, end_kind, start, end, r),
        start.len() > 0,
        !same_route::<P>(P::kind_of(start[0]), of),
    ensures
        r == Err::<Vec<P::Output>, P::Error>(P::error_of(VprattError::UnexpectedToken(start[0]))),
        end.remaining() == start.drop_first(),
{
    let steps = choose|steps: Seq<ItemStep<P, P::Item, P::Output, P::Error>>|
        #[trigger] separated_chain::<P>(steps, true, of, sep, end_kind, start, end, r);
    lemma_separated_atoms_are_of_kind::<P>(steps, of, sep, end_kind, start, end, r);
}

/// Parses one list item: an atom (the front item through the prefix
/// dispatch) or a sub-expression at binding power 0.
fn parse_item<P: VprattCore>(p: &mut P, atoms: bool) -> (r: Result<P::Output, P::Error>)
    requires
        old(p).remaining().len() > 0,
    ensures
        item_run::<P>(atoms, old(p).remaining(), *final(p), r),
{
    let ghost start = p.remaining();
    if atoms {
        let token = p.__next__().unwrap();
        proof {
            lemma_advanced_drop_first(start);
        }
        let ghost mid = p.remaining();
        let ghost before = *p;
        let r = p.__nud__(token);
        proof {
            lemma_advanced_trans(start, mid, p.remaining());
            assert(before.remaining() == start.drop_first());
        }
        r
    } else {
        p.__pratt_parse_internal__(0)
    }
}

/// Reads a series from the stream: items while the series goes on.
fn read_series<P: VprattCore>(
    p: &mut P,
    atoms: bool,
    of: P::PrattToken,
    delimiter: P::PrattToken,
) -> (r: Result<Vec<P::Output>, P::Error>)
    ensures
        advanced(old(p).remaining(), final(p).remaining()),
        series_run::<P>(atoms, of, delimiter, old(p).remaining(), *final(p), r),
{
    let ghost start = p.remaining();
    let ghost mut steps: Seq<ItemStep<P, P::Item, P::Output, P::Error>> = Seq::empty();
    let mut items: Vec<P::Output> = Vec::new();
    proof {
        lemma_advanced_refl(start);
        assert(items@ =~= outputs(steps));
    }
    loop
        invariant
            start == old(p).remaining(),
            advanced(start, p.remaining()),
            steps.len() > 0 ==> steps[0].stream == start,
            forall|i: int|
                0 <= i < steps.len() ==> {
                    let st = #[trigger] steps[i];
                    &&& series_continues::<P>(atoms, st.stream, of, delimiter)
                    &&& item_run::<P>(atoms, st.stream, st.after, st.result)
                    &&& st.result is Ok
                },
            forall|i: int, j: int|
                #![trigger steps[i], steps[j]]
                0 <= i && j == i + 1 && j < steps.len() ==> steps[j].stream == steps[i].after.remaining(),
            p.remaining() == (if steps.len() == 0 {
                start
            } else {
                steps.last().after.remaining()
            }),
            steps.len() > 0 ==> *p == steps.last().after,
            items@ == outputs(steps),
        decreases p.remaining().len(),
    {
        let kind = match p.__peek__() {
            Some(kind) => kind,
            None => {
                proof {
                    assert(series_chain::<P>(steps, atoms, of, delimiter, start, *p, Ok(items)));
                }
                return Ok(items);
            },
        };
        if same_kind::<P>(&kind, &delimiter) || (atoms && !same_kind::<P>(&kind, &of)) {
            proof {
                assert(series_chain::<P>(steps, atoms, of, delimiter, start, *p, Ok(items)));
            }
            return Ok(items);
        }
        let ghost s = p.remaining();
        let r = parse_item(p, atoms);
        let ghost step = ItemStep { stream: s, after: *p, result: r };
        proof {
            lemma_advanced_trans(start, s, p.remaining());
            let old_steps = steps;
            steps = steps.push(step);
            assert(steps.last() == step);
            assert forall|i: int| 0 <= i < old_steps.len() implies steps[i] == old_steps[i] by {}
            assert forall|i: int, j: int|
                #![trigger steps[i], steps[j]]
                0 <= i && j == i + 1 && j < steps.len() implies steps[j].stream == steps[i].after.remaining() by {
                if j < old_steps.len() {
                    assert(steps[i] == old_steps[i] && steps[j] == old_steps[j]);
                }
            }
        }
        match r {
            Ok(v) => {
                items.push(v);
                proof {
                    assert(items@ =~= outputs(steps));
                }
            },
            Err(e) => {
                proof {
                    assert(series_chain::<P>(steps, atoms, of, delimiter, start, *p, Err(e)));
                }
                return Err(e);
            },
        }
    }
}

/// Reads a separated list from the stream: `item (sep item)* end`.
fn read_separated<P: VprattCore>(
    p: &mut P,
    atoms: bool,
    of: P::PrattToken,
    sep: P::PrattToken,
    end: P::PrattToken,
) -> (r: Result<Vec<P::Output>, P::Error>)
    ensures
        advanced(old(p).remaining(), final(p).remaining()),
        separated_run::<P>(atoms, of, sep, end, old(p).remaining(), *final(p), r),
{
    let ghost start = p.remaining();
    let ghost mut steps: Seq<ItemStep<P, P::Item, P::Output, P::Error>> = Seq::empty();
    let mut items: Vec<P::Output> = Vec::new();
    proof {
        lemma_advanced_refl(start);
        assert(items@ =~= outputs(steps));
    }
    loop
        invariant
            start == old(p).remaining(),
            advanced(start, p.remaining()),
            steps.len() > 0 ==> steps[0].stream == start,
            forall|i: int|
                0 <= i < steps.len() ==> {
                    let st = #[trigger] steps[i];
                    &&& item_ok::<P>(atoms, st.stream, of)
                    &&& item_run::<P>(atoms, st.stream, st.after, st.result)
                    &&& st.result is Ok
                    &&& st.after.remaining().len() > 0
                    &&& same_route::<P>(P::kind_of(st.after.remaining()[0]), sep)
                },
            forall|i: int, j: int|
                #![trigger steps[i], steps[j]]
                0 <= i && j == i + 1 && j < steps.len() ==> steps[j].stream == steps[i].after.remaining().drop_first(),
            p.remaining() == (if steps.len() == 0 {
                start
            } else {
                steps.last().after.remaining().drop_first()
            }),
            items@ == outputs(steps),
        decreases p.remaining().len(),
    {
        let ghost c = p.remaining();
        let kind = match p.__peek__() {
            Some(kind) => kind,
            None => {
                let err = P::__convert_error__(VprattError::UnexpectedEOF);
                proof {
                    assert(separated_chain::<P>(steps, atoms, of, sep, end, start, *p, Err(err)));
                }
                return Err(err);
            },
        };
        if atoms && !same_kind::<P>(&kind, &of) {
            let actual = p.__next__().unwrap();
            let err = P::__convert_error__(VprattError::UnexpectedToken(actual));
            proof {
                lemma_advanced_drop_first(c);
                lemma_advanced_trans(start, c, p.remaining());
                assert(separated_chain::<P>(steps, atoms, of, sep, end, start, *p, Err(err)));
            }
            return Err(err);
        }
        let r = parse_item(p, atoms);
        let ghost step = ItemStep { stream: c, after: *p, result: r };
        let ghost old_steps = steps;
        proof {
            lemma_advanced_trans(start, c, p.remaining());
            steps = steps.push(step);
            assert(steps.last() == step);
            assert forall|i: int| 0 <= i < old_steps.len() implies steps[i] == old_steps[i] by {}
        }
        let v = match r {
            Ok(v) => v,
            Err(e) => {
                proof {
                    assert(separated_chain::<P>(steps, atoms, of, sep, end, start, *p, Err(e)));
                }
                return Err(e);
            },
        };
        items.push(v);
        proof {
            assert(items@ =~= outputs(steps));
        }
        let ghost a = p.remaining();
        let kind = match p.__peek__() {
            Some(kind) => kind,
            None => {
                let err = P::__convert_error__(VprattError::UnexpectedEOF);
                proof {
                    assert(separated_chain::<P>(steps, atoms, of, sep, end, start, *p, Err(err)));
                }
                return Err(err);
            },
        };
        if same_kind::<P>(&kind, &sep) {
            let _ = p.__next__();
            proof {
                lemma_advanced_drop_first(a);
                lemma_advanced_trans(start, a, p.remaining());
                assert forall|i: int|
                    0 <= i < steps.len() implies {
                        let st = #[trigger] steps[i];
                        &&& item_ok::<P>(atoms, st.stream, of)
                        &&& item_run::<P>(atoms, st.stream, st.after, st.result)
                        &&& st.result is Ok
                        &&& st.after.remaining().len() > 0
                        &&& same_route::<P>(P::kind_of(st.after.remaining()[0]), sep)
                    } by {
                    if i < old_steps.len() {
                        assert(steps[i] == old_steps[i]);
                    }
                }
                assert forall|i: int, j: int|
                    #![trigger steps[i], steps[j]]
                    0 <= i && j == i + 1 && j < steps.len() implies steps[j].stream
                        == steps[i].after.remaining().drop_first() by {
                    if j < old_steps.len() {
                        assert(steps[i] == old_steps[i] && steps[j] == old_steps[j]);
                    }
                }
            }
        } else if same_kind::<P>(&kind, &end) {
            let _ = p.__next__();
            proof {
                lemma_advanced_drop_first(a);
                lemma_advanced_trans(start, a, p.remaining());
                assert(separated_chain::<P>(steps, atoms, of, sep, end, start, *p, Ok(items)));
            }
            return Ok(items);
        } else {
            let actual = p.__next__().unwrap();
            let err = P::__convert_error__(VprattError::UnexpectedToken(actual));
            proof {
                lemma_advanced_drop_first(a);
                lemma_advanced_trans(start, a, p.remaining());
                assert(separated_chain::<P>(steps, atoms, of, sep, end, start, *p, Err(err)));
            }
            return Err(err);
        }
    }
}

/// Utility methods available on every context type.
pub trait CtxUtils<P: VprattCore> {
    /// Consumes the next item if it is routed as `expected`.
    ///
    /// On an exhausted stream fails with `UnexpectedEOF` and consumes nothing;
    /// when the next item is routed otherwise it consumes it and fails with
    /// `ExpectedTokenMismatch(expected, item)`.
    fn expect(&self, p: &mut P, expected: P::PrattToken) -> (r: Result<Consumed<P::Item>, P::Error>)
        ensures
            old(p).remaining().len() == 0 ==> r == Err::<Consumed<P::Item>, P::Error>(
                P::error_of(VprattError::UnexpectedEOF),
            ) && final(p).remaining() == old(p).remaining(),
            old(p).remaining().len() > 0 && same_route::<P>(P::kind_of(old(p).remaining()[0]), expected) ==> r
                == Ok::<Consumed<P::Item>, P::Error>((Consumed { token: old(p).remaining()[0] }))
                && final(p).remaining() == old(p).remaining().drop_first(),
            old(p).remaining().len() > 0 && !same_route::<P>(P::kind_of(old(p).remaining()[0]), expected) ==> r
                == Err::<Consumed<P::Item>, P::Error>(
                P::error_of(VprattError::ExpectedTokenMismatch(expected, old(p).remaining()[0])),
            ) && final(p).remaining() == old(p).remaining().drop_first(),
    {
        match p.__peek__() {
            None => Err(P::__convert_error__(VprattError::UnexpectedEOF)),
            Some(kind) => {
                if same_kind::<P>(&kind, &expected) {
                    let token = p.__next__().unwrap();
                    Ok(Consumed::__new__(token))
                } else {
                    let actual = p.__next__().unwrap();
                    Err(P::__convert_error__(VprattError::ExpectedTokenMismatch(expected, actual)))
                }
            },
        }
    }

    /// Consumes the next item if it is routed as `expected`; otherwise leaves
    /// the stream untouched. Never fails.
    fn accept(&self, p: &mut P, expected: P::PrattToken) -> (r: Result<
        Option<Consumed<P::Item>>,
        P::Error,
    >)
        ensures
            old(p).remaining().len() > 0 && same_route::<P>(P::kind_of(old(p).remaining()[0]), expected) ==> r
                == Ok::<Option<Consumed<P::Item>>, P::Error>(
                Some((Consumed { token: old(p).remaining()[0] })),
            ) && final(p).remaining() == old(p).remaining().drop_first(),
            !(old(p).remaining().len() > 0 && same_route::<P>(P::kind_of(old(p).remaining()[0]), expected)) ==> r
                == Ok::<Option<Consumed<P::Item>>, P::Error>(None) && final(p).remaining() == old(
                p,
            ).remaining(),
    {
        match p.__peek__() {
            Some(kind) => {
                if same_kind::<P>(&kind, &expected) {
                    let token = p.__next__().unwrap();
                    Ok(Some(Consumed::__new__(token)))
                } else {
                    Ok(None)
                }
            },
            None => Ok(None),
        }
    }

    /// Collects atoms: while the next item is of the kind of `of` and not of
    /// the kind of `delimiter`, takes it and routes it through the prefix
    /// dispatch. The delimiter (or any other item) is left in the stream.
    /// Fails with the first failing atom's error.
    fn series(&self, p: &mut P, of: P::PrattToken, delimiter: P::PrattToken) -> (r: Result<
        Vec<P::Output>,
        P::Error,
    >)
        ensures
            advanced(old(p).remaining(), final(p).remaining()),
            series_run::<P>(true, of, delimiter, old(p).remaining(), *final(p), r),
    {
        read_series(p, true, of, delimiter)
    }

    /// Collects the atoms of the list `of (sep of)* end`; `end` is consumed.
    ///
    /// Neither a leading nor a trailing separator is accepted. On an exhausted
    /// stream fails with `UnexpectedEOF`; an item that does not fit the list
    /// is consumed and reported as `UnexpectedToken`; a failing atom's error
    /// is passed on.
    fn separated(
        &self,
        p: &mut P,
        of: P::PrattToken,
        sep: P::PrattToken,
        end: P::PrattToken,
    ) -> (r: Result<Vec<P::Output>, P::Error>)
        ensures
            advanced(old(p).remaining(), final(p).remaining()),
            separated_run::<P>(true, of, sep, end, old(p).remaining(), *final(p), r),
    {
        read_separated(p, true, of, sep, end)
    }

    /// Collects sub-expressions (each parsed from binding power 0) until an
    /// item of the kind of `delimiter` is next, or the stream ends. The
    /// delimiter is not consumed. Fails with the first failing
    /// sub-expression's error.
    fn series_sub(&self, p: &mut P, delimiter: P::PrattToken) -> (r: Result<Vec<P::Output>, P::Error>)
        ensures
            advanced(old(p).remaining(), final(p).remaining()),
            series_run::<P>(false, delimiter, delimiter, old(p).remaining(), *final(p), r),
    {
        read_series(p, false, delimiter, delimiter)
    }

    /// Collects the sub-expressions (each parsed from binding power 0) of
    /// the list `sub (sep sub)* end`; `end` is consumed. An exhausted stream
    /// fails with `UnexpectedEOF`; an item other than `sep` or `end` after a
    /// sub-expression is consumed and reported as `UnexpectedToken`; a
    /// failing sub-expression's error is passed on.
    fn separated_sub(&self, p: &mut P, sep: P::PrattToken, end: P::PrattToken) -> (r: Result<
        Vec<P::Output>,
        P::Error,
    >)
        ensures
            advanced(old(p).remaining(), final(p).remaining()),
            separated_run::<P>(false, sep, sep, end, old(p).remaining(), *final(p), r),
    {
        read_separated(p, false, sep, sep, end)
    }
}

impl<'a, P: VprattCore> CtxUtils<P> for crate::context::TerminalCtx<'a, P> {}
impl<'a, P: VprattCore> CtxUtils<P> for crate::context::GroupCtx<'a, P> {}
impl<'a, P: VprattCore> CtxUtils<P> for crate::context::StructuralCtx<'a, P> {}
impl<'a, P: VprattCore> CtxUtils<P> for crate::context::PrefixCtx<'a, P> {}
impl<'a, P: VprattCore> CtxUtils<P> for crate::context::InfixCtx<'a, P> {}
impl<'a, P: VprattCore> CtxUtils<P> for crate::context::PostfixCtx<'a, P> {}
impl<'a, P: VprattCore> CtxUtils<P> for crate::context::ImpliedCtx<'a, P> {}
impl<'a, P: VprattCore> CtxUtils<P> for crate::context::JuxtCtx<'a, P> {}

} // verus!
