//! The rearrangement of an expression from the order in which it is written
//! into reverse-Polish order, in which every operator follows its operands.

use vstd::prelude::*;
use crate::elements::expr::arithmetic::elem::ArithElem;
use crate::elements::expr::arithmetic::elem::ElemView;
use crate::elements::expr::arithmetic::elem::elem_views;

verus! {

/// The two lists of the rearrangement: what has been put out, and the
/// operators and open parentheses that wait, the latest last.
pub struct Yard {
    pub out: Seq<ElemView>,
    pub ops: Seq<ElemView>,
}

/// Whether the waiting operator `top` has to be put out before the operator
/// `e` may wait: it binds tighter, or as tightly where the group reads from
/// the left.
pub open spec fn yields(top: ElemView, e: ElemView) -> bool {
    top.is_operator() && (top.precedence() > e.precedence() || (top.precedence() == e.precedence()
        && !e.right_associative()))
}

/// Puts out the waiting operators that yield to `e`.
pub open spec fn unwind(y: Yard, e: ElemView) -> Yard
    decreases y.ops.len(),
{
    if y.ops.len() > 0 && yields(y.ops.last(), e) {
        unwind(Yard { out: y.out.push(y.ops.last()), ops: y.ops.drop_last() }, e)
    } else {
        y
    }
}

/// Puts out the waiting operators down to the last open parenthesis and
/// removes that parenthesis; `None` where none is open.
pub open spec fn close(y: Yard) -> Option<Yard>
    decreases y.ops.len(),
{
    if y.ops.len() == 0 {
        None
    } else if y.ops.last() is LeftParen {
        Some(Yard { out: y.out, ops: y.ops.drop_last() })
    } else {
        close(Yard { out: y.out.push(y.ops.last()), ops: y.ops.drop_last() })
    }
}

/// Takes in one token. An operand is put out. An opening parenthesis waits. A
/// closing one closes the last open one. An operator first lets the waiting
/// operators that yield to it go out; then the conditional goes out itself,
/// and any other operator waits, `&&` and `||` after leaving their mark behind
/// the left operand. `None` where the token cannot stand there.
pub open spec fn feed(y: Yard, e: ElemView) -> Option<Yard> {
    if e.is_operand() {
        Some(Yard { out: y.out.push(e), ops: y.ops })
    } else if e is LeftParen {
        Some(Yard { out: y.out, ops: y.ops.push(e) })
    } else if e is RightParen {
        close(y)
    } else if e is Ternary {
        let u = unwind(y, e);
        Some(Yard { out: u.out.push(e), ops: u.ops })
    } else if e.is_logical() {
        let u = unwind(y, e);
        Some(Yard { out: u.out.push(ElemView::Delimiter(e->BinaryOp_0)), ops: u.ops.push(e) })
    } else if e.is_operator() {
        let u = unwind(y, e);
        Some(Yard { out: u.out, ops: u.ops.push(e) })
    } else {
        None
    }
}

/// Takes in the tokens one after another; the error is the first token that
/// cannot stand where it stands.
pub open spec fn feed_all(y: Yard, tokens: Seq<ElemView>) -> Result<Yard, ElemView>
    decreases tokens.len(),
{
    if tokens.len() == 0 {
        Ok(y)
    } else {
        match feed(y, tokens[0]) {
            Some(next) => feed_all(next, tokens.drop_first()),
            None => Err(tokens[0]),
        }
    }
}

/// Puts out all waiting operators, the latest first; `None` where a
/// parenthesis is still open.
pub open spec fn drain(y: Yard) -> Option<Seq<ElemView>>
    decreases y.ops.len(),
{
    if y.ops.len() == 0 {
        Some(y.out)
    } else if y.ops.last() is LeftParen {
        None
    } else {
        drain(Yard { out: y.out.push(y.ops.last()), ops: y.ops.drop_last() })
    }
}

/// The tokens in reverse-Polish order, or the token at which the
/// rearrangement fails.
pub open spec fn rearranged(tokens: Seq<ElemView>) -> Result<Seq<ElemView>, ElemView> {
    match feed_all(Yard { out: Seq::empty(), ops: Seq::empty() }, tokens) {
        Ok(y) => match drain(y) {
            Some(out) => Ok(out),
            None => Err(ElemView::LeftParen),
        },
        Err(e) => Err(e),
    }
}

/// The state of the two lists as the executable code holds them.
spec fn yard_of(out: Seq<ArithElem>, ops: Seq<ArithElem>) -> Yard {
    Yard { out: elem_views(out), ops: elem_views(ops) }
}

fn unwind_into(out: &mut Vec<ArithElem>, ops: &mut Vec<ArithElem>, e: &ArithElem)
    ensures
        yard_of(final(out)@, final(ops)@) == unwind(yard_of(old(out)@, old(ops)@), e@),
{
    let p = e.order();
    let right = p == 14 || p == 13 || p == 2 || p == 1;
    loop
        invariant
            p == e@.precedence(),
            right == e@.right_associative(),
            unwind(yard_of(out@, ops@), e@) == unwind(yard_of(old(out)@, old(ops)@), e@),
        ensures
            unwind(yard_of(out@, ops@), e@) == yard_of(out@, ops@),
        decreases ops.len(),
    {
        if ops.len() == 0 {
            assert(yard_of(out@, ops@).ops.len() == 0);
            break ;
        }
        let top = &ops[ops.len() - 1];
        let q = top.order();
        let goes = top.is_operator() && (q > p || (q == p && !right));
        assert(elem_views(ops@).last() == top@);
        if !goes {
            assert(!yields(yard_of(out@, ops@).ops.last(), e@));
            break ;
        }
        let ghost before = yard_of(out@, ops@);
        let top = ops.pop().unwrap();
        out.push(top);
        assert(elem_views(out@) =~= before.out.push(before.ops.last()));
        assert(elem_views(ops@) =~= before.ops.drop_last());
    }
}

fn close_into(out: &mut Vec<ArithElem>, ops: &mut Vec<ArithElem>) -> (ok: bool)
    ensures
        match close(yard_of(old(out)@, old(ops)@)) {
            Some(y) => ok && yard_of(final(out)@, final(ops)@) == y,
            None => !ok,
        },
{
    loop
        invariant
            close(yard_of(out@, ops@)) == close(yard_of(old(out)@, old(ops)@)),
        decreases ops.len(),
    {
        let ghost before = yard_of(out@, ops@);
        match ops.pop() {
            None => {
                return false;
            },
            Some(top) => {
                assert(elem_views(ops@) =~= before.ops.drop_last());
                assert(before.ops.last() == top@);
                if let ArithElem::LeftParen = top {
                    return true;
                }
                out.push(top);
                assert(elem_views(out@) =~= before.out.push(before.ops.last()));
            },
        }
    }
}

fn feed_into(out: &mut Vec<ArithElem>, ops: &mut Vec<ArithElem>, e: &ArithElem) -> (ok: bool)
    ensures
        match feed(yard_of(old(out)@, old(ops)@), e@) {
            Some(y) => ok && yard_of(final(out)@, final(ops)@) == y,
            None => !ok,
        },
{
    let ghost before = yard_of(out@, ops@);
    match e {
        ArithElem::Integer(_) | ArithElem::Float(_) | ArithElem::Word(_, _) => {
            out.push(e.duplicate());
            assert(elem_views(out@) =~= before.out.push(e@));
            true
        },
        ArithElem::LeftParen => {
            ops.push(ArithElem::LeftParen);
            assert(elem_views(ops@) =~= before.ops.push(e@));
            true
        },
        ArithElem::RightParen => close_into(out, ops),
        ArithElem::Ternary(_, _) => {
            unwind_into(out, ops, e);
            let ghost u = yard_of(out@, ops@);
            out.push(e.duplicate());
            assert(elem_views(out@) =~= u.out.push(e@));
            true
        },
        ArithElem::BinaryOp(op) => {
            unwind_into(out, ops, e);
            let ghost u = yard_of(out@, ops@);
            if e.is_logical() {
                out.push(ArithElem::Delimiter(op.clone()));
                assert(elem_views(out@) =~= u.out.push(ElemView::Delimiter(op@)));
            }
            ops.push(e.duplicate());
            assert(elem_views(ops@) =~= u.ops.push(e@));
            true
        },
        ArithElem::UnaryOp(_) | ArithElem::Increment(_) => {
            unwind_into(out, ops, e);
            let ghost u = yard_of(out@, ops@);
            ops.push(e.duplicate());
            assert(elem_views(ops@) =~= u.ops.push(e@));
            true
        },
        ArithElem::Delimiter(_) => false,
    }
}

fn drain_into(out: &mut Vec<ArithElem>, ops: &mut Vec<ArithElem>) -> (ok: bool)
    ensures
        match drain(yard_of(old(out)@, old(ops)@)) {
            Some(all) => ok && elem_views(final(out)@) == all,
            None => !ok,
        },
{
    loop
        invariant
            drain(yard_of(out@, ops@)) == drain(yard_of(old(out)@, old(ops)@)),
        decreases ops.len(),
    {
        let ghost before = yard_of(out@, ops@);
        match ops.pop() {
            None => {
                return true;
            },
            Some(top) => {
                assert(elem_views(ops@) =~= before.ops.drop_last());
                assert(before.ops.last() == top@);
                if let ArithElem::LeftParen = top {
                    return false;
                }
                out.push(top);
                assert(elem_views(out@) =~= before.out.push(before.ops.last()));
            },
        }
    }
}

/// Rearranges the tokens into reverse-Polish order. The error is the token at
/// which this fails: a closing parenthesis without its opening one, an opening
/// one that is never closed, a mark that only the rearrangement itself may set.
pub fn rearrange(elements: &Vec<ArithElem>) -> (r: Result<Vec<ArithElem>, ArithElem>)
    ensures
        match rearranged(elem_views(elements@)) {
            Ok(out) => r matches Ok(v) && elem_views(v@) == out,
            Err(e) => r matches Err(x) && x@ == e,
        },
{
    let mut out: Vec<ArithElem> = Vec::new();
    let mut ops: Vec<ArithElem> = Vec::new();
    let ghost tokens = elem_views(elements@);
    let ghost start = Yard { out: Seq::empty(), ops: Seq::empty() };
    assert(yard_of(out@, ops@) == start) by {
        assert(elem_views(out@) =~= Seq::empty());
        assert(elem_views(ops@) =~= Seq::empty());
    }
    let mut i: usize = 0;
    assert(tokens.skip(0) =~= tokens);
    while i < elements.len()
        invariant
            i <= elements.len(),
            tokens == elem_views(elements@),
            start == (Yard { out: Seq::empty(), ops: Seq::empty() }),
            feed_all(yard_of(out@, ops@), tokens.skip(i as int)) == feed_all(start, tokens),
        decreases elements.len() - i,
    {
        assert(tokens.skip(i as int)[0] == elements@[i as int]@);
        assert(tokens.skip(i as int).drop_first() =~= tokens.skip(i + 1));
        let ghost before = yard_of(out@, ops@);
        if !feed_into(&mut out, &mut ops, &elements[i]) {
            assert(feed_all(before, tokens.skip(i as int)) == Err::<Yard, ElemView>(
                elements@[i as int]@,
            ));
            return Err(elements[i].duplicate());
        }
        i += 1;
    }
    if drain_into(&mut out, &mut ops) {
        Ok(out)
    } else {
        Err(ArithElem::LeftParen)
    }
}

/// The yard `y` with the waiting list `base` below its own.
pub open spec fn lifted(y: Yard, base: Seq<ElemView>) -> Yard {
    Yard { out: y.out, ops: base + y.ops }
}

proof fn lemma_unwind_lifted(y: Yard, base: Seq<ElemView>, e: ElemView)
    requires
        base.len() > 0,
        base.last() is LeftParen,
    ensures
        unwind(lifted(y, base), e) == lifted(unwind(y, e), base),
    decreases y.ops.len(),
{
    let l = lifted(y, base);
    if y.ops.len() > 0 {
        assert(l.ops.last() == y.ops.last());
        if yields(y.ops.last(), e) {
            let next = Yard { out: y.out.push(y.ops.last()), ops: y.ops.drop_last() };
            lemma_unwind_lifted(next, base, e);
            assert(l.ops.drop_last() =~= base + y.ops.drop_last());
            assert(lifted(next, base) == (Yard {
                out: l.out.push(l.ops.last()),
                ops: l.ops.drop_last(),
            }));
        }
    } else {
        assert(l.ops =~= base);
        assert(!yields(l.ops.last(), e));
    }
}

proof fn lemma_close_lifted(y: Yard, base: Seq<ElemView>)
    requires
        close(y) is Some,
    ensures
        close(lifted(y, base)) == Some(lifted(close(y)->0, base)),
    decreases y.ops.len(),
{
    let l = lifted(y, base);
    if y.ops.len() > 0 {
        assert(l.ops.last() == y.ops.last());
        assert(l.ops.drop_last() =~= base + y.ops.drop_last());
        if !(y.ops.last() is LeftParen) {
            let next = Yard { out: y.out.push(y.ops.last()), ops: y.ops.drop_last() };
            lemma_close_lifted(next, base);
            assert(lifted(next, base) == (Yard {
                out: l.out.push(l.ops.last()),
                ops: l.ops.drop_last(),
            }));
        }
    }
}

proof fn lemma_feed_lifted(y: Yard, base: Seq<ElemView>, e: ElemView)
    requires
        base.len() > 0,
        base.last() is LeftParen,
        feed(y, e) is Some,
    ensures
        feed(lifted(y, base), e) == Some(lifted(feed(y, e)->0, base)),
{
    lemma_unwind_lifted(y, base, e);
    let u = unwind(y, e);
    assert((base + y.ops).push(e) =~= base + y.ops.push(e));
    assert((base + u.ops).push(e) =~= base + u.ops.push(e));
    if e is RightParen {
        lemma_close_lifted(y, base);
    }
}

proof fn lemma_feed_all_lifted(y: Yard, base: Seq<ElemView>, tokens: Seq<ElemView>)
    requires
        base.len() > 0,
        base.last() is LeftParen,
        feed_all(y, tokens) is Ok,
    ensures
        feed_all(lifted(y, base), tokens) == Ok::<Yard, ElemView>(
            lifted(feed_all(y, tokens)->Ok_0, base),
        ),
    decreases tokens.len(),
{
    if tokens.len() > 0 {
        lemma_feed_lifted(y, base, tokens[0]);
        lemma_feed_all_lifted(feed(y, tokens[0])->0, base, tokens.drop_first());
    }
}

proof fn lemma_close_drains(y: Yard)
    requires
        drain(y) is Some,
    ensures
        close(lifted(y, seq![ElemView::LeftParen])) == Some(
            Yard { out: drain(y)->0, ops: Seq::empty() },
        ),
    decreases y.ops.len(),
{
    let base = seq![ElemView::LeftParen];
    let l = lifted(y, base);
    if y.ops.len() > 0 {
        assert(l.ops.last() == y.ops.last());
        assert(l.ops.drop_last() =~= base + y.ops.drop_last());
        let next = Yard { out: y.out.push(y.ops.last()), ops: y.ops.drop_last() };
        lemma_close_drains(next);
        assert(lifted(next, base) == (Yard {
            out: l.out.push(l.ops.last()),
            ops: l.ops.drop_last(),
        }));
    } else {
        assert(l.ops =~= base);
        assert(l.ops.drop_last() =~= Seq::<ElemView>::empty());
    }
}

proof fn lemma_feed_all_append(y: Yard, a: Seq<ElemView>, b: Seq<ElemView>)
    ensures
        feed_all(y, a + b) == match feed_all(y, a) {
            Ok(m) => feed_all(m, b),
            Err(e) => Err(e),
        },
    decreases a.len(),
{
    if a.len() == 0 {
        assert(a + b =~= b);
    } else {
        assert((a + b)[0] == a[0]);
        assert((a + b).drop_first() =~= a.drop_first() + b);
        match feed(y, a[0]) {
            Some(next) => {
                lemma_feed_all_append(next, a.drop_first(), b);
            },
            None => {},
        }
    }
}

proof fn lemma_feed_all_one(y: Yard, t: ElemView)
    ensures
        feed_all(y, seq![t]) == match feed(y, t) {
            Some(next) => Ok::<Yard, ElemView>(next),
            None => Err::<Yard, ElemView>(t),
        },
{
    let one = seq![t];
    assert(one[0] == t);
    assert(one.drop_first() =~= Seq::<ElemView>::empty());
    match feed(y, t) {
        Some(next) => {
            assert(feed_all(next, one.drop_first()) == Ok::<Yard, ElemView>(next));
        },
        None => {},
    }
}

/// A pair of parentheses around tokens that can be rearranged changes
/// nothing in the result of the rearrangement.
pub proof fn lemma_parentheses(tokens: Seq<ElemView>)
    requires
        rearranged(tokens) is Ok,
    ensures
        rearranged(seq![ElemView::LeftParen] + tokens + seq![ElemView::RightParen]) == rearranged(
            tokens,
        ),
{
    let start = Yard { out: Seq::empty(), ops: Seq::empty() };
    let open = seq![ElemView::LeftParen];
    let shut = seq![ElemView::RightParen];
    let inner = feed_all(start, tokens)->Ok_0;
    let opened = Yard { out: Seq::<ElemView>::empty(), ops: open };
    assert(start.ops.push(ElemView::LeftParen) =~= open);
    lemma_feed_all_one(start, ElemView::LeftParen);
    assert(feed_all(start, open) == Ok::<Yard, ElemView>(opened));
    assert(lifted(start, open).ops =~= open);
    assert(lifted(start, open) == opened);
    lemma_feed_all_lifted(start, open, tokens);
    lemma_feed_all_append(start, open, tokens);
    lemma_feed_all_append(start, open + tokens, shut);
    lemma_close_drains(inner);
    let closed = Yard { out: drain(inner)->0, ops: Seq::<ElemView>::empty() };
    lemma_feed_all_one(lifted(inner, open), ElemView::RightParen);
    assert(feed_all(lifted(inner, open), shut) == Ok::<Yard, ElemView>(closed));
}

} // verus!
