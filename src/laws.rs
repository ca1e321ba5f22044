use crate::parser::{
    bind_target, binder_wf, repeat_loop, AndThen, ControlFlow, NoTerminator, Parser, Pure, Repeat,
    SequenceSettings,
};
use crate::position::FatChar;
use vstd::prelude::*;

verus! {

/// A constant parser succeeds with its value and leaves the text as it was.
pub proof fn lemma_pure_keeps_state<T: Clone + DeepView>(v: T, s: Seq<FatChar>)
    ensures
        (Pure { value: v }).outcome(s) == (Some(v.deep_view()), s),
{
}

/// Left identity: binding a constant parser to `f` behaves as the parser that
/// `f` makes from the constant.
pub proof fn lemma_bind_left_identity<T: Clone + DeepView, Q: Parser, F: Fn(T) -> Q>(
    v: T,
    f: F,
    q: Q,
    s: Seq<FatChar>,
)
    requires
        binder_wf::<T, Q, F>(f),
        f.ensures((v,), q),
    ensures
        (AndThen { left: Pure { value: v }, right: f }).outcome(s) == q.outcome(s),
{
    let w = (v, q);
    assert(w.0.deep_view() == v.deep_view() && f.ensures((w.0,), w.1));
    let c = choose|p: (T, Q)| p.0.deep_view() == v.deep_view() && #[trigger] f.ensures((p.0,), p.1);
    assert(q.outcome(s) == c.1.outcome(s));
}

/// Associativity: binding `p` to `f` and the result to `g` behaves as binding
/// `p` to the function that binds `f`'s parser to `g`.
pub proof fn lemma_bind_associative<
    P: Parser,
    Q: Parser,
    R: Parser,
    F: Fn(P::Value) -> Q,
    G: Fn(Q::Value) -> R,
>(p: P, f: F, g: G, s: Seq<FatChar>)
    ensures
        (AndThen { left: AndThen { left: p, right: f }, right: g }).outcome(s) == match p.outcome(
            s,
        ) {
            (Some(v), s2) => (AndThen { left: bind_target::<P::Value, Q, F>(f, v), right: g }).outcome(
                s2,
            ),
            (None, s2) => (None, s2),
        },
{
}

/// `h` gives some result for `a`.
pub open spec fn gives_some<A, B, H: Fn(A) -> B>(h: H, a: A) -> bool {
    exists|r: B| #[trigger] h.ensures((a,), r)
}

/// Associativity with the right side as a closure: where `h` makes, for each
/// value `x`, the parser `and_then(f(x), g)`, binding `p` to `f` and then to `g`
/// behaves as binding `p` to `h`. Every value model that `p` yields is the model
/// of some value, and `f` and `h` give a parser for every value.
pub proof fn lemma_bind_associative_closure<
    P: Parser,
    Q: Parser,
    R: Parser,
    F: Fn(P::Value) -> Q,
    G: Fn(Q::Value) -> R,
    H: Fn(P::Value) -> AndThen<Q, G>,
>(p: P, f: F, g: G, h: H, s: Seq<FatChar>)
    requires
        binder_wf::<P::Value, Q, F>(f),
        forall|a: P::Value, r: AndThen<Q, G>|
            #[trigger] h.ensures((a,), r) ==> exists|q: Q| #[trigger]
                f.ensures((a,), q) && r == (AndThen { left: q, right: g }),
        forall|a: P::Value| #[trigger] gives_some::<P::Value, AndThen<Q, G>, H>(h, a),
        forall|v: <P::Value as DeepView>::V|
            (#[trigger] p.outcome(s)).0 == Some(v) ==> exists|a: P::Value| #[trigger] a.deep_view() == v,
    ensures
        (AndThen { left: AndThen { left: p, right: f }, right: g }).outcome(s) == (AndThen {
            left: p,
            right: h,
        }).outcome(s),
{
    match p.outcome(s) {
        (Some(v), s2) => {
            let a = choose|a: P::Value| #[trigger] a.deep_view() == v;
            assert(gives_some::<P::Value, AndThen<Q, G>, H>(h, a));
            let r = choose|r: AndThen<Q, G>| #[trigger] h.ensures((a,), r);
            assert(exists|w: (P::Value, AndThen<Q, G>)| w.0.deep_view() == v && #[trigger] h.ensures((w.0,), w.1)) by {
                let w = (a, r);
                assert(w.0.deep_view() == v && h.ensures((w.0,), w.1));
            }
            let ch = choose|w: (P::Value, AndThen<Q, G>)| w.0.deep_view() == v && #[trigger] h.ensures((w.0,), w.1);
            let q = choose|q: Q| #[trigger] f.ensures((ch.0,), q) && ch.1 == (AndThen { left: q, right: g });
            assert(exists|w: (P::Value, Q)| w.0.deep_view() == v && #[trigger] f.ensures((w.0,), w.1)) by {
                let w = (ch.0, q);
                assert(w.0.deep_view() == v && f.ensures((w.0,), w.1));
            }
            let cf = choose|w: (P::Value, Q)| w.0.deep_view() == v && #[trigger] f.ensures((w.0,), w.1);
            assert(q.outcome(s2) == cf.1.outcome(s2));
            match q.outcome(s2) {
                (Some(u), s3) => {
                    assert(cf.1.outcome(s2) == (Some(u), s3));
                },
                (None, s3) => {},
            }
        },
        (None, s2) => {},
    }
}

/// Repeating a parser that always fails without consuming gathers nothing:
/// with an empty result allowed it succeeds on the text as it was, otherwise it
/// fails there.
pub proof fn lemma_repeat_of_failing<P: Parser>(p: P, s: Seq<FatChar>)
    requires
        forall|t: Seq<FatChar>| #[trigger] p.outcome(t) == (None::<<P::Value as DeepView>::V>, t),
    ensures
        (Repeat {
            element: p,
            settings: SequenceSettings { allow_empty: true, until_terminator: None::<NoTerminator> },
        }).outcome(s) == (Some(Seq::<<P::Value as DeepView>::V>::empty()), s),
        (Repeat {
            element: p,
            settings: SequenceSettings { allow_empty: false, until_terminator: None::<NoTerminator> },
        }).outcome(s) == (None::<Seq<<P::Value as DeepView>::V>>, s),
{
    assert(p.outcome(s) == (None::<<P::Value as DeepView>::V>, s));
}

/// A parser that succeeds once and then fails without consuming, repeated with
/// no empty result allowed, gives that one value and the state after it.
pub proof fn lemma_repeat_single<P: Parser>(
    p: P,
    s: Seq<FatChar>,
    v: <P::Value as DeepView>::V,
    s1: Seq<FatChar>,
)
    requires
        p.outcome(s) == (Some(v), s1),
        s1.len() < s.len(),
        p.outcome(s1) == (None::<<P::Value as DeepView>::V>, s1),
    ensures
        (Repeat {
            element: p,
            settings: SequenceSettings { allow_empty: false, until_terminator: None::<NoTerminator> },
        }).outcome(s) == (Some(seq![v]), s1),
{
    let acc: Seq<<P::Value as DeepView>::V> = seq![];
    assert(acc.push(v) == seq![v]);
    assert(repeat_loop(p, None::<NoTerminator>, s, acc) == repeat_loop(
        p,
        None::<NoTerminator>,
        s1,
        acc.push(v),
    ));
    assert(repeat_loop(p, None::<NoTerminator>, s1, acc.push(v)) == (acc.push(v), s1));
}

/// A terminator that reports `Terminate` on the first trial ends a repetition
/// before any element is tried: an empty result where allowed, a failure
/// otherwise, at the terminator's state.
pub proof fn lemma_terminator_preempts<P: Parser, C: Parser<Value = ControlFlow>>(
    p: P,
    t: C,
    s: Seq<FatChar>,
    s2: Seq<FatChar>,
)
    requires
        s.len() > 0,
        t.outcome(s) == (Some(ControlFlow::Terminate), s2),
    ensures
        (Repeat {
            element: p,
            settings: SequenceSettings { allow_empty: true, until_terminator: Some(t) },
        }).outcome(s) == (Some(Seq::<<P::Value as DeepView>::V>::empty()), s2),
        (Repeat {
            element: p,
            settings: SequenceSettings { allow_empty: false, until_terminator: Some(t) },
        }).outcome(s) == (None::<Seq<<P::Value as DeepView>::V>>, s2),
{
}

} // verus!
