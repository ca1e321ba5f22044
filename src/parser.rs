use crate::position::FatChar;
use crate::text::{spec_has_prefix, Text};
use crate::tree::{PrettyTree, ToPrettyTree};
use vstd::prelude::*;

verus! {

/// What a terminator reports to a repetition.
#[derive(Debug, Clone, Copy, PartialEq, Eq, Structural)]
pub enum ControlFlow {
    NoOp,
    Terminate,
}

impl DeepView for ControlFlow {
    type V = ControlFlow;

    open spec fn deep_view(&self) -> ControlFlow {
        *self
    }
}

impl DeepView for FatChar {
    type V = FatChar;

    open spec fn deep_view(&self) -> FatChar {
        *self
    }
}

impl DeepView for Text {
    type V = Seq<FatChar>;

    open spec fn deep_view(&self) -> Seq<FatChar> {
        self@
    }
}

/// A parse position: the text that is left.
pub struct State {
    pub text: Text,
}

impl Clone for State {
    fn clone(&self) -> (r: State)
        ensures
            r.text@ == self.text@,
    {
        State { text: self.text.clone() }
    }
}

/// The result of one run: a value and the state after it, or a failure with
/// the state at which it stopped.
pub enum Output<T> {
    Success { value: T, state: State },
    Failure { state: State },
}

/// A run's result as the value's model (none on failure) and the text left.
pub type Outcome<V> = (Option<V>, Seq<FatChar>);

impl<T: DeepView> Output<T> {
    pub open spec fn model(&self) -> Outcome<T::V> {
        match self {
            Output::Success { value, state } => (Some(value.deep_view()), state.text@),
            Output::Failure { state } => (None, state.text@),
        }
    }
}

/// A parser: a pure function from the text left to an outcome. `outcome` states
/// it; `run` computes it.
pub trait Parser: Sized {
    type Value: DeepView;

    /// The conditions under which the parser is a function of its input.
    spec fn wf(&self) -> bool;

    spec fn outcome(&self, s: Seq<FatChar>) -> Outcome<<Self::Value as DeepView>::V>;

    fn run(&self, state: State) -> (r: Output<Self::Value>)
        requires
            self.wf(),
        ensures
            r.model() == self.outcome(state.text@),
    ;
}

/// Sequencing: `left`, then the parser that `right` makes from its value.
pub fn and_then<P: Parser, Q: Parser, F: Fn(P::Value) -> Q>(left: P, right: F) -> (r: AndThen<P, F>)
    ensures
        r.left == left,
        r.right == right,
{
    AndThen { left, right }
}

pub fn map<P: Parser, B: DeepView, F: Fn(P::Value) -> B>(parser: P, right: F) -> (r: MapValue<P, F>)
    ensures
        r.inner == parser,
        r.f == right,
{
    MapValue { inner: parser, f: right }
}

pub fn and<P: Parser, Q: Parser>(first: P, next: Q) -> (r: And<P, Q>)
    ensures
        r.left == first,
        r.right == next,
{
    And { left: first, right: next }
}

pub fn and2<P: Parser, Q: Parser, R: Parser>(first: P, f: Q, g: R) -> (r: Triple<P, Q, R>)
    ensures
        r.first == first,
        r.second == f,
        r.third == g,
{
    Triple { first, second: f, third: g }
}

pub fn and3<P: Parser, Q: Parser, R: Parser, T: Parser>(first: P, f: Q, g: R, h: T) -> (r: Quadruple<
    P,
    Q,
    R,
    T,
>)
    ensures
        r.first == first,
        r.second == f,
        r.third == g,
        r.fourth == h,
{
    Quadruple { first, second: f, third: g, fourth: h }
}

pub fn sequence<P: Parser, C: Parser<Value = ControlFlow>>(element: P, settings: SequenceSettings<C>) -> (r: Repeat<
    P,
    C,
>)
    ensures
        r.element == element,
        r.settings == settings,
{
    Repeat { element, settings }
}

/// Zero or more repetitions.
pub fn many<P: Parser>(element: P) -> (r: Repeat<P, NoTerminator>)
    ensures
        r.element == element,
        r.settings.allow_empty,
        r.settings.until_terminator is None,
{
    Repeat { element, settings: SequenceSettings { allow_empty: true, until_terminator: None } }
}

/// One or more repetitions.
pub fn some<P: Parser>(element: P) -> (r: Repeat<P, NoTerminator>)
    ensures
        r.element == element,
        !r.settings.allow_empty,
        r.settings.until_terminator is None,
{
    Repeat { element, settings: SequenceSettings { allow_empty: false, until_terminator: None } }
}

/// The terminator type of a repetition that has none: it never reports `Terminate`.
pub struct NoTerminator;

impl Parser for NoTerminator {
    type Value = ControlFlow;

    open spec fn wf(&self) -> bool {
        true
    }

    open spec fn outcome(&self, s: Seq<FatChar>) -> Outcome<ControlFlow> {
        (Some(ControlFlow::NoOp), s)
    }

    fn run(&self, state: State) -> (r: Output<ControlFlow>) {
        Output::Success { value: ControlFlow::NoOp, state }
    }
}

/// Three parsers in a row; their three values on success.
pub struct Triple<P, Q, R> {
    pub first: P,
    pub second: Q,
    pub third: R,
}

impl<P: Parser, Q: Parser, R: Parser> Parser for Triple<P, Q, R> {
    type Value = (P::Value, Q::Value, R::Value);

    open spec fn wf(&self) -> bool {
        self.first.wf() && self.second.wf() && self.third.wf()
    }

    /// The outcome of `(first and second) and third`, its value flattened.
    open spec fn outcome(&self, s: Seq<FatChar>) -> Outcome<
        (<P::Value as DeepView>::V, <Q::Value as DeepView>::V, <R::Value as DeepView>::V),
    > {
        match (And { left: And { left: self.first, right: self.second }, right: self.third }).outcome(s) {
            (Some(((a, b), c)), rest) => (Some((a, b, c)), rest),
            (None, rest) => (None, rest),
        }
    }

    fn run(&self, state: State) -> (r: Output<(P::Value, Q::Value, R::Value)>) {
        match self.first.run(state) {
            Output::Success { value: a, state } => match self.second.run(state) {
                Output::Success { value: b, state } => match self.third.run(state) {
                    Output::Success { value: c, state } => Output::Success { value: (a, b, c), state },
                    Output::Failure { state } => Output::Failure { state },
                },
                Output::Failure { state } => Output::Failure { state },
            },
            Output::Failure { state } => Output::Failure { state },
        }
    }
}

/// Four parsers in a row; their four values on success.
pub struct Quadruple<P, Q, R, T> {
    pub first: P,
    pub second: Q,
    pub third: R,
    pub fourth: T,
}

impl<P: Parser, Q: Parser, R: Parser, T: Parser> Parser for Quadruple<P, Q, R, T> {
    type Value = (P::Value, Q::Value, R::Value, T::Value);

    open spec fn wf(&self) -> bool {
        self.first.wf() && self.second.wf() && self.third.wf() && self.fourth.wf()
    }

    /// The outcome of `(first, second, third) and fourth`, its value flattened.
    open spec fn outcome(&self, s: Seq<FatChar>) -> Outcome<
        (
            <P::Value as DeepView>::V,
            <Q::Value as DeepView>::V,
            <R::Value as DeepView>::V,
            <T::Value as DeepView>::V,
        ),
    > {
        match (And {
            left: Triple { first: self.first, second: self.second, third: self.third },
            right: self.fourth,
        }).outcome(s) {
            (Some(((a, b, c), d)), rest) => (Some((a, b, c, d)), rest),
            (None, rest) => (None, rest),
        }
    }

    fn run(&self, state: State) -> (r: Output<(P::Value, Q::Value, R::Value, T::Value)>) {
        match self.first.run(state) {
            Output::Success { value: a, state } => match self.second.run(state) {
                Output::Success { value: b, state } => match self.third.run(state) {
                    Output::Success { value: c, state } => match self.fourth.run(state) {
                        Output::Success { value: d, state } => Output::Success {
                            value: (a, b, c, d),
                            state,
                        },
                        Output::Failure { state } => Output::Failure { state },
                    },
                    Output::Failure { state } => Output::Failure { state },
                },
                Output::Failure { state } => Output::Failure { state },
            },
            Output::Failure { state } => Output::Failure { state },
        }
    }
}

/// Succeeds with a fixed value and consumes nothing.
pub struct Pure<T> {
    pub value: T,
}

pub fn pure<T: Clone + DeepView>(value: T) -> (r: Pure<T>)
    ensures
        r.value == value,
{
    Pure { value }
}

impl<T: Clone + DeepView> Parser for Pure<T> {
    type Value = T;

    /// Cloning the value keeps its model.
    open spec fn wf(&self) -> bool {
        forall|c: T| #[trigger] call_ensures(T::clone, (&self.value,), c) ==> c.deep_view()
            == self.value.deep_view()
    }

    open spec fn outcome(&self, s: Seq<FatChar>) -> Outcome<T::V> {
        (Some(self.value.deep_view()), s)
    }

    fn run(&self, state: State) -> (r: Output<T>) {
        let value = self.value.clone();
        Output::Success { value, state }
    }
}

/// Consumes one scalar, whatever it is.
pub struct NextScalar;

pub fn next() -> (r: NextScalar) {
    NextScalar
}

/// The outcome of consuming one scalar that `accept` admits.
pub open spec fn scalar_outcome(s: Seq<FatChar>, accept: bool) -> Outcome<FatChar> {
    if s.len() > 0 && accept {
        (Some(s[0]), s.drop_first())
    } else {
        (None, s)
    }
}

impl Parser for NextScalar {
    type Value = FatChar;

    open spec fn wf(&self) -> bool {
        true
    }

    open spec fn outcome(&self, s: Seq<FatChar>) -> Outcome<FatChar> {
        scalar_outcome(s, true)
    }

    fn run(&self, state: State) -> (r: Output<FatChar>) {
        match state.text.uncons() {
            Some((l, rest)) => Output::Success { value: l, state: State { text: rest } },
            None => Output::Failure { state },
        }
    }
}

/// Consumes one scalar equal to `expected`.
pub struct ExactScalar {
    pub expected: char,
}

pub fn char(value: char) -> (r: ExactScalar)
    ensures
        r.expected == value,
{
    ExactScalar { expected: value }
}

impl Parser for ExactScalar {
    type Value = FatChar;

    open spec fn wf(&self) -> bool {
        true
    }

    open spec fn outcome(&self, s: Seq<FatChar>) -> Outcome<FatChar> {
        scalar_outcome(s, s.len() > 0 && s[0].value == self.expected)
    }

    fn run(&self, state: State) -> (r: Output<FatChar>) {
        match state.text.uncons() {
            Some((l, rest)) => {
                if l.value == self.expected {
                    Output::Success { value: l, state: State { text: rest } }
                } else {
                    Output::Failure { state }
                }
            },
            None => Output::Failure { state },
        }
    }
}

/// Consumes one scalar that `predicate` accepts.
pub struct ScalarIf<F> {
    pub predicate: F,
}

pub fn char_if<F: Fn(char) -> bool>(predicate: F) -> (r: ScalarIf<F>)
    ensures
        r.predicate == predicate,
{
    ScalarIf { predicate }
}

impl<F: Fn(char) -> bool> Parser for ScalarIf<F> {
    type Value = FatChar;

    /// The predicate is total and answers the same for the same scalar.
    open spec fn wf(&self) -> bool {
        &&& forall|c: char| #[trigger] self.predicate.requires((c,))
        &&& forall|c: char, b1: bool, b2: bool|
            #[trigger] self.predicate.ensures((c,), b1) && #[trigger] self.predicate.ensures((c,), b2)
                ==> b1 == b2
    }

    open spec fn outcome(&self, s: Seq<FatChar>) -> Outcome<FatChar> {
        scalar_outcome(s, s.len() > 0 && self.predicate.ensures((s[0].value,), true))
    }

    fn run(&self, state: State) -> (r: Output<FatChar>) {
        match state.text.uncons() {
            Some((l, rest)) => {
                if (self.predicate)(l.value) {
                    Output::Success { value: l, state: State { text: rest } }
                } else {
                    Output::Failure { state }
                }
            },
            None => Output::Failure { state },
        }
    }
}

/// Consumes the scalars of a literal text, or nothing.
pub struct Literal {
    pub expected: String,
}

pub fn token(value: String) -> (r: Literal)
    ensures
        r.expected@ == value@,
{
    Literal { expected: value }
}

impl Parser for Literal {
    type Value = Text;

    open spec fn wf(&self) -> bool {
        true
    }

    open spec fn outcome(&self, s: Seq<FatChar>) -> Outcome<Seq<FatChar>> {
        let n = self.expected@.len() as int;
        if spec_has_prefix(s, self.expected@) {
            (Some(s.take(n)), s.skip(n))
        } else {
            (None, s)
        }
    }

    fn run(&self, state: State) -> (r: Output<Text>) {
        match state.text.pop_prefix(self.expected.as_str()) {
            Some((prefix, rest)) => Output::Success { value: prefix, state: State { text: rest } },
            None => Output::Failure { state },
        }
    }
}


/// A function that makes the next parser from a value: total, giving
/// well-formed parsers, and giving parsers with equal outcomes for values with
/// equal models.
pub open spec fn binder_wf<A: DeepView, Q: Parser, F: Fn(A) -> Q>(f: F) -> bool {
    &&& forall|a: A| #[trigger] f.requires((a,))
    &&& forall|a: A, q: Q| #[trigger] f.ensures((a,), q) ==> q.wf()
    &&& forall|a1: A, a2: A, q1: Q, q2: Q|
        #![trigger f.ensures((a1,), q1), f.ensures((a2,), q2)]
        a1.deep_view() == a2.deep_view() && f.ensures((a1,), q1) && f.ensures((a2,), q2) ==> forall|
            s: Seq<FatChar>,
        | #[trigger] q1.outcome(s) == q2.outcome(s)
}

/// The parser that `f` makes from a value whose model is `v`.
pub open spec fn bind_target<A: DeepView, Q: Parser, F: Fn(A) -> Q>(f: F, v: A::V) -> Q {
    (choose|p: (A, Q)| p.0.deep_view() == v && #[trigger] f.ensures((p.0,), p.1)).1
}

/// Runs `left`, then the parser that `right` makes from its value. A failure
/// keeps the state at which it happened: nothing is rolled back.
pub struct AndThen<P, F> {
    pub left: P,
    pub right: F,
}

impl<P: Parser, Q: Parser, F: Fn(P::Value) -> Q> Parser for AndThen<P, F> {
    type Value = Q::Value;

    open spec fn wf(&self) -> bool {
        self.left.wf() && binder_wf::<P::Value, Q, F>(self.right)
    }

    open spec fn outcome(&self, s: Seq<FatChar>) -> Outcome<<Q::Value as DeepView>::V> {
        match self.left.outcome(s) {
            (Some(v), s2) => bind_target::<P::Value, Q, F>(self.right, v).outcome(s2),
            (None, s2) => (None, s2),
        }
    }

    fn run(&self, state: State) -> (r: Output<Q::Value>) {
        match self.left.run(state) {
            Output::Success { value, state } => {
                let ghost v = value.deep_view();
                let ghost s2 = state.text@;
                let next = (self.right)(value);
                proof {
                    let w = (value, next);
                    assert(w.0.deep_view() == v && self.right.ensures((w.0,), w.1));
                    let c = choose|p: (P::Value, Q)| p.0.deep_view() == v && #[trigger] self.right.ensures((p.0,), p.1);
                    assert(next.outcome(s2) == c.1.outcome(s2));
                }
                next.run(state)
            },
            Output::Failure { state } => Output::Failure { state },
        }
    }
}

/// A function on values that is total and gives values with equal models for
/// values with equal models.
pub open spec fn mapper_wf<A: DeepView, B: DeepView, F: Fn(A) -> B>(f: F) -> bool {
    &&& forall|a: A| #[trigger] f.requires((a,))
    &&& forall|a1: A, a2: A, b1: B, b2: B|
        #![trigger f.ensures((a1,), b1), f.ensures((a2,), b2)]
        a1.deep_view() == a2.deep_view() && f.ensures((a1,), b1) && f.ensures((a2,), b2)
            ==> b1.deep_view() == b2.deep_view()
}

/// The model of what `f` gives for a value whose model is `v`.
pub open spec fn map_target<A: DeepView, B: DeepView, F: Fn(A) -> B>(f: F, v: A::V) -> B::V {
    (choose|p: (A, B)| p.0.deep_view() == v && #[trigger] f.ensures((p.0,), p.1)).1.deep_view()
}

/// Runs `inner` and transforms its value; the state is left as `inner` left it.
pub struct MapValue<P, F> {
    pub inner: P,
    pub f: F,
}

impl<P: Parser, B: DeepView, F: Fn(P::Value) -> B> Parser for MapValue<P, F> {
    type Value = B;

    open spec fn wf(&self) -> bool {
        self.inner.wf() && mapper_wf::<P::Value, B, F>(self.f)
    }

    open spec fn outcome(&self, s: Seq<FatChar>) -> Outcome<B::V> {
        match self.inner.outcome(s) {
            (Some(v), s2) => (Some(map_target::<P::Value, B, F>(self.f, v)), s2),
            (None, s2) => (None, s2),
        }
    }

    fn run(&self, state: State) -> (r: Output<B>) {
        match self.inner.run(state) {
            Output::Success { value, state } => {
                let ghost v = value.deep_view();
                let b = (self.f)(value);
                proof {
                    let w = (value, b);
                    assert(w.0.deep_view() == v && self.f.ensures((w.0,), w.1));
                    let c = choose|p: (P::Value, B)| p.0.deep_view() == v && #[trigger] self.f.ensures((p.0,), p.1);
                    assert(b.deep_view() == c.1.deep_view());
                }
                Output::Success { value: b, state }
            },
            Output::Failure { state } => Output::Failure { state },
        }
    }
}

/// Runs `left`, then `right` from where it stopped; both values on success.
pub struct And<P, Q> {
    pub left: P,
    pub right: Q,
}

impl<P: Parser, Q: Parser> Parser for And<P, Q> {
    type Value = (P::Value, Q::Value);

    open spec fn wf(&self) -> bool {
        self.left.wf() && self.right.wf()
    }

    open spec fn outcome(&self, s: Seq<FatChar>) -> Outcome<
        (<P::Value as DeepView>::V, <Q::Value as DeepView>::V),
    > {
        match self.left.outcome(s) {
            (Some(a), s2) => match self.right.outcome(s2) {
                (Some(b), s3) => (Some((a, b)), s3),
                (None, s3) => (None, s3),
            },
            (None, s2) => (None, s2),
        }
    }

    fn run(&self, state: State) -> (r: Output<(P::Value, Q::Value)>) {
        match self.left.run(state) {
            Output::Success { value: a, state } => match self.right.run(state) {
                Output::Success { value: b, state } => Output::Success { value: (a, b), state },
                Output::Failure { state } => Output::Failure { state },
            },
            Output::Failure { state } => Output::Failure { state },
        }
    }
}


/// Looks ahead with `inner`: `Terminate` where it would succeed, `NoOp` where it
/// would fail. Either way nothing is consumed.
pub struct StopIfOk<P> {
    pub inner: P,
}

pub fn terminate_if_ok<P: Parser>(parser: P) -> (r: StopIfOk<P>)
    ensures
        r.inner == parser,
{
    StopIfOk { inner: parser }
}

impl<P: Parser> Parser for StopIfOk<P> {
    type Value = ControlFlow;

    open spec fn wf(&self) -> bool {
        self.inner.wf()
    }

    open spec fn outcome(&self, s: Seq<FatChar>) -> Outcome<ControlFlow> {
        if self.inner.outcome(s).0 is Some {
            (Some(ControlFlow::Terminate), s)
        } else {
            (Some(ControlFlow::NoOp), s)
        }
    }

    fn run(&self, state: State) -> (r: Output<ControlFlow>) {
        match self.inner.run(state.clone()) {
            Output::Success { .. } => Output::Success { value: ControlFlow::Terminate, state },
            Output::Failure { .. } => Output::Success { value: ControlFlow::NoOp, state },
        }
    }
}

/// Every success of `p` consumes at least one scalar.
pub open spec fn consumes<P: Parser>(p: P) -> bool {
    forall|s: Seq<FatChar>| (#[trigger] p.outcome(s)).0 is Some ==> p.outcome(s).1.len() < s.len()
}

/// The values gathered by a repetition and the text left when it ends: it ends
/// on an empty text, when the terminator reports `Terminate` (taking its
/// state), or when the element fails (taking the failure's state). A success
/// that consumes nothing would repeat forever; here it ends the repetition, and
/// a well-formed repetition (see `consumes`) never meets one.
pub open spec fn repeat_loop<P: Parser, C: Parser<Value = ControlFlow>>(
    element: P,
    terminator: Option<C>,
    s: Seq<FatChar>,
    acc: Seq<<P::Value as DeepView>::V>,
) -> (Seq<<P::Value as DeepView>::V>, Seq<FatChar>)
    decreases s.len(),
{
    if s.len() == 0 {
        (acc, s)
    } else if terminator is Some && terminator->0.outcome(s).0 == Some(ControlFlow::Terminate) {
        (acc, terminator->0.outcome(s).1)
    } else {
        match element.outcome(s) {
            (Some(v), s2) => if s2.len() < s.len() {
                repeat_loop(element, terminator, s2, acc.push(v))
            } else {
                (acc.push(v), s2)
            },
            (None, s2) => (acc, s2),
        }
    }
}

/// How a repetition ends: whether it may produce nothing, and an optional
/// terminator tried before each element.
pub struct SequenceSettings<C> {
    pub allow_empty: bool,
    pub until_terminator: Option<C>,
}

impl<C> Default for SequenceSettings<C> {
    fn default() -> (r: SequenceSettings<C>)
        ensures
            !r.allow_empty,
            r.until_terminator is None,
    {
        SequenceSettings::new()
    }
}

impl<C> SequenceSettings<C> {
    /// No empty result, no terminator.
    pub fn new() -> (r: SequenceSettings<C>)
        ensures
            !r.allow_empty,
            r.until_terminator is None,
    {
        SequenceSettings { allow_empty: false, until_terminator: None }
    }

    pub fn allow_empty(self, flag: bool) -> (r: SequenceSettings<C>)
        ensures
            r.allow_empty == flag,
            r.until_terminator == self.until_terminator,
    {
        SequenceSettings { allow_empty: flag, until_terminator: self.until_terminator }
    }

    pub fn until_terminator(self, terminator: C) -> (r: SequenceSettings<C>)
        ensures
            r.allow_empty == self.allow_empty,
            r.until_terminator == Some(terminator),
    {
        SequenceSettings { allow_empty: self.allow_empty, until_terminator: Some(terminator) }
    }
}

/// Runs `element` again and again; see `repeat_loop`. Fails where nothing was
/// gathered and an empty result is not allowed.
pub struct Repeat<P, C> {
    pub element: P,
    pub settings: SequenceSettings<C>,
}

impl<P: Parser, C: Parser<Value = ControlFlow>> Parser for Repeat<P, C> {
    type Value = Vec<P::Value>;

    open spec fn wf(&self) -> bool {
        &&& self.element.wf()
        &&& consumes(self.element)
        &&& self.settings.until_terminator matches Some(t) ==> t.wf()
    }

    open spec fn outcome(&self, s: Seq<FatChar>) -> Outcome<Seq<<P::Value as DeepView>::V>> {
        let (acc, rest) = repeat_loop(self.element, self.settings.until_terminator, s, seq![]);
        if acc.len() == 0 && !self.settings.allow_empty {
            (None, rest)
        } else {
            (Some(acc), rest)
        }
    }

    fn run(&self, state: State) -> (r: Output<Vec<P::Value>>) {
        let ghost target = repeat_loop(self.element, self.settings.until_terminator, state.text@, seq![]);
        let mut leading: Vec<P::Value> = Vec::new();
        let mut trailing = state;
        proof {
            assert(leading.deep_view() =~= seq![]);
        }
        loop
            invariant_except_break
                self.wf(),
                repeat_loop(self.element, self.settings.until_terminator, trailing.text@, leading.deep_view()) == target,
            ensures
                (leading.deep_view(), trailing.text@) == target,
            decreases trailing.text@.len(),
        {
            if trailing.text.is_empty() {
                break;
            }
            match &self.settings.until_terminator {
                Some(t) => {
                    match t.run(trailing.clone()) {
                        Output::Success { value: ControlFlow::Terminate, state } => {
                            trailing = state;
                            break;
                        },
                        _ => {},
                    }
                },
                None => {},
            }
            let ghost before = leading.deep_view();
            let ghost s = trailing.text@;
            match self.element.run(trailing.clone()) {
                Output::Success { value, state } => {
                    let ghost v = value.deep_view();
                    trailing = state;
                    leading.push(value);
                    proof {
                        assert(leading.deep_view() =~= before.push(v));
                        assert(self.element.outcome(s).0 is Some);
                    }
                },
                Output::Failure { state } => {
                    trailing = state;
                    break;
                },
            }
        }
        if leading.len() == 0 && !self.settings.allow_empty {
            return Output::Failure { state: trailing };
        }
        Output::Success { value: leading, state: trailing }
    }
}

/// Runs `parser` on the annotated scalars of `source`: its value, if it
/// succeeded, and the state at which it ended.
pub fn evaluate<P: Parser>(source: &str, parser: P) -> (r: (Option<P::Value>, State))
    requires
        parser.wf(),
        source@.len() < usize::MAX,
    ensures
        (r.0.deep_view(), r.1.text@) == parser.outcome(
            crate::position::annotate(crate::position::grapheme_split(source@)),
        ),
{
    let state = State { text: Text::initialize_from(source) };
    match parser.run(state) {
        Output::Success { value, state } => (Some(value), state),
        Output::Failure { state } => (None, state),
    }
}

impl ToPrettyTree for ControlFlow {
    fn to_pretty_tree(&self) -> PrettyTree {
        match self {
            ControlFlow::NoOp => PrettyTree::value("ControlFlow::NoOp"),
            ControlFlow::Terminate => PrettyTree::value("ControlFlow::Terminate"),
        }
    }
}

/// A scalar as Rust's `Debug` writes it: in single quotes, escaped.
pub uninterp spec fn debug_char(c: char) -> Seq<char>;

/// Relies on `Debug` for `char` (through `format!`): the quoted, escaped form,
/// which depends on the scalar alone.
#[verifier::external_body]
fn char_debug(c: char) -> (r: String)
    ensures
        r@ == debug_char(c),
{
    format!("{c:?}")
}

impl ToPrettyTree for FatChar {
    fn to_pretty_tree(&self) -> PrettyTree {
        PrettyTree::value(char_debug(self.value).as_str())
    }
}

impl ToPrettyTree for Text {
    fn to_pretty_tree(&self) -> PrettyTree {
        PrettyTree::string(self.render().as_str())
    }
}

impl ToPrettyTree for State {
    fn to_pretty_tree(&self) -> PrettyTree {
        let mut children: Vec<PrettyTree> = Vec::new();
        children.push(PrettyTree::key_value("text", &self.text));
        PrettyTree::branch_of("State", children)
    }
}

} // verus!
