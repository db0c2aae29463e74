//! Pairs: a pair of parsers parses the sequence of their schemas and returns
//! the pair of their results.
use crate::interp_parser::{
    init_with_default, lemma_tail_of_tail, same_outcome, InterpParser, ParseResult, Step, OOB,
};
use vstd::prelude::*;

verus! {

/// The state of a pair: not started, in the first parser, or in the second.
pub enum PairState<A, B> {
    Init,
    First(A),
    Second(B),
}

/// The second phase of a pair. Without a pair in the destination the call
/// rejects. Otherwise the second parser runs with the second half of the
/// destination.
pub open spec fn pair_second<C, D, A: InterpParser<C>, B: InterpParser<D>>(
    second: B,
    state: B::State,
    dest: Option<(Option<A::Returning>, Option<B::Returning>)>,
    chunk: Seq<u8>,
) -> Step<PairState<A::State, B::State>, (Option<A::Returning>, Option<B::Returning>)> {
    match dest {
        None => Step::Rejected { rest: chunk },
        Some((left, right)) => match second.spec_parse(state, right, chunk) {
            Step::Pending { state: s1, dest: d1 } => Step::Pending {
                state: PairState::Second(s1),
                dest: Some((left, d1)),
            },
            Step::Done { rest, value } => Step::Done { rest, value: (left, Some(value)) },
            Step::Rejected { rest } => Step::Rejected { rest },
        },
    }
}

/// The first phase of a pair. Without a pair in the destination the call
/// rejects. Otherwise the first parser runs with the first half of the
/// destination, and when it completes the second parser starts on what is
/// left of the chunk.
pub open spec fn pair_first<C, D, A: InterpParser<C>, B: InterpParser<D>>(
    first: A,
    second: B,
    state: A::State,
    dest: Option<(Option<A::Returning>, Option<B::Returning>)>,
    chunk: Seq<u8>,
) -> Step<PairState<A::State, B::State>, (Option<A::Returning>, Option<B::Returning>)> {
    match dest {
        None => Step::Rejected { rest: chunk },
        Some((left, right)) => match first.spec_parse(state, left, chunk) {
            Step::Pending { state: s1, dest: d1 } => Step::Pending {
                state: PairState::First(s1),
                dest: Some((d1, right)),
            },
            Step::Done { rest, value } => pair_second::<C, D, A, B>(
                second,
                second.spec_init(),
                Some((Some(value), right)),
                rest,
            ),
            Step::Rejected { rest } => Step::Rejected { rest },
        },
    }
}

/// The second parser consulted what it needed.
pub open spec fn pair_second_consulted<C, D, A: InterpParser<C>, B: InterpParser<D>>(
    second: B,
    state: B::State,
    dest: Option<(Option<A::Returning>, Option<B::Returning>)>,
    chunk: Seq<u8>,
) -> bool {
    dest matches Some(pair) ==> second.consulted(state, pair.1, chunk)
}

/// The first parser consulted what it needed, and so did the second if the
/// first completed.
pub open spec fn pair_first_consulted<C, D, A: InterpParser<C>, B: InterpParser<D>>(
    first: A,
    second: B,
    state: A::State,
    dest: Option<(Option<A::Returning>, Option<B::Returning>)>,
    chunk: Seq<u8>,
) -> bool {
    dest matches Some(pair) ==> {
        &&& first.consulted(state, pair.0, chunk)
        &&& first.spec_parse(state, pair.0, chunk) matches Step::Done { rest, .. }
            ==> second.consulted(second.spec_init(), pair.1, rest)
    }
}

proof fn lemma_pair_second<C, D, A: InterpParser<C>, B: InterpParser<D>>(
    second: B,
    state: B::State,
    dest: Option<(Option<A::Returning>, Option<B::Returning>)>,
    a: Seq<u8>,
    b: Seq<u8>,
)
    requires
        second.wf(),
        second.inv(state),
    ensures
        match pair_second::<C, D, A, B>(second, state, dest, a) {
            Step::Pending { state: s1, dest: d1 } => {
                &&& s1 matches PairState::Second(inner)
                &&& second.inv(inner)
                &&& second.chunk_independent() ==> same_outcome(
                    pair_second::<C, D, A, B>(second, state, dest, a + b),
                    pair_second::<C, D, A, B>(second, inner, d1, b),
                )
            },
            Step::Done { rest, value } => {
                &&& crate::interp_parser::is_tail_of(rest, a)
                &&& second.chunk_independent() ==> pair_second::<C, D, A, B>(
                    second,
                    state,
                    dest,
                    a + b,
                ) == (Step::<
                    PairState<A::State, B::State>,
                    (Option<A::Returning>, Option<B::Returning>),
                >::Done { rest: rest + b, value })
            },
            Step::Rejected { .. } => second.chunk_independent() ==> pair_second::<C, D, A, B>(
                second,
                state,
                dest,
                a + b,
            ) is Rejected,
        },
{
    if let Some((left, right)) = dest {
        second.lemma_parse_protocol(state, right, a);
        if second.chunk_independent() {
            second.lemma_parse_split(state, right, a, b);
        }
    }
}

proof fn lemma_pair_first<C, D, A: InterpParser<C>, B: InterpParser<D>>(
    first: A,
    second: B,
    state: A::State,
    dest: Option<(Option<A::Returning>, Option<B::Returning>)>,
    a: Seq<u8>,
    b: Seq<u8>,
)
    requires
        first.wf(),
        second.wf(),
        first.inv(state),
    ensures
        match pair_first(first, second, state, dest, a) {
            Step::Pending { state: s1, dest: d1 } => {
                &&& s1 matches PairState::First(inner) ==> first.inv(inner)
                &&& s1 matches PairState::Second(inner) ==> second.inv(inner)
                &&& !(s1 is Init)
                &&& first.chunk_independent() && second.chunk_independent() ==> same_outcome(
                    pair_first(first, second, state, dest, a + b),
                    match s1 {
                        PairState::First(inner) => pair_first(first, second, inner, d1, b),
                        PairState::Second(inner) => pair_second::<C, D, A, B>(
                            second,
                            inner,
                            d1,
                            b,
                        ),
                        PairState::Init => arbitrary(),
                    },
                )
            },
            Step::Done { rest, value } => {
                &&& crate::interp_parser::is_tail_of(rest, a)
                &&& first.chunk_independent() && second.chunk_independent() ==> pair_first(
                    first,
                    second,
                    state,
                    dest,
                    a + b,
                ) == (Step::<
                    PairState<A::State, B::State>,
                    (Option<A::Returning>, Option<B::Returning>),
                >::Done { rest: rest + b, value })
            },
            Step::Rejected { .. } => first.chunk_independent() && second.chunk_independent()
                ==> pair_first(first, second, state, dest, a + b) is Rejected,
        },
{
    if let Some((left, right)) = dest {
        first.lemma_parse_protocol(state, left, a);
        if first.chunk_independent() {
            first.lemma_parse_split(state, left, a, b);
        }
        if let Step::Done { rest, value } = first.spec_parse(state, left, a) {
            second.lemma_init();
            let seeded = Some((Some(value), right));
            lemma_pair_second::<C, D, A, B>(second, second.spec_init(), seeded, rest, b);
            if let Step::Done { rest: last, .. } = pair_second::<C, D, A, B>(
                second,
                second.spec_init(),
                seeded,
                rest,
            ) {
                lemma_tail_of_tail(last, rest, a);
            }
        }
    }
}

proof fn lemma_pair_both<C, D, A: InterpParser<C>, B: InterpParser<D>>(
    first: A,
    second: B,
    state: PairState<A::State, B::State>,
    dest: Option<(Option<A::Returning>, Option<B::Returning>)>,
    a: Seq<u8>,
    b: Seq<u8>,
)
    requires
        first.wf(),
        second.wf(),
        (first, second).inv(state),
    ensures
        (first, second).spec_parse(state, dest, a) matches Step::Pending { state: s1, .. } ==> (
            first,
            second,
        ).inv(s1),
        (first, second).spec_parse(state, dest, a) matches Step::Done { rest, .. }
            ==> crate::interp_parser::is_tail_of(rest, a),
        (first, second).chunk_independent() ==> match (first, second).spec_parse(state, dest, a) {
            Step::Pending { state: s1, dest: d1 } => same_outcome(
                (first, second).spec_parse(state, dest, a + b),
                (first, second).spec_parse(s1, d1, b),
            ),
            Step::Done { rest, value } => (first, second).spec_parse(state, dest, a + b) == (Step::<
                PairState<A::State, B::State>,
                (Option<A::Returning>, Option<B::Returning>),
            >::Done { rest: rest + b, value }),
            Step::Rejected { .. } => (first, second).spec_parse(state, dest, a + b) is Rejected,
        },
{
    match state {
        PairState::Init => {
            first.lemma_init();
            lemma_pair_first(first, second, first.spec_init(), Some((None, None)), a, b);
        },
        PairState::First(inner) => {
            lemma_pair_first(first, second, inner, dest, a, b);
        },
        PairState::Second(inner) => {
            lemma_pair_second::<C, D, A, B>(second, inner, dest, a, b);
        },
    }
}

impl<A: InterpParser<C>, B: InterpParser<D>, C, D> InterpParser<(C, D)> for (A, B) {
    type State = PairState<A::State, B::State>;

    type Returning = (Option<A::Returning>, Option<B::Returning>);

    open spec fn wf(&self) -> bool {
        &&& self.0.wf()
        &&& self.1.wf()
    }

    open spec fn inv(&self, state: Self::State) -> bool {
        match state {
            PairState::Init => true,
            PairState::First(inner) => self.0.inv(inner),
            PairState::Second(inner) => self.1.inv(inner),
        }
    }

    open spec fn spec_init(&self) -> Self::State {
        PairState::Init
    }

    /// In `Init`, the destination is seeded with "both absent" and the first
    /// parser starts. In `First` and in `Second`, the parser of that phase
    /// goes on.
    open spec fn spec_parse(
        &self,
        state: Self::State,
        dest: Option<Self::Returning>,
        chunk: Seq<u8>,
    ) -> Step<Self::State, Self::Returning> {
        match state {
            PairState::Init => pair_first(
                self.0,
                self.1,
                self.0.spec_init(),
                Some((None, None)),
                chunk,
            ),
            PairState::First(inner) => pair_first(self.0, self.1, inner, dest, chunk),
            PairState::Second(inner) => pair_second::<C, D, A, B>(self.1, inner, dest, chunk),
        }
    }

    open spec fn consulted(
        &self,
        state: Self::State,
        dest: Option<Self::Returning>,
        chunk: Seq<u8>,
    ) -> bool {
        match state {
            PairState::Init => pair_first_consulted(
                self.0,
                self.1,
                self.0.spec_init(),
                Some((None, None)),
                chunk,
            ),
            PairState::First(inner) => pair_first_consulted(self.0, self.1, inner, dest, chunk),
            PairState::Second(inner) => pair_second_consulted::<C, D, A, B>(
                self.1,
                inner,
                dest,
                chunk,
            ),
        }
    }

    open spec fn left_by_completion(&self, state: Self::State) -> bool {
        true
    }

    open spec fn chunk_independent(&self) -> bool {
        &&& self.0.chunk_independent()
        &&& self.1.chunk_independent()
    }

    proof fn lemma_init(&self) {
    }

    proof fn lemma_parse_protocol(
        &self,
        state: Self::State,
        dest: Option<Self::Returning>,
        chunk: Seq<u8>,
    ) {
        lemma_pair_both(self.0, self.1, state, dest, chunk, Seq::empty());
    }

    proof fn lemma_parse_split(
        &self,
        state: Self::State,
        dest: Option<Self::Returning>,
        a: Seq<u8>,
        b: Seq<u8>,
    ) {
        lemma_pair_both(self.0, self.1, state, dest, a, b);
    }

    fn init(&self) -> (state: Self::State) {
        PairState::Init
    }

    fn parse<'a, 'b>(
        &self,
        state: &'b mut Self::State,
        chunk: &'a [u8],
        destination: &mut Option<Self::Returning>,
    ) -> (res: ParseResult<'a>) {
        let mut cursor: &'a [u8] = chunk;
        if let PairState::Init = state {
            init_with_default(destination);
            *state = PairState::First(self.0.init());
        }
        if let PairState::First(inner) = state {
            match destination {
                None => {
                    return Err((Some(OOB::Reject), cursor));
                },
                Some(pair) => {
                    cursor = self.0.parse(inner, cursor, &mut pair.0)?;
                },
            }
            *state = PairState::Second(self.1.init());
        }
        match state {
            PairState::Second(inner) => match destination {
                None => Err((Some(OOB::Reject), cursor)),
                Some(pair) => self.1.parse(inner, cursor, &mut pair.1),
            },
            _ => Err((Some(OOB::Reject), cursor)),
        }
    }
}

} // verus!
