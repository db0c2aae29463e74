//! The fixed-size sequence: exactly `N` elements, each parsed by the same
//! element parser, collected into an array.
use crate::buffer::BoundedVec;
use crate::core_parsers::Array;
use crate::interp::{DefaultInterp, SubInterp};
use crate::interp_parser::{
    is_tail_of, lemma_tail_of_tail, same_outcome, InterpParser, ParseResult, Step, OOB,
};
use vstd::prelude::*;

verus! {

/// The state of a fixed-size sequence: the elements parsed so far, and the
/// state and destination of the element that is being parsed.
pub struct ForwardArrayParserState<Item, SubparserState, const N: usize> {
    pub buffer: BoundedVec<Item, N>,
    pub subparser_destination: Option<Item>,
    pub subparser_state: SubparserState,
}

/// The state in which the next element starts, after `item` was parsed.
pub open spec fn next_element<I, S: InterpParser<I>, const N: usize>(
    sub: S,
    state: ForwardArrayParserState<S::Returning, S::State, N>,
    item: S::Returning,
) -> ForwardArrayParserState<S::Returning, S::State, N> {
    ForwardArrayParserState {
        buffer: state.buffer.spec_push(item),
        subparser_destination: None,
        subparser_state: sub.spec_init(),
    }
}

/// The transition function of a fixed-size sequence. While elements are
/// missing, the element parser runs on what is left of the chunk; each
/// element that completes is appended and the next one starts afresh. When
/// the `N`th element is there, the sequence is complete.
pub open spec fn array_steps<I, S: InterpParser<I>, const N: usize>(
    sub: S,
    state: ForwardArrayParserState<S::Returning, S::State, N>,
    dest: Option<[S::Returning; N]>,
    chunk: Seq<u8>,
) -> Step<ForwardArrayParserState<S::Returning, S::State, N>, [S::Returning; N]>
    decreases N - state.buffer@.len(),
{
    if state.buffer@.len() >= N {
        Step::Done { rest: chunk, value: state.buffer.spec_into_array() }
    } else {
        match sub.spec_parse(state.subparser_state, state.subparser_destination, chunk) {
            Step::Pending { state: s1, dest: d1 } => Step::Pending {
                state: ForwardArrayParserState {
                    buffer: state.buffer,
                    subparser_destination: d1,
                    subparser_state: s1,
                },
                dest,
            },
            Step::Rejected { rest } => Step::Rejected { rest },
            Step::Done { rest, value } => {
                proof {
                    state.buffer.lemma_spec_push_len(value);
                }
                array_steps(sub, next_element(sub, state, value), dest, rest)
            },
        }
    }
}

/// The element parser consulted what it needed for every element that this
/// call worked on.
pub open spec fn array_consulted<I, S: InterpParser<I>, const N: usize>(
    sub: S,
    state: ForwardArrayParserState<S::Returning, S::State, N>,
    chunk: Seq<u8>,
) -> bool
    decreases N - state.buffer@.len(),
{
    if state.buffer@.len() >= N {
        true
    } else {
        match sub.spec_parse(state.subparser_state, state.subparser_destination, chunk) {
            Step::Done { rest, value } => {
                proof {
                    state.buffer.lemma_spec_push_len(value);
                }
                sub.consulted(state.subparser_state, state.subparser_destination, chunk)
                    && array_consulted(sub, next_element(sub, state, value), rest)
            },
            _ => sub.consulted(state.subparser_state, state.subparser_destination, chunk),
        }
    }
}

/// The live states of a fixed-size sequence.
pub open spec fn array_inv<I, S: InterpParser<I>, const N: usize>(
    sub: S,
    state: ForwardArrayParserState<S::Returning, S::State, N>,
) -> bool {
    &&& state.buffer.wf()
    &&& sub.inv(state.subparser_state)
}

proof fn lemma_next_element<I, S: InterpParser<I>, const N: usize>(
    sub: S,
    state: ForwardArrayParserState<S::Returning, S::State, N>,
    item: S::Returning,
)
    requires
        sub.wf(),
        array_inv(sub, state),
        state.buffer@.len() < N,
    ensures
        array_inv(sub, next_element(sub, state, item)),
        next_element(sub, state, item).buffer@ == state.buffer@.push(item),
{
    state.buffer.lemma_spec_push(item);
    sub.lemma_init();
}

proof fn lemma_array_protocol<I, S: InterpParser<I>, const N: usize>(
    sub: S,
    state: ForwardArrayParserState<S::Returning, S::State, N>,
    dest: Option<[S::Returning; N]>,
    chunk: Seq<u8>,
)
    requires
        sub.wf(),
        array_inv(sub, state),
    ensures
        array_steps(sub, state, dest, chunk) matches Step::Pending { state: s1, .. } ==> array_inv(
            sub,
            s1,
        ),
        array_steps(sub, state, dest, chunk) matches Step::Done { rest, .. } ==> is_tail_of(
            rest,
            chunk,
        ),
    decreases N - state.buffer@.len(),
{
    if state.buffer@.len() >= N {
        assert(chunk =~= chunk.skip(0));
    } else {
        sub.lemma_parse_protocol(state.subparser_state, state.subparser_destination, chunk);
        match sub.spec_parse(state.subparser_state, state.subparser_destination, chunk) {
            Step::Done { rest, value } => {
                let next = next_element(sub, state, value);
                lemma_next_element(sub, state, value);
                lemma_array_protocol(sub, next, dest, rest);
                if let Step::Done { rest: last, .. } = array_steps(sub, next, dest, rest) {
                    lemma_tail_of_tail(last, rest, chunk);
                }
            },
            _ => {},
        }
    }
}

/// A sequence that asks for more input leaves the destination as it was.
pub proof fn lemma_array_pending_dest<I, S: InterpParser<I>, const N: usize>(
    sub: S,
    state: ForwardArrayParserState<S::Returning, S::State, N>,
    dest: Option<[S::Returning; N]>,
    chunk: Seq<u8>,
)
    ensures
        array_steps(sub, state, dest, chunk) matches Step::Pending { dest: d1, .. } ==> d1 == dest,
    decreases N - state.buffer@.len(),
{
    if state.buffer@.len() < N {
        match sub.spec_parse(state.subparser_state, state.subparser_destination, chunk) {
            Step::Done { rest, value } => {
                state.buffer.lemma_spec_push_len(value);
                lemma_array_pending_dest(sub, next_element(sub, state, value), dest, rest);
            },
            _ => {},
        }
    }
}

proof fn lemma_array_split<I, S: InterpParser<I>, const N: usize>(
    sub: S,
    state: ForwardArrayParserState<S::Returning, S::State, N>,
    dest: Option<[S::Returning; N]>,
    a: Seq<u8>,
    b: Seq<u8>,
)
    requires
        sub.wf(),
        sub.chunk_independent(),
        array_inv(sub, state),
    ensures
        match array_steps(sub, state, dest, a) {
            Step::Pending { state: s1, dest: d1 } => same_outcome(
                array_steps(sub, state, dest, a + b),
                array_steps(sub, s1, d1, b),
            ),
            Step::Done { rest, value } => array_steps(sub, state, dest, a + b) == (Step::<
                ForwardArrayParserState<S::Returning, S::State, N>,
                [S::Returning; N],
            >::Done { rest: rest + b, value }),
            Step::Rejected { .. } => array_steps(sub, state, dest, a + b) is Rejected,
        },
    decreases N - state.buffer@.len(),
{
    if state.buffer@.len() < N {
        sub.lemma_parse_split(state.subparser_state, state.subparser_destination, a, b);
        match sub.spec_parse(state.subparser_state, state.subparser_destination, a) {
            Step::Done { rest, value } => {
                lemma_next_element(sub, state, value);
                lemma_array_split(sub, next_element(sub, state, value), dest, rest, b);
            },
            _ => {},
        }
    }
}

impl<I, S: InterpParser<I>, const N: usize> InterpParser<Array<I, N>> for SubInterp<S> {
    type State = ForwardArrayParserState<S::Returning, S::State, N>;

    type Returning = [S::Returning; N];

    open spec fn wf(&self) -> bool {
        self.0.wf()
    }

    open spec fn inv(&self, state: Self::State) -> bool {
        array_inv(self.0, state)
    }

    open spec fn spec_init(&self) -> Self::State {
        ForwardArrayParserState {
            buffer: BoundedVec::spec_new(),
            subparser_destination: None,
            subparser_state: self.0.spec_init(),
        }
    }

    open spec fn spec_parse(
        &self,
        state: Self::State,
        dest: Option<Self::Returning>,
        chunk: Seq<u8>,
    ) -> Step<Self::State, Self::Returning> {
        array_steps(self.0, state, dest, chunk)
    }

    open spec fn consulted(
        &self,
        state: Self::State,
        dest: Option<Self::Returning>,
        chunk: Seq<u8>,
    ) -> bool {
        array_consulted(self.0, state, chunk)
    }

    open spec fn left_by_completion(&self, state: Self::State) -> bool {
        true
    }

    open spec fn chunk_independent(&self) -> bool {
        self.0.chunk_independent()
    }

    proof fn lemma_init(&self) {
        BoundedVec::<S::Returning, N>::lemma_spec_new();
        self.0.lemma_init();
    }

    proof fn lemma_parse_protocol(
        &self,
        state: Self::State,
        dest: Option<Self::Returning>,
        chunk: Seq<u8>,
    ) {
        lemma_array_protocol(self.0, state, dest, chunk);
    }

    proof fn lemma_parse_split(
        &self,
        state: Self::State,
        dest: Option<Self::Returning>,
        a: Seq<u8>,
        b: Seq<u8>,
    ) {
        lemma_array_split(self.0, state, dest, a, b);
    }

    fn init(&self) -> (state: Self::State) {
        ForwardArrayParserState {
            buffer: BoundedVec::new(),
            subparser_destination: None,
            subparser_state: self.0.init(),
        }
    }

    fn parse<'a, 'b>(
        &self,
        state: &'b mut Self::State,
        chunk: &'a [u8],
        destination: &mut Option<Self::Returning>,
    ) -> (res: ParseResult<'a>) {
        let ghost state0 = *state;
        let ghost dest0 = *destination;
        let mut remaining: &'a [u8] = chunk;
        while !state.buffer.is_full()
            invariant
                self.0.wf(),
                array_inv(self.0, *state),
                state0 == *old(state),
                dest0 == *old(destination),
                *destination == dest0,
                array_steps(self.0, state0, dest0, chunk@) == array_steps(
                    self.0,
                    *state,
                    dest0,
                    remaining@,
                ),
                array_consulted(self.0, *state, remaining@) ==> array_consulted(
                    self.0,
                    state0,
                    chunk@,
                ),
            decreases N - state.buffer@.len(),
        {
            let ghost before = *state;
            match self.0.parse(
                &mut state.subparser_state,
                remaining,
                &mut state.subparser_destination,
            ) {
                Err(e) => {
                    return Err(e);
                },
                Ok(new_chunk) => {
                    remaining = new_chunk;
                    match state.subparser_destination.take() {
                        None => {
                            return Err((Some(OOB::Reject), remaining));
                        },
                        Some(item) => {
                            proof {
                                lemma_next_element(self.0, before, item);
                            }
                            state.buffer.push(item);
                            state.subparser_state = self.0.init();
                        },
                    }
                },
            }
        }
        proof {
            state.buffer.lemma_len_bound();
        }
        match state.buffer.take().into_array() {
            Ok(items) => {
                *destination = Some(items);
                Ok(remaining)
            },
            Err(_) => Err((Some(OOB::Reject), remaining)),
        }
    }
}

impl<I, const N: usize> InterpParser<Array<I, N>> for DefaultInterp where
    DefaultInterp: InterpParser<I>,
 {
    type State = <SubInterp<DefaultInterp> as InterpParser<Array<I, N>>>::State;

    type Returning = <SubInterp<DefaultInterp> as InterpParser<Array<I, N>>>::Returning;

    open spec fn wf(&self) -> bool {
        <SubInterp<DefaultInterp> as InterpParser<Array<I, N>>>::wf(&SubInterp(DefaultInterp))
    }

    open spec fn inv(&self, state: Self::State) -> bool {
        <SubInterp<DefaultInterp> as InterpParser<Array<I, N>>>::inv(
            &SubInterp(DefaultInterp),
            state,
        )
    }

    open spec fn spec_init(&self) -> Self::State {
        <SubInterp<DefaultInterp> as InterpParser<Array<I, N>>>::spec_init(
            &SubInterp(DefaultInterp),
        )
    }

    /// Capturing an array is capturing each of its elements.
    open spec fn spec_parse(
        &self,
        state: Self::State,
        dest: Option<Self::Returning>,
        chunk: Seq<u8>,
    ) -> Step<Self::State, Self::Returning> {
        <SubInterp<DefaultInterp> as InterpParser<Array<I, N>>>::spec_parse(
            &SubInterp(DefaultInterp),
            state,
            dest,
            chunk,
        )
    }

    open spec fn consulted(
        &self,
        state: Self::State,
        dest: Option<Self::Returning>,
        chunk: Seq<u8>,
    ) -> bool {
        <SubInterp<DefaultInterp> as InterpParser<Array<I, N>>>::consulted(
            &SubInterp(DefaultInterp),
            state,
            dest,
            chunk,
        )
    }

    open spec fn left_by_completion(&self, state: Self::State) -> bool {
        true
    }

    open spec fn chunk_independent(&self) -> bool {
        <SubInterp<DefaultInterp> as InterpParser<Array<I, N>>>::chunk_independent(
            &SubInterp(DefaultInterp),
        )
    }

    proof fn lemma_init(&self) {
        <SubInterp<DefaultInterp> as InterpParser<Array<I, N>>>::lemma_init(
            &SubInterp(DefaultInterp),
        );
    }

    proof fn lemma_parse_protocol(
        &self,
        state: Self::State,
        dest: Option<Self::Returning>,
        chunk: Seq<u8>,
    ) {
        <SubInterp<DefaultInterp> as InterpParser<Array<I, N>>>::lemma_parse_protocol(
            &SubInterp(DefaultInterp),
            state,
            dest,
            chunk,
        );
    }

    proof fn lemma_parse_split(
        &self,
        state: Self::State,
        dest: Option<Self::Returning>,
        a: Seq<u8>,
        b: Seq<u8>,
    ) {
        <SubInterp<DefaultInterp> as InterpParser<Array<I, N>>>::lemma_parse_split(
            &SubInterp(DefaultInterp),
            state,
            dest,
            a,
            b,
        );
    }

    fn init(&self) -> (state: Self::State) {
        <SubInterp<DefaultInterp> as InterpParser<Array<I, N>>>::init(&SubInterp(DefaultInterp))
    }

    fn parse<'a, 'b>(
        &self,
        state: &'b mut Self::State,
        chunk: &'a [u8],
        destination: &mut Option<Self::Returning>,
    ) -> (res: ParseResult<'a>) {
        <SubInterp<DefaultInterp> as InterpParser<Array<I, N>>>::parse(
            &SubInterp(DefaultInterp),
            state,
            chunk,
            destination,
        )
    }
}

} // verus!
