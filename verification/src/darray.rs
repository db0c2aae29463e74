//! The length-prefixed sequence: a length field, then that many elements,
//! collected into a buffer of bounded capacity.
use crate::buffer::BoundedVec;
use crate::core_parsers::DArray;
use crate::interp::{DefaultInterp, SubInterp};
use crate::interp_parser::{
    is_tail_of, lemma_tail_of_tail, same_outcome, InterpParser, ParseResult, Step, OOB,
};
use crate::length::LengthField;
use vstd::prelude::*;

verus! {

/// The state of a length-prefixed sequence. `Length` holds the state of the
/// length field's parser. `Elements` holds the elements parsed so far, the
/// declared count, and the state and destination of the element that is
/// being parsed. `Done` is the state after completion.
pub enum ForwardDArrayParserState<N, IS, I, const M: usize> {
    Length(N),
    Elements(BoundedVec<I, M>, usize, IS, Option<I>),
    Done,
}

/// The element phase of a length-prefixed sequence. While fewer than `len`
/// elements are there, the element parser runs on what is left of the chunk;
/// each element that completes is appended and the next one starts afresh.
pub open spec fn darray_elements<I, S: InterpParser<I>, NS, const M: usize>(
    sub: S,
    items: BoundedVec<S::Returning, M>,
    len: usize,
    element_state: S::State,
    element_dest: Option<S::Returning>,
    dest: Option<BoundedVec<S::Returning, M>>,
    chunk: Seq<u8>,
) -> Step<ForwardDArrayParserState<NS, S::State, S::Returning, M>, BoundedVec<S::Returning, M>>
    decreases len - items@.len(),
{
    if items@.len() >= len {
        Step::Done { rest: chunk, value: items }
    } else {
        match sub.spec_parse(element_state, element_dest, chunk) {
            Step::Pending { state: s1, dest: d1 } => Step::Pending {
                state: ForwardDArrayParserState::Elements(items, len, s1, d1),
                dest,
            },
            Step::Rejected { rest } => Step::Rejected { rest },
            Step::Done { rest, value } => {
                if items@.len() >= M {
                    Step::Rejected { rest }
                } else {
                    proof {
                        items.lemma_spec_push_len(value);
                    }
                    darray_elements(
                        sub,
                        items.spec_push(value),
                        len,
                        sub.spec_init(),
                        None,
                        dest,
                        rest,
                    )
                }
            },
        }
    }
}

/// What follows the length field: a length that the machine cannot hold, or
/// that exceeds the capacity `M`, is rejected before any element is read.
pub open spec fn darray_after_length<I, S: InterpParser<I>, NS, const M: usize>(
    sub: S,
    length: Option<usize>,
    dest: Option<BoundedVec<S::Returning, M>>,
    rest: Seq<u8>,
) -> Step<ForwardDArrayParserState<NS, S::State, S::Returning, M>, BoundedVec<S::Returning, M>> {
    match length {
        None => Step::Rejected { rest },
        Some(len) => if len > M {
            Step::Rejected { rest }
        } else {
            darray_elements(sub, BoundedVec::spec_new(), len, sub.spec_init(), None, dest, rest)
        },
    }
}

/// A parser that asks for more input, having started with an empty
/// destination, leaves the destination empty.
pub open spec fn pending_keeps_none<P, T: InterpParser<P>>(parser: T) -> bool {
    forall|state: T::State, chunk: Seq<u8>|
        parser.inv(state) ==> (#[trigger] parser.spec_parse(state, None, chunk) matches Step::Pending {
            dest,
            ..
        } ==> dest is None)
}

/// The element parser consulted what it needed for every element that this
/// call worked on.
pub open spec fn darray_elements_consulted<I, S: InterpParser<I>, const M: usize>(
    sub: S,
    items: BoundedVec<S::Returning, M>,
    len: usize,
    element_state: S::State,
    element_dest: Option<S::Returning>,
    chunk: Seq<u8>,
) -> bool
    decreases len - items@.len(),
{
    if items@.len() >= len {
        true
    } else {
        match sub.spec_parse(element_state, element_dest, chunk) {
            Step::Done { rest, value } => {
                if items@.len() >= M {
                    sub.consulted(element_state, element_dest, chunk)
                } else {
                    proof {
                        items.lemma_spec_push_len(value);
                    }
                    sub.consulted(element_state, element_dest, chunk)
                        && darray_elements_consulted(
                        sub,
                        items.spec_push(value),
                        len,
                        sub.spec_init(),
                        None,
                        rest,
                    )
                }
            },
            _ => sub.consulted(element_state, element_dest, chunk),
        }
    }
}

/// The parsers of the length field and of the elements consulted what they
/// needed on this call.
pub open spec fn darray_consulted<L, I, S: InterpParser<I>, const M: usize>(
    sub: S,
    state: ForwardDArrayParserState<
        <DefaultInterp as InterpParser<L>>::State,
        S::State,
        S::Returning,
        M,
    >,
    chunk: Seq<u8>,
) -> bool where
    DefaultInterp: InterpParser<L>,
    <DefaultInterp as InterpParser<L>>::Returning: LengthField,
 {
    match state {
        ForwardDArrayParserState::Length(length_state) => {
            &&& <DefaultInterp as InterpParser<L>>::consulted(
                &DefaultInterp,
                length_state,
                None,
                chunk,
            )
            &&& match <DefaultInterp as InterpParser<L>>::spec_parse(
                &DefaultInterp,
                length_state,
                None,
                chunk,
            ) {
                Step::Done { rest, value } => match value.spec_length() {
                    Some(len) => len <= M ==> darray_elements_consulted(
                        sub,
                        BoundedVec::<S::Returning, M>::spec_new(),
                        len,
                        sub.spec_init(),
                        None,
                        rest,
                    ),
                    None => true,
                },
                _ => true,
            }
        },
        ForwardDArrayParserState::Elements(items, len, element_state, element_dest) => {
            darray_elements_consulted(sub, items, len, element_state, element_dest, chunk)
        },
        ForwardDArrayParserState::Done => true,
    }
}

/// The live states of a length-prefixed sequence.
pub open spec fn darray_inv<L, I, S: InterpParser<I>, const M: usize>(
    sub: S,
    state: ForwardDArrayParserState<
        <DefaultInterp as InterpParser<L>>::State,
        S::State,
        S::Returning,
        M,
    >,
) -> bool where DefaultInterp: InterpParser<L> {
    match state {
        ForwardDArrayParserState::Length(length_state) => <DefaultInterp as InterpParser<L>>::inv(
            &DefaultInterp,
            length_state,
        ),
        ForwardDArrayParserState::Elements(items, len, element_state, _) => {
            &&& items.wf()
            &&& len <= M
            &&& sub.inv(element_state)
        },
        ForwardDArrayParserState::Done => true,
    }
}

/// The transition function of a length-prefixed sequence. In `Length`, the
/// length field is captured, with an empty destination of its own; when it
/// completes, the length is compared with the capacity and the elements
/// follow in the same chunk. In `Elements`, the elements go on. In `Done`,
/// everything is rejected.
pub open spec fn darray_parse<L, I, S: InterpParser<I>, const M: usize>(
    sub: S,
    state: ForwardDArrayParserState<
        <DefaultInterp as InterpParser<L>>::State,
        S::State,
        S::Returning,
        M,
    >,
    dest: Option<BoundedVec<S::Returning, M>>,
    chunk: Seq<u8>,
) -> Step<
    ForwardDArrayParserState<<DefaultInterp as InterpParser<L>>::State, S::State, S::Returning, M>,
    BoundedVec<S::Returning, M>,
> where
    DefaultInterp: InterpParser<L>,
    <DefaultInterp as InterpParser<L>>::Returning: LengthField,
 {
    match state {
        ForwardDArrayParserState::Length(length_state) => {
            match <DefaultInterp as InterpParser<L>>::spec_parse(
                &DefaultInterp,
                length_state,
                None,
                chunk,
            ) {
                Step::Pending { state: s1, .. } => Step::Pending {
                    state: ForwardDArrayParserState::Length(s1),
                    dest,
                },
                Step::Rejected { rest } => Step::Rejected { rest },
                Step::Done { rest, value } => darray_after_length(
                    sub,
                    value.spec_length(),
                    dest,
                    rest,
                ),
            }
        },
        ForwardDArrayParserState::Elements(items, len, element_state, element_dest) => {
            darray_elements(sub, items, len, element_state, element_dest, dest, chunk)
        },
        ForwardDArrayParserState::Done => Step::Rejected { rest: chunk },
    }
}

proof fn lemma_darray_elements_protocol<I, S: InterpParser<I>, NS, const M: usize>(
    sub: S,
    items: BoundedVec<S::Returning, M>,
    len: usize,
    element_state: S::State,
    element_dest: Option<S::Returning>,
    dest: Option<BoundedVec<S::Returning, M>>,
    chunk: Seq<u8>,
)
    requires
        sub.wf(),
        items.wf(),
        sub.inv(element_state),
        len <= M,
    ensures
        match darray_elements::<I, S, NS, M>(
            sub,
            items,
            len,
            element_state,
            element_dest,
            dest,
            chunk,
        ) {
            Step::Pending { state, dest: d1 } => {
                &&& d1 == dest
                &&& state matches ForwardDArrayParserState::Elements(items1, len1, s1, _)
                &&& items1.wf()
                &&& len1 == len
                &&& sub.inv(s1)
            },
            Step::Done { rest, value } => is_tail_of(rest, chunk) && value.wf(),
            Step::Rejected { .. } => true,
        },
    decreases len - items@.len(),
{
    if items@.len() >= len {
        assert(chunk =~= chunk.skip(0));
    } else {
        sub.lemma_parse_protocol(element_state, element_dest, chunk);
        match sub.spec_parse(element_state, element_dest, chunk) {
            Step::Done { rest, value } => {
                items.lemma_spec_push(value);
                sub.lemma_init();
                lemma_darray_elements_protocol::<I, S, NS, M>(
                    sub,
                    items.spec_push(value),
                    len,
                    sub.spec_init(),
                    None,
                    dest,
                    rest,
                );
                if let Step::Done { rest: last, .. } = darray_elements::<I, S, NS, M>(
                    sub,
                    items.spec_push(value),
                    len,
                    sub.spec_init(),
                    None,
                    dest,
                    rest,
                ) {
                    lemma_tail_of_tail(last, rest, chunk);
                }
            },
            _ => {},
        }
    }
}

proof fn lemma_darray_elements_split<I, S: InterpParser<I>, NS, const M: usize>(
    sub: S,
    items: BoundedVec<S::Returning, M>,
    len: usize,
    element_state: S::State,
    element_dest: Option<S::Returning>,
    dest: Option<BoundedVec<S::Returning, M>>,
    a: Seq<u8>,
    b: Seq<u8>,
)
    requires
        sub.wf(),
        sub.chunk_independent(),
        items.wf(),
        sub.inv(element_state),
        len <= M,
    ensures
        match darray_elements::<I, S, NS, M>(sub, items, len, element_state, element_dest, dest, a) {
            Step::Pending { state, dest: d1 } => {
                &&& state matches ForwardDArrayParserState::Elements(items1, len1, s1, e1)
                &&& same_outcome(
                    darray_elements::<I, S, NS, M>(
                        sub,
                        items,
                        len,
                        element_state,
                        element_dest,
                        dest,
                        a + b,
                    ),
                    darray_elements::<I, S, NS, M>(sub, items1, len1, s1, e1, d1, b),
                )
            },
            Step::Done { rest, value } => darray_elements::<I, S, NS, M>(
                sub,
                items,
                len,
                element_state,
                element_dest,
                dest,
                a + b,
            ) == (Step::<
                ForwardDArrayParserState<NS, S::State, S::Returning, M>,
                BoundedVec<S::Returning, M>,
            >::Done { rest: rest + b, value }),
            Step::Rejected { .. } => darray_elements::<I, S, NS, M>(
                sub,
                items,
                len,
                element_state,
                element_dest,
                dest,
                a + b,
            ) is Rejected,
        },
    decreases len - items@.len(),
{
    if items@.len() < len {
        sub.lemma_parse_split(element_state, element_dest, a, b);
        match sub.spec_parse(element_state, element_dest, a) {
            Step::Done { rest, value } => {
                items.lemma_spec_push(value);
                sub.lemma_init();
                lemma_darray_elements_split::<I, S, NS, M>(
                    sub,
                    items.spec_push(value),
                    len,
                    sub.spec_init(),
                    None,
                    dest,
                    rest,
                    b,
                );
            },
            _ => {},
        }
    }
}

impl<L, I, S: InterpParser<I>, const M: usize> InterpParser<DArray<L, I, M>> for SubInterp<S> where
    DefaultInterp: InterpParser<L>,
    <DefaultInterp as InterpParser<L>>::Returning: LengthField,
 {
    type State = ForwardDArrayParserState<
        <DefaultInterp as InterpParser<L>>::State,
        S::State,
        S::Returning,
        M,
    >;

    type Returning = BoundedVec<S::Returning, M>;

    open spec fn wf(&self) -> bool {
        &&& self.0.wf()
        &&& <DefaultInterp as InterpParser<L>>::wf(&DefaultInterp)
    }

    open spec fn inv(&self, state: Self::State) -> bool {
        darray_inv::<L, I, S, M>(self.0, state)
    }

    open spec fn spec_init(&self) -> Self::State {
        ForwardDArrayParserState::Length(
            <DefaultInterp as InterpParser<L>>::spec_init(&DefaultInterp),
        )
    }

    open spec fn spec_parse(
        &self,
        state: Self::State,
        dest: Option<Self::Returning>,
        chunk: Seq<u8>,
    ) -> Step<Self::State, Self::Returning> {
        darray_parse::<L, I, S, M>(self.0, state, dest, chunk)
    }

    open spec fn consulted(
        &self,
        state: Self::State,
        dest: Option<Self::Returning>,
        chunk: Seq<u8>,
    ) -> bool {
        darray_consulted::<L, I, S, M>(self.0, state, chunk)
    }

    /// A completed parse leaves the terminal state, in which everything is
    /// rejected.
    open spec fn left_by_completion(&self, state: Self::State) -> bool {
        state is Done
    }

    open spec fn chunk_independent(&self) -> bool {
        &&& self.0.chunk_independent()
        &&& <DefaultInterp as InterpParser<L>>::chunk_independent(&DefaultInterp)
        &&& pending_keeps_none::<L, DefaultInterp>(DefaultInterp)
    }

    proof fn lemma_init(&self) {
        <DefaultInterp as InterpParser<L>>::lemma_init(&DefaultInterp);
    }

    proof fn lemma_parse_protocol(
        &self,
        state: Self::State,
        dest: Option<Self::Returning>,
        chunk: Seq<u8>,
    ) {
        match state {
            ForwardDArrayParserState::Length(length_state) => {
                <DefaultInterp as InterpParser<L>>::lemma_parse_protocol(
                    &DefaultInterp,
                    length_state,
                    None,
                    chunk,
                );
                match <DefaultInterp as InterpParser<L>>::spec_parse(
                    &DefaultInterp,
                    length_state,
                    None,
                    chunk,
                ) {
                    Step::Done { rest, value } => {
                        if let Some(len) = value.spec_length() {
                            if len <= M {
                                BoundedVec::<S::Returning, M>::lemma_spec_new();
                                self.0.lemma_init();
                                lemma_darray_elements_protocol::<
                                    I,
                                    S,
                                    <DefaultInterp as InterpParser<L>>::State,
                                    M,
                                >(
                                    self.0,
                                    BoundedVec::spec_new(),
                                    len,
                                    self.0.spec_init(),
                                    None,
                                    dest,
                                    rest,
                                );
                                if let Step::Done { rest: last, .. } = darray_parse::<L, I, S, M>(
                                    self.0,
                                    state,
                                    dest,
                                    chunk,
                                ) {
                                    lemma_tail_of_tail(last, rest, chunk);
                                }
                            }
                        }
                    },
                    _ => {},
                }
            },
            ForwardDArrayParserState::Elements(items, len, element_state, element_dest) => {
                lemma_darray_elements_protocol::<I, S, <DefaultInterp as InterpParser<L>>::State, M>(
                    self.0,
                    items,
                    len,
                    element_state,
                    element_dest,
                    dest,
                    chunk,
                );
            },
            ForwardDArrayParserState::Done => {},
        }
    }

    proof fn lemma_parse_split(
        &self,
        state: Self::State,
        dest: Option<Self::Returning>,
        a: Seq<u8>,
        b: Seq<u8>,
    ) {
        match state {
            ForwardDArrayParserState::Length(length_state) => {
                <DefaultInterp as InterpParser<L>>::lemma_parse_split(
                    &DefaultInterp,
                    length_state,
                    None,
                    a,
                    b,
                );
                match <DefaultInterp as InterpParser<L>>::spec_parse(
                    &DefaultInterp,
                    length_state,
                    None,
                    a,
                ) {
                    Step::Done { rest, value } => {
                        if let Some(len) = value.spec_length() {
                            if len <= M {
                                BoundedVec::<S::Returning, M>::lemma_spec_new();
                                self.0.lemma_init();
                                lemma_darray_elements_split::<
                                    I,
                                    S,
                                    <DefaultInterp as InterpParser<L>>::State,
                                    M,
                                >(
                                    self.0,
                                    BoundedVec::spec_new(),
                                    len,
                                    self.0.spec_init(),
                                    None,
                                    dest,
                                    rest,
                                    b,
                                );
                            }
                        }
                    },
                    _ => {},
                }
            },
            ForwardDArrayParserState::Elements(items, len, element_state, element_dest) => {
                lemma_darray_elements_split::<I, S, <DefaultInterp as InterpParser<L>>::State, M>(
                    self.0,
                    items,
                    len,
                    element_state,
                    element_dest,
                    dest,
                    a,
                    b,
                );
            },
            ForwardDArrayParserState::Done => {},
        }
    }

    fn init(&self) -> (state: Self::State) {
        ForwardDArrayParserState::Length(<DefaultInterp as InterpParser<L>>::init(&DefaultInterp))
    }

    fn parse<'a, 'b>(
        &self,
        state: &'b mut Self::State,
        chunk: &'a [u8],
        destination: &mut Option<Self::Returning>,
    ) -> (res: ParseResult<'a>) {
        let ghost dest0 = *destination;
        let mut cursor: &'a [u8] = chunk;
        match state {
            ForwardDArrayParserState::Length(length_state) => {
                let mut sub_destination: Option<<DefaultInterp as InterpParser<L>>::Returning> =
                    None;
                let newcur = <DefaultInterp as InterpParser<L>>::parse(
                    &DefaultInterp,
                    length_state,
                    chunk,
                    &mut sub_destination,
                )?;
                cursor = newcur;
                let len = match sub_destination {
                    None => {
                        return Err((Some(OOB::Reject), newcur));
                    },
                    Some(value) => match value.length() {
                        None => {
                            return Err((Some(OOB::Reject), newcur));
                        },
                        Some(len) => len,
                    },
                };
                if len > M {
                    return Err((Some(OOB::Reject), newcur));
                }
                *state = ForwardDArrayParserState::Elements(
                    BoundedVec::new(),
                    len,
                    self.0.init(),
                    None,
                );
            },
            ForwardDArrayParserState::Elements(..) => {},
            ForwardDArrayParserState::Done => {
                return Err((Some(OOB::Reject), cursor));
            },
        }
        loop
            invariant
                self.0.wf(),
                darray_inv::<L, I, S, M>(self.0, *state),
                *state is Elements,
                dest0 == *old(destination),
                *destination == dest0,
                darray_parse::<L, I, S, M>(self.0, *old(state), dest0, chunk@) == darray_parse::<
                    L,
                    I,
                    S,
                    M,
                >(self.0, *state, dest0, cursor@),
                darray_consulted::<L, I, S, M>(self.0, *state, cursor@) ==> darray_consulted::<
                    L,
                    I,
                    S,
                    M,
                >(self.0, *old(state), chunk@),
            ensures
                *state matches ForwardDArrayParserState::Elements(items, len, _, _)
                    && items@.len() >= len,
            decreases
                    (match *state {
                        ForwardDArrayParserState::Elements(items, len, _, _) => len - items@.len(),
                        _ => 0,
                    }),
        {
            match state {
                ForwardDArrayParserState::Elements(
                    items,
                    len,
                    element_state,
                    element_destination,
                ) => {
                    if items.len() >= *len {
                        break ;
                    }
                    let ghost items0 = *items;
                    match self.0.parse(element_state, cursor, element_destination) {
                        Err(e) => {
                            return Err(e);
                        },
                        Ok(new_cursor) => {
                            cursor = new_cursor;
                            match element_destination.take() {
                                None => {
                                    return Err((Some(OOB::Reject), cursor));
                                },
                                Some(item) => {
                                    proof {
                                        items0.lemma_spec_push(item);
                                        self.0.lemma_init();
                                    }
                                    match items.try_push(item) {
                                        Err(_) => {
                                            return Err((Some(OOB::Reject), cursor));
                                        },
                                        Ok(()) => {},
                                    }
                                    *element_state = self.0.init();
                                },
                            }
                        },
                    }
                },
                _ => {
                    return Err((Some(OOB::Reject), cursor));
                },
            }
        }
        let mut finished = ForwardDArrayParserState::Done;
        core::mem::swap(state, &mut finished);
        match finished {
            ForwardDArrayParserState::Elements(items, _, _, _) => {
                *destination = Some(items);
                Ok(cursor)
            },
            _ => Err((Some(OOB::Reject), cursor)),
        }
    }
}

} // verus!
