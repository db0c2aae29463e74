//! Sequencing where the second parser depends on the result of the first:
//! either a function builds it from that result, or its state is seeded with
//! the result.
use crate::interp::{is_ref_map, ref_map, Bind, DynBind};
use crate::interp_parser::{
    lemma_tail_of_tail, DynInterpParser, InterpParser, ParseResult, Step, OOB,
};
use vstd::prelude::*;

verus! {

/// The state of `Bind`. `BindFirst` holds the state and the destination of
/// the first parser. `BindSecond` holds the parser that was built from the
/// first result, and its state.
pub enum BindState<A, B, S: InterpParser<A>, T: InterpParser<B>> {
    BindFirst(S::State, Option<S::Returning>),
    BindSecond(T, T::State),
}

/// The second phase of `Bind`: the parser that was built runs, straight into
/// the destination.
pub open spec fn bind_second<A, B, S: InterpParser<A>, T: InterpParser<B>>(
    second: T,
    state: T::State,
    dest: Option<T::Returning>,
    chunk: Seq<u8>,
) -> Step<BindState<A, B, S, T>, T::Returning> {
    match second.spec_parse(state, dest, chunk) {
        Step::Pending { state: s1, dest: d1 } => Step::Pending {
            state: BindState::BindSecond(second, s1),
            dest: d1,
        },
        Step::Done { rest, value } => Step::Done { rest, value },
        Step::Rejected { rest } => Step::Rejected { rest },
    }
}

/// `second` is a parser that `f` builds from some result.
pub open spec fn built_by<X, T, F: Fn(&X) -> Option<T>>(f: F, second: T) -> bool {
    exists|x: X| #[trigger] ref_map(f, x) == Some(second)
}

/// The function of a `Bind` may be called on every result, what it returns
/// depends on the result alone, and every parser that it builds is usable.
pub open spec fn bind_wf<A, B, S: InterpParser<A>, T: InterpParser<B>, F: Fn(&S::Returning) -> Option<T>>(
    first: S,
    f: F,
) -> bool {
    &&& first.wf()
    &&& is_ref_map(f)
    &&& forall|x: S::Returning| #[trigger]
        ref_map::<S::Returning, Option<T>, F>(f, x) matches Some(second) ==> second.wf()
}

/// The live states of a `Bind`.
pub open spec fn bind_inv<A, B, S: InterpParser<A>, T: InterpParser<B>, F: Fn(&S::Returning) -> Option<T>>(
    first: S,
    f: F,
    state: BindState<A, B, S, T>,
) -> bool {
    match state {
        BindState::BindFirst(first_state, _) => first.inv(first_state),
        BindState::BindSecond(second, second_state) => {
            &&& built_by::<S::Returning, T, F>(f, second)
            &&& second.inv(second_state)
        },
    }
}

/// The transition function of `Bind`. In `BindFirst`, the first parser runs.
/// When it completes, the function builds the second parser from its result,
/// or rejects, and the second parser starts on what is left of the chunk. In
/// `BindSecond`, the second parser goes on.
pub open spec fn bind_parse<A, B, S: InterpParser<A>, T: InterpParser<B>, F: Fn(&S::Returning) -> Option<T>>(
    first: S,
    f: F,
    state: BindState<A, B, S, T>,
    dest: Option<T::Returning>,
    chunk: Seq<u8>,
) -> Step<BindState<A, B, S, T>, T::Returning> {
    match state {
        BindState::BindFirst(first_state, first_dest) => {
            match first.spec_parse(first_state, first_dest, chunk) {
                Step::Pending { state: s1, dest: d1 } => Step::Pending {
                    state: BindState::BindFirst(s1, d1),
                    dest,
                },
                Step::Rejected { rest } => Step::Rejected { rest },
                Step::Done { rest, value } => match ref_map::<S::Returning, Option<T>, F>(
                    f,
                    value,
                ) {
                    None => Step::Rejected { rest },
                    Some(second) => bind_second::<A, B, S, T>(
                        second,
                        second.spec_init(),
                        dest,
                        rest,
                    ),
                },
            }
        },
        BindState::BindSecond(second, second_state) => bind_second::<A, B, S, T>(
            second,
            second_state,
            dest,
            chunk,
        ),
    }
}

/// The parser of the phase consulted what it needed. If the first parser
/// completed, the function was run on its result, and the parser that it
/// built consulted what it needed on what was left of the chunk.
pub open spec fn bind_consulted<A, B, S: InterpParser<A>, T: InterpParser<B>, F: Fn(&S::Returning) -> Option<T>>(
    first: S,
    f: F,
    state: BindState<A, B, S, T>,
    dest: Option<T::Returning>,
    chunk: Seq<u8>,
) -> bool {
    match state {
        BindState::BindFirst(first_state, first_dest) => {
            &&& first.consulted(first_state, first_dest, chunk)
            &&& match first.spec_parse(first_state, first_dest, chunk) {
                Step::Done { rest, value } => {
                    &&& call_ensures(f, (&value,), ref_map::<S::Returning, Option<T>, F>(f, value))
                    &&& match ref_map::<S::Returning, Option<T>, F>(f, value) {
                        Some(second) => second.consulted(second.spec_init(), dest, rest),
                        None => true,
                    }
                },
                _ => true,
            }
        },
        BindState::BindSecond(second, second_state) => second.consulted(
            second_state,
            dest,
            chunk,
        ),
    }
}

/// The first parser of a `Bind` and every parser that the function builds
/// are independent of how the input is cut.
pub open spec fn bind_chunk_independent<A, B, S: InterpParser<A>, T: InterpParser<B>, F: Fn(&S::Returning) -> Option<T>>(
    first: S,
    f: F,
) -> bool {
    &&& first.chunk_independent()
    &&& forall|x: S::Returning| #[trigger]
        ref_map::<S::Returning, Option<T>, F>(f, x) matches Some(second)
            ==> second.chunk_independent()
}

impl<
    A,
    B,
    S: InterpParser<A>,
    T: InterpParser<B>,
    F: Fn(&S::Returning) -> Option<T>,
> InterpParser<(A, B)> for Bind<S, F, T> {
    type State = BindState<A, B, S, T>;

    type Returning = T::Returning;

    open spec fn wf(&self) -> bool {
        bind_wf::<A, B, S, T, F>(self.0, self.1)
    }

    open spec fn inv(&self, state: Self::State) -> bool {
        bind_inv::<A, B, S, T, F>(self.0, self.1, state)
    }

    open spec fn spec_init(&self) -> Self::State {
        BindState::BindFirst(self.0.spec_init(), None)
    }

    open spec fn spec_parse(
        &self,
        state: Self::State,
        dest: Option<T::Returning>,
        chunk: Seq<u8>,
    ) -> Step<Self::State, T::Returning> {
        bind_parse::<A, B, S, T, F>(self.0, self.1, state, dest, chunk)
    }

    open spec fn consulted(
        &self,
        state: Self::State,
        dest: Option<T::Returning>,
        chunk: Seq<u8>,
    ) -> bool {
        bind_consulted::<A, B, S, T, F>(self.0, self.1, state, dest, chunk)
    }

    open spec fn left_by_completion(&self, state: Self::State) -> bool {
        true
    }

    open spec fn chunk_independent(&self) -> bool {
        bind_chunk_independent::<A, B, S, T, F>(self.0, self.1)
    }

    proof fn lemma_init(&self) {
        self.0.lemma_init();
    }

    proof fn lemma_parse_protocol(
        &self,
        state: Self::State,
        dest: Option<T::Returning>,
        chunk: Seq<u8>,
    ) {
        match state {
            BindState::BindFirst(first_state, first_dest) => {
                self.0.lemma_parse_protocol(first_state, first_dest, chunk);
                match self.0.spec_parse(first_state, first_dest, chunk) {
                    Step::Done { rest, value } => {
                        if let Some(second) = ref_map(self.1, value) {
                            second.lemma_init();
                            second.lemma_parse_protocol(second.spec_init(), dest, rest);
                            if let Step::Done { rest: last, .. } = second.spec_parse(
                                second.spec_init(),
                                dest,
                                rest,
                            ) {
                                lemma_tail_of_tail(last, rest, chunk);
                            }
                        }
                    },
                    _ => {},
                }
            },
            BindState::BindSecond(second, second_state) => {
                second.lemma_parse_protocol(second_state, dest, chunk);
            },
        }
    }

    proof fn lemma_parse_split(
        &self,
        state: Self::State,
        dest: Option<T::Returning>,
        a: Seq<u8>,
        b: Seq<u8>,
    ) {
        match state {
            BindState::BindFirst(first_state, first_dest) => {
                self.0.lemma_parse_split(first_state, first_dest, a, b);
                match self.0.spec_parse(first_state, first_dest, a) {
                    Step::Done { rest, value } => {
                        if let Some(second) = ref_map(self.1, value) {
                            second.lemma_init();
                            second.lemma_parse_split(second.spec_init(), dest, rest, b);
                        }
                    },
                    _ => {},
                }
            },
            BindState::BindSecond(second, second_state) => {
                second.lemma_parse_split(second_state, dest, a, b);
            },
        }
    }

    fn init(&self) -> (state: Self::State) {
        BindState::BindFirst(self.0.init(), None)
    }

    fn parse<'a, 'b>(
        &self,
        state: &'b mut Self::State,
        chunk: &'a [u8],
        destination: &mut Option<T::Returning>,
    ) -> (res: ParseResult<'a>) {
        let mut cursor: &'a [u8] = chunk;
        match state {
            BindState::BindFirst(first_state, first_destination) => {
                cursor = self.0.parse(first_state, cursor, first_destination)?;
                let second = match first_destination.take() {
                    None => {
                        return Err((Some(OOB::Reject), cursor));
                    },
                    Some(value) => match (self.1)(&value) {
                        None => {
                            return Err((Some(OOB::Reject), cursor));
                        },
                        Some(second) => {
                            assert(ref_map(self.1, value) == Some(second));
                            second
                        },
                    },
                };
                let second_state = second.init();
                *state = BindState::BindSecond(second, second_state);
            },
            BindState::BindSecond(..) => {},
        }
        match state {
            BindState::BindSecond(second, second_state) => {
                second.parse(second_state, cursor, destination)
            },
            _ => Err((Some(OOB::Reject), cursor)),
        }
    }
}

/// What the parts of the contract say of a `Bind`. A caller that holds one
/// whose function is a closure or a named function learns them here.
pub proof fn lemma_bind_contract<
    A,
    B,
    S: InterpParser<A>,
    T: InterpParser<B>,
    F: Fn(&S::Returning) -> Option<T>,
>(parser: Bind<S, F, T>)
    ensures
        parser.wf() == bind_wf::<A, B, S, T, F>(parser.0, parser.1),
        parser.spec_init() == BindState::<A, B, S, T>::BindFirst(parser.0.spec_init(), None),
        parser.chunk_independent() == bind_chunk_independent::<A, B, S, T, F>(
            parser.0,
            parser.1,
        ),
        forall|state: BindState<A, B, S, T>| #[trigger]
            parser.inv(state) == bind_inv::<A, B, S, T, F>(parser.0, parser.1, state),
        forall|state: BindState<A, B, S, T>, dest: Option<T::Returning>, chunk: Seq<u8>|
            #[trigger] parser.spec_parse(state, dest, chunk) == bind_parse::<A, B, S, T, F>(
                parser.0,
                parser.1,
                state,
                dest,
                chunk,
            ),
        forall|state: BindState<A, B, S, T>, dest: Option<T::Returning>, chunk: Seq<u8>|
            #[trigger] parser.consulted(state, dest, chunk) == bind_consulted::<A, B, S, T, F>(
                parser.0,
                parser.1,
                state,
                dest,
                chunk,
            ),
{
}

/// The state of `DynBind`. `BindFirst` holds the state and the destination
/// of the first parser. `BindSecond` holds the state of the second.
pub enum DynBindState<A, B, S: InterpParser<A>, T: InterpParser<B>> {
    BindFirst(S::State, Option<S::Returning>),
    BindSecond(T::State),
}

/// The second phase of `DynBind`: the second parser runs, straight into the
/// destination.
pub open spec fn dyn_bind_second<A, B, S: InterpParser<A>, T: InterpParser<B>>(
    second: T,
    state: T::State,
    dest: Option<T::Returning>,
    chunk: Seq<u8>,
) -> Step<DynBindState<A, B, S, T>, T::Returning> {
    match second.spec_parse(state, dest, chunk) {
        Step::Pending { state: s1, dest: d1 } => Step::Pending {
            state: DynBindState::BindSecond(s1),
            dest: d1,
        },
        Step::Done { rest, value } => Step::Done { rest, value },
        Step::Rejected { rest } => Step::Rejected { rest },
    }
}

impl<
    A,
    B,
    S: InterpParser<A>,
    T: DynInterpParser<B, Parameter = S::Returning>,
> InterpParser<(A, B)> for DynBind<S, T> {
    type State = DynBindState<A, B, S, T>;

    type Returning = T::Returning;

    open spec fn wf(&self) -> bool {
        &&& self.0.wf()
        &&& self.1.wf()
    }

    open spec fn inv(&self, state: Self::State) -> bool {
        match state {
            DynBindState::BindFirst(first_state, _) => self.0.inv(first_state),
            DynBindState::BindSecond(second_state) => self.1.inv(second_state),
        }
    }

    open spec fn spec_init(&self) -> Self::State {
        DynBindState::BindFirst(self.0.spec_init(), None)
    }

    /// In `BindFirst`, the first parser runs. When it completes, its result
    /// seeds the state of the second parser, which starts on what is left of
    /// the chunk. In `BindSecond`, the second parser goes on.
    open spec fn spec_parse(
        &self,
        state: Self::State,
        dest: Option<T::Returning>,
        chunk: Seq<u8>,
    ) -> Step<Self::State, T::Returning> {
        match state {
            DynBindState::BindFirst(first_state, first_dest) => {
                match self.0.spec_parse(first_state, first_dest, chunk) {
                    Step::Pending { state: s1, dest: d1 } => Step::Pending {
                        state: DynBindState::BindFirst(s1, d1),
                        dest,
                    },
                    Step::Rejected { rest } => Step::Rejected { rest },
                    Step::Done { rest, value } => {
                        let seeded = self.1.spec_init_param(value, dest);
                        dyn_bind_second::<A, B, S, T>(self.1, seeded.0, seeded.1, rest)
                    },
                }
            },
            DynBindState::BindSecond(second_state) => dyn_bind_second::<A, B, S, T>(
                self.1,
                second_state,
                dest,
                chunk,
            ),
        }
    }

    open spec fn consulted(
        &self,
        state: Self::State,
        dest: Option<T::Returning>,
        chunk: Seq<u8>,
    ) -> bool {
        match state {
            DynBindState::BindFirst(first_state, first_dest) => {
                &&& self.0.consulted(first_state, first_dest, chunk)
                &&& match self.0.spec_parse(first_state, first_dest, chunk) {
                    Step::Done { rest, value } => {
                        let seeded = self.1.spec_init_param(value, dest);
                        self.1.consulted(seeded.0, seeded.1, rest)
                    },
                    _ => true,
                }
            },
            DynBindState::BindSecond(second_state) => self.1.consulted(second_state, dest, chunk),
        }
    }

    open spec fn left_by_completion(&self, state: Self::State) -> bool {
        true
    }

    open spec fn chunk_independent(&self) -> bool {
        &&& self.0.chunk_independent()
        &&& self.1.chunk_independent()
    }

    proof fn lemma_init(&self) {
        self.0.lemma_init();
    }

    proof fn lemma_parse_protocol(
        &self,
        state: Self::State,
        dest: Option<T::Returning>,
        chunk: Seq<u8>,
    ) {
        match state {
            DynBindState::BindFirst(first_state, first_dest) => {
                self.0.lemma_parse_protocol(first_state, first_dest, chunk);
                match self.0.spec_parse(first_state, first_dest, chunk) {
                    Step::Done { rest, value } => {
                        let seeded = self.1.spec_init_param(value, dest);
                        self.1.lemma_init_param(value, dest);
                        self.1.lemma_parse_protocol(seeded.0, seeded.1, rest);
                        if let Step::Done { rest: last, .. } = self.1.spec_parse(
                            seeded.0,
                            seeded.1,
                            rest,
                        ) {
                            lemma_tail_of_tail(last, rest, chunk);
                        }
                    },
                    _ => {},
                }
            },
            DynBindState::BindSecond(second_state) => {
                self.1.lemma_parse_protocol(second_state, dest, chunk);
            },
        }
    }

    proof fn lemma_parse_split(
        &self,
        state: Self::State,
        dest: Option<T::Returning>,
        a: Seq<u8>,
        b: Seq<u8>,
    ) {
        match state {
            DynBindState::BindFirst(first_state, first_dest) => {
                self.0.lemma_parse_split(first_state, first_dest, a, b);
                match self.0.spec_parse(first_state, first_dest, a) {
                    Step::Done { rest, value } => {
                        let seeded = self.1.spec_init_param(value, dest);
                        self.1.lemma_init_param(value, dest);
                        self.1.lemma_parse_split(seeded.0, seeded.1, rest, b);
                    },
                    _ => {},
                }
            },
            DynBindState::BindSecond(second_state) => {
                self.1.lemma_parse_split(second_state, dest, a, b);
            },
        }
    }

    fn init(&self) -> (state: Self::State) {
        DynBindState::BindFirst(self.0.init(), None)
    }

    fn parse<'a, 'b>(
        &self,
        state: &'b mut Self::State,
        chunk: &'a [u8],
        destination: &mut Option<T::Returning>,
    ) -> (res: ParseResult<'a>) {
        let mut cursor: &'a [u8] = chunk;
        match state {
            DynBindState::BindFirst(first_state, first_destination) => {
                cursor = self.0.parse(first_state, cursor, first_destination)?;
                let value = match first_destination.take() {
                    None => {
                        return Err((Some(OOB::Reject), cursor));
                    },
                    Some(value) => value,
                };
                let mut second_state = self.1.init();
                proof {
                    self.1.lemma_init_param(value, *destination);
                }
                self.1.init_param(value, &mut second_state, destination);
                *state = DynBindState::BindSecond(second_state);
            },
            DynBindState::BindSecond(..) => {},
        }
        match state {
            DynBindState::BindSecond(second_state) => self.1.parse(
                second_state,
                cursor,
                destination,
            ),
            _ => Err((Some(OOB::Reject), cursor)),
        }
    }
}

impl<
    A,
    B,
    S: DynInterpParser<A>,
    T: DynInterpParser<B, Parameter = S::Returning>,
> DynInterpParser<(A, B)> for DynBind<S, T> {
    type Parameter = S::Parameter;

    /// The parameter seeds the first parser.
    open spec fn spec_init_param(&self, param: S::Parameter, dest: Option<T::Returning>) -> (
        Self::State,
        Option<T::Returning>,
    ) {
        let seeded = self.0.spec_init_param(param, None);
        (DynBindState::BindFirst(seeded.0, seeded.1), dest)
    }

    proof fn lemma_init_param(&self, param: S::Parameter, dest: Option<T::Returning>) {
        self.0.lemma_init_param(param, None);
    }

    fn init_param(
        &self,
        params: S::Parameter,
        state: &mut Self::State,
        destination: &mut Option<T::Returning>,
    ) {
        let mut first_state = self.0.init();
        let mut first_destination: Option<S::Returning> = None;
        self.0.init_param(params, &mut first_state, &mut first_destination);
        *state = DynBindState::BindFirst(first_state, first_destination);
    }
}

} // verus!
