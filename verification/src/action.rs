//! Transformations: a parser whose result is mapped through a function of
//! the caller's when it completes. The function returns `None` to reject.
use crate::interp::{
    context_map, is_context_map, is_ref_map, is_value_map, ref_map, value_map, Action,
    ContextAction, MoveAction,
};
use crate::interp_parser::{DynInterpParser, InterpParser, ParseResult, Step, OOB};
use vstd::prelude::*;

verus! {

/// What a transformation does, given what the parser inside it does and the
/// function's verdict on a completed result: it asks for more or rejects
/// when the parser does, keeping the parser's destination in its own state,
/// and completes with the mapped value unless the function rejects.
pub open spec fn action_step<S, X, R>(
    inner: Step<S, X>,
    dest: Option<R>,
    verdict: Option<R>,
) -> Step<(S, Option<X>), R> {
    match inner {
        Step::Pending { state, dest: inner_dest } => Step::Pending {
            state: (state, inner_dest),
            dest,
        },
        Step::Rejected { rest } => Step::Rejected { rest },
        Step::Done { rest, .. } => match verdict {
            Some(mapped) => Step::Done { rest, value: mapped },
            None => Step::Rejected { rest },
        },
    }
}

/// The transition function of `Action`. The parser inside runs with the
/// destination that the state holds. When it completes, the function maps a
/// reference to its result.
pub open spec fn action_parse<A, R, S: InterpParser<A>, F: Fn(&S::Returning) -> Option<R>>(
    sub: S,
    f: F,
    state: (S::State, Option<S::Returning>),
    dest: Option<R>,
    chunk: Seq<u8>,
) -> Step<(S::State, Option<S::Returning>), R> {
    let inner = sub.spec_parse(state.0, state.1, chunk);
    action_step(
        inner,
        dest,
        match inner {
            Step::Done { value, .. } => ref_map(f, value),
            _ => None,
        },
    )
}

/// The parser inside an `Action` consulted what it needed, and if it
/// completed, the function was run on its result.
pub open spec fn action_consulted<A, R, S: InterpParser<A>, F: Fn(&S::Returning) -> Option<R>>(
    sub: S,
    f: F,
    state: (S::State, Option<S::Returning>),
    chunk: Seq<u8>,
) -> bool {
    &&& sub.consulted(state.0, state.1, chunk)
    &&& sub.spec_parse(state.0, state.1, chunk) matches Step::Done { value, .. } ==> call_ensures(
        f,
        (&value,),
        ref_map(f, value),
    )
}

impl<A, R, S: InterpParser<A>, F: Fn(&S::Returning) -> Option<R>> InterpParser<A> for Action<
    S,
    F,
> {
    type State = (S::State, Option<S::Returning>);

    type Returning = R;

    /// The function may be called on every result, and what it returns
    /// depends on the result alone.
    open spec fn wf(&self) -> bool {
        &&& self.0.wf()
        &&& is_ref_map(self.1)
    }

    open spec fn inv(&self, state: Self::State) -> bool {
        self.0.inv(state.0)
    }

    open spec fn spec_init(&self) -> Self::State {
        (self.0.spec_init(), None)
    }

    open spec fn spec_parse(&self, state: Self::State, dest: Option<R>, chunk: Seq<u8>) -> Step<
        Self::State,
        R,
    > {
        action_parse(self.0, self.1, state, dest, chunk)
    }

    open spec fn consulted(&self, state: Self::State, dest: Option<R>, chunk: Seq<u8>) -> bool {
        action_consulted(self.0, self.1, state, chunk)
    }

    open spec fn left_by_completion(&self, state: Self::State) -> bool {
        true
    }

    open spec fn chunk_independent(&self) -> bool {
        self.0.chunk_independent()
    }

    proof fn lemma_init(&self) {
        self.0.lemma_init();
    }

    proof fn lemma_parse_protocol(&self, state: Self::State, dest: Option<R>, chunk: Seq<u8>) {
        self.0.lemma_parse_protocol(state.0, state.1, chunk);
    }

    proof fn lemma_parse_split(&self, state: Self::State, dest: Option<R>, a: Seq<u8>, b: Seq<u8>) {
        self.0.lemma_parse_split(state.0, state.1, a, b);
    }

    fn init(&self) -> (state: Self::State) {
        (self.0.init(), None)
    }

    fn parse<'a, 'b>(
        &self,
        state: &'b mut Self::State,
        chunk: &'a [u8],
        destination: &mut Option<R>,
    ) -> (res: ParseResult<'a>) {
        let new_chunk = self.0.parse(&mut state.0, chunk, &mut state.1)?;
        match &state.1 {
            None => Err((Some(OOB::Reject), new_chunk)),
            Some(value) => match (self.1)(value) {
                None => Err((Some(OOB::Reject), new_chunk)),
                Some(mapped) => {
                    *destination = Some(mapped);
                    Ok(new_chunk)
                },
            },
        }
    }
}

impl<A, R, S: DynInterpParser<A>, F: Fn(&S::Returning) -> Option<R>> DynInterpParser<
    A,
> for Action<S, F> {
    type Parameter = S::Parameter;

    /// The parameter seeds the parser inside.
    open spec fn spec_init_param(&self, param: S::Parameter, dest: Option<R>) -> (
        Self::State,
        Option<R>,
    ) {
        (self.0.spec_init_param(param, None), dest)
    }

    proof fn lemma_init_param(&self, param: S::Parameter, dest: Option<R>) {
        self.0.lemma_init_param(param, None);
    }

    fn init_param(
        &self,
        params: S::Parameter,
        state: &mut Self::State,
        destination: &mut Option<R>,
    ) {
        state.0 = self.0.init();
        state.1 = None;
        self.0.init_param(params, &mut state.0, &mut state.1);
    }
}

/// What the parts of the contract say of an `Action`. A caller that holds
/// one whose function is a closure or a named function learns them here.
pub proof fn lemma_action_contract<A, R, S: InterpParser<A>, F: Fn(&S::Returning) -> Option<R>>(
    parser: Action<S, F>,
)
    ensures
        parser.wf() == (parser.0.wf() && is_ref_map(parser.1)),
        parser.spec_init() == (parser.0.spec_init(), None::<S::Returning>),
        parser.chunk_independent() == parser.0.chunk_independent(),
        forall|state: (S::State, Option<S::Returning>)| #[trigger]
            parser.inv(state) == parser.0.inv(state.0),
        forall|state: (S::State, Option<S::Returning>), dest: Option<R>, chunk: Seq<u8>|
            #[trigger] parser.spec_parse(state, dest, chunk) == action_parse(
                parser.0,
                parser.1,
                state,
                dest,
                chunk,
            ),
        forall|state: (S::State, Option<S::Returning>), dest: Option<R>, chunk: Seq<u8>|
            #[trigger] parser.consulted(state, dest, chunk) == action_consulted(
                parser.0,
                parser.1,
                state,
                chunk,
            ),
{
}

/// The transition function of `ContextAction`. The parser inside runs with
/// the destination that the state holds. When it completes, the function
/// maps a reference to its result and the context that the state was seeded
/// with; a state without a context rejects.
pub open spec fn context_action_parse<
    A,
    R,
    C,
    S: InterpParser<A>,
    F: Fn(&S::Returning, C) -> Option<R>,
>(
    sub: S,
    f: F,
    state: (S::State, Option<S::Returning>, Option<C>),
    dest: Option<R>,
    chunk: Seq<u8>,
) -> Step<(S::State, Option<S::Returning>, Option<C>), R> {
    match sub.spec_parse(state.0, state.1, chunk) {
        Step::Pending { state: s1, dest: d1 } => Step::Pending { state: (s1, d1, state.2), dest },
        Step::Rejected { rest } => Step::Rejected { rest },
        Step::Done { rest, value } => match state.2 {
            None => Step::Rejected { rest },
            Some(c) => match context_map(f, value, c) {
                Some(mapped) => Step::Done { rest, value: mapped },
                None => Step::Rejected { rest },
            },
        },
    }
}

/// The parser inside a `ContextAction` consulted what it needed, and if it
/// completed in a state with a context, the function was run on its result
/// and the context.
pub open spec fn context_action_consulted<
    A,
    R,
    C,
    S: InterpParser<A>,
    F: Fn(&S::Returning, C) -> Option<R>,
>(sub: S, f: F, state: (S::State, Option<S::Returning>, Option<C>), chunk: Seq<u8>) -> bool {
    &&& sub.consulted(state.0, state.1, chunk)
    &&& sub.spec_parse(state.0, state.1, chunk) matches Step::Done { value, .. } ==> (
    state.2 matches Some(c) ==> call_ensures(f, (&value, c), context_map(f, value, c)))
}

impl<A, R, C, S: InterpParser<A>, F: Fn(&S::Returning, C) -> Option<R>> InterpParser<
    A,
> for ContextAction<S, F, C> {
    type State = (S::State, Option<S::Returning>, Option<C>);

    type Returning = R;

    /// The function may be called on every result and context, and what it
    /// returns depends on them alone.
    open spec fn wf(&self) -> bool {
        &&& self.0.wf()
        &&& is_context_map(self.1)
    }

    open spec fn inv(&self, state: Self::State) -> bool {
        self.0.inv(state.0)
    }

    open spec fn spec_init(&self) -> Self::State {
        (self.0.spec_init(), None, None)
    }

    open spec fn spec_parse(&self, state: Self::State, dest: Option<R>, chunk: Seq<u8>) -> Step<
        Self::State,
        R,
    > {
        context_action_parse(self.0, self.1, state, dest, chunk)
    }

    open spec fn consulted(&self, state: Self::State, dest: Option<R>, chunk: Seq<u8>) -> bool {
        context_action_consulted(self.0, self.1, state, chunk)
    }

    open spec fn left_by_completion(&self, state: Self::State) -> bool {
        true
    }

    open spec fn chunk_independent(&self) -> bool {
        self.0.chunk_independent()
    }

    proof fn lemma_init(&self) {
        self.0.lemma_init();
    }

    proof fn lemma_parse_protocol(&self, state: Self::State, dest: Option<R>, chunk: Seq<u8>) {
        self.0.lemma_parse_protocol(state.0, state.1, chunk);
    }

    proof fn lemma_parse_split(&self, state: Self::State, dest: Option<R>, a: Seq<u8>, b: Seq<u8>) {
        self.0.lemma_parse_split(state.0, state.1, a, b);
    }

    fn init(&self) -> (state: Self::State) {
        (self.0.init(), None, None)
    }

    fn parse<'a, 'b>(
        &self,
        state: &'b mut Self::State,
        chunk: &'a [u8],
        destination: &mut Option<R>,
    ) -> (res: ParseResult<'a>) {
        let new_chunk = self.0.parse(&mut state.0, chunk, &mut state.1)?;
        let context = match state.2.take() {
            None => {
                return Err((Some(OOB::Reject), new_chunk));
            },
            Some(context) => context,
        };
        match &state.1 {
            None => Err((Some(OOB::Reject), new_chunk)),
            Some(value) => match (self.1)(value, context) {
                None => Err((Some(OOB::Reject), new_chunk)),
                Some(mapped) => {
                    *destination = Some(mapped);
                    Ok(new_chunk)
                },
            },
        }
    }
}

impl<A, R, C, S: InterpParser<A>, F: Fn(&S::Returning, C) -> Option<R>> DynInterpParser<
    A,
> for ContextAction<S, F, C> {
    type Parameter = C;

    /// The parameter is the context, and the destination is left alone.
    open spec fn spec_init_param(&self, param: C, dest: Option<R>) -> (Self::State, Option<R>) {
        ((self.0.spec_init(), None, Some(param)), dest)
    }

    proof fn lemma_init_param(&self, param: C, dest: Option<R>) {
        self.0.lemma_init();
    }

    fn init_param(&self, params: C, state: &mut Self::State, destination: &mut Option<R>) {
        state.0 = self.0.init();
        state.1 = None;
        state.2 = Some(params);
    }
}

/// What the parts of the contract say of a `ContextAction`. A caller that
/// holds one whose function is a closure or a named function learns them
/// here.
pub proof fn lemma_context_action_contract<
    A,
    R,
    C,
    S: InterpParser<A>,
    F: Fn(&S::Returning, C) -> Option<R>,
>(parser: ContextAction<S, F, C>)
    ensures
        parser.wf() == (parser.0.wf() && is_context_map(parser.1)),
        parser.spec_init() == (parser.0.spec_init(), None::<S::Returning>, None::<C>),
        parser.chunk_independent() == parser.0.chunk_independent(),
        forall|state: (S::State, Option<S::Returning>, Option<C>)| #[trigger]
            parser.inv(state) == parser.0.inv(state.0),
        forall|
            state: (S::State, Option<S::Returning>, Option<C>),
            dest: Option<R>,
            chunk: Seq<u8>,
        | #[trigger]
            parser.spec_parse(state, dest, chunk) == context_action_parse(
                parser.0,
                parser.1,
                state,
                dest,
                chunk,
            ),
        forall|
            state: (S::State, Option<S::Returning>, Option<C>),
            dest: Option<R>,
            chunk: Seq<u8>,
        | #[trigger]
            parser.consulted(state, dest, chunk) == context_action_consulted(
                parser.0,
                parser.1,
                state,
                chunk,
            ),
        forall|param: C, dest: Option<R>| #[trigger]
            parser.spec_init_param(param, dest) == (
                (parser.0.spec_init(), None::<S::Returning>, Some(param)),
                dest,
            ),
{
}

/// The transition function of `MoveAction`. The parser inside runs with the
/// destination that the state holds. When it completes, its result is handed
/// over to the function.
pub open spec fn move_action_parse<A, R, S: InterpParser<A>, F: Fn(S::Returning) -> Option<R>>(
    sub: S,
    f: F,
    state: (S::State, Option<S::Returning>),
    dest: Option<R>,
    chunk: Seq<u8>,
) -> Step<(S::State, Option<S::Returning>), R> {
    let inner = sub.spec_parse(state.0, state.1, chunk);
    action_step(
        inner,
        dest,
        match inner {
            Step::Done { value, .. } => value_map(f, value),
            _ => None,
        },
    )
}

/// The parser inside a `MoveAction` consulted what it needed, and if it
/// completed, the function was run on its result.
pub open spec fn move_action_consulted<
    A,
    R,
    S: InterpParser<A>,
    F: Fn(S::Returning) -> Option<R>,
>(sub: S, f: F, state: (S::State, Option<S::Returning>), chunk: Seq<u8>) -> bool {
    &&& sub.consulted(state.0, state.1, chunk)
    &&& sub.spec_parse(state.0, state.1, chunk) matches Step::Done { value, .. } ==> call_ensures(
        f,
        (value,),
        value_map(f, value),
    )
}

impl<A, R, S: InterpParser<A>, F: Fn(S::Returning) -> Option<R>> InterpParser<A> for MoveAction<
    S,
    F,
> {
    type State = (S::State, Option<S::Returning>);

    type Returning = R;

    /// The function may be called on every result, and what it returns
    /// depends on the result alone.
    open spec fn wf(&self) -> bool {
        &&& self.0.wf()
        &&& is_value_map(self.1)
    }

    open spec fn inv(&self, state: Self::State) -> bool {
        self.0.inv(state.0)
    }

    open spec fn spec_init(&self) -> Self::State {
        (self.0.spec_init(), None)
    }

    open spec fn spec_parse(&self, state: Self::State, dest: Option<R>, chunk: Seq<u8>) -> Step<
        Self::State,
        R,
    > {
        move_action_parse(self.0, self.1, state, dest, chunk)
    }

    open spec fn consulted(&self, state: Self::State, dest: Option<R>, chunk: Seq<u8>) -> bool {
        move_action_consulted(self.0, self.1, state, chunk)
    }

    open spec fn left_by_completion(&self, state: Self::State) -> bool {
        true
    }

    open spec fn chunk_independent(&self) -> bool {
        self.0.chunk_independent()
    }

    proof fn lemma_init(&self) {
        self.0.lemma_init();
    }

    proof fn lemma_parse_protocol(&self, state: Self::State, dest: Option<R>, chunk: Seq<u8>) {
        self.0.lemma_parse_protocol(state.0, state.1, chunk);
    }

    proof fn lemma_parse_split(&self, state: Self::State, dest: Option<R>, a: Seq<u8>, b: Seq<u8>) {
        self.0.lemma_parse_split(state.0, state.1, a, b);
    }

    fn init(&self) -> (state: Self::State) {
        (self.0.init(), None)
    }

    fn parse<'a, 'b>(
        &self,
        state: &'b mut Self::State,
        chunk: &'a [u8],
        destination: &mut Option<R>,
    ) -> (res: ParseResult<'a>) {
        let new_chunk = self.0.parse(&mut state.0, chunk, &mut state.1)?;
        match state.1.take() {
            None => Err((Some(OOB::Reject), new_chunk)),
            Some(value) => match (self.1)(value) {
                None => Err((Some(OOB::Reject), new_chunk)),
                Some(mapped) => {
                    *destination = Some(mapped);
                    Ok(new_chunk)
                },
            },
        }
    }
}

impl<A, R, S: DynInterpParser<A>, F: Fn(S::Returning) -> Option<R>> DynInterpParser<
    A,
> for MoveAction<S, F> {
    type Parameter = S::Parameter;

    /// The parameter seeds the parser inside.
    open spec fn spec_init_param(&self, param: S::Parameter, dest: Option<R>) -> (
        Self::State,
        Option<R>,
    ) {
        (self.0.spec_init_param(param, None), dest)
    }

    proof fn lemma_init_param(&self, param: S::Parameter, dest: Option<R>) {
        self.0.lemma_init_param(param, None);
    }

    fn init_param(
        &self,
        params: S::Parameter,
        state: &mut Self::State,
        destination: &mut Option<R>,
    ) {
        state.0 = self.0.init();
        state.1 = None;
        self.0.init_param(params, &mut state.0, &mut state.1);
    }
}

/// What the parts of the contract say of a `MoveAction`. A caller that holds
/// one whose function is a closure or a named function learns them here.
pub proof fn lemma_move_action_contract<
    A,
    R,
    S: InterpParser<A>,
    F: Fn(S::Returning) -> Option<R>,
>(parser: MoveAction<S, F>)
    ensures
        parser.wf() == (parser.0.wf() && is_value_map(parser.1)),
        parser.spec_init() == (parser.0.spec_init(), None::<S::Returning>),
        parser.chunk_independent() == parser.0.chunk_independent(),
        forall|state: (S::State, Option<S::Returning>)| #[trigger]
            parser.inv(state) == parser.0.inv(state.0),
        forall|state: (S::State, Option<S::Returning>), dest: Option<R>, chunk: Seq<u8>|
            #[trigger] parser.spec_parse(state, dest, chunk) == move_action_parse(
                parser.0,
                parser.1,
                state,
                dest,
                chunk,
            ),
        forall|state: (S::State, Option<S::Returning>), dest: Option<R>, chunk: Seq<u8>|
            #[trigger] parser.consulted(state, dest, chunk) == move_action_consulted(
                parser.0,
                parser.1,
                state,
                chunk,
            ),
{
}

} // verus!
