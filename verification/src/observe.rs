//! Byte observation: a parser that, besides parsing, folds every byte range
//! that it consumes into an accumulator, so that a digest of exactly the
//! bytes of a structure can be had while the structure is interpreted.
use crate::interp::{
    fold_bytes, fold_ran, is_concatenative, is_fold, is_thunk, lemma_slice_of, thunk_value,
    ObserveBytes,
};
use crate::interp_parser::{
    same_outcome, DynInterpParser, InterpParser, ParseResult, Step, OOB,
};
use vstd::prelude::*;

verus! {

/// One call of an observer whose parser inside is in `state`. Without an
/// accumulator in the destination the call rejects. Otherwise the parser
/// inside runs with the second half of the destination, and the bytes that
/// it consumed are folded into the first half: the whole chunk when it asks
/// for more, the consumed prefix when it completes.
pub open spec fn observe_run<A, X, F: Fn(X, &[u8]) -> X, S: InterpParser<A>>(
    sub: S,
    f: F,
    state: S::State,
    dest: Option<(X, Option<S::Returning>)>,
    chunk: Seq<u8>,
) -> Step<Option<S::State>, (X, Option<S::Returning>)> {
    match dest {
        None => Step::Rejected { rest: chunk },
        Some((accumulator, sub_dest)) => match sub.spec_parse(state, sub_dest, chunk) {
            Step::Pending { state: s1, dest: d1 } => Step::Pending {
                state: Some(s1),
                dest: Some((fold_bytes(f, accumulator, chunk), d1)),
            },
            Step::Done { rest, value } => Step::Done {
                rest,
                value: (
                    fold_bytes(f, accumulator, chunk.take(chunk.len() - rest.len())),
                    Some(value),
                ),
            },
            Step::Rejected { rest } => Step::Rejected { rest },
        },
    }
}

/// The parser inside consulted what it needed, and the folding function was
/// run on what the parser consumed.
pub open spec fn observe_consulted<A, X, F: Fn(X, &[u8]) -> X, S: InterpParser<A>>(
    sub: S,
    f: F,
    state: S::State,
    dest: Option<(X, Option<S::Returning>)>,
    chunk: Seq<u8>,
) -> bool {
    match dest {
        None => true,
        Some((accumulator, sub_dest)) => {
            &&& sub.consulted(state, sub_dest, chunk)
            &&& match sub.spec_parse(state, sub_dest, chunk) {
                Step::Pending { .. } => fold_ran(f, accumulator, chunk),
                Step::Done { rest, .. } => fold_ran(
                    f,
                    accumulator,
                    chunk.take(chunk.len() - rest.len()),
                ),
                Step::Rejected { .. } => true,
            }
        },
    }
}

proof fn lemma_observe_split<A, X, F: Fn(X, &[u8]) -> X, S: InterpParser<A>>(
    sub: S,
    f: F,
    state: S::State,
    dest: Option<(X, Option<S::Returning>)>,
    a: Seq<u8>,
    b: Seq<u8>,
)
    requires
        sub.wf(),
        sub.chunk_independent(),
        is_concatenative(f),
        sub.inv(state),
    ensures
        match observe_run(sub, f, state, dest, a) {
            Step::Pending { state: s1, dest: d1 } => s1 matches Some(inner) && same_outcome(
                observe_run(sub, f, state, dest, a + b),
                observe_run(sub, f, inner, d1, b),
            ),
            Step::Done { rest, value } => observe_run(sub, f, state, dest, a + b) == (Step::<
                Option<S::State>,
                (X, Option<S::Returning>),
            >::Done { rest: rest + b, value }),
            Step::Rejected { .. } => observe_run(sub, f, state, dest, a + b) is Rejected,
        },
{
    if let Some((accumulator, sub_dest)) = dest {
        sub.lemma_parse_split(state, sub_dest, a, b);
        sub.lemma_parse_protocol(state, sub_dest, a);
        match sub.spec_parse(state, sub_dest, a) {
            Step::Pending { state: s1, dest: d1 } => {
                sub.lemma_parse_protocol(s1, d1, b);
                let folded = fold_bytes(f, accumulator, a);
                match sub.spec_parse(s1, d1, b) {
                    Step::Pending { .. } => {
                        assert(fold_bytes(f, folded, b) == fold_bytes(f, accumulator, a + b));
                    },
                    Step::Done { rest, .. } => {
                        let used = b.take(b.len() - rest.len());
                        assert((a + b).take((a + b).len() - rest.len()) =~= a + used);
                        assert(fold_bytes(f, folded, used) == fold_bytes(f, accumulator, a + used));
                    },
                    Step::Rejected { .. } => {},
                }
            },
            Step::Done { rest, .. } => {
                assert((a + b).take((a + b).len() - (rest + b).len()) =~= a.take(
                    a.len() - rest.len(),
                ));
            },
            Step::Rejected { .. } => {},
        }
    }
}

/// The transition function of `ObserveBytes`. On first entry the
/// destination is seeded with a fresh accumulator and no result, and the
/// parser inside starts. Then, and on every later call, the parser inside
/// runs and what it consumed is folded.
pub open spec fn observe_parse<A, X, IFun: Fn() -> X, F: Fn(X, &[u8]) -> X, S: InterpParser<A>>(
    init: IFun,
    f: F,
    sub: S,
    state: Option<S::State>,
    dest: Option<(X, Option<S::Returning>)>,
    chunk: Seq<u8>,
) -> Step<Option<S::State>, (X, Option<S::Returning>)> {
    match state {
        None => observe_run(sub, f, sub.spec_init(), Some((thunk_value(init), None)), chunk),
        Some(inner) => observe_run(sub, f, inner, dest, chunk),
    }
}

/// On first entry the thunk was run. The parser inside consulted what it
/// needed, and the folding function was run on what the parser consumed.
pub open spec fn observe_all_consulted<
    A,
    X,
    IFun: Fn() -> X,
    F: Fn(X, &[u8]) -> X,
    S: InterpParser<A>,
>(
    init: IFun,
    f: F,
    sub: S,
    state: Option<S::State>,
    dest: Option<(X, Option<S::Returning>)>,
    chunk: Seq<u8>,
) -> bool {
    match state {
        None => {
            &&& call_ensures(init, (), thunk_value(init))
            &&& observe_consulted(
                sub,
                f,
                sub.spec_init(),
                Some((thunk_value(init), None)),
                chunk,
            )
        },
        Some(inner) => observe_consulted(sub, f, inner, dest, chunk),
    }
}

impl<A, X, IFun: Fn() -> X, F: Fn(X, &[u8]) -> X, S: InterpParser<A>> InterpParser<
    A,
> for ObserveBytes<X, IFun, F, S> {
    type State = Option<S::State>;

    type Returning = (X, Option<S::Returning>);

    /// The thunk and the folding function may be called, and what they
    /// return depends on their arguments alone.
    open spec fn wf(&self) -> bool {
        &&& self.2.wf()
        &&& is_thunk(self.0)
        &&& is_fold(self.1)
    }

    open spec fn inv(&self, state: Self::State) -> bool {
        state matches Some(inner) ==> self.2.inv(inner)
    }

    open spec fn spec_init(&self) -> Self::State {
        None
    }

    open spec fn spec_parse(
        &self,
        state: Self::State,
        dest: Option<Self::Returning>,
        chunk: Seq<u8>,
    ) -> Step<Self::State, Self::Returning> {
        observe_parse(self.0, self.1, self.2, state, dest, chunk)
    }

    open spec fn consulted(
        &self,
        state: Self::State,
        dest: Option<Self::Returning>,
        chunk: Seq<u8>,
    ) -> bool {
        observe_all_consulted(self.0, self.1, self.2, state, dest, chunk)
    }

    open spec fn left_by_completion(&self, state: Self::State) -> bool {
        true
    }

    /// The parser inside is independent of how the input is cut, and folding
    /// two ranges one after the other is folding their concatenation.
    open spec fn chunk_independent(&self) -> bool {
        &&& self.2.chunk_independent()
        &&& is_concatenative(self.1)
    }

    proof fn lemma_init(&self) {
    }

    proof fn lemma_parse_protocol(
        &self,
        state: Self::State,
        dest: Option<Self::Returning>,
        chunk: Seq<u8>,
    ) {
        match state {
            None => {
                self.2.lemma_init();
                self.2.lemma_parse_protocol(self.2.spec_init(), None, chunk);
            },
            Some(inner) => {
                if let Some((_, sub_dest)) = dest {
                    self.2.lemma_parse_protocol(inner, sub_dest, chunk);
                }
            },
        }
    }

    proof fn lemma_parse_split(
        &self,
        state: Self::State,
        dest: Option<Self::Returning>,
        a: Seq<u8>,
        b: Seq<u8>,
    ) {
        match state {
            None => {
                self.2.lemma_init();
                lemma_observe_split(
                    self.2,
                    self.1,
                    self.2.spec_init(),
                    Some((thunk_value(self.0), None)),
                    a,
                    b,
                );
            },
            Some(inner) => {
                lemma_observe_split(self.2, self.1, inner, dest, a, b);
            },
        }
    }

    fn init(&self) -> (state: Self::State) {
        None
    }

    fn parse<'a, 'b>(
        &self,
        state: &'b mut Self::State,
        chunk: &'a [u8],
        destination: &mut Option<Self::Returning>,
    ) -> (res: ParseResult<'a>) {
        if state.is_none() {
            *destination = Some(((self.0)(), None));
            *state = Some(self.2.init());
        }
        let ghost dest1 = *destination;
        let res = match state {
            None => {
                return Err((Some(OOB::Reject), chunk));
            },
            Some(inner) => match destination {
                None => {
                    return Err((Some(OOB::Reject), chunk));
                },
                Some(pair) => {
                    proof {
                        self.2.lemma_parse_protocol(*inner, pair.1, chunk@);
                    }
                    self.2.parse(inner, chunk, &mut pair.1)
                },
            },
        };
        let consumed = match res {
            Ok(new_chunk) => chunk.len() - new_chunk.len(),
            Err((None, _)) => chunk.len(),
            Err(e) => {
                return Err(e);
            },
        };
        match destination.take() {
            None => Err((Some(OOB::Reject), chunk)),
            Some((accumulator, sub_destination)) => {
                let observed = &chunk[0..consumed];
                proof {
                    lemma_slice_of(observed);
                    assert(chunk@.take(chunk@.len() as int) =~= chunk@);
                }
                *destination = Some(((self.1)(accumulator, observed), sub_destination));
                res
            },
        }
    }
}

impl<A, X, IFun: Fn() -> X, F: Fn(X, &[u8]) -> X, S: InterpParser<A>> DynInterpParser<
    A,
> for ObserveBytes<X, IFun, F, S> {
    type Parameter = X;

    /// The parameter is the initial accumulator.
    open spec fn spec_init_param(&self, param: X, dest: Option<Self::Returning>) -> (
        Self::State,
        Option<Self::Returning>,
    ) {
        (Some(self.2.spec_init()), Some((param, None)))
    }

    proof fn lemma_init_param(&self, param: X, dest: Option<Self::Returning>) {
        self.2.lemma_init();
    }

    fn init_param(
        &self,
        params: X,
        state: &mut Self::State,
        destination: &mut Option<Self::Returning>,
    ) {
        *destination = Some((params, None));
        *state = Some(self.2.init());
    }
}

/// What the parts of the contract say of an `ObserveBytes`. A caller that
/// holds one whose functions are closures or named functions learns them
/// here.
pub proof fn lemma_observe_contract<
    A,
    X,
    IFun: Fn() -> X,
    F: Fn(X, &[u8]) -> X,
    S: InterpParser<A>,
>(parser: ObserveBytes<X, IFun, F, S>)
    ensures
        parser.wf() == (parser.2.wf() && is_thunk(parser.0) && is_fold(parser.1)),
        parser.spec_init() == None::<S::State>,
        parser.chunk_independent() == (parser.2.chunk_independent() && is_concatenative(
            parser.1,
        )),
        forall|state: Option<S::State>| #[trigger]
            parser.inv(state) == (state matches Some(inner) ==> parser.2.inv(inner)),
        forall|
            state: Option<S::State>,
            dest: Option<(X, Option<S::Returning>)>,
            chunk: Seq<u8>,
        | #[trigger]
            parser.spec_parse(state, dest, chunk) == observe_parse(
                parser.0,
                parser.1,
                parser.2,
                state,
                dest,
                chunk,
            ),
        forall|
            state: Option<S::State>,
            dest: Option<(X, Option<S::Returning>)>,
            chunk: Seq<u8>,
        | #[trigger]
            parser.consulted(state, dest, chunk) == observe_all_consulted(
                parser.0,
                parser.1,
                parser.2,
                state,
                dest,
                chunk,
            ),
        forall|param: X, dest: Option<(X, Option<S::Returning>)>| #[trigger]
            parser.spec_init_param(param, dest) == (
                Some(parser.2.spec_init()),
                Some((param, None::<S::Returning>)),
            ),
{
}

} // verus!
