//! The parse protocol: how a parser reports "need more input", "done" and
//! "reject", and the contract that every resumable parser obeys.
//!
//! A parser never owns its progress. The caller holds a state value and a
//! destination slot, hands both to `parse` together with the next chunk of
//! input, and gets back what is left of the chunk. What a call does is fixed
//! by a mathematical transition function, `spec_parse`, over the state, the
//! destination and the bytes of the chunk.
use vstd::prelude::*;
use vstd::std_specs::maybe_uninit::MaybeUninitAdditionalSpecFns;

verus! {

/// Out-of-band messages. The only one is `Reject`: the input is not an
/// instance of the schema, and the state must not be fed again.
#[derive(PartialEq, Eq, Structural, Debug)]
pub enum OOB {
    Reject,
}

/// A partial result: `None` stands for "incomplete".
pub type PResult<T> = Option<T>;

/// The part of a chunk that a parser has not consumed.
pub type RemainingSlice<'a> = &'a [u8];

/// What `parse` returns. `Ok(rest)`: the instance is complete and `rest` is
/// the unconsumed tail of the chunk. `Err((None, rest))`: more input is
/// needed, and `rest` is empty. `Err((Some(OOB::Reject), rest))`: the
/// instance is rejected.
pub type ParseResult<'a> = Result<RemainingSlice<'a>, (PResult<OOB>, RemainingSlice<'a>)>;

/// The mathematical outcome of feeding one chunk to a parser.
pub enum Step<S, R> {
    /// The whole chunk was consumed and more input is needed. Parsing resumes
    /// from `state`, with `dest` in the destination slot.
    Pending { state: S, dest: Option<R> },
    /// The instance is complete: the destination holds `value`, and `rest` is
    /// the unconsumed tail of the chunk.
    Done { rest: Seq<u8>, value: R },
    /// The instance is rejected, and `rest` is handed back.
    Rejected { rest: Seq<u8> },
}

/// `rest` is what remains of `chunk` after a prefix of it was consumed.
pub open spec fn is_tail_of(rest: Seq<u8>, chunk: Seq<u8>) -> bool {
    &&& rest.len() <= chunk.len()
    &&& rest == chunk.skip(chunk.len() - rest.len())
}

/// What a call of `parse` returns and leaves behind is what `step` says.
pub open spec fn step_done<S, R>(
    step: Step<S, R>,
    res: Result<&[u8], (PResult<OOB>, &[u8])>,
    state: S,
    dest: Option<R>,
) -> bool {
    match step {
        Step::Pending { state: s1, dest: d1 } => {
            &&& res matches Err((None, r)) && r@.len() == 0
            &&& state == s1
            &&& dest == d1
        },
        Step::Done { rest, value } => {
            &&& res matches Ok(r) && r@ == rest
            &&& dest == Some(value)
        },
        Step::Rejected { rest } => res matches Err((Some(OOB::Reject), r)) && r@ == rest,
    }
}

/// Two outcomes are the same, or both are rejections (which may hand back
/// different slices).
pub open spec fn same_outcome<S, R>(x: Step<S, R>, y: Step<S, R>) -> bool {
    x == y || (x is Rejected && y is Rejected)
}

/// A tail of a tail of `chunk` is a tail of `chunk`.
pub proof fn lemma_tail_of_tail(inner: Seq<u8>, middle: Seq<u8>, chunk: Seq<u8>)
    requires
        is_tail_of(inner, middle),
        is_tail_of(middle, chunk),
    ensures
        is_tail_of(inner, chunk),
{
    assert(inner =~= chunk.skip(chunk.len() - inner.len()));
}

/// The rejection of an instance, with the slice that is handed back.
pub fn reject<'a, R>(chunk: &'a [u8]) -> (res: Result<R, (PResult<OOB>, &'a [u8])>)
    ensures
        res == Err::<R, (PResult<OOB>, &'a [u8])>((Some(OOB::Reject), chunk)),
{
    Err((Some(OOB::Reject), chunk))
}

/// The request for more input, with the slice that is handed back.
pub fn need_more<'a, R>(chunk: &'a [u8]) -> (res: Result<R, (PResult<OOB>, &'a [u8])>)
    ensures
        res == Err::<R, (PResult<OOB>, &'a [u8])>((None, chunk)),
{
    Err((None, chunk))
}

/// The error part of a rejection.
pub fn rej<'a>(cnk: &'a [u8]) -> (res: (PResult<OOB>, RemainingSlice<'a>))
    ensures
        res == (Some(OOB::Reject), cnk),
{
    (Some(OOB::Reject), cnk)
}

/// Fills a slot with the default value of its type.
#[inline(never)]
pub fn init_with_default<X: Default>(x: &mut Option<X>)
    ensures
        *final(x) matches Some(v) && call_ensures(X::default, (), v),
{
    *x = Some(X::default());
}

/// Overwrites a place with the value that a thunk computes.
#[inline(never)]
pub fn set_from_thunk<X, F: FnOnce() -> X>(x: &mut X, f: F)
    requires
        call_requires(f, ()),
    ensures
        call_ensures(f, (), *final(x)),
{
    *x = f();
}

/// Runs a thunk that may fail, in a stack frame of its own.
#[inline(never)]
pub fn call_me_maybe<F: FnOnce() -> Option<()>>(f: F) -> (res: Option<()>)
    requires
        call_requires(f, ()),
    ensures
        call_ensures(f, (), res),
{
    f()
}

/// Runs a thunk that may fail, in a stack frame of its own.
#[inline(never)]
pub fn call_me_maybe2<F: FnOnce() -> Option<()>>(f: F) -> (res: Option<()>)
    requires
        call_requires(f, ()),
    ensures
        call_ensures(f, (), res),
{
    f()
}

/// Runs a thunk in a stack frame of its own.
#[inline(never)]
pub fn call_fn<F: FnOnce()>(f: F)
    requires
        call_requires(f, ()),
    ensures
        call_ensures(f, (), ()),
{
    f()
}

/// Runs a thunk in a stack frame of its own.
#[inline(never)]
pub fn call_fn2<F: FnOnce()>(f: F)
    requires
        call_requires(f, ()),
    ensures
        call_ensures(f, (), ()),
{
    f()
}

/// A parser for the schema `P` under the interpretation `Self`.
///
/// To use one, make a state with `init`, set a destination slot to `None`,
/// and call `parse` with successive chunks until it returns `Ok` or rejects.
pub trait InterpParser<P> {
    /// How far into an instance a parse is.
    type State;

    /// What a completed parse leaves in the destination.
    type Returning;

    /// The parser's own configuration is usable.
    spec fn wf(&self) -> bool;

    /// `state` is one that `init` made or that a call of `parse` left behind
    /// when it asked for more input.
    spec fn inv(&self, state: Self::State) -> bool;

    /// The state before any input.
    spec fn spec_init(&self) -> Self::State;

    /// The transition function: what one call of `parse` does with a chunk.
    spec fn spec_parse(
        &self,
        state: Self::State,
        dest: Option<Self::Returning>,
        chunk: Seq<u8>,
    ) -> Step<Self::State, Self::Returning>;

    /// Every function of the caller's that this call consults has returned
    /// what `spec_parse` takes it to return. `spec_parse` names the result of
    /// such a function by its contract; this is what ties the name to a run
    /// of the function.
    spec fn consulted(
        &self,
        state: Self::State,
        dest: Option<Self::Returning>,
        chunk: Seq<u8>,
    ) -> bool;

    /// `state` is one that a completed parse may leave behind. Such a state
    /// is stale: it is to be made anew before another instance is parsed.
    spec fn left_by_completion(&self, state: Self::State) -> bool;

    /// The conditions under which cutting the input into chunks at other
    /// places cannot change what the parser does.
    spec fn chunk_independent(&self) -> bool;

    /// A fresh state is a live one.
    proof fn lemma_init(&self)
        requires
            self.wf(),
        ensures
            self.inv(self.spec_init()),
    ;

    /// The protocol: a parser that asks for more leaves a live state, and a
    /// parser that completes hands back a tail of the chunk.
    proof fn lemma_parse_protocol(
        &self,
        state: Self::State,
        dest: Option<Self::Returning>,
        chunk: Seq<u8>,
    )
        requires
            self.wf(),
            self.inv(state),
        ensures
            self.spec_parse(state, dest, chunk) matches Step::Pending { state: s1, .. }
                ==> self.inv(s1),
            self.spec_parse(state, dest, chunk) matches Step::Done { rest, .. } ==> is_tail_of(
                rest,
                chunk,
            ),
    ;

    /// Feeding `a + b` at once is feeding `a` and then, if more is needed,
    /// `b`: the outcome is the same, but for the slice that a rejection
    /// hands back.
    proof fn lemma_parse_split(
        &self,
        state: Self::State,
        dest: Option<Self::Returning>,
        a: Seq<u8>,
        b: Seq<u8>,
    )
        requires
            self.wf(),
            self.chunk_independent(),
            self.inv(state),
        ensures
            match self.spec_parse(state, dest, a) {
                Step::Pending { state: s1, dest: d1 } => same_outcome(
                    self.spec_parse(state, dest, a + b),
                    self.spec_parse(s1, d1, b),
                ),
                Step::Done { rest, value } => self.spec_parse(state, dest, a + b) == (Step::<
                    Self::State,
                    Self::Returning,
                >::Done { rest: rest + b, value }),
                Step::Rejected { .. } => self.spec_parse(state, dest, a + b) is Rejected,
            },
    ;

    /// Makes the state for a new instance.
    fn init(&self) -> (state: Self::State)
        requires
            self.wf(),
        ensures
            state == self.spec_init(),
            self.inv(state),
    ;

    /// Feeds the next chunk.
    fn parse<'a, 'b>(
        &self,
        state: &'b mut Self::State,
        chunk: &'a [u8],
        destination: &mut Option<Self::Returning>,
    ) -> (res: ParseResult<'a>)
        requires
            self.wf(),
            self.inv(*old(state)),
        ensures
            match self.spec_parse(*old(state), *old(destination), chunk@) {
                Step::Pending { state: s1, dest: d1 } => {
                    &&& res matches Err((None, r)) && r@.len() == 0
                    &&& *final(state) == s1
                    &&& *final(destination) == d1
                },
                Step::Done { rest, value } => {
                    &&& res matches Ok(r) && r@ == rest
                    &&& *final(destination) == Some(value)
                },
                Step::Rejected { rest } => res matches Err((Some(OOB::Reject), r)) && r@ == rest,
            },
            self.consulted(*old(state), *old(destination), chunk@),
            res is Ok ==> self.left_by_completion(*final(state)),
    ;
}

/// `MaybeUninit::write` sets the value of the slot, without dropping what
/// the slot held, and returns a mutable reference to the contents, which are
/// now initialized.
#[verifier::external_body]
fn write_slot<T>(slot: &mut core::mem::MaybeUninit<T>, value: T) -> (contents: &mut T)
    ensures
        *contents == value,
        final(slot).as_option() == Some(*final(contents)),
{
    slot.write(value)
}

/// Makes the state for a new instance in a slot that the caller provides, so
/// that the caller decides where a large state lives before it exists, and
/// gives access to the state in its slot.
pub fn init_in_place<'a, P, T: InterpParser<P>>(
    parser: &T,
    slot: &'a mut core::mem::MaybeUninit<T::State>,
) -> (state: &'a mut T::State)
    requires
        parser.wf(),
    ensures
        *state == parser.spec_init(),
        parser.inv(*state),
        final(slot).as_option() == Some(*final(state)),
{
    write_slot(slot, parser.init())
}

/// A parser whose state can be seeded with a parameter when it is made, so
/// that a value produced by an earlier parser need not be stored twice.
pub trait DynInterpParser<P>: InterpParser<P> {
    /// What the state is seeded with.
    type Parameter;

    /// The state and the destination after seeding.
    spec fn spec_init_param(
        &self,
        param: Self::Parameter,
        dest: Option<Self::Returning>,
    ) -> (Self::State, Option<Self::Returning>);

    /// A seeded state is a live one.
    proof fn lemma_init_param(&self, param: Self::Parameter, dest: Option<Self::Returning>)
        requires
            self.wf(),
        ensures
            self.inv(self.spec_init_param(param, dest).0),
    ;

    /// Overwrites `state` with one seeded by `params`.
    fn init_param(
        &self,
        params: Self::Parameter,
        state: &mut Self::State,
        destination: &mut Option<Self::Returning>,
    )
        requires
            self.wf(),
        ensures
            (*final(state), *final(destination)) == self.spec_init_param(
                params,
                *old(destination),
            ),
            self.inv(*final(state)),
    ;
}

} // verus!
