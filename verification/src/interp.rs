//! Interpretations: what to do with the data of a schema. An interpretation
//! may capture the data, discard it, or hand it to a function of the
//! caller's.
use vstd::prelude::*;

verus! {

/// Capture the data and return it.
pub struct DefaultInterp;

/// Consume the data and return nothing.
pub struct DropInterp;

/// Interpret each element of a sequence with the interpretation inside.
pub struct SubInterp<S>(pub S);

/// Parse with the first field, then map a reference to the result through
/// the function in the second field. The function returns `None` to reject.
pub struct Action<S, F>(pub S, pub F);

/// Like `Action`, with a function that also takes a context value, which the
/// state is seeded with when it is made.
pub struct ContextAction<S, F, C>(pub S, pub F, pub core::marker::PhantomData<C>);

/// Like `Action`, with a function that takes the result by value.
pub struct MoveAction<S, F>(pub S, pub F);

/// Parse with the first field, then continue with the parser that the
/// function in the second field builds from the result. The function returns
/// `None` to reject. The third field only names the type of the parsers that
/// the function builds.
pub struct Bind<S, F, T>(pub S, pub F, pub core::marker::PhantomData<T>);

/// Parse with the first field, then continue with the second field, whose
/// state is seeded with the result of the first.
pub struct DynBind<S, T>(pub S, pub T);

/// Parse with the third field, and fold every byte range that it consumes
/// into an accumulator of type `X`. The first field makes the initial
/// accumulator and the second is the folding function. The fourth field only
/// names the accumulator's type.
pub struct ObserveBytes<X, IFun, F, S>(
    pub IFun,
    pub F,
    pub S,
    pub core::marker::PhantomData<X>,
);

/// Parse with `subparser`, which must consume exactly `bytes_limit` bytes.
pub struct LengthLimited<S> {
    pub bytes_limit: usize,
    pub subparser: S,
}

/// Parse a length-prefixed field with the third field, fold the bytes of the
/// field into an accumulator of type `X` with the second, and skip what is
/// left of the field if the parser inside fails. With the fourth field set,
/// such a failure is a rejection instead. The first field makes an initial
/// accumulator, and the fifth only names the accumulator's type.
pub struct ObserveLengthedBytes<IFun, X, F, S>(
    pub IFun,
    pub F,
    pub S,
    pub bool,
    pub core::marker::PhantomData<X>,
);

/// What `f` returns when it is given a reference to `x`.
pub open spec fn ref_map<X, R, F: Fn(&X) -> R>(f: F, x: X) -> R {
    choose|r: R| call_ensures(f, (&x,), r)
}

/// `f` may be called on every argument, and what it returns depends on the
/// argument alone.
pub open spec fn is_ref_map<X, R, F: Fn(&X) -> R>(f: F) -> bool {
    &&& forall|x: X| call_requires(f, (&x,))
    &&& forall|x: X, r: R| call_ensures(f, (&x,), r) ==> r == ref_map(f, x)
}

/// What `f` returns when it is given `x`.
pub open spec fn value_map<X, R, F: Fn(X) -> R>(f: F, x: X) -> R {
    choose|r: R| call_ensures(f, (x,), r)
}

/// `f` may be called on every argument, and what it returns depends on the
/// argument alone.
pub open spec fn is_value_map<X, R, F: Fn(X) -> R>(f: F) -> bool {
    &&& forall|x: X| call_requires(f, (x,))
    &&& forall|x: X, r: R| call_ensures(f, (x,), r) ==> r == value_map(f, x)
}

/// What `f` returns when it is given a reference to `x` and the context `c`.
pub open spec fn context_map<X, C, R, F: Fn(&X, C) -> R>(f: F, x: X, c: C) -> R {
    choose|r: R| call_ensures(f, (&x, c), r)
}

/// `f` may be called on all arguments, and what it returns depends on them
/// alone.
pub open spec fn is_context_map<X, C, R, F: Fn(&X, C) -> R>(f: F) -> bool {
    &&& forall|x: X, c: C| call_requires(f, (&x, c))
    &&& forall|x: X, c: C, r: R| call_ensures(f, (&x, c), r) ==> r == context_map(f, x, c)
}

/// The slice that holds `bytes`.
pub open spec fn slice_of(bytes: Seq<u8>) -> &'static [u8] {
    choose|b: &'static [u8]| b@ == bytes
}

/// The accumulator that `f` gives when `bytes` are folded into `x`.
pub open spec fn fold_bytes<X, F: Fn(X, &[u8]) -> X>(f: F, x: X, bytes: Seq<u8>) -> X {
    choose|r: X| call_ensures(f, (x, slice_of(bytes)), r)
}

/// `f` was run with `bytes` and the accumulator `x`, and returned what
/// `fold_bytes` names.
pub open spec fn fold_ran<X, F: Fn(X, &[u8]) -> X>(f: F, x: X, bytes: Seq<u8>) -> bool {
    call_ensures(f, (x, slice_of(bytes)), fold_bytes(f, x, bytes))
}

/// A slice is the slice that holds its bytes.
pub proof fn lemma_slice_of(b: &[u8])
    ensures
        slice_of(b@) == b,
{
    broadcast use vstd::slice::group_slice_axioms;

    assert(slice_of(b@)@ == b@);
    assert(slice_of(b@) =~= b);
}

/// `f` may be called on all arguments, and what it returns depends on the
/// accumulator and on the bytes alone.
pub open spec fn is_fold<X, F: Fn(X, &[u8]) -> X>(f: F) -> bool {
    &&& forall|x: X, b: &[u8]| call_requires(f, (x, b))
    &&& forall|x: X, b: &[u8], r: X| call_ensures(f, (x, b), r) ==> r == fold_bytes(f, x, b@)
}

/// Folding `a` and then `b` is folding `a + b`.
pub open spec fn is_concatenative<X, F: Fn(X, &[u8]) -> X>(f: F) -> bool {
    forall|x: X, a: Seq<u8>, b: Seq<u8>| #[trigger]
        fold_bytes(f, fold_bytes(f, x, a), b) == fold_bytes(f, x, a + b)
}

/// What the thunk `f` returns.
pub open spec fn thunk_value<X, F: Fn() -> X>(f: F) -> X {
    choose|r: X| call_ensures(f, (), r)
}

/// `f` may be called, and always returns the same value.
pub open spec fn is_thunk<X, F: Fn() -> X>(f: F) -> bool {
    &&& call_requires(f, ())
    &&& forall|r: X| call_ensures(f, (), r) ==> r == thunk_value(f)
}

} // verus!
