//! What holds of every parser, whatever the places at which its input is
//! cut into chunks.
use crate::array::{array_inv, array_steps, next_element, ForwardArrayParserState};
use crate::buffer::BoundedVec;
use crate::core_parsers::{Array, Byte, DArray, LengthFallback, U16, U32, U64};
use crate::darray::{
    darray_elements, darray_parse, pending_keeps_none, ForwardDArrayParserState,
};
use crate::interp::{
    fold_bytes, is_concatenative, thunk_value, DefaultInterp, DropInterp, ObserveBytes,
    SubInterp,
};
use crate::interp_parser::{is_tail_of, same_outcome, InterpParser, Step};
use crate::length::LengthField;
use crate::length_fallback::{
    fallback_element, fallback_parse, lemma_fallback_element, LengthFallbackParserState,
};
use crate::length_limited::spec_min;
use crate::observe::observe_run;
use vstd::prelude::*;

verus! {

/// The bytes of a sequence of chunks, in order.
pub open spec fn concat(chunks: Seq<Seq<u8>>) -> Seq<u8>
    decreases chunks.len(),
{
    if chunks.len() == 0 {
        Seq::empty()
    } else {
        chunks[0] + concat(chunks.skip(1))
    }
}

/// What comes of feeding `chunks` to a parser one after the other, as long
/// as it asks for more. When the parser completes inside a chunk, what
/// remains is the tail of that chunk and all the chunks behind it.
pub open spec fn run<P, T: InterpParser<P>>(
    parser: T,
    state: T::State,
    dest: Option<T::Returning>,
    chunks: Seq<Seq<u8>>,
) -> Step<T::State, T::Returning>
    decreases chunks.len(),
{
    if chunks.len() == 0 {
        Step::Pending { state, dest }
    } else {
        match parser.spec_parse(state, dest, chunks[0]) {
            Step::Pending { state: s1, dest: d1 } => run(parser, s1, d1, chunks.skip(1)),
            Step::Done { rest, value } => Step::Done { rest: rest + concat(chunks.skip(1)), value },
            Step::Rejected { rest } => Step::Rejected { rest },
        }
    }
}

/// The bytes of one chunk are that chunk.
pub proof fn lemma_concat_one(chunk: Seq<u8>)
    ensures
        concat(seq![chunk]) == chunk,
{
    let chunks = seq![chunk];
    assert(chunks.skip(1) =~= Seq::<Seq<u8>>::empty());
    assert(concat(chunks.skip(1)) =~= Seq::<u8>::empty());
    assert(chunks[0] + concat(chunks.skip(1)) =~= chunk);
}

/// Chunk-size independence. Feeding the chunks of an input one after the
/// other comes to what feeding the whole input at once comes to: the same
/// request for more with the same state and destination, or the same value
/// with the same remaining bytes, or a rejection.
pub proof fn lemma_run_is_one_call<P, T: InterpParser<P>>(
    parser: T,
    state: T::State,
    dest: Option<T::Returning>,
    chunks: Seq<Seq<u8>>,
)
    requires
        parser.wf(),
        parser.chunk_independent(),
        parser.inv(state),
        chunks.len() >= 1,
    ensures
        same_outcome(
            run(parser, state, dest, chunks),
            parser.spec_parse(state, dest, concat(chunks)),
        ),
    decreases chunks.len(),
{
    let first = chunks[0];
    let others = chunks.skip(1);
    if others.len() == 0 {
        assert(concat(others) =~= Seq::<u8>::empty());
        assert(first + concat(others) =~= first);
        match parser.spec_parse(state, dest, first) {
            Step::Done { rest, .. } => {
                assert(rest + concat(others) =~= rest);
            },
            Step::Pending { state: s1, dest: d1 } => {
                assert(run(parser, s1, d1, others) == Step::Pending { state: s1, dest: d1 });
            },
            Step::Rejected { .. } => {},
        }
    } else {
        parser.lemma_parse_split(state, dest, first, concat(others));
        parser.lemma_parse_protocol(state, dest, first);
        if let Step::Pending { state: s1, dest: d1 } = parser.spec_parse(state, dest, first) {
            lemma_run_is_one_call(parser, s1, d1, others);
        }
    }
}

/// Chunk-size independence, between any two ways of cutting the same input:
/// both come to the same request for more, or to the same value with the
/// same remaining bytes, or to a rejection.
pub proof fn lemma_chunking_is_irrelevant<P, T: InterpParser<P>>(
    parser: T,
    state: T::State,
    dest: Option<T::Returning>,
    one_way: Seq<Seq<u8>>,
    another: Seq<Seq<u8>>,
)
    requires
        parser.wf(),
        parser.chunk_independent(),
        parser.inv(state),
        one_way.len() >= 1,
        another.len() >= 1,
        concat(one_way) == concat(another),
    ensures
        same_outcome(run(parser, state, dest, one_way), run(parser, state, dest, another)),
{
    lemma_run_is_one_call(parser, state, dest, one_way);
    lemma_run_is_one_call(parser, state, dest, another);
}

/// A parser that completes over a sequence of chunks hands back a tail of
/// their bytes.
pub proof fn lemma_run_rest_is_tail<P, T: InterpParser<P>>(
    parser: T,
    state: T::State,
    dest: Option<T::Returning>,
    chunks: Seq<Seq<u8>>,
)
    requires
        parser.wf(),
        parser.inv(state),
    ensures
        run(parser, state, dest, chunks) matches Step::Done { rest, .. } ==> is_tail_of(
            rest,
            concat(chunks),
        ),
        run(parser, state, dest, chunks) matches Step::Pending { state: s1, .. } ==> parser.inv(
            s1,
        ),
    decreases chunks.len(),
{
    if chunks.len() > 0 {
        let first = chunks[0];
        let others = chunks.skip(1);
        parser.lemma_parse_protocol(state, dest, first);
        match parser.spec_parse(state, dest, first) {
            Step::Pending { state: s1, dest: d1 } => {
                lemma_run_rest_is_tail(parser, s1, d1, others);
                if let Step::Done { rest, .. } = run(parser, s1, d1, others) {
                    let all = concat(chunks);
                    assert(rest =~= all.skip(all.len() - rest.len()));
                }
            },
            Step::Done { rest, .. } => {
                let all = concat(chunks);
                let left = rest + concat(others);
                assert(left =~= all.skip(all.len() - left.len()));
            },
            Step::Rejected { .. } => {},
        }
    }
}

/// If `step` is a completion, it took exactly `size` bytes of `input`.
pub open spec fn takes<S, R>(step: Step<S, R>, input: Seq<u8>, size: nat) -> bool {
    step matches Step::Done { rest, .. } ==> rest.len() + size == input.len()
}

/// A parser takes exactly `size` bytes from a fresh state whenever it
/// completes.
pub open spec fn fixed_size<P, T: InterpParser<P>>(parser: T, size: nat) -> bool {
    forall|dest: Option<T::Returning>, input: Seq<u8>|
        takes(#[trigger] parser.spec_parse(parser.spec_init(), dest, input), input, size)
}

/// Consumption accounting for a schema of fixed size: however the input is
/// cut, the bytes consumed over all the calls of a completed parse are as
/// many as the encoded size.
pub proof fn lemma_fixed_size_over_chunks<P, T: InterpParser<P>>(
    parser: T,
    size: nat,
    dest: Option<T::Returning>,
    chunks: Seq<Seq<u8>>,
)
    requires
        parser.wf(),
        parser.chunk_independent(),
        fixed_size(parser, size),
        chunks.len() >= 1,
    ensures
        run(parser, parser.spec_init(), dest, chunks) matches Step::Done { rest, .. }
            ==> rest.len() + size == concat(chunks).len(),
{
    parser.lemma_init();
    lemma_run_is_one_call(parser, parser.spec_init(), dest, chunks);
}

/// A captured byte takes one byte.
pub proof fn lemma_byte_fixed_size()
    ensures
        fixed_size::<Byte, DefaultInterp>(DefaultInterp, 1),
        fixed_size::<Byte, DropInterp>(DropInterp, 1),
{
}

proof fn lemma_array_size_from<I, S: InterpParser<I>, const N: usize>(
    sub: S,
    size: nat,
    state: ForwardArrayParserState<S::Returning, S::State, N>,
    dest: Option<[S::Returning; N]>,
    input: Seq<u8>,
)
    requires
        fixed_size(sub, size),
        state.subparser_state == sub.spec_init(),
        state.buffer@.len() <= N,
    ensures
        array_steps(sub, state, dest, input) matches Step::Done { rest, .. } ==> rest.len() + (N
            - state.buffer@.len()) * size == input.len(),
    decreases N - state.buffer@.len(),
{
    let missing = N - state.buffer@.len();
    if missing > 0 {
        match sub.spec_parse(state.subparser_state, state.subparser_destination, input) {
            Step::Done { rest, value } => {
                state.buffer.lemma_spec_push_len(value);
                lemma_array_size_from(sub, size, next_element(sub, state, value), dest, rest);
                assert(missing * size == (missing - 1) * size + size) by (nonlinear_arith);
            },
            _ => {},
        }
    } else {
        assert(missing * size == 0) by (nonlinear_arith)
            requires
                missing == 0,
        ;
    }
}

/// Consumption accounting for a fixed-size sequence: `N` elements of a fixed
/// size take `N` times that size.
pub proof fn lemma_array_fixed_size<I, S: InterpParser<I>, const N: usize>(sub: S, size: nat)
    requires
        fixed_size(sub, size),
    ensures
        fixed_size::<Array<I, N>, SubInterp<S>>(SubInterp(sub), (N * size) as nat),
{
    let parser = SubInterp(sub);
    let fresh = <SubInterp<S> as InterpParser<Array<I, N>>>::spec_init(&parser);
    BoundedVec::<S::Returning, N>::lemma_spec_new();
    assert forall|dest: Option<[S::Returning; N]>, input: Seq<u8>|
        takes(
            #[trigger] <SubInterp<S> as InterpParser<Array<I, N>>>::spec_parse(
                &parser,
                fresh,
                dest,
                input,
            ),
            input,
            (N * size) as nat,
        ) by {
        lemma_array_size_from(sub, size, fresh, dest, input);
    }
}

/// The array of `N` bytes inside a number parser takes `N` bytes.
proof fn lemma_bytes_size<S: InterpParser<Byte>, const N: usize>(sub: S, input: Seq<u8>)
    requires
        fixed_size(sub, 1),
    ensures
        takes(
            array_steps::<Byte, S, N>(
                sub,
                <SubInterp<S> as InterpParser<Array<Byte, N>>>::spec_init(&SubInterp(sub)),
                None,
                input,
            ),
            input,
            N as nat,
        ),
{
    lemma_array_fixed_size::<Byte, S, N>(sub, 1);
    let parser = SubInterp(sub);
    let fresh = <SubInterp<S> as InterpParser<Array<Byte, N>>>::spec_init(&parser);
    assert(takes(
        <SubInterp<S> as InterpParser<Array<Byte, N>>>::spec_parse(&parser, fresh, None, input),
        input,
        (N * 1) as nat,
    ));
}

/// Consumption accounting for the numbers: a number of 16, 32 or 64 bits
/// takes 2, 4 or 8 bytes, captured or dropped, in either byte order.
pub proof fn lemma_number_fixed_size<const BIG_ENDIAN: bool>()
    ensures
        fixed_size::<U16<BIG_ENDIAN>, DefaultInterp>(DefaultInterp, 2),
        fixed_size::<U32<BIG_ENDIAN>, DefaultInterp>(DefaultInterp, 4),
        fixed_size::<U64<BIG_ENDIAN>, DefaultInterp>(DefaultInterp, 8),
        fixed_size::<U16<BIG_ENDIAN>, DropInterp>(DropInterp, 2),
        fixed_size::<U32<BIG_ENDIAN>, DropInterp>(DropInterp, 4),
        fixed_size::<U64<BIG_ENDIAN>, DropInterp>(DropInterp, 8),
{
    lemma_byte_fixed_size();
    assert forall|dest: Option<u16>, input: Seq<u8>|
        takes(
            #[trigger] <DefaultInterp as InterpParser<U16<BIG_ENDIAN>>>::spec_parse(
                &DefaultInterp,
                <DefaultInterp as InterpParser<U16<BIG_ENDIAN>>>::spec_init(&DefaultInterp),
                dest,
                input,
            ),
            input,
            (2) as nat,
        ) by {
        lemma_bytes_size::<DefaultInterp, 2>(DefaultInterp, input);
    }
    assert forall|dest: Option<u32>, input: Seq<u8>|
        takes(
            #[trigger] <DefaultInterp as InterpParser<U32<BIG_ENDIAN>>>::spec_parse(
                &DefaultInterp,
                <DefaultInterp as InterpParser<U32<BIG_ENDIAN>>>::spec_init(&DefaultInterp),
                dest,
                input,
            ),
            input,
            (4) as nat,
        ) by {
        lemma_bytes_size::<DefaultInterp, 4>(DefaultInterp, input);
    }
    assert forall|dest: Option<u64>, input: Seq<u8>|
        takes(
            #[trigger] <DefaultInterp as InterpParser<U64<BIG_ENDIAN>>>::spec_parse(
                &DefaultInterp,
                <DefaultInterp as InterpParser<U64<BIG_ENDIAN>>>::spec_init(&DefaultInterp),
                dest,
                input,
            ),
            input,
            (8) as nat,
        ) by {
        lemma_bytes_size::<DefaultInterp, 8>(DefaultInterp, input);
    }
    assert forall|dest: Option<()>, input: Seq<u8>|
        takes(
            #[trigger] <DropInterp as InterpParser<U16<BIG_ENDIAN>>>::spec_parse(
                &DropInterp,
                <DropInterp as InterpParser<U16<BIG_ENDIAN>>>::spec_init(&DropInterp),
                dest,
                input,
            ),
            input,
            (2) as nat,
        ) by {
        lemma_bytes_size::<DropInterp, 2>(DropInterp, input);
    }
    assert forall|dest: Option<()>, input: Seq<u8>|
        takes(
            #[trigger] <DropInterp as InterpParser<U32<BIG_ENDIAN>>>::spec_parse(
                &DropInterp,
                <DropInterp as InterpParser<U32<BIG_ENDIAN>>>::spec_init(&DropInterp),
                dest,
                input,
            ),
            input,
            (4) as nat,
        ) by {
        lemma_bytes_size::<DropInterp, 4>(DropInterp, input);
    }
    assert forall|dest: Option<()>, input: Seq<u8>|
        takes(
            #[trigger] <DropInterp as InterpParser<U64<BIG_ENDIAN>>>::spec_parse(
                &DropInterp,
                <DropInterp as InterpParser<U64<BIG_ENDIAN>>>::spec_init(&DropInterp),
                dest,
                input,
            ),
            input,
            (8) as nat,
        ) by {
        lemma_bytes_size::<DropInterp, 8>(DropInterp, input);
    }
}

proof fn lemma_darray_size_from<I, S: InterpParser<I>, NS, const M: usize>(
    sub: S,
    size: nat,
    items: BoundedVec<S::Returning, M>,
    len: usize,
    element_dest: Option<S::Returning>,
    dest: Option<BoundedVec<S::Returning, M>>,
    input: Seq<u8>,
)
    requires
        fixed_size(sub, size),
        items.wf(),
        items@.len() <= len <= M,
    ensures
        darray_elements::<I, S, NS, M>(
            sub,
            items,
            len,
            sub.spec_init(),
            element_dest,
            dest,
            input,
        ) matches Step::Done { rest, value } ==> value@.len() == len && rest.len() + (len
            - items@.len()) * size == input.len(),
    decreases len - items@.len(),
{
    let missing = len - items@.len();
    if missing > 0 {
        assert(takes(sub.spec_parse(sub.spec_init(), element_dest, input), input, size));
        match sub.spec_parse(sub.spec_init(), element_dest, input) {
            Step::Done { rest, value } => {
                items.lemma_spec_push(value);
                lemma_darray_size_from::<I, S, NS, M>(
                    sub,
                    size,
                    items.spec_push(value),
                    len,
                    None,
                    dest,
                    rest,
                );
                assert(missing * size == (missing - 1) * size + size) by (nonlinear_arith);
            },
            _ => {},
        }
    } else {
        assert(missing * size == 0) by (nonlinear_arith)
            requires
                missing == 0,
        ;
    }
}

/// Consumption accounting for a length-prefixed sequence: a completed parse
/// takes the length field and then the declared number of elements, each of
/// its fixed size, and returns that many elements.
pub proof fn lemma_darray_consumption<L, I, S: InterpParser<I>, const M: usize>(
    sub: S,
    size: nat,
    dest: Option<BoundedVec<S::Returning, M>>,
    input: Seq<u8>,
) where
    DefaultInterp: InterpParser<L>,
    <DefaultInterp as InterpParser<L>>::Returning: LengthField,

    requires
        fixed_size(sub, size),
    ensures
        darray_parse::<L, I, S, M>(
            sub,
            ForwardDArrayParserState::Length(
                <DefaultInterp as InterpParser<L>>::spec_init(&DefaultInterp),
            ),
            dest,
            input,
        ) matches Step::Done { rest, value } ==> (<DefaultInterp as InterpParser<L>>::spec_parse(
            &DefaultInterp,
            <DefaultInterp as InterpParser<L>>::spec_init(&DefaultInterp),
            None,
            input,
        ) matches Step::Done { rest: after_length, value: length } && length.spec_length()
            == Some(value@.len() as usize) && value@.len() <= M && rest.len() + value@.len()
            * size == after_length.len()),
{
    let fresh = <DefaultInterp as InterpParser<L>>::spec_init(&DefaultInterp);
    match <DefaultInterp as InterpParser<L>>::spec_parse(&DefaultInterp, fresh, None, input) {
        Step::Done { rest: after_length, value: length } => {
            if let Some(len) = length.spec_length() {
                if len <= M {
                    BoundedVec::<S::Returning, M>::lemma_spec_new();
                    lemma_darray_size_from::<I, S, <DefaultInterp as InterpParser<L>>::State, M>(
                        sub,
                        size,
                        BoundedVec::spec_new(),
                        len,
                        None,
                        dest,
                        after_length,
                    );
                }
            }
        },
        _ => {},
    }
}

/// Capacity rejection. When the length field of a length-prefixed sequence
/// declares more elements than the capacity `M`, or more than the machine
/// can count, the sequence is rejected as soon as the length is read: the
/// slice handed back is all that follows the length field, and no element
/// byte is consumed.
pub proof fn lemma_darray_rejects_over_capacity<L, I, S: InterpParser<I>, const M: usize>(
    sub: S,
    length_state: <DefaultInterp as InterpParser<L>>::State,
    dest: Option<BoundedVec<S::Returning, M>>,
    input: Seq<u8>,
) where
    DefaultInterp: InterpParser<L>,
    <DefaultInterp as InterpParser<L>>::Returning: LengthField,

    ensures
        <DefaultInterp as InterpParser<L>>::spec_parse(
            &DefaultInterp,
            length_state,
            None,
            input,
        ) matches Step::Done { rest: after_length, value: length } ==> ((length.spec_length()
            matches Some(len) ==> len > M) ==> darray_parse::<L, I, S, M>(
            sub,
            ForwardDArrayParserState::Length(length_state),
            dest,
            input,
        ) == (Step::<
            ForwardDArrayParserState<
                <DefaultInterp as InterpParser<L>>::State,
                S::State,
                S::Returning,
                M,
            >,
            BoundedVec<S::Returning, M>,
        >::Rejected { rest: after_length })),
{
}

/// Consumption accounting for a length-prefixed field with a fallback: a
/// completed parse takes the length field and then exactly the declared
/// number of bytes, whatever the parser inside did with them.
pub proof fn lemma_fallback_consumption<L, I, S: InterpParser<I>, X, F: Fn(X, &[u8]) -> X>(
    sub: S,
    f: F,
    strict: bool,
    length_state: <DefaultInterp as InterpParser<L>>::State,
    length_dest: Option<<DefaultInterp as InterpParser<L>>::Returning>,
    dest: Option<(Option<S::Returning>, X)>,
    input: Seq<u8>,
) where
    DefaultInterp: InterpParser<L>,
    <DefaultInterp as InterpParser<L>>::Returning: LengthField,

    requires
        sub.wf(),
    ensures
        fallback_parse::<L, I, S, X, F>(
            sub,
            f,
            strict,
            LengthFallbackParserState::Length(length_state, length_dest),
            dest,
            input,
        ) matches Step::Done { rest, .. } ==> (<DefaultInterp as InterpParser<L>>::spec_parse(
            &DefaultInterp,
            length_state,
            length_dest,
            input,
        ) matches Step::Done { rest: after_length, value: length } && length.spec_length()
            matches Some(len) && rest.len() + len == after_length.len()),
{
    match <DefaultInterp as InterpParser<L>>::spec_parse(
        &DefaultInterp,
        length_state,
        length_dest,
        input,
    ) {
        Step::Done { rest: after_length, value: length } => {
            if let Some(len) = length.spec_length() {
                sub.lemma_init();
                lemma_fallback_element::<
                    I,
                    S,
                    <DefaultInterp as InterpParser<L>>::State,
                    Option<<DefaultInterp as InterpParser<L>>::Returning>,
                    X,
                    F,
                >(sub, f, strict, 0, len, sub.spec_init(), dest, after_length, Seq::empty());
            }
        },
        _ => {},
    }
}

/// Graceful degradation. In a field whose parser inside rejects, the result
/// is dropped and the declared bytes are skipped from where the call
/// started: as soon as the last of them is there, the field completes
/// without a result, having consumed exactly its declared bytes and folded
/// them into the accumulator, and hands back everything behind them, so that
/// what follows the field is parsed as if nothing had failed.
pub proof fn lemma_fallback_recovers<I, S: InterpParser<I>, NS, NO, X, F: Fn(X, &[u8]) -> X>(
    sub: S,
    f: F,
    consumed: usize,
    len: usize,
    state: S::State,
    sub_dest: Option<S::Returning>,
    accumulator: X,
    cursor: Seq<u8>,
)
    requires
        consumed <= len,
        sub.spec_parse(
            state,
            sub_dest,
            cursor.take(spec_min(cursor.len() as int, len - consumed)),
        ) is Rejected,
    ensures
        cursor.len() >= len - consumed ==> fallback_element::<I, S, NS, NO, X, F>(
            sub,
            f,
            false,
            consumed,
            len,
            state,
            Some((sub_dest, accumulator)),
            cursor,
        ) == (Step::<
            LengthFallbackParserState<NS, NO, S::State>,
            (Option<S::Returning>, X),
        >::Done {
            rest: cursor.skip(len - consumed),
            value: (None, fold_bytes(f, accumulator, cursor.take(len - consumed))),
        }),
        cursor.len() < len - consumed ==> fallback_element::<I, S, NS, NO, X, F>(
            sub,
            f,
            false,
            consumed,
            len,
            state,
            Some((sub_dest, accumulator)),
            cursor,
        ) == (Step::<
            LengthFallbackParserState<NS, NO, S::State>,
            (Option<S::Returning>, X),
        >::Pending {
            state: LengthFallbackParserState::Failed((consumed + cursor.len()) as usize, len),
            dest: Some((None, fold_bytes(f, accumulator, cursor))),
        }),
{
    assert(cursor.take(cursor.len() as int) =~= cursor);
}

/// Byte-observation fidelity for a field with a fallback: when the field
/// completes, the accumulator has seen exactly the declared bytes that were
/// still to come, in order, whatever became of the parser inside.
pub proof fn lemma_fallback_observes_declared_bytes<
    I,
    S: InterpParser<I>,
    NS,
    NO,
    X,
    F: Fn(X, &[u8]) -> X,
>(
    sub: S,
    f: F,
    strict: bool,
    consumed: usize,
    len: usize,
    state: S::State,
    sub_dest: Option<S::Returning>,
    accumulator: X,
    cursor: Seq<u8>,
)
    requires
        sub.wf(),
        sub.inv(state),
        is_concatenative(f),
        consumed <= len,
    ensures
        fallback_element::<I, S, NS, NO, X, F>(
            sub,
            f,
            strict,
            consumed,
            len,
            state,
            Some((sub_dest, accumulator)),
            cursor,
        ) matches Step::Done { rest, value } ==> value.1 == fold_bytes(
            f,
            accumulator,
            cursor.take(len - consumed),
        ) && rest == cursor.skip(len - consumed),
{
    let need = len - consumed;
    let passed = cursor.take(spec_min(cursor.len() as int, need));
    sub.lemma_parse_protocol(state, sub_dest, passed);
    match sub.spec_parse(state, sub_dest, passed) {
        Step::Done { rest, .. } => {
            let used = passed.len() - rest.len();
            if consumed + used != len && cursor.len() >= need {
                let first = cursor.take(used);
                let second = cursor.skip(used).take(need - used);
                assert(first + second =~= cursor.take(need));
                assert(cursor.skip(used).skip(need - used) =~= cursor.skip(need));
                assert(fold_bytes(f, fold_bytes(f, accumulator, first), second) == fold_bytes(
                    f,
                    accumulator,
                    first + second,
                ));
            }
        },
        _ => {},
    }
}

/// The byte ranges that a parser consumes, call by call, when it is fed
/// `chunks` as long as it asks for more.
pub open spec fn consumed_ranges<P, T: InterpParser<P>>(
    parser: T,
    state: T::State,
    dest: Option<T::Returning>,
    chunks: Seq<Seq<u8>>,
) -> Seq<Seq<u8>>
    decreases chunks.len(),
{
    if chunks.len() == 0 {
        Seq::empty()
    } else {
        match parser.spec_parse(state, dest, chunks[0]) {
            Step::Pending { state: s1, dest: d1 } => seq![chunks[0]] + consumed_ranges(
                parser,
                s1,
                d1,
                chunks.skip(1),
            ),
            Step::Done { rest, .. } => seq![chunks[0].take(chunks[0].len() - rest.len())],
            Step::Rejected { .. } => Seq::empty(),
        }
    }
}

/// The accumulator after `ranges` are folded into `accumulator`, one after
/// the other.
pub open spec fn fold_ranges<X, F: Fn(X, &[u8]) -> X>(
    f: F,
    accumulator: X,
    ranges: Seq<Seq<u8>>,
) -> X
    decreases ranges.len(),
{
    if ranges.len() == 0 {
        accumulator
    } else {
        fold_ranges(f, fold_bytes(f, accumulator, ranges[0]), ranges.skip(1))
    }
}

/// The ranges that a parser consumes are, put together, the bytes of the
/// structure that it parses: all the input while it asks for more, and the
/// input without what it hands back when it completes.
pub proof fn lemma_consumed_ranges_are_the_wire_bytes<P, T: InterpParser<P>>(
    parser: T,
    state: T::State,
    dest: Option<T::Returning>,
    chunks: Seq<Seq<u8>>,
)
    requires
        parser.wf(),
        parser.inv(state),
    ensures
        run(parser, state, dest, chunks) is Pending ==> concat(
            consumed_ranges(parser, state, dest, chunks),
        ) == concat(chunks),
        run(parser, state, dest, chunks) matches Step::Done { rest, .. } ==> concat(
            consumed_ranges(parser, state, dest, chunks),
        ) + rest == concat(chunks),
    decreases chunks.len(),
{
    if chunks.len() > 0 {
        let first = chunks[0];
        let others = chunks.skip(1);
        parser.lemma_parse_protocol(state, dest, first);
        match parser.spec_parse(state, dest, first) {
            Step::Pending { state: s1, dest: d1 } => {
                lemma_consumed_ranges_are_the_wire_bytes(parser, s1, d1, others);
                let tail_ranges = consumed_ranges(parser, s1, d1, others);
                let ranges = seq![first] + tail_ranges;
                assert(ranges[0] == first);
                assert(ranges.skip(1) =~= tail_ranges);
                if let Step::Done { rest, .. } = run(parser, s1, d1, others) {
                    assert((first + concat(tail_ranges)) + rest =~= first + (concat(tail_ranges)
                        + rest));
                }
            },
            Step::Done { rest, .. } => {
                let used = first.take(first.len() - rest.len());
                lemma_concat_one(used);
                assert((used + rest) + concat(others) =~= used + (rest + concat(others)));
                assert(used + rest =~= first);
            },
            Step::Rejected { .. } => {},
        }
    }
}

/// Folding ranges one after the other is folding their bytes at once, for a
/// folding function that does not see where the ranges were cut.
pub proof fn lemma_fold_ranges_is_one_fold<X, F: Fn(X, &[u8]) -> X>(
    f: F,
    accumulator: X,
    ranges: Seq<Seq<u8>>,
)
    requires
        is_concatenative(f),
        ranges.len() >= 1,
    ensures
        fold_ranges(f, accumulator, ranges) == fold_bytes(f, accumulator, concat(ranges)),
    decreases ranges.len(),
{
    let first = ranges[0];
    let others = ranges.skip(1);
    if others.len() == 0 {
        assert(concat(others) =~= Seq::<u8>::empty());
        assert(first + concat(others) =~= first);
        assert(fold_ranges(f, fold_bytes(f, accumulator, first), others) == fold_bytes(
            f,
            accumulator,
            first,
        ));
    } else {
        lemma_fold_ranges_is_one_fold(f, fold_bytes(f, accumulator, first), others);
        assert(fold_bytes(f, fold_bytes(f, accumulator, first), concat(others)) == fold_bytes(
            f,
            accumulator,
            first + concat(others),
        ));
    }
}

/// Byte-observation fidelity. An observer that is fed `chunks` does what the
/// parser inside it does on the same chunks, and its accumulator is the fold
/// of exactly the ranges that the parser inside consumed, call by call.
pub proof fn lemma_observer_folds_what_is_consumed<
    A,
    X,
    IFun: Fn() -> X,
    F: Fn(X, &[u8]) -> X,
    S: InterpParser<A>,
>(
    observer: ObserveBytes<X, IFun, F, S>,
    state: S::State,
    sub_dest: Option<S::Returning>,
    accumulator: X,
    chunks: Seq<Seq<u8>>,
)
    requires
        observer.wf(),
        observer.2.inv(state),
    ensures
        match run(observer.2, state, sub_dest, chunks) {
            Step::Pending { state: s1, dest: d1 } => run(
                observer,
                Some(state),
                Some((accumulator, sub_dest)),
                chunks,
            ) == (Step::<Option<S::State>, (X, Option<S::Returning>)>::Pending {
                state: Some(s1),
                dest: Some(
                    (
                        fold_ranges(
                            observer.1,
                            accumulator,
                            consumed_ranges(observer.2, state, sub_dest, chunks),
                        ),
                        d1,
                    ),
                ),
            }),
            Step::Done { rest, value } => run(
                observer,
                Some(state),
                Some((accumulator, sub_dest)),
                chunks,
            ) == (Step::<Option<S::State>, (X, Option<S::Returning>)>::Done {
                rest,
                value: (
                    fold_ranges(
                        observer.1,
                        accumulator,
                        consumed_ranges(observer.2, state, sub_dest, chunks),
                    ),
                    Some(value),
                ),
            }),
            Step::Rejected { rest } => run(
                observer,
                Some(state),
                Some((accumulator, sub_dest)),
                chunks,
            ) == (Step::<Option<S::State>, (X, Option<S::Returning>)>::Rejected { rest }),
        },
    decreases chunks.len(),
{
    let sub = observer.2;
    let f = observer.1;
    if chunks.len() > 0 {
        let first = chunks[0];
        let others = chunks.skip(1);
        sub.lemma_parse_protocol(state, sub_dest, first);
        match sub.spec_parse(state, sub_dest, first) {
            Step::Pending { state: s1, dest: d1 } => {
                let folded = fold_bytes(f, accumulator, first);
                lemma_observer_folds_what_is_consumed(observer, s1, d1, folded, others);
                let tail_ranges = consumed_ranges(sub, s1, d1, others);
                let ranges = seq![first] + tail_ranges;
                assert(ranges[0] == first);
                assert(ranges.skip(1) =~= tail_ranges);
            },
            Step::Done { rest, .. } => {
                let used = first.take(first.len() - rest.len());
                let ranges = seq![used];
                assert(ranges[0] == used);
                assert(ranges.skip(1) =~= Seq::<Seq<u8>>::empty());
                assert(fold_ranges(f, fold_bytes(f, accumulator, used), ranges.skip(1))
                    == fold_bytes(f, accumulator, used));
            },
            Step::Rejected { .. } => {},
        }
    }
}

/// Byte-observation fidelity from the first call on: a fresh observer does
/// what an observer does whose destination was seeded with the fresh
/// accumulator and whose parser inside has just started.
pub proof fn lemma_observer_first_entry<
    A,
    X,
    IFun: Fn() -> X,
    F: Fn(X, &[u8]) -> X,
    S: InterpParser<A>,
>(
    observer: ObserveBytes<X, IFun, F, S>,
    dest: Option<(X, Option<S::Returning>)>,
    chunks: Seq<Seq<u8>>,
)
    requires
        chunks.len() >= 1,
    ensures
        run(observer, None, dest, chunks) == run(
            observer,
            Some(observer.2.spec_init()),
            Some((thunk_value(observer.0), None)),
            chunks,
        ),
{
}

/// A captured or dropped byte that asks for more leaves an empty destination
/// empty; so do the numbers. This is what a length-prefixed sequence asks of
/// its length field to be independent of how the input is cut.
pub proof fn lemma_length_fields_keep_none<const BIG_ENDIAN: bool>()
    ensures
        pending_keeps_none::<Byte, DefaultInterp>(DefaultInterp),
        pending_keeps_none::<U16<BIG_ENDIAN>, DefaultInterp>(DefaultInterp),
        pending_keeps_none::<U32<BIG_ENDIAN>, DefaultInterp>(DefaultInterp),
        pending_keeps_none::<U64<BIG_ENDIAN>, DefaultInterp>(DefaultInterp),
{
}

} // verus!
