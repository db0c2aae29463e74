//! The length-prefixed field with a fallback: a length, then a structure
//! that is declared to occupy that many bytes. If the structure cannot be
//! parsed within its declared bytes, what is left of them is skipped and the
//! field completes without a result, so that whatever follows the field can
//! still be parsed. Every declared byte is folded into an accumulator.
use crate::core_parsers::LengthFallback;
use crate::interp::{
    fold_bytes, fold_ran, is_concatenative, is_fold, lemma_slice_of, DefaultInterp,
    ObserveLengthedBytes,
};
use crate::interp_parser::{
    is_tail_of, lemma_tail_of_tail, same_outcome, step_done, DynInterpParser, InterpParser,
    ParseResult, Step, OOB,
};
use crate::length::LengthField;
use crate::length_limited::{min_len, spec_min};
use vstd::prelude::*;

verus! {

/// The state of a length-prefixed field with a fallback. `Length` holds the
/// state and the destination of the length field's parser. `Element` holds
/// the bytes of the field consumed so far, the declared length, and the
/// state of the parser inside. `Failed` holds the bytes consumed so far and
/// the declared length, while what is left of the field is skipped. `Done`
/// is the state after completion.
pub enum LengthFallbackParserState<N, NO, IS> {
    Length(N, NO),
    Element(usize, usize, IS),
    Failed(usize, usize),
    Done,
}

/// The skipping phase. In strict mode it rejects. Without an accumulator in
/// the destination it rejects. Otherwise what is left of the declared bytes
/// is folded into the accumulator and consumed; when the last declared byte
/// is there, the field completes without a result.
pub open spec fn fallback_failed<NS, NO, IS, R, X, F: Fn(X, &[u8]) -> X>(
    f: F,
    strict: bool,
    consumed: usize,
    len: usize,
    dest: Option<(Option<R>, X)>,
    cursor: Seq<u8>,
) -> Step<LengthFallbackParserState<NS, NO, IS>, (Option<R>, X)> {
    if strict {
        Step::Rejected { rest: cursor }
    } else {
        match dest {
            None => Step::Rejected { rest: cursor },
            Some((sub_dest, accumulator)) => {
                let skipped = spec_min(len - consumed, cursor.len() as int);
                let folded = fold_bytes(f, accumulator, cursor.take(skipped));
                if cursor.len() >= len - consumed {
                    Step::Done { rest: cursor.skip(skipped), value: (None, folded) }
                } else {
                    Step::Pending {
                        state: LengthFallbackParserState::Failed(
                            (consumed + cursor.len()) as usize,
                            len,
                        ),
                        dest: Some((sub_dest, folded)),
                    }
                }
            },
        }
    }
}

/// The interpreting phase. Without an accumulator in the destination it
/// rejects. Otherwise the parser inside is offered the chunk, cut to what is
/// left of the declared bytes, and what it consumed is folded.
///
/// If it completes on the last declared byte, the field completes with its
/// result. If it completes earlier, the framing is inconsistent: the result
/// is dropped and the rest of the field is skipped. If it asks for more when
/// all declared bytes are consumed, the field completes with whatever the
/// parser inside left in its destination. If it rejects, the result is
/// dropped and the field is skipped from where this call started.
pub open spec fn fallback_element<I, S: InterpParser<I>, NS, NO, X, F: Fn(X, &[u8]) -> X>(
    sub: S,
    f: F,
    strict: bool,
    consumed: usize,
    len: usize,
    state: S::State,
    dest: Option<(Option<S::Returning>, X)>,
    cursor: Seq<u8>,
) -> Step<LengthFallbackParserState<NS, NO, S::State>, (Option<S::Returning>, X)> {
    match dest {
        None => Step::Rejected { rest: cursor },
        Some((sub_dest, accumulator)) => {
            let passed = cursor.take(spec_min(cursor.len() as int, len - consumed));
            match sub.spec_parse(state, sub_dest, passed) {
                Step::Done { rest, value } => {
                    let used = passed.len() - rest.len();
                    let folded = fold_bytes(f, accumulator, cursor.take(used));
                    if consumed + used == len {
                        Step::Done { rest: cursor.skip(used), value: (Some(value), folded) }
                    } else {
                        fallback_failed(
                            f,
                            strict,
                            (consumed + used) as usize,
                            len,
                            Some((None, folded)),
                            cursor.skip(used),
                        )
                    }
                },
                Step::Pending { state: s1, dest: d1 } => {
                    let used = passed.len() as int;
                    let folded = fold_bytes(f, accumulator, passed);
                    if consumed + used == len {
                        Step::Done { rest: cursor.skip(used), value: (d1, folded) }
                    } else {
                        Step::Pending {
                            state: LengthFallbackParserState::Element(
                                (consumed + used) as usize,
                                len,
                                s1,
                            ),
                            dest: Some((d1, folded)),
                        }
                    }
                },
                Step::Rejected { .. } => fallback_failed(
                    f,
                    strict,
                    consumed,
                    len,
                    Some((None, accumulator)),
                    cursor,
                ),
            }
        },
    }
}

/// The transition function of a length-prefixed field with a fallback. In
/// `Length`, the length field is captured; when it completes, the parser
/// inside starts on what is left of the chunk, and a length that the machine
/// cannot hold is rejected. In `Element` and `Failed`, that phase goes on.
/// In `Done`, everything is rejected.
pub open spec fn fallback_parse<L, I, S: InterpParser<I>, X, F: Fn(X, &[u8]) -> X>(
    sub: S,
    f: F,
    strict: bool,
    state: LengthFallbackParserState<
        <DefaultInterp as InterpParser<L>>::State,
        Option<<DefaultInterp as InterpParser<L>>::Returning>,
        S::State,
    >,
    dest: Option<(Option<S::Returning>, X)>,
    chunk: Seq<u8>,
) -> Step<
    LengthFallbackParserState<
        <DefaultInterp as InterpParser<L>>::State,
        Option<<DefaultInterp as InterpParser<L>>::Returning>,
        S::State,
    >,
    (Option<S::Returning>, X),
> where
    DefaultInterp: InterpParser<L>,
    <DefaultInterp as InterpParser<L>>::Returning: LengthField,
 {
    match state {
        LengthFallbackParserState::Length(length_state, length_dest) => {
            match <DefaultInterp as InterpParser<L>>::spec_parse(
                &DefaultInterp,
                length_state,
                length_dest,
                chunk,
            ) {
                Step::Pending { state: s1, dest: d1 } => Step::Pending {
                    state: LengthFallbackParserState::Length(s1, d1),
                    dest,
                },
                Step::Rejected { rest } => Step::Rejected { rest },
                Step::Done { rest, value } => match value.spec_length() {
                    None => Step::Rejected { rest },
                    Some(len) => fallback_element(
                        sub,
                        f,
                        strict,
                        0,
                        len,
                        sub.spec_init(),
                        dest,
                        rest,
                    ),
                },
            }
        },
        LengthFallbackParserState::Element(consumed, len, element_state) => fallback_element(
            sub,
            f,
            strict,
            consumed,
            len,
            element_state,
            dest,
            chunk,
        ),
        LengthFallbackParserState::Failed(consumed, len) => fallback_failed(
            f,
            strict,
            consumed,
            len,
            dest,
            chunk,
        ),
        LengthFallbackParserState::Done => Step::Rejected { rest: chunk },
    }
}

/// The folding function was run on what the skipping phase consumed.
pub open spec fn fallback_failed_consulted<R, X, F: Fn(X, &[u8]) -> X>(
    f: F,
    strict: bool,
    consumed: usize,
    len: usize,
    dest: Option<(Option<R>, X)>,
    cursor: Seq<u8>,
) -> bool {
    !strict ==> (dest matches Some(pair) ==> fold_ran(
        f,
        pair.1,
        cursor.take(spec_min(len - consumed, cursor.len() as int)),
    ))
}

/// The parser inside consulted what it needed, and the folding function was
/// run on what the interpreting phase consumed and on what was skipped after
/// it.
pub open spec fn fallback_element_consulted<I, S: InterpParser<I>, X, F: Fn(X, &[u8]) -> X>(
    sub: S,
    f: F,
    strict: bool,
    consumed: usize,
    len: usize,
    state: S::State,
    dest: Option<(Option<S::Returning>, X)>,
    cursor: Seq<u8>,
) -> bool {
    match dest {
        None => true,
        Some((sub_dest, accumulator)) => {
            let passed = cursor.take(spec_min(cursor.len() as int, len - consumed));
            &&& sub.consulted(state, sub_dest, passed)
            &&& match sub.spec_parse(state, sub_dest, passed) {
                Step::Done { rest, .. } => {
                    let used = passed.len() - rest.len();
                    &&& fold_ran(f, accumulator, cursor.take(used))
                    &&& consumed + used != len ==> fallback_failed_consulted::<S::Returning, X, F>(
                        f,
                        strict,
                        (consumed + used) as usize,
                        len,
                        Some((None, fold_bytes(f, accumulator, cursor.take(used)))),
                        cursor.skip(used),
                    )
                },
                Step::Pending { .. } => fold_ran(f, accumulator, passed),
                Step::Rejected { .. } => fallback_failed_consulted::<S::Returning, X, F>(
                    f,
                    strict,
                    consumed,
                    len,
                    Some((None, accumulator)),
                    cursor,
                ),
            }
        },
    }
}

/// The parsers of the field consulted what they needed on this call, and
/// the folding function was run on what was consumed of the declared bytes.
pub open spec fn fallback_consulted<L, I, S: InterpParser<I>, X, F: Fn(X, &[u8]) -> X>(
    sub: S,
    f: F,
    strict: bool,
    state: LengthFallbackParserState<
        <DefaultInterp as InterpParser<L>>::State,
        Option<<DefaultInterp as InterpParser<L>>::Returning>,
        S::State,
    >,
    dest: Option<(Option<S::Returning>, X)>,
    chunk: Seq<u8>,
) -> bool where
    DefaultInterp: InterpParser<L>,
    <DefaultInterp as InterpParser<L>>::Returning: LengthField,
 {
    match state {
        LengthFallbackParserState::Length(length_state, length_dest) => {
            &&& <DefaultInterp as InterpParser<L>>::consulted(
                &DefaultInterp,
                length_state,
                length_dest,
                chunk,
            )
            &&& match <DefaultInterp as InterpParser<L>>::spec_parse(
                &DefaultInterp,
                length_state,
                length_dest,
                chunk,
            ) {
                Step::Done { rest, value } => match value.spec_length() {
                    Some(len) => fallback_element_consulted(
                        sub,
                        f,
                        strict,
                        0,
                        len,
                        sub.spec_init(),
                        dest,
                        rest,
                    ),
                    None => true,
                },
                _ => true,
            }
        },
        LengthFallbackParserState::Element(
            consumed,
            len,
            element_state,
        ) => fallback_element_consulted(sub, f, strict, consumed, len, element_state, dest, chunk),
        LengthFallbackParserState::Failed(consumed, len) => fallback_failed_consulted(
            f,
            strict,
            consumed,
            len,
            dest,
            chunk,
        ),
        LengthFallbackParserState::Done => true,
    }
}

/// The live states of a length-prefixed field with a fallback.
pub open spec fn fallback_inv<L, I, S: InterpParser<I>>(
    sub: S,
    state: LengthFallbackParserState<
        <DefaultInterp as InterpParser<L>>::State,
        Option<<DefaultInterp as InterpParser<L>>::Returning>,
        S::State,
    >,
) -> bool where DefaultInterp: InterpParser<L> {
    match state {
        LengthFallbackParserState::Length(length_state, _) => <DefaultInterp as InterpParser<
            L,
        >>::inv(&DefaultInterp, length_state),
        LengthFallbackParserState::Element(consumed, len, element_state) => {
            &&& consumed <= len
            &&& sub.inv(element_state)
        },
        LengthFallbackParserState::Failed(consumed, len) => consumed <= len,
        LengthFallbackParserState::Done => true,
    }
}

/// The skipping phase obeys the protocol, and is independent of how the
/// input is cut if the folding is.
pub proof fn lemma_fallback_failed<NS, NO, IS, R, X, F: Fn(X, &[u8]) -> X>(
    f: F,
    strict: bool,
    consumed: usize,
    len: usize,
    dest: Option<(Option<R>, X)>,
    a: Seq<u8>,
    b: Seq<u8>,
)
    requires
        consumed <= len,
    ensures
        match fallback_failed::<NS, NO, IS, R, X, F>(f, strict, consumed, len, dest, a) {
            Step::Pending { state: s1, dest: d1 } => {
                &&& s1 matches LengthFallbackParserState::Failed(c1, l1)
                &&& c1 == consumed + a.len()
                &&& c1 < len
                &&& l1 == len
                &&& !strict
                &&& is_concatenative(f) ==> fallback_failed::<NS, NO, IS, R, X, F>(
                    f,
                    strict,
                    consumed,
                    len,
                    dest,
                    a + b,
                ) == fallback_failed::<NS, NO, IS, R, X, F>(f, strict, c1, l1, d1, b)
            },
            Step::Done { rest, value } => {
                &&& is_tail_of(rest, a)
                &&& a.len() - rest.len() == len - consumed
                &&& value.0 is None
                &&& fallback_failed::<NS, NO, IS, R, X, F>(f, strict, consumed, len, dest, a + b)
                    == (Step::<LengthFallbackParserState<NS, NO, IS>, (Option<R>, X)>::Done {
                    rest: rest + b,
                    value,
                })
            },
            Step::Rejected { .. } => fallback_failed::<NS, NO, IS, R, X, F>(
                f,
                strict,
                consumed,
                len,
                dest,
                a + b,
            ) is Rejected,
        },
{
    if !strict {
        if let Some((sub_dest, accumulator)) = dest {
            let need = len - consumed;
            if a.len() >= need {
                assert((a + b).take(need) =~= a.take(need));
                assert((a + b).skip(need) =~= a.skip(need) + b);
                assert(a.skip(need) =~= a.skip(a.len() - a.skip(need).len()));
            } else {
                let skipped_b = spec_min(need - a.len(), b.len() as int);
                let skipped_ab = spec_min(need, (a + b).len() as int);
                assert(a.take(a.len() as int) =~= a);
                assert((a + b).take(skipped_ab) =~= a + b.take(skipped_b));
                assert((a + b).skip(skipped_ab) =~= b.skip(skipped_b));
                if is_concatenative(f) {
                    assert(fold_bytes(f, fold_bytes(f, accumulator, a), b.take(skipped_b))
                        == fold_bytes(f, accumulator, a + b.take(skipped_b)));
                }
            }
        }
    }
}

/// The interpreting phase obeys the protocol, and is independent of how the
/// input is cut if the parser inside and the folding are.
pub proof fn lemma_fallback_element<I, S: InterpParser<I>, NS, NO, X, F: Fn(X, &[u8]) -> X>(
    sub: S,
    f: F,
    strict: bool,
    consumed: usize,
    len: usize,
    state: S::State,
    dest: Option<(Option<S::Returning>, X)>,
    a: Seq<u8>,
    b: Seq<u8>,
)
    requires
        sub.wf(),
        sub.inv(state),
        consumed <= len,
    ensures
        match fallback_element::<I, S, NS, NO, X, F>(sub, f, strict, consumed, len, state, dest, a) {
            Step::Pending { state: s1, dest: d1 } => {
                &&& s1 matches LengthFallbackParserState::Element(c1, l1, e1) ==> c1 <= l1
                    && sub.inv(e1)
                &&& s1 matches LengthFallbackParserState::Failed(c1, l1) ==> c1 <= l1
                &&& s1 is Element || s1 is Failed
                &&& sub.chunk_independent() && is_concatenative(f) ==> same_outcome(
                    fallback_element::<I, S, NS, NO, X, F>(
                        sub,
                        f,
                        strict,
                        consumed,
                        len,
                        state,
                        dest,
                        a + b,
                    ),
                    match s1 {
                        LengthFallbackParserState::Element(
                            c1,
                            l1,
                            e1,
                        ) => fallback_element::<I, S, NS, NO, X, F>(
                            sub,
                            f,
                            strict,
                            c1,
                            l1,
                            e1,
                            d1,
                            b,
                        ),
                        LengthFallbackParserState::Failed(c1, l1) => fallback_failed::<
                            NS,
                            NO,
                            S::State,
                            S::Returning,
                            X,
                            F,
                        >(f, strict, c1, l1, d1, b),
                        _ => arbitrary(),
                    },
                )
            },
            Step::Done { rest, value } => {
                &&& is_tail_of(rest, a)
                &&& a.len() - rest.len() == len - consumed
                &&& sub.chunk_independent() && is_concatenative(f) ==> fallback_element::<
                    I,
                    S,
                    NS,
                    NO,
                    X,
                    F,
                >(sub, f, strict, consumed, len, state, dest, a + b) == (Step::<
                    LengthFallbackParserState<NS, NO, S::State>,
                    (Option<S::Returning>, X),
                >::Done { rest: rest + b, value })
            },
            Step::Rejected { .. } => sub.chunk_independent() && is_concatenative(f)
                ==> fallback_element::<I, S, NS, NO, X, F>(
                sub,
                f,
                strict,
                consumed,
                len,
                state,
                dest,
                a + b,
            ) is Rejected,
        },
{
    if let Some((sub_dest, accumulator)) = dest {
        let need = len - consumed;
        let passed_a = a.take(spec_min(a.len() as int, need));
        let passed_ab = (a + b).take(spec_min((a + b).len() as int, need));
        sub.lemma_parse_protocol(state, sub_dest, passed_a);
        let stable = sub.chunk_independent() && is_concatenative(f);
        if a.len() >= need {
            assert(passed_ab =~= passed_a);
            match sub.spec_parse(state, sub_dest, passed_a) {
                Step::Done { rest, value } => {
                    let used = passed_a.len() - rest.len();
                    assert((a + b).take(used) =~= a.take(used));
                    assert((a + b).skip(used) =~= a.skip(used) + b);
                    assert(a.skip(used) =~= a.skip(a.len() - a.skip(used).len()));
                    if consumed + used != len {
                        let folded = fold_bytes(f, accumulator, a.take(used));
                        lemma_fallback_failed::<NS, NO, S::State, S::Returning, X, F>(
                            f,
                            strict,
                            (consumed + used) as usize,
                            len,
                            Some((None, folded)),
                            a.skip(used),
                            b,
                        );
                        if let Step::Done { rest: last, .. } = fallback_failed::<
                            NS,
                            NO,
                            S::State,
                            S::Returning,
                            X,
                            F,
                        >(
                            f,
                            strict,
                            (consumed + used) as usize,
                            len,
                            Some((None, folded)),
                            a.skip(used),
                        ) {
                            lemma_tail_of_tail(last, a.skip(used), a);
                        }
                    }
                },
                Step::Pending { .. } => {
                    assert((a + b).skip(need) =~= a.skip(need) + b);
                    assert(a.skip(need) =~= a.skip(a.len() - a.skip(need).len()));
                },
                Step::Rejected { .. } => {
                    lemma_fallback_failed::<NS, NO, S::State, S::Returning, X, F>(
                        f,
                        strict,
                        consumed,
                        len,
                        Some((None, accumulator)),
                        a,
                        b,
                    );
                },
            }
        } else {
            let more = b.take(spec_min(b.len() as int, need - a.len()));
            assert(passed_a =~= a);
            assert(passed_ab =~= a + more);
            if sub.chunk_independent() {
                sub.lemma_parse_split(state, sub_dest, a, more);
            }
            match sub.spec_parse(state, sub_dest, a) {
                Step::Pending { state: s1, dest: d1 } => {
                    if stable {
                        sub.lemma_parse_protocol(s1, d1, more);
                        let folded_a = fold_bytes(f, accumulator, a);
                        match sub.spec_parse(s1, d1, more) {
                            Step::Done { rest, .. } => {
                                let used_b = more.len() - rest.len();
                                let used_ab = (a + more).len() - rest.len();
                                assert((a + b).take(used_ab) =~= a + b.take(used_b));
                                assert((a + b).skip(used_ab) =~= b.skip(used_b));
                                assert(fold_bytes(f, folded_a, b.take(used_b)) == fold_bytes(
                                    f,
                                    accumulator,
                                    a + b.take(used_b),
                                ));
                            },
                            Step::Pending { .. } => {
                                assert((a + b).skip((a + more).len() as int) =~= b.skip(
                                    more.len() as int,
                                ));
                                assert(fold_bytes(f, folded_a, more) == fold_bytes(
                                    f,
                                    accumulator,
                                    a + more,
                                ));
                            },
                            Step::Rejected { .. } => {
                                lemma_fallback_failed::<NS, NO, S::State, S::Returning, X, F>(
                                    f,
                                    strict,
                                    consumed,
                                    len,
                                    Some((None, accumulator)),
                                    a,
                                    b,
                                );
                            },
                        }
                    }
                },
                Step::Done { rest, value } => {
                    let used = a.len() - rest.len();
                    assert((a + b).take(used) =~= a.take(used));
                    assert((a + b).skip(used) =~= a.skip(used) + b);
                    assert((a + more).len() - (rest + more).len() == used);
                    let folded = fold_bytes(f, accumulator, a.take(used));
                    lemma_fallback_failed::<NS, NO, S::State, S::Returning, X, F>(
                        f,
                        strict,
                        (consumed + used) as usize,
                        len,
                        Some((None, folded)),
                        a.skip(used),
                        b,
                    );
                    if let Step::Done { rest: last, .. } = fallback_failed::<
                        NS,
                        NO,
                        S::State,
                        S::Returning,
                        X,
                        F,
                    >(
                        f,
                        strict,
                        (consumed + used) as usize,
                        len,
                        Some((None, folded)),
                        a.skip(used),
                    ) {
                        assert(a.skip(used) =~= a.skip(a.len() - a.skip(used).len()));
                        lemma_tail_of_tail(last, a.skip(used), a);
                    }
                },
                Step::Rejected { .. } => {
                    lemma_fallback_failed::<NS, NO, S::State, S::Returning, X, F>(
                        f,
                        strict,
                        consumed,
                        len,
                        Some((None, accumulator)),
                        a,
                        b,
                    );
                },
            }
        }
    }
}

/// The field obeys the protocol, and is independent of how the input is
/// cut if its parts are.
proof fn lemma_fallback_parse<L, I, S: InterpParser<I>, X, F: Fn(X, &[u8]) -> X>(
    sub: S,
    f: F,
    strict: bool,
    state: LengthFallbackParserState<
        <DefaultInterp as InterpParser<L>>::State,
        Option<<DefaultInterp as InterpParser<L>>::Returning>,
        S::State,
    >,
    dest: Option<(Option<S::Returning>, X)>,
    a: Seq<u8>,
    b: Seq<u8>,
) where
    DefaultInterp: InterpParser<L>,
    <DefaultInterp as InterpParser<L>>::Returning: LengthField,

    requires
        sub.wf(),
        <DefaultInterp as InterpParser<L>>::wf(&DefaultInterp),
        fallback_inv::<L, I, S>(sub, state),
    ensures
        fallback_parse::<L, I, S, X, F>(sub, f, strict, state, dest, a) matches Step::Pending {
            state: s1,
            ..
        } ==> fallback_inv::<L, I, S>(sub, s1),
        fallback_parse::<L, I, S, X, F>(sub, f, strict, state, dest, a) matches Step::Done {
            rest,
            ..
        } ==> is_tail_of(rest, a),
        sub.chunk_independent() && <DefaultInterp as InterpParser<L>>::chunk_independent(
            &DefaultInterp,
        ) && is_concatenative(f) ==> match fallback_parse::<L, I, S, X, F>(
            sub,
            f,
            strict,
            state,
            dest,
            a,
        ) {
            Step::Pending { state: s1, dest: d1 } => same_outcome(
                fallback_parse::<L, I, S, X, F>(sub, f, strict, state, dest, a + b),
                fallback_parse::<L, I, S, X, F>(sub, f, strict, s1, d1, b),
            ),
            Step::Done { rest, value } => fallback_parse::<L, I, S, X, F>(
                sub,
                f,
                strict,
                state,
                dest,
                a + b,
            ) == (Step::<
                LengthFallbackParserState<
                    <DefaultInterp as InterpParser<L>>::State,
                    Option<<DefaultInterp as InterpParser<L>>::Returning>,
                    S::State,
                >,
                (Option<S::Returning>, X),
            >::Done { rest: rest + b, value }),
            Step::Rejected { .. } => fallback_parse::<L, I, S, X, F>(
                sub,
                f,
                strict,
                state,
                dest,
                a + b,
            ) is Rejected,
        },
{
    match state {
        LengthFallbackParserState::Length(length_state, length_dest) => {
            <DefaultInterp as InterpParser<L>>::lemma_parse_protocol(
                &DefaultInterp,
                length_state,
                length_dest,
                a,
            );
            if <DefaultInterp as InterpParser<L>>::chunk_independent(&DefaultInterp) {
                <DefaultInterp as InterpParser<L>>::lemma_parse_split(
                    &DefaultInterp,
                    length_state,
                    length_dest,
                    a,
                    b,
                );
            }
            match <DefaultInterp as InterpParser<L>>::spec_parse(
                &DefaultInterp,
                length_state,
                length_dest,
                a,
            ) {
                Step::Done { rest, value } => {
                    if let Some(len) = value.spec_length() {
                        sub.lemma_init();
                        lemma_fallback_element::<
                            I,
                            S,
                            <DefaultInterp as InterpParser<L>>::State,
                            Option<<DefaultInterp as InterpParser<L>>::Returning>,
                            X,
                            F,
                        >(sub, f, strict, 0, len, sub.spec_init(), dest, rest, b);
                        if let Step::Done { rest: last, .. } = fallback_parse::<L, I, S, X, F>(
                            sub,
                            f,
                            strict,
                            state,
                            dest,
                            a,
                        ) {
                            lemma_tail_of_tail(last, rest, a);
                        }
                    }
                },
                _ => {},
            }
        },
        LengthFallbackParserState::Element(consumed, len, element_state) => {
            lemma_fallback_element::<
                I,
                S,
                <DefaultInterp as InterpParser<L>>::State,
                Option<<DefaultInterp as InterpParser<L>>::Returning>,
                X,
                F,
            >(sub, f, strict, consumed, len, element_state, dest, a, b);
        },
        LengthFallbackParserState::Failed(consumed, len) => {
            lemma_fallback_failed::<
                <DefaultInterp as InterpParser<L>>::State,
                Option<<DefaultInterp as InterpParser<L>>::Returning>,
                S::State,
                S::Returning,
                X,
                F,
            >(f, strict, consumed, len, dest, a, b);
        },
        LengthFallbackParserState::Done => {},
    }
}

/// Folds `bytes` into the accumulator that the destination holds.
fn fold_into<R, X, F: Fn(X, &[u8]) -> X>(
    f: &F,
    destination: &mut Option<(Option<R>, X)>,
    bytes: &[u8],
)
    requires
        is_fold(*f),
        *old(destination) is Some,
    ensures
        *old(destination) matches Some(pair) && *final(destination) == Some(
            (pair.0, fold_bytes(*f, pair.1, bytes@)),
        ) && fold_ran(*f, pair.1, bytes@),
{
    match destination.take() {
        None => {},
        Some((sub_destination, accumulator)) => {
            proof {
                lemma_slice_of(bytes);
            }
            *destination = Some((sub_destination, f(accumulator, bytes)));
        },
    }
}

/// Empties the result half of the destination.
fn clear_result<R, X>(destination: &mut Option<(Option<R>, X)>)
    requires
        *old(destination) is Some,
    ensures
        *old(destination) matches Some(pair) && *final(destination) == Some(
            (None::<R>, pair.1),
        ),
{
    match destination.take() {
        None => {},
        Some((_, accumulator)) => {
            *destination = Some((None, accumulator));
        },
    }
}

/// Skips what is left of the declared bytes of a field that failed.
fn skip_failed<'a, NS, NO, IS, R, X, F: Fn(X, &[u8]) -> X>(
    f: &F,
    strict: bool,
    state: &mut LengthFallbackParserState<NS, NO, IS>,
    cursor: &'a [u8],
    destination: &mut Option<(Option<R>, X)>,
) -> (res: ParseResult<'a>)
    requires
        is_fold(*f),
        *old(state) matches LengthFallbackParserState::Failed(consumed, len) && consumed <= len,
    ensures
        *old(state) matches LengthFallbackParserState::Failed(consumed, len) && step_done(
            fallback_failed::<NS, NO, IS, R, X, F>(
                *f,
                strict,
                consumed,
                len,
                *old(destination),
                cursor@,
            ),
            res,
            *final(state),
            *final(destination),
        ) && fallback_failed_consulted::<R, X, F>(
            *f,
            strict,
            consumed,
            len,
            *old(destination),
            cursor@,
        ),
        res is Ok ==> *final(state) is Done,
{
    match state {
        LengthFallbackParserState::Failed(consumed, len) => {
            if strict {
                return Err((Some(OOB::Reject), cursor));
            }
            if destination.is_none() {
                return Err((Some(OOB::Reject), cursor));
            }
            let skipped = min_len(*len - *consumed, cursor.len());
            fold_into(f, destination, &cursor[0..skipped]);
            if cursor.len() >= *len - *consumed {
                *state = LengthFallbackParserState::Done;
                clear_result(destination);
                Ok(&cursor[skipped..cursor.len()])
            } else {
                *consumed = *consumed + cursor.len();
                Err((None, &cursor[skipped..cursor.len()]))
            }
        },
        _ => Err((Some(OOB::Reject), cursor)),
    }
}

/// Runs the parser inside a field on what is left of its declared bytes.
fn parse_element<'a, I, S: InterpParser<I>, NS, NO, X, F: Fn(X, &[u8]) -> X>(
    sub: &S,
    f: &F,
    strict: bool,
    state: &mut LengthFallbackParserState<NS, NO, S::State>,
    cursor: &'a [u8],
    destination: &mut Option<(Option<S::Returning>, X)>,
) -> (res: ParseResult<'a>)
    requires
        sub.wf(),
        is_fold(*f),
        *old(state) matches LengthFallbackParserState::Element(consumed, len, element_state)
            && consumed <= len && sub.inv(element_state),
    ensures
        *old(state) matches LengthFallbackParserState::Element(consumed, len, element_state)
            && step_done(
            fallback_element::<I, S, NS, NO, X, F>(
                *sub,
                *f,
                strict,
                consumed,
                len,
                element_state,
                *old(destination),
                cursor@,
            ),
            res,
            *final(state),
            *final(destination),
        ) && fallback_element_consulted::<I, S, X, F>(
            *sub,
            *f,
            strict,
            consumed,
            len,
            element_state,
            *old(destination),
            cursor@,
        ),
        res is Ok ==> *final(state) is Done,
{
    let (res, passed_len, before, declared) = match state {
        LengthFallbackParserState::Element(consumed, len, element_state) => {
            let passed_len = min_len(cursor.len(), *len - *consumed);
            let passed_cursor = &cursor[0..passed_len];
            match destination {
                None => {
                    return Err((Some(OOB::Reject), cursor));
                },
                Some(pair) => {
                    proof {
                        sub.lemma_parse_protocol(*element_state, pair.0, passed_cursor@);
                    }
                    let res = sub.parse(element_state, passed_cursor, &mut pair.0);
                    (res, passed_len, *consumed, *len)
                },
            }
        },
        _ => {
            return Err((Some(OOB::Reject), cursor));
        },
    };
    match res {
        Ok(new_cursor) => {
            let consumed_from_chunk = passed_len - new_cursor.len();
            let now = before + consumed_from_chunk;
            fold_into(f, destination, &cursor[0..consumed_from_chunk]);
            let remaining = &cursor[consumed_from_chunk..cursor.len()];
            if now == declared {
                *state = LengthFallbackParserState::Done;
                return Ok(remaining);
            }
            clear_result(destination);
            *state = LengthFallbackParserState::Failed(now, declared);
            skip_failed(f, strict, state, remaining, destination)
        },
        Err((None, _)) => {
            let now = before + passed_len;
            fold_into(f, destination, &cursor[0..passed_len]);
            let remaining = &cursor[passed_len..cursor.len()];
            if now == declared {
                *state = LengthFallbackParserState::Done;
                return Ok(remaining);
            }
            match state {
                LengthFallbackParserState::Element(consumed, _, _) => {
                    *consumed = now;
                },
                _ => {},
            }
            Err((None, remaining))
        },
        Err(_) => {
            clear_result(destination);
            *state = LengthFallbackParserState::Failed(before, declared);
            skip_failed(f, strict, state, cursor, destination)
        },
    }
}

impl<
    IFun: Fn() -> X,
    L,
    I,
    S: InterpParser<I>,
    X,
    F: Fn(X, &[u8]) -> X,
> InterpParser<LengthFallback<L, I>> for ObserveLengthedBytes<IFun, X, F, S> where
    DefaultInterp: InterpParser<L>,
    <DefaultInterp as InterpParser<L>>::Returning: LengthField,
 {
    type State = LengthFallbackParserState<
        <DefaultInterp as InterpParser<L>>::State,
        Option<<DefaultInterp as InterpParser<L>>::Returning>,
        S::State,
    >;

    type Returning = (Option<S::Returning>, X);

    /// The folding function may be called, and what it returns depends on
    /// its arguments alone.
    open spec fn wf(&self) -> bool {
        &&& self.2.wf()
        &&& <DefaultInterp as InterpParser<L>>::wf(&DefaultInterp)
        &&& is_fold(self.1)
    }

    open spec fn inv(&self, state: Self::State) -> bool {
        fallback_inv::<L, I, S>(self.2, state)
    }

    open spec fn spec_init(&self) -> Self::State {
        LengthFallbackParserState::Length(
            <DefaultInterp as InterpParser<L>>::spec_init(&DefaultInterp),
            None,
        )
    }

    open spec fn spec_parse(
        &self,
        state: Self::State,
        dest: Option<Self::Returning>,
        chunk: Seq<u8>,
    ) -> Step<Self::State, Self::Returning> {
        fallback_parse::<L, I, S, X, F>(self.2, self.1, self.3, state, dest, chunk)
    }

    open spec fn consulted(
        &self,
        state: Self::State,
        dest: Option<Self::Returning>,
        chunk: Seq<u8>,
    ) -> bool {
        fallback_consulted::<L, I, S, X, F>(self.2, self.1, self.3, state, dest, chunk)
    }

    /// A completed parse leaves the terminal state, in which everything is
    /// rejected.
    open spec fn left_by_completion(&self, state: Self::State) -> bool {
        state is Done
    }

    /// The length field's parser and the parser inside are independent of
    /// how the input is cut, and folding two ranges one after the other is
    /// folding their concatenation.
    open spec fn chunk_independent(&self) -> bool {
        &&& self.2.chunk_independent()
        &&& <DefaultInterp as InterpParser<L>>::chunk_independent(&DefaultInterp)
        &&& is_concatenative(self.1)
    }

    proof fn lemma_init(&self) {
        <DefaultInterp as InterpParser<L>>::lemma_init(&DefaultInterp);
    }

    proof fn lemma_parse_protocol(
        &self,
        state: Self::State,
        dest: Option<Self::Returning>,
        chunk: Seq<u8>,
    ) {
        lemma_fallback_parse::<L, I, S, X, F>(
            self.2,
            self.1,
            self.3,
            state,
            dest,
            chunk,
            Seq::empty(),
        );
    }

    proof fn lemma_parse_split(
        &self,
        state: Self::State,
        dest: Option<Self::Returning>,
        a: Seq<u8>,
        b: Seq<u8>,
    ) {
        lemma_fallback_parse::<L, I, S, X, F>(self.2, self.1, self.3, state, dest, a, b);
    }

    fn init(&self) -> (state: Self::State) {
        LengthFallbackParserState::Length(
            <DefaultInterp as InterpParser<L>>::init(&DefaultInterp),
            None,
        )
    }

    fn parse<'a, 'b>(
        &self,
        state: &'b mut Self::State,
        chunk: &'a [u8],
        destination: &mut Option<Self::Returning>,
    ) -> (res: ParseResult<'a>) {
        let mut cursor: &'a [u8] = chunk;
        if let LengthFallbackParserState::Length(length_state, length_out) = state {
            cursor = <DefaultInterp as InterpParser<L>>::parse(
                &DefaultInterp,
                length_state,
                cursor,
                length_out,
            )?;
            let len = match length_out {
                None => {
                    return Err((Some(OOB::Reject), cursor));
                },
                Some(value) => match value.length() {
                    None => {
                        return Err((Some(OOB::Reject), cursor));
                    },
                    Some(len) => len,
                },
            };
            *state = LengthFallbackParserState::Element(0, len, self.2.init());
        }
        match state {
            LengthFallbackParserState::Element(..) => parse_element(
                &self.2,
                &self.1,
                self.3,
                state,
                cursor,
                destination,
            ),
            LengthFallbackParserState::Failed(..) => skip_failed(
                &self.1,
                self.3,
                state,
                cursor,
                destination,
            ),
            _ => Err((Some(OOB::Reject), cursor)),
        }
    }
}

impl<
    IFun: Fn() -> X,
    L,
    I,
    S: InterpParser<I>,
    X,
    F: Fn(X, &[u8]) -> X,
> DynInterpParser<LengthFallback<L, I>> for ObserveLengthedBytes<IFun, X, F, S> where
    DefaultInterp: InterpParser<L>,
    <DefaultInterp as InterpParser<L>>::Returning: LengthField,
 {
    type Parameter = X;

    /// The parameter is the initial accumulator, and the result is absent.
    open spec fn spec_init_param(&self, param: X, dest: Option<Self::Returning>) -> (
        Self::State,
        Option<Self::Returning>,
    ) {
        (
            LengthFallbackParserState::Length(
                <DefaultInterp as InterpParser<L>>::spec_init(&DefaultInterp),
                None,
            ),
            Some((None, param)),
        )
    }

    proof fn lemma_init_param(&self, param: X, dest: Option<Self::Returning>) {
        <DefaultInterp as InterpParser<L>>::lemma_init(&DefaultInterp);
    }

    fn init_param(
        &self,
        params: X,
        state: &mut Self::State,
        destination: &mut Option<Self::Returning>,
    ) {
        *destination = Some((None, params));
        *state = LengthFallbackParserState::Length(
            <DefaultInterp as InterpParser<L>>::init(&DefaultInterp),
            None,
        );
    }
}

/// What the parts of the contract say of an `ObserveLengthedBytes`. A caller
/// that holds one whose functions are closures or named functions learns
/// them here.
pub proof fn lemma_fallback_contract<
    IFun: Fn() -> X,
    L,
    I,
    S: InterpParser<I>,
    X,
    F: Fn(X, &[u8]) -> X,
>(parser: ObserveLengthedBytes<IFun, X, F, S>) where
    DefaultInterp: InterpParser<L>,
    <DefaultInterp as InterpParser<L>>::Returning: LengthField,

    ensures
        InterpParser::<LengthFallback<L, I>>::wf(&parser) == (parser.2.wf()
            && <DefaultInterp as InterpParser<L>>::wf(&DefaultInterp) && is_fold(parser.1)),
        InterpParser::<LengthFallback<L, I>>::spec_init(&parser) == LengthFallbackParserState::<
            <DefaultInterp as InterpParser<L>>::State,
            Option<<DefaultInterp as InterpParser<L>>::Returning>,
            S::State,
        >::Length(<DefaultInterp as InterpParser<L>>::spec_init(&DefaultInterp), None),
        InterpParser::<LengthFallback<L, I>>::chunk_independent(&parser) == (
        parser.2.chunk_independent() && <DefaultInterp as InterpParser<L>>::chunk_independent(
            &DefaultInterp,
        ) && is_concatenative(parser.1)),
        forall|
            state: LengthFallbackParserState<
                <DefaultInterp as InterpParser<L>>::State,
                Option<<DefaultInterp as InterpParser<L>>::Returning>,
                S::State,
            >,
        | #[trigger]
            InterpParser::<LengthFallback<L, I>>::inv(&parser, state) == fallback_inv::<L, I, S>(
                parser.2,
                state,
            ),
        forall|
            state: LengthFallbackParserState<
                <DefaultInterp as InterpParser<L>>::State,
                Option<<DefaultInterp as InterpParser<L>>::Returning>,
                S::State,
            >,
            dest: Option<(Option<S::Returning>, X)>,
            chunk: Seq<u8>,
        | #[trigger]
            InterpParser::<LengthFallback<L, I>>::spec_parse(&parser, state, dest, chunk)
                == fallback_parse::<L, I, S, X, F>(
                parser.2,
                parser.1,
                parser.3,
                state,
                dest,
                chunk,
            ),
        forall|
            state: LengthFallbackParserState<
                <DefaultInterp as InterpParser<L>>::State,
                Option<<DefaultInterp as InterpParser<L>>::Returning>,
                S::State,
            >,
            dest: Option<(Option<S::Returning>, X)>,
            chunk: Seq<u8>,
        | #[trigger]
            InterpParser::<LengthFallback<L, I>>::consulted(&parser, state, dest, chunk)
                == fallback_consulted::<L, I, S, X, F>(
                parser.2,
                parser.1,
                parser.3,
                state,
                dest,
                chunk,
            ),
        forall|
            state: LengthFallbackParserState<
                <DefaultInterp as InterpParser<L>>::State,
                Option<<DefaultInterp as InterpParser<L>>::Returning>,
                S::State,
            >,
        | #[trigger]
            InterpParser::<LengthFallback<L, I>>::left_by_completion(&parser, state) == (state is Done),
        forall|param: X, dest: Option<(Option<S::Returning>, X)>| #[trigger]
            DynInterpParser::<LengthFallback<L, I>>::spec_init_param(&parser, param, dest) == (
                LengthFallbackParserState::<
                    <DefaultInterp as InterpParser<L>>::State,
                    Option<<DefaultInterp as InterpParser<L>>::Returning>,
                    S::State,
                >::Length(<DefaultInterp as InterpParser<L>>::spec_init(&DefaultInterp), None),
                Some((None::<S::Returning>, param)),
            ),
{
}

} // verus!
