use core::marker::PhantomData;
use ledger_parser_combinators::array::ForwardArrayParserState;
use ledger_parser_combinators::bind::{BindState, DynBindState};
use ledger_parser_combinators::buffer::BoundedVec;
use ledger_parser_combinators::core_parsers::{
    Array, Byte, DArray, LengthFallback, U16, U32, U64,
};
use ledger_parser_combinators::darray::ForwardDArrayParserState;
use ledger_parser_combinators::interp::{
    Action, Bind, ContextAction, DefaultInterp, DropInterp, DynBind, LengthLimited, MoveAction,
    ObserveBytes, ObserveLengthedBytes, SubInterp,
};
use ledger_parser_combinators::interp_parser::{DynInterpParser, InterpParser, OOB};
use ledger_parser_combinators::length_fallback::LengthFallbackParserState;
use ledger_parser_combinators::length_limited::LengthLimitedState;
use ledger_parser_combinators::pair::PairState;

const NONE: [u8; 0] = [];

fn items<T: Copy, const N: usize>(buffer: &BoundedVec<T, N>) -> Vec<T> {
    let mut out = Vec::new();
    for i in 0..buffer.len() {
        out.push(*buffer.get(i));
    }
    out
}

fn collect(mut seen: Vec<u8>, bytes: &[u8]) -> Vec<u8> {
    seen.extend_from_slice(bytes);
    seen
}

#[test]
fn byte_discard_consumes_one_byte() {
    let mut state = <DropInterp as InterpParser<Byte>>::init(&DropInterp);
    let mut destination: Option<()> = None;
    let waiting =
        <DropInterp as InterpParser<Byte>>::parse(&DropInterp, &mut state, &NONE, &mut destination);
    assert_eq!(waiting, Err((None, &NONE[..])));
    assert_eq!(destination, None);
    let input = [9_u8, 8, 7];
    let result =
        <DropInterp as InterpParser<Byte>>::parse(&DropInterp, &mut state, &input, &mut destination);
    assert_eq!(result, Ok(&input[1..]));
    assert_eq!(destination, Some(()));
}

#[test]
fn u16_in_both_byte_orders() {
    let input = [0x34_u8, 0x12, 0xee];
    let mut state = <DefaultInterp as InterpParser<U16<false>>>::init(&DefaultInterp);
    let mut destination: Option<u16> = None;
    let result = <DefaultInterp as InterpParser<U16<false>>>::parse(
        &DefaultInterp,
        &mut state,
        &input,
        &mut destination,
    );
    assert_eq!(result, Ok(&input[2..]));
    assert_eq!(destination, Some(0x1234));

    let mut state = <DefaultInterp as InterpParser<U16<true>>>::init(&DefaultInterp);
    let mut destination: Option<u16> = None;
    let result = <DefaultInterp as InterpParser<U16<true>>>::parse(
        &DefaultInterp,
        &mut state,
        &input,
        &mut destination,
    );
    assert_eq!(result, Ok(&input[2..]));
    assert_eq!(destination, Some(0x3412));
}

#[test]
fn u32_in_both_byte_orders() {
    let input = [0x78_u8, 0x56, 0x34, 0x12];
    let mut state = <DefaultInterp as InterpParser<U32<false>>>::init(&DefaultInterp);
    let mut destination: Option<u32> = None;
    let result = <DefaultInterp as InterpParser<U32<false>>>::parse(
        &DefaultInterp,
        &mut state,
        &input,
        &mut destination,
    );
    assert_eq!(result, Ok(&NONE[..]));
    assert_eq!(destination, Some(0x1234_5678));

    let mut state = <DefaultInterp as InterpParser<U32<true>>>::init(&DefaultInterp);
    let mut destination: Option<u32> = None;
    let result = <DefaultInterp as InterpParser<U32<true>>>::parse(
        &DefaultInterp,
        &mut state,
        &input,
        &mut destination,
    );
    assert_eq!(result, Ok(&NONE[..]));
    assert_eq!(destination, Some(0x7856_3412));
}

#[test]
fn u64_in_both_byte_orders_across_chunks() {
    let mut state = <DefaultInterp as InterpParser<U64<false>>>::init(&DefaultInterp);
    let mut destination: Option<u64> = None;
    let first = <DefaultInterp as InterpParser<U64<false>>>::parse(
        &DefaultInterp,
        &mut state,
        &[0x08, 0x07, 0x06],
        &mut destination,
    );
    assert_eq!(first, Err((None, &NONE[..])));
    assert_eq!(destination, None);
    let second = <DefaultInterp as InterpParser<U64<false>>>::parse(
        &DefaultInterp,
        &mut state,
        &[0x05, 0x04, 0x03, 0x02, 0x01, 0xaa],
        &mut destination,
    );
    assert_eq!(second, Ok(&[0xaa_u8][..]));
    assert_eq!(destination, Some(0x0102_0304_0506_0708));

    let mut state = <DefaultInterp as InterpParser<U64<true>>>::init(&DefaultInterp);
    let mut destination: Option<u64> = None;
    let result = <DefaultInterp as InterpParser<U64<true>>>::parse(
        &DefaultInterp,
        &mut state,
        &[0x08, 0x07, 0x06, 0x05, 0x04, 0x03, 0x02, 0x01],
        &mut destination,
    );
    assert_eq!(result, Ok(&NONE[..]));
    assert_eq!(destination, Some(0x0807_0605_0403_0201));
}

#[test]
fn dropped_numbers_consume_their_width() {
    let input = [1_u8, 2, 3, 4, 5, 6, 7, 8, 9];
    let mut state = <DropInterp as InterpParser<U16<true>>>::init(&DropInterp);
    let mut destination: Option<()> = None;
    let result = <DropInterp as InterpParser<U16<true>>>::parse(
        &DropInterp,
        &mut state,
        &input,
        &mut destination,
    );
    assert_eq!(result, Ok(&input[2..]));
    assert_eq!(destination, Some(()));

    let mut state = <DropInterp as InterpParser<U32<false>>>::init(&DropInterp);
    let mut destination: Option<()> = None;
    let result = <DropInterp as InterpParser<U32<false>>>::parse(
        &DropInterp,
        &mut state,
        &input,
        &mut destination,
    );
    assert_eq!(result, Ok(&input[4..]));

    let mut state = <DropInterp as InterpParser<U64<false>>>::init(&DropInterp);
    let mut destination: Option<()> = None;
    let result = <DropInterp as InterpParser<U64<false>>>::parse(
        &DropInterp,
        &mut state,
        &input,
        &mut destination,
    );
    assert_eq!(result, Ok(&input[8..]));
    assert_eq!(destination, Some(()));
}

#[test]
fn default_interp_captures_arrays() {
    let mut state = <DefaultInterp as InterpParser<Array<Byte, 5>>>::init(&DefaultInterp);
    let mut destination: Option<[u8; 5]> = None;
    let first = <DefaultInterp as InterpParser<Array<Byte, 5>>>::parse(
        &DefaultInterp,
        &mut state,
        b"foo",
        &mut destination,
    );
    assert_eq!(first, Err((None, &NONE[..])));
    let second = <DefaultInterp as InterpParser<Array<Byte, 5>>>::parse(
        &DefaultInterp,
        &mut state,
        b"ba",
        &mut destination,
    );
    assert_eq!(second, Ok(&NONE[..]));
    assert_eq!(destination, Some(*b"fooba"));
}

#[test]
fn empty_array_completes_without_input() {
    let parser = SubInterp(DefaultInterp);
    let mut state = <SubInterp<DefaultInterp> as InterpParser<Array<Byte, 0>>>::init(&parser);
    let mut destination: Option<[u8; 0]> = None;
    let input = [5_u8];
    let result = <SubInterp<DefaultInterp> as InterpParser<Array<Byte, 0>>>::parse(
        &parser,
        &mut state,
        &input,
        &mut destination,
    );
    assert_eq!(result, Ok(&input[..]));
    assert_eq!(destination, Some([]));
}

#[test]
fn array_of_numbers() {
    let parser = SubInterp(DefaultInterp);
    let mut state =
        <SubInterp<DefaultInterp> as InterpParser<Array<U16<true>, 2>>>::init(&parser);
    let mut destination: Option<[u16; 2]> = None;
    let input = [0x00_u8, 0x01, 0x02, 0x03, 0x04];
    let result = <SubInterp<DefaultInterp> as InterpParser<Array<U16<true>, 2>>>::parse(
        &parser,
        &mut state,
        &input,
        &mut destination,
    );
    assert_eq!(result, Ok(&input[4..]));
    assert_eq!(destination, Some([0x0001, 0x0203]));
}

#[test]
fn array_state_holds_progress() {
    let parser = SubInterp(DefaultInterp);
    let mut state: ForwardArrayParserState<u8, _, 3> =
        <SubInterp<DefaultInterp> as InterpParser<Array<Byte, 3>>>::init(&parser);
    let mut destination: Option<[u8; 3]> = None;
    let _ = <SubInterp<DefaultInterp> as InterpParser<Array<Byte, 3>>>::parse(
        &parser,
        &mut state,
        &[4, 5],
        &mut destination,
    );
    assert_eq!(items(&state.buffer), vec![4, 5]);
    assert_eq!(state.subparser_destination, None);
}

#[test]
fn array_rejects_when_an_element_rejects() {
    let parser = SubInterp(Action(DefaultInterp, |x: &u8| if *x < 10 { Some(*x) } else { None }));
    let mut state = InterpParser::<Array<Byte, 3>>::init(&parser);
    let mut destination: Option<[u8; 3]> = None;
    let input = [1_u8, 20, 3];
    let result = InterpParser::<Array<Byte, 3>>::parse(&parser, &mut state, &input, &mut destination);
    assert_eq!(result, Err((Some(OOB::Reject), &input[2..])));
    assert_eq!(destination, None);
}

#[test]
fn length_prefixed_array_of_zero_elements() {
    let parser = SubInterp(DefaultInterp);
    let mut state =
        <SubInterp<DefaultInterp> as InterpParser<DArray<Byte, Byte, 5>>>::init(&parser);
    let mut destination: Option<BoundedVec<u8, 5>> = None;
    let input = [0_u8, 1];
    let result = <SubInterp<DefaultInterp> as InterpParser<DArray<Byte, Byte, 5>>>::parse(
        &parser,
        &mut state,
        &input,
        &mut destination,
    );
    assert_eq!(result, Ok(&input[1..]));
    assert!(destination.unwrap().is_empty());
    assert!(matches!(state, ForwardDArrayParserState::Done));
}

#[test]
fn length_prefixed_array_at_full_capacity_across_chunks() {
    let parser = SubInterp(DefaultInterp);
    let mut state =
        <SubInterp<DefaultInterp> as InterpParser<DArray<Byte, Byte, 5>>>::init(&parser);
    let mut destination: Option<BoundedVec<u8, 5>> = None;
    let first = <SubInterp<DefaultInterp> as InterpParser<DArray<Byte, Byte, 5>>>::parse(
        &parser,
        &mut state,
        b"\x05ab",
        &mut destination,
    );
    assert_eq!(first, Err((None, &NONE[..])));
    assert!(matches!(state, ForwardDArrayParserState::Elements(_, 5, _, _)));
    let second = <SubInterp<DefaultInterp> as InterpParser<DArray<Byte, Byte, 5>>>::parse(
        &parser,
        &mut state,
        b"cde!",
        &mut destination,
    );
    assert_eq!(second, Ok(&b"!"[..]));
    assert_eq!(items(destination.as_ref().unwrap()), b"abcde".to_vec());
}

#[test]
fn length_prefixed_array_rejects_after_completion() {
    let parser = SubInterp(DefaultInterp);
    let mut state =
        <SubInterp<DefaultInterp> as InterpParser<DArray<Byte, Byte, 5>>>::init(&parser);
    let mut destination: Option<BoundedVec<u8, 5>> = None;
    let _ = <SubInterp<DefaultInterp> as InterpParser<DArray<Byte, Byte, 5>>>::parse(
        &parser,
        &mut state,
        &[1, 7],
        &mut destination,
    );
    let input = [1_u8, 7];
    let again = <SubInterp<DefaultInterp> as InterpParser<DArray<Byte, Byte, 5>>>::parse(
        &parser,
        &mut state,
        &input,
        &mut destination,
    );
    assert_eq!(again, Err((Some(OOB::Reject), &input[..])));
}

#[test]
fn length_prefixed_array_with_wide_length_and_mapped_elements() {
    let parser = SubInterp(Action(DefaultInterp, |_: &u8| Some(())));
    let mut state = InterpParser::<DArray<U16<true>, Byte, 5>>::init(&parser);
    let mut destination: Option<BoundedVec<(), 5>> = None;
    let input = [0_u8, 3, b'a', b'b', b'c', b'd'];
    let result = InterpParser::<DArray<U16<true>, Byte, 5>>::parse(
        &parser,
        &mut state,
        &input,
        &mut destination,
    );
    assert_eq!(result, Ok(&input[5..]));
    assert_eq!(items(destination.as_ref().unwrap()), vec![(), (), ()]);
}

#[test]
fn length_prefixed_array_rejects_a_wide_length_over_capacity() {
    let parser = SubInterp(DefaultInterp);
    let mut state =
        <SubInterp<DefaultInterp> as InterpParser<DArray<U32<false>, Byte, 3>>>::init(&parser);
    let mut destination: Option<BoundedVec<u8, 3>> = None;
    let input = [4_u8, 0, 0, 0, 1, 2, 3, 4];
    let result = <SubInterp<DefaultInterp> as InterpParser<DArray<U32<false>, Byte, 3>>>::parse(
        &parser,
        &mut state,
        &input,
        &mut destination,
    );
    assert_eq!(result, Err((Some(OOB::Reject), &input[4..])));
}

#[test]
fn action_maps_and_rejects() {
    let parser = Action(DefaultInterp, |x: &u8| if *x == 0 { None } else { Some(u16::from(*x) * 2) });
    let mut state = InterpParser::<Byte>::init(&parser);
    let mut destination: Option<u16> = None;
    let input = [200_u8, 1];
    let result = InterpParser::<Byte>::parse(&parser, &mut state, &input, &mut destination);
    assert_eq!(result, Ok(&input[1..]));
    assert_eq!(destination, Some(400));
    assert_eq!(state.1, Some(200));

    let mut state = InterpParser::<Byte>::init(&parser);
    let mut destination: Option<u16> = None;
    let input = [0_u8, 1];
    let result = InterpParser::<Byte>::parse(&parser, &mut state, &input, &mut destination);
    assert_eq!(result, Err((Some(OOB::Reject), &input[1..])));
    assert_eq!(destination, None);
}

#[test]
fn action_waits_for_its_parser() {
    let parser = Action(DefaultInterp, |x: &u16| Some(*x));
    let mut state = InterpParser::<U16<true>>::init(&parser);
    let mut destination: Option<u16> = None;
    let first = InterpParser::<U16<true>>::parse(&parser, &mut state, &[1], &mut destination);
    assert_eq!(first, Err((None, &NONE[..])));
    assert_eq!(destination, None);
    let second = InterpParser::<U16<true>>::parse(&parser, &mut state, &[2], &mut destination);
    assert_eq!(second, Ok(&NONE[..]));
    assert_eq!(destination, Some(0x0102));
}

#[test]
fn move_action_takes_the_result() {
    let parser = MoveAction(SubInterp(DefaultInterp), |bytes: [u8; 2]| Some(bytes.to_vec()));
    let mut state = InterpParser::<Array<Byte, 2>>::init(&parser);
    let mut destination: Option<Vec<u8>> = None;
    let input = [5_u8, 6, 7];
    let result = InterpParser::<Array<Byte, 2>>::parse(&parser, &mut state, &input, &mut destination);
    assert_eq!(result, Ok(&input[2..]));
    assert_eq!(destination, Some(vec![5, 6]));
    assert_eq!(state.1, None);

    let rejecting = MoveAction(DefaultInterp, |_: u8| None::<u8>);
    let mut state = InterpParser::<Byte>::init(&rejecting);
    let mut destination: Option<u8> = None;
    let result = InterpParser::<Byte>::parse(&rejecting, &mut state, &input, &mut destination);
    assert_eq!(result, Err((Some(OOB::Reject), &input[1..])));
}

#[test]
fn context_action_uses_its_seed() {
    let parser = ContextAction(DefaultInterp, |x: &u8, base: u32| Some(base + u32::from(*x)), PhantomData);
    let mut state = InterpParser::<Byte>::init(&parser);
    let mut destination: Option<u32> = Some(77);
    DynInterpParser::<Byte>::init_param(&parser, 1000, &mut state, &mut destination);
    assert_eq!(destination, Some(77));
    assert_eq!(state.2, Some(1000));
    let input = [5_u8];
    let result = InterpParser::<Byte>::parse(&parser, &mut state, &input, &mut destination);
    assert_eq!(result, Ok(&NONE[..]));
    assert_eq!(destination, Some(1005));
}

#[test]
fn context_action_without_a_seed_rejects() {
    let parser = ContextAction(DefaultInterp, |x: &u8, base: u32| Some(base + u32::from(*x)), PhantomData);
    let mut state = InterpParser::<Byte>::init(&parser);
    let mut destination: Option<u32> = None;
    let input = [5_u8, 6];
    let result = InterpParser::<Byte>::parse(&parser, &mut state, &input, &mut destination);
    assert_eq!(result, Err((Some(OOB::Reject), &input[1..])));
}

#[test]
fn action_passes_a_seed_to_its_parser() {
    let inner = ContextAction(DefaultInterp, |x: &u8, base: u8| Some(base + *x), PhantomData);
    let parser = Action(inner, |x: &u8| Some(u16::from(*x) + 1));
    let mut state = InterpParser::<Byte>::init(&parser);
    let mut destination: Option<u16> = None;
    DynInterpParser::<Byte>::init_param(&parser, 100, &mut state, &mut destination);
    let result = InterpParser::<Byte>::parse(&parser, &mut state, &[7], &mut destination);
    assert_eq!(result, Ok(&NONE[..]));
    assert_eq!(destination, Some(108));

    let inner = ContextAction(DefaultInterp, |x: &u8, base: u8| Some(base + *x), PhantomData);
    let moving = MoveAction(inner, |x: u8| Some(u16::from(x) + 2));
    let mut state = InterpParser::<Byte>::init(&moving);
    let mut destination: Option<u16> = None;
    DynInterpParser::<Byte>::init_param(&moving, 100, &mut state, &mut destination);
    let result = InterpParser::<Byte>::parse(&moving, &mut state, &[7], &mut destination);
    assert_eq!(result, Ok(&NONE[..]));
    assert_eq!(destination, Some(109));
}

#[test]
fn bind_builds_the_second_parser_from_the_first_result() {
    let parser = Bind(
        DefaultInterp,
        |tag: &u8| {
            let tag = *tag;
            if tag == 0 {
                None
            } else {
                Some(Action(DefaultInterp, move |x: &u8| Some(u16::from(*x) + u16::from(tag))))
            }
        },
        PhantomData,
    );
    let mut state = InterpParser::<(Byte, Byte)>::init(&parser);
    let mut destination: Option<u16> = None;
    let input = [10_u8, 5, 99];
    let result = InterpParser::<(Byte, Byte)>::parse(&parser, &mut state, &input, &mut destination);
    assert_eq!(result, Ok(&input[2..]));
    assert_eq!(destination, Some(15));

    let mut state = InterpParser::<(Byte, Byte)>::init(&parser);
    let mut destination: Option<u16> = None;
    let first = InterpParser::<(Byte, Byte)>::parse(&parser, &mut state, &[200], &mut destination);
    assert_eq!(first, Err((None, &NONE[..])));
    assert!(matches!(state, BindState::BindSecond(_, _)));
    let second = InterpParser::<(Byte, Byte)>::parse(&parser, &mut state, &[255], &mut destination);
    assert_eq!(second, Ok(&NONE[..]));
    assert_eq!(destination, Some(455));

    let mut state = InterpParser::<(Byte, Byte)>::init(&parser);
    let mut destination: Option<u16> = None;
    let input = [0_u8, 5];
    let result = InterpParser::<(Byte, Byte)>::parse(&parser, &mut state, &input, &mut destination);
    assert_eq!(result, Err((Some(OOB::Reject), &input[1..])));
}

#[test]
fn dyn_bind_seeds_the_second_parser() {
    let second = ContextAction(DefaultInterp, |x: &u8, first: u8| Some((first, *x)), PhantomData);
    let parser = DynBind(DefaultInterp, second);
    let mut state = InterpParser::<(Byte, Byte)>::init(&parser);
    let mut destination: Option<(u8, u8)> = None;
    let first = InterpParser::<(Byte, Byte)>::parse(&parser, &mut state, &[3], &mut destination);
    assert_eq!(first, Err((None, &NONE[..])));
    assert!(matches!(state, DynBindState::BindSecond(_)));
    let input = [4_u8, 5];
    let result = InterpParser::<(Byte, Byte)>::parse(&parser, &mut state, &input, &mut destination);
    assert_eq!(result, Ok(&input[1..]));
    assert_eq!(destination, Some((3, 4)));
}

#[test]
fn dyn_bind_passes_a_seed_to_its_first_parser() {
    let first = ContextAction(DefaultInterp, |x: &u8, seed: u8| Some(seed + *x), PhantomData);
    let second = ContextAction(DefaultInterp, |x: &u8, first: u8| Some((first, *x)), PhantomData);
    let parser = DynBind(first, second);
    let mut state = InterpParser::<(Byte, Byte)>::init(&parser);
    let mut destination: Option<(u8, u8)> = None;
    DynInterpParser::<(Byte, Byte)>::init_param(&parser, 50, &mut state, &mut destination);
    assert!(matches!(state, DynBindState::BindFirst(_, None)));
    let input = [1_u8, 2];
    let result = InterpParser::<(Byte, Byte)>::parse(&parser, &mut state, &input, &mut destination);
    assert_eq!(result, Ok(&NONE[..]));
    assert_eq!(destination, Some((51, 2)));
}

#[test]
fn pair_returns_both_results() {
    let parser = (DefaultInterp, DefaultInterp);
    let mut state = InterpParser::<(Byte, U16<true>)>::init(&parser);
    assert!(matches!(state, PairState::Init));
    let mut destination: Option<(Option<u8>, Option<u16>)> = None;
    let first = InterpParser::<(Byte, U16<true>)>::parse(&parser, &mut state, &[7, 0x12], &mut destination);
    assert_eq!(first, Err((None, &NONE[..])));
    assert_eq!(destination, Some((Some(7), None)));
    assert!(matches!(state, PairState::Second(_)));
    let input = [0x34_u8, 0xff];
    let second = InterpParser::<(Byte, U16<true>)>::parse(&parser, &mut state, &input, &mut destination);
    assert_eq!(second, Ok(&input[1..]));
    assert_eq!(destination, Some((Some(7), Some(0x1234))));
}

#[test]
fn pair_seeds_its_destination_before_any_input() {
    let parser = (DefaultInterp, DefaultInterp);
    let mut state = InterpParser::<(Byte, Byte)>::init(&parser);
    let mut destination: Option<(Option<u8>, Option<u8>)> = None;
    let waiting = InterpParser::<(Byte, Byte)>::parse(&parser, &mut state, &NONE, &mut destination);
    assert_eq!(waiting, Err((None, &NONE[..])));
    assert_eq!(destination, Some((None, None)));
    assert!(matches!(state, PairState::First(_)));
}

#[test]
fn pair_rejects_without_a_destination_after_it_started() {
    let parser = (DefaultInterp, DefaultInterp);
    let mut state = InterpParser::<(Byte, Byte)>::init(&parser);
    let mut destination: Option<(Option<u8>, Option<u8>)> = None;
    let _ = InterpParser::<(Byte, Byte)>::parse(&parser, &mut state, &NONE, &mut destination);
    destination = None;
    let input = [1_u8, 2];
    let result = InterpParser::<(Byte, Byte)>::parse(&parser, &mut state, &input, &mut destination);
    assert_eq!(result, Err((Some(OOB::Reject), &input[..])));
}

#[test]
fn length_limited_accepts_an_exact_fit() {
    let parser = LengthLimited { bytes_limit: 2, subparser: SubInterp(DefaultInterp) };
    let mut state: LengthLimitedState<_> = InterpParser::<Array<Byte, 2>>::init(&parser);
    assert_eq!(state.bytes_seen, 0);
    let mut destination: Option<[u8; 2]> = None;
    let input = [1_u8, 2, 3];
    let result = InterpParser::<Array<Byte, 2>>::parse(&parser, &mut state, &input, &mut destination);
    assert_eq!(result, Ok(&input[2..]));
    assert_eq!(destination, Some([1, 2]));
}

#[test]
fn length_limited_accepts_an_exact_fit_across_chunks() {
    let parser = LengthLimited { bytes_limit: 2, subparser: SubInterp(DefaultInterp) };
    let mut state = InterpParser::<Array<Byte, 2>>::init(&parser);
    let mut destination: Option<[u8; 2]> = None;
    let first = InterpParser::<Array<Byte, 2>>::parse(&parser, &mut state, &[1], &mut destination);
    assert_eq!(first, Err((None, &NONE[..])));
    assert_eq!(state.bytes_seen, 1);
    let input = [2_u8, 9];
    let second = InterpParser::<Array<Byte, 2>>::parse(&parser, &mut state, &input, &mut destination);
    assert_eq!(second, Ok(&input[1..]));
    assert_eq!(destination, Some([1, 2]));
}

#[test]
fn length_limited_rejects_a_parser_that_stops_short() {
    let parser = LengthLimited { bytes_limit: 3, subparser: SubInterp(DefaultInterp) };
    let mut state = InterpParser::<Array<Byte, 2>>::init(&parser);
    let mut destination: Option<[u8; 2]> = None;
    let input = [1_u8, 2, 3, 4];
    let result = InterpParser::<Array<Byte, 2>>::parse(&parser, &mut state, &input, &mut destination);
    assert_eq!(result, Err((Some(OOB::Reject), &input[2..3])));
}

#[test]
fn length_limited_rejects_a_parser_that_completes_before_the_budget_is_used() {
    let parser = LengthLimited { bytes_limit: 3, subparser: SubInterp(DefaultInterp) };
    let mut state = InterpParser::<Array<Byte, 2>>::init(&parser);
    let mut destination: Option<[u8; 2]> = None;
    let result = InterpParser::<Array<Byte, 2>>::parse(&parser, &mut state, &[1, 2], &mut destination);
    assert_eq!(result, Err((Some(OOB::Reject), &NONE[..])));
}

#[test]
fn length_limited_rejects_a_parser_that_wants_more_than_the_budget() {
    let parser = LengthLimited { bytes_limit: 1, subparser: SubInterp(DefaultInterp) };
    let mut state = InterpParser::<Array<Byte, 2>>::init(&parser);
    let mut destination: Option<[u8; 2]> = None;
    let result = InterpParser::<Array<Byte, 2>>::parse(&parser, &mut state, &[1, 2], &mut destination);
    assert_eq!(result, Err((Some(OOB::Reject), &NONE[..])));
    assert_eq!(destination, None);
}

#[test]
fn length_limited_with_an_empty_budget() {
    let parser = LengthLimited { bytes_limit: 0, subparser: SubInterp(DefaultInterp) };
    let mut state = InterpParser::<Array<Byte, 0>>::init(&parser);
    let mut destination: Option<[u8; 0]> = None;
    let input = [1_u8];
    let result = InterpParser::<Array<Byte, 0>>::parse(&parser, &mut state, &input, &mut destination);
    assert_eq!(result, Ok(&input[..]));

    let wanting = LengthLimited { bytes_limit: 0, subparser: DefaultInterp };
    let mut state = InterpParser::<Byte>::init(&wanting);
    let mut destination: Option<u8> = None;
    let result = InterpParser::<Byte>::parse(&wanting, &mut state, &input, &mut destination);
    assert_eq!(result, Err((Some(OOB::Reject), &NONE[..])));
}

#[test]
fn observer_counts_every_consumed_byte() {
    let parser = ObserveBytes(
        || 0_usize,
        |count: usize, bytes: &[u8]| count + bytes.len(),
        SubInterp(DefaultInterp),
        PhantomData,
    );
    let mut state = InterpParser::<Array<Byte, 3>>::init(&parser);
    assert!(state.is_none());
    let mut destination = None;
    let first = InterpParser::<Array<Byte, 3>>::parse(&parser, &mut state, &[1], &mut destination);
    assert_eq!(first, Err((None, &NONE[..])));
    assert_eq!(destination, Some((1, None)));
    let input = [2_u8, 3, 9];
    let second = InterpParser::<Array<Byte, 3>>::parse(&parser, &mut state, &input, &mut destination);
    assert_eq!(second, Ok(&input[2..]));
    assert_eq!(destination, Some((3, Some([1, 2, 3]))));
}

#[test]
fn observer_over_a_length_prefixed_array() {
    let parser = ObserveBytes(
        || 0_usize,
        |count: usize, bytes: &[u8]| count + bytes.len(),
        SubInterp(Action(DefaultInterp, |_: &u8| Some(()))),
        PhantomData,
    );
    let mut state = InterpParser::<DArray<Byte, Byte, 5>>::init(&parser);
    let mut destination = None;
    let result = InterpParser::<DArray<Byte, Byte, 5>>::parse(&parser, &mut state, b"\x05abcde", &mut destination);
    assert_eq!(result, Ok(&NONE[..]));
    let (count, units) = destination.unwrap();
    assert_eq!(count, 6);
    assert_eq!(items(&units.unwrap()), vec![(); 5]);
}

#[test]
fn observer_seeded_with_an_accumulator() {
    let parser = ObserveBytes(|| Vec::<u8>::new(), collect, DefaultInterp, PhantomData);
    let mut state = InterpParser::<U16<true>>::init(&parser);
    let mut destination = None;
    DynInterpParser::<U16<true>>::init_param(&parser, vec![0xaa], &mut state, &mut destination);
    assert!(state.is_some());
    assert_eq!(destination, Some((vec![0xaa], None)));
    let input = [1_u8, 2, 3];
    let result = InterpParser::<U16<true>>::parse(&parser, &mut state, &input, &mut destination);
    assert_eq!(result, Ok(&input[2..]));
    assert_eq!(destination, Some((vec![0xaa, 1, 2], Some(0x0102))));
}

#[test]
fn observer_rejects_without_a_destination_after_it_started() {
    let parser = ObserveBytes(|| Vec::<u8>::new(), collect, DefaultInterp, PhantomData);
    let mut state = InterpParser::<U16<true>>::init(&parser);
    let mut destination = None;
    let _ = InterpParser::<U16<true>>::parse(&parser, &mut state, &[1], &mut destination);
    destination = None;
    let input = [2_u8];
    let result = InterpParser::<U16<true>>::parse(&parser, &mut state, &input, &mut destination);
    assert_eq!(result, Err((Some(OOB::Reject), &input[..])));
}

#[test]
fn fallback_returns_the_result_of_a_field_that_fits() {
    type Schema = LengthFallback<Byte, Array<Byte, 5>>;
    let parser = ObserveLengthedBytes(|| Vec::<u8>::new(), collect, SubInterp(DefaultInterp), false, PhantomData);
    let mut state = InterpParser::<Schema>::init(&parser);
    let mut destination = None;
    DynInterpParser::<Schema>::init_param(&parser, Vec::new(), &mut state, &mut destination);
    let result = InterpParser::<Schema>::parse(&parser, &mut state, b"\x05fooba!", &mut destination);
    assert_eq!(result, Ok(&b"!"[..]));
    assert_eq!(destination, Some((Some(*b"fooba"), b"fooba".to_vec())));
}

#[test]
fn fallback_with_a_wide_length() {
    type Schema = LengthFallback<U32<false>, Array<Byte, 5>>;
    let parser = ObserveLengthedBytes(|| Vec::<u8>::new(), collect, SubInterp(DefaultInterp), false, PhantomData);
    let mut state = InterpParser::<Schema>::init(&parser);
    let mut destination = None;
    DynInterpParser::<Schema>::init_param(&parser, Vec::new(), &mut state, &mut destination);
    let result = InterpParser::<Schema>::parse(&parser, &mut state, b"\x05\x00\x00\x00fooba", &mut destination);
    assert_eq!(result, Ok(&NONE[..]));
    assert_eq!(destination, Some((Some(*b"fooba"), b"fooba".to_vec())));
}

#[test]
fn fallback_skips_what_a_short_structure_leaves() {
    type Schema = LengthFallback<U32<false>, Array<Byte, 5>>;
    let parser = ObserveLengthedBytes(|| Vec::<u8>::new(), collect, SubInterp(DefaultInterp), false, PhantomData);
    let mut state = InterpParser::<Schema>::init(&parser);
    let mut destination = None;
    DynInterpParser::<Schema>::init_param(&parser, Vec::new(), &mut state, &mut destination);
    let result = InterpParser::<Schema>::parse(&parser, &mut state, b"\x07\x00\x00\x00foobarb!?", &mut destination);
    assert_eq!(result, Ok(&b"!?"[..]));
    assert_eq!(destination, Some((None, b"foobarb".to_vec())));
    assert!(matches!(state, LengthFallbackParserState::Done));
}

#[test]
fn fallback_completes_when_the_declared_bytes_end_too_early() {
    type Schema = LengthFallback<U32<false>, Array<Byte, 5>>;
    let parser = ObserveLengthedBytes(|| Vec::<u8>::new(), collect, SubInterp(DefaultInterp), false, PhantomData);
    let mut state = InterpParser::<Schema>::init(&parser);
    let mut destination = None;
    DynInterpParser::<Schema>::init_param(&parser, Vec::new(), &mut state, &mut destination);
    let result = InterpParser::<Schema>::parse(&parser, &mut state, b"\x04\x00\x00\x00foob!", &mut destination);
    assert_eq!(result, Ok(&b"!"[..]));
    assert_eq!(destination, Some((None, b"foob".to_vec())));
}

#[test]
fn fallback_skips_across_chunks() {
    type Schema = LengthFallback<Byte, Byte>;
    let parser = ObserveLengthedBytes(
        || Vec::<u8>::new(),
        collect,
        Action(DefaultInterp, |_: &u8| None::<u8>),
        false,
        PhantomData,
    );
    let mut state = InterpParser::<Schema>::init(&parser);
    let mut destination = None;
    DynInterpParser::<Schema>::init_param(&parser, Vec::new(), &mut state, &mut destination);
    let first = InterpParser::<Schema>::parse(&parser, &mut state, &[4, 0xaa], &mut destination);
    assert_eq!(first, Err((None, &NONE[..])));
    assert!(matches!(state, LengthFallbackParserState::Failed(1, 4)));
    assert_eq!(destination, Some((None, vec![0xaa])));
    let second = InterpParser::<Schema>::parse(&parser, &mut state, &[0xbb, 0xcc], &mut destination);
    assert_eq!(second, Err((None, &NONE[..])));
    assert!(matches!(state, LengthFallbackParserState::Failed(3, 4)));
    let input = [0xdd_u8, 0xee];
    let third = InterpParser::<Schema>::parse(&parser, &mut state, &input, &mut destination);
    assert_eq!(third, Ok(&input[1..]));
    assert_eq!(destination, Some((None, vec![0xaa, 0xbb, 0xcc, 0xdd])));
    let again = InterpParser::<Schema>::parse(&parser, &mut state, &input, &mut destination);
    assert_eq!(again, Err((Some(OOB::Reject), &input[..])));
}

#[test]
fn fallback_in_strict_mode_rejects_a_failed_field() {
    type Schema = LengthFallback<Byte, Byte>;
    let parser = ObserveLengthedBytes(
        || Vec::<u8>::new(),
        collect,
        Action(DefaultInterp, |_: &u8| None::<u8>),
        true,
        PhantomData,
    );
    let mut state = InterpParser::<Schema>::init(&parser);
    let mut destination = None;
    DynInterpParser::<Schema>::init_param(&parser, Vec::new(), &mut state, &mut destination);
    let input = [2_u8, 0xaa, 0xbb, 0xcc];
    let result = InterpParser::<Schema>::parse(&parser, &mut state, &input, &mut destination);
    assert_eq!(result, Err((Some(OOB::Reject), &input[1..])));
}

#[test]
fn fallback_without_an_accumulator_rejects_after_the_length() {
    type Schema = LengthFallback<Byte, Byte>;
    let parser = ObserveLengthedBytes(|| Vec::<u8>::new(), collect, DefaultInterp, false, PhantomData);
    let mut state = InterpParser::<Schema>::init(&parser);
    let mut destination = None;
    let input = [1_u8, 0xaa];
    let result = InterpParser::<Schema>::parse(&parser, &mut state, &input, &mut destination);
    assert_eq!(result, Err((Some(OOB::Reject), &input[1..])));
    assert_eq!(destination, None);
}

#[test]
fn fallback_field_of_no_bytes() {
    type Schema = LengthFallback<Byte, Array<Byte, 0>>;
    let parser = ObserveLengthedBytes(|| Vec::<u8>::new(), collect, SubInterp(DefaultInterp), false, PhantomData);
    let mut state = InterpParser::<Schema>::init(&parser);
    let mut destination = None;
    DynInterpParser::<Schema>::init_param(&parser, vec![1], &mut state, &mut destination);
    let input = [0_u8, 9];
    let result = InterpParser::<Schema>::parse(&parser, &mut state, &input, &mut destination);
    assert_eq!(result, Ok(&input[1..]));
    assert_eq!(destination, Some((Some([]), vec![1])));
}

#[test]
fn fallback_then_the_next_field_parses_normally() {
    type Field = LengthFallback<Byte, Byte>;
    let field = ObserveLengthedBytes(
        || Vec::<u8>::new(),
        collect,
        Action(DefaultInterp, |_: &u8| None::<u8>),
        false,
        PhantomData,
    );
    let mut state = InterpParser::<Field>::init(&field);
    let mut destination = None;
    DynInterpParser::<Field>::init_param(&field, Vec::new(), &mut state, &mut destination);
    let input = [3_u8, 1, 2, 3, 0x12, 0x34];
    let rest = InterpParser::<Field>::parse(&field, &mut state, &input, &mut destination).unwrap();
    assert_eq!(destination, Some((None, vec![1, 2, 3])));
    let mut next_state = <DefaultInterp as InterpParser<U16<true>>>::init(&DefaultInterp);
    let mut next: Option<u16> = None;
    let result = <DefaultInterp as InterpParser<U16<true>>>::parse(&DefaultInterp, &mut next_state, rest, &mut next);
    assert_eq!(result, Ok(&NONE[..]));
    assert_eq!(next, Some(0x1234));
}
