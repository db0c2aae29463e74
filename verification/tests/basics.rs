use core::marker::PhantomData;
use ledger_parser_combinators::buffer::BoundedVec;
use ledger_parser_combinators::core_parsers::{Array, Byte, DArray, LengthFallback, U16};
use ledger_parser_combinators::interp::{
    Action, DefaultInterp, ObserveLengthedBytes, SubInterp,
};
use ledger_parser_combinators::interp_parser::{DynInterpParser, InterpParser, OOB};
use ledger_parser_combinators::length_fallback::LengthFallbackParserState;

fn items<T: Copy, const N: usize>(buffer: &BoundedVec<T, N>) -> Vec<T> {
    let mut out = Vec::new();
    for i in 0..buffer.len() {
        out.push(*buffer.get(i));
    }
    out
}

#[test]
fn test_parser() {
    let parser = DefaultInterp;
    let mut state = <DefaultInterp as InterpParser<Byte>>::init(&parser);
    let mut destination: Option<u8> = None;
    let input = [0x2a_u8, 0x07];
    let result = <DefaultInterp as InterpParser<Byte>>::parse(
        &parser,
        &mut state,
        &input,
        &mut destination,
    );
    assert_eq!(result, Ok(&input[1..]));
    assert_eq!(destination, Some(0x2a));
}

#[test]
fn byte_capture_completes_on_one_byte() {
    let parser = DefaultInterp;
    let mut state = <DefaultInterp as InterpParser<Byte>>::init(&parser);
    let mut destination: Option<u8> = None;
    let empty: [u8; 0] = [];
    let waiting = <DefaultInterp as InterpParser<Byte>>::parse(
        &parser,
        &mut state,
        &empty,
        &mut destination,
    );
    assert_eq!(waiting, Err((None, &empty[..])));
    assert_eq!(destination, None);
    let result = <DefaultInterp as InterpParser<Byte>>::parse(
        &parser,
        &mut state,
        &[0x41],
        &mut destination,
    );
    assert_eq!(result, Ok(&empty[..]));
    assert_eq!(destination, Some(0x41));
}

#[test]
fn fixed_array_across_two_chunks() {
    let parser = SubInterp(DefaultInterp);
    let mut state = <SubInterp<DefaultInterp> as InterpParser<Array<Byte, 3>>>::init(&parser);
    let mut destination: Option<[u8; 3]> = None;
    let empty: [u8; 0] = [];
    let first = <SubInterp<DefaultInterp> as InterpParser<Array<Byte, 3>>>::parse(
        &parser,
        &mut state,
        &[0x01],
        &mut destination,
    );
    assert_eq!(first, Err((None, &empty[..])));
    assert_eq!(destination, None);
    let second = <SubInterp<DefaultInterp> as InterpParser<Array<Byte, 3>>>::parse(
        &parser,
        &mut state,
        &[0x02, 0x03, 0xff],
        &mut destination,
    );
    assert_eq!(second, Ok(&[0xff_u8][..]));
    assert_eq!(destination, Some([0x01, 0x02, 0x03]));
}

#[test]
fn length_over_capacity_rejects_before_elements() {
    let parser = SubInterp(DefaultInterp);
    let mut state =
        <SubInterp<DefaultInterp> as InterpParser<DArray<Byte, Byte, 5>>>::init(&parser);
    let mut destination: Option<BoundedVec<u8, 5>> = None;
    let input = [0x06_u8, 0x0a, 0x0b, 0x0c, 0x0d, 0x0e, 0x0f];
    let result = <SubInterp<DefaultInterp> as InterpParser<DArray<Byte, Byte, 5>>>::parse(
        &parser,
        &mut state,
        &input,
        &mut destination,
    );
    assert_eq!(result, Err((Some(OOB::Reject), &input[1..])));
    assert!(destination.is_none());
}

#[test]
fn length_prefixed_array_collects_declared_elements() {
    let parser = SubInterp(DefaultInterp);
    let mut state =
        <SubInterp<DefaultInterp> as InterpParser<DArray<Byte, Byte, 5>>>::init(&parser);
    let mut destination: Option<BoundedVec<u8, 5>> = None;
    let input = [0x03_u8, 0x0a, 0x0b, 0x0c, 0x0d];
    let result = <SubInterp<DefaultInterp> as InterpParser<DArray<Byte, Byte, 5>>>::parse(
        &parser,
        &mut state,
        &input,
        &mut destination,
    );
    assert_eq!(result, Ok(&input[4..]));
    assert_eq!(items(destination.as_ref().unwrap()), vec![0x0a, 0x0b, 0x0c]);
}

#[test]
fn fallback_skips_a_field_that_cannot_be_parsed() {
    type Schema = LengthFallback<U16<false>, Byte>;
    let parser = ObserveLengthedBytes(
        || Vec::<u8>::new(),
        |mut seen: Vec<u8>, bytes: &[u8]| {
            seen.extend_from_slice(bytes);
            seen
        },
        Action(DefaultInterp, |_: &u8| None::<u8>),
        false,
        PhantomData,
    );
    let mut state = InterpParser::<Schema>::init(&parser);
    let mut destination = None;
    DynInterpParser::<Schema>::init_param(&parser, Vec::new(), &mut state, &mut destination);
    let input = [0x04_u8, 0x00, 0xaa, 0xbb, 0xcc, 0xdd, 0xee];
    let result = InterpParser::<Schema>::parse(&parser, &mut state, &input, &mut destination);
    assert_eq!(result, Ok(&input[6..]));
    assert_eq!(input.len() - result.unwrap().len(), 6);
    let (value, seen) = destination.unwrap();
    assert_eq!(value, None);
    assert_eq!(seen, vec![0xaa, 0xbb, 0xcc, 0xdd]);
    assert!(matches!(state, LengthFallbackParserState::Done));
}
