use core::marker::PhantomData;
use ledger_parser_combinators::buffer::BoundedVec;
use ledger_parser_combinators::core_parsers::{Array, Byte, DArray, LengthFallback, U16, U32};
use ledger_parser_combinators::interp::{
    Action, DefaultInterp, DropInterp, ObserveBytes, ObserveLengthedBytes, SubInterp,
};
use ledger_parser_combinators::interp_parser::{DynInterpParser, InterpParser, OOB};

/// How feeding a sequence of chunks ended.
#[derive(Debug, PartialEq)]
enum Ending {
    /// Completed, with the bytes that were not consumed.
    Done(Vec<u8>),
    /// All chunks consumed, more needed.
    Pending,
    /// Rejected.
    Rejected,
}

fn feed<P, T: InterpParser<P>>(
    parser: &T,
    state: &mut T::State,
    destination: &mut Option<T::Returning>,
    chunks: &[&[u8]],
) -> Ending {
    for (index, chunk) in chunks.iter().enumerate() {
        match parser.parse(state, chunk, destination) {
            Ok(rest) => {
                let mut left = rest.to_vec();
                for later in &chunks[index + 1..] {
                    left.extend_from_slice(later);
                }
                return Ending::Done(left);
            }
            Err((None, rest)) => assert!(rest.is_empty()),
            Err((Some(OOB::Reject), _)) => return Ending::Rejected,
        }
    }
    Ending::Pending
}

/// Every way of cutting `input` into two chunks, the whole, and single bytes.
fn cuttings(input: &[u8]) -> Vec<Vec<&[u8]>> {
    let mut all = vec![vec![input]];
    for cut in 0..=input.len() {
        all.push(vec![&input[..cut], &input[cut..]]);
    }
    all.push(input.chunks(1).collect());
    all
}

fn items<T: Copy, const N: usize>(buffer: &BoundedVec<T, N>) -> Vec<T> {
    let mut out = Vec::new();
    for i in 0..buffer.len() {
        out.push(*buffer.get(i));
    }
    out
}

fn collect(mut seen: Vec<u8>, bytes: &[u8]) -> Vec<u8> {
    seen.extend_from_slice(bytes);
    seen
}

#[test]
fn chunking_does_not_change_a_record() {
    type Record = (U16<true>, DArray<Byte, U16<false>, 4>);
    let parser = (DefaultInterp, SubInterp(DefaultInterp));
    let input = [0x12_u8, 0x34, 2, 0x01, 0x00, 0x02, 0x00, 0xfe, 0xff];
    for chunks in cuttings(&input) {
        let mut state = InterpParser::<Record>::init(&parser);
        let mut destination = None;
        let ending = feed::<Record, _>(&parser, &mut state, &mut destination, &chunks);
        assert_eq!(ending, Ending::Done(vec![0xfe, 0xff]));
        let (number, list) = destination.unwrap();
        assert_eq!(number, Some(0x1234));
        assert_eq!(items(&list.unwrap()), vec![1, 2]);
    }
}

#[test]
fn chunking_does_not_change_a_request_for_more() {
    type Record = (U16<true>, DArray<Byte, U16<false>, 4>);
    let parser = (DefaultInterp, SubInterp(DefaultInterp));
    let input = [0x12_u8, 0x34, 2, 0x01, 0x00, 0x02];
    for chunks in cuttings(&input) {
        let mut state = InterpParser::<Record>::init(&parser);
        let mut destination = None;
        let ending = feed::<Record, _>(&parser, &mut state, &mut destination, &chunks);
        assert_eq!(ending, Ending::Pending);
        assert_eq!(destination.as_ref().unwrap().0, Some(0x1234));
        assert!(destination.as_ref().unwrap().1.is_none());
    }
}

#[test]
fn chunking_does_not_change_a_rejection() {
    type Schema = DArray<Byte, Byte, 2>;
    let parser = SubInterp(DefaultInterp);
    let input = [3_u8, 1, 2, 3];
    for chunks in cuttings(&input) {
        let mut state = InterpParser::<Schema>::init(&parser);
        let mut destination = None;
        let ending = feed::<Schema, _>(&parser, &mut state, &mut destination, &chunks);
        assert_eq!(ending, Ending::Rejected);
    }
}

#[test]
fn fixed_size_schemas_consume_their_size() {
    let input = [0_u8; 40];
    for chunks in cuttings(&input) {
        let parser = SubInterp(DefaultInterp);
        let mut state = InterpParser::<Array<U32<true>, 3>>::init(&parser);
        let mut destination = None;
        let ending =
            feed::<Array<U32<true>, 3>, _>(&parser, &mut state, &mut destination, &chunks);
        assert_eq!(ending, Ending::Done(vec![0; 40 - 12]));

        let dropping = SubInterp(DropInterp);
        let mut state = InterpParser::<Array<Byte, 7>>::init(&dropping);
        let mut destination = None;
        let ending = feed::<Array<Byte, 7>, _>(&dropping, &mut state, &mut destination, &chunks);
        assert_eq!(ending, Ending::Done(vec![0; 40 - 7]));
    }
}

#[test]
fn length_prefixed_schemas_consume_length_field_and_declared_elements() {
    let input = [0_u8, 3, 1, 1, 2, 2, 3, 3, 9, 9, 9];
    for chunks in cuttings(&input) {
        let parser = SubInterp(DefaultInterp);
        let mut state = InterpParser::<DArray<U16<true>, U16<true>, 8>>::init(&parser);
        let mut destination = None;
        let ending = feed::<DArray<U16<true>, U16<true>, 8>, _>(
            &parser,
            &mut state,
            &mut destination,
            &chunks,
        );
        assert_eq!(ending, Ending::Done(vec![9, 9, 9]));
        assert_eq!(items(&destination.unwrap()), vec![0x0101, 0x0202, 0x0303]);
    }
}

#[test]
fn over_capacity_is_rejected_with_every_element_byte_handed_back() {
    let parser = SubInterp(DefaultInterp);
    for declared in 6..=255_u8 {
        let input = [declared, 1, 2, 3, 4, 5, 6, 7];
        let mut state = InterpParser::<DArray<Byte, Byte, 5>>::init(&parser);
        let mut destination: Option<BoundedVec<u8, 5>> = None;
        let result =
            InterpParser::<DArray<Byte, Byte, 5>>::parse(&parser, &mut state, &input, &mut destination);
        assert_eq!(result, Err((Some(OOB::Reject), &input[1..])));
    }
    for declared in 0..=5_u8 {
        let input = [declared, 1, 2, 3, 4, 5, 6, 7];
        let mut state = InterpParser::<DArray<Byte, Byte, 5>>::init(&parser);
        let mut destination: Option<BoundedVec<u8, 5>> = None;
        let result =
            InterpParser::<DArray<Byte, Byte, 5>>::parse(&parser, &mut state, &input, &mut destination);
        assert_eq!(result, Ok(&input[1 + declared as usize..]));
    }
}

#[test]
fn observer_sees_exactly_the_wire_bytes_however_they_are_cut() {
    type Schema = DArray<Byte, U16<true>, 4>;
    let input = [2_u8, 0xa1, 0xa2, 0xb1, 0xb2, 0xcc, 0xdd];
    for chunks in cuttings(&input) {
        let parser =
            ObserveBytes(|| Vec::<u8>::new(), collect, SubInterp(DefaultInterp), PhantomData);
        let mut state = InterpParser::<Schema>::init(&parser);
        let mut destination = None;
        let ending = feed::<Schema, _>(&parser, &mut state, &mut destination, &chunks);
        assert_eq!(ending, Ending::Done(vec![0xcc, 0xdd]));
        let (seen, list) = destination.unwrap();
        assert_eq!(seen, vec![2, 0xa1, 0xa2, 0xb1, 0xb2]);
        assert_eq!(items(&list.unwrap()), vec![0xa1a2, 0xb1b2]);
    }
}

#[test]
fn failed_field_consumes_its_declared_length_however_it_is_cut() {
    type Field = LengthFallback<U16<false>, Array<Byte, 2>>;
    let input = [0x04_u8, 0x00, 0xaa, 0xbb, 0xcc, 0xdd, 0xee];
    for chunks in cuttings(&input) {
        let parser = ObserveLengthedBytes(
            || Vec::<u8>::new(),
            collect,
            SubInterp(Action(DefaultInterp, |x: &u8| if *x == 0xbb { None } else { Some(*x) })),
            false,
            PhantomData,
        );
        let mut state = InterpParser::<Field>::init(&parser);
        let mut destination = None;
        DynInterpParser::<Field>::init_param(&parser, Vec::new(), &mut state, &mut destination);
        let ending = feed::<Field, _>(&parser, &mut state, &mut destination, &chunks);
        assert_eq!(ending, Ending::Done(vec![0xee]));
        assert_eq!(destination, Some((None, vec![0xaa, 0xbb, 0xcc, 0xdd])));
    }
}

#[test]
fn field_that_fits_is_returned_however_it_is_cut() {
    type Field = LengthFallback<Byte, Array<Byte, 3>>;
    let input = [3_u8, 7, 8, 9, 1];
    for chunks in cuttings(&input) {
        let parser = ObserveLengthedBytes(
            || Vec::<u8>::new(),
            collect,
            SubInterp(DefaultInterp),
            false,
            PhantomData,
        );
        let mut state = InterpParser::<Field>::init(&parser);
        let mut destination = None;
        DynInterpParser::<Field>::init_param(&parser, Vec::new(), &mut state, &mut destination);
        let ending = feed::<Field, _>(&parser, &mut state, &mut destination, &chunks);
        assert_eq!(ending, Ending::Done(vec![1]));
        assert_eq!(destination, Some((Some([7, 8, 9]), vec![7, 8, 9])));
    }
}

#[test]
fn empty_chunks_change_nothing() {
    let parser = SubInterp(DefaultInterp);
    let mut state = InterpParser::<Array<Byte, 2>>::init(&parser);
    let mut destination: Option<[u8; 2]> = None;
    let empty: [u8; 0] = [];
    let chunks: [&[u8]; 7] = [&empty, &[1], &empty, &empty, &[2, 3], &empty, &[4]];
    let ending = feed::<Array<Byte, 2>, _>(&parser, &mut state, &mut destination, &chunks);
    assert_eq!(ending, Ending::Done(vec![3, 4]));
    assert_eq!(destination, Some([1, 2]));
}
