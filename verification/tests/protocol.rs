use core::mem::MaybeUninit;
use ledger_parser_combinators::core_parsers::{Array, Byte};
use ledger_parser_combinators::debug::DBG;
use ledger_parser_combinators::endianness::{u16_from_bytes, u32_from_bytes, u64_from_bytes};
use ledger_parser_combinators::interp::{DefaultInterp, SubInterp};
use ledger_parser_combinators::interp_parser::{
    call_fn, call_fn2, call_me_maybe, call_me_maybe2, init_in_place, init_with_default,
    need_more, rej, reject, set_from_thunk, InterpParser, ParseResult, OOB,
};
use ledger_parser_combinators::length::LengthField;
use ledger_parser_combinators::length_limited::min_len;

#[test]
fn reject_hands_back_the_slice() {
    let chunk = [1_u8, 2];
    let result: Result<u8, _> = reject(&chunk);
    assert_eq!(result, Err((Some(OOB::Reject), &chunk[..])));
    assert_eq!(rej(&chunk[1..]), (Some(OOB::Reject), &chunk[1..]));
}

#[test]
fn need_more_hands_back_the_slice() {
    let chunk = [1_u8, 2];
    let result: ParseResult = need_more(&chunk[2..]);
    assert_eq!(result, Err((None, &chunk[2..])));
}

#[test]
fn init_with_default_fills_the_slot() {
    let mut slot: Option<u32> = None;
    init_with_default(&mut slot);
    assert_eq!(slot, Some(0));
    let mut pair: Option<(Option<u8>, Option<u8>)> = Some((Some(1), None));
    init_with_default(&mut pair);
    assert_eq!(pair, Some((None, None)));
}

#[test]
fn set_from_thunk_overwrites() {
    let mut place = 3_u8;
    set_from_thunk(&mut place, || 9);
    assert_eq!(place, 9);
}

#[test]
fn thunks_are_run_once() {
    assert_eq!(call_me_maybe(|| Some(())), Some(()));
    assert_eq!(call_me_maybe(|| None), None);
    assert_eq!(call_me_maybe2(|| Some(())), Some(()));
    assert_eq!(call_me_maybe2(|| None), None);
    let counter = core::cell::Cell::new(0);
    call_fn(|| counter.set(counter.get() + 1));
    call_fn2(|| counter.set(counter.get() + 10));
    assert_eq!(counter.get(), 11);
}

#[test]
fn init_in_place_fills_the_slot() {
    let parser = SubInterp(DefaultInterp);
    let mut slot = MaybeUninit::uninit();
    let state = init_in_place::<Array<Byte, 2>, _>(&parser, &mut slot);
    assert_eq!(state.buffer.len(), 0);
    let mut destination: Option<[u8; 2]> = None;
    let input = [1_u8, 2, 3];
    let result = InterpParser::<Array<Byte, 2>>::parse(&parser, state, &input, &mut destination);
    assert_eq!(result, Ok(&input[2..]));
    assert_eq!(destination, Some([1, 2]));
}

#[test]
fn min_len_is_the_smaller() {
    assert_eq!(min_len(3, 5), 3);
    assert_eq!(min_len(5, 3), 3);
    assert_eq!(min_len(4, 4), 4);
    assert_eq!(min_len(0, usize::MAX), 0);
}

#[test]
fn byte_order_of_two_bytes() {
    assert_eq!(u16_from_bytes(&[0x12, 0x34], true), 0x1234);
    assert_eq!(u16_from_bytes(&[0x12, 0x34], false), 0x3412);
    assert_eq!(u16_from_bytes(&[0xff, 0xff], true), u16::MAX);
    assert_eq!(u16_from_bytes(&[0, 0], false), 0);
}

#[test]
fn byte_order_of_four_bytes() {
    assert_eq!(u32_from_bytes(&[0x12, 0x34, 0x56, 0x78], true), 0x1234_5678);
    assert_eq!(u32_from_bytes(&[0x12, 0x34, 0x56, 0x78], false), 0x7856_3412);
    assert_eq!(u32_from_bytes(&[0xff; 4], false), u32::MAX);
}

#[test]
fn byte_order_of_eight_bytes() {
    let bytes = [0x01, 0x23, 0x45, 0x67, 0x89, 0xab, 0xcd, 0xef];
    assert_eq!(u64_from_bytes(&bytes, true), 0x0123_4567_89ab_cdef);
    assert_eq!(u64_from_bytes(&bytes, false), 0xefcd_ab89_6745_2301);
    assert_eq!(u64_from_bytes(&[0xff; 8], true), u64::MAX);
    assert_eq!(u64_from_bytes(&bytes, true), u64::from_be_bytes(bytes));
    assert_eq!(u64_from_bytes(&bytes, false), u64::from_le_bytes(bytes));
}

#[test]
fn length_fields_as_counts() {
    assert_eq!(200_u8.length(), Some(200));
    assert_eq!(60_000_u16.length(), Some(60_000));
    assert_eq!(70_000_u32.length(), Some(70_000));
    assert_eq!(5_u64.length(), Some(5));
    assert_eq!(17_usize.length(), Some(17));
    assert_eq!((usize::MAX as u64).length(), Some(usize::MAX));
}

#[test]
fn debug_message_is_buffered() {
    let message = DBG.buffer("We hit a failed state in the parser\n");
    assert_eq!(message.as_str(), "We hit a failed state in the parser\n");
    assert_eq!(DBG.text(&message), "We hit a failed state in the parser\n");
    assert_eq!(message.len(), 36);
}

#[test]
fn debug_message_of_full_capacity() {
    let text = "x".repeat(128);
    let message = DBG.buffer(&text);
    assert_eq!(DBG.text(&message), text);
    assert_eq!(DBG.text(&DBG.buffer("")), "");
}
