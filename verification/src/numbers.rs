//! Fixed-width numbers: a group of bytes, parsed as an array of bytes and
//! then read in the byte order of the schema.
use crate::array::{array_inv, array_steps, lemma_array_pending_dest, ForwardArrayParserState};
use crate::byte::ByteState;
use crate::core_parsers::{Array, Byte, U16, U32, U64};
use crate::endianness::{
    u16_from_bytes, u16_value, u32_from_bytes, u32_value, u64_from_bytes, u64_value,
};
use crate::interp::{DefaultInterp, DropInterp, SubInterp};
use crate::interp_parser::{same_outcome, InterpParser, ParseResult, Step, OOB};
use vstd::prelude::*;

verus! {

/// What a number parser does, given what the byte-array parser inside it
/// does: it asks for more or rejects when the array does, and completes with
/// the converted array when the array completes. The array never sees the
/// number's destination.
pub open spec fn number_step<S, B, R>(
    inner: Step<S, B>,
    dest: Option<R>,
    convert: spec_fn(B) -> R,
) -> Step<S, R> {
    match inner {
        Step::Pending { state, .. } => Step::Pending { state, dest },
        Step::Done { rest, value } => Step::Done { rest, value: convert(value) },
        Step::Rejected { rest } => Step::Rejected { rest },
    }
}

/// The byte-array parser inside a number parser obeys the protocol, and
/// cutting its input elsewhere does not change what it does.
proof fn lemma_number_bytes<S: InterpParser<Byte>, const N: usize>(
    sub: S,
    state: ForwardArrayParserState<S::Returning, S::State, N>,
    a: Seq<u8>,
    b: Seq<u8>,
)
    requires
        sub.wf(),
        sub.chunk_independent(),
        array_inv(sub, state),
    ensures
        match array_steps(sub, state, None, a) {
            Step::Pending { state: s1, dest: d1 } => {
                &&& d1 is None
                &&& array_inv(sub, s1)
                &&& same_outcome(
                    array_steps(sub, state, None, a + b),
                    array_steps(sub, s1, None, b),
                )
            },
            Step::Done { rest, value } => {
                &&& crate::interp_parser::is_tail_of(rest, a)
                &&& array_steps(sub, state, None, a + b) == (Step::<
                    ForwardArrayParserState<S::Returning, S::State, N>,
                    [S::Returning; N],
                >::Done { rest: rest + b, value })
            },
            Step::Rejected { .. } => array_steps(sub, state, None, a + b) is Rejected,
        },
{
    let parser = SubInterp(sub);
    lemma_array_pending_dest(sub, state, None, a);
    <SubInterp<S> as InterpParser<Array<Byte, N>>>::lemma_parse_protocol(&parser, state, None, a);
    <SubInterp<S> as InterpParser<Array<Byte, N>>>::lemma_parse_split(&parser, state, None, a, b);
}

impl<const BIG_ENDIAN: bool> InterpParser<U16<BIG_ENDIAN>> for DefaultInterp {
    type State = ForwardArrayParserState<u8, ByteState, 2>;

    type Returning = u16;

    open spec fn wf(&self) -> bool {
        true
    }

    open spec fn inv(&self, state: Self::State) -> bool {
        array_inv::<Byte, DefaultInterp, 2>(DefaultInterp, state)
    }

    open spec fn spec_init(&self) -> Self::State {
        <DefaultInterp as InterpParser<Array<Byte, 2>>>::spec_init(&DefaultInterp)
    }

    /// Two bytes are captured, then read in the byte order of the schema.
    open spec fn spec_parse(&self, state: Self::State, dest: Option<u16>, chunk: Seq<u8>) -> Step<
        Self::State,
        u16,
    > {
        number_step(
            array_steps::<Byte, DefaultInterp, 2>(DefaultInterp, state, None, chunk),
            dest,
            |bytes: [u8; 2]| u16_value(bytes@, BIG_ENDIAN) as u16,
        )
    }

    open spec fn consulted(&self, state: Self::State, dest: Option<Self::Returning>, chunk: Seq<u8>) -> bool {
        true
    }

    open spec fn left_by_completion(&self, state: Self::State) -> bool {
        true
    }

    open spec fn chunk_independent(&self) -> bool {
        true
    }

    proof fn lemma_init(&self) {
        <DefaultInterp as InterpParser<Array<Byte, 2>>>::lemma_init(&DefaultInterp);
    }

    proof fn lemma_parse_protocol(&self, state: Self::State, dest: Option<u16>, chunk: Seq<u8>) {
        lemma_number_bytes::<DefaultInterp, 2>(DefaultInterp, state, chunk, Seq::empty());
    }

    proof fn lemma_parse_split(
        &self,
        state: Self::State,
        dest: Option<u16>,
        a: Seq<u8>,
        b: Seq<u8>,
    ) {
        lemma_number_bytes::<DefaultInterp, 2>(DefaultInterp, state, a, b);
    }

    fn init(&self) -> (state: Self::State) {
        <DefaultInterp as InterpParser<Array<Byte, 2>>>::init(&DefaultInterp)
    }

    fn parse<'a, 'b>(
        &self,
        state: &'b mut Self::State,
        chunk: &'a [u8],
        destination: &mut Option<u16>,
    ) -> (res: ParseResult<'a>) {
        let mut sub_destination: Option<[u8; 2]> = None;
        let remainder = <DefaultInterp as InterpParser<Array<Byte, 2>>>::parse(
            &DefaultInterp,
            state,
            chunk,
            &mut sub_destination,
        )?;
        match sub_destination {
            None => Err((Some(OOB::Reject), remainder)),
            Some(bytes) => {
                *destination = Some(u16_from_bytes(&bytes, BIG_ENDIAN));
                Ok(remainder)
            },
        }
    }
}

impl<const BIG_ENDIAN: bool> InterpParser<U16<BIG_ENDIAN>> for DropInterp {
    type State = ForwardArrayParserState<(), (), 2>;

    type Returning = ();

    open spec fn wf(&self) -> bool {
        true
    }

    open spec fn inv(&self, state: Self::State) -> bool {
        array_inv::<Byte, DropInterp, 2>(DropInterp, state)
    }

    open spec fn spec_init(&self) -> Self::State {
        <SubInterp<DropInterp> as InterpParser<Array<Byte, 2>>>::spec_init(
            &SubInterp(DropInterp),
        )
    }

    /// Two bytes are consumed and nothing is kept.
    open spec fn spec_parse(&self, state: Self::State, dest: Option<()>, chunk: Seq<u8>) -> Step<
        Self::State,
        (),
    > {
        number_step(array_steps::<Byte, DropInterp, 2>(DropInterp, state, None, chunk), dest, |units: [(); 2]| ())
    }

    open spec fn consulted(&self, state: Self::State, dest: Option<Self::Returning>, chunk: Seq<u8>) -> bool {
        true
    }

    open spec fn left_by_completion(&self, state: Self::State) -> bool {
        true
    }

    open spec fn chunk_independent(&self) -> bool {
        true
    }

    proof fn lemma_init(&self) {
        <SubInterp<DropInterp> as InterpParser<Array<Byte, 2>>>::lemma_init(
            &SubInterp(DropInterp),
        );
    }

    proof fn lemma_parse_protocol(&self, state: Self::State, dest: Option<()>, chunk: Seq<u8>) {
        lemma_number_bytes::<DropInterp, 2>(DropInterp, state, chunk, Seq::empty());
    }

    proof fn lemma_parse_split(
        &self,
        state: Self::State,
        dest: Option<()>,
        a: Seq<u8>,
        b: Seq<u8>,
    ) {
        lemma_number_bytes::<DropInterp, 2>(DropInterp, state, a, b);
    }

    fn init(&self) -> (state: Self::State) {
        <SubInterp<DropInterp> as InterpParser<Array<Byte, 2>>>::init(&SubInterp(DropInterp))
    }

    fn parse<'a, 'b>(
        &self,
        state: &'b mut Self::State,
        chunk: &'a [u8],
        destination: &mut Option<()>,
    ) -> (res: ParseResult<'a>) {
        let mut sub_destination: Option<[(); 2]> = None;
        let remainder = <SubInterp<DropInterp> as InterpParser<Array<Byte, 2>>>::parse(
            &SubInterp(DropInterp),
            state,
            chunk,
            &mut sub_destination,
        )?;
        *destination = Some(());
        Ok(remainder)
    }
}

impl<const BIG_ENDIAN: bool> InterpParser<U32<BIG_ENDIAN>> for DefaultInterp {
    type State = ForwardArrayParserState<u8, ByteState, 4>;

    type Returning = u32;

    open spec fn wf(&self) -> bool {
        true
    }

    open spec fn inv(&self, state: Self::State) -> bool {
        array_inv::<Byte, DefaultInterp, 4>(DefaultInterp, state)
    }

    open spec fn spec_init(&self) -> Self::State {
        <DefaultInterp as InterpParser<Array<Byte, 4>>>::spec_init(&DefaultInterp)
    }

    /// Four bytes are captured, then read in the byte order of the schema.
    open spec fn spec_parse(&self, state: Self::State, dest: Option<u32>, chunk: Seq<u8>) -> Step<
        Self::State,
        u32,
    > {
        number_step(
            array_steps::<Byte, DefaultInterp, 4>(DefaultInterp, state, None, chunk),
            dest,
            |bytes: [u8; 4]| u32_value(bytes@, BIG_ENDIAN) as u32,
        )
    }

    open spec fn consulted(&self, state: Self::State, dest: Option<Self::Returning>, chunk: Seq<u8>) -> bool {
        true
    }

    open spec fn left_by_completion(&self, state: Self::State) -> bool {
        true
    }

    open spec fn chunk_independent(&self) -> bool {
        true
    }

    proof fn lemma_init(&self) {
        <DefaultInterp as InterpParser<Array<Byte, 4>>>::lemma_init(&DefaultInterp);
    }

    proof fn lemma_parse_protocol(&self, state: Self::State, dest: Option<u32>, chunk: Seq<u8>) {
        lemma_number_bytes::<DefaultInterp, 4>(DefaultInterp, state, chunk, Seq::empty());
    }

    proof fn lemma_parse_split(
        &self,
        state: Self::State,
        dest: Option<u32>,
        a: Seq<u8>,
        b: Seq<u8>,
    ) {
        lemma_number_bytes::<DefaultInterp, 4>(DefaultInterp, state, a, b);
    }

    fn init(&self) -> (state: Self::State) {
        <DefaultInterp as InterpParser<Array<Byte, 4>>>::init(&DefaultInterp)
    }

    fn parse<'a, 'b>(
        &self,
        state: &'b mut Self::State,
        chunk: &'a [u8],
        destination: &mut Option<u32>,
    ) -> (res: ParseResult<'a>) {
        let mut sub_destination: Option<[u8; 4]> = None;
        let remainder = <DefaultInterp as InterpParser<Array<Byte, 4>>>::parse(
            &DefaultInterp,
            state,
            chunk,
            &mut sub_destination,
        )?;
        match sub_destination {
            None => Err((Some(OOB::Reject), remainder)),
            Some(bytes) => {
                *destination = Some(u32_from_bytes(&bytes, BIG_ENDIAN));
                Ok(remainder)
            },
        }
    }
}

impl<const BIG_ENDIAN: bool> InterpParser<U32<BIG_ENDIAN>> for DropInterp {
    type State = ForwardArrayParserState<(), (), 4>;

    type Returning = ();

    open spec fn wf(&self) -> bool {
        true
    }

    open spec fn inv(&self, state: Self::State) -> bool {
        array_inv::<Byte, DropInterp, 4>(DropInterp, state)
    }

    open spec fn spec_init(&self) -> Self::State {
        <SubInterp<DropInterp> as InterpParser<Array<Byte, 4>>>::spec_init(
            &SubInterp(DropInterp),
        )
    }

    /// Four bytes are consumed and nothing is kept.
    open spec fn spec_parse(&self, state: Self::State, dest: Option<()>, chunk: Seq<u8>) -> Step<
        Self::State,
        (),
    > {
        number_step(array_steps::<Byte, DropInterp, 4>(DropInterp, state, None, chunk), dest, |units: [(); 4]| ())
    }

    open spec fn consulted(&self, state: Self::State, dest: Option<Self::Returning>, chunk: Seq<u8>) -> bool {
        true
    }

    open spec fn left_by_completion(&self, state: Self::State) -> bool {
        true
    }

    open spec fn chunk_independent(&self) -> bool {
        true
    }

    proof fn lemma_init(&self) {
        <SubInterp<DropInterp> as InterpParser<Array<Byte, 4>>>::lemma_init(
            &SubInterp(DropInterp),
        );
    }

    proof fn lemma_parse_protocol(&self, state: Self::State, dest: Option<()>, chunk: Seq<u8>) {
        lemma_number_bytes::<DropInterp, 4>(DropInterp, state, chunk, Seq::empty());
    }

    proof fn lemma_parse_split(
        &self,
        state: Self::State,
        dest: Option<()>,
        a: Seq<u8>,
        b: Seq<u8>,
    ) {
        lemma_number_bytes::<DropInterp, 4>(DropInterp, state, a, b);
    }

    fn init(&self) -> (state: Self::State) {
        <SubInterp<DropInterp> as InterpParser<Array<Byte, 4>>>::init(&SubInterp(DropInterp))
    }

    fn parse<'a, 'b>(
        &self,
        state: &'b mut Self::State,
        chunk: &'a [u8],
        destination: &mut Option<()>,
    ) -> (res: ParseResult<'a>) {
        let mut sub_destination: Option<[(); 4]> = None;
        let remainder = <SubInterp<DropInterp> as InterpParser<Array<Byte, 4>>>::parse(
            &SubInterp(DropInterp),
            state,
            chunk,
            &mut sub_destination,
        )?;
        *destination = Some(());
        Ok(remainder)
    }
}

impl<const BIG_ENDIAN: bool> InterpParser<U64<BIG_ENDIAN>> for DefaultInterp {
    type State = ForwardArrayParserState<u8, ByteState, 8>;

    type Returning = u64;

    open spec fn wf(&self) -> bool {
        true
    }

    open spec fn inv(&self, state: Self::State) -> bool {
        array_inv::<Byte, DefaultInterp, 8>(DefaultInterp, state)
    }

    open spec fn spec_init(&self) -> Self::State {
        <DefaultInterp as InterpParser<Array<Byte, 8>>>::spec_init(&DefaultInterp)
    }

    /// Eight bytes are captured, then read in the byte order of the schema.
    open spec fn spec_parse(&self, state: Self::State, dest: Option<u64>, chunk: Seq<u8>) -> Step<
        Self::State,
        u64,
    > {
        number_step(
            array_steps::<Byte, DefaultInterp, 8>(DefaultInterp, state, None, chunk),
            dest,
            |bytes: [u8; 8]| u64_value(bytes@, BIG_ENDIAN) as u64,
        )
    }

    open spec fn consulted(&self, state: Self::State, dest: Option<Self::Returning>, chunk: Seq<u8>) -> bool {
        true
    }

    open spec fn left_by_completion(&self, state: Self::State) -> bool {
        true
    }

    open spec fn chunk_independent(&self) -> bool {
        true
    }

    proof fn lemma_init(&self) {
        <DefaultInterp as InterpParser<Array<Byte, 8>>>::lemma_init(&DefaultInterp);
    }

    proof fn lemma_parse_protocol(&self, state: Self::State, dest: Option<u64>, chunk: Seq<u8>) {
        lemma_number_bytes::<DefaultInterp, 8>(DefaultInterp, state, chunk, Seq::empty());
    }

    proof fn lemma_parse_split(
        &self,
        state: Self::State,
        dest: Option<u64>,
        a: Seq<u8>,
        b: Seq<u8>,
    ) {
        lemma_number_bytes::<DefaultInterp, 8>(DefaultInterp, state, a, b);
    }

    fn init(&self) -> (state: Self::State) {
        <DefaultInterp as InterpParser<Array<Byte, 8>>>::init(&DefaultInterp)
    }

    fn parse<'a, 'b>(
        &self,
        state: &'b mut Self::State,
        chunk: &'a [u8],
        destination: &mut Option<u64>,
    ) -> (res: ParseResult<'a>) {
        let mut sub_destination: Option<[u8; 8]> = None;
        let remainder = <DefaultInterp as InterpParser<Array<Byte, 8>>>::parse(
            &DefaultInterp,
            state,
            chunk,
            &mut sub_destination,
        )?;
        match sub_destination {
            None => Err((Some(OOB::Reject), remainder)),
            Some(bytes) => {
                *destination = Some(u64_from_bytes(&bytes, BIG_ENDIAN));
                Ok(remainder)
            },
        }
    }
}

impl<const BIG_ENDIAN: bool> InterpParser<U64<BIG_ENDIAN>> for DropInterp {
    type State = ForwardArrayParserState<(), (), 8>;

    type Returning = ();

    open spec fn wf(&self) -> bool {
        true
    }

    open spec fn inv(&self, state: Self::State) -> bool {
        array_inv::<Byte, DropInterp, 8>(DropInterp, state)
    }

    open spec fn spec_init(&self) -> Self::State {
        <SubInterp<DropInterp> as InterpParser<Array<Byte, 8>>>::spec_init(
            &SubInterp(DropInterp),
        )
    }

    /// Eight bytes are consumed and nothing is kept.
    open spec fn spec_parse(&self, state: Self::State, dest: Option<()>, chunk: Seq<u8>) -> Step<
        Self::State,
        (),
    > {
        number_step(array_steps::<Byte, DropInterp, 8>(DropInterp, state, None, chunk), dest, |units: [(); 8]| ())
    }

    open spec fn consulted(&self, state: Self::State, dest: Option<Self::Returning>, chunk: Seq<u8>) -> bool {
        true
    }

    open spec fn left_by_completion(&self, state: Self::State) -> bool {
        true
    }

    open spec fn chunk_independent(&self) -> bool {
        true
    }

    proof fn lemma_init(&self) {
        <SubInterp<DropInterp> as InterpParser<Array<Byte, 8>>>::lemma_init(
            &SubInterp(DropInterp),
        );
    }

    proof fn lemma_parse_protocol(&self, state: Self::State, dest: Option<()>, chunk: Seq<u8>) {
        lemma_number_bytes::<DropInterp, 8>(DropInterp, state, chunk, Seq::empty());
    }

    proof fn lemma_parse_split(
        &self,
        state: Self::State,
        dest: Option<()>,
        a: Seq<u8>,
        b: Seq<u8>,
    ) {
        lemma_number_bytes::<DropInterp, 8>(DropInterp, state, a, b);
    }

    fn init(&self) -> (state: Self::State) {
        <SubInterp<DropInterp> as InterpParser<Array<Byte, 8>>>::init(&SubInterp(DropInterp))
    }

    fn parse<'a, 'b>(
        &self,
        state: &'b mut Self::State,
        chunk: &'a [u8],
        destination: &mut Option<()>,
    ) -> (res: ParseResult<'a>) {
        let mut sub_destination: Option<[(); 8]> = None;
        let remainder = <SubInterp<DropInterp> as InterpParser<Array<Byte, 8>>>::parse(
            &SubInterp(DropInterp),
            state,
            chunk,
            &mut sub_destination,
        )?;
        *destination = Some(());
        Ok(remainder)
    }
}

} // verus!
