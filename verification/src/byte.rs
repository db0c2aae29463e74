//! The leaves: parsers for a single byte.
use crate::core_parsers::Byte;
use crate::interp::{DefaultInterp, DropInterp};
use crate::interp_parser::{InterpParser, ParseResult, Step};
use vstd::prelude::*;

verus! {

/// The state of a byte parser, which has nothing to remember.
pub struct ByteState;

impl InterpParser<Byte> for DefaultInterp {
    type State = ByteState;

    type Returning = u8;

    open spec fn wf(&self) -> bool {
        true
    }

    open spec fn inv(&self, state: ByteState) -> bool {
        true
    }

    open spec fn spec_init(&self) -> ByteState {
        ByteState
    }

    /// On an empty chunk, more is needed and nothing changes. Otherwise the
    /// first byte is the value and the others remain.
    open spec fn spec_parse(&self, state: ByteState, dest: Option<u8>, chunk: Seq<u8>) -> Step<
        ByteState,
        u8,
    > {
        if chunk.len() == 0 {
            Step::Pending { state, dest }
        } else {
            Step::Done { rest: chunk.skip(1), value: chunk[0] }
        }
    }

    open spec fn consulted(&self, state: Self::State, dest: Option<Self::Returning>, chunk: Seq<u8>) -> bool {
        true
    }

    open spec fn left_by_completion(&self, state: Self::State) -> bool {
        true
    }

    open spec fn chunk_independent(&self) -> bool {
        true
    }

    proof fn lemma_init(&self) {
    }

    proof fn lemma_parse_protocol(&self, state: ByteState, dest: Option<u8>, chunk: Seq<u8>) {
    }

    proof fn lemma_parse_split(&self, state: ByteState, dest: Option<u8>, a: Seq<u8>, b: Seq<u8>) {
        if a.len() == 0 {
            assert(a + b =~= b);
        } else {
            assert((a + b).skip(1) =~= a.skip(1) + b);
        }
    }

    fn init(&self) -> (state: ByteState) {
        ByteState
    }

    fn parse<'a, 'b>(
        &self,
        state: &'b mut ByteState,
        chunk: &'a [u8],
        destination: &mut Option<u8>,
    ) -> (res: ParseResult<'a>) {
        if chunk.len() == 0 {
            Err((None, chunk))
        } else {
            *destination = Some(chunk[0]);
            Ok(&chunk[1..chunk.len()])
        }
    }
}

impl InterpParser<Byte> for DropInterp {
    type State = ();

    type Returning = ();

    open spec fn wf(&self) -> bool {
        true
    }

    open spec fn inv(&self, state: ()) -> bool {
        true
    }

    open spec fn spec_init(&self) -> () {
        ()
    }

    /// On an empty chunk, more is needed and nothing changes. Otherwise the
    /// first byte is dropped and the others remain.
    open spec fn spec_parse(&self, state: (), dest: Option<()>, chunk: Seq<u8>) -> Step<(), ()> {
        if chunk.len() == 0 {
            Step::Pending { state, dest }
        } else {
            Step::Done { rest: chunk.skip(1), value: () }
        }
    }

    open spec fn consulted(&self, state: Self::State, dest: Option<Self::Returning>, chunk: Seq<u8>) -> bool {
        true
    }

    open spec fn left_by_completion(&self, state: Self::State) -> bool {
        true
    }

    open spec fn chunk_independent(&self) -> bool {
        true
    }

    proof fn lemma_init(&self) {
    }

    proof fn lemma_parse_protocol(&self, state: (), dest: Option<()>, chunk: Seq<u8>) {
    }

    proof fn lemma_parse_split(&self, state: (), dest: Option<()>, a: Seq<u8>, b: Seq<u8>) {
        if a.len() == 0 {
            assert(a + b =~= b);
        } else {
            assert((a + b).skip(1) =~= a.skip(1) + b);
        }
    }

    fn init(&self) -> (state: ()) {
        ()
    }

    fn parse<'a, 'b>(
        &self,
        state: &'b mut (),
        chunk: &'a [u8],
        destination: &mut Option<()>,
    ) -> (res: ParseResult<'a>) {
        if chunk.len() == 0 {
            Err((None, chunk))
        } else {
            *destination = Some(());
            Ok(&chunk[1..chunk.len()])
        }
    }
}

} // verus!
