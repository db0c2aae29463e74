//! The strict byte budget: a parser that must consume exactly a given
//! number of bytes, neither fewer nor more.
use crate::interp::LengthLimited;
use crate::interp_parser::{InterpParser, ParseResult, Step, OOB};
use vstd::prelude::*;

verus! {

/// The state of a budgeted parser: the bytes that went to the parser inside
/// so far, and that parser's state.
pub struct LengthLimitedState<State> {
    pub bytes_seen: usize,
    pub child_state: State,
}

/// The smaller of two lengths.
pub open spec fn spec_min(a: int, b: int) -> int {
    if a <= b {
        a
    } else {
        b
    }
}

/// The smaller of two lengths.
pub fn min_len(a: usize, b: usize) -> (m: usize)
    ensures
        m == spec_min(a as int, b as int),
{
    if a <= b {
        a
    } else {
        b
    }
}

impl<I, S: InterpParser<I>> InterpParser<I> for LengthLimited<S> {
    type State = LengthLimitedState<S::State>;

    type Returning = S::Returning;

    open spec fn wf(&self) -> bool {
        self.subparser.wf()
    }

    open spec fn inv(&self, state: Self::State) -> bool {
        &&& state.bytes_seen <= self.bytes_limit
        &&& self.subparser.inv(state.child_state)
    }

    open spec fn spec_init(&self) -> Self::State {
        LengthLimitedState { bytes_seen: 0, child_state: self.subparser.spec_init() }
    }

    /// The parser inside is offered the chunk, cut to what is left of the
    /// budget. If it completes, it must have consumed all that it was
    /// offered and the budget must be used up; the rest of the chunk remains.
    /// If it asks for more, the budget must not be used up. Anything else is
    /// a rejection.
    open spec fn spec_parse(
        &self,
        state: Self::State,
        dest: Option<S::Returning>,
        chunk: Seq<u8>,
    ) -> Step<Self::State, S::Returning> {
        let feed = spec_min(chunk.len() as int, self.bytes_limit - state.bytes_seen);
        match self.subparser.spec_parse(state.child_state, dest, chunk.take(feed)) {
            Step::Done { rest, value } => if rest.len() > 0 || state.bytes_seen + feed
                < self.bytes_limit {
                Step::Rejected { rest }
            } else {
                Step::Done { rest: chunk.skip(feed), value }
            },
            Step::Pending { state: s1, dest: d1 } => if state.bytes_seen + feed
                >= self.bytes_limit {
                Step::Rejected { rest: Seq::empty() }
            } else {
                Step::Pending {
                    state: LengthLimitedState {
                        bytes_seen: (state.bytes_seen + feed) as usize,
                        child_state: s1,
                    },
                    dest: d1,
                }
            },
            Step::Rejected { rest } => Step::Rejected { rest },
        }
    }

    open spec fn consulted(
        &self,
        state: Self::State,
        dest: Option<S::Returning>,
        chunk: Seq<u8>,
    ) -> bool {
        self.subparser.consulted(
            state.child_state,
            dest,
            chunk.take(spec_min(chunk.len() as int, self.bytes_limit - state.bytes_seen)),
        )
    }

    open spec fn left_by_completion(&self, state: Self::State) -> bool {
        true
    }

    open spec fn chunk_independent(&self) -> bool {
        self.subparser.chunk_independent()
    }

    proof fn lemma_init(&self) {
        self.subparser.lemma_init();
    }

    proof fn lemma_parse_protocol(
        &self,
        state: Self::State,
        dest: Option<S::Returning>,
        chunk: Seq<u8>,
    ) {
        let feed = spec_min(chunk.len() as int, self.bytes_limit - state.bytes_seen);
        self.subparser.lemma_parse_protocol(state.child_state, dest, chunk.take(feed));
    }

    proof fn lemma_parse_split(
        &self,
        state: Self::State,
        dest: Option<S::Returning>,
        a: Seq<u8>,
        b: Seq<u8>,
    ) {
        let room = self.bytes_limit - state.bytes_seen;
        let feed_a = spec_min(a.len() as int, room);
        let feed_ab = spec_min((a + b).len() as int, room);
        let sub = self.subparser;
        if a.len() >= room {
            assert((a + b).take(feed_ab) =~= a.take(feed_a));
            assert((a + b).skip(feed_ab) =~= a.skip(feed_a) + b);
        } else {
            let feed_b = spec_min(b.len() as int, room - a.len());
            assert(a.take(feed_a) =~= a);
            assert((a + b).take(feed_ab) =~= a + b.take(feed_b));
            assert((a + b).skip(feed_ab) =~= b.skip(feed_b));
            sub.lemma_parse_split(state.child_state, dest, a, b.take(feed_b));
            sub.lemma_parse_protocol(state.child_state, dest, a);
        }
    }

    fn init(&self) -> (state: Self::State) {
        LengthLimitedState { bytes_seen: 0, child_state: self.subparser.init() }
    }

    fn parse<'a, 'b>(
        &self,
        state: &'b mut Self::State,
        chunk: &'a [u8],
        destination: &mut Option<S::Returning>,
    ) -> (res: ParseResult<'a>) {
        let feed_amount = min_len(chunk.len(), self.bytes_limit - state.bytes_seen);
        proof {
            self.subparser.lemma_parse_protocol(
                state.child_state,
                *destination,
                chunk@.take(feed_amount as int),
            );
        }
        match self.subparser.parse(&mut state.child_state, &chunk[0..feed_amount], destination) {
            Ok(new_cursor) => {
                let consumed = feed_amount - new_cursor.len();
                state.bytes_seen = state.bytes_seen + consumed;
                if consumed < feed_amount || state.bytes_seen < self.bytes_limit {
                    return Err((Some(OOB::Reject), new_cursor));
                }
                Ok(&chunk[feed_amount..chunk.len()])
            },
            Err((None, new_cursor)) => {
                let consumed = feed_amount - new_cursor.len();
                state.bytes_seen = state.bytes_seen + consumed;
                if consumed < feed_amount || state.bytes_seen >= self.bytes_limit {
                    return Err((Some(OOB::Reject), new_cursor));
                }
                Err((None, new_cursor))
            },
            Err(e) => Err(e),
        }
    }
}

} // verus!
