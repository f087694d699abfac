//! The completion state of a task.

use vstd::prelude::*;

use crate::parse::Parser;

verus! {

/// The state of a task.  `Open` is the default and has no textual
/// representation; `Done` renders as a single `x` at the start of a line.
#[derive(Debug, Clone, Copy, PartialEq, Eq, Structural, PartialOrd, Ord, Hash)]
pub enum State {
    /// The task is still open, i.e. not done (no representation).
    Open,
    /// The task is done (representation: `x`).
    Done,
}

/// Failure of the state grammar rule: no `x` marker at the cursor.
#[derive(Debug, Clone, Copy, PartialEq, Eq, Structural, Hash)]
pub struct ParseStateError;

/// The state token at position `i` of `b`: a literal `x`, yielding `Done`
/// and the position after it, or nothing.
pub open spec fn spec_parse_state(b: Seq<u8>, i: int) -> Option<(State, int)> {
    if 0 <= i < b.len() && b[i] == 0x78 {
        Some((State::Done, i + 1))
    } else {
        None
    }
}

impl Default for State {
    /// The default state: open.
    fn default() -> (r: Self)
        ensures
            r == State::Open,
    {
        State::Open
    }
}

impl State {
    /// Parses the state marker at the parser's position, consuming it on
    /// success; on failure the parser has not moved.
    pub fn parse(parser: &mut Parser<'_>) -> (r: Result<Self, ParseStateError>)
        requires
            old(parser).wf(),
        ensures
            final(parser).wf(),
            final(parser).data() == old(parser).data(),
            match spec_parse_state(old(parser).data(), old(parser).pos()) {
                Some((v, j)) => r == Ok::<State, ParseStateError>(v) && final(parser).pos() == j,
                None => r == Err::<State, ParseStateError>(ParseStateError) && final(parser).pos()
                    == old(parser).pos(),
            },
    {
        if parser.expect_u8(0x78).is_some() {
            Ok(State::Done)
        } else {
            Err(ParseStateError)
        }
    }

    /// Attempts [`State::parse`] and restores the parser verbatim on
    /// failure: the universal try/rollback protocol.
    pub fn parse_opt(parser: &mut Parser<'_>) -> (r: Option<Self>)
        requires
            old(parser).wf(),
        ensures
            final(parser).wf(),
            final(parser).data() == old(parser).data(),
            match spec_parse_state(old(parser).data(), old(parser).pos()) {
                Some((v, j)) => r == Some(v) && final(parser).pos() == j,
                None => r is None && final(parser).pos() == old(parser).pos(),
            },
    {
        let parser_pre = *parser;
        match Self::parse(parser) {
            Err(_) => {
                *parser = parser_pre;
                None
            },
            Ok(x) => Some(x),
        }
    }
}

impl core::str::FromStr for State {
    type Err = ParseStateError;

    /// Parses a state from a string holding exactly one state marker.
    fn from_str(s: &str) -> Result<Self, Self::Err> {
        let bytes = s.as_bytes();
        let mut parser = Parser::new(bytes);
        match State::parse(&mut parser) {
            Ok(state) => {
                if parser.is_eof() {
                    Ok(state)
                } else {
                    Err(ParseStateError)
                }
            },
            Err(e) => Err(e),
        }
    }
}

} // verus!
