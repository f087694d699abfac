//! The priority a task can have: one of the 26 letters `A`-`Z`, where `A`
//! is the highest priority and `Z` the lowest, so that the comparison order
//! is the reverse of the alphabetical order.

use vstd::prelude::*;

use vstd::std_specs::cmp::PartialOrdSpec;

use crate::parse::Parser;
use crate::parse::is_upper;

verus! {

/// The priority of a task, rendered as `(X)` where `X` is the letter.
///
/// `A` is the highest priority and `Z` the lowest: comparisons go in the
/// reverse of the alphabetical order (see [`lemma_priority_order`]).
#[derive(Debug, Clone, Copy, PartialEq, Eq, Structural, Hash)]
pub enum Priority {
    /// Priority `A`. Highest priority.
    A,
    /// Priority `B`.
    B,
    /// Priority `C`.
    C,
    /// Priority `D`.
    D,
    /// Priority `E`.
    E,
    /// Priority `F`.
    F,
    /// Priority `G`.
    G,
    /// Priority `H`.
    H,
    /// Priority `I`.
    I,
    /// Priority `J`.
    J,
    /// Priority `K`.
    K,
    /// Priority `L`.
    L,
    /// Priority `M`.
    M,
    /// Priority `N`.
    N,
    /// Priority `O`.
    O,
    /// Priority `P`.
    P,
    /// Priority `Q`.
    Q,
    /// Priority `R`.
    R,
    /// Priority `S`.
    S,
    /// Priority `T`.
    T,
    /// Priority `U`.
    U,
    /// Priority `V`.
    V,
    /// Priority `W`.
    W,
    /// Priority `X`.
    X,
    /// Priority `Y`.
    Y,
    /// Priority `Z`. Lowest priority.
    Z,
}

/// Failure of the priority grammar rule: no well-formed `(X)` token at the
/// cursor.
#[derive(Debug, Clone, Copy, PartialEq, Eq, Structural, Hash)]
pub struct ParsePriorityError;

impl Priority {
    /// The rank of the letter within the alphabet: 0 for `A` through 25 for
    /// `Z`.  Smaller rank means higher priority.
    pub open spec fn spec_code(self) -> int {
        match self {
            Priority::A => 0,
            Priority::B => 1,
            Priority::C => 2,
            Priority::D => 3,
            Priority::E => 4,
            Priority::F => 5,
            Priority::G => 6,
            Priority::H => 7,
            Priority::I => 8,
            Priority::J => 9,
            Priority::K => 10,
            Priority::L => 11,
            Priority::M => 12,
            Priority::N => 13,
            Priority::O => 14,
            Priority::P => 15,
            Priority::Q => 16,
            Priority::R => 17,
            Priority::S => 18,
            Priority::T => 19,
            Priority::U => 20,
            Priority::V => 21,
            Priority::W => 22,
            Priority::X => 23,
            Priority::Y => 24,
            Priority::Z => 25,
        }
    }

    /// The ASCII byte of the letter.
    pub open spec fn spec_byte(self) -> u8 {
        (0x41 + self.spec_code()) as u8
    }

    /// The rank of the letter within the alphabet, executable counterpart
    /// of [`Priority::spec_code`].
    pub fn code(&self) -> (r: u8)
        ensures
            r == self.spec_code(),
    {
        match self {
            Priority::A => 0,
            Priority::B => 1,
            Priority::C => 2,
            Priority::D => 3,
            Priority::E => 4,
            Priority::F => 5,
            Priority::G => 6,
            Priority::H => 7,
            Priority::I => 8,
            Priority::J => 9,
            Priority::K => 10,
            Priority::L => 11,
            Priority::M => 12,
            Priority::N => 13,
            Priority::O => 14,
            Priority::P => 15,
            Priority::Q => 16,
            Priority::R => 17,
            Priority::S => 18,
            Priority::T => 19,
            Priority::U => 20,
            Priority::V => 21,
            Priority::W => 22,
            Priority::X => 23,
            Priority::Y => 24,
            Priority::Z => 25,
        }
    }
}

impl Priority {
    /// The ASCII byte of the letter, executable counterpart of
    /// [`Priority::spec_byte`].
    pub fn byte(&self) -> (r: u8)
        ensures
            r == self.spec_byte(),
    {
        0x41 + self.code()
    }
}

/// The priority whose letter is the uppercase ASCII byte `b` (meaningful
/// only for `A`-`Z`; other bytes map to `Z`).
pub open spec fn priority_of_byte(b: u8) -> Priority {
    if b == 0x41 {
        Priority::A
    } else if b == 0x42 {
        Priority::B
    } else if b == 0x43 {
        Priority::C
    } else if b == 0x44 {
        Priority::D
    } else if b == 0x45 {
        Priority::E
    } else if b == 0x46 {
        Priority::F
    } else if b == 0x47 {
        Priority::G
    } else if b == 0x48 {
        Priority::H
    } else if b == 0x49 {
        Priority::I
    } else if b == 0x4a {
        Priority::J
    } else if b == 0x4b {
        Priority::K
    } else if b == 0x4c {
        Priority::L
    } else if b == 0x4d {
        Priority::M
    } else if b == 0x4e {
        Priority::N
    } else if b == 0x4f {
        Priority::O
    } else if b == 0x50 {
        Priority::P
    } else if b == 0x51 {
        Priority::Q
    } else if b == 0x52 {
        Priority::R
    } else if b == 0x53 {
        Priority::S
    } else if b == 0x54 {
        Priority::T
    } else if b == 0x55 {
        Priority::U
    } else if b == 0x56 {
        Priority::V
    } else if b == 0x57 {
        Priority::W
    } else if b == 0x58 {
        Priority::X
    } else if b == 0x59 {
        Priority::Y
    } else {
        Priority::Z
    }
}

/// The letter byte and the priority determine each other.
pub proof fn lemma_priority_byte(b: u8, p: Priority)
    ensures
        is_upper(b) ==> priority_of_byte(b).spec_byte() == b,
        priority_of_byte(p.spec_byte()) == p,
{
}

impl Priority {
    /// The priority named by an uppercase ASCII letter, or `None` for any
    /// other character.
    pub fn from_char(c: char) -> (r: Option<Self>)
        ensures
            r is Some <==> 0x41 <= c as u32 <= 0x5a,
            r matches Some(p) ==> p == priority_of_byte((c as u32) as u8),
    {
        let u = c as u32;
        if 0x41 <= u && u <= 0x5a {
            Some(Self::from_upper_byte(u as u8))
        } else {
            None
        }
    }

    /// The priority whose letter is the uppercase ASCII byte `b`,
    /// executable counterpart of [`priority_of_byte`].
    fn from_upper_byte(b: u8) -> (r: Self)
        requires
            is_upper(b),
        ensures
            r == priority_of_byte(b),
    {
        if b == 0x41 {
            Priority::A
        } else if b == 0x42 {
            Priority::B
        } else if b == 0x43 {
            Priority::C
        } else if b == 0x44 {
            Priority::D
        } else if b == 0x45 {
            Priority::E
        } else if b == 0x46 {
            Priority::F
        } else if b == 0x47 {
            Priority::G
        } else if b == 0x48 {
            Priority::H
        } else if b == 0x49 {
            Priority::I
        } else if b == 0x4a {
            Priority::J
        } else if b == 0x4b {
            Priority::K
        } else if b == 0x4c {
            Priority::L
        } else if b == 0x4d {
            Priority::M
        } else if b == 0x4e {
            Priority::N
        } else if b == 0x4f {
            Priority::O
        } else if b == 0x50 {
            Priority::P
        } else if b == 0x51 {
            Priority::Q
        } else if b == 0x52 {
            Priority::R
        } else if b == 0x53 {
            Priority::S
        } else if b == 0x54 {
            Priority::T
        } else if b == 0x55 {
            Priority::U
        } else if b == 0x56 {
            Priority::V
        } else if b == 0x57 {
            Priority::W
        } else if b == 0x58 {
            Priority::X
        } else if b == 0x59 {
            Priority::Y
        } else {
            Priority::Z
        }
    }
}

/// The priority token at position `i` of `b`: a literal `(`, one uppercase
/// ASCII letter, and a literal `)`, yielding the letter's priority and the
/// position after the token, or nothing.
pub open spec fn spec_parse_priority(b: Seq<u8>, i: int) -> Option<(Priority, int)> {
    if 0 <= i && i + 3 <= b.len() && b[i] == 0x28 && is_upper(b[i + 1]) && b[i + 2] == 0x29 {
        Some((priority_of_byte(b[i + 1]), i + 3))
    } else {
        None
    }
}

impl Priority {
    /// Parses the priority token at the parser's position, consuming it on
    /// success; on failure the parser may have consumed a prefix of the
    /// token.
    pub fn parse(parser: &mut Parser<'_>) -> (r: Result<Self, ParsePriorityError>)
        requires
            old(parser).wf(),
        ensures
            final(parser).wf(),
            final(parser).data() == old(parser).data(),
            match spec_parse_priority(old(parser).data(), old(parser).pos()) {
                Some((v, j)) => r == Ok::<Priority, ParsePriorityError>(v) && final(parser).pos()
                    == j,
                None => r == Err::<Priority, ParsePriorityError>(ParsePriorityError) && old(
                    parser,
                ).pos() <= final(parser).pos() <= old(parser).pos() + 2,
            },
    {
        if parser.expect_u8(0x28).is_none() {
            return Err(ParsePriorityError);
        }
        let letter = match parser.peek() {
            Some(x) => x,
            None => {
                return Err(ParsePriorityError);
            },
        };
        if !(0x41 <= letter && letter <= 0x5a) {
            return Err(ParsePriorityError);
        }
        let _ = parser.parse_u8();
        if parser.expect_u8(0x29).is_none() {
            return Err(ParsePriorityError);
        }
        Ok(Self::from_upper_byte(letter))
    }

    /// Attempts [`Priority::parse`] and restores the parser verbatim on
    /// failure.
    pub fn parse_opt(parser: &mut Parser<'_>) -> (r: Option<Self>)
        requires
            old(parser).wf(),
        ensures
            final(parser).wf(),
            final(parser).data() == old(parser).data(),
            match spec_parse_priority(old(parser).data(), old(parser).pos()) {
                Some((v, j)) => r == Some(v) && final(parser).pos() == j,
                None => r is None && final(parser).pos() == old(parser).pos(),
            },
    {
        let parser_pre = *parser;
        match Self::parse(parser) {
            Err(_) => {
                *parser = parser_pre;
                None
            },
            Ok(x) => Some(x),
        }
    }
}

impl core::str::FromStr for Priority {
    type Err = ParsePriorityError;

    /// Parses a priority from a string holding exactly one `(X)` token.
    fn from_str(s: &str) -> Result<Self, Self::Err> {
        let bytes = s.as_bytes();
        let mut parser = Parser::new(bytes);
        match Priority::parse(&mut parser) {
            Ok(priority) => {
                if parser.is_eof() {
                    Ok(priority)
                } else {
                    Err(ParsePriorityError)
                }
            },
            Err(e) => Err(e),
        }
    }
}

impl PartialOrd for Priority {
    /// Compares two priorities: the one with the alphabetically earlier
    /// letter is the greater priority.
    fn partial_cmp(&self, other: &Self) -> (r: Option<core::cmp::Ordering>) {
        let a = self.code();
        let b = other.code();
        if b < a {
            Some(core::cmp::Ordering::Less)
        } else if b == a {
            Some(core::cmp::Ordering::Equal)
        } else {
            Some(core::cmp::Ordering::Greater)
        }
    }
}

impl vstd::std_specs::cmp::PartialOrdSpecImpl for Priority {
    open spec fn obeys_partial_cmp_spec() -> bool {
        true
    }

    open spec fn partial_cmp_spec(&self, other: &Self) -> Option<core::cmp::Ordering> {
        if other.spec_code() < self.spec_code() {
            Some(core::cmp::Ordering::Less)
        } else if other.spec_code() == self.spec_code() {
            Some(core::cmp::Ordering::Equal)
        } else {
            Some(core::cmp::Ordering::Greater)
        }
    }
}

/// Priority ordering is the reverse of the alphabetical order of the
/// letters: for letters `X` before `Y` alphabetically, `Priority(X)`
/// compares greater than `Priority(Y)`; `A` is the unique maximum and `Z`
/// the unique minimum; equality holds exactly between equal letters.
pub proof fn lemma_priority_order(x: Priority, y: Priority)
    ensures
        x.partial_cmp_spec(&y) == Some(core::cmp::Ordering::Greater) <==> x.spec_code()
            < y.spec_code(),
        x.partial_cmp_spec(&y) == Some(core::cmp::Ordering::Equal) <==> x == y,
        x != Priority::A ==> Priority::A.partial_cmp_spec(&x) == Some(
            core::cmp::Ordering::Greater,
        ),
        x != Priority::Z ==> x.partial_cmp_spec(&Priority::Z) == Some(
            core::cmp::Ordering::Greater,
        ),
{
}

} // verus!
