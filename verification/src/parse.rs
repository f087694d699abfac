//! The byte cursor and the low-level parser primitives every grammar rule is
//! built from.
//!
//! A [`Cursor`] is a forward-only scanner over a byte slice; a [`Parser`]
//! wraps a cursor with the lookahead/consume operations the token grammars
//! need.  Both are plain `Copy` values, so a grammar rule that may fail is
//! attempted on a copy and the copy is simply dropped on failure: an explicit
//! snapshot/restore of an integer offset is the only backtracking mechanism.
//!
//! The byte-classification `spec` functions and the scanning `spec`
//! functions ([`skip_ws`], [`word_end`], [`key_end`], [`scan_to`]) defined
//! here are the shared vocabulary of every parser contract in the crate.

use vstd::prelude::*;

verus! {

/// True for the five ASCII whitespace bytes: space, tab, line feed, form
/// feed and carriage return.
pub open spec fn is_ws(b: u8) -> bool {
    b == 0x20 || b == 0x09 || b == 0x0a || b == 0x0c || b == 0x0d
}

/// True for the ASCII digits `0`-`9`.
pub open spec fn is_digit(b: u8) -> bool {
    0x30 <= b <= 0x39
}

/// True for the ASCII uppercase letters `A`-`Z`.
pub open spec fn is_upper(b: u8) -> bool {
    0x41 <= b <= 0x5a
}

/// True for the ASCII lowercase letters `a`-`z`.
pub open spec fn is_lower(b: u8) -> bool {
    0x61 <= b <= 0x7a
}

/// The position of the first non-whitespace byte at or after `i`, or the
/// length of the buffer if only whitespace remains.
pub open spec fn skip_ws(b: Seq<u8>, i: int) -> int
    recommends
        0 <= i <= b.len(),
    decreases b.len() - i,
{
    if i < 0 || i >= b.len() || !is_ws(b[i]) {
        i
    } else {
        skip_ws(b, i + 1)
    }
}

/// The position of the first whitespace byte at or after `i`, or the length
/// of the buffer: the exclusive end of the word starting at `i`.
pub open spec fn word_end(b: Seq<u8>, i: int) -> int
    recommends
        0 <= i <= b.len(),
    decreases b.len() - i,
{
    if i < 0 || i >= b.len() || is_ws(b[i]) {
        i
    } else {
        word_end(b, i + 1)
    }
}

/// The position of the first byte at or after `i` that is whitespace or a
/// colon, or the length of the buffer: the exclusive end of a run of
/// key/value bytes.
pub open spec fn key_end(b: Seq<u8>, i: int) -> int
    recommends
        0 <= i <= b.len(),
    decreases b.len() - i,
{
    if i < 0 || i >= b.len() || is_ws(b[i]) || b[i] == 0x3a {
        i
    } else {
        key_end(b, i + 1)
    }
}

/// The position of the first occurrence of `t` at or after `i`, or the
/// length of the buffer.
pub open spec fn scan_to(b: Seq<u8>, i: int, t: u8) -> int
    recommends
        0 <= i <= b.len(),
    decreases b.len() - i,
{
    if i < 0 || i >= b.len() || b[i] == t {
        i
    } else {
        scan_to(b, i + 1, t)
    }
}

/// `skip_ws` stays within the buffer, skips only whitespace, and stops at
/// the first non-whitespace byte.
pub proof fn lemma_skip_ws(b: Seq<u8>, i: int)
    requires
        0 <= i <= b.len(),
    ensures
        i <= skip_ws(b, i) <= b.len(),
        forall|k: int| i <= k < skip_ws(b, i) ==> is_ws(#[trigger] b[k]),
        skip_ws(b, i) < b.len() ==> !is_ws(b[skip_ws(b, i)]),
    decreases b.len() - i,
{
    if i < b.len() && is_ws(b[i]) {
        lemma_skip_ws(b, i + 1);
    }
}

/// A position bounded by whitespace-only bytes below and a non-whitespace
/// byte (or the end) at it is exactly where `skip_ws` stops.
pub proof fn lemma_skip_ws_exact(b: Seq<u8>, i: int, j: int)
    requires
        0 <= i <= j <= b.len(),
        forall|k: int| i <= k < j ==> is_ws(#[trigger] b[k]),
        j == b.len() || !is_ws(b[j]),
    ensures
        skip_ws(b, i) == j,
    decreases j - i,
{
    if i < j {
        lemma_skip_ws_exact(b, i + 1, j);
    }
}

/// `word_end` stays within the buffer, passes only non-whitespace bytes,
/// and stops at the first whitespace byte.
pub proof fn lemma_word_end(b: Seq<u8>, i: int)
    requires
        0 <= i <= b.len(),
    ensures
        i <= word_end(b, i) <= b.len(),
        forall|k: int| i <= k < word_end(b, i) ==> !is_ws(#[trigger] b[k]),
        word_end(b, i) < b.len() ==> is_ws(b[word_end(b, i)]),
    decreases b.len() - i,
{
    if i < b.len() && !is_ws(b[i]) {
        lemma_word_end(b, i + 1);
    }
}

/// A position bounded by non-whitespace bytes below and a whitespace byte
/// (or the end) at it is exactly where `word_end` stops.
pub proof fn lemma_word_end_exact(b: Seq<u8>, i: int, j: int)
    requires
        0 <= i <= j <= b.len(),
        forall|k: int| i <= k < j ==> !is_ws(#[trigger] b[k]),
        j == b.len() || is_ws(b[j]),
    ensures
        word_end(b, i) == j,
    decreases j - i,
{
    if i < j {
        lemma_word_end_exact(b, i + 1, j);
    }
}

/// `key_end` stays within the buffer, passes only bytes that are neither
/// whitespace nor a colon, and stops at the first such byte.
pub proof fn lemma_key_end(b: Seq<u8>, i: int)
    requires
        0 <= i <= b.len(),
    ensures
        i <= key_end(b, i) <= b.len(),
        forall|k: int| i <= k < key_end(b, i) ==> !is_ws(#[trigger] b[k]) && b[k] != 0x3a,
        key_end(b, i) < b.len() ==> is_ws(b[key_end(b, i)]) || b[key_end(b, i)] == 0x3a,
    decreases b.len() - i,
{
    if i < b.len() && !is_ws(b[i]) && b[i] != 0x3a {
        lemma_key_end(b, i + 1);
    }
}

/// A position bounded by key/value bytes below and a whitespace byte, a
/// colon or the end at it is exactly where `key_end` stops.
pub proof fn lemma_key_end_exact(b: Seq<u8>, i: int, j: int)
    requires
        0 <= i <= j <= b.len(),
        forall|k: int| i <= k < j ==> !is_ws(#[trigger] b[k]) && b[k] != 0x3a,
        j == b.len() || is_ws(b[j]) || b[j] == 0x3a,
    ensures
        key_end(b, i) == j,
    decreases j - i,
{
    if i < j {
        lemma_key_end_exact(b, i + 1, j);
    }
}

/// `scan_to` stays within the buffer, passes only bytes different from the
/// terminator, and stops at the first terminator byte.
pub proof fn lemma_scan_to(b: Seq<u8>, i: int, t: u8)
    requires
        0 <= i <= b.len(),
    ensures
        i <= scan_to(b, i, t) <= b.len(),
        forall|k: int| i <= k < scan_to(b, i, t) ==> #[trigger] b[k] != t,
        scan_to(b, i, t) < b.len() ==> b[scan_to(b, i, t)] == t,
    decreases b.len() - i,
{
    if i < b.len() && b[i] != t {
        lemma_scan_to(b, i + 1, t);
    }
}

/// A position bounded by non-terminator bytes below and a terminator byte
/// (or the end) at it is exactly where `scan_to` stops.
pub proof fn lemma_scan_to_exact(b: Seq<u8>, i: int, j: int, t: u8)
    requires
        0 <= i <= j <= b.len(),
        forall|k: int| i <= k < j ==> #[trigger] b[k] != t,
        j == b.len() || b[j] == t,
    ensures
        scan_to(b, i, t) == j,
    decreases j - i,
{
    if i < j {
        lemma_scan_to_exact(b, i + 1, j, t);
    }
}

/// Decides ASCII whitespace, the executable counterpart of [`is_ws`].
pub fn is_whitespace_byte(b: u8) -> (r: bool)
    ensures
        r == is_ws(b),
{
    b == 0x20 || b == 0x09 || b == 0x0a || b == 0x0c || b == 0x0d
}

/// A forward-only scanner over a byte slice: a buffer and a current offset.
///
/// The offset never moves past the buffer length; every advancing operation
/// clamps it there.
#[derive(Debug, Clone, Copy)]
pub struct Cursor<'a> {
    bytes: &'a [u8],
    index: usize,
}

impl<'a> Cursor<'a> {
    /// The bytes the cursor scans over.
    pub closed spec fn data(self) -> Seq<u8> {
        self.bytes@
    }

    /// The current offset.
    pub closed spec fn pos(self) -> int {
        self.index as int
    }

    /// The offset is within the buffer (one past the last byte at most).
    pub open spec fn wf(self) -> bool {
        0 <= self.pos() <= self.data().len()
    }

    /// Starts a cursor at the beginning of `bytes`.
    pub fn new(bytes: &'a [u8]) -> (r: Self)
        ensures
            r.data() == bytes@,
            r.pos() == 0,
            r.wf(),
    {
        Cursor { bytes, index: 0 }
    }

    /// Consumes one byte: advances by 1 and returns it, or returns `None` at
    /// the end of the buffer.
    pub fn consume(&mut self) -> (r: Option<u8>)
        requires
            old(self).wf(),
        ensures
            final(self).wf(),
            final(self).data() == old(self).data(),
            old(self).pos() < old(self).data().len() ==> r == Some(
                old(self).data()[old(self).pos()],
            ) && final(self).pos() == old(self).pos() + 1,
            old(self).pos() >= old(self).data().len() ==> r is None && final(self).pos() == old(self).pos(),
    {
        match self.first() {
            Some(byte) => {
                self.advance(1);
                Some(byte)
            },
            None => None,
        }
    }

    /// Consumes the next `n` bytes atomically when at least `n` bytes
    /// remain, or nothing otherwise.
    pub fn consume_n(&mut self, n: usize) -> (r: Option<&'a [u8]>)
        requires
            old(self).wf(),
            old(self).pos() + n <= usize::MAX,
        ensures
            final(self).wf(),
            final(self).data() == old(self).data(),
            old(self).pos() + n <= old(self).data().len() ==> (match r {
                Some(s) => s@ == old(self).data().subrange(
                    old(self).pos(),
                    old(self).pos() + n,
                ) && final(self).pos() == old(self).pos() + n,
                None => false,
            }),
            old(self).pos() + n > old(self).data().len() ==> r is None && final(self).pos()
                == old(self).pos(),
    {
        if self.index + n <= self.bytes.len() {
            let bytes = vstd::slice::slice_subrange(self.bytes, self.index, self.index + n);
            self.advance(n);
            Some(bytes)
        } else {
            None
        }
    }

    /// Consumes bytes greedily while `predicate` holds of them, stopping at
    /// the first non-matching byte or at the end of the buffer.
    pub fn consume_while<P: Fn(u8) -> bool>(&mut self, predicate: P)
        requires
            old(self).wf(),
            forall|b: u8| predicate.requires((b,)),
        ensures
            final(self).wf(),
            final(self).data() == old(self).data(),
            old(self).pos() <= final(self).pos(),
            forall|k: int|
                old(self).pos() <= k < final(self).pos() ==> predicate.ensures(
                    (#[trigger] old(self).data()[k],),
                    true,
                ),
            final(self).pos() < final(self).data().len() ==> predicate.ensures(
                (old(self).data()[final(self).pos()],),
                false,
            ),
    {
        loop
            invariant
                self.wf(),
                self.data() == old(self).data(),
                old(self).pos() <= self.pos(),
                forall|b: u8| predicate.requires((b,)),
                forall|k: int|
                    old(self).pos() <= k < self.pos() ==> predicate.ensures(
                        (#[trigger] old(self).data()[k],),
                        true,
                    ),
            ensures
                self.wf(),
                self.data() == old(self).data(),
                old(self).pos() <= self.pos(),
                forall|k: int|
                    old(self).pos() <= k < self.pos() ==> predicate.ensures(
                        (#[trigger] old(self).data()[k],),
                        true,
                    ),
                self.pos() < self.data().len() ==> predicate.ensures(
                    (old(self).data()[self.pos()],),
                    false,
                ),
            decreases self.data().len() - self.pos(),
        {
            match self.first() {
                Some(byte) => {
                    if predicate(byte) {
                        self.advance(1);
                    } else {
                        break ;
                    }
                },
                None => {
                    break ;
                },
            }
        }
    }

    /// Consumes the whitespace run at the cursor, leaving it at the first
    /// non-whitespace byte or at the end.
    pub fn consume_whitespaces(&mut self)
        requires
            old(self).wf(),
        ensures
            final(self).wf(),
            final(self).data() == old(self).data(),
            final(self).pos() == skip_ws(old(self).data(), old(self).pos()),
    {
        let ghost data = self.data();
        let ghost start = self.pos();
        self.consume_while(|b: u8| -> (r: bool)
            ensures
                r == is_ws(b),
            { is_whitespace_byte(b) });
        proof {
            lemma_skip_ws_exact(data, start, self.pos());
        }
    }

    /// Consumes the word at the cursor, leaving it at the first whitespace
    /// byte or at the end.
    pub fn consume_non_whitespaces(&mut self)
        requires
            old(self).wf(),
        ensures
            final(self).wf(),
            final(self).data() == old(self).data(),
            final(self).pos() == word_end(old(self).data(), old(self).pos()),
    {
        let ghost data = self.data();
        let ghost start = self.pos();
        self.consume_while(|b: u8| -> (r: bool)
            ensures
                r == !is_ws(b),
            { !is_whitespace_byte(b) });
        proof {
            lemma_word_end_exact(data, start, self.pos());
        }
    }

    /// The byte at the cursor, without consuming it.
    pub fn first(&self) -> (r: Option<u8>)
        requires
            self.wf(),
        ensures
            r == if self.pos() < self.data().len() {
                Some(self.data()[self.pos()])
            } else {
                None::<u8>
            },
    {
        self.nth(0)
    }

    /// The byte one past the cursor, without consuming anything.
    pub fn second(&self) -> (r: Option<u8>)
        requires
            self.wf(),
        ensures
            r == if self.pos() + 1 < self.data().len() {
                Some(self.data()[self.pos() + 1])
            } else {
                None::<u8>
            },
    {
        self.nth(1)
    }

    /// The byte `n` past the cursor, without consuming anything.
    fn nth(&self, n: usize) -> (r: Option<u8>)
        requires
            self.wf(),
        ensures
            r == if self.pos() + n < self.data().len() {
                Some(self.data()[self.pos() + n])
            } else {
                None::<u8>
            },
    {
        let cap = self.bytes.len();
        if n < cap - self.index {
            self.get(self.index + n)
        } else {
            None
        }
    }

    /// The byte at an absolute offset, or `None` when it is out of bounds.
    fn get(&self, index: usize) -> (r: Option<u8>)
        ensures
            r == if index < self.data().len() {
                Some(self.data()[index as int])
            } else {
                None::<u8>
            },
    {
        if self.in_bounds(index) {
            Some(self.bytes[index])
        } else {
            None
        }
    }

    /// Advances the cursor by `amount`, clamped at the buffer length.
    pub(crate) fn advance(&mut self, amount: usize)
        requires
            old(self).wf(),
        ensures
            final(self).wf(),
            final(self).data() == old(self).data(),
            final(self).pos() == if old(self).pos() + amount <= old(self).data().len() {
                old(self).pos() + amount
            } else {
                old(self).data().len() as int
            },
    {
        let cap = self.bytes.len();
        let idx = if amount < cap - self.index {
            self.index + amount
        } else {
            cap
        };
        self.advance_to(idx);
    }

    /// Moves the cursor to an absolute offset, clamped at the buffer length.
    pub(crate) fn advance_to(&mut self, index: usize)
        requires
            old(self).wf(),
        ensures
            final(self).wf(),
            final(self).data() == old(self).data(),
            final(self).pos() == if index <= old(self).data().len() {
                index as int
            } else {
                old(self).data().len() as int
            },
    {
        self.index = if self.bytes.len() < index {
            self.bytes.len()
        } else {
            index
        };
    }

    /// The current offset as a `usize`.
    pub fn index(&self) -> (r: usize)
        ensures
            r == self.pos(),
    {
        self.index
    }

    /// The current offset as a [`BytePos`].
    pub fn byte_pos(&self) -> (r: crate::span::BytePos)
        requires
            self.pos() <= u32::MAX,
        ensures
            r.0 == self.pos(),
    {
        crate::span::BytePos::from_usize(self.index)
    }

    /// True when an absolute offset denotes a byte of the buffer.
    pub(crate) fn in_bounds(&self, index: usize) -> (r: bool)
        ensures
            r == (index < self.data().len()),
    {
        self.bytes.len() > index
    }

    /// True when the cursor is at the end of the buffer.
    pub fn is_eof(&self) -> (r: bool)
        ensures
            r == (self.pos() >= self.data().len()),
    {
        self.index >= self.bytes.len()
    }
}

/// The parsing primitives shared by every token grammar: single-byte
/// lookahead and consumption, byte-class tests, expected literals, and runs
/// up to a terminator.
#[derive(Debug, Clone, Copy)]
pub struct Parser<'a> {
    cursor: Cursor<'a>,
}

impl<'a> Parser<'a> {
    /// The bytes the parser reads.
    pub closed spec fn data(self) -> Seq<u8> {
        self.cursor.data()
    }

    /// The current offset.
    pub closed spec fn pos(self) -> int {
        self.cursor.pos()
    }

    /// The offset is within the buffer.
    pub open spec fn wf(self) -> bool {
        0 <= self.pos() <= self.data().len()
    }

    /// Starts a parser at the beginning of `bytes`.
    pub fn new(bytes: &'a [u8]) -> (r: Self)
        ensures
            r.data() == bytes@,
            r.pos() == 0,
            r.wf(),
    {
        Parser { cursor: Cursor::new(bytes) }
    }

    /// True when all input has been consumed.
    pub fn is_eof(&self) -> (r: bool)
        ensures
            r == (self.pos() >= self.data().len()),
    {
        self.cursor.is_eof()
    }

    /// Consumes and returns the next byte, or `None` at the end.
    pub fn parse_u8(&mut self) -> (r: Option<u8>)
        requires
            old(self).wf(),
        ensures
            final(self).wf(),
            final(self).data() == old(self).data(),
            old(self).pos() < old(self).data().len() ==> r == Some(
                old(self).data()[old(self).pos()],
            ) && final(self).pos() == old(self).pos() + 1,
            old(self).pos() >= old(self).data().len() ==> r is None && final(self).pos() == old(self).pos(),
    {
        self.cursor.consume()
    }

    /// Consumes one ASCII letter of either case, or fails without moving.
    pub fn parse_alpha(&mut self) -> (r: Option<char>)
        requires
            old(self).wf(),
        ensures
            final(self).wf(),
            final(self).data() == old(self).data(),
            old(self).pos() < old(self).data().len() && (is_lower(
                old(self).data()[old(self).pos()],
            ) || is_upper(old(self).data()[old(self).pos()])) ==> r == Some(
                old(self).data()[old(self).pos()] as char,
            ) && final(self).pos() == old(self).pos() + 1,
            !(old(self).pos() < old(self).data().len() && (is_lower(
                old(self).data()[old(self).pos()],
            ) || is_upper(old(self).data()[old(self).pos()]))) ==> r is None && final(self).pos()
                == old(self).pos(),
    {
        match self.parse_alpha_lower() {
            None => self.parse_alpha_upper(),
            x => x,
        }
    }

    /// Consumes one ASCII lowercase letter, or fails without moving.
    pub fn parse_alpha_lower(&mut self) -> (r: Option<char>)
        requires
            old(self).wf(),
        ensures
            final(self).wf(),
            final(self).data() == old(self).data(),
            old(self).pos() < old(self).data().len() && is_lower(old(self).data()[old(self).pos()])
                ==> r == Some(old(self).data()[old(self).pos()] as char) && final(self).pos()
                == old(self).pos() + 1,
            !(old(self).pos() < old(self).data().len() && is_lower(
                old(self).data()[old(self).pos()],
            )) ==> r is None && final(self).pos() == old(self).pos(),
    {
        match self.cursor.first() {
            Some(x) => {
                if 0x61 <= x && x <= 0x7a {
                    self.cursor.advance(1);
                    Some(x as char)
                } else {
                    None
                }
            },
            None => None,
        }
    }

    /// Consumes one ASCII uppercase letter, or fails without moving.
    pub fn parse_alpha_upper(&mut self) -> (r: Option<char>)
        requires
            old(self).wf(),
        ensures
            final(self).wf(),
            final(self).data() == old(self).data(),
            old(self).pos() < old(self).data().len() && is_upper(old(self).data()[old(self).pos()])
                ==> r == Some(old(self).data()[old(self).pos()] as char) && final(self).pos()
                == old(self).pos() + 1,
            !(old(self).pos() < old(self).data().len() && is_upper(
                old(self).data()[old(self).pos()],
            )) ==> r is None && final(self).pos() == old(self).pos(),
    {
        match self.cursor.first() {
            Some(x) => {
                if 0x41 <= x && x <= 0x5a {
                    self.cursor.advance(1);
                    Some(x as char)
                } else {
                    None
                }
            },
            None => None,
        }
    }

    /// Consumes one ASCII digit and returns its value, or fails without
    /// moving.
    pub fn parse_digit(&mut self) -> (r: Option<u8>)
        requires
            old(self).wf(),
        ensures
            final(self).wf(),
            final(self).data() == old(self).data(),
            old(self).pos() < old(self).data().len() && is_digit(old(self).data()[old(self).pos()])
                ==> r == Some((old(self).data()[old(self).pos()] - 0x30) as u8) && final(self).pos() == old(self).pos() + 1,
            !(old(self).pos() < old(self).data().len() && is_digit(
                old(self).data()[old(self).pos()],
            )) ==> r is None && final(self).pos() == old(self).pos(),
    {
        match self.cursor.first() {
            Some(x) => {
                if 0x30 <= x && x <= 0x39 {
                    self.cursor.advance(1);
                    Some(x - 0x30)
                } else {
                    None
                }
            },
            None => None,
        }
    }

    /// Consumes bytes up to (not including) the first `terminator` byte or
    /// the end, and returns them; fails only when the input is already
    /// exhausted.
    pub fn parse_until(&mut self, terminator: u8) -> (r: Option<&'a [u8]>)
        requires
            old(self).wf(),
        ensures
            final(self).wf(),
            final(self).data() == old(self).data(),
            old(self).pos() >= old(self).data().len() ==> r is None && final(self).pos() == old(self).pos(),
            old(self).pos() < old(self).data().len() ==> final(self).pos() == scan_to(
                old(self).data(),
                old(self).pos(),
                terminator,
            ) && (match r {
                Some(s) => s@ == old(self).data().subrange(old(self).pos(), final(self).pos()),
                None => false,
            }),
    {
        if self.cursor.is_eof() {
            None
        } else {
            let ghost data = self.data();
            let start = self.cursor.index();
            self.cursor.consume_while(|b: u8| -> (r: bool)
                ensures
                    r == (b != terminator),
                { b != terminator });
            proof {
                lemma_scan_to_exact(data, start as int, self.pos(), terminator);
            }
            Some(vstd::slice::slice_subrange(self.cursor.bytes, start, self.cursor.index))
        }
    }

    /// Consumes the next byte when it equals `expect`, or fails without
    /// moving.
    pub fn expect_u8(&mut self, expect: u8) -> (r: Option<u8>)
        requires
            old(self).wf(),
        ensures
            final(self).wf(),
            final(self).data() == old(self).data(),
            old(self).pos() < old(self).data().len() && old(self).data()[old(self).pos()] == expect
                ==> r == Some(expect) && final(self).pos() == old(self).pos() + 1,
            !(old(self).pos() < old(self).data().len() && old(self).data()[old(self).pos()]
                == expect) ==> r is None && final(self).pos() == old(self).pos(),
    {
        match self.cursor.first() {
            Some(x) => {
                if x == expect {
                    self.cursor.advance(1);
                    Some(expect)
                } else {
                    None
                }
            },
            None => None,
        }
    }

    /// Consumes the next byte when it is ASCII whitespace, or fails without
    /// moving.
    pub fn expect_whitespace(&mut self) -> (r: Option<()>)
        requires
            old(self).wf(),
        ensures
            final(self).wf(),
            final(self).data() == old(self).data(),
            old(self).pos() < old(self).data().len() && is_ws(old(self).data()[old(self).pos()])
                ==> r is Some && final(self).pos() == old(self).pos() + 1,
            !(old(self).pos() < old(self).data().len() && is_ws(
                old(self).data()[old(self).pos()],
            )) ==> r is None && final(self).pos() == old(self).pos(),
    {
        match self.cursor.first() {
            Some(x) => {
                if is_whitespace_byte(x) {
                    self.cursor.advance(1);
                    Some(())
                } else {
                    None
                }
            },
            None => None,
        }
    }

    /// True when the slice of bytes expected by [`Parser::expect_slice`]
    /// matches at the given position: the expectation is non-empty, its
    /// bytes all lie within the buffer, and they agree with it.  An empty
    /// expectation never matches.
    pub open spec fn slice_matches_at(b: Seq<u8>, i: int, expect: Seq<u8>) -> bool {
        expect.len() > 0 && i + expect.len() <= b.len() && b.subrange(i, i + expect.len())
            == expect
    }

    /// Consumes an expected run of bytes when the input continues with
    /// exactly those bytes, or fails without moving.
    pub fn expect_slice(&mut self, expect: &[u8]) -> (r: Option<&'a [u8]>)
        requires
            old(self).wf(),
            old(self).pos() + expect@.len() <= usize::MAX,
        ensures
            final(self).wf(),
            final(self).data() == old(self).data(),
            Self::slice_matches_at(old(self).data(), old(self).pos(), expect@) ==> (match r {
                Some(s) => s@ == expect@ && final(self).pos() == old(self).pos() + expect@.len(),
                None => false,
            }),
            !Self::slice_matches_at(old(self).data(), old(self).pos(), expect@) ==> r is None
                && final(self).pos() == old(self).pos(),
    {
        let len = expect.len();
        if len == 0 {
            return None;
        }
        let index_end = self.cursor.index() + (len - 1);

        if self.cursor.in_bounds(index_end) {
            let start = self.cursor.index();
            let slice = vstd::slice::slice_subrange(self.cursor.bytes, start, start + len);

            if slices_equal(slice, expect) {
                self.cursor.advance(len);
                Some(slice)
            } else {
                None
            }
        } else {
            None
        }
    }

    /// The byte at the current position, without consuming it.
    pub fn peek(&self) -> (r: Option<u8>)
        requires
            self.wf(),
        ensures
            r == if self.pos() < self.data().len() {
                Some(self.data()[self.pos()])
            } else {
                None::<u8>
            },
    {
        self.cursor.first()
    }
}

/// Compares two byte slices for equality of contents.
fn slices_equal(a: &[u8], b: &[u8]) -> (r: bool)
    ensures
        r == (a@ == b@),
{
    if a.len() != b.len() {
        proof {
            assert(a@ != b@);
        }
        return false;
    }
    let n = a.len();
    let mut i: usize = 0;
    while i < n
        invariant
            0 <= i <= n,
            n == a@.len() == b@.len(),
            forall|k: int| 0 <= k < i ==> a@[k] == b@[k],
        decreases n - i,
    {
        if a[i] != b[i] {
            return false;
        }
        i = i + 1;
    }
    proof {
        assert(a@ =~= b@);
    }
    true
}

} // verus!
