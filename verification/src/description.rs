//! The description part of a task: the raw remainder text of a line plus
//! the byte ranges of the project tags, context tags and custom `key:value`
//! tags embedded in it.
//!
//! The description owns its text verbatim; tags are located once, in a
//! single forward pass over the bytes, and stored as byte-range records
//! into the unmodified text, so no substring is copied until a caller asks
//! for one.  The pass is specified by [`spec_index`]: the text is split
//! into ASCII-whitespace-delimited words and each word is classified, in
//! this order, as a project (`+name`), a context (`@name`), a custom tag
//! (`key:value` with exactly one colon, neither at the first nor at the
//! last position), or plain text.

use vstd::prelude::*;
use vstd::utf8::decode_utf8;
use vstd::utf8::encode_utf8;
use vstd::utf8::is_char_boundary;
use vstd::utf8::is_continuation_byte;
use vstd::utf8::is_leading_byte_width_1;
use vstd::utf8::length_of_first_scalar;
use vstd::utf8::pop_first_scalar;
use vstd::utf8::valid_first_scalar;
use vstd::utf8::valid_utf8;
use vstd::string::StringSliceAdditionalSpecFns;

use crate::parse::Cursor;
use crate::parse::Parser;
use crate::parse::is_ws;
use crate::parse::is_whitespace_byte;
use crate::parse::key_end;
use crate::parse::lemma_key_end;
use crate::parse::lemma_scan_to;
use crate::parse::lemma_skip_ws;
use crate::parse::lemma_word_end;
use crate::parse::scan_to;
use crate::parse::skip_ws;
use crate::parse::word_end;
use crate::span::BytePos;
use crate::span::ByteSpan;

verus! {

broadcast use vstd::utf8::encode_utf8_valid_utf8;

/// The byte ranges of one project tag: the full word (with the leading
/// `+`) and the name (the word minus the leading `+`).
#[derive(Debug, Clone, Copy, PartialEq, Eq, Structural, Hash)]
pub struct ProjectRange {
    /// The whole word, including the leading `+`.
    pub full: ByteSpan,
    /// The tag name, excluding the leading `+`.
    pub name: ByteSpan,
}

impl ProjectRange {
    /// Builds the record for the project word covering `full`; the name
    /// range drops the leading marker byte.
    pub fn new(full: ByteSpan) -> (r: Self)
        requires
            full.low.0 < u32::MAX,
        ensures
            r.full == full,
            r.name.low.0 == full.low.0 + 1,
            r.name.high == full.high,
    {
        let name = full.offset_low(1);
        ProjectRange { full, name }
    }

    /// The span of the whole word.
    pub fn full(&self) -> (r: &ByteSpan)
        ensures
            *r == self.full,
    {
        &self.full
    }

    /// The span of the tag name.
    pub fn project(&self) -> (r: &ByteSpan)
        ensures
            *r == self.name,
    {
        &self.name
    }

    /// Resolves the name span against the text it was computed from.
    pub fn index(&self, s: &str) -> (r: String)
        requires
            self.name.low.0 <= self.name.high.0 <= s.spec_bytes().len(),
            is_char_boundary(s.spec_bytes(), self.name.low.0 as int),
            is_char_boundary(s.spec_bytes(), self.name.high.0 as int),
        ensures
            encode_utf8(r@) == s.spec_bytes().subrange(
                self.name.low.0 as int,
                self.name.high.0 as int,
            ),
    {
        substring_by_bytes(s, self.name.low.as_usize(), self.name.high.as_usize())
    }
}

/// The byte ranges of one context tag: the full word (with the leading
/// `@`) and the name (the word minus the leading `@`).
#[derive(Debug, Clone, Copy, PartialEq, Eq, Structural, Hash)]
pub struct ContextRange {
    /// The whole word, including the leading `@`.
    pub full: ByteSpan,
    /// The tag name, excluding the leading `@`.
    pub name: ByteSpan,
}

impl ContextRange {
    /// Builds the record for the context word covering `full`; the name
    /// range drops the leading marker byte.
    pub fn new(full: ByteSpan) -> (r: Self)
        requires
            full.low.0 < u32::MAX,
        ensures
            r.full == full,
            r.name.low.0 == full.low.0 + 1,
            r.name.high == full.high,
    {
        let name = full.offset_low(1);
        ContextRange { full, name }
    }

    /// The span of the whole word.
    pub fn full(&self) -> (r: &ByteSpan)
        ensures
            *r == self.full,
    {
        &self.full
    }

    /// The span of the tag name.
    pub fn context(&self) -> (r: &ByteSpan)
        ensures
            *r == self.name,
    {
        &self.name
    }

    /// Resolves the name span against the text it was computed from.
    pub fn index(&self, s: &str) -> (r: String)
        requires
            self.name.low.0 <= self.name.high.0 <= s.spec_bytes().len(),
            is_char_boundary(s.spec_bytes(), self.name.low.0 as int),
            is_char_boundary(s.spec_bytes(), self.name.high.0 as int),
        ensures
            encode_utf8(r@) == s.spec_bytes().subrange(
                self.name.low.0 as int,
                self.name.high.0 as int,
            ),
    {
        substring_by_bytes(s, self.name.low.as_usize(), self.name.high.as_usize())
    }
}

/// The byte ranges of one custom `key:value` tag: the full word, the key,
/// the one-byte separator and the value.
#[derive(Debug, Clone, Copy, PartialEq, Eq, Structural, Hash)]
pub struct CustomRange {
    /// The whole word.
    pub full: ByteSpan,
    /// The key, before the separator.
    pub key: ByteSpan,
    /// The one-byte `:` separator.
    pub separator: ByteSpan,
    /// The value, after the separator.
    pub value: ByteSpan,
}

impl CustomRange {
    /// Builds the record for a custom tag from its key, separator and value
    /// ranges; the full range is the smallest span containing key and
    /// value.
    pub fn new(key: ByteSpan, separator: ByteSpan, value: ByteSpan) -> (r: Self)
        ensures
            r.key == key,
            r.separator == separator,
            r.value == value,
            r.full.low.0 == if key.low.0 <= value.low.0 {
                key.low.0
            } else {
                value.low.0
            },
            r.full.high.0 == if key.high.0 >= value.high.0 {
                key.high.0
            } else {
                value.high.0
            },
    {
        let full = key.union(&value);
        CustomRange { full, key, separator, value }
    }

    /// The span of the whole word.
    pub fn full(&self) -> (r: &ByteSpan)
        ensures
            *r == self.full,
    {
        &self.full
    }

    /// The span of the key.
    pub fn key(&self) -> (r: &ByteSpan)
        ensures
            *r == self.key,
    {
        &self.key
    }

    /// The span of the separator.
    pub fn separator(&self) -> (r: &ByteSpan)
        ensures
            *r == self.separator,
    {
        &self.separator
    }

    /// The span of the value.
    pub fn value(&self) -> (r: &ByteSpan)
        ensures
            *r == self.value,
    {
        &self.value
    }

    /// Resolves the key and value spans against the text they were computed
    /// from.
    pub fn index(&self, s: &str) -> (r: (String, String))
        requires
            self.key.low.0 <= self.key.high.0 <= s.spec_bytes().len(),
            self.value.low.0 <= self.value.high.0 <= s.spec_bytes().len(),
            is_char_boundary(s.spec_bytes(), self.key.low.0 as int),
            is_char_boundary(s.spec_bytes(), self.key.high.0 as int),
            is_char_boundary(s.spec_bytes(), self.value.low.0 as int),
            is_char_boundary(s.spec_bytes(), self.value.high.0 as int),
        ensures
            encode_utf8(r.0@) == s.spec_bytes().subrange(
                self.key.low.0 as int,
                self.key.high.0 as int,
            ),
            encode_utf8(r.1@) == s.spec_bytes().subrange(
                self.value.low.0 as int,
                self.value.high.0 as int,
            ),
    {
        (
            substring_by_bytes(s, self.key.low.as_usize(), self.key.high.as_usize()),
            substring_by_bytes(s, self.value.low.as_usize(), self.value.high.as_usize()),
        )
    }
}

/// A position at an ASCII byte (or the end) of a valid UTF-8 sequence is a
/// character boundary: a byte below 0x80 cannot be a continuation byte.
pub proof fn lemma_boundary_at_ascii(b: Seq<u8>, p: int)
    requires
        valid_utf8(b),
        0 <= p <= b.len(),
        p == b.len() || b[p] < 0x80,
    ensures
        is_char_boundary(b, p),
{
    if p == b.len() {
        vstd::utf8::is_char_boundary_start_end_of_seq(b);
    } else {
        vstd::utf8::is_char_boundary_iff_not_is_continuation_byte(b, p);
    }
}

/// The position after an ASCII byte of a valid UTF-8 sequence is a
/// character boundary: the ASCII byte is a whole scalar, and the byte after
/// a scalar must begin a new one.
pub proof fn lemma_boundary_after_ascii(b: Seq<u8>, p: int)
    requires
        valid_utf8(b),
        0 < p <= b.len(),
        b[p - 1] < 0x80,
    ensures
        is_char_boundary(b, p),
{
    if p == b.len() {
        vstd::utf8::is_char_boundary_start_end_of_seq(b);
    } else {
        lemma_boundary_at_ascii(b, p - 1);
        vstd::utf8::valid_utf8_split(b, p - 1);
        let s2 = b.subrange(p - 1, b.len() as int);
        assert(valid_utf8(s2));
        assert(s2.len() >= 2);
        assert(s2[0] == b[p - 1]);
        assert(is_leading_byte_width_1(s2[0]));
        assert(valid_first_scalar(s2));
        assert(length_of_first_scalar(s2) == 1);
        let s3 = pop_first_scalar(s2);
        assert(valid_utf8(s3));
        assert(s3.len() > 0);
        assert(s3[0] == s2[1]);
        assert(s2[1] == b[p]);
        assert(valid_first_scalar(s3));
        assert(!is_continuation_byte(b[p]));
        vstd::utf8::is_char_boundary_iff_not_is_continuation_byte(b, p);
    }
}

/// A character boundary keeps being one after the sequence is cut at an
/// earlier boundary.
pub proof fn lemma_boundary_in_suffix(b: Seq<u8>, i: int, j: int)
    requires
        valid_utf8(b),
        is_char_boundary(b, i),
        is_char_boundary(b, j),
        0 <= i <= j <= b.len(),
    ensures
        is_char_boundary(b.subrange(i, b.len() as int), j - i),
    decreases b.len(),
{
    if i == 0 {
        assert(b.subrange(0, b.len() as int) =~= b);
    } else {
        let l1 = length_of_first_scalar(b);
        let pop = pop_first_scalar(b);
        assert(valid_first_scalar(b));
        assert(1 <= l1 <= b.len());
        assert(is_char_boundary(pop, i - l1));
        assert(is_char_boundary(pop, j - l1));
        assert(valid_utf8(pop));
        lemma_boundary_in_suffix(pop, i - l1, j - l1);
        assert(pop.subrange(i - l1, pop.len() as int) =~= b.subrange(i, b.len() as int));
    }
}

/// Copies the substring of `s` covering the byte range `[lo, hi)`, which
/// must lie on character boundaries of the text.
fn substring_by_bytes(s: &str, lo: usize, hi: usize) -> (r: String)
    requires
        lo <= hi <= s.spec_bytes().len(),
        is_char_boundary(s.spec_bytes(), lo as int),
        is_char_boundary(s.spec_bytes(), hi as int),
    ensures
        encode_utf8(r@) == s.spec_bytes().subrange(lo as int, hi as int),
{
    proof {
        vstd::utf8::valid_utf8_split(s.spec_bytes(), lo as int);
        lemma_boundary_in_suffix(s.spec_bytes(), lo as int, hi as int);
    }
    let (_pre, rest) = s.split_at(lo);
    let (mid, _post) = rest.split_at(hi - lo);
    proof {
        assert(mid.spec_bytes() =~= s.spec_bytes().subrange(lo as int, hi as int));
    }
    mid.to_owned()
}

/// True when the word `[s, e)` of `b` is a project tag: a `+` followed by
/// at least one non-whitespace byte.
pub open spec fn is_project_word(b: Seq<u8>, s: int, e: int) -> bool {
    e - s >= 2 && b[s] == 0x2b
}

/// True when the word `[s, e)` of `b` is a context tag: a `@` followed by
/// at least one non-whitespace byte.
pub open spec fn is_context_word(b: Seq<u8>, s: int, e: int) -> bool {
    e - s >= 2 && b[s] == 0x40
}

/// True when the word `[s, e)` of `b` has the shape of a custom tag: a
/// non-empty colon-free key, one `:` separator, and a non-empty colon-free
/// value that runs to the end of the word.
pub open spec fn custom_shape(b: Seq<u8>, s: int, e: int) -> bool {
    let k = key_end(b, s);
    &&& s < k
    &&& k < e
    &&& b[k] == 0x3a
    &&& k + 1 < e
    &&& key_end(b, k + 1) == e
}

/// True when the word `[s, e)` of `b` is classified as a custom tag: it
/// has the custom shape and was not already taken as a project or context
/// tag (classification is attempted once per word, in the priority order
/// project, context, custom, plain text).
pub open spec fn is_custom_word(b: Seq<u8>, s: int, e: int) -> bool {
    &&& !is_project_word(b, s, e)
    &&& !is_context_word(b, s, e)
    &&& custom_shape(b, s, e)
}

/// The span `[lo, hi)` as a [`ByteSpan`].
pub open spec fn span_at(lo: int, hi: int) -> ByteSpan {
    ByteSpan { low: BytePos(lo as u32), high: BytePos(hi as u32) }
}

/// The record of the project word `[s, e)`.
pub open spec fn project_range_at(s: int, e: int) -> ProjectRange {
    ProjectRange { full: span_at(s, e), name: span_at(s + 1, e) }
}

/// The record of the context word `[s, e)`.
pub open spec fn context_range_at(s: int, e: int) -> ContextRange {
    ContextRange { full: span_at(s, e), name: span_at(s + 1, e) }
}

/// The record of the custom-tag word `[s, e)` of `b`.
pub open spec fn custom_range_at(b: Seq<u8>, s: int, e: int) -> CustomRange {
    let k = key_end(b, s);
    CustomRange {
        full: span_at(s, e),
        key: span_at(s, k),
        separator: span_at(k, k + 1),
        value: span_at(k + 1, e),
    }
}

/// The classified words of `b` from position `i` on: one forward pass over
/// the whitespace-delimited words, collecting the project, context and
/// custom-tag records in order.
pub open spec fn spec_index(b: Seq<u8>, i: int) -> (
    Seq<ProjectRange>,
    Seq<ContextRange>,
    Seq<CustomRange>,
)
    recommends
        0 <= i <= b.len(),
    decreases b.len() - i,
    when 0 <= i <= b.len()
    via spec_index_decreases
{
    let s = skip_ws(b, i);
    if s >= b.len() {
        (Seq::empty(), Seq::empty(), Seq::empty())
    } else {
        let e = word_end(b, s);
        let rest = spec_index(b, e);
        if is_project_word(b, s, e) {
            (seq![project_range_at(s, e)] + rest.0, rest.1, rest.2)
        } else if is_context_word(b, s, e) {
            (rest.0, seq![context_range_at(s, e)] + rest.1, rest.2)
        } else if is_custom_word(b, s, e) {
            (rest.0, rest.1, seq![custom_range_at(b, s, e)] + rest.2)
        } else {
            (rest.0, rest.1, rest.2)
        }
    }
}

#[via_fn]
proof fn spec_index_decreases(b: Seq<u8>, i: int) {
    if 0 <= i <= b.len() {
        lemma_skip_ws(b, i);
        let s = skip_ws(b, i);
        if s < b.len() {
            lemma_word_end(b, s);
        }
    }
}

impl Description {
    /// Reads the project word starting at the cursor, consuming it, and
    /// returns its record.
    fn read_project(cursor: &mut Cursor<'_>, word_start: BytePos) -> (r: ProjectRange)
        requires
            old(cursor).wf(),
            old(cursor).data().len() <= u32::MAX,
            word_start.0 == old(cursor).pos(),
            old(cursor).pos() < old(cursor).data().len(),
        ensures
            final(cursor).wf(),
            final(cursor).data() == old(cursor).data(),
            final(cursor).pos() == word_end(old(cursor).data(), old(cursor).pos()),
            r == project_range_at(old(cursor).pos(), final(cursor).pos()),
    {
        proof {
            lemma_word_end(old(cursor).data(), old(cursor).pos());
        }
        cursor.consume_non_whitespaces();
        let span = ByteSpan::new(word_start, cursor.byte_pos());
        ProjectRange::new(span)
    }

    /// Reads the context word starting at the cursor, consuming it, and
    /// returns its record.
    fn read_context(cursor: &mut Cursor<'_>, word_start: BytePos) -> (r: ContextRange)
        requires
            old(cursor).wf(),
            old(cursor).data().len() <= u32::MAX,
            word_start.0 == old(cursor).pos(),
            old(cursor).pos() < old(cursor).data().len(),
        ensures
            final(cursor).wf(),
            final(cursor).data() == old(cursor).data(),
            final(cursor).pos() == word_end(old(cursor).data(), old(cursor).pos()),
            r == context_range_at(old(cursor).pos(), final(cursor).pos()),
    {
        proof {
            lemma_word_end(old(cursor).data(), old(cursor).pos());
        }
        cursor.consume_non_whitespaces();
        let span = ByteSpan::new(word_start, cursor.byte_pos());
        ContextRange::new(span)
    }

    /// Tries to read a custom `key:value` tag in the word starting at the
    /// cursor.  On success the whole word is consumed and its record
    /// returned; on failure the cursor is left somewhere inside the word.
    fn read_custom(cursor: &mut Cursor<'_>, word_start: BytePos) -> (r: Option<CustomRange>)
        requires
            old(cursor).wf(),
            old(cursor).data().len() <= u32::MAX,
            word_start.0 == old(cursor).pos(),
            old(cursor).pos() < old(cursor).data().len(),
        ensures
            final(cursor).wf(),
            final(cursor).data() == old(cursor).data(),
            old(cursor).pos() <= final(cursor).pos() <= word_end(
                old(cursor).data(),
                old(cursor).pos(),
            ),
            ({
                let b = old(cursor).data();
                let s = old(cursor).pos();
                let e = word_end(b, s);
                if custom_shape(b, s, e) {
                    r == Some(custom_range_at(b, s, e)) && final(cursor).pos() == e
                } else {
                    r is None
                }
            }),
    {
        let ghost b = cursor.data();
        let ghost s = cursor.pos();
        let ghost e = word_end(b, s);
        proof {
            lemma_word_end(b, s);
            lemma_key_end(b, s);
        }

        cursor.consume_while(|x: u8| -> (keep: bool)
            ensures
                keep == (!is_ws(x) && x != 0x3a),
            { !is_whitespace_byte(x) && x != 0x3a });
        proof {
            crate::parse::lemma_key_end_exact(b, s, cursor.pos());
        }
        let ghost k = cursor.pos();

        let at_colon = match cursor.first() {
            Some(x) => x == 0x3a,
            None => false,
        };
        if at_colon {
            let key_span = ByteSpan::new(word_start, cursor.byte_pos());
            let _ = cursor.consume();
            let separator_span = ByteSpan::new(cursor.byte_pos(), cursor.byte_pos()).offset_low(
                -1,
            );

            let value_ok = match cursor.first() {
                Some(x) => !is_whitespace_byte(x) && x != 0x3a,
                None => false,
            };
            if key_span.len() > 0 && value_ok {
                let value_start = cursor.byte_pos();
                cursor.consume_while(|x: u8| -> (keep: bool)
                    ensures
                        keep == (!is_ws(x) && x != 0x3a),
                    { !is_whitespace_byte(x) && x != 0x3a });
                proof {
                    crate::parse::lemma_key_end_exact(b, k + 1, cursor.pos());
                    lemma_key_end(b, k + 1);
                }
                let value_span = ByteSpan::new(value_start, cursor.byte_pos());

                let after_ok = match cursor.first() {
                    Some(x) => !is_whitespace_byte(x),
                    None => false,
                };
                if !(value_span.len() == 0 || after_ok) {
                    proof {
                        assert(cursor.pos() == e);
                    }
                    return Some(CustomRange::new(key_span, separator_span, value_span));
                }
            }
        }

        None
    }

    // project: \+[^ ]+
    // context: \@[^ ]+
    // custom : [^ ]+\:[^ ]+
    /// Locates every project, context and custom tag of `s` in one forward
    /// pass over its bytes.
    fn index(s: &str) -> (r: (Vec<ProjectRange>, Vec<ContextRange>, Vec<CustomRange>))
        requires
            s.spec_bytes().len() <= u32::MAX,
        ensures
            (r.0@, r.1@, r.2@) == spec_index(s.spec_bytes(), 0),
    {
        let bytes = s.as_bytes();
        let ghost b = bytes@;
        let mut projects: Vec<ProjectRange> = Vec::new();
        let mut contexts: Vec<ContextRange> = Vec::new();
        let mut custom: Vec<CustomRange> = Vec::new();

        let mut cursor = Cursor::new(bytes);

        loop
            invariant
                cursor.wf(),
                cursor.data() == b,
                b.len() <= u32::MAX,
                spec_index(b, 0).0 == projects@ + spec_index(b, cursor.pos()).0,
                spec_index(b, 0).1 == contexts@ + spec_index(b, cursor.pos()).1,
                spec_index(b, 0).2 == custom@ + spec_index(b, cursor.pos()).2,
            ensures
                cursor.wf(),
                cursor.data() == b,
                cursor.pos() >= b.len(),
                spec_index(b, 0).0 == projects@ + spec_index(b, cursor.pos()).0,
                spec_index(b, 0).1 == contexts@ + spec_index(b, cursor.pos()).1,
                spec_index(b, 0).2 == custom@ + spec_index(b, cursor.pos()).2,
            decreases b.len() - cursor.pos(),
        {
            if cursor.is_eof() {
                break ;
            }
            let ghost i0 = cursor.pos();

            // reset word boundary
            cursor.consume_whitespaces();
            let word_start = cursor.byte_pos();
            let ghost s = cursor.pos();
            let ghost e = word_end(b, s);
            proof {
                lemma_skip_ws(b, i0);
                lemma_word_end(b, s);
            }

            let head = cursor.first();
            if head.is_none() {
                // only trailing whitespace was left
                proof {
                    assert(spec_index(b, 0).0 =~= projects@ + spec_index(b, cursor.pos()).0);
                    assert(spec_index(b, 0).1 =~= contexts@ + spec_index(b, cursor.pos()).1);
                    assert(spec_index(b, 0).2 =~= custom@ + spec_index(b, cursor.pos()).2);
                }
                break ;
            }
            let first_byte = head.unwrap();
            let second_nonws = match cursor.second() {
                Some(x) => !is_whitespace_byte(x),
                None => false,
            };
            if first_byte == 0x2b && second_nonws {
                // read project
                let range = Self::read_project(&mut cursor, word_start);
                projects.push(range);
                proof {
                    assert(spec_index(b, 0).0 =~= projects@ + spec_index(b, cursor.pos()).0);
                    assert(spec_index(b, 0).1 =~= contexts@ + spec_index(b, cursor.pos()).1);
                    assert(spec_index(b, 0).2 =~= custom@ + spec_index(b, cursor.pos()).2);
                }
            } else if first_byte == 0x40 && second_nonws {
                // read context
                let range = Self::read_context(&mut cursor, word_start);
                contexts.push(range);
                proof {
                    assert(spec_index(b, 0).0 =~= projects@ + spec_index(b, cursor.pos()).0);
                    assert(spec_index(b, 0).1 =~= contexts@ + spec_index(b, cursor.pos()).1);
                    assert(spec_index(b, 0).2 =~= custom@ + spec_index(b, cursor.pos()).2);
                }
            } else if second_nonws {
                // try to read a custom tag; keep word boundaries intact on
                // failure
                match Self::read_custom(&mut cursor, word_start) {
                    Some(range) => {
                        custom.push(range);
                    },
                    None => {
                        let ghost mid = cursor.pos();
                        cursor.consume_non_whitespaces();
                        proof {
                            lemma_word_end(b, mid);
                            assert(cursor.pos() == e);
                        }
                    },
                }
                proof {
                    assert(spec_index(b, 0).0 =~= projects@ + spec_index(b, cursor.pos()).0);
                    assert(spec_index(b, 0).1 =~= contexts@ + spec_index(b, cursor.pos()).1);
                    assert(spec_index(b, 0).2 =~= custom@ + spec_index(b, cursor.pos()).2);
                }
            } else {
                // a one-byte word: plain text, skip it
                cursor.consume_non_whitespaces();
                proof {
                    assert(spec_index(b, 0).0 =~= projects@ + spec_index(b, cursor.pos()).0);
                    assert(spec_index(b, 0).1 =~= contexts@ + spec_index(b, cursor.pos()).1);
                    assert(spec_index(b, 0).2 =~= custom@ + spec_index(b, cursor.pos()).2);
                }
            }
        }

        proof {
            assert(spec_index(b, cursor.pos()).0 =~= Seq::<ProjectRange>::empty());
            assert(spec_index(b, cursor.pos()).1 =~= Seq::<ContextRange>::empty());
            assert(spec_index(b, cursor.pos()).2 =~= Seq::<CustomRange>::empty());
            assert(projects@ =~= projects@ + Seq::<ProjectRange>::empty());
        }
        (projects, contexts, custom)
    }
}

/// Represents the description part of a task.
///
/// Components like projects, contexts and custom tags are all implemented
/// as byte range indices into the raw description text.  This is done to
/// avoid unnecessary allocations, which in turn reduces the memory
/// footprint.
#[derive(Debug, PartialEq, Eq)]
pub struct Description {
    /// The whole text of the description.
    raw: String,
    /// Byte ranges into the raw text representing projects (e.g.
    /// `+project`).
    projects: Vec<ProjectRange>,
    /// Byte ranges into the raw text representing contexts (e.g.
    /// `@context`).
    contexts: Vec<ContextRange>,
    /// Byte ranges into the raw text representing custom tags (e.g.
    /// `key:value`).
    custom: Vec<CustomRange>,
}

impl Description {
    /// The text of the description, as a sequence of characters.
    pub closed spec fn text(self) -> Seq<char> {
        self.raw@
    }

    /// The UTF-8 bytes of the description's text: the buffer every stored
    /// byte range points into.
    pub open spec fn bytes(self) -> Seq<u8> {
        encode_utf8(self.text())
    }

    /// The stored range records are exactly what the one-pass indexer
    /// computes on the text, whose byte length fits the span type.
    #[verifier::type_invariant]
    pub closed spec fn inv(self) -> bool {
        &&& self.bytes().len() <= u32::MAX
        &&& (self.projects@, self.contexts@, self.custom@) == spec_index(self.bytes(), 0)
    }

    /// Creates a new description from `s`, locating all projects, contexts
    /// and custom tags.
    pub fn new(s: &str) -> (r: Self)
        requires
            s.spec_bytes().len() <= u32::MAX,
        ensures
            r.text() == s@,
    {
        let raw: String = s.to_owned();
        let (projects, contexts, custom) = Self::index(s);

        Description { raw, projects, contexts, custom }
    }

    /// Returns the text of the whole description.
    pub fn description(&self) -> (r: &str)
        ensures
            r@ == self.text(),
    {
        self.raw.as_str()
    }
}

impl Clone for Description {
    /// Clones the description; the copy carries the same text and the same
    /// range records.
    fn clone(&self) -> (r: Self)
        ensures
            r.text() == self.text(),
    {
        proof {
            use_type_invariant(self);
        }
        let r = Description {
            raw: self.raw.clone(),
            projects: self.projects.clone(),
            contexts: self.contexts.clone(),
            custom: self.custom.clone(),
        };
        proof {
            assert(r.projects@ =~= self.projects@);
            assert(r.contexts@ =~= self.contexts@);
            assert(r.custom@ =~= self.custom@);
        }
        r
    }
}

/// Positional well-formedness of a classified word `[s, e)`: it lies in
/// the buffer, is delimited by whitespace (or the buffer ends), and holds
/// no whitespace itself.
pub open spec fn word_bounds_wf(b: Seq<u8>, s: int, e: int) -> bool {
    &&& 0 <= s < e <= b.len()
    &&& (s == 0 || is_ws(b[s - 1]))
    &&& (e == b.len() || is_ws(b[e]))
    &&& (forall|k: int| s <= k < e ==> !is_ws(#[trigger] b[k]))
}

/// What holds of every stored project record: it is the record of a
/// project word at its position.
pub open spec fn project_entry_wf(b: Seq<u8>, p: ProjectRange) -> bool {
    let s = p.full.low.0 as int;
    let e = p.full.high.0 as int;
    &&& word_bounds_wf(b, s, e)
    &&& is_project_word(b, s, e)
    &&& p.name == span_at(s + 1, e)
}

/// What holds of every stored context record: it is the record of a
/// context word at its position.
pub open spec fn context_entry_wf(b: Seq<u8>, c: ContextRange) -> bool {
    let s = c.full.low.0 as int;
    let e = c.full.high.0 as int;
    &&& word_bounds_wf(b, s, e)
    &&& is_context_word(b, s, e)
    &&& c.name == span_at(s + 1, e)
}

/// What holds of every stored custom-tag record: it is the record of a
/// custom-tag word at its position, with the key, separator and value
/// ranges splitting the word at its single colon.
pub open spec fn custom_entry_wf(b: Seq<u8>, c: CustomRange) -> bool {
    let s = c.full.low.0 as int;
    let e = c.full.high.0 as int;
    let k = key_end(b, s);
    &&& word_bounds_wf(b, s, e)
    &&& is_custom_word(b, s, e)
    &&& c == custom_range_at(b, s, e)
    &&& s < k && k + 1 < e && b[k] == 0x3a
}

/// Every record produced by the one-pass indexer is the record of a
/// classified word at its position in the buffer.
pub proof fn lemma_spec_index_wf(b: Seq<u8>, i: int)
    requires
        0 <= i <= b.len(),
        b.len() <= u32::MAX,
        i == 0 || i == b.len() || is_ws(b[i]) || is_ws(b[i - 1]),
    ensures
        forall|n: int|
            0 <= n < spec_index(b, i).0.len() ==> project_entry_wf(
                b,
                #[trigger] spec_index(b, i).0[n],
            ),
        forall|n: int|
            0 <= n < spec_index(b, i).1.len() ==> context_entry_wf(
                b,
                #[trigger] spec_index(b, i).1[n],
            ),
        forall|n: int|
            0 <= n < spec_index(b, i).2.len() ==> custom_entry_wf(
                b,
                #[trigger] spec_index(b, i).2[n],
            ),
    decreases b.len() - i,
{
    lemma_skip_ws(b, i);
    let s = skip_ws(b, i);
    if s < b.len() {
        lemma_word_end(b, s);
        lemma_key_end(b, s);
        let e = word_end(b, s);
        let k = key_end(b, s);
        assert(s < e);
        assert(s == 0 || is_ws(b[s - 1]));
        if custom_shape(b, s, e) {
            lemma_key_end(b, k + 1);
        }
        lemma_spec_index_wf(b, e);
        let rest = spec_index(b, e);
        if is_project_word(b, s, e) {
            assert(spec_index(b, i).0 == seq![project_range_at(s, e)] + rest.0);
            assert(project_entry_wf(b, project_range_at(s, e)));
            assert forall|n: int| 0 <= n < spec_index(b, i).0.len() implies project_entry_wf(
                b,
                #[trigger] spec_index(b, i).0[n],
            ) by {
                if n > 0 {
                    assert(spec_index(b, i).0[n] == rest.0[n - 1]);
                }
            }
        } else if is_context_word(b, s, e) {
            assert(spec_index(b, i).1 == seq![context_range_at(s, e)] + rest.1);
            assert(context_entry_wf(b, context_range_at(s, e)));
            assert forall|n: int| 0 <= n < spec_index(b, i).1.len() implies context_entry_wf(
                b,
                #[trigger] spec_index(b, i).1[n],
            ) by {
                if n > 0 {
                    assert(spec_index(b, i).1[n] == rest.1[n - 1]);
                }
            }
        } else if is_custom_word(b, s, e) {
            assert(spec_index(b, i).2 == seq![custom_range_at(b, s, e)] + rest.2);
            assert(custom_entry_wf(b, custom_range_at(b, s, e)));
            assert forall|n: int| 0 <= n < spec_index(b, i).2.len() implies custom_entry_wf(
                b,
                #[trigger] spec_index(b, i).2[n],
            ) by {
                if n > 0 {
                    assert(spec_index(b, i).2[n] == rest.2[n - 1]);
                }
            }
        }
    }
}

/// The name bytes of each project tag of `b`, in order.
pub open spec fn spec_project_names(b: Seq<u8>) -> Seq<Seq<u8>> {
    spec_index(b, 0).0.map(
        |n: int, p: ProjectRange| b.subrange(p.name.low.0 as int, p.name.high.0 as int),
    )
}

/// The name bytes of each context tag of `b`, in order.
pub open spec fn spec_context_names(b: Seq<u8>) -> Seq<Seq<u8>> {
    spec_index(b, 0).1.map(
        |n: int, c: ContextRange| b.subrange(c.name.low.0 as int, c.name.high.0 as int),
    )
}

/// The key and value bytes of each custom tag of `b`, in order.
pub open spec fn spec_custom_pairs(b: Seq<u8>) -> Seq<(Seq<u8>, Seq<u8>)> {
    spec_index(b, 0).2.map(
        |n: int, c: CustomRange|
            (
                b.subrange(c.key.low.0 as int, c.key.high.0 as int),
                b.subrange(c.value.low.0 as int, c.value.high.0 as int),
            ),
    )
}

impl Description {
    /// Returns the names of all projects found within the description, in
    /// order of appearance.
    pub fn projects(&self) -> (r: Vec<String>)
        ensures
            r@.len() == spec_project_names(self.bytes()).len(),
            forall|n: int|
                0 <= n < r@.len() ==> encode_utf8(#[trigger] r@[n]@) == spec_project_names(
                    self.bytes(),
                )[n],
    {
        proof {
            use_type_invariant(self);
            vstd::utf8::encode_utf8_valid_utf8(self.text());
            lemma_spec_index_wf(self.bytes(), 0);
        }
        let ghost b = self.bytes();
        let mut out: Vec<String> = Vec::new();
        let n = self.projects.len();
        let mut idx: usize = 0;
        while idx < n
            invariant
                0 <= idx <= n,
                n == self.projects@.len(),
                self.projects@ == spec_index(b, 0).0,
                b == self.bytes(),
                valid_utf8(b),
                b.len() <= u32::MAX,
                forall|m: int| 0 <= m < n ==> project_entry_wf(b, #[trigger] self.projects@[m]),
                out@.len() == idx,
                forall|m: int|
                    0 <= m < idx ==> encode_utf8(#[trigger] out@[m]@) == spec_project_names(b)[m],
            decreases n - idx,
        {
            let p = self.projects[idx];
            proof {
                let s = p.full.low.0 as int;
                let e = p.full.high.0 as int;
                lemma_boundary_after_ascii(b, s + 1);
                lemma_boundary_at_ascii(b, e);
            }
            let name = p.index(self.raw.as_str());
            out.push(name);
            idx = idx + 1;
        }
        out
    }

    /// Returns the names of all contexts found within the description, in
    /// order of appearance.
    pub fn contexts(&self) -> (r: Vec<String>)
        ensures
            r@.len() == spec_context_names(self.bytes()).len(),
            forall|n: int|
                0 <= n < r@.len() ==> encode_utf8(#[trigger] r@[n]@) == spec_context_names(
                    self.bytes(),
                )[n],
    {
        proof {
            use_type_invariant(self);
            vstd::utf8::encode_utf8_valid_utf8(self.text());
            lemma_spec_index_wf(self.bytes(), 0);
        }
        let ghost b = self.bytes();
        let mut out: Vec<String> = Vec::new();
        let n = self.contexts.len();
        let mut idx: usize = 0;
        while idx < n
            invariant
                0 <= idx <= n,
                n == self.contexts@.len(),
                self.contexts@ == spec_index(b, 0).1,
                b == self.bytes(),
                valid_utf8(b),
                b.len() <= u32::MAX,
                forall|m: int| 0 <= m < n ==> context_entry_wf(b, #[trigger] self.contexts@[m]),
                out@.len() == idx,
                forall|m: int|
                    0 <= m < idx ==> encode_utf8(#[trigger] out@[m]@) == spec_context_names(b)[m],
            decreases n - idx,
        {
            let c = self.contexts[idx];
            proof {
                let s = c.full.low.0 as int;
                let e = c.full.high.0 as int;
                lemma_boundary_after_ascii(b, s + 1);
                lemma_boundary_at_ascii(b, e);
            }
            let name = c.index(self.raw.as_str());
            out.push(name);
            idx = idx + 1;
        }
        out
    }

    /// Returns the key/value pairs of all custom tags found within the
    /// description, in order of appearance.
    pub fn custom(&self) -> (r: Vec<(String, String)>)
        ensures
            r@.len() == spec_custom_pairs(self.bytes()).len(),
            forall|n: int|
                0 <= n < r@.len() ==> encode_utf8(#[trigger] r@[n].0@) == spec_custom_pairs(
                    self.bytes(),
                )[n].0 && encode_utf8(r@[n].1@) == spec_custom_pairs(self.bytes())[n].1,
    {
        proof {
            use_type_invariant(self);
            vstd::utf8::encode_utf8_valid_utf8(self.text());
            lemma_spec_index_wf(self.bytes(), 0);
        }
        let ghost b = self.bytes();
        let mut out: Vec<(String, String)> = Vec::new();
        let n = self.custom.len();
        let mut idx: usize = 0;
        while idx < n
            invariant
                0 <= idx <= n,
                n == self.custom@.len(),
                self.custom@ == spec_index(b, 0).2,
                b == self.bytes(),
                valid_utf8(b),
                b.len() <= u32::MAX,
                forall|m: int| 0 <= m < n ==> custom_entry_wf(b, #[trigger] self.custom@[m]),
                out@.len() == idx,
                forall|m: int|
                    0 <= m < idx ==> encode_utf8(#[trigger] out@[m].0@) == spec_custom_pairs(b)[m].0
                        && encode_utf8(out@[m].1@) == spec_custom_pairs(b)[m].1,
            decreases n - idx,
        {
            let c = self.custom[idx];
            proof {
                let s = c.full.low.0 as int;
                let e = c.full.high.0 as int;
                let k = key_end(b, s);
                if s == 0 {
                    assert(is_char_boundary(b, 0));
                } else {
                    lemma_boundary_after_ascii(b, s);
                }
                lemma_boundary_at_ascii(b, k);
                lemma_boundary_after_ascii(b, k + 1);
                lemma_boundary_at_ascii(b, e);
            }
            let pair = c.index(self.raw.as_str());
            out.push(pair);
            idx = idx + 1;
        }
        out
    }
}

/// A single component of a description: the pieces of text between and
/// around the classified tag words, and the tags themselves, in order.
#[derive(Debug, Clone, PartialEq, Eq)]
pub enum Component {
    /// A plain text component, e.g. `Hello World `.
    Text(String),
    /// A full project component, e.g. `+project`.
    Project(String),
    /// A full context component, e.g. `@context`.
    Context(String),
    /// A full custom tag component, e.g. `key:value`.
    Custom {
        /// The key of the tag, e.g. `key`.
        key: String,
        /// The separator of the tag (always `:`).
        separator: String,
        /// The value of the tag, e.g. `value`.
        value: String,
    },
}

/// A component of the description at the specification level: the byte
/// range it covers, and for a custom tag the position of its colon.
pub enum SpecComponent {
    /// A run of plain text (whitespace and unclassified words).
    Text {
        /// Start of the run.
        lo: int,
        /// End of the run.
        hi: int,
    },
    /// A project word.
    Project {
        /// Start of the word.
        lo: int,
        /// End of the word.
        hi: int,
    },
    /// A context word.
    Context {
        /// Start of the word.
        lo: int,
        /// End of the word.
        hi: int,
    },
    /// A custom-tag word.
    Custom {
        /// Start of the word.
        lo: int,
        /// Position of the colon separator.
        colon: int,
        /// End of the word.
        hi: int,
    },
}

impl SpecComponent {
    /// The start of the byte range the component covers.
    pub open spec fn lo(self) -> int {
        match self {
            SpecComponent::Text { lo, .. } => lo,
            SpecComponent::Project { lo, .. } => lo,
            SpecComponent::Context { lo, .. } => lo,
            SpecComponent::Custom { lo, .. } => lo,
        }
    }

    /// The end of the byte range the component covers.
    pub open spec fn hi(self) -> int {
        match self {
            SpecComponent::Text { hi, .. } => hi,
            SpecComponent::Project { hi, .. } => hi,
            SpecComponent::Context { hi, .. } => hi,
            SpecComponent::Custom { hi, .. } => hi,
        }
    }
}

/// The start and end of the next classified (non-plain) word of `b` at or
/// after position `i`, if any.
pub open spec fn next_tag(b: Seq<u8>, i: int) -> Option<(int, int)>
    recommends
        0 <= i <= b.len(),
    decreases b.len() - i,
    when 0 <= i <= b.len()
    via next_tag_decreases
{
    let s = skip_ws(b, i);
    if s >= b.len() {
        None
    } else {
        let e = word_end(b, s);
        if is_project_word(b, s, e) || is_context_word(b, s, e) || is_custom_word(b, s, e) {
            Some((s, e))
        } else {
            next_tag(b, e)
        }
    }
}

#[via_fn]
proof fn next_tag_decreases(b: Seq<u8>, i: int) {
    if 0 <= i <= b.len() {
        lemma_skip_ws(b, i);
        let s = skip_ws(b, i);
        if s < b.len() {
            lemma_word_end(b, s);
        }
    }
}

/// What `next_tag` returns: a classified word strictly after or at `i`,
/// inside the buffer.
pub proof fn lemma_next_tag(b: Seq<u8>, i: int)
    requires
        0 <= i <= b.len(),
    ensures
        match next_tag(b, i) {
            Some((s, e)) => i <= s < e <= b.len() && e == word_end(b, s) && (is_project_word(
                b,
                s,
                e,
            ) || is_context_word(b, s, e) || is_custom_word(b, s, e)),
            None => true,
        },
    decreases b.len() - i,
{
    lemma_skip_ws(b, i);
    let s = skip_ws(b, i);
    if s < b.len() {
        lemma_word_end(b, s);
        let e = word_end(b, s);
        if !(is_project_word(b, s, e) || is_context_word(b, s, e) || is_custom_word(b, s, e)) {
            lemma_next_tag(b, e);
        }
    }
}

/// The component of the classified word `[s, e)` of `b`.
pub open spec fn tag_component(b: Seq<u8>, s: int, e: int) -> SpecComponent {
    if is_project_word(b, s, e) {
        SpecComponent::Project { lo: s, hi: e }
    } else if is_context_word(b, s, e) {
        SpecComponent::Context { lo: s, hi: e }
    } else {
        SpecComponent::Custom { lo: s, colon: key_end(b, s), hi: e }
    }
}

/// The ordered components of `b` from position `i` on: a text component
/// for every maximal run of bytes between classified words (whitespace and
/// plain words merged together), and one component per classified word.
pub open spec fn spec_components(b: Seq<u8>, i: int) -> Seq<SpecComponent>
    recommends
        0 <= i <= b.len(),
    decreases b.len() - i,
    when 0 <= i <= b.len()
    via spec_components_decreases
{
    if i >= b.len() {
        Seq::empty()
    } else {
        match next_tag(b, i) {
            None => seq![SpecComponent::Text { lo: i, hi: b.len() as int }],
            Some((s, e)) => {
                let head: Seq<SpecComponent> = if s > i {
                    seq![SpecComponent::Text { lo: i, hi: s }]
                } else {
                    Seq::empty()
                };
                head + seq![tag_component(b, s, e)] + spec_components(b, e)
            },
        }
    }
}

#[via_fn]
proof fn spec_components_decreases(b: Seq<u8>, i: int) {
    if 0 <= i <= b.len() {
        lemma_next_tag(b, i);
    }
}

/// True when the executable component `c` resolves the specification-level
/// component `sc` of `b`: same kind, and each carried string holds exactly
/// the bytes of the corresponding range.
pub open spec fn component_matches(b: Seq<u8>, sc: SpecComponent, c: Component) -> bool {
    match sc {
        SpecComponent::Text { lo, hi } => c matches Component::Text(t) && encode_utf8(t@)
            == b.subrange(lo, hi),
        SpecComponent::Project { lo, hi } => c matches Component::Project(t) && encode_utf8(t@)
            == b.subrange(lo, hi),
        SpecComponent::Context { lo, hi } => c matches Component::Context(t) && encode_utf8(t@)
            == b.subrange(lo, hi),
        SpecComponent::Custom { lo, colon, hi } => c matches Component::Custom {
            key,
            separator,
            value,
        } && encode_utf8(key@) == b.subrange(lo, colon) && encode_utf8(separator@) == b.subrange(
            colon,
            colon + 1,
        ) && encode_utf8(value@) == b.subrange(colon + 1, hi),
    }
}

impl Description {
    /// Returns all the components of the description, in order: the
    /// classified tag words and the stretches of plain text between them,
    /// which together replay the original text exactly (see
    /// [`lemma_components_cover`]).
    pub fn components(&self) -> (r: Vec<Component>)
        ensures
            r@.len() == spec_components(self.bytes(), 0).len(),
            forall|n: int|
                0 <= n < r@.len() ==> component_matches(
                    self.bytes(),
                    spec_components(self.bytes(), 0)[n],
                    #[trigger] r@[n],
                ),
    {
        proof {
            use_type_invariant(self);
            vstd::utf8::encode_utf8_valid_utf8(self.text());
        }
        let text = self.raw.as_str();
        let bytes = text.as_bytes();
        let ghost b = self.bytes();
        proof {
            assert(text.spec_bytes() == b);
        }
        let mut out: Vec<Component> = Vec::new();
        let ghost emitted: Seq<SpecComponent> = Seq::empty();
        let mut emitted = Ghost(emitted);
        let mut anchor: usize = 0;
        let mut cursor = Cursor::new(bytes);

        loop
            invariant
                cursor.wf(),
                cursor.data() == b,
                b == self.bytes(),
                text.spec_bytes() == b,
                valid_utf8(b),
                b.len() <= u32::MAX,
                anchor <= cursor.pos() <= b.len(),
                anchor == 0 || anchor == b.len() || is_ws(b[anchor as int]),
                cursor.pos() == anchor || cursor.pos() == b.len() || is_ws(b[cursor.pos()]),
                next_tag(b, anchor as int) == next_tag(b, cursor.pos()),
                spec_components(b, 0) == emitted@ + spec_components(b, anchor as int),
                out@.len() == emitted@.len(),
                forall|n: int|
                    0 <= n < out@.len() ==> component_matches(b, emitted@[n], #[trigger] out@[n]),
            ensures
                out@.len() == emitted@.len(),
                spec_components(b, 0) == emitted@ + spec_components(b, anchor as int),
                forall|n: int|
                    0 <= n < out@.len() ==> component_matches(b, emitted@[n], #[trigger] out@[n]),
                next_tag(b, anchor as int) is None,
                anchor <= b.len(),
                anchor == 0 || anchor == b.len() || is_ws(b[anchor as int]),
            decreases b.len() - cursor.pos(),
        {
            let ghost p0 = cursor.pos();
            cursor.consume_whitespaces();
            let ghost s = cursor.pos();
            let ghost e = word_end(b, s);
            proof {
                lemma_skip_ws(b, p0);
                lemma_word_end(b, s);
            }
            let word_start = cursor.byte_pos();
            let head = cursor.first();
            if head.is_none() {
                break ;
            }
            let first_byte = head.unwrap();
            let second_nonws = match cursor.second() {
                Some(x) => !is_whitespace_byte(x),
                None => false,
            };

            if first_byte == 0x2b && second_nonws {
                let range = Self::read_project(&mut cursor, word_start);
                proof {
                    assert(next_tag(b, p0) == Some((s, e)));
                    if s == p0 {
                        assert(p0 == anchor as int);
                        assert(anchor == 0);
                    }
                    lemma_boundary_tag_text(b, anchor as int, s, e);
                }
                if anchor < word_start.as_usize() {
                    let gap = substring_by_bytes(text, anchor, word_start.as_usize());
                    out.push(Component::Text(gap));
                    proof {
                        emitted@ = emitted@.push(
                            SpecComponent::Text { lo: anchor as int, hi: s },
                        );
                    }
                }
                let word = substring_by_bytes(
                    text,
                    range.full.low.as_usize(),
                    range.full.high.as_usize(),
                );
                out.push(Component::Project(word));
                proof {
                    emitted@ = emitted@.push(SpecComponent::Project { lo: s, hi: e });
                    assert(spec_components(b, anchor as int) == (if s > anchor as int {
                        seq![SpecComponent::Text { lo: anchor as int, hi: s }]
                    } else {
                        Seq::<SpecComponent>::empty()
                    }) + seq![tag_component(b, s, e)] + spec_components(b, e));
                    assert(spec_components(b, 0) =~= emitted@ + spec_components(b, e));
                }
                anchor = cursor.index();
            } else if first_byte == 0x40 && second_nonws {
                let range = Self::read_context(&mut cursor, word_start);
                proof {
                    assert(next_tag(b, p0) == Some((s, e)));
                    if s == p0 {
                        assert(p0 == anchor as int);
                        assert(anchor == 0);
                    }
                    lemma_boundary_tag_text(b, anchor as int, s, e);
                }
                if anchor < word_start.as_usize() {
                    let gap = substring_by_bytes(text, anchor, word_start.as_usize());
                    out.push(Component::Text(gap));
                    proof {
                        emitted@ = emitted@.push(
                            SpecComponent::Text { lo: anchor as int, hi: s },
                        );
                    }
                }
                let word = substring_by_bytes(
                    text,
                    range.full.low.as_usize(),
                    range.full.high.as_usize(),
                );
                out.push(Component::Context(word));
                proof {
                    emitted@ = emitted@.push(SpecComponent::Context { lo: s, hi: e });
                    assert(spec_components(b, anchor as int) == (if s > anchor as int {
                        seq![SpecComponent::Text { lo: anchor as int, hi: s }]
                    } else {
                        Seq::<SpecComponent>::empty()
                    }) + seq![tag_component(b, s, e)] + spec_components(b, e));
                    assert(spec_components(b, 0) =~= emitted@ + spec_components(b, e));
                }
                anchor = cursor.index();
            } else if second_nonws {
                match Self::read_custom(&mut cursor, word_start) {
                    Some(range) => {
                        proof {
                            assert(next_tag(b, p0) == Some((s, e)));
                            if s == p0 {
                                assert(p0 == anchor as int);
                                assert(anchor == 0);
                            }
                            lemma_boundary_tag_text(b, anchor as int, s, e);
                            lemma_boundary_at_ascii(b, key_end(b, s));
                            lemma_boundary_after_ascii(b, key_end(b, s) + 1);
                        }
                        if anchor < word_start.as_usize() {
                            let gap = substring_by_bytes(text, anchor, word_start.as_usize());
                            out.push(Component::Text(gap));
                            proof {
                                emitted@ = emitted@.push(
                                    SpecComponent::Text { lo: anchor as int, hi: s },
                                );
                            }
                        }
                        let key = substring_by_bytes(
                            text,
                            range.key.low.as_usize(),
                            range.key.high.as_usize(),
                        );
                        let separator = substring_by_bytes(
                            text,
                            range.separator.low.as_usize(),
                            range.separator.high.as_usize(),
                        );
                        let value = substring_by_bytes(
                            text,
                            range.value.low.as_usize(),
                            range.value.high.as_usize(),
                        );
                        out.push(Component::Custom { key, separator, value });
                        proof {
                            emitted@ = emitted@.push(
                                SpecComponent::Custom { lo: s, colon: key_end(b, s), hi: e },
                            );
                            assert(spec_components(b, anchor as int) == (if s > anchor as int {
                                seq![SpecComponent::Text { lo: anchor as int, hi: s }]
                            } else {
                                Seq::<SpecComponent>::empty()
                            }) + seq![tag_component(b, s, e)] + spec_components(b, e));
                            assert(spec_components(b, 0) =~= emitted@ + spec_components(b, e));
                        }
                        anchor = cursor.index();
                    },
                    None => {
                        let ghost mid = cursor.pos();
                        cursor.consume_non_whitespaces();
                        proof {
                            lemma_word_end(b, mid);
                            assert(cursor.pos() == e);
                            assert(next_tag(b, p0) == next_tag(b, e));
                        }
                    },
                }
            } else {
                cursor.consume_non_whitespaces();
                proof {
                    assert(cursor.pos() == e);
                    assert(next_tag(b, p0) == next_tag(b, e));
                }
            }
        }

        if anchor < bytes.len() {
            proof {
                assert(spec_components(b, anchor as int) =~= seq![
                    SpecComponent::Text { lo: anchor as int, hi: b.len() as int },
                ]);
                if anchor > 0 && !is_ws(b[anchor as int]) {
                    assert(is_ws(b[anchor - 1]));
                }
                lemma_boundary_text_edges(b, anchor as int);
            }
            let tail = substring_by_bytes(text, anchor, bytes.len());
            out.push(Component::Text(tail));
            proof {
                emitted@ = emitted@.push(
                    SpecComponent::Text { lo: anchor as int, hi: b.len() as int },
                );
                assert(spec_components(b, 0) =~= emitted@);
            }
        } else {
            proof {
                assert(spec_components(b, anchor as int) =~= Seq::<SpecComponent>::empty());
                assert(spec_components(b, 0) =~= emitted@);
            }
        }
        out
    }
}

/// The boundaries needed to slice out a text gap and the tag word after
/// it: all the delimiting bytes are ASCII whitespace.
proof fn lemma_boundary_tag_text(b: Seq<u8>, anchor: int, s: int, e: int)
    requires
        valid_utf8(b),
        0 <= anchor <= s < e <= b.len(),
        anchor == 0 || is_ws(b[anchor]),
        s == 0 || is_ws(b[s - 1]),
        e == b.len() || is_ws(b[e]),
    ensures
        is_char_boundary(b, anchor),
        is_char_boundary(b, s),
        is_char_boundary(b, e),
{
    if anchor == 0 {
        assert(is_char_boundary(b, 0));
    } else {
        lemma_boundary_at_ascii(b, anchor);
    }
    if s == 0 {
        assert(is_char_boundary(b, 0));
    } else {
        lemma_boundary_after_ascii(b, s);
    }
    lemma_boundary_at_ascii(b, e);
}

/// The boundaries needed to slice out the trailing text run.
proof fn lemma_boundary_text_edges(b: Seq<u8>, anchor: int)
    requires
        valid_utf8(b),
        0 <= anchor <= b.len(),
        anchor == 0 || anchor == b.len() || is_ws(b[anchor]),
    ensures
        is_char_boundary(b, anchor),
        is_char_boundary(b, b.len() as int),
{
    if anchor == 0 {
        assert(is_char_boundary(b, 0));
    } else if anchor == b.len() {
        vstd::utf8::is_char_boundary_start_end_of_seq(b);
    } else {
        lemma_boundary_at_ascii(b, anchor);
    }
    vstd::utf8::is_char_boundary_start_end_of_seq(b);
}

/// An ordered, replayable sequence of the components of a description, as
/// returned by [`Description::components`]; [`Components::next`] hands the
/// components out front to back.
#[derive(Debug, Clone, PartialEq, Eq)]
pub struct Components {
    items: Vec<Component>,
}

impl Components {
    /// The components not yet handed out.
    pub closed spec fn remaining(self) -> Seq<Component> {
        self.items@
    }

    /// Collects the components of `description`.
    pub fn new(description: &Description) -> (r: Self)
        ensures
            r.remaining().len() == spec_components(description.bytes(), 0).len(),
            forall|n: int|
                0 <= n < r.remaining().len() ==> component_matches(
                    description.bytes(),
                    spec_components(description.bytes(), 0)[n],
                    #[trigger] r.remaining()[n],
                ),
    {
        Components { items: description.components() }
    }

    /// Hands out the next component, or `None` when all have been handed
    /// out.
    pub fn next(&mut self) -> (r: Option<Component>)
        ensures
            old(self).remaining().len() > 0 ==> r == Some(old(self).remaining()[0]) && final(self).remaining() == old(self).remaining().subrange(
                1,
                old(self).remaining().len() as int,
            ),
            old(self).remaining().len() == 0 ==> r is None && final(self).remaining() == old(self).remaining(),
    {
        if self.items.len() > 0 {
            let c = self.items.remove(0);
            proof {
                assert(self.items@ =~= old(self).remaining().subrange(
                    1,
                    old(self).remaining().len() as int,
                ));
            }
            Some(c)
        } else {
            None
        }
    }
}

/// Failure of the description grammar rule: the input was already
/// exhausted, or the remainder of the line is not valid UTF-8.
#[derive(Debug, Clone, Copy, PartialEq, Eq, Structural, Hash)]
pub struct ParseDescriptionError;

/// Builds a `String` from UTF-8 bytes.
///
/// Relies on `String::from_utf8`: it succeeds exactly on byte sequences
/// that are valid UTF-8, and decodes them.
#[verifier::external_body]
pub(crate) fn string_from_utf8(v: Vec<u8>) -> (r: Option<String>)
    ensures
        r is Some <==> valid_utf8(v@),
        r matches Some(s) ==> s@ == decode_utf8(v@),
{
    String::from_utf8(v).ok()
}

/// The description at position `i` of `b`: everything up to (not
/// including) the first line feed or the end of the input, which must be
/// non-empty-able (the input may not already be exhausted) and valid
/// UTF-8.  A line feed after the description is consumed but not part of
/// it.
pub open spec fn spec_parse_description(b: Seq<u8>, i: int) -> Option<(Seq<u8>, int)> {
    if 0 <= i < b.len() {
        let e = scan_to(b, i, 0x0a);
        let desc = b.subrange(i, e);
        if valid_utf8(desc) {
            Some((desc, if e < b.len() { e + 1 } else { e }))
        } else {
            None
        }
    } else {
        None
    }
}

impl Description {
    /// Parses the description at the parser's position: the rest of the
    /// line, consumed up to and including a line terminator but excluding
    /// it from the content.  This is the only mandatory part of a task
    /// line: it fails exactly when the input is already exhausted or the
    /// remainder is not valid UTF-8.
    pub fn parse(parser: &mut Parser<'_>) -> (r: Result<Self, ParseDescriptionError>)
        requires
            old(parser).wf(),
            old(parser).data().len() <= u32::MAX,
        ensures
            final(parser).wf(),
            final(parser).data() == old(parser).data(),
            match spec_parse_description(old(parser).data(), old(parser).pos()) {
                Some((db, j)) => (r matches Ok(d) && d.bytes() == db) && final(parser).pos() == j,
                None => r == Err::<Description, ParseDescriptionError>(ParseDescriptionError)
                    && old(parser).pos() <= final(parser).pos() <= old(parser).data().len(),
            },
    {
        let ghost b = parser.data();
        let ghost i = parser.pos();
        let chunk = match parser.parse_until(0x0a) {
            Some(c) => c,
            None => {
                return Err(ParseDescriptionError);
            },
        };
        let v = vstd::slice::slice_to_vec(chunk);
        let text = match string_from_utf8(v) {
            Some(t) => t,
            None => {
                proof {
                    lemma_scan_to(b, i, 0x0a);
                }
                return Err(ParseDescriptionError);
            },
        };
        proof {
            lemma_scan_to(b, i, 0x0a);
            vstd::utf8::decode_utf8_encode_utf8(chunk@);
            assert(text@ == decode_utf8(chunk@));
            assert(encode_utf8(text@) == chunk@);
        }
        let tref: &str = text.as_str();
        proof {
            assert(tref.spec_bytes() == chunk@);
            assert(chunk@ =~= b.subrange(i, scan_to(b, i, 0x0a)));
            assert(chunk@.len() <= u32::MAX);
        }
        let description = Self::new(tref);

        // consume a possible line terminator
        let _ = parser.parse_u8();

        Ok(description)
    }
}

impl core::str::FromStr for Description {
    type Err = ParseDescriptionError;

    /// Parses a description from a string holding exactly one line.
    fn from_str(s: &str) -> Result<Self, Self::Err> {
        let bytes = s.as_bytes();
        if bytes.len() > u32::MAX as usize {
            return Err(ParseDescriptionError);
        }
        let mut parser = Parser::new(bytes);
        match Description::parse(&mut parser) {
            Ok(description) => {
                if parser.is_eof() {
                    Ok(description)
                } else {
                    Err(ParseDescriptionError)
                }
            },
            Err(e) => Err(e),
        }
    }
}

/// The bytes that a sequence of components covers, in order: the
/// concatenation of the byte ranges of each component.
pub open spec fn components_text(b: Seq<u8>, cs: Seq<SpecComponent>) -> Seq<u8>
    decreases cs.len(),
{
    if cs.len() == 0 {
        Seq::empty()
    } else {
        b.subrange(cs[0].lo(), cs[0].hi()) + components_text(b, cs.subrange(1, cs.len() as int))
    }
}

/// The bytes covered by a single component.
proof fn lemma_components_text_single(b: Seq<u8>, c: SpecComponent)
    ensures
        components_text(b, seq![c]) == b.subrange(c.lo(), c.hi()),
{
    assert(seq![c].subrange(1, 1) =~= Seq::<SpecComponent>::empty());
    assert(components_text(b, Seq::<SpecComponent>::empty()) == Seq::<u8>::empty());
    assert(components_text(b, seq![c]) =~= b.subrange(c.lo(), c.hi()));
}

/// `components_text` distributes over concatenation of component
/// sequences.
proof fn lemma_components_text_concat(b: Seq<u8>, x: Seq<SpecComponent>, y: Seq<SpecComponent>)
    ensures
        components_text(b, x + y) == components_text(b, x) + components_text(b, y),
    decreases x.len(),
{
    if x.len() == 0 {
        assert(x + y =~= y);
        assert(components_text(b, x) =~= Seq::empty());
        assert(components_text(b, x) + components_text(b, y) =~= components_text(b, y));
    } else {
        assert((x + y)[0] == x[0]);
        assert((x + y).subrange(1, (x + y).len() as int) =~= x.subrange(1, x.len() as int) + y);
        lemma_components_text_concat(b, x.subrange(1, x.len() as int), y);
        assert(components_text(b, x + y) =~= b.subrange(x[0].lo(), x[0].hi()) + (components_text(
            b,
            x.subrange(1, x.len() as int),
        ) + components_text(b, y)));
        assert(components_text(b, x) + components_text(b, y) =~= b.subrange(
            x[0].lo(),
            x[0].hi(),
        ) + (components_text(b, x.subrange(1, x.len() as int)) + components_text(b, y)));
    }
}

/// The components of `b` from position `i` on cover exactly the bytes
/// from `i` to the end, with no gaps and no overlaps.
proof fn lemma_components_cover_from(b: Seq<u8>, i: int)
    requires
        0 <= i <= b.len(),
    ensures
        components_text(b, spec_components(b, i)) == b.subrange(i, b.len() as int),
    decreases b.len() - i,
{
    lemma_next_tag(b, i);
    if i >= b.len() {
        assert(components_text(b, spec_components(b, i)) =~= b.subrange(i, b.len() as int));
    } else {
        match next_tag(b, i) {
            None => {
                let cs = spec_components(b, i);
                assert(cs =~= seq![SpecComponent::Text { lo: i, hi: b.len() as int }]);
                lemma_components_text_single(
                    b,
                    SpecComponent::Text { lo: i, hi: b.len() as int },
                );
                assert(components_text(b, cs) =~= b.subrange(i, b.len() as int));
            },
            Some((s, e)) => {
                let head: Seq<SpecComponent> = if s > i {
                    seq![SpecComponent::Text { lo: i, hi: s }]
                } else {
                    Seq::empty()
                };
                let tag = seq![tag_component(b, s, e)];
                lemma_components_cover_from(b, e);
                lemma_components_text_concat(b, head + tag, spec_components(b, e));
                lemma_components_text_concat(b, head, tag);
                assert(spec_components(b, i) == (head + tag) + spec_components(b, e));
                lemma_components_text_single(b, tag_component(b, s, e));
                assert(components_text(b, tag) == b.subrange(s, e));
                if s > i {
                    lemma_components_text_single(b, SpecComponent::Text { lo: i, hi: s });
                    assert(components_text(b, head) == b.subrange(i, s));
                } else {
                    assert(components_text(b, head) =~= Seq::empty());
                }
                assert(components_text(b, spec_components(b, i)) =~= b.subrange(
                    i,
                    b.len() as int,
                ));
            },
        }
    }
}

/// Full coverage of the components reconstruction: concatenating the byte
/// ranges of all components of `b`, in order, reproduces `b` exactly.
/// Together with [`lemma_word_class_exclusive`] this says that every
/// whitespace-delimited word is accounted for exactly once, under exactly
/// one classification.
pub proof fn lemma_components_cover(b: Seq<u8>)
    ensures
        components_text(b, spec_components(b, 0)) == b,
{
    lemma_components_cover_from(b, 0);
    assert(b.subrange(0, b.len() as int) =~= b);
}

/// Word classification is exclusive: a word is a project, a context, a
/// custom tag, or plain text, and never two of these at once.
pub proof fn lemma_word_class_exclusive(b: Seq<u8>, s: int, e: int)
    ensures
        !(is_project_word(b, s, e) && is_context_word(b, s, e)),
        !(is_project_word(b, s, e) && is_custom_word(b, s, e)),
        !(is_context_word(b, s, e) && is_custom_word(b, s, e)),
{
}

/// The records of the one-pass indexer are ordered and mutually
/// non-overlapping: within each list positions strictly increase, and no
/// two records of different lists cover a common byte (each word yields at
/// most one record).
pub proof fn lemma_spec_index_ordered(b: Seq<u8>, i: int)
    requires
        0 <= i <= b.len(),
        b.len() <= u32::MAX,
    ensures
        forall|m: int, n: int|
            0 <= m < n < spec_index(b, i).0.len() ==> (#[trigger] spec_index(b, i).0[m]).full.high.0
                <= (#[trigger] spec_index(b, i).0[n]).full.low.0,
        forall|m: int, n: int|
            0 <= m < n < spec_index(b, i).1.len() ==> (#[trigger] spec_index(b, i).1[m]).full.high.0
                <= (#[trigger] spec_index(b, i).1[n]).full.low.0,
        forall|m: int, n: int|
            0 <= m < n < spec_index(b, i).2.len() ==> (#[trigger] spec_index(b, i).2[m]).full.high.0
                <= (#[trigger] spec_index(b, i).2[n]).full.low.0,
        forall|m: int, n: int|
            0 <= m < spec_index(b, i).0.len() && 0 <= n < spec_index(b, i).1.len() ==> (
            #[trigger] spec_index(b, i).0[m]).full.high.0 <= (#[trigger] spec_index(
                b,
                i,
            ).1[n]).full.low.0 || spec_index(b, i).1[n].full.high.0 <= spec_index(
                b,
                i,
            ).0[m].full.low.0,
        forall|m: int, n: int|
            0 <= m < spec_index(b, i).0.len() && 0 <= n < spec_index(b, i).2.len() ==> (
            #[trigger] spec_index(b, i).0[m]).full.high.0 <= (#[trigger] spec_index(
                b,
                i,
            ).2[n]).full.low.0 || spec_index(b, i).2[n].full.high.0 <= spec_index(
                b,
                i,
            ).0[m].full.low.0,
        forall|m: int, n: int|
            0 <= m < spec_index(b, i).1.len() && 0 <= n < spec_index(b, i).2.len() ==> (
            #[trigger] spec_index(b, i).1[m]).full.high.0 <= (#[trigger] spec_index(
                b,
                i,
            ).2[n]).full.low.0 || spec_index(b, i).2[n].full.high.0 <= spec_index(
                b,
                i,
            ).1[m].full.low.0,
        forall|n: int|
            0 <= n < spec_index(b, i).0.len() ==> i <= (#[trigger] spec_index(b, i).0[n]).full.low.0
                < spec_index(b, i).0[n].full.high.0 <= b.len(),
        forall|n: int|
            0 <= n < spec_index(b, i).1.len() ==> i <= (#[trigger] spec_index(b, i).1[n]).full.low.0
                < spec_index(b, i).1[n].full.high.0 <= b.len(),
        forall|n: int|
            0 <= n < spec_index(b, i).2.len() ==> i <= (#[trigger] spec_index(b, i).2[n]).full.low.0
                < spec_index(b, i).2[n].full.high.0 <= b.len(),
    decreases b.len() - i,
{
    lemma_skip_ws(b, i);
    let s = skip_ws(b, i);
    if s < b.len() {
        lemma_word_end(b, s);
        let e = word_end(b, s);
        lemma_spec_index_ordered(b, e);
        let rest = spec_index(b, e);
        let cur = spec_index(b, i);
        if is_project_word(b, s, e) {
            assert(cur.0 == seq![project_range_at(s, e)] + rest.0);
            assert forall|n: int| 0 < n < cur.0.len() implies cur.0[n] == rest.0[n - 1] by {}
        } else if is_context_word(b, s, e) {
            assert(cur.1 == seq![context_range_at(s, e)] + rest.1);
            assert forall|n: int| 0 < n < cur.1.len() implies cur.1[n] == rest.1[n - 1] by {}
        } else if is_custom_word(b, s, e) {
            assert(cur.2 == seq![custom_range_at(b, s, e)] + rest.2);
            assert forall|n: int| 0 < n < cur.2.len() implies cur.2[n] == rest.2[n - 1] by {}
        }
    }
}

/// A word holding two colons is ambiguous and is never a custom tag: only
/// a word with exactly one colon, neither at its first nor at its last
/// position, has the custom shape.
pub proof fn lemma_two_colons_not_custom(b: Seq<u8>, s: int, e: int, p: int, q: int)
    requires
        0 <= s <= p < q < e <= b.len(),
        forall|k: int| s <= k < e ==> !is_ws(#[trigger] b[k]),
        b[p] == 0x3a,
        b[q] == 0x3a,
    ensures
        !custom_shape(b, s, e),
{
    lemma_key_end(b, s);
    let k = key_end(b, s);
    assert(k <= p);
    if custom_shape(b, s, e) {
        lemma_key_end(b, k + 1);
        assert(b[k] == 0x3a);
        assert(q >= k + 1);
        assert(q < key_end(b, k + 1));
        assert(b[q] != 0x3a);
    }
}

} // verus!
