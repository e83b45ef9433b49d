//! A single-pass parser for the headers of a query packet.
//!
//! A packet opens with a metaframe made of two lines, `#<m>\n` and `!<n>\n`:
//! `n` is the number of action groups that follow and `m` is the number of
//! bytes of the second line, its leading `!` included and its newline not.
//! Every action group opens the same way with `#<p>\n` and `&<q>\n`, where `q`
//! is the number of items in the group.
//!
//! The parser borrows the caller's buffer and moves a cursor over it. An
//! operation that fails leaves the cursor where it was.

use vstd::prelude::*;
use vstd::slice::slice_subrange;

verus! {

/// The byte that opens a sizeline.
pub const SIZELINE_TAG: u8 = 35;

/// The byte that opens the action line of a metaframe.
pub const METAFRAME_TAG: u8 = 33;

/// The byte that opens the line that sizes an action group.
pub const ACTIONGROUP_TAG: u8 = 38;

/// The line terminator.
pub const LINE_FEED: u8 = 10;

/// Why a read failed.
#[derive(Debug, Clone, Copy, PartialEq, Eq)]
pub enum ParseError {
    /// The buffer ended before the frame did: more bytes may complete it.
    NotEnough,
    /// A byte that the grammar does not allow at its position.
    UnexpectedByte,
}

pub type ParseResult<T> = Result<T, ParseError>;

/// Whether `b` is an ASCII decimal digit.
pub open spec fn is_digit(b: u8) -> bool {
    48 <= b <= 57
}

/// Whether every byte of `s` is an ASCII decimal digit.
pub open spec fn all_digits(s: Seq<u8>) -> bool {
    forall|i: int| 0 <= i < s.len() ==> is_digit(#[trigger] s[i])
}

/// The number that the digits of `s` write in base ten, most significant
/// digit first. The empty sequence writes zero.
pub open spec fn decimal_value(s: Seq<u8>) -> nat
    decreases s.len(),
{
    if s.len() == 0 {
        0
    } else {
        decimal_value(s.drop_last()) * 10 + (s.last() - 48) as nat
    }
}

/// What decoding `s` as an unsigned integer gives: its decimal value when
/// all of it is digits and the value fits, and `UnexpectedByte` otherwise.
pub open spec fn spec_parse_usize(s: Seq<u8>) -> ParseResult<usize> {
    if all_digits(s) && decimal_value(s) <= usize::MAX {
        Ok(decimal_value(s) as usize)
    } else {
        Err(ParseError::UnexpectedByte)
    }
}

/// The value of a prefix of a digit string never exceeds that of the whole.
pub proof fn lemma_decimal_value_prefix(s: Seq<u8>, k: int)
    requires
        all_digits(s),
        0 <= k <= s.len(),
    ensures
        decimal_value(s.take(k)) <= decimal_value(s),
    decreases s.len(),
{
    if k == s.len() {
        assert(s.take(k) =~= s);
    } else {
        let t = s.drop_last();
        assert(all_digits(t)) by {
            assert forall|i: int| 0 <= i < t.len() implies is_digit(#[trigger] t[i]) by {
                assert(t[i] == s[i]);
            }
        }
        lemma_decimal_value_prefix(t, k);
        assert(t.take(k) =~= s.take(k));
        assert(is_digit(s[s.len() - 1]));
    }
}

/// Decodes `bytes` as an unsigned decimal integer.
///
/// Every byte must be a digit and the value must fit in `usize`; the empty
/// slice decodes to zero.
pub fn parse_into_usize(bytes: &[u8]) -> (r: ParseResult<usize>)
    ensures
        r == spec_parse_usize(bytes@),
{
    let mut item_usize: usize = 0;
    let mut i: usize = 0;
    while i < bytes.len()
        invariant
            0 <= i <= bytes.len(),
            all_digits(bytes@.take(i as int)),
            item_usize == decimal_value(bytes@.take(i as int)),
        decreases bytes.len() - i,
    {
        let dig: u8 = bytes[i];
        let ghost next = bytes@.take(i + 1);
        proof {
            assert(next.drop_last() =~= bytes@.take(i as int));
            assert(next.last() == dig);
        }
        let curdig: usize = match dig.checked_sub(48) {
            Some(d) => {
                if d > 9 {
                    proof {
                        assert(!is_digit(bytes@[i as int]));
                    }
                    return Err(ParseError::UnexpectedByte);
                } else {
                    d as usize
                }
            },
            None => {
                proof {
                    assert(!is_digit(bytes@[i as int]));
                }
                return Err(ParseError::UnexpectedByte);
            },
        };
        let shifted: usize = match item_usize.checked_mul(10) {
            Some(v) => v,
            None => {
                proof {
                    lemma_overflowing_prefix(bytes@, i + 1);
                }
                return Err(ParseError::UnexpectedByte);
            },
        };
        item_usize = match shifted.checked_add(curdig) {
            Some(v) => v,
            None => {
                proof {
                    lemma_overflowing_prefix(bytes@, i + 1);
                }
                return Err(ParseError::UnexpectedByte);
            },
        };
        proof {
            assert forall|j: int| 0 <= j < next.len() implies is_digit(#[trigger] next[j]) by {
                if j < i {
                    assert(next[j] == bytes@.take(i as int)[j]);
                }
            }
        }
        i += 1;
    }
    proof {
        assert(bytes@.take(i as int) =~= bytes@);
    }
    Ok(item_usize)
}

/// A digit string with a prefix whose value does not fit does not fit.
proof fn lemma_overflowing_prefix(s: Seq<u8>, k: int)
    requires
        0 <= k <= s.len(),
        decimal_value(s.take(k)) > usize::MAX,
    ensures
        spec_parse_usize(s) == Err::<usize, ParseError>(ParseError::UnexpectedByte),
{
    if all_digits(s) {
        lemma_decimal_value_prefix(s, k);
    }
}

/// The index of the first line feed of `buf` at or after `from`, or the
/// length of `buf` where there is none.
pub open spec fn line_end(buf: Seq<u8>, from: int) -> int
    decreases buf.len() - from,
{
    if from >= buf.len() {
        buf.len() as int
    } else if buf[from] == LINE_FEED {
        from
    } else {
        line_end(buf, from + 1)
    }
}

/// `line_end` stops at the first line feed and nowhere before it.
pub proof fn lemma_line_end(buf: Seq<u8>, from: int)
    requires
        0 <= from <= buf.len(),
    ensures
        from <= line_end(buf, from) <= buf.len(),
        forall|i: int| from <= i < line_end(buf, from) ==> #[trigger] buf[i] != LINE_FEED,
        line_end(buf, from) < buf.len() ==> buf[line_end(buf, from)] == LINE_FEED,
    decreases buf.len() - from,
{
    if from < buf.len() && buf[from] != LINE_FEED {
        lemma_line_end(buf, from + 1);
    }
}

/// What reading a sizeline at `cur` gives: the decoded size and the index
/// just past the line's newline, or the error.
///
/// A sizeline is `#`, digits and a line feed. With nothing left to read,
/// or with valid digits that no line feed ends yet, more bytes are needed.
pub open spec fn spec_sizeline(buf: Seq<u8>, cur: int) -> ParseResult<(usize, int)> {
    if cur >= buf.len() {
        Err(ParseError::NotEnough)
    } else if buf[cur] != SIZELINE_TAG {
        Err(ParseError::UnexpectedByte)
    } else {
        let end = line_end(buf, cur + 1);
        match spec_parse_usize(buf.subrange(cur + 1, end)) {
            Err(e) => Err(e),
            Ok(size) => if end < buf.len() {
                Ok((size, end + 1))
            } else {
                Err(ParseError::NotEnough)
            },
        }
    }
}

/// What reading a sized line at `cur` gives: a sizeline, then a line of
/// exactly that many bytes which opens with `tag` and goes on with digits,
/// then a line feed. The result is the value of those digits and the index
/// just past the line feed, or the first error on the way.
pub open spec fn spec_frame(buf: Seq<u8>, cur: int, tag: u8) -> ParseResult<(usize, int)> {
    match spec_sizeline(buf, cur) {
        Err(e) => Err(e),
        Ok((size, body)) => if body + size > buf.len() {
            Err(ParseError::NotEnough)
        } else if size == 0 || buf[body] != tag {
            Err(ParseError::UnexpectedByte)
        } else {
            match spec_parse_usize(buf.subrange(body + 1, body + size)) {
                Err(e) => Err(e),
                Ok(count) => if body + size >= buf.len() {
                    Err(ParseError::NotEnough)
                } else if buf[body + size] != LINE_FEED {
                    Err(ParseError::UnexpectedByte)
                } else {
                    Ok((count, body + size + 1))
                },
            }
        },
    }
}

/// A frame that is read starts with the sizeline tag, ends with a line
/// feed, and takes the cursor forward without leaving the buffer.
pub proof fn lemma_frame_advances(buf: Seq<u8>, cur: int, tag: u8)
    requires
        0 <= cur <= buf.len(),
        spec_frame(buf, cur, tag).is_ok(),
    ensures
        cur < spec_frame(buf, cur, tag).unwrap().1 <= buf.len(),
        buf[cur] == SIZELINE_TAG,
        buf[spec_frame(buf, cur, tag).unwrap().1 - 1] == LINE_FEED,
{
    lemma_line_end(buf, cur + 1);
}

/// Whether a read that started at `before` and was to give `expected` did
/// so: on success it returned the value and stands at the index that goes
/// with it, on failure it returned the error and stands at `before`.
pub open spec fn agrees(
    expected: ParseResult<(usize, int)>,
    before: int,
    returned: ParseResult<usize>,
    after: int,
) -> bool {
    match expected {
        Ok((value, next)) => returned == Ok::<usize, ParseError>(value) && after == next,
        Err(e) => returned == Err::<usize, ParseError>(e) && after == before,
    }
}

/// A cursor over a borrowed buffer.
#[derive(Debug)]
pub struct Parser<'a> {
    cursor: usize,
    buffer: &'a [u8],
}

impl<'a> Parser<'a> {
    /// The bytes that the parser reads.
    pub closed spec fn input(&self) -> Seq<u8> {
        self.buffer@
    }

    /// The index of the next byte to read.
    pub closed spec fn position(&self) -> int {
        self.cursor as int
    }

    /// The cursor never leaves the buffer.
    pub open spec fn wf(&self) -> bool {
        0 <= self.position() <= self.input().len()
    }

    /// A parser at the start of `buffer`.
    pub fn new(buffer: &'a [u8]) -> (p: Self)
        ensures
            p.wf(),
            p.input() == buffer@,
            p.position() == 0,
    {
        Parser { cursor: 0usize, buffer }
    }

    /// The index of the next byte to read.
    pub fn cursor(&self) -> (c: usize)
        ensures
            c == self.position(),
    {
        self.cursor
    }

    /// Reads the next `until` bytes and moves past them, or fails with
    /// `NotEnough` and stays in place when fewer are left.
    pub fn read_until(&mut self, until: usize) -> (r: ParseResult<&'a [u8]>)
        requires
            old(self).wf(),
        ensures
            final(self).wf(),
            final(self).input() == old(self).input(),
            old(self).position() + until <= old(self).input().len() ==> r.is_ok()
                && r.unwrap()@ == old(self).input().subrange(
                old(self).position(),
                old(self).position() + until,
            ) && final(self).position() == old(self).position() + until,
            old(self).position() + until > old(self).input().len() ==> r == Err::<
                &[u8],
                ParseError,
            >(ParseError::NotEnough) && final(self).position() == old(self).position(),
    {
        if until <= self.buffer.len() - self.cursor {
            let b = slice_subrange(self.buffer, self.cursor, self.cursor + until);
            self.cursor += until;
            Ok(b)
        } else {
            Err(ParseError::NotEnough)
        }
    }

    /// Moves the cursor one byte ahead.
    pub fn incr_cursor(&mut self)
        requires
            old(self).position() < old(self).input().len(),
        ensures
            final(self).input() == old(self).input(),
            final(self).position() == old(self).position() + 1,
    {
        proof {
            assert(self.buffer@.len() == self.buffer.len());
        }
        self.cursor += 1;
    }

    /// Reads up to the next line feed and moves past it, or to the end of
    /// the buffer where there is none. Returns the half-open range of the
    /// line's bytes, the line feed left out.
    pub fn read_line(&mut self) -> (r: (usize, usize))
        requires
            old(self).wf(),
        ensures
            final(self).wf(),
            final(self).input() == old(self).input(),
            r.0 == old(self).position(),
            r.1 == line_end(old(self).input(), old(self).position()),
            r.0 <= r.1 <= old(self).input().len(),
            forall|i: int| r.0 <= i < r.1 ==> #[trigger] old(self).input()[i] != LINE_FEED,
            r.1 < old(self).input().len() ==> old(self).input()[r.1 as int] == LINE_FEED
                && final(self).position() == r.1 + 1,
            r.1 == old(self).input().len() ==> final(self).position() == r.1,
    {
        let started_at: usize = self.cursor;
        let mut stopped_at: usize = self.cursor;
        while self.cursor < self.buffer.len()
            invariant
                self.buffer@ == old(self).buffer@,
                started_at == old(self).cursor,
                started_at <= stopped_at <= self.buffer@.len(),
                self.cursor == stopped_at,
                line_end(self.buffer@, stopped_at as int) == line_end(
                    self.buffer@,
                    started_at as int,
                ),
            decreases self.buffer@.len() - self.cursor,
        {
            if self.buffer[self.cursor] == LINE_FEED {
                self.incr_cursor();
                proof {
                    lemma_line_end(self.buffer@, started_at as int);
                }
                return (started_at, stopped_at);
            }
            stopped_at += 1;
            self.incr_cursor();
        }
        proof {
            lemma_line_end(self.buffer@, started_at as int);
        }
        (started_at, stopped_at)
    }

    /// Reads a sizeline, `#<digits>\n`, and returns the size it declares.
    ///
    /// On success the cursor stands just past the line feed. On failure it
    /// has not moved.
    pub fn read_sizeline(&mut self) -> (r: ParseResult<usize>)
        requires
            old(self).wf(),
        ensures
            final(self).wf(),
            final(self).input() == old(self).input(),
            agrees(
                spec_sizeline(old(self).input(), old(self).position()),
                old(self).position(),
                r,
                final(self).position(),
            ),
    {
        let begin: usize = self.cursor;
        if self.cursor >= self.buffer.len() {
            return Err(ParseError::NotEnough);
        }
        if self.buffer[self.cursor] != SIZELINE_TAG {
            return Err(ParseError::UnexpectedByte);
        }
        self.incr_cursor();
        let (started_at, stopped_at) = self.read_line();
        match parse_into_usize(slice_subrange(self.buffer, started_at, stopped_at)) {
            Ok(size) => {
                if stopped_at < self.buffer.len() {
                    Ok(size)
                } else {
                    self.cursor = begin;
                    Err(ParseError::NotEnough)
                }
            },
            Err(e) => {
                self.cursor = begin;
                Err(e)
            },
        }
    }

    /// Reads a sizeline and the line it sizes, which must open with `tag`,
    /// go on with digits and end in a line feed; returns the digits' value.
    fn parse_sized_line(&mut self, tag: u8) -> (r: ParseResult<usize>)
        requires
            old(self).wf(),
        ensures
            final(self).wf(),
            final(self).input() == old(self).input(),
            agrees(
                spec_frame(old(self).input(), old(self).position(), tag),
                old(self).position(),
                r,
                final(self).position(),
            ),
    {
        let begin: usize = self.cursor;
        let size: usize = match self.read_sizeline() {
            Ok(size) => size,
            Err(e) => {
                return Err(e);
            },
        };
        let our_chunk: &[u8] = match self.read_until(size) {
            Ok(chunk) => chunk,
            Err(e) => {
                self.cursor = begin;
                return Err(e);
            },
        };
        if size == 0 || our_chunk[0] != tag {
            self.cursor = begin;
            return Err(ParseError::UnexpectedByte);
        }
        let ghost body = self.cursor - size;
        proof {
            assert(our_chunk@.subrange(1, size as int) =~= self.buffer@.subrange(
                body + 1,
                body + size,
            ));
        }
        let count: usize = match parse_into_usize(slice_subrange(our_chunk, 1, size)) {
            Ok(count) => count,
            Err(e) => {
                self.cursor = begin;
                return Err(e);
            },
        };
        if self.cursor >= self.buffer.len() {
            self.cursor = begin;
            return Err(ParseError::NotEnough);
        }
        if self.buffer[self.cursor] != LINE_FEED {
            self.cursor = begin;
            return Err(ParseError::UnexpectedByte);
        }
        self.incr_cursor();
        Ok(count)
    }

    /// Reads a metaframe, `#<m>\n!<n>\n`, and returns `n`, the number of
    /// action groups in the packet.
    ///
    /// On success the cursor stands just past the second line feed. On
    /// failure it has not moved.
    pub fn parse_metaframe(&mut self) -> (r: ParseResult<usize>)
        requires
            old(self).wf(),
        ensures
            final(self).wf(),
            final(self).input() == old(self).input(),
            agrees(
                spec_frame(old(self).input(), old(self).position(), METAFRAME_TAG),
                old(self).position(),
                r,
                final(self).position(),
            ),
    {
        self.parse_sized_line(METAFRAME_TAG)
    }

    /// Reads the header of an action group, `#<p>\n&<q>\n`, and returns
    /// `q`, the number of items in the group.
    ///
    /// On success the cursor stands just past the second line feed. On
    /// failure it has not moved.
    pub fn parse_actiongroup_size(&mut self) -> (r: ParseResult<usize>)
        requires
            old(self).wf(),
        ensures
            final(self).wf(),
            final(self).input() == old(self).input(),
            agrees(
                spec_frame(old(self).input(), old(self).position(), ACTIONGROUP_TAG),
                old(self).position(),
                r,
                final(self).position(),
            ),
    {
        self.parse_sized_line(ACTIONGROUP_TAG)
    }
}

} // verus!
