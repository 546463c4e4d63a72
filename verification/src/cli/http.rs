//! The part of HTTP that answers of the daemon need.
//!
//! A table that is streamed has no end of its own. That it is complete shows
//! only in how the body is framed, so the framing is kept track of here.

use crate::text::{
    chars_of, find_char, from_utf8, hex_number_in, is_white, join, matches_at, number_in, parse_digits,
    parse_hex, pieces, position_of, quote, quoted, same_but_case, same_ignoring_case, split_on,
    starts_with, string_of, string_views, trim, trim_chars, trimmed, trimmed_end, word_views,
    words_from, words_in,
};
use crate::wire::{copy_between, put};
use vstd::prelude::*;
use vstd::utf8::{
    decode_utf8, encode_utf8, encode_utf8_decode_utf8, encode_utf8_valid_utf8, valid_utf8,
};

verus! {

/// The octet that ends a line.
pub const NEWLINE: u8 = 10;

/// The status in the first line of an answer.
pub open spec fn status_in(line: Seq<char>) -> Option<nat> {
    let words = words_from(line, 0);
    if words.len() < 2 || !starts_with(line.subrange(words[0].0, words[0].1), "HTTP/"@) {
        None
    } else {
        number_in(line.subrange(words[1].0, words[1].1), u16::MAX as nat)
    }
}

/// Reads the status out of the first line of an answer.
pub fn parse_status_line(line: &str) -> (r: Option<u16>)
    ensures
        r is Some <==> status_in(line@) is Some,
        r is Some ==> status_in(line@) == Some(r->0 as nat),
{
    let chars = chars_of(line);
    let words = words_in(&chars, 0);
    assert(word_views(words@).len() == words@.len());
    if words.len() < 2 {
        return None;
    }
    let first = words[0];
    let second = words[1];
    proof {
        assert(word_views(words@)[0] == (first.start as int, first.end as int));
        assert(word_views(words@)[1] == (second.start as int, second.end as int));
    }
    let name = vstd::slice::slice_subrange(chars.as_slice(), first.start, first.end);
    if !matches_at(name, &chars_of("HTTP/"), 0) {
        return None;
    }
    let code = vstd::slice::slice_subrange(chars.as_slice(), second.start, second.end);
    match parse_digits(code, 65_535) {
        Some(n) => Some(n as u16),
        None => None,
    }
}

/// How the length of a body is told.
#[derive(Clone, Copy, Debug, PartialEq, Eq, Structural)]
pub enum Framing {
    Chunked,
    Length(usize),
    /// The body ends with the connection; that it is cut short cannot be seen.
    Eof,
}

/// What is known of an answer while its head is read.
pub ghost struct HeadView {
    pub content_type: Seq<char>,
    pub framing: Framing,
}

/// What is known after one more line of the head. Names are compared without
/// regard to case, and a chunked body is chunked whatever length is told.
pub open spec fn with_header_line(head: HeadView, line: Seq<char>) -> HeadView {
    let colon = position_of(line, ':');
    let name = line.take(colon);
    let value = trimmed(line.skip(colon + 1));
    if colon >= line.len() {
        head
    } else if same_but_case(name, "content-type"@) {
        HeadView { content_type: value, ..head }
    } else if same_but_case(name, "transfer-encoding"@) && same_but_case(value, "chunked"@) {
        HeadView { framing: Framing::Chunked, ..head }
    } else if same_but_case(name, "content-length"@) {
        match number_in(value, usize::MAX as nat) {
            Some(len) => if head.framing == Framing::Chunked {
                head
            } else {
                HeadView { framing: Framing::Length(len as usize), ..head }
            },
            None => head,
        }
    } else {
        head
    }
}

/// Where the line at the start of some octets ends: behind its line end, or at
/// the end.
pub open spec fn line_len(data: Seq<u8>) -> int
    decreases data.len(),
{
    if data.len() == 0 {
        0
    } else if data[0] == NEWLINE {
        1
    } else {
        1 + line_len(data.drop_first())
    }
}

/// Whether the line at the start of some octets has its end.
pub open spec fn line_ends(data: Seq<u8>) -> bool {
    data.contains(NEWLINE)
}

proof fn line_len_is_in_range(data: Seq<u8>)
    ensures
        0 <= line_len(data) <= data.len(),
        data.len() > 0 ==> line_len(data) > 0,
    decreases data.len(),
{
    if data.len() > 0 && data[0] != NEWLINE {
        line_len_is_in_range(data.drop_first());
    }
}

/// A line that has its end is the same whatever comes behind.
proof fn whole_line_stays(data: Seq<u8>, more: Seq<u8>)
    requires
        line_ends(data),
    ensures
        line_len(data + more) == line_len(data),
        0 < line_len(data) <= data.len(),
    decreases data.len(),
{
    let i = choose|i: int| 0 <= i < data.len() && data[i] == NEWLINE;
    if data[0] != NEWLINE {
        let rest = data.drop_first();
        assert(rest[i - 1] == NEWLINE);
        whole_line_stays(rest, more);
        assert((data + more).drop_first() =~= rest + more);
    }
}

/// The length of the line at `at`, and whether it has its end.
fn find_line(data: &[u8], at: usize) -> (r: (usize, bool))
    requires
        at <= data@.len(),
    ensures
        r.0 == line_len(data@.skip(at as int)),
        at + r.0 <= data@.len(),
        r.1 == line_ends(data@.skip(at as int)),
{
    let ghost rest = data@.skip(at as int);
    let mut i: usize = at;
    while i < data.len() && data[i] != NEWLINE
        invariant
            at <= i <= data@.len(),
            rest == data@.skip(at as int),
            line_len(rest) == i - at + line_len(data@.skip(i as int)),
            forall|k: int| at <= k < i ==> #[trigger] data@[k] != NEWLINE,
        decreases data.len() - i,
    {
        assert(data@.skip(i as int).drop_first() =~= data@.skip(i + 1));
        i += 1;
    }
    if i < data.len() {
        assert(rest[i - at] == NEWLINE);
        (i + 1 - at, true)
    } else {
        assert(!rest.contains(NEWLINE)) by {
            if rest.contains(NEWLINE) {
                let k = choose|k: int| 0 <= k < rest.len() && rest[k] == NEWLINE;
                assert(data@[at + k] == NEWLINE);
            }
        }
        (i - at, false)
    }
}

/// What can be wrong with the head of an answer.
#[derive(Debug)]
pub enum HeadError {
    /// The first line is no status line; the text is the line.
    Status(String),
    /// The connection ended before the head did.
    Eof,
    /// The head is not text.
    NotText,
}

/// What a [`HeadError`] holds.
pub ghost enum HeadErrorView {
    Status(Seq<char>),
    Eof,
    NotText,
}

impl View for HeadError {
    type V = HeadErrorView;

    open spec fn view(&self) -> HeadErrorView {
        match self {
            HeadError::Status(line) => HeadErrorView::Status(line@),
            HeadError::Eof => HeadErrorView::Eof,
            HeadError::NotText => HeadErrorView::NotText,
        }
    }
}

/// The lines of the head from `at` on: what they tell, and where the body
/// starts.
pub open spec fn headers_from(data: Seq<u8>, at: int, head: HeadView) -> Result<
    (HeadView, int),
    HeadErrorView,
>
    decreases data.len() - at,
    via headers_end
{
    let rest = data.skip(at);
    let len = line_len(rest);
    if at < 0 || at >= data.len() {
        Err(HeadErrorView::Eof)
    } else if !valid_utf8(rest.take(len)) {
        Err(HeadErrorView::NotText)
    } else {
        let line = trimmed_end(decode_utf8(rest.take(len)));
        if line.len() == 0 {
            Ok((head, at + len))
        } else {
            headers_from(data, at + len, with_header_line(head, line))
        }
    }
}

#[via_fn]
proof fn headers_end(data: Seq<u8>, at: int, head: HeadView) {
    if 0 <= at < data.len() {
        line_len_is_in_range(data.skip(at));
    }
}

/// The head of an answer: the status, what the lines tell, and where the body
/// starts.
pub open spec fn head_in(data: Seq<u8>) -> Result<(nat, HeadView, int), HeadErrorView> {
    let len = line_len(data);
    if !valid_utf8(data.take(len)) {
        Err(HeadErrorView::NotText)
    } else {
        let line = decode_utf8(data.take(len));
        match status_in(line) {
            None => Err(HeadErrorView::Status(trimmed(line))),
            Some(status) => match headers_from(
                data,
                len,
                HeadView { content_type: seq![], framing: Framing::Eof },
            ) {
                Ok((head, at)) => Ok((status, head, at)),
                Err(error) => Err(error),
            },
        }
    }
}

/// How far a body has been read.
#[derive(Clone, Copy, Debug, PartialEq, Eq, Structural)]
pub struct Decoder {
    pub framing: Framing,
    /// Octets still to come of the chunk, or of the body.
    pub remaining: usize,
    /// Whether a chunk has come.
    pub seen_chunk: bool,
}

/// How a body ended.
#[derive(Clone, Copy, Debug, PartialEq, Eq, Structural)]
pub enum Ending {
    Complete,
    /// The connection ended before the body did.
    Truncated,
    /// The size of a chunk could not be read.
    ChunkSize,
    /// A line between chunks is not text.
    NotText,
}

/// The size in the line before a chunk; what stands behind a semicolon is of
/// no interest.
pub open spec fn chunk_size_in(line: Seq<char>) -> Option<nat> {
    hex_number_in(size_text(line), usize::MAX as nat)
}

/// What stands for the size in the line before a chunk.
pub open spec fn size_text(line: Seq<char>) -> Seq<char> {
    trimmed(pieces(trimmed(line), ';')[0])
}

/// Whether octets begin with a line that should give a size and gives none.
pub open spec fn size_is_missing(data: Seq<u8>) -> bool {
    let line = data.take(line_len(data));
    valid_utf8(line) && chunk_size_in(decode_utf8(line)) is None
}

/// What comes of the line before a chunk, given what stands behind the chunks
/// before: the end of the body, or the next chunk.
pub open spec fn chunk_from(data: Seq<u8>) -> (Seq<u8>, Ending)
    decreases data.len(), 0int,
    via chunk_end
{
    let len = line_len(data);
    if data.len() == 0 {
        (seq![], Ending::Truncated)
    } else if !valid_utf8(data.take(len)) {
        (seq![], Ending::NotText)
    } else {
        match chunk_size_in(decode_utf8(data.take(len))) {
            None => (seq![], Ending::ChunkSize),
            Some(size) => if size == 0 {
                (seq![], Ending::Complete)
            } else {
                chunk_body(data.skip(len), size)
            },
        }
    }
}

/// What comes of the rest of a chunk and of those behind it.
pub open spec fn chunk_body(data: Seq<u8>, remaining: nat) -> (Seq<u8>, Ending)
    decreases data.len(), 1int,
    via chunk_body_end
{
    if data.len() < remaining {
        (data, Ending::Truncated)
    } else {
        let after = data.skip(remaining as int);
        let len = line_len(after);
        if after.len() == 0 {
            (data, Ending::Truncated)
        } else if !valid_utf8(after.take(len)) {
            (data.take(remaining as int), Ending::NotText)
        } else {
            let rest = chunk_from(after.skip(len));
            (data.take(remaining as int) + rest.0, rest.1)
        }
    }
}

#[via_fn]
proof fn chunk_end(data: Seq<u8>) {
    line_len_is_in_range(data);
}

#[via_fn]
proof fn chunk_body_end(data: Seq<u8>, remaining: nat) {
    line_len_is_in_range(data.skip(remaining as int));
}

/// The body that comes of all that is still to be read, and how it ends.
pub open spec fn body_from(d: Decoder, data: Seq<u8>) -> (Seq<u8>, Ending) {
    match d.framing {
        Framing::Eof => (data, Ending::Complete),
        Framing::Length(_) => if data.len() < d.remaining {
            (data, Ending::Truncated)
        } else {
            (data.take(d.remaining as int), Ending::Complete)
        },
        Framing::Chunked => if d.remaining > 0 || d.seen_chunk {
            chunk_body(data, d.remaining as nat)
        } else {
            chunk_from(data)
        },
    }
}

/// What a decoder makes of the octets at hand.
#[derive(Clone, Copy, Debug, PartialEq, Eq, Structural)]
pub enum Progress {
    /// So many octets of framing are passed over.
    Skip(usize),
    /// So many octets are part of the body.
    Body(usize),
    /// More octets are needed.
    More,
    End(Ending),
}

/// Whether the state of a decoder is in order: octets of a chunk are only to
/// come once a chunk has begun.
pub open spec fn decoder_fits(d: Decoder) -> bool {
    d.framing == Framing::Chunked && d.remaining > 0 ==> d.seen_chunk
}

/// Whether a decoder waits for a line between chunks.
pub open spec fn awaits_line(d: Decoder) -> bool {
    d.framing == Framing::Chunked && d.remaining == 0
}

/// Whether nothing can be made of the octets at hand before more come in: no
/// octet of the body and no whole line between chunks is among them, and the
/// body has not ended where its framing ends it.
pub open spec fn has_to_wait(d: Decoder, at_hand: Seq<u8>) -> bool {
    match d.framing {
        Framing::Eof => at_hand.len() == 0,
        Framing::Length(_) => d.remaining > 0 && at_hand.len() == 0,
        Framing::Chunked => if d.remaining > 0 {
            at_hand.len() == 0
        } else {
            !line_ends(at_hand)
        },
    }
}

/// A part of a chunk can be taken in ahead of the rest.
proof fn chunk_in_parts(data: Seq<u8>, remaining: nat, n: int)
    requires
        0 <= n <= remaining,
        n <= data.len(),
    ensures
        chunk_body(data, remaining).0 == data.take(n) + chunk_body(
            data.skip(n),
            (remaining - n) as nat,
        ).0,
        chunk_body(data, remaining).1 == chunk_body(data.skip(n), (remaining - n) as nat).1,
{
    let rest = data.skip(n);
    let left = (remaining - n) as nat;
    if data.len() < remaining {
        assert(data =~= data.take(n) + rest);
    } else {
        assert(rest.skip(left as int) =~= data.skip(remaining as int));
        assert(data.take(remaining as int) =~= data.take(n) + rest.take(left as int));
        let after = data.skip(remaining as int);
        let tail = chunk_from(after.skip(line_len(after))).0;
        assert(data.take(remaining as int) + tail =~= data.take(n) + (rest.take(left as int)
            + tail));
        assert(data =~= data.take(n) + rest);
    }
}

/// What a step of a decoder must hold to, whatever more is to come.
pub open spec fn step_holds(
    before: Decoder,
    after: Decoder,
    at_hand: Seq<u8>,
    more: Seq<u8>,
    step: Progress,
) -> bool {
    let all = at_hand + more;
    match step {
        Progress::Skip(n) => 0 < n <= at_hand.len() && body_from(before, all) == body_from(
            after,
            all.skip(n as int),
        ),
        Progress::Body(n) => {
            &&& 0 < n <= at_hand.len()
            &&& body_from(before, all).0 == at_hand.take(n as int) + body_from(
                after,
                all.skip(n as int),
            ).0
            &&& body_from(before, all).1 == body_from(after, all.skip(n as int)).1
        },
        Progress::More => before == after,
        Progress::End(ending) => body_from(before, all).0.len() == 0 && body_from(before, all).1
            == ending,
    }
}

/// The size in the line before a chunk.
fn parse_chunk_size(line: &str) -> (r: Option<usize>)
    ensures
        r is Some <==> chunk_size_in(line@) is Some,
        r is Some ==> chunk_size_in(line@) == Some(r->0 as nat),
{
    let chars = chars_of(line);
    let inner = trim_chars(&chars);
    let parts = split_on(&inner, ';');
    assert(string_views(parts@)[0] == parts@[0]@);
    let first = chars_of(parts[0].as_str());
    let digits = trim_chars(&first);
    match parse_hex(&digits, usize::MAX as u64) {
        Some(n) => Some(n as usize),
        None => None,
    }
}

impl Decoder {
    /// A decoder for a body that is framed in some way.
    pub fn new(framing: Framing) -> (r: Decoder)
        ensures
            r.framing == framing,
            r.remaining == (match framing {
                Framing::Length(n) => n,
                _ => 0,
            }),
            !r.seen_chunk,
    {
        let remaining: usize = match framing {
            Framing::Length(n) => n,
            _ => 0,
        };
        Decoder { framing, remaining, seen_chunk: false }
    }

    fn take_counted(&mut self, at_hand: &[u8], eof: bool) -> (r: Progress)
        requires
            old(self).remaining > 0,
            old(self).framing != Framing::Eof,
            old(self).framing == Framing::Chunked ==> old(self).seen_chunk,
        ensures
            forall|more: Seq<u8>|
                (eof ==> more.len() == 0) ==> #[trigger] step_holds(
                    *old(self),
                    *final(self),
                    at_hand@,
                    more,
                    r,
                ),
            r == Progress::More ==> !eof && at_hand@.len() == 0,
            r != Progress::End(Ending::ChunkSize),
            decoder_fits(*final(self)),
            final(self).framing == old(self).framing,
    {
        let len: usize = at_hand.len();
        let ghost before = *self;
        if len == 0 {
            if eof {
                proof {
                    assert forall|more: Seq<u8>| (eof ==> more.len() == 0) implies #[trigger] step_holds(
                        before,
                        before,
                        at_hand@,
                        more,
                        Progress::End(Ending::Truncated),
                    ) by {
                        assert((at_hand@ + more).len() == 0);
                    }
                }
                return Progress::End(Ending::Truncated);
            }
            return Progress::More;
        }
        let n: usize = if len < self.remaining {
            len
        } else {
            self.remaining
        };
        self.remaining = self.remaining - n;
        proof {
            assert forall|more: Seq<u8>| (eof ==> more.len() == 0) implies #[trigger] step_holds(
                before,
                *self,
                at_hand@,
                more,
                Progress::Body(n),
            ) by {
                let all = at_hand@ + more;
                assert(all.take(n as int) =~= at_hand@.take(n as int));
                if before.framing == Framing::Chunked {
                    chunk_in_parts(all, before.remaining as nat, n as int);
                } else {
                    let rest = all.skip(n as int);
                    if all.len() < before.remaining {
                        assert(all =~= all.take(n as int) + rest);
                    } else {
                        assert(all.take(before.remaining as int) =~= all.take(n as int)
                            + rest.take(before.remaining - n));
                    }
                }
            }
        }
        Progress::Body(n)
    }

    fn take_line(&mut self, at_hand: &[u8], eof: bool) -> (r: Progress)
        requires
            awaits_line(*old(self)),
        ensures
            forall|more: Seq<u8>|
                (eof ==> more.len() == 0) ==> #[trigger] step_holds(
                    *old(self),
                    *final(self),
                    at_hand@,
                    more,
                    r,
                ),
            r == Progress::More ==> !eof && !line_ends(at_hand@),
            r == Progress::End(Ending::ChunkSize) ==> size_is_missing(at_hand@),
            decoder_fits(*final(self)),
            final(self).framing == old(self).framing,
    {
        let ghost before = *self;
        assert(at_hand@.skip(0) =~= at_hand@);
        let (len, ends) = find_line(at_hand, 0);
        if at_hand.len() == 0 && eof {
            proof {
                assert forall|more: Seq<u8>| (eof ==> more.len() == 0) implies #[trigger] step_holds(
                    before,
                    before,
                    at_hand@,
                    more,
                    Progress::End(Ending::Truncated),
                ) by {
                    assert((at_hand@ + more).len() == 0);
                    assert((at_hand@ + more).skip(0) =~= at_hand@ + more);
                }
            }
            return Progress::End(Ending::Truncated);
        }
        if !ends && !eof {
            return Progress::More;
        }
        let octets = copy_between(at_hand, 0, len);
        let ghost line = octets@;
        proof {
            assert(line =~= at_hand@.take(len as int));
            line_len_is_in_range(at_hand@);
            assert forall|more: Seq<u8>| (eof ==> more.len() == 0) implies line_len(
                #[trigger] (at_hand@ + more),
            ) == len && (at_hand@ + more).take(len as int) == line && (at_hand@ + more).len() > 0
                && (at_hand@ + more).skip(0) == at_hand@ + more by {
                let all = at_hand@ + more;
                if ends {
                    whole_line_stays(at_hand@, more);
                } else {
                    assert(all =~= at_hand@);
                }
                assert(all.take(len as int) =~= line);
                assert(all.skip(0) =~= all);
            }
        }
        let text = match from_utf8(octets) {
            Some(text) => text,
            None => {
                proof {
                    assert forall|more: Seq<u8>| (eof ==> more.len() == 0) implies #[trigger] step_holds(
                        before,
                        before,
                        at_hand@,
                        more,
                        Progress::End(Ending::NotText),
                    ) by {
                        let all = at_hand@ + more;
                        assert(line_len(all) == len);
                        assert(all.take(0) =~= seq![]);
                    }
                }
                return Progress::End(Ending::NotText);
            },
        };
        if self.seen_chunk {
            self.seen_chunk = false;
            proof {
                assert forall|more: Seq<u8>| (eof ==> more.len() == 0) implies #[trigger] step_holds(
                    before,
                    *self,
                    at_hand@,
                    more,
                    Progress::Skip(len),
                ) by {
                    let all = at_hand@ + more;
                    assert(line_len(all) == len);
                    let rest = chunk_from(all.skip(len as int));
                    assert(all.take(0) + rest.0 =~= rest.0);
                }
            }
            return Progress::Skip(len);
        }
        match parse_chunk_size(text.as_str()) {
            None => {
                proof {
                    assert forall|more: Seq<u8>| (eof ==> more.len() == 0) implies #[trigger] step_holds(
                        before,
                        before,
                        at_hand@,
                        more,
                        Progress::End(Ending::ChunkSize),
                    ) by {
                        assert(line_len(at_hand@ + more) == len);
                    }
                }
                Progress::End(Ending::ChunkSize)
            },
            Some(size) => {
                if size == 0 {
                    proof {
                        assert forall|more: Seq<u8>| (eof ==> more.len() == 0) implies #[trigger] step_holds(
                            before,
                            before,
                            at_hand@,
                            more,
                            Progress::End(Ending::Complete),
                        ) by {
                            assert(line_len(at_hand@ + more) == len);
                        }
                    }
                    return Progress::End(Ending::Complete);
                }
                self.remaining = size;
                self.seen_chunk = true;
                proof {
                    assert forall|more: Seq<u8>| (eof ==> more.len() == 0) implies #[trigger] step_holds(
                        before,
                        *self,
                        at_hand@,
                        more,
                        Progress::Skip(len),
                    ) by {
                        assert(line_len(at_hand@ + more) == len);
                    }
                }
                Progress::Skip(len)
            },
        }
    }

    /// Makes what can be made of the octets at hand. `eof` says that there are
    /// no others. Whatever more is to come, what is left to be read of the body
    /// behind a step is what was left before, less what the step took.
    pub fn step(&mut self, at_hand: &[u8], eof: bool) -> (r: Progress)
        requires
            decoder_fits(*old(self)),
        ensures
            forall|more: Seq<u8>|
                (eof ==> more.len() == 0) ==> #[trigger] step_holds(
                    *old(self),
                    *final(self),
                    at_hand@,
                    more,
                    r,
                ),
            r == Progress::More ==> !eof && has_to_wait(*old(self), at_hand@),
            r == Progress::End(Ending::ChunkSize) ==> size_is_missing(at_hand@),
            decoder_fits(*final(self)),
            final(self).framing == old(self).framing,
    {
        let ghost before = *self;
        match self.framing {
            Framing::Eof => {
                if at_hand.len() > 0 {
                    let n: usize = at_hand.len();
                    proof {
                        assert forall|more: Seq<u8>| (eof ==> more.len() == 0) implies #[trigger] step_holds(
                            before,
                            before,
                            at_hand@,
                            more,
                            Progress::Body(n),
                        ) by {
                            let all = at_hand@ + more;
                            assert(all =~= at_hand@.take(n as int) + all.skip(n as int));
                        }
                    }
                    Progress::Body(n)
                } else if eof {
                    Progress::End(Ending::Complete)
                } else {
                    Progress::More
                }
            },
            Framing::Length(_) => {
                if self.remaining == 0 {
                    Progress::End(Ending::Complete)
                } else {
                    self.take_counted(at_hand, eof)
                }
            },
            Framing::Chunked => {
                if self.remaining > 0 {
                    self.take_counted(at_hand, eof)
                } else {
                    self.take_line(at_hand, eof)
                }
            },
        }
    }
}

/// An answer whose body is still to be read.
#[derive(Debug)]
pub struct Response {
    pub status: u16,
    pub content_type: String,
    pub decoder: Decoder,
    /// What has come in and was not read yet.
    pub unread: Vec<u8>,
    pub truncated: bool,
}

/// What comes of reading on in a body.
#[derive(Debug)]
pub enum Piece {
    /// A part of the body.
    Body(Vec<u8>),
    /// More has to come in.
    More,
    End(Ending),
}

/// What can be wrong with a body.
#[derive(Clone, Copy, Debug, PartialEq, Eq, Structural)]
pub enum BodyError {
    /// The size of a chunk could not be read.
    ChunkSize,
    /// The body, or a line between chunks, is not text.
    NotText,
}

/// What comes of reading a body as a text.
pub open spec fn body_text(body: (Seq<u8>, Ending)) -> Result<Seq<char>, BodyError> {
    match body.1 {
        Ending::ChunkSize => Err(BodyError::ChunkSize),
        Ending::NotText => Err(BodyError::NotText),
        _ => if valid_utf8(body.0) {
            Ok(decode_utf8(body.0))
        } else {
            Err(BodyError::NotText)
        },
    }
}

/// A body that was read to its end as a text.
pub fn text_of_body(body: Vec<u8>) -> (r: Result<String, BodyError>)
    ensures
        match body_text((body@, Ending::Complete)) {
            Ok(text) => r is Ok && r->Ok_0@ == text,
            Err(error) => r == Err::<String, BodyError>(error),
        },
{
    match from_utf8(body) {
        Some(text) => Ok(text),
        None => Err(BodyError::NotText),
    }
}

/// Takes in a line of the head.
fn header_line(line: &[char], content_type: &mut String, framing: &mut Framing)
    ensures
        (HeadView { content_type: final(content_type)@, framing: *final(framing) })
            == with_header_line(
            (HeadView { content_type: old(content_type)@, framing: *old(framing) }),
            line@,
        ),
{
    assert(line@.skip(0) =~= line@);
    let colon: usize = find_char(line, 0, ':');
    if colon == line.len() {
        return ;
    }
    let name = vstd::slice::slice_subrange(line, 0, colon);
    let rest = vstd::slice::slice_subrange(line, colon + 1, line.len());
    assert(name@ =~= line@.take(colon as int));
    assert(rest@ =~= line@.skip(colon + 1));
    let value = trim_chars(rest);
    if same_ignoring_case(name, &chars_of("content-type")) {
        *content_type = string_of(&value);
    } else if same_ignoring_case(name, &chars_of("transfer-encoding")) && same_ignoring_case(
        &value,
        &chars_of("chunked"),
    ) {
        *framing = Framing::Chunked;
    } else if same_ignoring_case(name, &chars_of("content-length")) {
        match parse_digits(&value, usize::MAX as u64) {
            Some(len) => {
                if *framing != Framing::Chunked {
                    *framing = Framing::Length(len as usize);
                }
            },
            None => {},
        }
    }
}

/// Whether the head of an answer is all there: some line of it is empty.
pub open spec fn has_blank_line(data: Seq<u8>) -> bool {
    exists|i: int| blank_line_at(data, i)
}

/// Whether an empty line stands behind the line that ends at `i`.
pub open spec fn blank_line_at(data: Seq<u8>, i: int) -> bool {
    &&& 0 <= i
    &&& i + 1 < data.len()
    &&& data[i] == NEWLINE
    &&& data[i + 1] == NEWLINE || (i + 2 < data.len() && data[i + 1] == 13 && data[i + 2]
        == NEWLINE)
}

/// A line goes no further than to the first line end.
proof fn line_is_short(data: Seq<u8>, i: int)
    requires
        0 <= i < data.len(),
        data[i] == NEWLINE,
    ensures
        0 < line_len(data) <= i + 1,
    decreases data.len(),
{
    if data[0] != NEWLINE {
        line_is_short(data.drop_first(), i - 1);
    }
}

/// An empty line, with or without a carriage return, is text of white space.
proof fn blank_line_is_blank(line: Seq<u8>)
    requires
        line == seq![NEWLINE] || line == seq![13u8, NEWLINE],
    ensures
        valid_utf8(line),
        trimmed_end(decode_utf8(line)).len() == 0,
{
    assert(10u32 & 0x7f == 10u32 && 13u32 & 0x7f == 13u32) by (bit_vector);
    let end = seq!['\n'];
    assert(end.drop_first() =~= seq![]);
    assert(encode_utf8(end.drop_first()) =~= seq![]);
    assert(encode_utf8(end) =~= seq![NEWLINE]);
    let text: Seq<char> = if line.len() == 1 {
        end
    } else {
        seq!['\r'] + end
    };
    if line.len() == 2 {
        assert(text.drop_first() =~= end);
    }
    assert(encode_utf8(text) =~= line);
    encode_utf8_valid_utf8(text);
    encode_utf8_decode_utf8(text);
    assert(decode_utf8(line) == text);
    assert(is_white('\n') && is_white('\r'));
    let before = text.drop_last();
    assert(trimmed_end(text) == trimmed_end(before));
    if line.len() == 2 {
        assert(before =~= seq!['\r']);
        assert(trimmed_end(before) == trimmed_end(before.drop_last()));
    }
}

/// Lines of the head that come before an empty line, and that line itself, are
/// read alike whatever comes behind.
proof fn headers_stay(data: Seq<u8>, more: Seq<u8>, at: int, head: HeadView, i: int)
    requires
        blank_line_at(data, i),
        0 <= at <= i + 1,
    ensures
        headers_from(data + more, at, head) == headers_from(data, at, head),
        headers_from(data, at, head) != Err::<(HeadView, int), HeadErrorView>(HeadErrorView::Eof),
    decreases i + 1 - at,
{
    let rest = data.skip(at);
    let all = data + more;
    let len = line_len(rest);
    assert(all.skip(at) =~= rest + more);
    if at <= i {
        line_is_short(rest, i - at);
        assert(rest[i - at] == NEWLINE);
    } else if data[i + 1] == NEWLINE {
        line_is_short(rest, 0);
        assert(rest[0] == NEWLINE);
        assert(rest.take(len) =~= seq![NEWLINE]);
        blank_line_is_blank(rest.take(len));
    } else {
        line_is_short(rest, 1);
        assert(rest[1] == NEWLINE);
        assert(rest.drop_first()[0] == NEWLINE);
        assert(line_len(rest.drop_first()) == 1);
        assert(rest.take(len) =~= seq![13u8, NEWLINE]);
        blank_line_is_blank(rest.take(len));
    }
    whole_line_stays(rest, more);
    assert((rest + more).take(len) =~= rest.take(len));
    if at <= i && valid_utf8(rest.take(len)) {
        let line = trimmed_end(decode_utf8(rest.take(len)));
        if line.len() > 0 {
            headers_stay(data, more, at + len, with_header_line(head, line), i);
        }
    }
}

/// Once an empty line has come in, the head can be read: it does not end too
/// early, and what comes in behind changes nothing in it.
pub proof fn complete_head_is_final(data: Seq<u8>, more: Seq<u8>)
    requires
        has_blank_line(data),
    ensures
        head_in(data) != Err::<(nat, HeadView, int), HeadErrorView>(HeadErrorView::Eof),
        head_in(data + more) == head_in(data),
{
    let i = choose|i: int| blank_line_at(data, i);
    let len = line_len(data);
    line_is_short(data, i);
    whole_line_stays(data, more);
    assert((data + more).take(len) =~= data.take(len));
    headers_stay(
        data,
        more,
        len,
        HeadView { content_type: seq![], framing: Framing::Eof },
        i,
    );
}

/// Whether the head of an answer is all there.
pub fn head_is_complete(data: &[u8]) -> (r: bool)
    ensures
        r == has_blank_line(data@),
{
    let mut i: usize = 0;
    while i < data.len()
        invariant
            i <= data@.len(),
            forall|k: int| 0 <= k < i ==> !blank_line_at(data@, k),
        decreases data.len() - i,
    {
        if data[i] == NEWLINE && data.len() - i > 1 {
            if data[i + 1] == NEWLINE || (data.len() - i > 2 && data[i + 1] == 13 && data[i + 2]
                == NEWLINE) {
                assert(blank_line_at(data@, i as int));
                return true;
            }
        }
        i += 1;
    }
    false
}

impl Response {
    /// Reads the head of an answer.
    pub fn read(data: &[u8]) -> (r: Result<Response, HeadError>)
        ensures
            match head_in(data@) {
                Ok((status, head, at)) => {
                    &&& r is Ok
                    &&& r->Ok_0.status == status
                    &&& r->Ok_0.content_type@ == head.content_type
                    &&& r->Ok_0.decoder.framing == head.framing
                    &&& r->Ok_0.decoder.remaining == (match head.framing {
                        Framing::Length(n) => n,
                        _ => 0,
                    })
                    &&& !r->Ok_0.decoder.seen_chunk
                    &&& r->Ok_0.unread@ == data@.skip(at)
                    &&& !r->Ok_0.truncated
                },
                Err(error) => r is Err && r->Err_0@ == error,
            },
    {
        let len: usize = data.len();
        assert(data@.skip(0) =~= data@);
        let (first, _) = find_line(data, 0);
        let octets = copy_between(data, 0, first);
        assert(octets@ =~= data@.take(first as int));
        let line = match from_utf8(octets) {
            Some(line) => line,
            None => {
                return Err(HeadError::NotText);
            },
        };
        let status: u16 = match parse_status_line(line.as_str()) {
            Some(status) => status,
            None => {
                let chars = chars_of(line.as_str());
                return Err(HeadError::Status(string_of(&trim_chars(&chars))));
            },
        };
        let mut content_type = String::new();
        let mut framing = Framing::Eof;
        let mut at: usize = first;
        assert(content_type@ =~= seq![]);
        let ghost start = HeadView { content_type: seq![], framing: Framing::Eof };
        loop
            invariant
                len == data@.len(),
                at <= len,
                headers_from(data@, first as int, start) == headers_from(
                    data@,
                    at as int,
                    HeadView { content_type: content_type@, framing },
                ),
                start == (HeadView { content_type: seq![], framing: Framing::Eof }),
                first == line_len(data@),
                valid_utf8(data@.take(first as int)),
                status_in(decode_utf8(data@.take(first as int))) == Some(status as nat),
            decreases len - at,
        {
            if at == len {
                return Err(HeadError::Eof);
            }
            let (size, _) = find_line(data, at);
            let octets = copy_between(data, at, at + size);
            proof {
                line_len_is_in_range(data@.skip(at as int));
                assert(octets@ =~= data@.skip(at as int).take(size as int));
            }
            let line = match from_utf8(octets) {
                Some(line) => line,
                None => {
                    return Err(HeadError::NotText);
                },
            };
            let chars = chars_of(line.as_str());
            let end: usize = crate::text::end_of(&chars);
            let shown = vstd::slice::slice_subrange(chars.as_slice(), 0, end);
            assert(shown@ =~= chars@.take(end as int));
            at = at + size;
            if end == 0 {
                let unread = copy_between(data, at, len);
                assert(unread@ =~= data@.skip(at as int));
                return Ok(
                    Response {
                        status,
                        content_type,
                        decoder: Decoder::new(framing),
                        unread,
                        truncated: false,
                    },
                );
            }
            header_line(shown, &mut content_type, &mut framing);
        }
    }

    /// Whether the body ended before its framing said that it would.
    pub fn truncated(&self) -> (r: bool)
        ensures
            r == self.truncated,
    {
        self.truncated
    }

    /// Takes in more octets.
    pub fn feed(&mut self, data: &[u8])
        ensures
            final(self).unread@ == old(self).unread@ + data@,
            final(self).decoder == old(self).decoder,
            final(self).status == old(self).status,
            final(self).content_type == old(self).content_type,
            final(self).truncated == old(self).truncated,
    {
        put(&mut self.unread, data);
    }

    /// Reads on in the body. `eof` says that nothing more will come in.
    /// Whatever comes in behind, what is left of the body afterwards is what
    /// was left before, less what is handed out.
    pub fn next_piece(&mut self, eof: bool) -> (r: Piece)
        requires
            decoder_fits(old(self).decoder),
        ensures
            decoder_fits(final(self).decoder),
            final(self).decoder.framing == old(self).decoder.framing,
            final(self).status == old(self).status,
            final(self).content_type == old(self).content_type,
            final(self).truncated == (old(self).truncated || r == Piece::End(Ending::Truncated)),
            final(self).unread@.len() <= old(self).unread@.len(),
            r is Body ==> final(self).unread@.len() < old(self).unread@.len(),
            r == Piece::More ==> !eof && has_to_wait(final(self).decoder, final(self).unread@),
            r == Piece::End(Ending::ChunkSize) ==> size_is_missing(final(self).unread@),
            forall|more: Seq<u8>|
                (eof ==> more.len() == 0) ==> ({
                    let before = body_from(old(self).decoder, #[trigger] (old(self).unread@ + more));
                    let after = body_from(final(self).decoder, final(self).unread@ + more);
                    match r {
                        Piece::Body(octets) => octets@.len() > 0 && before.0 == octets@ + after.0
                            && before.1 == after.1,
                        Piece::More => before == after,
                        Piece::End(ending) => before.0.len() == 0 && before.1 == ending,
                    }
                }),
    {
        let ghost start = self.decoder;
        let ghost whole = self.unread@;
        loop
            invariant
                decoder_fits(self.decoder),
                self.decoder.framing == old(self).decoder.framing,
                self.status == old(self).status,
                self.content_type == old(self).content_type,
                self.truncated == old(self).truncated,
                self.unread@.len() <= whole.len(),
                start == old(self).decoder,
                whole == old(self).unread@,
                forall|more: Seq<u8>|
                    (eof ==> more.len() == 0) ==> body_from(start, #[trigger] (whole + more))
                        == body_from(self.decoder, self.unread@ + more),
            decreases self.unread@.len(),
        {
            let ghost decoder = self.decoder;
            let ghost at_hand = self.unread@;
            match self.decoder.step(&self.unread, eof) {
                Progress::Skip(n) => {
                    let len: usize = self.unread.len();
                    proof {
                        assert(step_holds(decoder, self.decoder, at_hand, seq![], Progress::Skip(n)));
                    }
                    self.unread = copy_between(&self.unread, n, len);
                    proof {
                        assert forall|more: Seq<u8>| (eof ==> more.len() == 0) implies body_from(
                            start,
                            #[trigger] (whole + more),
                        ) == body_from(self.decoder, self.unread@ + more) by {
                            assert(step_holds(
                                decoder,
                                self.decoder,
                                at_hand,
                                more,
                                Progress::Skip(n),
                            ));
                            assert((at_hand + more).skip(n as int) =~= self.unread@ + more);
                        }
                    }
                },
                Progress::Body(n) => {
                    let len: usize = self.unread.len();
                    proof {
                        assert(step_holds(decoder, self.decoder, at_hand, seq![], Progress::Body(n)));
                    }
                    let octets = copy_between(&self.unread, 0, n);
                    assert(octets@ =~= at_hand.take(n as int));
                    self.unread = copy_between(&self.unread, n, len);
                    proof {
                        assert forall|more: Seq<u8>| (eof ==> more.len() == 0) implies ({
                            let before = body_from(start, #[trigger] (whole + more));
                            let after = body_from(self.decoder, self.unread@ + more);
                            before.0 == octets@ + after.0 && before.1 == after.1
                        }) by {
                            assert(step_holds(
                                decoder,
                                self.decoder,
                                at_hand,
                                more,
                                Progress::Body(n),
                            ));
                            assert((at_hand + more).skip(n as int) =~= self.unread@ + more);
                        }
                    }
                    return Piece::Body(octets);
                },
                Progress::More => {
                    proof {
                        assert forall|more: Seq<u8>| (eof ==> more.len() == 0) implies body_from(
                            start,
                            #[trigger] (whole + more),
                        ) == body_from(self.decoder, self.unread@ + more) by {
                            assert(step_holds(
                                decoder,
                                self.decoder,
                                at_hand,
                                more,
                                Progress::More,
                            ));
                        }
                        assert(step_holds(decoder, self.decoder, at_hand, seq![], Progress::More));
                    }
                    return Piece::More;
                },
                Progress::End(ending) => {
                    if ending == Ending::Truncated {
                        self.truncated = true;
                    }
                    proof {
                        assert forall|more: Seq<u8>| (eof ==> more.len() == 0) implies ({
                            let before = body_from(start, #[trigger] (whole + more));
                            before.0.len() == 0 && before.1 == ending
                        }) by {
                            assert(step_holds(
                                decoder,
                                self.decoder,
                                at_hand,
                                more,
                                Progress::End(ending),
                            ));
                        }
                    }
                    return Piece::End(ending);
                },
            }
        }
    }

    /// Reads the body to its end, given that nothing more will come in.
    pub fn body_string(&mut self) -> (r: Result<String, BodyError>)
        requires
            decoder_fits(old(self).decoder),
        ensures
            match body_text(body_from(old(self).decoder, old(self).unread@)) {
                Ok(text) => r is Ok && r->Ok_0@ == text,
                Err(error) => r == Err::<String, BodyError>(error),
            },
            final(self).truncated == (old(self).truncated || body_from(
                old(self).decoder,
                old(self).unread@,
            ).1 == Ending::Truncated),
            r == Err::<String, BodyError>(BodyError::ChunkSize) ==> size_is_missing(
                final(self).unread@,
            ),
    {
        let ghost whole = body_from(self.decoder, self.unread@);
        let ghost flag = self.truncated;
        let mut body: Vec<u8> = Vec::new();
        let ghost none = Seq::<u8>::empty();
        assert(self.unread@ + none =~= self.unread@);
        assert(body@ + whole.0 =~= whole.0);
        loop
            invariant
                decoder_fits(self.decoder),
                self.truncated == flag,
                flag == old(self).truncated,
                whole == body_from(old(self).decoder, old(self).unread@),
                whole.0 == body@ + body_from(self.decoder, self.unread@).0,
                whole.1 == body_from(self.decoder, self.unread@).1,
                none.len() == 0,
            decreases self.unread@.len(),
        {
            let ghost at_hand = self.unread@;
            let ghost decoder = self.decoder;
            proof {
                assert(at_hand + none =~= at_hand);
            }
            match self.next_piece(true) {
                Piece::Body(octets) => {
                    let ghost before = body@;
                    put(&mut body, &octets);
                    proof {
                        assert(self.unread@ + none =~= self.unread@);
                        assert(body_from(decoder, at_hand + none).0 == octets@ + body_from(
                            self.decoder,
                            self.unread@ + none,
                        ).0);
                        let rest = body_from(self.decoder, self.unread@).0;
                        assert(before + (octets@ + rest) =~= body@ + rest);
                    }
                },
                Piece::More => {},
                Piece::End(ending) => {
                    proof {
                        assert(body_from(decoder, at_hand + none).1 == ending);
                        assert(body@ + body_from(decoder, at_hand).0 =~= body@);
                    }
                    return match ending {
                        Ending::ChunkSize => Err(BodyError::ChunkSize),
                        Ending::NotText => Err(BodyError::NotText),
                        _ => match from_utf8(body) {
                            Some(text) => Ok(text),
                            None => Err(BodyError::NotText),
                        },
                    };
                },
            }
        }
    }
}

/// A chunk as it is sent.
pub ghost struct Chunk {
    /// The line with the size.
    pub header: Seq<u8>,
    pub body: Seq<u8>,
}

/// The octets that stand between a chunk and the next.
pub open spec fn chunk_tail() -> Seq<u8> {
    seq![13u8, NEWLINE]
}

/// Whether octets are one line with a chunk size in it.
pub open spec fn is_size_line(line: Seq<u8>, size: nat) -> bool {
    &&& line.len() > 0
    &&& line.last() == NEWLINE
    &&& line_len(line) == line.len()
    &&& valid_utf8(line)
    &&& chunk_size_in(decode_utf8(line)) == Some(size)
}

/// Whether a chunk is as it should be.
pub open spec fn chunk_fits(chunk: Chunk) -> bool {
    chunk.body.len() > 0 && is_size_line(chunk.header, chunk.body.len())
}

/// Chunks as they are sent.
pub open spec fn chunks_octets(chunks: Seq<Chunk>) -> Seq<u8>
    decreases chunks.len(),
{
    if chunks.len() == 0 {
        seq![]
    } else {
        chunks[0].header + chunks[0].body + chunk_tail() + chunks_octets(chunks.drop_first())
    }
}

/// The bodies of chunks, put together.
pub open spec fn chunks_body(chunks: Seq<Chunk>) -> Seq<u8>
    decreases chunks.len(),
{
    if chunks.len() == 0 {
        seq![]
    } else {
        chunks[0].body + chunks_body(chunks.drop_first())
    }
}

proof fn line_end_is_text()
    ensures
        valid_utf8(chunk_tail()),
        line_len(chunk_tail()) == 2,
{
    let tail = chunk_tail();
    reveal_with_fuel(valid_utf8, 3);
    reveal_with_fuel(line_len, 3);
    assert(tail.drop_first() =~= seq![NEWLINE]);
    let rest = vstd::utf8::pop_first_scalar(tail);
    assert(rest =~= seq![NEWLINE]);
    assert(vstd::utf8::pop_first_scalar(rest) =~= seq![]);
}

proof fn chunks_are_read(chunks: Seq<Chunk>, behind: Seq<u8>)
    requires
        forall|i: int| 0 <= i < chunks.len() ==> chunk_fits(#[trigger] chunks[i]),
    ensures
        chunk_from(chunks_octets(chunks) + behind).0 == chunks_body(chunks) + chunk_from(behind).0,
        chunk_from(chunks_octets(chunks) + behind).1 == chunk_from(behind).1,
    decreases chunks.len(),
{
    let data = chunks_octets(chunks) + behind;
    if chunks.len() == 0 {
        assert(data =~= behind);
        assert(chunks_body(chunks) + chunk_from(behind).0 =~= chunk_from(behind).0);
    } else {
        let first = chunks[0];
        let others = chunks.drop_first();
        assert(chunk_fits(first));
        assert forall|i: int| 0 <= i < others.len() implies chunk_fits(#[trigger] others[i]) by {
            assert(others[i] == chunks[i + 1]);
        }
        chunks_are_read(others, behind);
        line_end_is_text();
        let rest = chunks_octets(others) + behind;
        let size = first.header.len() as int;
        let from_body = first.body + chunk_tail() + rest;
        assert(data =~= first.header + from_body);
        assert(first.header.contains(NEWLINE)) by {
            assert(first.header[size - 1] == NEWLINE);
        }
        whole_line_stays(first.header, from_body);
        assert(data.take(size) =~= first.header);
        assert(data.skip(size) =~= from_body);
        assert(from_body.take(first.body.len() as int) =~= first.body);
        let after = from_body.skip(first.body.len() as int);
        assert(after =~= chunk_tail() + rest);
        assert(chunk_tail().contains(NEWLINE)) by {
            assert(chunk_tail()[1] == NEWLINE);
        }
        whole_line_stays(chunk_tail(), rest);
        assert(after.take(2) =~= chunk_tail());
        assert(after.skip(2) =~= rest);
        assert(first.body + (chunks_body(others) + chunk_from(behind).0) =~= chunks_body(chunks)
            + chunk_from(behind).0);
    }
}

/// A streamed body is complete exactly if its last, empty chunk arrives: the
/// chunks give their bodies either way, but without it the body counts as cut
/// short.
pub proof fn missing_last_chunk_is_noticed(chunks: Seq<Chunk>, last: Seq<u8>, behind: Seq<u8>)
    requires
        forall|i: int| 0 <= i < chunks.len() ==> chunk_fits(#[trigger] chunks[i]),
        is_size_line(last, 0),
    ensures
        chunk_from(chunks_octets(chunks)) == (chunks_body(chunks), Ending::Truncated),
        chunk_from(chunks_octets(chunks) + last + behind) == (
            chunks_body(chunks),
            Ending::Complete,
        ),
{
    let none = Seq::<u8>::empty();
    chunks_are_read(chunks, none);
    assert(chunks_octets(chunks) + none =~= chunks_octets(chunks));
    assert(chunks_body(chunks) + chunk_from(none).0 =~= chunks_body(chunks));
    chunks_are_read(chunks, last + behind);
    assert(chunks_octets(chunks) + last + behind =~= chunks_octets(chunks) + (last + behind));
    assert(last.contains(NEWLINE)) by {
        assert(last[last.len() - 1] == NEWLINE);
    }
    whole_line_stays(last, behind);
    assert((last + behind).take(last.len() as int) =~= last);
    assert(chunks_body(chunks) + chunk_from(last + behind).0 =~= chunks_body(chunks));
}

/// A body whose length is told is cut short exactly if less than that arrives.
pub proof fn short_body_is_noticed(d: Decoder, data: Seq<u8>)
    requires
        d.framing is Length,
    ensures
        body_from(d, data).1 == Ending::Truncated <==> data.len() < d.remaining,
        body_from(d, data).1 == Ending::Complete <==> data.len() >= d.remaining,
{
}

/// What is told of text that is none.
pub const NOT_TEXT: &'static str = "stream did not contain valid UTF-8";

impl HeadErrorView {
    /// What is told of a head that cannot be read.
    pub open spec fn text(self) -> Seq<char> {
        match self {
            HeadErrorView::Status(line) => "malformed status line: "@ + quoted(trimmed(line)),
            HeadErrorView::Eof => "connection closed in headers"@,
            HeadErrorView::NotText => NOT_TEXT@,
        }
    }
}

impl HeadError {
    /// What is told of a head that cannot be read.
    pub fn message(&self) -> (r: String)
        ensures
            r@ == self@.text(),
    {
        match self {
            HeadError::Status(line) => join(
                "malformed status line: ",
                quote(trim(line.as_str()).as_str()).as_str(),
            ),
            HeadError::Eof => "connection closed in headers".to_owned(),
            HeadError::NotText => NOT_TEXT.to_owned(),
        }
    }
}

/// What is told of a body that cannot be read, by what has come in and was not
/// read: where the size of a chunk is missing, that begins with the line that
/// should give it.
pub open spec fn body_error_text(error: BodyError, unread: Seq<u8>) -> Seq<char> {
    match error {
        BodyError::ChunkSize => "malformed chunk size: "@ + quoted(
            size_text(decode_utf8(unread.take(line_len(unread)))),
        ),
        BodyError::NotText => NOT_TEXT@,
    }
}

impl Response {
    /// What is told of a body that cannot be read.
    pub fn message(&self, error: BodyError) -> (r: String)
        requires
            error == BodyError::ChunkSize ==> size_is_missing(self.unread@),
        ensures
            r@ == body_error_text(error, self.unread@),
    {
        if error == BodyError::NotText {
            return NOT_TEXT.to_owned();
        }
        assert(self.unread@.skip(0) =~= self.unread@);
        let (len, _) = find_line(&self.unread, 0);
        let octets = copy_between(&self.unread, 0, len);
        assert(octets@ =~= self.unread@.take(len as int));
        match from_utf8(octets) {
            Some(line) => {
                let chars = chars_of(line.as_str());
                let parts = split_on(&trim_chars(&chars), ';');
                assert(string_views(parts@)[0] == parts@[0]@);
                let size = trim(parts[0].as_str());
                join("malformed chunk size: ", quote(size.as_str()).as_str())
            },
            None => NOT_TEXT.to_owned(),
        }
    }
}

/// A line ends with the first line end, or with the octets.
pub proof fn lines_end_at_the_first_end(data: Seq<u8>)
    ensures
        0 <= line_len(data) <= data.len(),
        forall|i: int| 0 <= i < line_len(data) - 1 ==> #[trigger] data[i] != 10,
        line_len(data) < data.len() ==> line_len(data) > 0 && data[line_len(data) - 1] == 10,
        !data.contains(10u8) ==> line_len(data) == data.len(),
    decreases data.len(),
{
    line_len_is_in_range(data);
    if data.len() > 0 && data[0] != NEWLINE {
        let rest = data.drop_first();
        lines_end_at_the_first_end(rest);
        assert forall|i: int| 0 <= i < line_len(data) - 1 implies #[trigger] data[i] != 10 by {
            if i > 0 {
                assert(rest[i - 1] == data[i]);
            }
        }
        if line_len(data) < data.len() {
            assert(rest[line_len(rest) - 1] == data[line_len(data) - 1]);
        }
        if !data.contains(10u8) {
            assert forall|i: int| 0 <= i < rest.len() implies rest[i] != 10 by {
                assert(rest[i] == data[i + 1]);
            }
        }
    } else if data.len() > 0 {
        assert(data.contains(data[0]));
    }
}

/// What a line of a head tells, by its name, in any case: the type of the
/// contents, that the body comes in chunks, or its length. Chunks count ahead of
/// a length, whichever comes first. Other lines tell nothing.
pub proof fn header_lines_tell_by_name(head: HeadView, name: Seq<char>, value: Seq<char>)
    requires
        forall|i: int| 0 <= i < name.len() ==> #[trigger] name[i] != ':',
    ensures
        ({
            let after = with_header_line(head, name + seq![':'] + value);
            &&& same_but_case(name, "content-type"@) ==> after.content_type == trimmed(value)
                && after.framing == head.framing
            &&& !same_but_case(name, "content-type"@) ==> after.content_type == head.content_type
            &&& !same_but_case(name, "content-type"@) && same_but_case(name, "transfer-encoding"@)
                && same_but_case(trimmed(value), "chunked"@) ==> after.framing == Framing::Chunked
            &&& head.framing == Framing::Chunked ==> after.framing == Framing::Chunked
            &&& !same_but_case(name, "transfer-encoding"@) && !same_but_case(
                name,
                "content-length"@,
            ) ==> after.framing == head.framing
            &&& !same_but_case(name, "content-type"@) && !same_but_case(name, "transfer-encoding"@)
                && same_but_case(name, "content-length"@) && head.framing != Framing::Chunked
                && number_in(trimmed(value), usize::MAX as nat) is Some ==> after.framing
                == Framing::Length(number_in(trimmed(value), usize::MAX as nat)->0 as usize)
        }),
{
    let line = name + seq![':'] + value;
    crate::text::position_is_behind_the_front(name, ':', value);
    assert(line.take(name.len() as int) =~= name);
    assert(line.skip(name.len() as int + 1) =~= value);
}

/// A body with a length is as many octets of what follows the head, and a body
/// without any framing is all of them.
pub proof fn bodies_have_their_length(d: Decoder, data: Seq<u8>)
    ensures
        d.framing is Length && data.len() >= d.remaining ==> body_from(d, data).0.len()
            == d.remaining && body_from(d, data).0.is_prefix_of(data),
        d.framing is Length && data.len() < d.remaining ==> body_from(d, data).0 == data,
        d.framing is Eof ==> body_from(d, data) == (data, Ending::Complete),
{
}

/// A body with a chunk whose size cannot be read, or that is no text, is an
/// error; any other is the text that its octets are.
pub proof fn bodies_are_texts(body: Seq<u8>, ending: Ending)
    ensures
        ending is ChunkSize ==> body_text((body, ending)) == Err::<Seq<char>, BodyError>(
            BodyError::ChunkSize,
        ),
        ending is NotText ==> body_text((body, ending)) == Err::<Seq<char>, BodyError>(
            BodyError::NotText,
        ),
        ending is Complete || ending is Truncated ==> (body_text((body, ending)) is Ok
            <==> valid_utf8(body)),
        body_text((body, ending)) is Ok ==> body_text((body, ending))->Ok_0 == decode_utf8(body),
{
}

} // verus!
