//! Segments of the spool: what is kept on disk until it has been inserted.
//!
//! A segment is a header, frames that each end on a row boundary and are
//! compressed on their own, and a footer once it is complete.

use crate::clickhouse::hash::{sha256, sha256_digest};
use crate::text::{decimal, decimal_text, digit_char, hex_digit};
use crate::wire::{
    array16, copy_between, le32, le32_round_trip, octet_views, octets_count_by_their_place, of_le32, put,
    put_le32, read_le32, same_octets,
};
use vstd::prelude::*;
use vstd::string::{StrSliceExecFns, StringExecFns};

verus! {

/// The largest amount of data in one frame.
pub const MAX_FRAME: usize = 4_194_304;

/// The largest that the data of a frame can be once it is compressed.
pub const MAX_COMPRESSED: usize = 4_210_768;

/// Length of the part of a frame before its data.
pub const FRAME_HEADER: usize = 44;

/// Length of the header of a segment.
pub const SEGMENT_HEADER: usize = 24;

/// The most segments that a spool may hold.
pub const MAX_SEGMENTS: usize = 100_000;

/// What can be wrong with a spool.
#[derive(Clone, Copy, Debug, PartialEq, Eq, Structural)]
pub enum SpoolError {
    UnexpectedEof,
    Destination,
    TooManySegments,
    FrameSize,
    SegmentRows,
    UnknownFormat,
    Footer,
    BytesAfterFooter,
    FrameBounds,
    Lz4,
    Checksum,
    RowCount,
}

impl SpoolError {
    pub open spec fn text(self) -> Seq<char> {
        match self {
            SpoolError::UnexpectedEof => "failed to fill whole buffer"@,
            SpoolError::Destination =>
                "spool destination/schema differs; use its original configuration"@,
            SpoolError::TooManySegments => "too many spool segments (limit 100000)"@,
            SpoolError::FrameSize => "invalid spool frame size/row count"@,
            SpoolError::SegmentRows => "segment row count overflow"@,
            SpoolError::UnknownFormat => "unknown spool format"@,
            SpoolError::Footer => "spool footer checksum/count mismatch"@,
            SpoolError::BytesAfterFooter => "bytes after spool footer"@,
            SpoolError::FrameBounds => "invalid spool frame bounds"@,
            SpoolError::Lz4 => "invalid LZ4 frame"@,
            SpoolError::Checksum => "spool payload checksum mismatch"@,
            SpoolError::RowCount => "spool row count overflow"@,
        }
    }

    /// What the error says.
    pub fn message(self) -> (r: &'static str)
        ensures
            r@ == self.text(),
    {
        match self {
            SpoolError::UnexpectedEof => "failed to fill whole buffer",
            SpoolError::Destination =>
                "spool destination/schema differs; use its original configuration",
            SpoolError::TooManySegments => "too many spool segments (limit 100000)",
            SpoolError::FrameSize => "invalid spool frame size/row count",
            SpoolError::SegmentRows => "segment row count overflow",
            SpoolError::UnknownFormat => "unknown spool format",
            SpoolError::Footer => "spool footer checksum/count mismatch",
            SpoolError::BytesAfterFooter => "bytes after spool footer",
            SpoolError::FrameBounds => "invalid spool frame bounds",
            SpoolError::Lz4 => "invalid LZ4 frame",
            SpoolError::Checksum => "spool payload checksum mismatch",
            SpoolError::RowCount => "spool row count overflow",
        }
    }
}

/// The octets that a segment starts with.
pub open spec fn magic() -> Seq<u8> {
    seq![78u8, 69u8, 84u8, 79u8, 77u8, 67u8, 72u8, 49u8]
}

/// The header of a segment.
pub open spec fn segment_header(id: Seq<u8>) -> Seq<u8> {
    magic() + id
}

/// What a block in LZ4 format holds, if it is one and holds no more than
/// `size` octets.
pub uninterp spec fn lz4_content(block: Seq<u8>, size: nat) -> Option<Seq<u8>>;

/// `lz4_flex::block::compress` makes a block in LZ4 format that holds the
/// data. What stands for a repetition is no longer than what it repeats, so
/// that the block is the longest where it holds the data as it is: every 255
/// octets of that cost one more, and the ends cost a few.
#[verifier::external_body]
fn lz4_compress(data: &[u8]) -> (r: Vec<u8>)
    requires
        data@.len() <= MAX_FRAME,
    ensures
        lz4_content(r@, data@.len()) == Some(data@),
        r@.len() <= data@.len() + data@.len() / 255 + 16,
{
    lz4_flex::block::compress(data)
}

/// `lz4_flex::block::decompress` takes the data out of a block in LZ4 format,
/// given room for `size` octets. It counts lengths in 32 bits, which is enough
/// for a block that is not too long.
#[verifier::external_body]
fn lz4_decompress(block: &[u8], size: usize) -> (r: Option<Vec<u8>>)
    requires
        block@.len() <= MAX_COMPRESSED,
        size <= MAX_FRAME,
    ensures
        r is Some <==> lz4_content(block@, size as nat) is Some,
        r is Some ==> lz4_content(block@, size as nat) == Some(r->0@),
{
    lz4_flex::block::decompress(block, size).ok()
}

/// Length of the data of a frame while compressed, as its header gives it.
pub open spec fn compressed_len(h: Seq<u8>) -> int {
    of_le32(h.subrange(0, 4))
}

/// Length of the data of a frame, as its header gives it.
pub open spec fn raw_len(h: Seq<u8>) -> int {
    of_le32(h.subrange(4, 8))
}

/// Number of rows in a frame, as its header gives it.
pub open spec fn row_count(h: Seq<u8>) -> int {
    of_le32(h.subrange(8, 12))
}

/// Digest of the data of a frame, as its header gives it.
pub open spec fn frame_digest(h: Seq<u8>) -> Seq<u8> {
    h.subrange(12, 44)
}

/// Whether some octets are a frame with some data in it.
pub open spec fn is_frame(frame: Seq<u8>, data: Seq<u8>, rows: int) -> bool {
    &&& FRAME_HEADER <= frame.len() <= FRAME_HEADER + MAX_COMPRESSED
    &&& compressed_len(frame) == frame.len() - FRAME_HEADER
    &&& raw_len(frame) == data.len()
    &&& row_count(frame) == rows
    &&& frame_digest(frame) == sha256(data)
    &&& lz4_content(frame.skip(FRAME_HEADER as int), data.len()) == Some(data)
    &&& 0 < data.len() <= MAX_FRAME
    &&& 0 < rows <= u32::MAX
}

/// The footer of a segment: where a frame has its lengths it has zeros, and
/// where a frame has the digest of its data it has that of the headers.
pub open spec fn footer(rows: int, hashed: Seq<u8>) -> Seq<u8> {
    le32(0) + le32(0) + le32(rows) + sha256(hashed)
}

/// Puts some rows into a frame.
pub fn encode_frame(data: &[u8], rows: u32) -> (r: Result<Vec<u8>, SpoolError>)
    ensures
        data@.len() == 0 || data@.len() > MAX_FRAME || rows == 0 ==> r == Err::<
            Vec<u8>,
            SpoolError,
        >(SpoolError::FrameSize),
        !(data@.len() == 0 || data@.len() > MAX_FRAME || rows == 0) ==> r is Ok && is_frame(
            r->Ok_0@,
            data@,
            rows as int,
        ),
{
    if data.len() == 0 || data.len() > MAX_FRAME || rows == 0 {
        return Err(SpoolError::FrameSize);
    }
    let compressed = lz4_compress(data);
    let mut frame: Vec<u8> = Vec::new();
    put_le32(&mut frame, compressed.len() as u32);
    put_le32(&mut frame, data.len() as u32);
    put_le32(&mut frame, rows);
    let digest = sha256_digest(data);
    put(&mut frame, digest.as_slice());
    put(&mut frame, &compressed);
    proof {
        le32_round_trip(compressed.len() as int);
        le32_round_trip(data.len() as int);
        le32_round_trip(rows as int);
        assert(frame@.subrange(0, 4) =~= le32(compressed.len() as int));
        assert(frame@.subrange(4, 8) =~= le32(data.len() as int));
        assert(frame@.subrange(8, 12) =~= le32(rows as int));
        assert(frame@.subrange(12, 44) =~= sha256(data@));
        assert(frame@.skip(44) =~= compressed@);
    }
    Ok(frame)
}

/// A segment that is being written.
#[derive(Debug)]
pub struct Segment {
    /// The headers so far, which the footer has the digest of.
    pub hashed: Vec<u8>,
    pub rows: u32,
    pub raw_bytes: u64,
}

impl Segment {
    /// A frame has at least one row, so the rows bound the data.
    pub open spec fn well_formed(self) -> bool {
        self.raw_bytes <= self.rows * MAX_FRAME
    }

    /// Whether the segment takes account of some frames, and of no others.
    pub open spec fn accounts_for(self, id: Seq<u8>, list: Seq<Written>) -> bool {
        &&& self.hashed@ == segment_header(id) + frames_headers(list)
        &&& self.rows == frames_rows(list)
        &&& frames_fit(list)
    }

    /// Begins a segment, and gives the header to write.
    pub fn create(id: [u8; 16]) -> (r: (Segment, Vec<u8>))
        ensures
            r.0.well_formed(),
            r.0.hashed@ == segment_header(id@),
            r.0.rows == 0,
            r.0.raw_bytes == 0,
            r.0.accounts_for(id@, seq![]),
            r.1@ == segment_header(id@),
            r.1@ == open_segment(id@, seq![]),
    {
        let mut header: Vec<u8> = Vec::new();
        let magic: [u8; 8] = [78, 69, 84, 79, 77, 67, 72, 49];
        put(&mut header, magic.as_slice());
        put(&mut header, id.as_slice());
        assert(header@ =~= segment_header(id@));
        let hashed = header.clone();
        assert(hashed@ =~= header@);
        assert(hashed@ =~= segment_header(id@) + frames_headers(seq![]));
        assert(header@ =~= open_segment(id@, seq![]));
        (Segment { hashed, rows: 0, raw_bytes: 0 }, header)
    }

    /// Takes account of a frame that has been written behind the others.
    pub fn append(&mut self, frame: &[u8]) -> (r: Result<(), SpoolError>)
        requires
            old(self).well_formed(),
            exists|data: Seq<u8>, rows: int| is_frame(frame@, data, rows),
        ensures
            final(self).well_formed(),
            final(self).hashed@ == old(self).hashed@ + frame@.take(FRAME_HEADER as int),
            old(self).rows + row_count(frame@) <= u32::MAX ==> r is Ok && final(self).rows == old(
                self,
            ).rows + row_count(frame@) && final(self).raw_bytes == old(self).raw_bytes + raw_len(
                frame@,
            ),
            old(self).rows + row_count(frame@) > u32::MAX ==> r == Err::<(), SpoolError>(
                SpoolError::SegmentRows,
            ) && final(self).rows == old(self).rows && final(self).raw_bytes == old(self).raw_bytes,
    {
        let raw_len: u32 = read_le32(frame, 4);
        let rows: u32 = read_le32(frame, 8);
        let head = vstd::slice::slice_subrange(frame, 0, FRAME_HEADER);
        assert(head@ =~= frame@.take(FRAME_HEADER as int));
        put(&mut self.hashed, head);
        match self.rows.checked_add(rows) {
            Some(total) => {
                proof {
                    assert(self.rows * MAX_FRAME + rows * MAX_FRAME == total * MAX_FRAME)
                        by (nonlinear_arith)
                        requires
                            self.rows + rows == total,
                    ;
                    assert(MAX_FRAME <= rows * MAX_FRAME) by (nonlinear_arith)
                        requires
                            rows >= 1,
                    ;
                    assert(total * MAX_FRAME <= 0x7fff_ffff_ffff_ffff) by (nonlinear_arith)
                        requires
                            total <= 0xffff_ffff,
                            MAX_FRAME == 4_194_304,
                    ;
                }
                self.rows = total;
                self.raw_bytes = self.raw_bytes + raw_len as u64;
                Ok(())
            },
            None => Err(SpoolError::SegmentRows),
        }
    }

    /// The footer that the segment has if it is completed now.
    pub fn footer(&self) -> (r: Vec<u8>)
        ensures
            r@ == footer(self.rows as int, self.hashed@),
    {
        encode_footer(self.rows, &self.hashed)
    }

    /// Completes the segment: gives the footer to write.
    pub fn seal(self) -> (r: Vec<u8>)
        ensures
            r@ == footer(self.rows as int, self.hashed@),
    {
        encode_footer(self.rows, &self.hashed)
    }
}

/// The footer of a segment.
fn encode_footer(rows: u32, hashed: &[u8]) -> (r: Vec<u8>)
    ensures
        r@ == footer(rows as int, hashed@),
{
    let mut out: Vec<u8> = Vec::new();
    put_le32(&mut out, 0);
    put_le32(&mut out, 0);
    put_le32(&mut out, rows);
    let digest = sha256_digest(hashed);
    put(&mut out, digest.as_slice());
    assert(out@ =~= footer(rows as int, hashed@));
    out
}

/// How far a segment has been read.
pub ghost struct Progress {
    pub rows: int,
    pub offset: int,
    /// The headers so far.
    pub hashed: Seq<u8>,
    /// The data of the frames so far.
    pub frames: Seq<Seq<u8>>,
}

/// What comes of reading on: how far it got and whether the footer was there.
/// In recovery an incomplete last frame, or no footer, is no error.
pub open spec fn read_on(data: Seq<u8>, at: Progress, recovery: bool) -> Result<
    (Progress, bool),
    SpoolError,
>
    decreases data.len() - at.offset,
{
    let rest = data.skip(at.offset);
    if at.offset < 0 || at.offset > data.len() || rest.len() < FRAME_HEADER {
        if recovery {
            Ok((at, false))
        } else {
            Err(SpoolError::UnexpectedEof)
        }
    } else if compressed_len(rest) == 0 && raw_len(rest) == 0 {
        if row_count(rest) != at.rows || frame_digest(rest) != sha256(at.hashed) {
            Err(SpoolError::Footer)
        } else if rest.len() > FRAME_HEADER {
            Err(SpoolError::BytesAfterFooter)
        } else {
            Ok((at, true))
        }
    } else if raw_len(rest) == 0 || raw_len(rest) > MAX_FRAME || compressed_len(rest)
        > MAX_COMPRESSED || row_count(rest) == 0 {
        Err(SpoolError::FrameBounds)
    } else if rest.len() < FRAME_HEADER + compressed_len(rest) {
        if recovery {
            Ok((at, false))
        } else {
            Err(SpoolError::UnexpectedEof)
        }
    } else {
        let end = FRAME_HEADER + compressed_len(rest);
        match lz4_content(rest.subrange(FRAME_HEADER as int, end), raw_len(rest) as nat) {
            None => Err(SpoolError::Lz4),
            Some(raw) => if raw.len() != raw_len(rest) || sha256(raw) != frame_digest(rest) {
                Err(SpoolError::Checksum)
            } else if at.rows + row_count(rest) > u32::MAX {
                Err(SpoolError::RowCount)
            } else {
                read_on(
                    data,
                    Progress {
                        rows: at.rows + row_count(rest),
                        offset: at.offset + end,
                        hashed: at.hashed + rest.take(FRAME_HEADER as int),
                        frames: at.frames.push(raw),
                    },
                    recovery,
                )
            },
        }
    }
}

/// Where reading the frames of a segment starts.
pub open spec fn first_progress(data: Seq<u8>) -> Progress {
    Progress {
        rows: 0,
        offset: SEGMENT_HEADER as int,
        hashed: data.take(SEGMENT_HEADER as int),
        frames: seq![],
    }
}

/// What comes of reading a segment.
pub open spec fn scanned(data: Seq<u8>, recovery: bool) -> Result<(Progress, bool), SpoolError> {
    if data.len() < SEGMENT_HEADER {
        Err(SpoolError::UnexpectedEof)
    } else if data.take(8) != magic() {
        Err(SpoolError::UnknownFormat)
    } else {
        read_on(data, first_progress(data), recovery)
    }
}

/// What a segment holds.
#[derive(Debug)]
pub struct Scan {
    pub token: [u8; 16],
    pub rows: u32,
    /// Where the last complete frame ends.
    pub offset: usize,
    /// The headers so far.
    pub hashed: Vec<u8>,
    /// The data of the frames.
    pub frames: Vec<Vec<u8>>,
    /// Whether the segment is complete.
    pub sealed: bool,
}

impl Scan {
    /// How far the segment has been read.
    pub open spec fn progress(self) -> Progress {
        Progress {
            rows: self.rows as int,
            offset: self.offset as int,
            hashed: self.hashed@,
            frames: octet_views(self.frames@),
        }
    }
}

/// What comes of reading the frame at the start of `rest`, if it is one and is
/// complete.
fn read_frame(rest: &[u8], compressed: usize, raw: usize) -> (r: Result<Vec<u8>, SpoolError>)
    requires
        FRAME_HEADER + compressed <= rest@.len(),
        compressed <= MAX_COMPRESSED,
        raw <= MAX_FRAME,
    ensures
        match lz4_content(
            rest@.subrange(FRAME_HEADER as int, FRAME_HEADER + compressed),
            raw as nat,
        ) {
            None => r == Err::<Vec<u8>, SpoolError>(SpoolError::Lz4),
            Some(data) => if data.len() != raw || sha256(data) != frame_digest(rest@) {
                r == Err::<Vec<u8>, SpoolError>(SpoolError::Checksum)
            } else {
                r is Ok && r->Ok_0@ == data
            },
        },
{
    assert(rest@.len() == rest.len());
    let block = vstd::slice::slice_subrange(rest, FRAME_HEADER, FRAME_HEADER + compressed);
    match lz4_decompress(block, raw) {
        None => Err(SpoolError::Lz4),
        Some(data) => {
            let digest = sha256_digest(&data);
            let stated = vstd::slice::slice_subrange(rest, 12, FRAME_HEADER);
            if data.len() != raw || !same_octets(digest.as_slice(), stated) {
                Err(SpoolError::Checksum)
            } else {
                Ok(data)
            }
        },
    }
}

/// Reads a segment. In recovery only an incomplete last frame or a missing
/// footer is tolerated.
pub fn scan(data: &[u8], recovery: bool) -> (r: Result<Scan, SpoolError>)
    ensures
        match r {
            Ok(scan) => scanned(data@, recovery) == Ok::<(Progress, bool), SpoolError>(
                (scan.progress(), scan.sealed),
            ) && scan.token@ == data@.subrange(8, 24),
            Err(error) => scanned(data@, recovery) == Err::<(Progress, bool), SpoolError>(error),
        },
{
    let len: usize = data.len();
    if len < SEGMENT_HEADER {
        return Err(SpoolError::UnexpectedEof);
    }
    let magic: [u8; 8] = [78, 69, 84, 79, 77, 67, 72, 49];
    assert(magic@ =~= crate::clickhouse::spool::magic());
    let start = vstd::slice::slice_subrange(data, 0, 8);
    assert(start@ =~= data@.take(8));
    if !same_octets(start, magic.as_slice()) {
        return Err(SpoolError::UnknownFormat);
    }
    let token = array16(vstd::slice::slice_subrange(data, 8, 24));
    let hashed = copy_between(data, 0, SEGMENT_HEADER);
    assert(hashed@ =~= data@.take(SEGMENT_HEADER as int));
    let frames: Vec<Vec<u8>> = Vec::new();
    assert(octet_views(frames@) =~= seq![]);
    let mut scan = Scan { token, rows: 0, offset: SEGMENT_HEADER, hashed, frames, sealed: false };
    loop
        invariant
            len == data@.len(),
            SEGMENT_HEADER <= scan.offset <= len,
            scan.token@ == data@.subrange(8, 24),
            !scan.sealed,
            scanned(data@, recovery) == read_on(data@, scan.progress(), recovery),
        decreases len - scan.offset,
    {
        let rest = vstd::slice::slice_subrange(data, scan.offset, len);
        assert(rest@ =~= data@.skip(scan.offset as int));
        if rest.len() < FRAME_HEADER {
            return if recovery {
                Ok(scan)
            } else {
                Err(SpoolError::UnexpectedEof)
            };
        }
        let compressed: usize = read_le32(rest, 0) as usize;
        let raw: usize = read_le32(rest, 4) as usize;
        let rows: u32 = read_le32(rest, 8);
        if compressed == 0 && raw == 0 {
            let digest = sha256_digest(&scan.hashed);
            let stated = vstd::slice::slice_subrange(rest, 12, FRAME_HEADER);
            if rows != scan.rows || !same_octets(stated, digest.as_slice()) {
                return Err(SpoolError::Footer);
            }
            if rest.len() > FRAME_HEADER {
                return Err(SpoolError::BytesAfterFooter);
            }
            let ghost reached = scan.progress();
            scan.sealed = true;
            assert(scan.progress() == reached);
            return Ok(scan);
        }
        if raw == 0 || raw > MAX_FRAME || compressed > MAX_COMPRESSED || rows == 0 {
            return Err(SpoolError::FrameBounds);
        }
        if rest.len() - FRAME_HEADER < compressed {
            return if recovery {
                Ok(scan)
            } else {
                Err(SpoolError::UnexpectedEof)
            };
        }
        let content = match read_frame(rest, compressed, raw) {
            Ok(content) => content,
            Err(error) => {
                return Err(error);
            },
        };
        let total: u32 = match scan.rows.checked_add(rows) {
            Some(total) => total,
            None => {
                return Err(SpoolError::RowCount);
            },
        };
        let head = vstd::slice::slice_subrange(rest, 0, FRAME_HEADER);
        assert(head@ =~= rest@.take(FRAME_HEADER as int));
        let ghost before = scan.progress();
        let ghost listed = scan.frames@;
        put(&mut scan.hashed, head);
        scan.rows = total;
        scan.offset = scan.offset + FRAME_HEADER + compressed;
        scan.frames.push(content);
        proof {
            assert(octet_views(scan.frames@) =~= octet_views(listed).push(content@));
            assert(scan.progress() == (Progress {
                rows: before.rows + row_count(rest@),
                offset: before.offset + FRAME_HEADER + compressed_len(rest@),
                hashed: before.hashed + rest@.take(FRAME_HEADER as int),
                frames: before.frames.push(content@),
            }));
        }
    }
}

/// Some frames with their data, one behind the other.
pub ghost struct Written {
    pub frame: Seq<u8>,
    pub data: Seq<u8>,
    pub rows: int,
}

/// The octets of some frames.
pub open spec fn frames_octets(list: Seq<Written>) -> Seq<u8>
    decreases list.len(),
{
    if list.len() == 0 {
        seq![]
    } else {
        list[0].frame + frames_octets(list.drop_first())
    }
}

/// The headers of some frames.
pub open spec fn frames_headers(list: Seq<Written>) -> Seq<u8>
    decreases list.len(),
{
    if list.len() == 0 {
        seq![]
    } else {
        list[0].frame.take(FRAME_HEADER as int) + frames_headers(list.drop_first())
    }
}

/// The rows of some frames.
pub open spec fn frames_rows(list: Seq<Written>) -> int
    decreases list.len(),
{
    if list.len() == 0 {
        0
    } else {
        list[0].rows + frames_rows(list.drop_first())
    }
}

/// The data of some frames.
pub open spec fn frames_data(list: Seq<Written>) -> Seq<Seq<u8>> {
    list.map_values(|w: Written| w.data)
}

/// Whether the frames are what they are said to be and are within the limits
/// of a segment.
pub open spec fn frames_fit(list: Seq<Written>) -> bool {
    &&& forall|i: int|
        0 <= i < list.len() ==> is_frame(
            (#[trigger] list[i]).frame,
            list[i].data,
            list[i].rows,
        )
    &&& frames_rows(list) <= u32::MAX
}

proof fn rows_not_negative(list: Seq<Written>)
    requires
        forall|i: int|
            0 <= i < list.len() ==> is_frame(
                (#[trigger] list[i]).frame,
                list[i].data,
                list[i].rows,
            ),
    ensures
        frames_rows(list) >= 0,
    decreases list.len(),
{
    if list.len() > 0 {
        let rest = list.drop_first();
        assert forall|i: int| 0 <= i < rest.len() implies is_frame(
            (#[trigger] rest[i]).frame,
            rest[i].data,
            rest[i].rows,
        ) by {
            assert(rest[i] == list[i + 1]);
        }
        assert(is_frame(list[0].frame, list[0].data, list[0].rows));
        rows_not_negative(rest);
    }
}

/// Reading over whole frames takes them in and goes on behind them.
proof fn read_over_frames(data: Seq<u8>, at: Progress, list: Seq<Written>, recovery: bool)
    requires
        0 <= at.offset <= data.len(),
        at.rows >= 0,
        frames_octets(list).is_prefix_of(data.skip(at.offset)),
        forall|i: int|
            0 <= i < list.len() ==> is_frame(
                (#[trigger] list[i]).frame,
                list[i].data,
                list[i].rows,
            ),
        at.rows + frames_rows(list) <= u32::MAX,
    ensures
        read_on(data, at, recovery) == read_on(
            data,
            Progress {
                rows: at.rows + frames_rows(list),
                offset: at.offset + frames_octets(list).len(),
                hashed: at.hashed + frames_headers(list),
                frames: at.frames + frames_data(list),
            },
            recovery,
        ),
    decreases list.len(),
{
    let rest = data.skip(at.offset);
    if list.len() == 0 {
        assert(at.hashed + frames_headers(list) =~= at.hashed);
        assert(at.frames + frames_data(list) =~= at.frames);
    } else {
        let first = list[0];
        let others = list.drop_first();
        assert(is_frame(first.frame, first.data, first.rows));
        assert forall|i: int| 0 <= i < others.len() implies is_frame(
            (#[trigger] others[i]).frame,
            others[i].data,
            others[i].rows,
        ) by {
            assert(others[i] == list[i + 1]);
        }
        rows_not_negative(others);
        let frame = first.frame;
        let end = frame.len() as int;
        let all = frames_octets(list);
        assert(all =~= rest.take(all.len() as int));
        assert(rest.take(end) =~= frame) by {
            assert(all.take(end) =~= frame);
            assert(rest.take(end) =~= all.take(end));
        }
        assert(rest.subrange(0, 4) =~= frame.subrange(0, 4)) by {
            assert(rest.take(end).subrange(0, 4) =~= rest.subrange(0, 4));
        }
        assert(rest.subrange(4, 8) =~= frame.subrange(4, 8)) by {
            assert(rest.take(end).subrange(4, 8) =~= rest.subrange(4, 8));
        }
        assert(rest.subrange(8, 12) =~= frame.subrange(8, 12)) by {
            assert(rest.take(end).subrange(8, 12) =~= rest.subrange(8, 12));
        }
        assert(rest.subrange(12, 44) =~= frame.subrange(12, 44)) by {
            assert(rest.take(end).subrange(12, 44) =~= rest.subrange(12, 44));
        }
        assert(rest.subrange(FRAME_HEADER as int, end) =~= frame.skip(FRAME_HEADER as int)) by {
            assert(rest.take(end).subrange(FRAME_HEADER as int, end) =~= rest.subrange(
                FRAME_HEADER as int,
                end,
            ));
        }
        assert(rest.take(FRAME_HEADER as int) =~= frame.take(FRAME_HEADER as int)) by {
            assert(rest.take(end).take(FRAME_HEADER as int) =~= rest.take(FRAME_HEADER as int));
        }
        let next = Progress {
            rows: at.rows + first.rows,
            offset: at.offset + end,
            hashed: at.hashed + frame.take(FRAME_HEADER as int),
            frames: at.frames.push(first.data),
        };
        assert(read_on(data, at, recovery) == read_on(data, next, recovery));
        assert(data.skip(next.offset) =~= rest.skip(end));
        assert(frames_octets(others).is_prefix_of(data.skip(next.offset))) by {
            assert(frames_octets(others) =~= all.skip(end));
            assert(data.skip(next.offset).take(frames_octets(others).len() as int)
                =~= rest.take(all.len() as int).skip(end));
        }
        read_over_frames(data, next, others, recovery);
        assert(next.hashed + frames_headers(others) =~= at.hashed + frames_headers(list));
        assert(next.frames + frames_data(others) =~= at.frames + frames_data(list));
    }
}

/// A segment of some frames that is not complete.
pub open spec fn open_segment(id: Seq<u8>, list: Seq<Written>) -> Seq<u8> {
    segment_header(id) + frames_octets(list)
}

/// A complete segment of some frames.
pub open spec fn sealed_segment(id: Seq<u8>, list: Seq<Written>) -> Seq<u8> {
    open_segment(id, list) + footer(frames_rows(list), segment_header(id) + frames_headers(list))
}

/// How far reading gets in a segment of some frames.
pub open spec fn all_read(id: Seq<u8>, list: Seq<Written>) -> Progress {
    Progress {
        rows: frames_rows(list),
        offset: open_segment(id, list).len() as int,
        hashed: segment_header(id) + frames_headers(list),
        frames: frames_data(list),
    }
}

proof fn scan_reaches_the_end(id: Seq<u8>, list: Seq<Written>, tail: Seq<u8>, recovery: bool)
    requires
        id.len() == 16,
        frames_fit(list),
    ensures
        scanned(open_segment(id, list) + tail, recovery) == read_on(
            open_segment(id, list) + tail,
            all_read(id, list),
            recovery,
        ),
        (open_segment(id, list) + tail).skip(all_read(id, list).offset) == tail,
{
    let data = open_segment(id, list) + tail;
    assert(data.take(8) =~= magic());
    assert(data.take(SEGMENT_HEADER as int) =~= segment_header(id));
    let at = first_progress(data);
    rows_not_negative(list);
    assert(data.skip(SEGMENT_HEADER as int) =~= frames_octets(list) + tail);
    assert(frames_octets(list) =~= data.skip(at.offset).take(frames_octets(list).len() as int));
    read_over_frames(data, at, list, recovery);
    assert(at.frames + frames_data(list) =~= frames_data(list));
    assert(data.skip(all_read(id, list).offset) =~= tail);
}

pub(crate) proof fn frames_pushed(list: Seq<Written>, w: Written)
    ensures
        frames_octets(list.push(w)) == frames_octets(list) + w.frame,
        frames_headers(list.push(w)) == frames_headers(list) + w.frame.take(FRAME_HEADER as int),
        frames_rows(list.push(w)) == frames_rows(list) + w.rows,
    decreases list.len(),
{
    let longer = list.push(w);
    if list.len() == 0 {
        assert(longer.drop_first() =~= seq![]);
        assert(frames_octets(longer.drop_first()) =~= seq![]);
        assert(frames_headers(longer.drop_first()) =~= seq![]);
        assert(frames_octets(longer) =~= w.frame);
        assert(frames_headers(longer) =~= w.frame.take(FRAME_HEADER as int));
        assert(frames_octets(list) + w.frame =~= w.frame);
        assert(frames_headers(list) + w.frame.take(FRAME_HEADER as int) =~= w.frame.take(
            FRAME_HEADER as int,
        ));
        assert(frames_rows(longer.drop_first()) == 0);
    } else {
        frames_pushed(list.drop_first(), w);
        assert(longer.drop_first() =~= list.drop_first().push(w));
        assert(frames_octets(longer) =~= frames_octets(list) + w.frame);
        assert(frames_headers(longer) =~= frames_headers(list) + w.frame.take(FRAME_HEADER as int));
    }
}

/// A segment that took account of one more frame, and in whose file the frame
/// stands behind the others, holds that frame behind the others.
pub proof fn appending_adds_one_frame(
    before: Segment,
    after: Segment,
    id: Seq<u8>,
    list: Seq<Written>,
    w: Written,
)
    requires
        before.accounts_for(id, list),
        is_frame(w.frame, w.data, w.rows),
        after.hashed@ == before.hashed@ + w.frame.take(FRAME_HEADER as int),
        after.rows == before.rows + row_count(w.frame),
    ensures
        after.accounts_for(id, list.push(w)),
        open_segment(id, list.push(w)) == open_segment(id, list) + w.frame,
        frames_data(list.push(w)) == frames_data(list).push(w.data),
{
    frames_pushed(list, w);
    assert(after.hashed@ =~= segment_header(id) + frames_headers(list.push(w)));
    assert(open_segment(id, list.push(w)) =~= open_segment(id, list) + w.frame);
    assert(frames_data(list.push(w)) =~= frames_data(list).push(w.data));
    assert forall|i: int| 0 <= i < list.push(w).len() implies is_frame(
        (#[trigger] list.push(w)[i]).frame,
        list.push(w)[i].data,
        list.push(w)[i].rows,
    ) by {
        if i < list.len() {
            assert(list.push(w)[i] == list[i]);
        }
    }
}

/// What was appended to a segment from its creation on is what a replay gives
/// back once the segment is sealed: the data of every frame, once each and in
/// order.
pub proof fn replay_gives_back_what_was_appended(segment: Segment, id: Seq<u8>, list: Seq<Written>)
    requires
        id.len() == 16,
        segment.accounts_for(id, list),
    ensures
        scanned(
            open_segment(id, list) + footer(segment.rows as int, segment.hashed@),
            false,
        ) matches Ok((end, sealed)) && sealed && end.frames == frames_data(list) && end.rows
            == segment.rows,
{
    scan_gives_back_what_was_written(id, list, false);
}

/// Reading a complete segment gives back what was written: the token, the
/// number of rows and the data of every frame, in order.
pub proof fn scan_gives_back_what_was_written(id: Seq<u8>, list: Seq<Written>, recovery: bool)
    requires
        id.len() == 16,
        frames_fit(list),
    ensures
        scanned(sealed_segment(id, list), recovery) == Ok::<(Progress, bool), SpoolError>(
            (all_read(id, list), true),
        ),
        sealed_segment(id, list).subrange(8, 24) == id,
{
    let end = footer(frames_rows(list), segment_header(id) + frames_headers(list));
    let data = sealed_segment(id, list);
    scan_reaches_the_end(id, list, end, recovery);
    rows_not_negative(list);
    footer_parts(frames_rows(list), segment_header(id) + frames_headers(list));
    assert(data.subrange(8, 24) =~= id);
}

proof fn footer_parts(rows: int, hashed: Seq<u8>)
    requires
        0 <= rows <= u32::MAX,
    ensures
        footer(rows, hashed).len() == FRAME_HEADER,
        compressed_len(footer(rows, hashed)) == 0,
        raw_len(footer(rows, hashed)) == 0,
        row_count(footer(rows, hashed)) == rows,
        frame_digest(footer(rows, hashed)) == sha256(hashed),
{
    let end = footer(rows, hashed);
    le32_round_trip(0);
    le32_round_trip(rows);
    assert(end.subrange(0, 4) =~= le32(0));
    assert(end.subrange(4, 8) =~= le32(0));
    assert(end.subrange(8, 12) =~= le32(rows));
    assert(end.subrange(12, 44) =~= sha256(hashed));
}

/// Recovery drops only what comes behind the last complete frame: a header
/// that is not complete, or a frame whose data is not.
pub proof fn recovery_keeps_complete_frames(id: Seq<u8>, list: Seq<Written>, tail: Seq<u8>)
    requires
        id.len() == 16,
        frames_fit(list),
        tail.len() < FRAME_HEADER || (0 < raw_len(tail) <= MAX_FRAME && compressed_len(tail)
            <= MAX_COMPRESSED && row_count(tail) != 0 && tail.len() < FRAME_HEADER
            + compressed_len(tail)),
    ensures
        scanned(open_segment(id, list) + tail, true) == Ok::<(Progress, bool), SpoolError>(
            (all_read(id, list), false),
        ),
        scanned(open_segment(id, list) + tail, false) == Err::<(Progress, bool), SpoolError>(
            SpoolError::UnexpectedEof,
        ),
{
    scan_reaches_the_end(id, list, tail, true);
    scan_reaches_the_end(id, list, tail, false);
}

/// Two segments that agree up to where reading got are read alike up to there.
proof fn read_on_agrees(data: Seq<u8>, other: Seq<u8>, at: Progress, end: Progress)
    requires
        read_on(data, at, true) == Ok::<(Progress, bool), SpoolError>((end, false)),
        0 <= at.offset <= data.len(),
        end.offset <= other.len(),
        other.take(end.offset) == data.take(end.offset),
    ensures
        at.offset <= end.offset <= data.len(),
        read_on(other, at, false) == read_on(other, end, false),
    decreases data.len() - at.offset,
{
    let rest = data.skip(at.offset);
    if at != end {
        let stop = FRAME_HEADER + compressed_len(rest);
        let raw = lz4_content(rest.subrange(FRAME_HEADER as int, stop), raw_len(rest) as nat)->0;
        let next = Progress {
            rows: at.rows + row_count(rest),
            offset: at.offset + stop,
            hashed: at.hashed + rest.take(FRAME_HEADER as int),
            frames: at.frames.push(raw),
        };
        read_on_agrees(data, other, next, end);
        let same = other.skip(at.offset);
        assert(same.take(stop) =~= rest.take(stop)) by {
            assert(same.take(stop) =~= other.take(end.offset).subrange(at.offset, next.offset));
            assert(rest.take(stop) =~= data.take(end.offset).subrange(at.offset, next.offset));
        }
        assert(same.subrange(0, 4) =~= same.take(stop).subrange(0, 4));
        assert(rest.subrange(0, 4) =~= rest.take(stop).subrange(0, 4));
        assert(same.subrange(4, 8) =~= same.take(stop).subrange(4, 8));
        assert(rest.subrange(4, 8) =~= rest.take(stop).subrange(4, 8));
        assert(same.subrange(8, 12) =~= same.take(stop).subrange(8, 12));
        assert(rest.subrange(8, 12) =~= rest.take(stop).subrange(8, 12));
        assert(same.subrange(12, 44) =~= same.take(stop).subrange(12, 44));
        assert(rest.subrange(12, 44) =~= rest.take(stop).subrange(12, 44));
        assert(same.subrange(FRAME_HEADER as int, stop) =~= same.take(stop).subrange(
            FRAME_HEADER as int,
            stop,
        ));
        assert(rest.subrange(FRAME_HEADER as int, stop) =~= rest.take(stop).subrange(
            FRAME_HEADER as int,
            stop,
        ));
        assert(same.take(FRAME_HEADER as int) =~= same.take(stop).take(FRAME_HEADER as int));
        assert(rest.take(FRAME_HEADER as int) =~= rest.take(stop).take(FRAME_HEADER as int));
    }
}

proof fn rows_stay_in_range(data: Seq<u8>, at: Progress, end: Progress, recovery: bool, sealed: bool)
    requires
        read_on(data, at, recovery) == Ok::<(Progress, bool), SpoolError>((end, sealed)),
        0 <= at.rows <= u32::MAX,
    ensures
        0 <= end.rows <= u32::MAX,
    decreases data.len() - at.offset,
{
    if at != end {
        let rest = data.skip(at.offset);
        let stop = FRAME_HEADER + compressed_len(rest);
        let raw = lz4_content(rest.subrange(FRAME_HEADER as int, stop), raw_len(rest) as nat)->0;
        let next = Progress {
            rows: at.rows + row_count(rest),
            offset: at.offset + stop,
            hashed: at.hashed + rest.take(FRAME_HEADER as int),
            frames: at.frames.push(raw),
        };
        rows_stay_in_range(data, next, end, recovery, sealed);
    }
}

/// A segment that recovery cut behind its last complete frame and completed
/// reads without error, and holds what recovery found.
pub proof fn recovered_segment_is_complete(data: Seq<u8>, end: Progress)
    requires
        scanned(data, true) == Ok::<(Progress, bool), SpoolError>((end, false)),
    ensures
        0 <= end.offset <= data.len(),
        scanned(data.take(end.offset) + footer(end.rows, end.hashed), false) == Ok::<
            (Progress, bool),
            SpoolError,
        >((end, true)),
{
    let last = footer(end.rows, end.hashed);
    let first = first_progress(data);
    rows_stay_in_range(data, first, end, true, false);
    footer_parts(end.rows, end.hashed);
    read_on_moves_forward(data, first, end, true, false);
    let whole = data.take(end.offset) + last;
    assert(whole.take(end.offset) =~= data.take(end.offset));
    read_on_agrees(data, whole, first, end);
    assert(whole.take(8) =~= data.take(8)) by {
        assert(whole.take(end.offset).take(8) =~= data.take(end.offset).take(8));
        assert(whole.take(end.offset).take(8) =~= whole.take(8));
        assert(data.take(end.offset).take(8) =~= data.take(8));
    }
    assert(whole.take(SEGMENT_HEADER as int) =~= data.take(SEGMENT_HEADER as int)) by {
        assert(whole.take(end.offset).take(SEGMENT_HEADER as int) =~= whole.take(
            SEGMENT_HEADER as int,
        ));
        assert(data.take(end.offset).take(SEGMENT_HEADER as int) =~= data.take(
            SEGMENT_HEADER as int,
        ));
    }
    assert(whole.skip(end.offset) =~= last);
}

proof fn read_on_moves_forward(
    data: Seq<u8>,
    at: Progress,
    end: Progress,
    recovery: bool,
    sealed: bool,
)
    requires
        read_on(data, at, recovery) == Ok::<(Progress, bool), SpoolError>((end, sealed)),
        0 <= at.offset <= data.len(),
    ensures
        at.offset <= end.offset <= data.len(),
    decreases data.len() - at.offset,
{
    if at != end {
        let rest = data.skip(at.offset);
        let stop = FRAME_HEADER + compressed_len(rest);
        let raw = lz4_content(rest.subrange(FRAME_HEADER as int, stop), raw_len(rest) as nat)->0;
        let next = Progress {
            rows: at.rows + row_count(rest),
            offset: at.offset + stop,
            hashed: at.hashed + rest.take(FRAME_HEADER as int),
            frames: at.frames.push(raw),
        };
        read_on_moves_forward(data, next, end, recovery, sealed);
    }
}

/// What is to become of a segment that was not complete when the process
/// ended.
#[derive(Debug)]
pub enum Recovery {
    /// It has no complete header, and so no rows: remove it.
    Remove,
    /// Cut it at the offset, put the footer there, and it is ready.
    Seal { offset: usize, footer: Vec<u8> },
    /// It is complete and only has to be called so.
    Ready,
}

/// Finds out what is to become of a segment that may not be complete.
pub fn recover(data: &[u8]) -> (r: Result<Recovery, SpoolError>)
    ensures
        data@.len() < SEGMENT_HEADER ==> r == Ok::<Recovery, SpoolError>(Recovery::Remove),
        data@.len() >= SEGMENT_HEADER ==> match scanned(data@, true) {
            Ok((end, true)) => r == Ok::<Recovery, SpoolError>(Recovery::Ready),
            Ok((end, false)) => r matches Ok(Recovery::Seal { offset, footer: last }) && offset
                == end.offset && last@ == footer(end.rows, end.hashed),
            Err(error) => r == Err::<Recovery, SpoolError>(error),
        },
{
    if data.len() < SEGMENT_HEADER {
        return Ok(Recovery::Remove);
    }
    match scan(data, true) {
        Ok(scan) => if scan.sealed {
            Ok(Recovery::Ready)
        } else {
            Ok(Recovery::Seal { offset: scan.offset, footer: encode_footer(scan.rows, &scan.hashed) })
        },
        Err(error) => Err(error),
    }
}

/// The character for a digit below sixteen.
pub open spec fn hex_char(d: int) -> char {
    if d < 10 {
        digit_char(d)
    } else {
        ('a' as int + (d - 10)) as char
    }
}

/// Octets as lower case hexadecimal digits.
pub open spec fn hex_text(octets: Seq<u8>) -> Seq<char> {
    Seq::new(
        octets.len() * 2,
        |i: int|
            if i % 2 == 0 {
                hex_char(octets[i / 2] as int / 16)
            } else {
                hex_char(octets[i / 2] as int % 16)
            },
    )
}

/// `uuid::Uuid::simple` writes an identifier as hexadecimal digits without
/// hyphens.
#[verifier::external_body]
fn uuid_simple(id: [u8; 16]) -> (r: String)
    ensures
        r@ == hex_text(id@),
{
    uuid::Uuid::from_bytes(id).simple().to_string()
}

/// Reads a complete segment: its token and the number of its rows.
pub fn validate(data: &[u8]) -> (r: Result<(String, u32), SpoolError>)
    ensures
        match scanned(data@, false) {
            Ok((end, _)) => r is Ok && r->Ok_0.0@ == hex_text(data@.subrange(8, 24))
                && r->Ok_0.1 == end.rows,
            Err(error) => r == Err::<(String, u32), SpoolError>(error),
        },
{
    match scan(data, false) {
        Ok(scan) => Ok((uuid_simple(scan.token), scan.rows)),
        Err(error) => Err(error),
    }
}

/// Reads a complete segment: the data of its frames, in order.
pub fn replay(data: &[u8]) -> (r: Result<Vec<Vec<u8>>, SpoolError>)
    ensures
        match scanned(data@, false) {
            Ok((end, _)) => r is Ok && octet_views(r->Ok_0@) == end.frames,
            Err(error) => r == Err::<Vec<Vec<u8>>, SpoolError>(error),
        },
{
    match scan(data, false) {
        Ok(scan) => Ok(scan.frames),
        Err(error) => Err(error),
    }
}

/// The file that binds a spool to a destination: the stream, the destination
/// and a digest of both.
pub open spec fn manifest(stream: Seq<u8>, destination: Seq<char>) -> Seq<u8> {
    let body = stream + vstd::utf8::encode_utf8(destination);
    body + sha256(body)
}

/// What comes of opening a spool with a manifest: the stream, if the manifest
/// is intact and for the same destination.
pub open spec fn bound_stream(bytes: Seq<u8>, destination: Seq<char>) -> Option<Seq<u8>> {
    let end = bytes.len() - 32;
    if bytes.len() < 48 || bytes.subrange(16, end) != vstd::utf8::encode_utf8(destination)
        || sha256(bytes.take(end)) != bytes.skip(end) {
        None
    } else {
        Some(bytes.take(16))
    }
}

/// A spool opens with the manifest that it was given for its destination.
pub proof fn manifest_binds(stream: Seq<u8>, destination: Seq<char>)
    requires
        stream.len() == 16,
    ensures
        bound_stream(manifest(stream, destination), destination) == Some(stream),
{
    let body = stream + vstd::utf8::encode_utf8(destination);
    let bytes = manifest(stream, destination);
    let end = bytes.len() - 32;
    assert(bytes.subrange(16, end) =~= vstd::utf8::encode_utf8(destination));
    assert(bytes.take(end) =~= body);
    assert(bytes.skip(end) =~= sha256(body));
    assert(bytes.take(16) =~= stream);
}

/// A spool does not open with a manifest for another destination.
pub proof fn manifest_refuses_others(stream: Seq<u8>, destination: Seq<char>, other: Seq<char>)
    requires
        stream.len() == 16,
        destination != other,
    ensures
        bound_stream(manifest(stream, destination), other) is None,
{
    let bytes = manifest(stream, destination);
    let end = bytes.len() - 32;
    assert(bytes.subrange(16, end) =~= vstd::utf8::encode_utf8(destination));
    if vstd::utf8::encode_utf8(destination) == vstd::utf8::encode_utf8(other) {
        vstd::utf8::encode_utf8_decode_utf8(destination);
        vstd::utf8::encode_utf8_decode_utf8(other);
    }
}

/// Makes the manifest of a spool.
pub fn new_manifest(stream: [u8; 16], destination: &str) -> (r: Vec<u8>)
    ensures
        r@ == manifest(stream@, destination@),
{
    let mut out: Vec<u8> = Vec::new();
    put(&mut out, stream.as_slice());
    put(&mut out, destination.as_bytes());
    assert(out@ =~= stream@ + vstd::utf8::encode_utf8(destination@));
    let digest = sha256_digest(&out);
    put(&mut out, digest.as_slice());
    out
}

/// Checks the manifest of a spool, so that old observations never go to a
/// destination that they were not meant for.
pub fn check_manifest(bytes: &[u8], destination: &str) -> (r: Result<[u8; 16], SpoolError>)
    ensures
        match bound_stream(bytes@, destination@) {
            Some(stream) => r is Ok && r->Ok_0@ == stream,
            None => r == Err::<[u8; 16], SpoolError>(SpoolError::Destination),
        },
{
    let len: usize = bytes.len();
    if len < 48 {
        return Err(SpoolError::Destination);
    }
    let end: usize = len - 32;
    let body = vstd::slice::slice_subrange(bytes, 0, end);
    let stated = vstd::slice::slice_subrange(bytes, end, len);
    let bound = vstd::slice::slice_subrange(bytes, 16, end);
    let stream = vstd::slice::slice_subrange(bytes, 0, 16);
    assert(body@ =~= bytes@.take(end as int));
    assert(stated@ =~= bytes@.skip(end as int));
    assert(stream@ =~= bytes@.take(16));
    let digest = sha256_digest(body);
    if !same_octets(bound, destination.as_bytes()) || !same_octets(digest.as_slice(), stated) {
        return Err(SpoolError::Destination);
    }
    Ok(array16(stream))
}

/// A number with zeros before it, in at least `width` characters.
pub open spec fn zero_padded(n: nat, width: nat) -> Seq<char> {
    let digits = decimal_text(n);
    if digits.len() >= width {
        digits
    } else {
        Seq::new((width - digits.len()) as nat, |i: int| '0') + digits
    }
}

fn zero_pad(n: u64, width: usize) -> (r: String)
    ensures
        r@ == zero_padded(n as nat, width as nat),
{
    let digits = decimal(n);
    let len: usize = digits.as_str().unicode_len();
    let mut out = String::new();
    let mut i: usize = len;
    while i < width
        invariant
            len == digits@.len(),
            len <= i,
            i <= width || i == len,
            out@ == Seq::new((i - len) as nat, |i: int| '0'),
        decreases width - i,
    {
        out.push('0');
        i += 1;
        assert(out@ =~= Seq::new((i - len) as nat, |i: int| '0'));
    }
    out.append(digits.as_str());
    assert(out@ =~= zero_padded(n as nat, width as nat));
    out
}

/// The name of a segment that is not complete: when it was begun, in
/// microseconds, and its identifier.
pub open spec fn open_name(micros: nat, id: Seq<u8>) -> Seq<char> {
    zero_padded(micros, 20) + "-"@ + hex_text(id) + ".open"@
}

/// The name of a segment that is not complete.
pub fn segment_name(micros: u64, id: [u8; 16]) -> (r: String)
    ensures
        r@ == open_name(micros as nat, id@),
{
    let mut out = zero_pad(micros, 20);
    out.append("-");
    out.append(uuid_simple(id).as_str());
    out.append(".open");
    out
}

/// The sum of some sizes, or the highest number that there is.
pub open spec fn sizes_sum(sizes: Seq<u64>) -> int
    decreases sizes.len(),
{
    if sizes.len() == 0 {
        0
    } else {
        sizes_sum(sizes.drop_last()) + sizes.last()
    }
}

/// What a spool takes up on disk, given the sizes of its files.
pub fn usage(sizes: &[u64]) -> (r: u64)
    ensures
        r == (if sizes_sum(sizes@) > u64::MAX {
            u64::MAX as int
        } else {
            sizes_sum(sizes@)
        }),
{
    let mut bytes: u64 = 0;
    let mut i: usize = 0;
    while i < sizes.len()
        invariant
            i <= sizes.len(),
            sizes_sum(sizes@.take(i as int)) >= 0,
            bytes == (if sizes_sum(sizes@.take(i as int)) > u64::MAX {
                u64::MAX as int
            } else {
                sizes_sum(sizes@.take(i as int))
            }),
        decreases sizes.len() - i,
    {
        assert(sizes@.take(i + 1).drop_last() =~= sizes@.take(i as int));
        bytes = bytes.saturating_add(sizes[i]);
        i += 1;
    }
    assert(sizes@.take(i as int) =~= sizes@);
    bytes
}

/// A frame tells the length of its block, the length of its data and the number
/// of its rows in four octets each, the last of which counts the most, then the
/// digest of its data, and then comes the block.
pub proof fn frames_are_laid_out(frame: Seq<u8>, data: Seq<u8>, rows: int)
    requires
        is_frame(frame, data, rows),
    ensures
        frame.len() >= 44,
        frame[0] + frame[1] * 0x100 + frame[2] * 0x1_0000 + frame[3] * 0x100_0000 == frame.len()
            - 44,
        frame[4] + frame[5] * 0x100 + frame[6] * 0x1_0000 + frame[7] * 0x100_0000 == data.len(),
        frame[8] + frame[9] * 0x100 + frame[10] * 0x1_0000 + frame[11] * 0x100_0000 == rows,
        frame.subrange(12, 44) == sha256(data),
        lz4_content(frame.skip(44), data.len()) == Some(data),
{
    octets_count_by_their_place(frame[0], frame[1], frame[2], frame[3]);
    octets_count_by_their_place(frame[4], frame[5], frame[6], frame[7]);
    octets_count_by_their_place(frame[8], frame[9], frame[10], frame[11]);
    assert(frame.subrange(0, 4) =~= seq![frame[0], frame[1], frame[2], frame[3]]);
    assert(frame.subrange(4, 8) =~= seq![frame[4], frame[5], frame[6], frame[7]]);
    assert(frame.subrange(8, 12) =~= seq![frame[8], frame[9], frame[10], frame[11]]);
}

/// A segment starts with eight octets that tell its format and with its
/// identifier, and ends with a footer that has zeros for the lengths, the number
/// of all rows and the digest of all headers.
pub proof fn segments_are_laid_out(id: Seq<u8>, rows: int, hashed: Seq<u8>)
    requires
        0 <= rows <= u32::MAX,
    ensures
        segment_header(id).take(8) == seq![
            'N' as u8,
            'E' as u8,
            'T' as u8,
            'O' as u8,
            'M' as u8,
            'C' as u8,
            'H' as u8,
            '1' as u8,
        ],
        segment_header(id).skip(8) == id,
        compressed_len(footer(rows, hashed)) == 0,
        raw_len(footer(rows, hashed)) == 0,
        row_count(footer(rows, hashed)) == rows,
        footer(rows, hashed).skip(12) == sha256(hashed),
{
    let end = footer(rows, hashed);
    assert(segment_header(id).take(8) =~= magic());
    assert(segment_header(id).skip(8) =~= id);
    le32_round_trip(0);
    le32_round_trip(rows);
    assert(end.subrange(0, 4) =~= le32(0));
    assert(end.subrange(4, 8) =~= le32(0));
    assert(end.subrange(8, 12) =~= le32(rows));
    assert(end.skip(12) =~= sha256(hashed));
}

/// Each octet is two hexadecimal digits, the higher first, and the digits read
/// back as the octet.
pub proof fn hex_digits_read_back(octets: Seq<u8>, i: int)
    requires
        0 <= i < octets.len(),
    ensures
        hex_text(octets).len() == 2 * octets.len(),
        hex_digit(hex_text(octets)[2 * i]) is Some,
        hex_digit(hex_text(octets)[2 * i + 1]) is Some,
        16 * hex_digit(hex_text(octets)[2 * i])->0 + hex_digit(hex_text(octets)[2 * i + 1])->0
            == octets[i],
{
    assert((2 * i) / 2 == i && (2 * i + 1) / 2 == i);
    assert((2 * i) % 2 == 0 && (2 * i + 1) % 2 == 1);
}

/// A number with zeros in front has the width that is asked for, unless it needs
/// more, and ends in the digits of the number.
pub proof fn padding_puts_zeros_in_front(n: nat, width: nat)
    ensures
        zero_padded(n, width).len() >= width,
        zero_padded(n, width).len() == width || zero_padded(n, width) == decimal_text(n),
        zero_padded(n, width).len() >= decimal_text(n).len(),
        zero_padded(n, width).skip(zero_padded(n, width).len() - decimal_text(n).len())
            == decimal_text(n),
        forall|i: int|
            0 <= i < zero_padded(n, width).len() - decimal_text(n).len() ==> #[trigger] zero_padded(
                n,
                width,
            )[i] == '0',
{
    let all = zero_padded(n, width);
    assert(all.skip(all.len() - decimal_text(n).len()) =~= decimal_text(n));
}

/// A manifest holds the stream and the destination, and the digest of both.
pub proof fn manifests_are_laid_out(stream: Seq<u8>, destination: Seq<char>)
    requires
        stream.len() == 16,
    ensures
        ({
            let octets = manifest(stream, destination);
            let n = octets.len() as int;
            &&& octets.take(16) == stream
            &&& octets.subrange(16, n - 32) == vstd::utf8::encode_utf8(destination)
            &&& octets.skip(n - 32) == sha256(octets.take(n - 32))
        }),
{
    let octets = manifest(stream, destination);
    let n = octets.len() as int;
    assert(octets.take(16) =~= stream);
    assert(octets.subrange(16, n - 32) =~= vstd::utf8::encode_utf8(destination));
    assert(octets.take(n - 32) =~= stream + vstd::utf8::encode_utf8(destination));
    assert(octets.skip(n - 32) =~= sha256(octets.take(n - 32)));
}

/// One more file adds its size.
pub proof fn sizes_add_up(sizes: Seq<u64>, more: u64)
    ensures
        sizes_sum(sizes.push(more)) == sizes_sum(sizes) + more,
        sizes_sum(Seq::empty()) == 0,
{
    assert(sizes.push(more).drop_last() =~= sizes);
}

} // verus!
