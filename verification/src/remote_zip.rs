//! Remote files, read in ranges as if they lay here.
//!
//! An archive has its directory at its end, so its entries can be listed and
//! read without the rest. Single reads are small; they are served from ranges
//! fetched in larger pieces, which grow while the reading goes on in order.
use crate::text;
use crate::text::{parse_u64, push_decimal, push_int, tail_after_last, trim};
use vstd::prelude::*;

verus! {

/// The smallest piece that is fetched.
pub const MIN_CHUNK: u64 = 262_144;

/// The largest piece that is fetched.
pub const MAX_CHUNK: u64 = 8_388_608;

/// Why bytes could not be had.
#[derive(Debug, PartialEq)]
pub struct FetchError {
    pub message: String,
}

/// Something that gives ranges of bytes.
pub trait FetchRange {
    /// The length of the whole.
    fn total_len(&self) -> Result<u64, FetchError>;

    /// The bytes from `start` to `end`, both included.
    fn fetch(&self, start: u64, end: u64) -> Result<Vec<u8>, FetchError>;
}

/// Where to go on reading.
#[derive(Debug, Clone, Copy, PartialEq, Eq, Structural)]
pub enum SeekFrom {
    Start(u64),
    End(i64),
    Current(i64),
}

/// A position before the start of a file.
#[derive(Debug, Clone, Copy, PartialEq, Eq, Structural)]
pub struct SeekError {
    pub position: i128,
}

impl SeekError {
    pub fn to_string(&self) -> (text: String)
        ensures
            text@ == "先頭より前へのSeek: "@ + text::int_text(self.position as int),
    {
        let mut text = "先頭より前へのSeek: ".to_string();
        push_int(&mut text, self.position);
        text
    }
}

/// A range of bytes that is here.
pub struct Piece {
    pub start: u64,
    pub bytes: Vec<u8>,
}

/// Reads a [`FetchRange`] in order or from any place. One range is kept here.
pub struct RangeReader<F: FetchRange> {
    source: F,
    len: u64,
    pos: u64,
    chunk: u64,
    piece: Option<Piece>,
    /// Where the last range ended. Reading on from there is reading in order.
    last_end: Option<u64>,
    fixed_chunk: bool,
    fetches: usize,
    fetched_bytes: u64,
}

/// The state of a reader, but for its source.
#[verifier::ext_equal]
pub struct ReaderView {
    pub len: u64,
    pub pos: u64,
    pub chunk: u64,
    pub piece: Option<(u64, Seq<u8>)>,
    pub last_end: Option<u64>,
    pub fixed_chunk: bool,
    pub fetches: usize,
    pub fetched_bytes: u64,
}

impl ReaderView {
    /// The range that is here holds the byte at the position.
    pub open spec fn covered(self) -> bool {
        match self.piece {
            Some((start, bytes)) => start <= self.pos < start + bytes.len(),
            None => false,
        }
    }

    /// The size of the next piece: twice as large where reading goes on in
    /// order, the smallest after a jump.
    pub open spec fn next_chunk(self) -> int {
        if self.fixed_chunk {
            self.chunk as int
        } else if self.last_end == Some(self.pos) {
            if self.chunk * 2 <= MAX_CHUNK {
                self.chunk * 2
            } else {
                MAX_CHUNK as int
            }
        } else {
            MIN_CHUNK as int
        }
    }

    /// The last byte to ask for: never beyond the end.
    pub open spec fn next_end(self) -> int {
        if self.pos + self.next_chunk() <= self.len {
            self.pos + self.next_chunk() - 1
        } else {
            self.len - 1
        }
    }

    /// The state with a reply to the next request.
    pub open spec fn with_reply(self, bytes: Seq<u8>) -> ReaderView {
        ReaderView {
            chunk: self.next_chunk() as u64,
            last_end: Some((self.pos + bytes.len()) as u64),
            piece: Some((self.pos, bytes)),
            fetches: if self.fetches < usize::MAX {
                (self.fetches + 1) as usize
            } else {
                usize::MAX
            },
            fetched_bytes: if self.fetched_bytes + bytes.len() <= u64::MAX {
                (self.fetched_bytes + bytes.len()) as u64
            } else {
                u64::MAX
            },
            ..self
        }
    }

    /// The state after a request that brought nothing.
    pub open spec fn with_empty_reply(self) -> ReaderView {
        ReaderView { chunk: self.next_chunk() as u64, last_end: Some(self.pos), ..self }
    }

    /// A reply that fits behind the position.
    pub open spec fn reply_fits(self, bytes: Seq<u8>) -> bool {
        self.pos + bytes.len() <= u64::MAX
    }

    pub open spec fn wf(self) -> bool {
        &&& self.chunk >= 1
        &&& !self.fixed_chunk ==> MIN_CHUNK <= self.chunk <= MAX_CHUNK
        &&& match self.piece {
            Some((start, bytes)) => start + bytes.len() <= u64::MAX,
            None => true,
        }
    }

    /// What is here agrees with `data`.
    pub open spec fn agrees(self, data: Seq<u8>) -> bool {
        match self.piece {
            Some((start, bytes)) => start + bytes.len() <= data.len() && bytes == data.subrange(
                start as int,
                start + bytes.len(),
            ),
            None => true,
        }
    }

    /// The place that a seek leads to.
    pub open spec fn target(self, to: SeekFrom) -> int {
        match to {
            SeekFrom::Start(n) => n as int,
            SeekFrom::End(n) => self.len + n,
            SeekFrom::Current(n) => self.pos + n,
        }
    }
}

/// `source` gives only bytes of `data`, from the start of the range asked for.
pub open spec fn honest<F: FetchRange>(source: F, data: Seq<u8>) -> bool {
    forall|start: u64, end: u64, r: Result<Vec<u8>, FetchError>| #[trigger]
        call_ensures(F::fetch, (&source, start, end), r) && r is Ok ==> start + r->Ok_0@.len()
            <= data.len() && r->Ok_0@ == data.subrange(start as int, start + r->Ok_0@.len())
}

/// `source` answers every request inside `data`, with some of the bytes asked
/// for, from the first on.
pub open spec fn faithful<F: FetchRange>(source: F, data: Seq<u8>) -> bool {
    forall|start: u64, end: u64, r: Result<Vec<u8>, FetchError>| #[trigger]
        reply_of(source, start, end, r) && start <= end < data.len() ==> r is Ok && 1
            <= r->Ok_0@.len() <= end - start + 1 && r->Ok_0@ == data.subrange(
            start as int,
            start + r->Ok_0@.len(),
        )
}

/// A reply to the request for those bytes.
pub open spec fn reply_of<F: FetchRange>(
    source: F,
    start: u64,
    end: u64,
    r: Result<Vec<u8>, FetchError>,
) -> bool {
    call_ensures(F::fetch, (&source, start, end), r)
}

/// The error in a result, where it is one.
pub open spec fn failure<T>(r: Result<T, FetchError>) -> Option<FetchError> {
    match r {
        Ok(_) => None,
        Err(e) => Some(e),
    }
}

/// What is said of a reply without bytes.
pub open spec fn empty_text(start: int, end: int) -> Seq<char> {
    "範囲 "@ + text::decimal_text(start as nat) + "-"@ + text::decimal_text(end as nat)
        + " が空で返りました"@
}

/// What a reply makes of the state, and the error that comes of it: the bytes
/// are kept where there are any, and an error of the source is passed on.
pub open spec fn after_reply(
    before: ReaderView,
    after: ReaderView,
    reply: Result<Vec<u8>, FetchError>,
    failed: Option<FetchError>,
) -> bool {
    match reply {
        Err(e) => {
            &&& failed == Some(e)
            &&& after == (ReaderView { chunk: before.next_chunk() as u64, ..before })
        },
        Ok(bytes) => if bytes@.len() == 0 {
            &&& failed is Some
            &&& failed->0.message@ == empty_text(before.pos as int, before.next_end())
            &&& after == before.with_empty_reply()
        } else if !before.reply_fits(bytes@) {
            &&& failed is Some
            &&& failed->0.message@ == "返った範囲が長すぎます"@
            &&& after == (ReaderView { chunk: before.next_chunk() as u64, ..before })
        } else {
            failed is None && after == before.with_reply(bytes@)
        },
    }
}

impl<F: FetchRange> RangeReader<F> {
    pub closed spec fn spec_source(self) -> F {
        self.source
    }

    pub closed spec fn state(self) -> ReaderView {
        ReaderView {
            len: self.len,
            pos: self.pos,
            chunk: self.chunk,
            piece: match self.piece {
                Some(p) => Some((p.start, p.bytes@)),
                None => None,
            },
            last_end: self.last_end,
            fixed_chunk: self.fixed_chunk,
            fetches: self.fetches,
            fetched_bytes: self.fetched_bytes,
        }
    }

    /// The reader reads `data`: its source answers from there, the length is
    /// that of `data`, and so are the bytes that are here. A new reader does, and
    /// reading and seeking keep it so.
    pub open spec fn reads(self, data: Seq<u8>) -> bool {
        &&& self.state().wf()
        &&& self.state().len == data.len()
        &&& faithful(self.spec_source(), data)
        &&& self.state().agrees(data)
    }

    /// A reader at the start of a file. It asks for the length only.
    pub fn new(source: F) -> (r: Result<RangeReader<F>, FetchError>)
        ensures
            match r {
                Ok(reader) => {
                    &&& forall|data: Seq<u8>| #[trigger]
                        faithful(source, data) && reader.state().len == data.len()
                            ==> reader.reads(data)
                    &&& reader.state().wf()
                    &&& reader.spec_source() == source
                    &&& call_ensures(F::total_len, (&source,), Ok(reader.state().len))
                    &&& reader.state() == (ReaderView {
                        len: reader.state().len,
                        pos: 0,
                        chunk: MIN_CHUNK,
                        piece: None,
                        last_end: None,
                        fixed_chunk: false,
                        fetches: 0,
                        fetched_bytes: 0,
                    })
                },
                Err(e) => call_ensures(F::total_len, (&source,), Err(e)),
            },
    {
        match source.total_len() {
            Ok(len) => Ok(
                RangeReader {
                    source,
                    len,
                    pos: 0,
                    chunk: MIN_CHUNK,
                    piece: None,
                    last_end: None,
                    fixed_chunk: false,
                    fetches: 0,
                    fetched_bytes: 0,
                },
            ),
            Err(e) => Err(e),
        }
    }

    /// Fixes the size of the pieces, which no longer grow.
    pub fn with_chunk_size(self, chunk: u64) -> (reader: RangeReader<F>)
        requires
            self.state().wf(),
        ensures
            reader.state().wf(),
            reader.spec_source() == self.spec_source(),
            reader.state() == (ReaderView {
                chunk: if chunk >= 1 {
                    chunk
                } else {
                    1
                },
                fixed_chunk: true,
                ..self.state()
            }),
            forall|data: Seq<u8>| #[trigger] self.reads(data) ==> reader.reads(data),
    {
        let mut reader = self;
        reader.chunk = if chunk >= 1 {
            chunk
        } else {
            1
        };
        reader.fixed_chunk = true;
        reader
    }

    /// How often bytes were fetched, and how many.
    pub fn stats(&self) -> (r: (usize, u64))
        ensures
            r == (self.state().fetches, self.state().fetched_bytes),
    {
        (self.fetches, self.fetched_bytes)
    }

    pub fn source(&self) -> (source: &F)
        ensures
            *source == self.spec_source(),
    {
        &self.source
    }

    /// The next request: its first and last byte, and the size of the piece.
    fn next_request(&self) -> (r: (u64, u64, u64))
        requires
            self.state().wf(),
            self.state().pos < self.state().len,
        ensures
            r.0 == self.state().pos,
            r.1 == self.state().next_end(),
            r.2 == self.state().next_chunk(),
            r.0 <= r.1 < self.state().len,
    {
        let chunk: u64 = if self.fixed_chunk {
            self.chunk
        } else {
            let onward: bool = match self.last_end {
                Some(end) => end == self.pos,
                None => false,
            };
            if onward {
                if self.chunk * 2 <= MAX_CHUNK {
                    self.chunk * 2
                } else {
                    MAX_CHUNK
                }
            } else {
                MIN_CHUNK
            }
        };
        let end: u64 = if chunk <= self.len - self.pos {
            self.pos + (chunk - 1)
        } else {
            self.len - 1
        };
        (self.pos, end, chunk)
    }

    /// Takes in a reply to the next request.
    pub fn accept(&mut self, reply: Result<Vec<u8>, FetchError>) -> (r: Result<(), FetchError>)
        requires
            old(self).state().wf(),
            old(self).state().pos < old(self).state().len,
        ensures
            final(self).state().wf(),
            final(self).spec_source() == old(self).spec_source(),
            after_reply(old(self).state(), final(self).state(), reply, failure(r)),
    {
        let (start, end, chunk) = self.next_request();
        self.chunk = chunk;
        let bytes = match reply {
            Ok(bytes) => bytes,
            Err(e) => {
                return Err(e);
            },
        };
        if bytes.len() == 0 {
            self.last_end = Some(start);
            let mut message = "範囲 ".to_string();
            push_decimal(&mut message, start);
            message.append("-");
            push_decimal(&mut message, end);
            message.append(" が空で返りました");
            return Err(FetchError { message });
        }
        let n: u64 = bytes.len() as u64;
        if n > 0xffff_ffff_ffff_ffff - start {
            return Err(FetchError { message: "返った範囲が長すぎます".to_string() });
        }
        self.last_end = Some(start + n);
        self.fetches = self.fetches.saturating_add(1);
        self.fetched_bytes = self.fetched_bytes.saturating_add(n);
        self.piece = Some(Piece { start, bytes });
        Ok(())
    }

    fn is_covered(&self) -> (b: bool)
        requires
            self.state().wf(),
        ensures
            b == self.state().covered(),
    {
        match &self.piece {
            Some(p) => p.start <= self.pos && self.pos - p.start < p.bytes.len() as u64,
            None => false,
        }
    }

    /// Sees to it that the byte at the position is here. Where it is, nothing
    /// is fetched.
    fn ensure_buffered(&mut self) -> (r: Result<(), FetchError>)
        requires
            old(self).state().wf(),
            old(self).state().pos < old(self).state().len,
        ensures
            final(self).state().wf(),
            final(self).spec_source() == old(self).spec_source(),
            old(self).state().covered() ==> r is Ok && final(self).state() == old(self).state(),
            !old(self).state().covered() ==> exists|reply: Result<Vec<u8>, FetchError>| #[trigger]
                reply_of(
                    old(self).spec_source(),
                    old(self).state().pos,
                    old(self).state().next_end() as u64,
                    reply,
                ) && after_reply(old(self).state(), final(self).state(), reply, failure(r)),
            r is Ok ==> final(self).state().covered(),
            final(self).state().pos == old(self).state().pos,
            final(self).state().len == old(self).state().len,
            forall|data: Seq<u8>|
                honest(old(self).spec_source(), data) && #[trigger] old(self).state().agrees(data)
                    ==> final(self).state().agrees(data),
            forall|data: Seq<u8>| #[trigger]
                old(self).reads(data) ==> r is Ok && final(self).reads(data),
    {
        if self.is_covered() {
            return Ok(());
        }
        let (start, end, _) = self.next_request();
        let reply = self.source.fetch(start, end);
        assert(reply_of(self.source, start, end, reply));
        let ghost kept = reply;
        let r = self.accept(reply);
        proof {
            assert(after_reply(old(self).state(), self.state(), kept, failure(r)));
            assert(end == old(self).state().next_end() as u64);
            assert(reply_of(
                old(self).spec_source(),
                old(self).state().pos,
                old(self).state().next_end() as u64,
                kept,
            ));
            assert forall|data: Seq<u8>|
                honest(old(self).spec_source(), data) && #[trigger] old(self).state().agrees(
                    data,
                ) implies self.state().agrees(data) by {
                assert(reply_of(old(self).source, start, end, kept));
            }
            assert forall|data: Seq<u8>| #[trigger] old(self).reads(data) implies r is Ok
                && self.reads(data) by {
                assert(reply_of(old(self).spec_source(), start, end, kept));
            }
        }
        r
    }

    /// Reads the next bytes into `out`, as many as are here. At the end there
    /// are none.
    pub fn read(&mut self, out: &mut [u8]) -> (r: Result<usize, FetchError>)
        requires
            old(self).state().wf(),
        ensures
            final(self).state().wf(),
            final(self).spec_source() == old(self).spec_source(),
            final(out)@.len() == old(out)@.len(),
            final(self).state().len == old(self).state().len,
            old(self).state().pos >= old(self).state().len || old(out)@.len() == 0 ==> {
                &&& r == Ok::<usize, FetchError>(0)
                &&& final(self).state() == old(self).state()
                &&& final(out)@ == old(out)@
            },
            old(self).state().pos < old(self).state().len && old(self).state().covered() ==> r is Ok
                && final(self).state() == (ReaderView {
                pos: final(self).state().pos,
                ..old(self).state()
            }),
            old(self).state().pos < old(self).state().len && old(out)@.len() > 0 && !old(
                self,
            ).state().covered() ==> exists|reply: Result<Vec<u8>, FetchError>| #[trigger]
                reply_of(
                    old(self).spec_source(),
                    old(self).state().pos,
                    old(self).state().next_end() as u64,
                    reply,
                ) && after_reply(
                    old(self).state(),
                    (ReaderView { pos: old(self).state().pos, ..final(self).state() }),
                    reply,
                    failure(r),
                ),
            match r {
                Ok(n) => {
                    &&& final(self).state().pos == old(self).state().pos + n
                    &&& n <= old(out)@.len()
                    &&& n > 0 ==> final(self).state().piece is Some && ({
                        let (start, bytes) = final(self).state().piece->0;
                        let offset = old(self).state().pos - start;
                        &&& start <= old(self).state().pos < start + bytes.len()
                        &&& n == (if old(out)@.len() <= bytes.len() - offset {
                            old(out)@.len() as int
                        } else {
                            bytes.len() - offset
                        })
                        &&& final(out)@ == bytes.subrange(offset, offset + n) + old(out)@.skip(
                            n as int,
                        )
                    })
                    &&& old(self).state().pos < old(self).state().len && old(out)@.len() > 0 ==> n
                        > 0
                },
                Err(_) => final(out)@ == old(out)@ && final(self).state().pos == old(
                    self,
                ).state().pos,
            },
            forall|data: Seq<u8>|
                honest(old(self).spec_source(), data) && #[trigger] old(self).state().agrees(data)
                    ==> final(self).state().agrees(data) && (r is Ok ==> old(self).state().pos
                    + r->Ok_0 <= data.len() || r->Ok_0 == 0) && (r is Ok ==> final(out)@.take(
                    r->Ok_0 as int,
                ) == data.subrange(
                    old(self).state().pos as int,
                    old(self).state().pos + r->Ok_0,
                ) || r->Ok_0 == 0),
            forall|data: Seq<u8>| #[trigger]
                old(self).reads(data) ==> final(self).reads(data) && r is Ok && (
                old(self).state().pos < data.len() && old(out)@.len() > 0 ==> {
                    &&& 1 <= r->Ok_0 <= old(out)@.len()
                    &&& final(out)@.take(r->Ok_0 as int) == data.subrange(
                        old(self).state().pos as int,
                        old(self).state().pos + r->Ok_0,
                    )
                    &&& final(out)@.skip(r->Ok_0 as int) == old(out)@.skip(r->Ok_0 as int)
                    &&& final(self).state().pos == old(self).state().pos + r->Ok_0
                }),
    {
        if self.pos >= self.len || out.len() == 0 {
            return Ok(0);
        }
        match self.ensure_buffered() {
            Ok(_) => {},
            Err(e) => {
                return Err(e);
            },
        }
        let ghost mid = self.state();
        let mut n: usize = 0;
        match &self.piece {
            Some(p) => {
                let offset: usize = (self.pos - p.start) as usize;
                let there: usize = p.bytes.len() - offset;
                n = if out.len() <= there {
                    out.len()
                } else {
                    there
                };
                let mut i: usize = 0;
                while i < n
                    invariant
                        i <= n <= out@.len(),
                        out@.len() == old(out)@.len(),
                        offset + n <= p.bytes@.len(),
                        p.bytes@.len() <= usize::MAX,
                        forall|k: int| 0 <= k < i ==> out@[k] == p.bytes@[offset + k],
                        forall|k: int| i <= k < out@.len() ==> out@[k] == old(out)@[k],
                    decreases n - i,
                {
                    out[i] = p.bytes[offset + i];
                    i = i + 1;
                }
                assert(out@ =~= p.bytes@.subrange(offset as int, offset + n) + old(out)@.skip(
                    n as int,
                ));
            },
            None => {},
        }
        self.pos = self.pos + n as u64;
        proof {
            let (start, bytes) = mid.piece->0;
            let offset = old(self).state().pos - start;
            assert forall|data: Seq<u8>|
                honest(old(self).spec_source(), data) && #[trigger] old(self).state().agrees(
                    data,
                ) implies self.state().agrees(data) && old(self).state().pos + n <= data.len()
                && out@.take(n as int) == data.subrange(
                old(self).state().pos as int,
                old(self).state().pos + n,
            ) by {
                assert(mid.agrees(data));
                assert(out@.take(n as int) =~= bytes.subrange(offset, offset + n));
                assert(bytes.subrange(offset, offset + n) =~= data.subrange(
                    old(self).state().pos as int,
                    old(self).state().pos + n,
                ));
            }
            assert forall|data: Seq<u8>| #[trigger] old(self).reads(data) implies self.reads(data)
                && out@.take(n as int) == data.subrange(
                old(self).state().pos as int,
                old(self).state().pos + n,
            ) && out@.skip(n as int) == old(out)@.skip(n as int) by {
                assert(mid.agrees(data));
                assert(out@.take(n as int) =~= bytes.subrange(offset, offset + n));
                assert(bytes.subrange(offset, offset + n) =~= data.subrange(
                    old(self).state().pos as int,
                    old(self).state().pos + n,
                ));
                assert(out@.skip(n as int) =~= old(out)@.skip(n as int));
            }
        }
        Ok(n)
    }

    /// Moves the position. Beyond the end is allowed, before the start is not.
    pub fn seek(&mut self, to: SeekFrom) -> (r: Result<u64, SeekError>)
        requires
            old(self).state().wf(),
        ensures
            final(self).state().wf(),
            final(self).spec_source() == old(self).spec_source(),
            match r {
                Ok(pos) => {
                    &&& old(self).state().target(to) >= 0
                    &&& pos == old(self).state().target(to) % 0x1_0000_0000_0000_0000
                    &&& final(self).state() == (ReaderView { pos, ..old(self).state() })
                },
                Err(e) => old(self).state().target(to) < 0 && e.position == old(
                    self,
                ).state().target(to) && final(self).state() == old(self).state(),
            },
            forall|data: Seq<u8>| #[trigger] old(self).reads(data) ==> final(self).reads(data),
    {
        let next: i128 = match to {
            SeekFrom::Start(n) => n as i128,
            SeekFrom::End(n) => self.len as i128 + n as i128,
            SeekFrom::Current(n) => self.pos as i128 + n as i128,
        };
        if next < 0 {
            return Err(SeekError { position: next });
        }
        self.pos = (next % 0x1_0000_0000_0000_0000) as u64;
        Ok(self.pos)
    }
}

/// The total length that a `Content-Range` value such as
/// `bytes 0-0/483129586` names: what follows its last slash.
pub open spec fn range_total(value: Seq<char>) -> Option<u64> {
    match text::parsed_int(text::trimmed(text::after_last(value, '/')), false) {
        Some(n) => if n <= u64::MAX {
            Some(n as u64)
        } else {
            None
        },
        None => None,
    }
}

pub fn content_range_total(value: &str) -> (total: Option<u64>)
    ensures
        total == range_total(value@),
{
    let tail = tail_after_last(value, '/');
    parse_u64(trim(tail.as_str()).as_str())
}

/// The `Range` value that asks for the bytes from `start` to `end`, both included.
pub fn range_header(start: u64, end: u64) -> (value: String)
    ensures
        value@ == "bytes="@ + text::decimal_text(start as nat) + "-"@ + text::decimal_text(
            end as nat,
        ),
{
    let mut value = "bytes=".to_string();
    push_decimal(&mut value, start);
    value.append("-");
    push_decimal(&mut value, end);
    value
}

/// No request goes beyond the end of the file, and each asks for at least one byte.
pub proof fn law_requests_stay_inside(state: ReaderView)
    requires
        state.wf(),
        state.pos < state.len,
    ensures
        state.pos <= state.next_end() < state.len,
        state.next_end() - state.pos < state.next_chunk(),
{
}

/// Whoever reads on from where a reply ended gets larger and larger pieces, up
/// to the largest, however much of what was asked for the reply held.
pub proof fn law_reading_on_grows(before: ReaderView, bytes: Seq<u8>)
    requires
        before.wf(),
        !before.fixed_chunk,
        before.pos < before.len,
        before.reply_fits(bytes),
    ensures
        ({
            let after = before.with_reply(bytes);
            let onward = (ReaderView { pos: (before.pos + bytes.len()) as u64, ..after });
            &&& after.wf()
            &&& onward.next_chunk() == (if after.chunk * 2 <= MAX_CHUNK {
                after.chunk * 2
            } else {
                MAX_CHUNK as int
            })
        }),
{
}

/// Whoever jumps starts again with the smallest piece.
pub proof fn law_a_jump_starts_small(before: ReaderView, bytes: Seq<u8>, pos: u64)
    requires
        before.wf(),
        !before.fixed_chunk,
        before.reply_fits(bytes),
        pos != before.pos + bytes.len(),
    ensures
        (ReaderView { pos, ..before.with_reply(bytes) }).next_chunk() == MIN_CHUNK,
{
}

/// The total length is what follows the last slash of a range, in decimal
/// notation, whatever stands before.
pub proof fn law_ranges_end_in_their_total(before: Seq<char>, n: u64)
    ensures
        range_total(before + seq!['/'] + text::decimal_text(n as nat)) == Some(n),
{
    let digits = text::decimal_text(n as nat);
    text::lemma_decimal_digits(n as nat);
    text::law_decimal_round_trip(n as nat);
    if digits.contains('/') {
        let i = choose|i: int| 0 <= i < digits.len() && digits[i] == '/';
        assert(text::is_digit(digits[i]));
    }
    text::law_the_last_mark_counts(before, '/', digits);
    let none = Seq::<char>::empty();
    assert(none + digits + none =~= digits);
    assert(text::is_digit(digits[0]) && text::is_digit(digits[digits.len() - 1]));
    text::law_trimming_leaves_the_text(none, digits, none);
}

/// A seek leads to a place counted from the start, from the end or from where
/// reading stands.
pub proof fn law_seeks_lead_to_their_place(state: ReaderView, n: u64, d: i64)
    ensures
        state.target(SeekFrom::Start(n)) == n,
        state.target(SeekFrom::End(d)) - state.len == d,
        state.target(SeekFrom::Current(d)) - state.pos == d,
{
}

/// A reply that fits is kept at the place that it was asked for, counts as one
/// more, and adds its bytes to those that were fetched; the position and the
/// length stay. Bytes of the data stay bytes of the data.
pub proof fn law_replies_are_kept(before: ReaderView, bytes: Seq<u8>, data: Seq<u8>)
    requires
        before.wf(),
        before.pos < before.len,
        before.reply_fits(bytes),
        bytes.len() > 0,
    ensures
        ({
            let after = before.with_reply(bytes);
            &&& after.covered()
            &&& after.piece == Some((before.pos, bytes))
            &&& after.pos == before.pos && after.len == before.len
            &&& before.fetches < usize::MAX ==> after.fetches == before.fetches + 1
            &&& before.fetched_bytes + bytes.len() <= u64::MAX ==> after.fetched_bytes
                == before.fetched_bytes + bytes.len()
            &&& before.pos + bytes.len() <= data.len() && bytes == data.subrange(
                before.pos as int,
                before.pos + bytes.len(),
            ) ==> after.agrees(data)
        }),
{
}

/// Pieces are fetched from 256 KiB to 8 MiB at a time, and the last byte of a
/// request is that of the piece or the last one there is.
pub proof fn law_pieces_have_their_size(state: ReaderView)
    requires
        state.wf(),
        state.pos < state.len,
    ensures
        !state.fixed_chunk ==> 262_144 <= state.next_chunk() <= 8_388_608,
        state.fixed_chunk ==> state.next_chunk() == state.chunk,
        state.next_end() == state.pos + state.next_chunk() - 1 || (state.next_end() == state.len - 1
            && state.next_end() < state.pos + state.next_chunk() - 1),
{
}

} // verus!
