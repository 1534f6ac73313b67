//! Framing: cutting a block stream into header messages and blob messages.

use crate::error::Error;
use crate::proto::items::BlobHeader;
use vstd::prelude::*;

verus! {

/// The number that four bytes spell, high byte first.
pub open spec fn be_u32(b: Seq<u8>) -> int {
    b[0] * 0x100_0000 + b[1] * 0x1_0000 + b[2] * 0x100 + b[3]
}

/// A piece cut from a stream, and the position behind it.
pub ghost struct Chunk {
    pub bytes: Seq<u8>,
    pub next: int,
}

/// The header message of the frame that begins at `pos`.
///
/// There is none where the stream ends at `pos`: that is the regular end.
/// A stream that ends within the four length bytes or within the header
/// message is truncated.
pub open spec fn header_step(stream: Seq<u8>, pos: int) -> Result<Option<Chunk>, Error> {
    let left = stream.len() - pos;
    if left <= 0 {
        Ok(None)
    } else if left < 4 {
        Err(Error::StreamTruncated)
    } else {
        let n = be_u32(stream.subrange(pos, pos + 4));
        if left - 4 < n {
            Err(Error::StreamTruncated)
        } else {
            Ok(Some(Chunk { bytes: stream.subrange(pos + 4, pos + 4 + n), next: pos + 4 + n }))
        }
    }
}

/// The blob message of `datasize` bytes that begins at `pos`. A stream that
/// holds fewer bytes is truncated, and so is one whose header names a
/// negative size.
pub open spec fn blob_step(stream: Seq<u8>, pos: int, datasize: i32) -> Result<Chunk, Error> {
    if datasize < 0 || stream.len() - pos < datasize {
        Err(Error::StreamTruncated)
    } else {
        Ok(Chunk { bytes: stream.subrange(pos, pos + datasize), next: pos + datasize })
    }
}

/// A cursor over the bytes of a block stream. It hands out, in turn, the
/// header message and the blob message of each frame, in one buffer that
/// every read overwrites.
pub struct FileBlockIterator {
    r: Vec<u8>,
    pos: usize,
    buf: Vec<u8>,
}

impl FileBlockIterator {
    /// The bytes of the whole stream.
    pub closed spec fn stream(&self) -> Seq<u8> {
        self.r@
    }

    /// The number of bytes that were read so far. A cursor behind the end
    /// of the stream counts as one at its end.
    pub closed spec fn position(&self) -> int {
        if self.pos <= self.r.len() {
            self.pos as int
        } else {
            self.r.len() as int
        }
    }

    /// The bytes that the last read put into the buffer.
    pub closed spec fn buffered(&self) -> Seq<u8> {
        self.buf@
    }

    /// Starts at the first byte of the stream `r`.
    pub fn from_reader(r: Vec<u8>) -> (it: FileBlockIterator)
        ensures
            it.stream() == r@,
            it.position() == 0,
            it.buffered() == Seq::<u8>::empty(),
    {
        FileBlockIterator { r, pos: 0, buf: Vec::new() }
    }

    /// The bytes of the last read. The next read overwrites them.
    pub fn buffer(&self) -> (b: &Vec<u8>)
        ensures
            b@ == self.buffered(),
    {
        &self.buf
    }

    /// The number of bytes that were read so far. It never exceeds the
    /// length of the stream.
    pub fn offset(&self) -> (p: usize)
        ensures
            p == self.position(),
            p <= self.stream().len(),
    {
        if self.pos <= self.r.len() {
            self.pos
        } else {
            self.r.len()
        }
    }

    /// Reads the next `n` bytes into the buffer, or all that are left where
    /// they are fewer, and says how many it read.
    pub fn read(&mut self, n: u64) -> (k: usize)
        ensures
            final(self).stream() == old(self).stream(),
            k == if n <= old(self).stream().len() - old(self).position() {
                n as int
            } else {
                old(self).stream().len() - old(self).position()
            },
            final(self).position() == old(self).position() + k,
            final(self).buffered() == old(self).stream().subrange(
                old(self).position(),
                old(self).position() + k,
            ),
    {
        self.buf.clear();
        let start: usize = self.offset();
        let left: usize = self.r.len() - start;
        let k: usize = if n <= left as u64 {
            n as usize
        } else {
            left
        };
        let mut i: usize = 0;
        while i < k
            invariant
                self.r@ == old(self).r@,
                start + k <= self.r.len(),
                0 <= i <= k,
                self.buf@ == self.r@.subrange(start as int, start + i),
            decreases k - i,
        {
            self.buf.push(self.r[start + i]);
            i += 1;
            assert(self.buf@ =~= self.r@.subrange(start as int, start + i));
        }
        self.pos = start + k;
        k
    }

    /// Reads the length and the header message of the next frame. `Some`
    /// says that the buffer holds the header message, and gives its length;
    /// `None` that the stream has ended where a frame would begin. After an
    /// error the stream is read to its end.
    pub fn read_blob_header(&mut self) -> (res: Result<Option<usize>, Error>)
        ensures
            final(self).stream() == old(self).stream(),
            match res {
                Ok(Some(n)) => header_step(old(self).stream(), old(self).position()) == Ok::<
                    Option<Chunk>,
                    Error,
                >(Some(Chunk { bytes: final(self).buffered(), next: final(self).position() }))
                    && n == final(self).buffered().len(),
                Ok(None) => header_step(old(self).stream(), old(self).position()) == Ok::<
                    Option<Chunk>,
                    Error,
                >(None) && final(self).position() == old(self).position(),
                Err(e) => header_step(old(self).stream(), old(self).position()) == Err::<
                    Option<Chunk>,
                    Error,
                >(e) && final(self).position() == final(self).stream().len(),
            },
    {
        let n = self.read(4);
        if n == 0 {
            return Ok(None);
        }
        if n < 4 {
            return Err(Error::StreamTruncated);
        }
        let bhs: u64 = (self.buf[0] as u64) * 0x100_0000 + (self.buf[1] as u64) * 0x1_0000 + (
        self.buf[2] as u64) * 0x100 + (self.buf[3] as u64);
        let m = self.read(bhs);
        if (m as u64) < bhs {
            return Err(Error::StreamTruncated);
        }
        Ok(Some(m))
    }

    /// Reads the blob message that the header `h` announces into the
    /// buffer. After an error the stream is read to its end.
    pub fn read_blob(&mut self, h: &BlobHeader) -> (res: Result<(), Error>)
        ensures
            final(self).stream() == old(self).stream(),
            match res {
                Ok(()) => blob_step(old(self).stream(), old(self).position(), h.datasize) == Ok::<
                    Chunk,
                    Error,
                >(Chunk { bytes: final(self).buffered(), next: final(self).position() }),
                Err(e) => blob_step(old(self).stream(), old(self).position(), h.datasize) == Err::<
                    Chunk,
                    Error,
                >(e) && final(self).position() == final(self).stream().len(),
            },
    {
        if h.datasize < 0 {
            let _ = self.read(u64::MAX);
            return Err(Error::StreamTruncated);
        }
        let n: u64 = h.datasize as u64;
        let m = self.read(n);
        if (m as u64) < n {
            return Err(Error::StreamTruncated);
        }
        Ok(())
    }
}


/// One frame of a stream: the bytes of its header message and of its blob
/// message.
pub ghost struct Frame {
    pub header: Seq<u8>,
    pub blob: Seq<u8>,
}

/// The four bytes that spell `n`, high byte first.
pub open spec fn be_bytes(n: int) -> Seq<u8> {
    seq![
        (n / 0x100_0000) as u8,
        ((n / 0x1_0000) % 0x100) as u8,
        ((n / 0x100) % 0x100) as u8,
        (n % 0x100) as u8,
    ]
}

/// The bytes of a frame as a stream holds them.
pub open spec fn frame_bytes(f: Frame) -> Seq<u8> {
    be_bytes(f.header.len() as int) + f.header + f.blob
}

/// The lengths of a frame's messages fit the fields that name them: four
/// bytes for the header's, a signed 32-bit number for the blob's.
pub open spec fn frame_fits(f: Frame) -> bool {
    f.header.len() <= u32::MAX && f.blob.len() <= i32::MAX
}

/// The stream that holds the first `n` of `frames` and nothing else.
pub open spec fn stream_of(frames: Seq<Frame>, n: int) -> Seq<u8>
    decreases n,
{
    if n <= 0 {
        Seq::empty()
    } else {
        stream_of(frames, n - 1) + frame_bytes(frames[n - 1])
    }
}

/// Four bytes that spell a number spell that number.
pub proof fn lemma_be_round_trip(n: int)
    requires
        0 <= n <= u32::MAX,
    ensures
        be_bytes(n).len() == 4,
        be_u32(be_bytes(n)) == n,
{
}

/// A frame that lies in a stream at `pos` is read back from there: first
/// its header message, then, asked for with the blob's length, its blob
/// message, which ends where the frame ends.
pub proof fn lemma_frame_reads_back(stream: Seq<u8>, pos: int, f: Frame)
    requires
        frame_fits(f),
        0 <= pos,
        pos + frame_bytes(f).len() <= stream.len(),
        stream.subrange(pos, pos + frame_bytes(f).len()) == frame_bytes(f),
    ensures
        header_step(stream, pos) == Ok::<Option<Chunk>, Error>(
            Some(Chunk { bytes: f.header, next: pos + 4 + f.header.len() }),
        ),
        blob_step(stream, pos + 4 + f.header.len(), f.blob.len() as i32) == Ok::<Chunk, Error>(
            (Chunk { bytes: f.blob, next: pos + frame_bytes(f).len() }),
        ),
{
    let h = f.header.len() as int;
    let b = f.blob.len() as int;
    let whole = frame_bytes(f);
    lemma_be_round_trip(h);
    assert(whole.len() == 4 + h + b);
    assert forall|i: int| 0 <= i < whole.len() implies stream[pos + i] == whole[i] by {
        assert(stream.subrange(pos, pos + whole.len())[i] == stream[pos + i]);
    }
    assert(stream.subrange(pos, pos + 4) =~= be_bytes(h)) by {
        assert forall|i: int| 0 <= i < 4 implies stream.subrange(pos, pos + 4)[i] == be_bytes(
            h,
        )[i] by {
            assert(whole[i] == be_bytes(h)[i]);
        }
    }
    assert(stream.subrange(pos + 4, pos + 4 + h) =~= f.header) by {
        assert forall|i: int| 0 <= i < h implies stream.subrange(pos + 4, pos + 4 + h)[i]
            == f.header[i] by {
            assert(whole[4 + i] == f.header[i]);
        }
    }
    assert(stream.subrange(pos + 4 + h, pos + 4 + h + b) =~= f.blob) by {
        assert forall|i: int| 0 <= i < b implies stream.subrange(pos + 4 + h, pos + 4 + h + b)[i]
            == f.blob[i] by {
            assert(whole[4 + h + i] == f.blob[i]);
        }
    }
}

/// The stream of the first `m` frames opens the stream of the first `n`,
/// for `m` up to `n`.
pub proof fn lemma_stream_prefix(frames: Seq<Frame>, m: int, n: int)
    requires
        0 <= m <= n,
    ensures
        stream_of(frames, m).len() <= stream_of(frames, n).len(),
        stream_of(frames, n).subrange(0, stream_of(frames, m).len() as int) == stream_of(
            frames,
            m,
        ),
    decreases n - m,
{
    if m == n {
        assert(stream_of(frames, n).subrange(0, stream_of(frames, n).len() as int) =~= stream_of(
            frames,
            n,
        ));
    } else {
        lemma_stream_prefix(frames, m, n - 1);
        let short = stream_of(frames, n - 1);
        let long = stream_of(frames, n);
        let k = stream_of(frames, m).len() as int;
        assert(long.subrange(0, k) =~= short.subrange(0, k));
    }
}

/// A stream of whole frames yields each frame in turn: at the place where
/// frame `k` begins, its header message is read, then its blob message,
/// and the cursor stands where frame `k + 1` begins.
pub proof fn lemma_stream_yields_frames(frames: Seq<Frame>, k: int)
    requires
        forall|i: int| 0 <= i < frames.len() ==> frame_fits(#[trigger] frames[i]),
        0 <= k < frames.len(),
    ensures
        ({
            let stream = stream_of(frames, frames.len() as int);
            let pos = stream_of(frames, k).len() as int;
            let f = frames[k];
            &&& header_step(stream, pos) == Ok::<Option<Chunk>, Error>(
                Some(Chunk { bytes: f.header, next: pos + 4 + f.header.len() }),
            )
            &&& blob_step(stream, pos + 4 + f.header.len(), f.blob.len() as i32) == Ok::<
                Chunk,
                Error,
            >(Chunk { bytes: f.blob, next: stream_of(frames, k + 1).len() as int })
        }),
{
    let stream = stream_of(frames, frames.len() as int);
    let pos = stream_of(frames, k).len() as int;
    let f = frames[k];
    lemma_stream_prefix(frames, k + 1, frames.len() as int);
    let upto = stream_of(frames, k + 1);
    assert(upto == stream_of(frames, k) + frame_bytes(f));
    assert(stream.subrange(pos, pos + frame_bytes(f).len()) =~= frame_bytes(f)) by {
        assert forall|i: int| 0 <= i < frame_bytes(f).len() implies stream.subrange(
            pos,
            pos + frame_bytes(f).len(),
        )[i] == frame_bytes(f)[i] by {
            assert(stream.subrange(0, upto.len() as int)[pos + i] == upto[pos + i]);
        }
    }
    lemma_frame_reads_back(stream, pos, f);
}

/// Behind the last frame of a stream of whole frames the stream ends in the
/// regular way: no header message, and no error.
pub proof fn lemma_stream_ends_cleanly(frames: Seq<Frame>)
    ensures
        header_step(
            stream_of(frames, frames.len() as int),
            stream_of(frames, frames.len() as int).len() as int,
        ) == Ok::<Option<Chunk>, Error>(None),
{
}

/// A stream of whole frames that lost its last byte still yields every
/// frame but the last as before. The last frame fails as truncated: at its
/// header message, or, where that is whole, at its blob message. It is
/// never mistaken for the regular end of the stream.
pub proof fn lemma_truncated_stream_fails(frames: Seq<Frame>, k: int)
    requires
        forall|i: int| 0 <= i < frames.len() ==> frame_fits(#[trigger] frames[i]),
        0 <= k < frames.len(),
    ensures
        ({
            let stream = stream_of(frames, frames.len() as int).drop_last();
            let pos = stream_of(frames, k).len() as int;
            let f = frames[k];
            let whole_header = Ok::<Option<Chunk>, Error>(
                Some(Chunk { bytes: f.header, next: pos + 4 + f.header.len() }),
            );
            if k < frames.len() - 1 {
                &&& header_step(stream, pos) == whole_header
                &&& blob_step(stream, pos + 4 + f.header.len(), f.blob.len() as i32) == Ok::<
                    Chunk,
                    Error,
                >(Chunk { bytes: f.blob, next: stream_of(frames, k + 1).len() as int })
            } else {
                ||| header_step(stream, pos) == Err::<Option<Chunk>, Error>(
                    Error::StreamTruncated,
                )
                ||| {
                    &&& header_step(stream, pos) == whole_header
                    &&& blob_step(stream, pos + 4 + f.header.len(), f.blob.len() as i32) == Err::<
                        Chunk,
                        Error,
                    >(Error::StreamTruncated)
                }
            }
        }),
{
    let n = frames.len() as int;
    let full = stream_of(frames, n);
    let stream = full.drop_last();
    let pos = stream_of(frames, k).len() as int;
    let f = frames[k];
    let h = f.header.len() as int;
    let b = f.blob.len() as int;
    lemma_stream_yields_frames(frames, k);
    lemma_stream_prefix(frames, k + 1, n);
    lemma_be_round_trip(h);
    assert(stream_of(frames, k + 1) == stream_of(frames, k) + frame_bytes(f));
    assert(frame_bytes(f).len() == 4 + h + b);
    assert(stream.len() == full.len() - 1);
    if k < n - 1 {
        lemma_stream_prefix(frames, k + 2, n);
        assert(stream_of(frames, k + 2) == stream_of(frames, k + 1) + frame_bytes(frames[k + 1]));
        assert(frame_bytes(frames[k + 1]).len() >= 4);
        assert(stream.subrange(pos, pos + 4) =~= full.subrange(pos, pos + 4));
        assert(stream.subrange(pos + 4, pos + 4 + h) =~= full.subrange(pos + 4, pos + 4 + h));
        assert(stream.subrange(pos + 4 + h, pos + 4 + h + b) =~= full.subrange(
            pos + 4 + h,
            pos + 4 + h + b,
        ));
    } else {
        assert(full.len() == pos + 4 + h + b);
        if h + b > 0 {
            assert(stream.subrange(pos, pos + 4) =~= full.subrange(pos, pos + 4));
            if b > 0 {
                assert(stream.subrange(pos + 4, pos + 4 + h) =~= full.subrange(
                    pos + 4,
                    pos + 4 + h,
                ));
            }
        }
    }
}

} // verus!
