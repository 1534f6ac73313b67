//! The block stream: framing, unpacking and classifying of blocks.
//!
//! A stream is a run of frames. A frame is four bytes that give, high byte
//! first, the length of a header message; the header message; and a blob
//! message of the length that the header names. The stream ends where a
//! frame would begin and no byte is left.

use crate::error::Error;
use crate::proto::items::{Blob, BlobHeader, Data, HeaderBlock, PrimitiveBlock};
use vstd::prelude::*;
use vstd::string::StringSliceAdditionalSpecFns;
use vstd::utf8::{decode_utf8, valid_utf8};

pub mod items;
pub mod reader;

pub use reader::FileBlockIterator;

verus! {

/// A decoded block: the one that opens a file, or one that carries elements.
#[derive(Clone, Debug, PartialEq, Eq)]
pub enum FileBlock {
    Header(HeaderBlock),
    Primitive(PrimitiveBlock),
}

/// The two kinds of block.
#[derive(Clone, Copy, Debug, PartialEq, Eq, Structural)]
pub enum BlockKind {
    /// The block that opens a file.
    Header,
    /// A block that carries elements.
    Primitive,
}

/// The strings that the byte strings of a string table stand for: each is
/// read as UTF-8, and one that is not UTF-8 spoils the table.
pub open spec fn string_table(s: Seq<Vec<u8>>) -> Result<Seq<Seq<char>>, Error> {
    if forall|i: int| 0 <= i < s.len() ==> valid_utf8(#[trigger] s[i]@) {
        Ok(Seq::new(s.len(), |i: int| decode_utf8(s[i]@)))
    } else {
        Err(Error::InvalidUtf8InStringTable)
    }
}

/// Reads bytes as UTF-8 with `std::str::from_utf8`. The string is there if
/// and only if the bytes are UTF-8, and then it is made of exactly these
/// bytes.
#[verifier::external_body]
fn str_from_utf8(bytes: &[u8]) -> (res: Option<&str>)
    ensures
        res is Some <==> valid_utf8(bytes@),
        res matches Some(s) ==> s.spec_bytes() == bytes@,
{
    match std::str::from_utf8(bytes) {
        Ok(s) => Some(s),
        Err(_) => None,
    }
}

/// Reads the string table of a data block.
pub fn parse_str_tbl(pb: &PrimitiveBlock) -> (res: Result<Vec<String>, Error>)
    ensures
        match res {
            Ok(st) => string_table(pb.stringtable.s@) == Ok::<Seq<Seq<char>>, Error>(
                st.deep_view(),
            ),
            Err(e) => string_table(pb.stringtable.s@) == Err::<Seq<Seq<char>>, Error>(e),
        },
{
    let table = &pb.stringtable.s;
    let mut st: Vec<String> = Vec::with_capacity(table.len());
    let mut i: usize = 0;
    while i < table.len()
        invariant
            table == &pb.stringtable.s,
            0 <= i <= table.len(),
            st.len() == i,
            forall|m: int| 0 <= m < i ==> valid_utf8(#[trigger] table@[m]@),
            forall|m: int| 0 <= m < i ==> (#[trigger] st[m])@ == decode_utf8(table@[m]@),
        decreases table.len() - i,
    {
        match str_from_utf8(table[i].as_slice()) {
            Some(s) => {
                proof {
                    vstd::utf8::encode_utf8_decode_utf8(s@);
                }
                st.push(s.to_owned());
            },
            None => {
                assert(!valid_utf8(table@[i as int]@));
                return Err(Error::InvalidUtf8InStringTable);
            },
        }
        i += 1;
    }
    assert(st.deep_view() =~= string_table(pb.stringtable.s@).unwrap());
    Ok(st)
}

/// How an inflation ended.
#[derive(Clone, Copy, Debug, PartialEq, Eq, Structural)]
pub enum InflateStatus {
    /// The stream is not at its end: input or room for output ran out.
    Unfinished,
    /// No progress was possible.
    BufError,
    /// The stream ended and its checksum matched.
    StreamEnd,
    /// The input is no zlib stream.
    Failed,
}

/// What inflating a zlib stream into a buffer of a given size gave.
#[derive(Clone, Debug, PartialEq, Eq)]
pub struct Inflated {
    pub status: InflateStatus,
    /// The number of input bytes that were read.
    pub consumed: u64,
    /// The number of output bytes that were written.
    pub produced: u64,
    /// The whole buffer, written or not.
    pub output: Vec<u8>,
}

/// What an [`Inflated`] holds.
pub ghost struct InflatedView {
    pub status: InflateStatus,
    pub consumed: u64,
    pub produced: u64,
    pub output: Seq<u8>,
}

impl View for Inflated {
    type V = InflatedView;

    open spec fn view(&self) -> InflatedView {
        InflatedView {
            status: self.status,
            consumed: self.consumed,
            produced: self.produced,
            output: self.output@,
        }
    }
}

/// What flate2 gives for one call that inflates the zlib stream `input`
/// into a zeroed buffer of `size` bytes and is told that no more input
/// follows.
pub uninterp spec fn zlib_inflate(input: Seq<u8>, size: nat) -> InflatedView;

/// Inflates `input` with flate2: a fresh `Decompress` that expects a zlib
/// header, one call of `Decompress::decompress` with `FlushDecompress::Finish`
/// on a zeroed buffer of `size` bytes, then `total_in` and `total_out`.
/// The result is a function of the input and the size alone, and the buffer
/// keeps its size.
#[verifier::external_body]
fn inflate(input: &Vec<u8>, size: usize) -> (res: Inflated)
    ensures
        res@ == zlib_inflate(input@, size as nat),
        res.output@.len() == size,
{
    let mut output = vec![0u8; size];
    let mut stream = flate2::Decompress::new(true);
    let status = match stream.decompress(input, &mut output, flate2::FlushDecompress::Finish) {
        Ok(flate2::Status::Ok) => InflateStatus::Unfinished,
        Ok(flate2::Status::BufError) => InflateStatus::BufError,
        Ok(flate2::Status::StreamEnd) => InflateStatus::StreamEnd,
        Err(_) => InflateStatus::Failed,
    };
    Inflated { status, consumed: stream.total_in(), produced: stream.total_out(), output }
}

/// The number of bytes that a blob says it unpacks to: none where the blob
/// names no size, and no number at all where it names a negative one.
pub open spec fn declared_size(raw_size: Option<i32>) -> Option<nat> {
    match raw_size {
        None => Some(0nat),
        Some(n) => if n >= 0 {
            Some(n as nat)
        } else {
            None
        },
    }
}

/// The block that an inflation gives: the buffer, if the stream ended, all
/// of the input was read and the buffer was filled to the last byte.
pub open spec fn checked_inflation(r: InflatedView, input_len: nat, size: nat) -> Result<
    Seq<u8>,
    Error,
> {
    if r.status == InflateStatus::StreamEnd && r.consumed == input_len && r.produced == size {
        Ok(r.output)
    } else {
        Err(Error::DecompressionSizeMismatch)
    }
}

/// The bytes of the block that a blob holds.
///
/// A raw payload is the block. A zlib payload is inflated into a buffer of
/// the declared size and must fill it exactly. Any other payload, or none,
/// is not supported.
pub open spec fn decompressed(b: Blob) -> Result<Seq<u8>, Error> {
    match b.data {
        Some(Data::Raw(x)) => Ok(x@),
        Some(Data::ZlibData(x)) => match declared_size(b.raw_size) {
            None => Err(Error::DecompressionSizeMismatch),
            Some(size) => checked_inflation(zlib_inflate(x@, size), x@.len(), size),
        },
        _ => Err(Error::UnsupportedCompression),
    }
}

/// Accepts an inflation if it read `input_len` bytes, wrote `size` bytes and
/// reached the end of the stream, and hands out its buffer.
pub fn check_inflated(r: Inflated, input_len: usize, size: usize) -> (res: Result<Vec<u8>, Error>)
    ensures
        match res {
            Ok(bytes) => checked_inflation(r@, input_len as nat, size as nat) == Ok::<
                Seq<u8>,
                Error,
            >(bytes@),
            Err(e) => checked_inflation(r@, input_len as nat, size as nat) == Err::<
                Seq<u8>,
                Error,
            >(e),
        },
{
    let ended = match r.status {
        InflateStatus::StreamEnd => true,
        _ => false,
    };
    if ended && r.consumed == input_len as u64 && r.produced == size as u64 {
        Ok(r.output)
    } else {
        Err(Error::DecompressionSizeMismatch)
    }
}

/// Unpacks a blob into the bytes of its block.
pub fn decompress(b: Blob) -> (res: Result<Vec<u8>, Error>)
    ensures
        match res {
            Ok(bytes) => decompressed(b) == Ok::<Seq<u8>, Error>(bytes@),
            Err(e) => decompressed(b) == Err::<Seq<u8>, Error>(e),
        },
{
    match b.data {
        Some(Data::Raw(x)) => Ok(x),
        Some(Data::ZlibData(x)) => {
            let size: usize = match b.raw_size {
                None => 0,
                Some(n) => {
                    if n < 0 {
                        return Err(Error::DecompressionSizeMismatch);
                    }
                    n as usize
                },
            };
            check_inflated(inflate(&x, size), x.len(), size)
        },
        _ => Err(Error::UnsupportedCompression),
    }
}

/// The kind of block that a header's type string names.
pub open spec fn block_kind(kind: Seq<char>) -> Result<BlockKind, Error> {
    if kind == "OSMHeader"@ {
        Ok(BlockKind::Header)
    } else if kind == "OSMData"@ {
        Ok(BlockKind::Primitive)
    } else {
        Err(Error::UnrecognizedBlockType)
    }
}

/// Tells from a blob's header which kind of block the blob holds.
pub fn classify(h: &BlobHeader) -> (res: Result<BlockKind, Error>)
    ensures
        res == block_kind(h.kind@),
{
    if h.kind == String::from_str("OSMHeader") {
        Ok(BlockKind::Header)
    } else if h.kind == String::from_str("OSMData") {
        Ok(BlockKind::Primitive)
    } else {
        Err(Error::UnrecognizedBlockType)
    }
}

/// A block ready for its message decoder: its kind and its bytes.
pub ghost struct RawBlock {
    pub kind: BlockKind,
    pub bytes: Seq<u8>,
}

/// The kind and the bytes of the block in a blob. A blob that cannot be
/// unpacked is reported before a header that names an unknown kind.
pub open spec fn decoded_blob(b: Blob, h: BlobHeader) -> Result<RawBlock, Error> {
    match decompressed(b) {
        Err(e) => Err(e),
        Ok(bytes) => match block_kind(h.kind@) {
            Err(e) => Err(e),
            Ok(kind) => Ok(RawBlock { kind, bytes }),
        },
    }
}

/// Unpacks a blob and tells which kind of block its bytes are.
pub fn decode_blob(b: Blob, h: BlobHeader) -> (res: Result<(BlockKind, Vec<u8>), Error>)
    ensures
        match res {
            Ok((kind, bytes)) => decoded_blob(b, h) == Ok::<RawBlock, Error>(
                (RawBlock { kind, bytes: bytes@ }),
            ),
            Err(e) => decoded_blob(b, h) == Err::<RawBlock, Error>(e),
        },
{
    let bytes = match decompress(b) {
        Ok(bytes) => bytes,
        Err(e) => {
            return Err(e);
        },
    };
    match classify(&h) {
        Ok(kind) => Ok((kind, bytes)),
        Err(e) => Err(e),
    }
}

} // verus!
