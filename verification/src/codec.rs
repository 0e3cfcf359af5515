//! The line framing of raw carriers: each frame is one line of JSON text that
//! ends in a newline, and no line is longer than 16 MiB.

use crate::framed::{lines_error_of, map_lines_err, LinesError, TransportError};
use crate::framed::MAX_LENGTH;
use tokio_util::codec::Decoder;
use tokio_util::codec::Encoder;
use vstd::prelude::*;
use vstd::utf8::{encode_utf8, valid_utf8};

verus! {

/// A growable buffer of bytes from the `bytes` crate.
#[verifier::external_type_specification]
#[verifier::external_body]
pub struct ExBytesMut(bytes::BytesMut);

/// The bytes that a buffer holds, in order.
pub uninterp spec fn buffered(buffer: bytes::BytesMut) -> Seq<u8>;

/// Where the first line of `bytes` ends: the index of the first newline among
/// the first `limit` bytes, if there is one.
pub open spec fn line_end(bytes: Seq<u8>, limit: int) -> Option<int> {
    if exists|i: int| 0 <= i < limit && i < bytes.len() && bytes[i] == 10u8 {
        Some(
            choose|i: int|
                0 <= i < limit && i < bytes.len() && bytes[i] == 10u8 && forall|j: int|
                    0 <= j < i ==> bytes[j] != 10u8,
        )
    } else {
        None
    }
}

/// A line without the carriage return that it may end in.
pub open spec fn without_carriage_return(line: Seq<u8>) -> Seq<u8> {
    if line.len() > 0 && line.last() == 13u8 {
        line.drop_last()
    } else {
        line
    }
}

/// What is taken from the front of a buffer that holds `bytes`, and what stays
/// in the buffer.
///
/// Where a newline stands among the first `max_length + 1` bytes, the line
/// before it is taken, without its newline and carriage return, and the bytes
/// behind the newline stay; a line that is no UTF-8 is an error. Without such a
/// newline everything stays: more than `max_length` bytes are a line that is
/// too long, fewer are a line that is not complete yet.
pub open spec fn decoded(bytes: Seq<u8>, max_length: usize) -> (
    Result<Option<Seq<u8>>, LinesError>,
    Seq<u8>,
) {
    match line_end(bytes, max_length + 1) {
        Some(end) => {
            let line = without_carriage_return(bytes.take(end));
            if valid_utf8(line) {
                (Ok(Some(line)), bytes.skip(end + 1))
            } else {
                (Err(LinesError::InvalidUtf8), bytes.skip(end + 1))
            }
        },
        None => if bytes.len() > max_length {
            (Err(LinesError::MaxLineLengthExceeded), bytes)
        } else {
            (Ok(None), bytes)
        },
    }
}

/// A line that was written is read back: from a buffer that holds the bytes of
/// a line and its newline the line is taken whole, and nothing is left. This
/// holds of every UTF-8 line within the limit that holds no newline and does
/// not end in a carriage return.
pub proof fn lemma_written_line_is_read_back(line: Seq<u8>, max_length: usize)
    requires
        valid_utf8(line),
        line.len() <= max_length,
        forall|i: int| 0 <= i < line.len() ==> line[i] != 10u8,
        line.len() > 0 ==> line.last() != 13u8,
    ensures
        decoded(line + seq![10u8], max_length) == (
            Ok::<Option<Seq<u8>>, LinesError>(Some(line)),
            Seq::<u8>::empty(),
        ),
{
    let bytes = line + seq![10u8];
    let limit = max_length + 1;
    assert(bytes[line.len() as int] == 10u8);
    let end = choose|i: int|
        0 <= i < limit && i < bytes.len() && bytes[i] == 10u8 && forall|j: int|
            0 <= j < i ==> bytes[j] != 10u8;
    assert(0 <= line.len() < limit && line.len() < bytes.len() && bytes[line.len() as int] == 10u8
        && forall|j: int| 0 <= j < line.len() ==> bytes[j] != 10u8);
    if end < line.len() {
        assert(bytes[end] == line[end]);
    }
    assert(end == line.len());
    assert(bytes.take(end) =~= line);
    assert(bytes.skip(end + 1) =~= Seq::<u8>::empty());
}

/// Whether `line` is the text of what `outcome` says in bytes.
pub open spec fn line_matches(
    line: Result<Option<String>, LinesError>,
    outcome: Result<Option<Seq<u8>>, LinesError>,
) -> bool {
    match outcome {
        Ok(Some(bytes)) => line matches Ok(Some(text)) && encode_utf8(text@) == bytes,
        Ok(None) => line == Ok::<Option<String>, LinesError>(None),
        Err(error) => line == Err::<Option<String>, LinesError>(error),
    }
}

/// Takes one line from the front of `buffer` with a fresh
/// `tokio_util::codec::LinesCodec` of the given maximal length.
///
/// Trusted: a fresh codec searches the first `max_length + 1` bytes for a
/// newline. Where it finds one it cuts the line and the newline off the buffer
/// and returns the line without a trailing carriage return, or its UTF-8 error.
/// Where it finds none it leaves the buffer alone and reports a line that is
/// too long once the buffer holds more than `max_length` bytes.
#[verifier::external_body]
fn decode_line(buffer: &mut bytes::BytesMut, max_length: usize) -> (line: Result<
    Option<String>,
    LinesError,
>)
    ensures
        line_matches(line, decoded(buffered(*old(buffer)), max_length).0),
        buffered(*final(buffer)) == decoded(buffered(*old(buffer)), max_length).1,
{
    match tokio_util::codec::LinesCodec::new_with_max_length(max_length).decode(buffer) {
        Ok(line) => Ok(line),
        Err(tokio_util::codec::LinesCodecError::MaxLineLengthExceeded) => Err(
            LinesError::MaxLineLengthExceeded,
        ),
        Err(tokio_util::codec::LinesCodecError::Io(_)) => Err(LinesError::InvalidUtf8),
    }
}

/// Appends `line` and a newline to `buffer` with
/// `tokio_util::codec::LinesCodec::encode`.
///
/// Trusted: the codec appends the bytes of the line and one newline, and never
/// fails.
#[verifier::external_body]
fn encode_line(line: String, buffer: &mut bytes::BytesMut)
    ensures
        buffered(*final(buffer)) == buffered(*old(buffer)) + encode_utf8(line@) + seq![10u8],
{
    let _ = tokio_util::codec::LinesCodec::new().encode(line, buffer);
}

/// Makes an empty buffer with `bytes::BytesMut::new`.
///
/// Trusted: a new buffer holds no bytes.
#[verifier::external_body]
fn new_buffer() -> (buffer: bytes::BytesMut)
    ensures
        buffered(buffer) == Seq::<u8>::empty(),
{
    bytes::BytesMut::new()
}

/// The codec of raw carriers: it splits what arrives into lines of at most
/// 16 MiB and ends each line it writes with a newline. What a line says is
/// JSON; reading it is not this codec's business.
#[derive(Debug, PartialEq)]
pub struct ShrubCodec {
    max_length: usize,
}

impl ShrubCodec {
    /// The longest line this codec accepts.
    pub closed spec fn limit(&self) -> usize {
        self.max_length
    }

    /// A codec with the limit of 16 MiB.
    pub fn new() -> (codec: Self)
        ensures
            codec.limit() == MAX_LENGTH,
    {
        ShrubCodec { max_length: MAX_LENGTH }
    }

    /// An empty buffer to write lines to or to collect input in.
    pub fn buffer() -> (buffer: bytes::BytesMut)
        ensures
            buffered(buffer) == Seq::<u8>::empty(),
    {
        new_buffer()
    }

    /// Takes the next line off the front of `src`: `Ok(None)` where no line is
    /// complete yet, an error of kind `InvalidData` where the line is longer
    /// than the limit or no UTF-8. Every error is fatal to the connection.
    pub fn decode(&mut self, src: &mut bytes::BytesMut) -> (line: Result<
        Option<String>,
        TransportError,
    >)
        ensures
            final(self).limit() == old(self).limit(),
            buffered(*final(src)) == decoded(buffered(*old(src)), old(self).limit()).1,
            match decoded(buffered(*old(src)), old(self).limit()).0 {
                Ok(Some(bytes)) => line matches Ok(Some(text)) && encode_utf8(text@) == bytes,
                Ok(None) => line == Ok::<Option<String>, TransportError>(None),
                Err(error) => line matches Err(mapped) && mapped@ == lines_error_of(error),
            },
    {
        match decode_line(src, self.max_length) {
            Ok(line) => Ok(line),
            Err(error) => Err(map_lines_err(error)),
        }
    }

    /// Appends `line` and its newline to `dst`.
    pub fn encode(&mut self, line: String, dst: &mut bytes::BytesMut) -> (written: Result<
        (),
        TransportError,
    >)
        ensures
            final(self).limit() == old(self).limit(),
            written is Ok,
            buffered(*final(dst)) == buffered(*old(dst)) + encode_utf8(line@) + seq![10u8],
    {
        encode_line(line, dst);
        Ok(())
    }
}

} // verus!
