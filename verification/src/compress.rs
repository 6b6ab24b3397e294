//! Compression for sync messages using zstd.
//!
//! This module provides optional compression to reduce bandwidth
//! when syncing changes between peers.

use bytes::{Bytes, BytesMut};
use crate::common;
use crate::common::decimal_text;
use crate::ext::byte_buf;
use crate::ext::byte_buf::bytes_from_vec;
use crate::ext::zstd_bulk;
use crate::ext::zstd_bulk::{zstd_compress, zstd_decompress};
use crate::ext::Outcome;
use crate::protocol;
use crate::protocol::write_header;
use vstd::prelude::*;

verus! {

/// The most that is decompressed where no size is expected (10MB).
pub const DEFAULT_MAX_OUTPUT: usize = 10 * 1024 * 1024;

/// Compression configuration.
#[derive(Debug, Clone, Copy, PartialEq, Eq, Structural)]
pub struct CompressionConfig {
    /// Enable compression
    pub enabled: bool,
    /// Compression level (1-22, default 3)
    pub level: i32,
    /// Minimum size to compress (bytes)
    pub min_size: usize,
}

impl Default for CompressionConfig {
    fn default() -> (c: Self)
        ensures
            c == (CompressionConfig { enabled: true, level: 3, min_size: 64 }),
    {
        CompressionConfig { enabled: true, level: 3, min_size: 64 }
    }
}

impl CompressionConfig {
    /// Create a new config with default values.
    pub fn new() -> (c: Self)
        ensures
            c == (CompressionConfig { enabled: true, level: 3, min_size: 64 }),
    {
        CompressionConfig::default()
    }

    /// Enable or disable compression.
    pub fn with_enabled(self, enabled: bool) -> (c: Self)
        ensures
            c == (CompressionConfig { enabled, ..self }),
    {
        CompressionConfig { enabled, ..self }
    }

    /// Set the compression level (1-22).
    pub fn with_level(self, level: i32) -> (c: Self)
        ensures
            c == (CompressionConfig {
                level: if level < 1 {
                    1
                } else if level > 22 {
                    22
                } else {
                    level
                },
                ..self
            }),
    {
        let level: i32 = if level < 1 {
            1
        } else if level > 22 {
            22
        } else {
            level
        };
        CompressionConfig { level, ..self }
    }

    /// Set the minimum size to compress.
    pub fn with_min_size(self, size: usize) -> (c: Self)
        ensures
            c == (CompressionConfig { min_size: size, ..self }),
    {
        CompressionConfig { min_size: size, ..self }
    }
}

/// Compression result with metadata.
#[derive(Debug)]
pub struct CompressedData {
    /// The compressed data
    pub data: Bytes,
    /// Original size before compression
    pub original_size: usize,
    /// Whether compression was applied
    pub compressed: bool,
}

/// Compression error types.
#[derive(Debug)]
pub enum CompressionError {
    /// Decompression failed
    DecompressionFailed(String),
    /// Invalid data format
    InvalidData(String),
    /// Output buffer too small
    BufferTooSmall(usize, usize),
}

impl CompressionError {
    /// The text of the error for a reader.
    pub open spec fn text(self) -> Seq<char> {
        match self {
            CompressionError::DecompressionFailed(s) => "decompression failed: "@ + s@,
            CompressionError::InvalidData(s) => "invalid data: "@ + s@,
            CompressionError::BufferTooSmall(needed, got) => "buffer too small: needed "@
                + common::decimal(needed as nat) + ", got "@ + common::decimal(got as nat),
        }
    }

    /// Write the error out for a reader.
    pub fn message(&self) -> (s: String)
        ensures
            s@ == self.text(),
    {
        match self {
            CompressionError::DecompressionFailed(s) => "decompression failed: ".to_owned().concat(
                s.as_str(),
            ),
            CompressionError::InvalidData(s) => "invalid data: ".to_owned().concat(s.as_str()),
            CompressionError::BufferTooSmall(needed, got) => "buffer too small: needed ".to_owned()
                .concat(decimal_text(*needed).as_str()).concat(", got ").concat(
                decimal_text(*got).as_str(),
            ),
        }
    }
}

/// Whether data is to be compressed at all: compression is on, the data is not too small,
/// and the buffer for the frame is no more than a vector can have.
pub open spec fn worth_compressing(data: Seq<u8>, config: CompressionConfig) -> bool {
    config.enabled && data.len() >= config.min_size && zstd_bulk::has_room(data.len() as int)
}

/// Data as it is, uncompressed.
pub open spec fn is_plain(r: CompressedData, data: Seq<u8>) -> bool {
    &&& !r.compressed
    &&& byte_buf::bytes_of(r.data) == data
    &&& r.original_size == data.len()
}

/// Data in a frame.
pub open spec fn is_framed(r: CompressedData, data: Seq<u8>, frame: Seq<u8>) -> bool {
    &&& r.compressed
    &&& byte_buf::bytes_of(r.data) == frame
    &&& r.original_size == data.len()
}

/// Data in a frame, if that is smaller, and as it is otherwise.
pub open spec fn is_smaller_of(r: CompressedData, data: Seq<u8>, frame: Seq<u8>) -> bool {
    if frame.len() < data.len() {
        is_framed(r, data, frame)
    } else {
        is_plain(r, data)
    }
}

/// Use the frame that the compressor made, if it made one and it is smaller than the
/// data.
pub fn smaller_of(data: &[u8], frame: Option<Vec<u8>>) -> (r: CompressedData)
    ensures
        match frame {
            Some(f) => is_smaller_of(r, data@, f@),
            None => is_plain(r, data@),
        },
{
    let original_size: usize = data.len();
    match frame {
        Some(f) => {
            if f.len() < original_size {
                return CompressedData { data: bytes_from_vec(f), original_size, compressed: true };
            }
        },
        None => {},
    }
    CompressedData { data: Bytes::copy_from_slice(data), original_size, compressed: false }
}

/// Compress data using zstd.
///
/// Data that is too small, or that would not become smaller, is left as it is, and so
/// is all data if compression is off.
pub fn compress(data: &[u8], config: &CompressionConfig) -> (r: CompressedData)
    ensures
        worth_compressing(data@, *config) ==> exists|frame: Seq<u8>| #[trigger]
            zstd_bulk::zstd_writes(data@, config.level as int, frame) && is_smaller_of(
                r,
                data@,
                frame,
            ),
        !worth_compressing(data@, *config) ==> is_plain(r, data@),
        r.compressed ==> zstd_bulk::holds(byte_buf::bytes_of(r.data), data@),
{
    let len: usize = data.len();
    let most: usize = isize::MAX as usize;
    if !config.enabled || len < config.min_size || len > most - 64 - len / 256 {
        return smaller_of(data, None);
    }
    let frame = zstd_compress(data, config.level);
    smaller_of(data, Some(frame))
}

/// How much is decompressed at most where a size is expected: no more than that, and no
/// more than a vector can hold.
pub open spec fn output_limit(expected: int) -> int {
    if expected > isize::MAX {
        isize::MAX as int
    } else {
        expected
    }
}

/// Decompress zstd-compressed data.
///
/// Fails if the data is not a valid frame, or holds more than the expected size; more
/// than 10MB, if no size is expected.
pub fn decompress(data: &[u8], expected_size: Option<usize>) -> (r: Result<Bytes, CompressionError>)
    ensures
        ({
            let limit = output_limit(
                if expected_size is Some {
                    expected_size->0 as int
                } else {
                    DEFAULT_MAX_OUTPUT as int
                },
            );
            let content = zstd_bulk::zstd_content(data@, limit, usize::BITS as int);
            match r {
                Ok(b) => {
                    &&& content == Outcome::Value(byte_buf::bytes_of(b))
                    &&& byte_buf::bytes_of(b).len() <= limit
                },
                Err(e) => {
                    &&& e is DecompressionFailed
                    &&& content == Outcome::<Seq<u8>>::Failure(e->DecompressionFailed_0@)
                },
            }
        }),
{
    let output_size: usize = match expected_size {
        Some(n) => n,
        None => DEFAULT_MAX_OUTPUT,
    };
    let limit: usize = if output_size > isize::MAX as usize {
        isize::MAX as usize
    } else {
        output_size
    };
    match zstd_decompress(data, limit) {
        Ok(output) => Ok(bytes_from_vec(output)),
        Err(text) => Err(CompressionError::DecompressionFailed(text)),
    }
}

/// The message of data as it is: a zero byte, then the data.
pub open spec fn plain_message(data: Seq<u8>) -> Seq<u8> {
    seq![0u8] + data
}

/// The message of data in a frame: a one byte, the size of the data in four bytes,
/// highest byte first, then the frame.
pub open spec fn framed_message(size: int, frame: Seq<u8>) -> Seq<u8> {
    seq![1u8] + protocol::be_bytes((size % 0x1_0000_0000) as u32) + frame
}

/// What decoding a message comes to.
pub enum Decoded {
    /// This data
    Data(Seq<u8>),
    /// The message has no header byte
    Empty,
    /// The message is compressed and ends before the frame
    Truncated,
    /// The frame is not valid or holds more than the message says, for a reason
    BadFrame(Seq<char>),
}

/// What comes of decoding a message. The lowest bit of the first byte says whether the
/// data is compressed.
pub open spec fn decoded(message: Seq<u8>) -> Decoded {
    if message.len() == 0 {
        Decoded::Empty
    } else if message[0] % 2 == 0 {
        Decoded::Data(message.skip(1))
    } else if message.len() < 5 {
        Decoded::Truncated
    } else {
        match zstd_bulk::zstd_content(
            message.skip(5),
            output_limit(protocol::be_value(message.subrange(1, 5))),
            usize::BITS as int,
        ) {
            Outcome::Value(data) => Decoded::Data(data),
            Outcome::Failure(reason) => Decoded::BadFrame(reason),
        }
    }
}

/// Decoding a message of data as it is gives the data.
pub proof fn plain_roundtrip(data: Seq<u8>)
    ensures
        decoded(plain_message(data)) == Decoded::Data(data),
{
    assert(plain_message(data).skip(1) =~= data);
}

/// Decoding a message of data in a frame gives the data, for a frame that holds it and
/// a size that fits in four bytes.
pub proof fn framed_roundtrip(data: Seq<u8>, frame: Seq<u8>)
    requires
        zstd_bulk::holds(frame, data),
        data.len() < 0x1_0000_0000,
        data.len() <= isize::MAX,
    ensures
        decoded(framed_message(data.len() as int, frame)) == Decoded::Data(data),
{
    let message = framed_message(data.len() as int, frame);
    assert(message.skip(5) =~= frame);
    assert(message.subrange(1, 5) =~= protocol::be_bytes(data.len() as u32));
    protocol::lemma_be_bytes(data.len() as u32);
}

/// The message of data in a frame, if that is smaller, and of data as it is otherwise.
pub open spec fn smaller_message(data: Seq<u8>, frame: Seq<u8>) -> Seq<u8> {
    if frame.len() < data.len() {
        framed_message(data.len() as int, frame)
    } else {
        plain_message(data)
    }
}

/// Write the message of data that was compressed, or left as it is.
pub fn message_of(c: &CompressedData) -> (r: BytesMut)
    ensures
        byte_buf::bytes_mut_of(r) == if c.compressed {
            framed_message(c.original_size as int, byte_buf::bytes_of(c.data))
        } else {
            plain_message(byte_buf::bytes_of(c.data))
        },
{
    let mut result = BytesMut::new();
    if c.compressed {
        result.extend_from_slice([1u8].as_slice());
        result.extend_from_slice(write_header(c.original_size).as_slice());
    } else {
        result.extend_from_slice([0u8].as_slice());
    }
    result.extend_from_slice(c.data.as_ref());
    proof {
        let data = byte_buf::bytes_of(c.data);
        if c.compressed {
            assert(byte_buf::bytes_mut_of(result) =~= framed_message(c.original_size as int, data));
        } else {
            assert(byte_buf::bytes_mut_of(result) =~= plain_message(data));
        }
    }
    result
}

/// Encode a message with optional compression.
///
/// Decoding the message gives the data back, if its size fits in four bytes and in a
/// vector.
pub fn encode_compressed(data: &[u8], config: &CompressionConfig) -> (r: BytesMut)
    ensures
        worth_compressing(data@, *config) ==> exists|frame: Seq<u8>| #[trigger]
            zstd_bulk::zstd_writes(data@, config.level as int, frame) && byte_buf::bytes_mut_of(r)
                == smaller_message(data@, frame),
        !worth_compressing(data@, *config) ==> byte_buf::bytes_mut_of(r) == plain_message(data@),
        data@.len() < 0x1_0000_0000 && data@.len() <= isize::MAX ==> decoded(
            byte_buf::bytes_mut_of(r),
        ) == Decoded::Data(data@),
{
    let compressed = compress(data, config);
    let result = message_of(&compressed);
    proof {
        if compressed.compressed {
            if data@.len() < 0x1_0000_0000 && data@.len() <= isize::MAX {
                framed_roundtrip(data@, byte_buf::bytes_of(compressed.data));
            }
        } else {
            plain_roundtrip(data@);
        }
        if worth_compressing(data@, *config) {
            let frame = choose|frame: Seq<u8>| #[trigger]
                zstd_bulk::zstd_writes(data@, config.level as int, frame) && is_smaller_of(
                    compressed,
                    data@,
                    frame,
                );
            assert(zstd_bulk::zstd_writes(data@, config.level as int, frame));
            assert(byte_buf::bytes_mut_of(result) == smaller_message(data@, frame));
        }
    }
    result
}

/// Decode a message with optional decompression.
pub fn decode_compressed(data: &[u8]) -> (r: Result<Bytes, CompressionError>)
    ensures
        match decoded(data@) {
            Decoded::Data(d) => r is Ok && byte_buf::bytes_of(r->Ok_0) == d,
            Decoded::Empty => r is Err && r->Err_0 is InvalidData && r->Err_0->InvalidData_0@
                == "empty data"@,
            Decoded::Truncated => r is Err && r->Err_0 is InvalidData && r->Err_0->InvalidData_0@
                == "truncated compressed data"@,
            Decoded::BadFrame(reason) => r is Err && r->Err_0 is DecompressionFailed
                && r->Err_0->DecompressionFailed_0@ == reason,
        },
{
    if data.is_empty() {
        return Err(CompressionError::InvalidData("empty data".to_owned()));
    }
    if data[0] % 2 == 1 {
        if data.len() < 5 {
            return Err(CompressionError::InvalidData("truncated compressed data".to_owned()));
        }
        let size: u32 = data[1] as u32 * 0x100_0000 + data[2] as u32 * 0x1_0000 + data[3] as u32
            * 0x100 + data[4] as u32;
        let frame = vstd::slice::slice_subrange(data, 5, data.len());
        assert(frame@ =~= data@.skip(5));
        decompress(frame, Some(size as usize))
    } else {
        let plain = vstd::slice::slice_subrange(data, 1, data.len());
        assert(plain@ =~= data@.skip(1));
        Ok(Bytes::copy_from_slice(plain))
    }
}

/// The message of data: one byte that says whether it is compressed; if it is, the size of
/// the data in four bytes, highest byte first; then the data, compressed or as it is.
pub proof fn message_says_whether_it_is_compressed(c: CompressedData, r: BytesMut)
    requires
        call_ensures(message_of, (&c,), r),
        c.original_size < 0x1_0000_0000,
    ensures
        ({
            let m = byte_buf::bytes_mut_of(r);
            let d = byte_buf::bytes_of(c.data);
            &&& !c.compressed ==> m.len() == 1 + d.len() && m[0] == 0 && m.skip(1) == d
            &&& c.compressed ==> {
                &&& m.len() == 5 + d.len()
                &&& m[0] == 1
                &&& m[1] * 0x100_0000 + m[2] * 0x1_0000 + m[3] * 0x100 + m[4] == c.original_size
                &&& m.skip(5) == d
            }
        }),
{
    let m = byte_buf::bytes_mut_of(r);
    let d = byte_buf::bytes_of(c.data);
    if c.compressed {
        let head = protocol::be_bytes(c.original_size as u32);
        protocol::lemma_be_bytes(c.original_size as u32);
        assert(m[1] == head[0] && m[2] == head[1] && m[3] == head[2] && m[4] == head[3]);
        assert(m.skip(5) =~= d);
    } else {
        assert(m.skip(1) =~= d);
    }
}

/// What compression does to data: it is made smaller or left as it is, and says which; its
/// size is kept. Data that is smaller than asked for is left as it is, and so is all data
/// where compression is off; of other data the compressor's frame is taken if it is smaller.
/// What was compressed can be decompressed to the data.
pub proof fn data_is_made_smaller_or_left(
    data: &[u8],
    config: CompressionConfig,
    r: CompressedData,
)
    requires
        call_ensures(compress, (data, &config), r),
    ensures
        r.original_size == data@.len(),
        !r.compressed ==> byte_buf::bytes_of(r.data) == data@,
        r.compressed ==> byte_buf::bytes_of(r.data).len() < data@.len(),
        r.compressed ==> zstd_bulk::holds(byte_buf::bytes_of(r.data), data@),
        r.compressed ==> zstd_bulk::zstd_writes(
            data@,
            config.level as int,
            byte_buf::bytes_of(r.data),
        ),
        !config.enabled ==> !r.compressed,
        data@.len() < config.min_size ==> !r.compressed,
        config.enabled && data@.len() >= config.min_size && data@.len() + data@.len() / 256 + 64
            <= isize::MAX && !r.compressed ==> exists|frame: Seq<u8>| #[trigger]
            zstd_bulk::zstd_writes(data@, config.level as int, frame) && frame.len() >= data@.len(),
{
}

/// Decoding a message gives back the data that was encoded, compressed or not.
pub proof fn decoding_undoes_encoding(
    data: &[u8],
    config: CompressionConfig,
    message: BytesMut,
    received: &[u8],
    r: Result<Bytes, CompressionError>,
)
    requires
        call_ensures(encode_compressed, (data, &config), message),
        received@ == byte_buf::bytes_mut_of(message),
        call_ensures(decode_compressed, (received,), r),
        data@.len() < 0x1_0000_0000,
        data@.len() <= isize::MAX,
    ensures
        r is Ok,
        byte_buf::bytes_of(r->Ok_0) == data@,
{
}

/// Which messages are refused: those without a first byte, those that are compressed and
/// end before the size does, and those whose frame cannot be decompressed into as many
/// bytes as they say.
pub proof fn broken_messages_are_refused(data: &[u8], r: Result<Bytes, CompressionError>)
    requires
        call_ensures(decode_compressed, (data,), r),
    ensures
        data@.len() == 0 ==> r is Err && r->Err_0 is InvalidData && r->Err_0->InvalidData_0@
            == "empty data"@,
        data@.len() > 0 && data@[0] % 2 == 0 ==> r is Ok && byte_buf::bytes_of(r->Ok_0)
            == data@.skip(1),
        0 < data@.len() < 5 && data@[0] % 2 == 1 ==> r is Err && r->Err_0 is InvalidData
            && r->Err_0->InvalidData_0@ == "truncated compressed data"@,
        data@.len() >= 5 && data@[0] % 2 == 1 && data@[1] < 128 ==> {
            let size = data@[1] * 0x100_0000 + data@[2] * 0x1_0000 + data@[3] * 0x100 + data@[4];
            let content = zstd_bulk::zstd_content(data@.skip(5), size, usize::BITS as int);
            &&& r is Ok <==> content is Value
            &&& r is Ok ==> byte_buf::bytes_of(r->Ok_0) == content->Value_0
            &&& r is Err ==> r->Err_0 is DecompressionFailed
        },
{
    if data@.len() >= 5 {
        let head = data@.subrange(1, 5);
        assert(head[0] == data@[1] && head[1] == data@[2] && head[2] == data@[3] && head[3]
            == data@[4]);
    }
}

/// Decompressing gives what the data holds, up to the expected size, and up to ten megabytes
/// where none is expected.
pub proof fn decompression_has_a_limit(
    data: &[u8],
    expected: usize,
    r: Result<Bytes, CompressionError>,
    unexpected: Result<Bytes, CompressionError>,
)
    requires
        call_ensures(decompress, (data, Some(expected)), r),
        call_ensures(decompress, (data, None), unexpected),
        expected <= isize::MAX,
    ensures
        r is Ok ==> byte_buf::bytes_of(r->Ok_0).len() <= expected,
        r is Ok <==> zstd_bulk::zstd_content(data@, expected as int, usize::BITS as int) is Value,
        r is Ok ==> byte_buf::bytes_of(r->Ok_0) == zstd_bulk::zstd_content(
            data@,
            expected as int,
            usize::BITS as int,
        )->Value_0,
        unexpected is Ok ==> byte_buf::bytes_of(unexpected->Ok_0).len() <= 10_485_760,
        unexpected is Ok <==> zstd_bulk::zstd_content(data@, 10_485_760, usize::BITS as int) is Value,
{
}

/// The compression that is set up where nothing else is asked for: on, at level three, from
/// sixty-four bytes on. A level is brought between one and twenty-two.
pub proof fn default_compression(
    c: CompressionConfig,
    level: i32,
    levelled: CompressionConfig,
    size: usize,
    sized: CompressionConfig,
    on: bool,
    switched: CompressionConfig,
)
    requires
        call_ensures(CompressionConfig::new, (), c) || call_ensures(
            CompressionConfig::default,
            (),
            c,
        ),
        call_ensures(CompressionConfig::with_level, (c, level), levelled),
        call_ensures(CompressionConfig::with_min_size, (c, size), sized),
        call_ensures(CompressionConfig::with_enabled, (c, on), switched),
    ensures
        c.enabled,
        c.level == 3,
        c.min_size == 64,
        1 <= levelled.level <= 22,
        1 <= level <= 22 ==> levelled.level == level,
        level < 1 ==> levelled.level == 1,
        level > 22 ==> levelled.level == 22,
        levelled.enabled && levelled.min_size == 64,
        sized.min_size == size && sized.enabled && sized.level == 3,
        switched.enabled == on && switched.level == 3 && switched.min_size == 64,
{
}

}
