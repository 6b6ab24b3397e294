//! Contracts for `zstd`.

use crate::ext::Outcome;
use vstd::prelude::*;

verus! {

/// Whether `zstd::bulk::compress` may write a frame for data at a level. Machines may
/// differ in the frame they write for the same data.
pub uninterp spec fn zstd_writes(data: Seq<u8>, level: int, frame: Seq<u8>) -> bool;

/// The data that `zstd::bulk::decompress` reads from a run of bytes with room for so many
/// bytes, on a machine with words of so many bits, if the bytes are valid frames and the
/// room is enough, and the text of the error otherwise. How large a window a frame may ask
/// for goes by the size of a word.
pub uninterp spec fn zstd_content(
    frame: Seq<u8>,
    capacity: int,
    word_bits: int,
) -> Outcome<Seq<u8>>;

/// Whether a frame holds data: all of it is read where there is room for it.
pub open spec fn holds(frame: Seq<u8>, data: Seq<u8>) -> bool {
    forall|capacity: int|
        data.len() <= capacity <= isize::MAX ==> #[trigger] zstd_content(
            frame,
            capacity,
            usize::BITS as int,
        ) == Outcome::Value(data)
}

/// Whether the buffer that `zstd::bulk::compress` sets aside for data of a length, which
/// is at most this much larger, is no more than a vector can have.
pub open spec fn has_room(len: int) -> bool {
    len + len / 256 + 64 <= isize::MAX
}

/// `zstd::bulk::compress` writes a frame that holds the data. The buffer that it sets
/// aside is as large as the longest frame for data of that length, and a level that is out
/// of range counts as the nearest one, so it fails only for want of memory; the call
/// panics then, as it does where there is no memory for the compressor itself.
#[verifier::external_body]
pub(crate) fn zstd_compress(data: &[u8], level: i32) -> (frame: Vec<u8>)
    requires
        has_room(data@.len() as int),
    ensures
        zstd_writes(data@, level as int, frame@),
        holds(frame@, data@),
{
    zstd::bulk::compress(data, level).expect("out of memory")
}

/// `zstd::bulk::decompress` reads the data of valid frames, if there is no more of it than
/// the capacity, and fails otherwise. It sets aside as many bytes as the capacity says,
/// which may be no more than a vector can have. An error is handed on as `io::Error`'s
/// `Display` writes it: the name that the decompressor has for it.
#[verifier::external_body]
pub(crate) fn zstd_decompress(frame: &[u8], capacity: usize) -> (r: std::result::Result<Vec<u8>, String>)
    requires
        capacity <= isize::MAX,
    ensures
        match r {
            Ok(data) => {
                &&& zstd_content(frame@, capacity as int, usize::BITS as int) == Outcome::Value(data@)
                &&& data@.len() <= capacity
            },
            Err(text) => zstd_content(frame@, capacity as int, usize::BITS as int) == Outcome::<
                Seq<u8>,
            >::Failure(text@),
        },
{
    match zstd::bulk::decompress(frame, capacity) {
        Ok(data) => Ok(data),
        Err(e) => Err(e.to_string()),
    }
}

}
