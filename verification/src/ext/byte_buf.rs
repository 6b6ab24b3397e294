//! Contracts for `bytes::Bytes`.

use vstd::prelude::*;

verus! {

/// `bytes::Bytes`, a cheaply cloneable run of bytes. A value of it is opaque; what
/// it holds is named by [`bytes_of`].
#[verifier::external_type_specification]
#[verifier::external_body]
pub struct ExBytes(bytes::Bytes);

/// The bytes that a `Bytes` holds, first to last.
pub uninterp spec fn bytes_of(b: bytes::Bytes) -> Seq<u8>;

/// `Bytes::new` holds no bytes.
pub assume_specification [bytes::Bytes::new] () -> (b: bytes::Bytes)
    ensures
        bytes_of(b) == Seq::<u8>::empty(),
;

/// `Bytes::copy_from_slice` holds a copy of the slice.
pub assume_specification [bytes::Bytes::copy_from_slice] (data: &[u8]) -> (b: bytes::Bytes)
    ensures
        bytes_of(b) == data@,
;

/// `Bytes::from` on a vector holds the bytes of the vector.
#[verifier::external_body]
pub(crate) fn bytes_from_vec(v: Vec<u8>) -> (b: bytes::Bytes)
    ensures
        bytes_of(b) == v@,
{
    bytes::Bytes::from(v)
}

/// `Bytes::len` is the number of bytes held.
pub assume_specification [bytes::Bytes::len] (b: &bytes::Bytes) -> (n: usize)
    ensures
        n == bytes_of(*b).len(),
;

/// `Bytes::is_empty` tells whether no bytes are held.
pub assume_specification [bytes::Bytes::is_empty] (b: &bytes::Bytes) -> (r: bool)
    ensures
        r == (bytes_of(*b).len() == 0),
;

/// `Bytes::as_ref` lends the bytes held.
pub assume_specification [<bytes::Bytes as AsRef<[u8]>>::as_ref] (b: &bytes::Bytes) -> (s: &[u8])
    ensures
        s@ == bytes_of(*b),
;

/// `Bytes::clone` holds the same bytes.
pub assume_specification [<bytes::Bytes as Clone>::clone] (b: &bytes::Bytes) -> (c: bytes::Bytes)
    ensures
        bytes_of(c) == bytes_of(*b),
;

/// `bytes::BytesMut`, a growing run of bytes. A value of it is opaque; what it holds
/// is named by [`bytes_mut_of`].
#[verifier::external_type_specification]
#[verifier::external_body]
pub struct ExBytesMut(bytes::BytesMut);

/// The bytes that a `BytesMut` holds, first to last.
pub uninterp spec fn bytes_mut_of(b: bytes::BytesMut) -> Seq<u8>;

/// `BytesMut::new` holds no bytes.
pub assume_specification [bytes::BytesMut::new] () -> (b: bytes::BytesMut)
    ensures
        bytes_mut_of(b) == Seq::<u8>::empty(),
;

/// `BytesMut::extend_from_slice` appends a copy of the slice.
pub assume_specification [bytes::BytesMut::extend_from_slice] (b: &mut bytes::BytesMut, extend: &[u8])
    ensures
        bytes_mut_of(*final(b)) == bytes_mut_of(*old(b)) + extend@,
;

}
