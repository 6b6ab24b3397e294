//! Contracts for identifiers: `uuid::Uuid` and `iroh::EndpointId`.

use vstd::prelude::*;

verus! {

/// Whether sixteen bytes are a random (version 4) UUID: the version nibble is 4 and
/// the two variant bits are 10.
pub open spec fn is_random_uuid(id: Seq<u8>) -> bool {
    &&& id.len() == 16
    &&& id[6] / 16 == 4
    &&& id[8] / 64 == 2
}

/// `Uuid::new_v4` makes a random UUID. Only the bits that mark the version and the
/// variant are fixed; the others are random and nothing is stated of them.
#[verifier::external_body]
pub(crate) fn new_uuid() -> (id: [u8; 16])
    ensures
        is_random_uuid(id@),
{
    *uuid::Uuid::new_v4().as_bytes()
}

/// The number whose bytes, lowest first, are given.
pub open spec fn le_value(bytes: Seq<u8>) -> nat
    decreases bytes.len(),
{
    if bytes.len() == 0 {
        0
    } else {
        bytes[0] as nat + 256 * le_value(bytes.drop_first())
    }
}

/// `Uuid::to_u128_le` takes the sixteen bytes of the UUID as a number, lowest byte
/// first.
#[verifier::external_body]
pub(crate) fn uuid_to_u128_le(id: &[u8; 16]) -> (n: u128)
    ensures
        n == le_value(id@),
{
    uuid::Uuid::from_bytes(*id).to_u128_le()
}

/// Whether thirty-two bytes are the key of an endpoint, as
/// `EndpointId::from_bytes` of `iroh` decides it.
pub uninterp spec fn is_endpoint_key(bytes: Seq<u8>) -> bool;

/// `EndpointId::from_bytes` of `iroh` accepts the bytes that are a point of the
/// curve, and the endpoint it makes has these bytes. It refuses other bytes with one and
/// the same error, handed on as `KeyParsingError`'s `Display` writes it.
#[verifier::external_body]
pub(crate) fn parse_endpoint_key(bytes: &[u8; 32]) -> (r: std::result::Result<[u8; 32], String>)
    ensures
        match r {
            Ok(key) => is_endpoint_key(bytes@) && key@ == bytes@,
            Err(text) => !is_endpoint_key(bytes@) && text@ == "data is not a valid public key"@,
        },
{
    match iroh::EndpointId::from_bytes(bytes) {
        Ok(id) => Ok(*id.as_bytes()),
        Err(e) => Err(e.to_string()),
    }
}

}
