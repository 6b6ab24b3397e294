//! Identifiers of peers.

use crate::common;
use crate::common::{base64_url_decode, decimal_text};
use crate::error::{Error, ErrorModel, Result};
use crate::ext::ids;
use crate::ext::ids::parse_endpoint_key;
use vstd::prelude::*;

verus! {

/// The identifier of an endpoint in the network: the thirty-two bytes of its public
/// key.
#[derive(Debug, Clone, Copy, PartialEq, Eq, Hash)]
pub struct EndpointId {
    bytes: [u8; 32],
}

impl View for EndpointId {
    type V = Seq<u8>;

    closed spec fn view(&self) -> Seq<u8> {
        self.bytes@
    }
}

/// A lower-case hexadecimal digit.
pub open spec fn hex_char(v: int) -> char {
    if v < 10 {
        ('0' as int + v) as char
    } else {
        ('a' as int + (v - 10)) as char
    }
}

/// Bytes in lower-case hexadecimal, two digits a byte.
pub open spec fn hex_of(bytes: Seq<u8>) -> Seq<char> {
    Seq::new(
        2 * bytes.len(),
        |i: int| hex_char(if i % 2 == 0 { bytes[i / 2] as int / 16 } else { bytes[i / 2] as int % 16 }),
    )
}

/// The bytes of the endpoint that a base64 text names, if it names one: the first
/// thirty-two bytes of what the text stands for, where they are an endpoint's key.
pub open spec fn named_endpoint(text: Seq<char>) -> Option<Seq<u8>> {
    if common::is_base64(text) && common::base64_bytes(text).len() >= 32 && ids::is_endpoint_key(
        common::base64_bytes(text).take(32),
    ) {
        Some(common::base64_bytes(text).take(32))
    } else {
        None
    }
}

/// Why a text names no endpoint.
pub open spec fn name_failure(text: Seq<char>) -> Seq<char> {
    if !common::is_base64(text) {
        "base64 decode failed: "@ + "invalid base64 character"@
    } else if common::base64_bytes(text).len() < 32 {
        "invalid peer ID length: expected 32, got "@ + common::decimal(
            common::base64_bytes(text).len(),
        )
    } else {
        key_failure()
    }
}

/// The base64 of an endpoint's key names that endpoint.
pub proof fn endpoint_name_roundtrip(key: Seq<u8>)
    requires
        key.len() == 32,
        ids::is_endpoint_key(key),
    ensures
        named_endpoint(common::base64_of(key)) == Some(key),
{
    common::base64_roundtrip(key);
    assert(key.take(32) =~= key);
}

/// Identifiers with the same hexadecimal text are the same.
pub proof fn hex_tells_endpoints_apart(a: Seq<u8>, b: Seq<u8>)
    requires
        hex_of(a) == hex_of(b),
    ensures
        a == b,
{
    assert(hex_of(a).len() == 2 * a.len() && hex_of(b).len() == 2 * b.len());
    assert forall|i: int| 0 <= i < a.len() implies a[i] == b[i] by {
        lemma_hex_digit(a[i] as int / 16, b[i] as int / 16);
        lemma_hex_digit(a[i] as int % 16, b[i] as int % 16);
        assert(hex_of(a)[2 * i] == hex_char(a[i] as int / 16));
        assert(hex_of(b)[2 * i] == hex_char(b[i] as int / 16));
        assert(hex_of(a)[2 * i + 1] == hex_char(a[i] as int % 16));
        assert(hex_of(b)[2 * i + 1] == hex_char(b[i] as int % 16));
    }
    assert(a =~= b);
}

/// Identifiers with the same base64 text are the same.
pub proof fn base64_tells_endpoints_apart(a: Seq<u8>, b: Seq<u8>)
    requires
        common::base64_of(a) == common::base64_of(b),
    ensures
        a == b,
{
    common::base64_roundtrip(a);
    common::base64_roundtrip(b);
}

proof fn lemma_hex_digit(v: int, w: int)
    requires
        0 <= v < 16,
        0 <= w < 16,
    ensures
        hex_char(v) == hex_char(w) <==> v == w,
{
}

fn hex_digit(v: u8) -> (c: char)
    requires
        v < 16,
    ensures
        c == hex_char(v as int),
{
    if v < 10 {
        ('0' as u8 + v) as char
    } else {
        ('a' as u8 + (v - 10)) as char
    }
}

/// The text that says that bytes are not a public key.
pub open spec fn key_failure() -> Seq<char> {
    "failed to create endpoint ID: "@ + "data is not a valid public key"@
}

impl EndpointId {
    #[verifier::type_invariant]
    spec fn inv(self) -> bool {
        ids::is_endpoint_key(self.bytes@)
    }

    /// Make an identifier from the bytes of a public key.
    ///
    /// Fails if the bytes are not a public key.
    pub fn from_bytes(bytes: &[u8; 32]) -> (r: Result<EndpointId>)
        ensures
            match r {
                Ok(id) => ids::is_endpoint_key(bytes@) && id@ == bytes@,
                Err(e) => {
                    &&& !ids::is_endpoint_key(bytes@)
                    &&& e@ == ErrorModel::Encoding(key_failure())
                },
            },
    {
        match parse_endpoint_key(bytes) {
            Ok(key) => Ok(EndpointId { bytes: key }),
            Err(reason) => Err(
                Error::Encoding("failed to create endpoint ID: ".to_owned().concat(reason.as_str())),
            ),
        }
    }

    /// The bytes of the public key.
    pub fn as_bytes(&self) -> (bytes: &[u8; 32])
        ensures
            bytes@ == self@,
            ids::is_endpoint_key(self@),
    {
        proof {
            use_type_invariant(self);
        }
        &self.bytes
    }

    /// Whether two identifiers are the same.
    pub fn same_as(&self, other: &EndpointId) -> (r: bool)
        ensures
            r == (self@ == other@),
    {
        let mut i: usize = 0;
        while i < 32
            invariant
                i <= 32,
                forall|j: int| 0 <= j < i ==> self.bytes@[j] == other.bytes@[j],
            decreases 32 - i,
        {
            if self.bytes[i] != other.bytes[i] {
                return false;
            }
            i = i + 1;
        }
        assert(self.bytes@ =~= other.bytes@);
        true
    }

    /// The identifier in lower-case hexadecimal.
    pub fn to_hex(&self) -> (s: String)
        ensures
            s@ == hex_of(self@),
    {
        let mut s = String::new();
        let mut i: usize = 0;
        while i < 32
            invariant
                i <= 32,
                s@ == hex_of(self.bytes@).take(2 * i),
            decreases 32 - i,
        {
            let b: u8 = self.bytes[i];
            s.push(hex_digit(b / 16));
            s.push(hex_digit(b % 16));
            i = i + 1;
            assert(s@ =~= hex_of(self.bytes@).take(2 * i));
        }
        assert(s@ =~= hex_of(self@));
        s
    }

    /// Read the identifier that a base64 text names.
    ///
    /// Fails if the text is not base64, stands for fewer than thirty-two bytes, or
    /// for bytes that are not a public key. What follows the first thirty-two bytes
    /// is ignored.
    pub fn from_base64(encoded: &str) -> (r: Result<EndpointId>)
        ensures
            match r {
                Ok(id) => named_endpoint(encoded@) == Some(id@),
                Err(e) => {
                    &&& named_endpoint(encoded@) is None
                    &&& e@ == ErrorModel::Encoding(name_failure(encoded@))
                },
            },
    {
        let bytes: Vec<u8> = match base64_url_decode(encoded) {
            Ok(bytes) => bytes,
            Err(e) => {
                return Err(Error::Encoding("base64 decode failed: ".to_owned().concat(e)));
            },
        };
        if bytes.len() < 32 {
            return Err(
                Error::Encoding(
                    "invalid peer ID length: expected 32, got ".to_owned().concat(
                        decimal_text(bytes.len()).as_str(),
                    ),
                ),
            );
        }
        let mut key: [u8; 32] = [0u8; 32];
        let mut i: usize = 0;
        while i < 32
            invariant
                i <= 32 <= bytes.len(),
                forall|j: int| 0 <= j < i ==> key@[j] == bytes@[j],
            decreases 32 - i,
        {
            key[i] = bytes[i];
            i = i + 1;
        }
        assert(key@ =~= bytes@.take(32));
        EndpointId::from_bytes(&key)
    }
}

/// The name of an endpoint in hexadecimal has two lower-case digits for each byte of its
/// key, the higher half first.
pub proof fn hex_name_has_two_digits_a_byte(id: EndpointId, s: String, i: int)
    requires
        call_ensures(EndpointId::to_hex, (&id,), s),
        0 <= i < id@.len(),
    ensures
        s@.len() == 2 * id@.len(),
        s@[2 * i] == "0123456789abcdef"@[id@[i] as int / 16],
        s@[2 * i + 1] == "0123456789abcdef"@[id@[i] as int % 16],
{
    reveal_strlit("0123456789abcdef");
}

/// An endpoint has the bytes it was made of, and is the same as another if and only if
/// their bytes are.
pub proof fn endpoint_is_its_key(
    bytes: [u8; 32],
    r: Result<EndpointId>,
    a: EndpointId,
    b: EndpointId,
    same: bool,
)
    requires
        call_ensures(EndpointId::from_bytes, (&bytes,), r),
        call_ensures(EndpointId::same_as, (&a, &b), same),
    ensures
        r is Ok <==> ids::is_endpoint_key(bytes@),
        r is Ok ==> r->Ok_0@ == bytes@,
        r is Err ==> r->Err_0 is Encoding && r->Err_0->Encoding_0@
            == "failed to create endpoint ID: "@ + "data is not a valid public key"@,
        same <==> a@ == b@,
{
}

/// The base64 of an endpoint's key names the endpoint, also with more behind it; a text that
/// is no base64, that is too short, or that stands for no key names none.
pub proof fn name_gives_the_endpoint(key: Seq<u8>, more: Seq<u8>, text: &str, r: Result<EndpointId>)
    requires
        call_ensures(EndpointId::from_base64, (text,), r),
        key.len() == 32,
        text@ == common::base64_of(key + more),
    ensures
        r is Ok <==> ids::is_endpoint_key(key),
        r is Ok ==> r->Ok_0@ == key,
{
    common::base64_roundtrip(key + more);
    assert((key + more).take(32) =~= key);
}

}
