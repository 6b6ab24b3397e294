//! Utilities shared by the other modules: URL-safe base64 and timestamps.

use crate::ext::time;
use crate::ext::time::unix_epoch;
use std::time::{Duration, SystemTime};
use vstd::prelude::*;
use vstd::utf8::*;

verus! {

/// The character that stands for a six-bit value in URL-safe base64.
pub open spec fn sextet_char(v: int) -> char {
    if v < 26 {
        ('A' as int + v) as char
    } else if v < 52 {
        ('a' as int + (v - 26)) as char
    } else if v < 62 {
        ('0' as int + (v - 52)) as char
    } else if v == 62 {
        '-'
    } else {
        '_'
    }
}

/// The six-bit value that a character stands for, if it is in the alphabet.
pub open spec fn char_sextet(c: char) -> Option<int> {
    if 'A' <= c <= 'Z' {
        Some(c as int - 'A' as int)
    } else if 'a' <= c <= 'z' {
        Some(c as int - 'a' as int + 26)
    } else if '0' <= c <= '9' {
        Some(c as int - '0' as int + 52)
    } else if c == '-' {
        Some(62int)
    } else if c == '_' {
        Some(63int)
    } else {
        None
    }
}

/// The byte at an index, or zero past the end.
pub open spec fn byte_or_zero(bytes: Seq<u8>, i: int) -> int {
    if 0 <= i < bytes.len() {
        bytes[i] as int
    } else {
        0
    }
}

/// The number of base64 characters for `n` bytes: eight bits a byte, six a
/// character, rounded up.
pub open spec fn encoded_len(n: int) -> int {
    (4 * n + 2) / 3
}

/// The number of bytes for `n` base64 characters: six bits a character, eight a
/// byte, rounded down.
pub open spec fn decoded_len(n: int) -> int {
    3 * n / 4
}

/// The `k`-th group of six bits of a run of bytes, padded with zero bits.
pub open spec fn sextet_at(bytes: Seq<u8>, k: int) -> int {
    let b0 = byte_or_zero(bytes, 3 * (k / 4));
    let b1 = byte_or_zero(bytes, 3 * (k / 4) + 1);
    let b2 = byte_or_zero(bytes, 3 * (k / 4) + 2);
    if k % 4 == 0 {
        b0 / 4
    } else if k % 4 == 1 {
        (b0 % 4) * 16 + b1 / 16
    } else if k % 4 == 2 {
        (b1 % 16) * 4 + b2 / 64
    } else {
        b2 % 64
    }
}

/// URL-safe base64 of a run of bytes, without padding characters.
pub open spec fn base64_of(bytes: Seq<u8>) -> Seq<char> {
    Seq::new(encoded_len(bytes.len() as int) as nat, |k: int| sextet_char(sextet_at(bytes, k)))
}

/// Whether every character is in the base64 alphabet.
pub open spec fn is_base64(text: Seq<char>) -> bool {
    forall|i: int| 0 <= i < text.len() ==> char_sextet(#[trigger] text[i]) is Some
}

/// The `j`-th group of eight bits that the characters of a base64 text stand for.
pub open spec fn octet_at(text: Seq<char>, j: int) -> int {
    let g = 4 * (j / 3);
    if j % 3 == 0 {
        char_sextet(text[g])->0 * 4 + char_sextet(text[g + 1])->0 / 16
    } else if j % 3 == 1 {
        (char_sextet(text[g + 1])->0 % 16) * 16 + char_sextet(text[g + 2])->0 / 4
    } else {
        (char_sextet(text[g + 2])->0 % 4) * 64 + char_sextet(text[g + 3])->0
    }
}

/// The bytes that a base64 text stands for. Bits left over at the end are dropped.
pub open spec fn base64_bytes(text: Seq<char>) -> Seq<u8> {
    Seq::new(decoded_len(text.len() as int) as nat, |j: int| octet_at(text, j) as u8)
}

/// A sextet's character stands for that sextet.
proof fn lemma_char_of_sextet(v: int)
    requires
        0 <= v < 64,
    ensures
        char_sextet(sextet_char(v)) == Some(v),
{
}

proof fn lemma_sextet_range(bytes: Seq<u8>, k: int)
    ensures
        0 <= sextet_at(bytes, k) < 64,
{
}

/// Three bytes can be put together again from their four sextets.
proof fn lemma_three_bytes(b0: int, b1: int, b2: int)
    requires
        0 <= b0 < 256,
        0 <= b1 < 256,
        0 <= b2 < 256,
    ensures
        (b0 / 4) * 4 + ((b0 % 4) * 16 + b1 / 16) / 16 == b0,
        (((b0 % 4) * 16 + b1 / 16) % 16) * 16 + ((b1 % 16) * 4 + b2 / 64) / 4 == b1,
        (((b1 % 16) * 4 + b2 / 64) % 4) * 64 + b2 % 64 == b2,
{
}

/// The characters of the base64 of bytes stand for the sextets of the bytes.
proof fn lemma_chars_are_sextets(bytes: Seq<u8>)
    ensures
        forall|k: int|
            0 <= k < encoded_len(bytes.len() as int) ==> char_sextet(
                #[trigger] base64_of(bytes)[k],
            ) == Some(sextet_at(bytes, k)),
{
    assert forall|k: int| 0 <= k < encoded_len(bytes.len() as int) implies char_sextet(
        #[trigger] base64_of(bytes)[k],
    ) == Some(sextet_at(bytes, k)) by {
        lemma_sextet_range(bytes, k);
        lemma_char_of_sextet(sextet_at(bytes, k));
    }
}

/// An octet of the base64 of bytes is the byte at that place.
proof fn lemma_octet_is_byte(bytes: Seq<u8>, i: int)
    requires
        0 <= i < bytes.len(),
        i % 3 == 0,
    ensures
        octet_at(base64_of(bytes), i) == bytes[i],
        i + 1 < bytes.len() ==> octet_at(base64_of(bytes), i + 1) == bytes[i + 1],
        i + 2 < bytes.len() ==> octet_at(base64_of(bytes), i + 2) == bytes[i + 2],
{
    let text = base64_of(bytes);
    let k = encoded_len(i);
    let b0 = byte_or_zero(bytes, i);
    let b1 = byte_or_zero(bytes, i + 1);
    let b2 = byte_or_zero(bytes, i + 2);
    lemma_group(bytes, i);
    lemma_three_bytes(b0, b1, b2);
    lemma_chars_are_sextets(bytes);
    assert(4 * (i / 3) == k);
    assert(4 * ((i + 1) / 3) == k && (i + 1) % 3 == 1);
    assert(4 * ((i + 2) / 3) == k && (i + 2) % 3 == 2);
    assert(char_sextet(text[k]) == Some(b0 / 4));
    assert(char_sextet(text[k + 1]) == Some((b0 % 4) * 16 + b1 / 16));
    if i + 1 < bytes.len() {
        assert(char_sextet(text[k + 2]) == Some((b1 % 16) * 4 + b2 / 64));
    }
    if i + 2 < bytes.len() {
        assert(char_sextet(text[k + 3]) == Some(b2 % 64));
    }
}

/// Decoding undoes encoding: the base64 of any bytes is a base64 text, and the
/// bytes it stands for are those bytes.
pub proof fn base64_roundtrip(bytes: Seq<u8>)
    ensures
        is_base64(base64_of(bytes)),
        base64_bytes(base64_of(bytes)) == bytes,
{
    let text = base64_of(bytes);
    let n = bytes.len() as int;
    lemma_chars_are_sextets(bytes);
    assert(decoded_len(encoded_len(n)) == n);
    assert forall|j: int| 0 <= j < n implies octet_at(text, j) == #[trigger] bytes[j] by {
        lemma_octet_is_byte(bytes, j - j % 3);
    }
    assert(base64_bytes(text) =~= bytes);
}

/// The character that stands for a six-bit value.
fn alphabet_char(v: u8) -> (c: char)
    requires
        v < 64,
    ensures
        c == sextet_char(v as int),
{
    if v < 26 {
        ('A' as u8 + v) as char
    } else if v < 52 {
        ('a' as u8 + (v - 26)) as char
    } else if v < 62 {
        ('0' as u8 + (v - 52)) as char
    } else if v == 62 {
        '-'
    } else {
        '_'
    }
}

/// The four sextets of the three bytes from an index that is a multiple of three,
/// and the number of characters before and after them.
proof fn lemma_group(bytes: Seq<u8>, i: int)
    requires
        0 <= i <= bytes.len(),
        i % 3 == 0,
    ensures
        ({
            let k = encoded_len(i);
            let n = bytes.len() as int;
            let b0 = byte_or_zero(bytes, i);
            let b1 = byte_or_zero(bytes, i + 1);
            let b2 = byte_or_zero(bytes, i + 2);
            &&& sextet_at(bytes, k) == b0 / 4
            &&& sextet_at(bytes, k + 1) == (b0 % 4) * 16 + b1 / 16
            &&& sextet_at(bytes, k + 2) == (b1 % 16) * 4 + b2 / 64
            &&& sextet_at(bytes, k + 3) == b2 % 64
            &&& encoded_len(i + 3) == k + 4
            &&& n == i ==> encoded_len(n) == k
            &&& n == i + 1 ==> encoded_len(n) == k + 2
            &&& n == i + 2 ==> encoded_len(n) == k + 3
            &&& n >= i + 3 ==> encoded_len(n) >= k + 4
        }),
{
    let g = i / 3;
    assert(encoded_len(i) == 4 * g);
    assert((4 * g) / 4 == g && (4 * g + 1) / 4 == g && (4 * g + 2) / 4 == g && (4 * g + 3) / 4 == g);
}

/// The four characters that stand for three bytes.
pub open spec fn group_chars(b0: u8, b1: u8, b2: u8) -> Seq<char> {
    seq![
        sextet_char(b0 as int / 4),
        sextet_char((b0 as int % 4) * 16 + b1 as int / 16),
        sextet_char((b1 as int % 16) * 4 + b2 as int / 64),
        sextet_char(b2 as int % 64),
    ]
}

/// Three whole bytes add their four characters.
proof fn lemma_whole_group(bytes: Seq<u8>, i: int)
    requires
        0 <= i,
        i + 3 <= bytes.len(),
        i % 3 == 0,
    ensures
        base64_of(bytes).take(encoded_len(i)) + group_chars(bytes[i], bytes[i + 1], bytes[i + 2])
            == base64_of(bytes).take(encoded_len(i + 3)),
{
    lemma_group(bytes, i);
    let g = group_chars(bytes[i], bytes[i + 1], bytes[i + 2]);
    let k = encoded_len(i);
    let all = base64_of(bytes);
    assert(all[k] == g[0] && all[k + 1] == g[1] && all[k + 2] == g[2] && all[k + 3] == g[3]);
    assert(all.take(k) + g =~= all.take(k + 4));
}

/// One or two bytes at the end add two or three characters.
proof fn lemma_last_group(bytes: Seq<u8>, i: int)
    requires
        0 <= i <= bytes.len() < i + 3,
        i % 3 == 0,
    ensures
        bytes.len() == i ==> base64_of(bytes).take(encoded_len(i)) == base64_of(bytes),
        bytes.len() == i + 1 ==> base64_of(bytes).take(encoded_len(i)) + group_chars(
            bytes[i],
            0,
            0,
        ).take(2) == base64_of(bytes),
        bytes.len() == i + 2 ==> base64_of(bytes).take(encoded_len(i)) + group_chars(
            bytes[i],
            bytes[i + 1],
            0,
        ).take(3) == base64_of(bytes),
{
    lemma_group(bytes, i);
    let k = encoded_len(i);
    let all = base64_of(bytes);
    if bytes.len() == i {
        assert(all.take(k) =~= all);
    } else if bytes.len() == i + 1 {
        let g = group_chars(bytes[i], 0, 0);
        assert(all[k] == g[0] && all[k + 1] == g[1]);
        assert(all.take(k) + g.take(2) =~= all);
    } else {
        let g = group_chars(bytes[i], bytes[i + 1], 0);
        assert(all[k] == g[0] && all[k + 1] == g[1] && all[k + 2] == g[2]);
        assert(all.take(k) + g.take(3) =~= all);
    }
}

/// Append the first `count` of the four characters that stand for three bytes.
fn push_group(result: &mut String, b0: u8, b1: u8, b2: u8, count: usize)
    requires
        2 <= count <= 4,
    ensures
        final(result)@ == old(result)@ + group_chars(b0, b1, b2).take(count as int),
{
    result.push(alphabet_char(b0 / 4));
    result.push(alphabet_char((b0 % 4) * 16 + b1 / 16));
    if count >= 3 {
        result.push(alphabet_char((b1 % 16) * 4 + b2 / 64));
    }
    if count >= 4 {
        result.push(alphabet_char(b2 % 64));
    }
    assert(result@ =~= old(result)@ + group_chars(b0, b1, b2).take(count as int));
}

/// Encode bytes to base64 URL-safe without padding.
///
/// Used for ticket encoding and peer ID serialization.
pub fn base64_url_encode(bytes: &[u8]) -> (result: String)
    ensures
        result@ == base64_of(bytes@),
{
    let mut result = String::new();
    let mut i: usize = 0;
    assert(base64_of(bytes@).take(encoded_len(0)) =~= Seq::<char>::empty());
    while bytes.len() - i >= 3
        invariant
            i <= bytes.len(),
            i % 3 == 0,
            result@ == base64_of(bytes@).take(encoded_len(i as int)),
        decreases bytes.len() - i,
    {
        push_group(&mut result, bytes[i], bytes[i + 1], bytes[i + 2], 4);
        proof {
            let g = group_chars(bytes@[i as int], bytes@[i + 1], bytes@[i + 2]);
            assert(g.take(4) =~= g);
            lemma_whole_group(bytes@, i as int);
        }
        i = i + 3;
    }
    proof {
        lemma_last_group(bytes@, i as int);
    }
    if bytes.len() - i == 1 {
        push_group(&mut result, bytes[i], 0, 0, 2);
    } else if bytes.len() - i == 2 {
        push_group(&mut result, bytes[i], bytes[i + 1], 0, 3);
    }
    result
}

/// A character's code point does not change when it is taken as a `u32`.
proof fn lemma_char_code(c: char)
    ensures
        c as u32 == c as int,
{
}

/// A text whose UTF-8 bytes are all below 128 consists of ASCII characters.
proof fn lemma_low_bytes_ascii(text: Seq<char>)
    requires
        forall|i: int| 0 <= i < encode_utf8(text).len() ==> #[trigger] encode_utf8(text)[i] < 128,
    ensures
        is_ascii_chars(text),
    decreases text.len(),
{
    if text.len() > 0 {
        let c = text[0] as u32;
        lemma_char_code(text[0]);
        let first = encode_scalar(c);
        let rest = encode_utf8(text.drop_first());
        assert(encode_utf8(text) == first + rest);
        assert(first.len() > 0);
        assert(encode_utf8(text)[0] == first[0]);
        assert(c >= 128 ==> first[0] >= 128) by {
            assert(leading_byte_width_2(c) >= 128) by (bit_vector);
            assert(leading_byte_width_3(c) >= 128) by (bit_vector);
            assert(leading_byte_width_4(c) >= 128) by (bit_vector);
        }
        assert forall|i: int| 0 <= i < rest.len() implies #[trigger] rest[i] < 128 by {
            assert((first + rest)[i + first.len()] == rest[i]);
        }
        lemma_low_bytes_ascii(text.drop_first());
        assert forall|i: int| 0 <= i < text.len() implies '\0' <= #[trigger] text[i] <= '\u{7f}' by {
            if i > 0 {
                assert(text[i] == text.drop_first()[i - 1]);
            }
        }
    }
}

/// What the character at an index of a base64 text adds to the decoded bytes, given
/// its value and that of the character before it.
proof fn lemma_octet(text: Seq<char>, i: int, prev: u8, v: u8)
    requires
        0 <= i < text.len(),
        char_sextet(text[i]) == Some(v as int),
        i % 4 > 0 ==> char_sextet(text[i - 1]) == Some(prev as int),
    ensures
        decoded_len(i + 1) <= decoded_len(text.len() as int),
        i % 4 == 0 ==> decoded_len(i + 1) == decoded_len(i),
        i % 4 != 0 ==> decoded_len(i + 1) == decoded_len(i) + 1,
        i % 4 == 1 ==> octet_at(text, decoded_len(i)) == prev * 4 + v / 16,
        i % 4 == 2 ==> octet_at(text, decoded_len(i)) == (prev % 16) * 16 + v / 4,
        i % 4 == 3 ==> octet_at(text, decoded_len(i)) == (prev % 4) * 64 + v,
{
    let g = i / 4;
    assert(i % 4 == 1 ==> decoded_len(i) == 3 * g);
    assert(i % 4 == 2 ==> decoded_len(i) == 3 * g + 1);
    assert(i % 4 == 3 ==> decoded_len(i) == 3 * g + 2);
}

/// The value of a base64 character, if the byte is one.
fn alphabet_value(byte: u8) -> (v: Option<u8>)
    ensures
        match v {
            Some(x) => byte < 128 && x < 64 && char_sextet(byte as char) == Some(x as int),
            None => byte < 128 ==> char_sextet(byte as char) is None,
        },
{
    if 'A' as u8 <= byte && byte <= 'Z' as u8 {
        Some(byte - 'A' as u8)
    } else if 'a' as u8 <= byte && byte <= 'z' as u8 {
        Some(byte - 'a' as u8 + 26)
    } else if '0' as u8 <= byte && byte <= '9' as u8 {
        Some(byte - '0' as u8 + 52)
    } else if byte == '-' as u8 {
        Some(62)
    } else if byte == '_' as u8 {
        Some(63)
    } else {
        None
    }
}

/// Decode base64 URL-safe without padding.
///
/// Returns the decoded bytes or an error message if decoding fails.
pub fn base64_url_decode(input: &str) -> (r: Result<Vec<u8>, &'static str>)
    ensures
        r is Ok <==> is_base64(input@),
        r matches Ok(bytes) ==> bytes@ == base64_bytes(input@),
        r matches Err(e) ==> e@ == "invalid base64 character"@,
{
    let bytes = input.as_bytes();
    let mut result: Vec<u8> = Vec::new();
    let mut prev: u8 = 0;
    let mut phase: u8 = 0;
    let mut i: usize = 0;
    let ghost text = input@;
    proof {
        if is_base64(text) {
            assert(is_ascii_chars(text));
            is_ascii_chars_encode_utf8(text);
        }
    }
    while i < bytes.len()
        invariant
            i <= bytes.len(),
            bytes@ == encode_utf8(text),
            is_base64(text) ==> text.len() == bytes.len() && forall|k: int|
                0 <= k < text.len() ==> #[trigger] bytes@[k] == text[k] as u8,
            phase == i % 4,
            phase > 0 ==> char_sextet(bytes@[i - 1] as char) == Some(prev as int),
            prev < 64,
            forall|k: int| 0 <= k < i ==> #[trigger] bytes@[k] < 128 && char_sextet(bytes@[k] as char) is Some,
            is_base64(text) ==> result@ == base64_bytes(text).take(decoded_len(i as int)),
            text == input@,
        decreases bytes.len() - i,
    {
        let v: u8 = match alphabet_value(bytes[i]) {
            Some(v) => v,
            None => {
                proof {
                    if is_base64(text) {
                        assert(char_sextet(text[i as int]) is Some);
                        assert(bytes@[i as int] as char == text[i as int]);
                    }
                }
                return Err("invalid base64 character");
            },
        };
        proof {
            if is_base64(text) {
                assert(char_sextet(text[i as int]) is Some);
                assert(bytes@[i as int] as char == text[i as int]);
                if i > 0 {
                    assert(char_sextet(text[i - 1]) is Some);
                    assert(bytes@[i - 1] as char == text[i - 1]);
                }
                lemma_octet(text, i as int, prev, v);
            }
        }
        if phase == 1 {
            result.push(prev * 4 + v / 16);
        } else if phase == 2 {
            result.push((prev % 16) * 16 + v / 4);
        } else if phase == 3 {
            result.push((prev % 4) * 64 + v);
        }
        prev = v;
        phase = if phase == 3 { 0 } else { phase + 1 };
        i = i + 1;
        assert(is_base64(text) ==> result@ =~= base64_bytes(text).take(decoded_len(i as int)));
    }
    proof {
        lemma_low_bytes_ascii(text);
        is_ascii_chars_encode_utf8(text);
        assert forall|k: int| 0 <= k < text.len() implies char_sextet(#[trigger] text[k]) is Some by {
            assert(bytes@[k] == text[k] as u8);
            assert(bytes@[k] as char == text[k]);
        }
        assert(result@ =~= base64_bytes(text));
    }
    Ok(result)
}

/// The nanoseconds from the UNIX epoch to a reading of the system clock, in 64
/// bits, and zero before the epoch.
pub open spec fn epoch_nanos(t: SystemTime) -> u64 {
    if time::system_time_nanos(t) >= 0 {
        (time::system_time_nanos(t) % 0x1_0000_0000_0000_0000) as u64
    } else {
        0
    }
}

/// The whole seconds from the UNIX epoch to a reading of the system clock, and
/// zero before the epoch.
pub open spec fn epoch_secs(t: SystemTime) -> u64 {
    if time::system_time_nanos(t) >= 0 {
        (time::system_time_nanos(t) / 1_000_000_000) as u64
    } else {
        0
    }
}

/// Nanoseconds since UNIX epoch of a reading of the system clock.
///
/// Returns 0 if the reading is before UNIX epoch.
pub fn timestamp_nanos_at(t: SystemTime) -> (r: u64)
    ensures
        r == epoch_nanos(t),
{
    match t.duration_since(unix_epoch()) {
        Ok(d) => {
            let n: u128 = d.as_nanos();
            assert(n as u64 == n % 0x1_0000_0000_0000_0000) by (bit_vector);
            n as u64
        },
        Err(_) => 0,
    }
}

/// Seconds since UNIX epoch of a reading of the system clock.
///
/// Returns 0 if the reading is before UNIX epoch.
pub fn timestamp_secs_at(t: SystemTime) -> (r: u64)
    ensures
        r == epoch_secs(t),
{
    match t.duration_since(unix_epoch()) {
        Ok(d) => d.as_secs(),
        Err(_) => 0,
    }
}

/// Get current timestamp in nanoseconds since UNIX epoch.
///
/// Returns 0 if the system time is before UNIX epoch (should never happen).
pub fn current_timestamp_nanos() -> (r: u64)
    ensures
        exists|t: SystemTime| r == epoch_nanos(t),
{
    timestamp_nanos_at(SystemTime::now())
}

/// Get current timestamp in seconds since UNIX epoch.
///
/// Returns 0 if the system time is before UNIX epoch (should never happen).
pub fn current_timestamp_secs() -> (r: u64)
    ensures
        exists|t: SystemTime| r == epoch_secs(t),
{
    timestamp_secs_at(SystemTime::now())
}

/// Convert a Duration to milliseconds as u64.
pub fn duration_as_ms(d: Duration) -> (r: u64)
    ensures
        r == (time::duration_nanos(d) / 1_000_000) % 0x1_0000_0000_0000_0000,
{
    let n: u128 = d.as_millis();
    assert(n as u64 == n % 0x1_0000_0000_0000_0000) by (bit_vector);
    n as u64
}

/// Convert a Duration to microseconds as u64.
pub fn duration_as_micros(d: Duration) -> (r: u64)
    ensures
        r == (time::duration_nanos(d) / 1_000) % 0x1_0000_0000_0000_0000,
{
    let n: u128 = d.as_micros();
    assert(n as u64 == n % 0x1_0000_0000_0000_0000) by (bit_vector);
    n as u64
}

/// The character of a decimal digit.
pub open spec fn digit_char(d: int) -> char {
    ('0' as int + d) as char
}

/// A number in decimal, without leading zeros.
pub open spec fn decimal(n: nat) -> Seq<char>
    decreases n,
{
    if n < 10 {
        seq![digit_char(n as int)]
    } else {
        decimal(n / 10).push(digit_char(n as int % 10))
    }
}

/// Write a number in decimal.
pub(crate) fn decimal_text(n: usize) -> (s: String)
    ensures
        s@ == decimal(n as nat),
    decreases n,
{
    if n < 10 {
        let mut s = String::new();
        s.push(('0' as u8 + n as u8) as char);
        assert(s@ =~= decimal(n as nat));
        s
    } else {
        let mut s = decimal_text(n / 10);
        s.push(('0' as u8 + (n % 10) as u8) as char);
        s
    }
}

/// Whether two texts are the same.
pub(crate) fn same_text(a: &str, b: &str) -> (r: bool)
    ensures
        r == (a@ == b@),
{
    a.to_owned() == b.to_owned()
}

/// Whether a sequence occurs in another one without a gap.
pub open spec fn contains_seq<A>(s: Seq<A>, part: Seq<A>) -> bool {
    exists|i: int|
        0 <= i <= s.len() - part.len() && #[trigger] s.subrange(i, i + part.len()) == part
}

/// Whether a text occurs in another one.
pub(crate) fn contains_text(text: &str, part: &str) -> (r: bool)
    ensures
        r == contains_seq(text@, part@),
{
    let n: usize = text.unicode_len();
    let m: usize = part.unicode_len();
    let mut i: usize = 0;
    while i <= n && n - i >= m
        invariant
            n == text@.len(),
            m == part@.len(),
            i <= n + 1,
            forall|k: int|
                0 <= k < i && k <= n - m ==> #[trigger] text@.subrange(k, k + m) != part@,
        decreases n + 1 - i,
    {
        let mut j: usize = 0;
        while j < m && text.get_char(i + j) == part.get_char(j)
            invariant
                n == text@.len(),
                m == part@.len(),
                j <= m,
                i + m <= n,
                forall|k: int| 0 <= k < j ==> text@[i + k] == part@[k],
            decreases m - j,
        {
            j = j + 1;
        }
        if j == m {
            assert(text@.subrange(i as int, i + m) =~= part@);
            return true;
        }
        assert(text@.subrange(i as int, i + m)[j as int] != part@[j as int]);
        if i == n {
            return false;
        }
        i = i + 1;
    }
    false
}

/// The base64 alphabet in order: the character at each place stands for the number of the
/// place, and no other character stands for anything.
pub proof fn alphabet_is_url_safe(v: int, c: char)
    requires
        0 <= v < 64,
    ensures
        ({
            let alphabet = "ABCDEFGHIJKLMNOPQRSTUVWXYZabcdefghijklmnopqrstuvwxyz0123456789-_"@;
            &&& alphabet.len() == 64
            &&& sextet_char(v) == alphabet[v]
            &&& char_sextet(c) == Some(v) <==> c == alphabet[v]
        }),
        char_sextet(c) is Some ==> 0 <= char_sextet(c)->0 < 64,
{
    reveal_strlit("ABCDEFGHIJKLMNOPQRSTUVWXYZabcdefghijklmnopqrstuvwxyz0123456789-_");
}

/// Three bytes become four characters, each for six of their bits, the highest bits first;
/// one byte at the end becomes two characters, and two bytes become three, as if zero bits
/// followed.
pub proof fn base64_takes_six_bits_a_character(data: &[u8], r: String, g: int)
    requires
        call_ensures(base64_url_encode, (data,), r),
        0 <= g,
        3 * g < data@.len(),
    ensures
        data@.len() % 3 == 0 ==> r@.len() == data@.len() / 3 * 4,
        data@.len() % 3 != 0 ==> r@.len() == data@.len() / 3 * 4 + data@.len() % 3 + 1,
        3 * g + 2 < data@.len() ==> {
            &&& 4 * g + 3 < r@.len()
            &&& char_sextet(r@[4 * g]) is Some && char_sextet(r@[4 * g + 1]) is Some && char_sextet(
                r@[4 * g + 2],
            ) is Some && char_sextet(r@[4 * g + 3]) is Some
            &&& char_sextet(r@[4 * g])->0 * 0x4_0000 + char_sextet(r@[4 * g + 1])->0 * 0x1000
                + char_sextet(r@[4 * g + 2])->0 * 0x40 + char_sextet(r@[4 * g + 3])->0 == data@[3
                * g] * 0x1_0000 + data@[3 * g + 1] * 0x100 + data@[3 * g + 2]
        },
        3 * g + 2 == data@.len() ==> {
            &&& 4 * g + 3 == r@.len()
            &&& char_sextet(r@[4 * g]) is Some && char_sextet(r@[4 * g + 1]) is Some && char_sextet(
                r@[4 * g + 2],
            ) is Some
            &&& char_sextet(r@[4 * g])->0 * 0x1000 + char_sextet(r@[4 * g + 1])->0 * 0x40
                + char_sextet(r@[4 * g + 2])->0 == (data@[3 * g] * 0x100 + data@[3 * g + 1]) * 4
        },
        3 * g + 1 == data@.len() ==> {
            &&& 4 * g + 2 == r@.len()
            &&& char_sextet(r@[4 * g]) is Some && char_sextet(r@[4 * g + 1]) is Some
            &&& char_sextet(r@[4 * g])->0 * 0x40 + char_sextet(r@[4 * g + 1])->0 == data@[3 * g]
                * 16
        },
{
    let bytes = data@;
    lemma_group(bytes, 3 * g);
    lemma_chars_are_sextets(bytes);
    assert(encoded_len(3 * g) == 4 * g);
    let n = bytes.len() as int;
    let b0 = byte_or_zero(bytes, 3 * g);
    let b1 = byte_or_zero(bytes, 3 * g + 1);
    let b2 = byte_or_zero(bytes, 3 * g + 2);
    assert(r@ == base64_of(bytes));
    assert(char_sextet(r@[4 * g]) == Some(b0 / 4));
    assert(char_sextet(r@[4 * g + 1]) == Some((b0 % 4) * 16 + b1 / 16));
    if 3 * g + 1 < n {
        assert(char_sextet(r@[4 * g + 2]) == Some((b1 % 16) * 4 + b2 / 64));
    }
    if 3 * g + 2 < n {
        assert(char_sextet(r@[4 * g + 3]) == Some(b2 % 64));
    }
    assert((b0 / 4) * 0x4_0000 + ((b0 % 4) * 16 + b1 / 16) * 0x1000 + ((b1 % 16) * 4 + b2 / 64)
        * 0x40 + b2 % 64 == b0 * 0x1_0000 + b1 * 0x100 + b2);
}

/// Decoding gives back what was encoded; a text is refused if and only if it has a
/// character that is not in the alphabet.
pub proof fn decoding_gives_back_what_was_encoded(
    data: &[u8],
    text: String,
    input: &str,
    r: std::result::Result<Vec<u8>, &'static str>,
)
    requires
        call_ensures(base64_url_encode, (data,), text),
        call_ensures(base64_url_decode, (input,), r),
    ensures
        input@ == text@ ==> r is Ok && r->Ok_0@ == data@,
        r is Err <==> exists|i: int| 0 <= i < input@.len() && char_sextet(#[trigger] input@[i]) is None,
        r is Err ==> r->Err_0@ == "invalid base64 character"@,
{
    base64_roundtrip(data@);
}

/// The value of a decimal number, read from its digits.
pub open spec fn decimal_value(text: Seq<char>) -> int
    decreases text.len(),
{
    if text.len() == 0 {
        0
    } else {
        decimal_value(text.drop_last()) * 10 + (text.last() as int - '0' as int)
    }
}

/// A number in decimal has digits only and no zero in front, unless it is zero, and its
/// digits say the number.
pub proof fn decimal_says_the_number(n: nat)
    ensures
        decimal_value(decimal(n)) == n,
        decimal(n).len() > 0,
        n > 0 ==> decimal(n)[0] != '0',
        n == 0 ==> decimal(n) == seq!['0'],
        forall|i: int| 0 <= i < decimal(n).len() ==> '0' <= #[trigger] decimal(n)[i] <= '9',
    decreases n,
{
    let d = decimal(n);
    if n < 10 {
        assert(d.drop_last() =~= Seq::<char>::empty());
        assert(decimal_value(d.drop_last()) == 0);
    } else {
        decimal_says_the_number(n / 10);
        let before = decimal(n / 10);
        assert(d.drop_last() =~= before);
        assert forall|i: int| 0 <= i < d.len() implies '0' <= #[trigger] d[i] <= '9' by {
            if i < before.len() {
                assert(d[i] == before[i]);
            }
        }
        assert(d[0] == before[0]);
    }
}

/// Timestamps count from the epoch, in whole seconds or in nanoseconds, and are zero before
/// it.
pub proof fn timestamps_count_from_the_epoch(t: SystemTime, secs: u64, nanos: u64)
    requires
        call_ensures(timestamp_secs_at, (t,), secs),
        call_ensures(timestamp_nanos_at, (t,), nanos),
    ensures
        time::system_time_nanos(t) < 0 ==> secs == 0 && nanos == 0,
        0 <= time::system_time_nanos(t) <= u64::MAX ==> {
            &&& nanos == time::system_time_nanos(t)
            &&& secs * 1_000_000_000 <= nanos < (secs + 1) * 1_000_000_000
        },
{
}

/// Durations in milliseconds and in microseconds are rounded down.
pub proof fn durations_are_rounded_down(d: Duration, ms: u64, micros: u64)
    requires
        call_ensures(duration_as_ms, (d,), ms),
        call_ensures(duration_as_micros, (d,), micros),
        time::duration_nanos(d) <= u64::MAX,
    ensures
        ms * 1_000_000 <= time::duration_nanos(d) < (ms + 1) * 1_000_000,
        micros * 1_000 <= time::duration_nanos(d) < (micros + 1) * 1_000,
{
}

}
