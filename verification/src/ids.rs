//! Fresh ids for connecting clients: random version-4 UUIDs in their simple
//! text form.
use vstd::prelude::*;

verus! {

/// How many random ids a joining client may draw before the join gives
/// up: a drawn id that is already in use is drawn again.
pub const ID_DRAWS: usize = 4;

/// A lower-case hexadecimal digit.
pub open spec fn is_lower_hex(c: char) -> bool {
    ('0' <= c && c <= '9') || ('a' <= c && c <= 'f')
}

/// The simple (unhyphenated, lower-case) text of a random version-4 UUID:
/// 32 hexadecimal digits, the version digit `4` at index 12 and the
/// RFC 4122 variant (`8`, `9`, `a` or `b`) at index 16.
pub open spec fn is_simple_v4_text(s: Seq<char>) -> bool {
    &&& s.len() == 32
    &&& forall|i: int| 0 <= i < 32 ==> is_lower_hex(#[trigger] s[i])
    &&& s[12] == '4'
    &&& (s[16] == '8' || s[16] == '9' || s[16] == 'a' || s[16] == 'b')
}

/// The lower-case hexadecimal digit of `n`, for `n` below 16.
pub open spec fn hex_digit(n: u8) -> char {
    if n == 0 {
        '0'
    } else if n == 1 {
        '1'
    } else if n == 2 {
        '2'
    } else if n == 3 {
        '3'
    } else if n == 4 {
        '4'
    } else if n == 5 {
        '5'
    } else if n == 6 {
        '6'
    } else if n == 7 {
        '7'
    } else if n == 8 {
        '8'
    } else if n == 9 {
        '9'
    } else if n == 10 {
        'a'
    } else if n == 11 {
        'b'
    } else if n == 12 {
        'c'
    } else if n == 13 {
        'd'
    } else if n == 14 {
        'e'
    } else {
        'f'
    }
}

/// Byte `i` of the version-4 UUID made of `bytes`: byte 6 carries the
/// version 4 in its high nibble, byte 8 the RFC 4122 variant in its two
/// high bits, every other byte is as given.
pub open spec fn v4_byte(bytes: Seq<u8>, i: int) -> u8 {
    if i == 6 {
        (bytes[6] & 0x0f) | 0x40
    } else if i == 8 {
        (bytes[8] & 0x3f) | 0x80
    } else {
        bytes[i]
    }
}

/// The simple text of the version-4 UUID made of `bytes`: each of its 16
/// bytes as two lower-case hex digits, high nibble first.
pub open spec fn simple_v4_text_of(bytes: Seq<u8>) -> Seq<char> {
    Seq::new(
        32,
        |k: int|
            if k % 2 == 0 {
                hex_digit(v4_byte(bytes, k / 2) >> 4)
            } else {
                hex_digit(v4_byte(bytes, k / 2) & 0x0f)
            },
    )
}

/// Calls `getrandom::getrandom` on a buffer of 16 bytes.
///
/// It gives `Some` of the bytes where the system's random source filled the
/// buffer, and `None` where it reported a failure. Nothing is stated of
/// which bytes come back, nor of when the source fails: that rests on the
/// system.
#[verifier::external_body]
fn random_bytes() -> (bytes: Option<[u8; 16]>) {
    let mut buf = [0u8; 16];
    getrandom::getrandom(&mut buf).ok().map(|_| buf)
}

/// Makes a version-4 UUID of `bytes` with `uuid::Builder` (`from_bytes`,
/// `set_variant(RFC4122)`, `set_version(Random)`, `build`) and renders it
/// with `to_simple` and `to_string`.
///
/// The uuid source sets the high nibble of byte 6 to 4 and the two high
/// bits of byte 8 to `10`, and its simple adapter writes each byte as two
/// lower-case hex digits, high nibble first; the contract states exactly
/// that text.
#[verifier::external_body]
fn simple_v4_text(bytes: [u8; 16]) -> (id: String)
    ensures
        id@ == simple_v4_text_of(bytes@),
{
    uuid::Builder::from_bytes(bytes).set_variant(uuid::Variant::RFC4122).set_version(
        uuid::Version::Random,
    ).build().to_simple().to_string()
}

/// Every digit that `hex_digit` gives for a nibble is a lower-case hex digit.
proof fn lemma_hex_digit(n: u8)
    ensures
        is_lower_hex(hex_digit(n)),
{
}

/// The simple text of any version-4 UUID has the shape that
/// [`is_simple_v4_text`] describes.
pub proof fn lemma_simple_v4_text_shape(bytes: Seq<u8>)
    requires
        bytes.len() == 16,
    ensures
        is_simple_v4_text(simple_v4_text_of(bytes)),
{
    let s = simple_v4_text_of(bytes);
    assert forall|i: int| 0 <= i < 32 implies is_lower_hex(#[trigger] s[i]) by {
        if i % 2 == 0 {
            lemma_hex_digit(v4_byte(bytes, i / 2) >> 4);
        } else {
            lemma_hex_digit(v4_byte(bytes, i / 2) & 0x0f);
        }
    }
    let b6 = bytes[6];
    let b8 = bytes[8];
    assert(((b6 & 0x0f) | 0x40) >> 4 == 4u8) by (bit_vector);
    assert(((b8 & 0x3f) | 0x80) >> 4 >= 8u8 && ((b8 & 0x3f) | 0x80) >> 4 <= 11u8) by (bit_vector);
    assert(s[12] == hex_digit(v4_byte(bytes, 6) >> 4));
    assert(s[16] == hex_digit(v4_byte(bytes, 8) >> 4));
}

/// The client id made of `bytes`: the simple text of the version-4 UUID
/// made of them.
pub fn client_id_of(bytes: [u8; 16]) -> (id: String)
    ensures
        id@ == simple_v4_text_of(bytes@),
        is_simple_v4_text(id@),
{
    let id = simple_v4_text(bytes);
    proof {
        lemma_simple_v4_text_shape(bytes@);
    }
    id
}

/// A fresh random client id: `Some` of the client id made of 16 bytes from
/// the system's random source, or `None` where that source fails.
pub fn new_client_id() -> (id: Option<String>)
    ensures
        id matches Some(s) ==> is_simple_v4_text(s@),
{
    match random_bytes() {
        Some(bytes) => Some(client_id_of(bytes)),
        None => None,
    }
}

} // verus!
