//! Payload encodings: hexadecimal text, zlib compression and lossy UTF-8 text.
use flate2::write::ZlibEncoder;
use flate2::Compression;
use std::io::Write;
use vstd::prelude::*;

verus! {

/// An ASCII hexadecimal digit, in either case.
pub open spec fn is_hex_digit(b: u8) -> bool {
    (48 <= b <= 57) || (65 <= b <= 70) || (97 <= b <= 102)
}

/// The value of a hexadecimal digit.
pub open spec fn hex_value(b: u8) -> int {
    if 48 <= b <= 57 {
        b - 48
    } else if 65 <= b <= 70 {
        b - 55
    } else {
        b - 87
    }
}

/// Text that decodes as hexadecimal: an even number of hex digits.
pub open spec fn is_hex_text(s: Seq<u8>) -> bool {
    &&& s.len() % 2 == 0
    &&& forall|i: int| 0 <= i < s.len() ==> is_hex_digit(#[trigger] s[i])
}

/// The bytes that hexadecimal text stands for, two digits per byte, high digit first.
pub open spec fn hex_bytes(s: Seq<u8>) -> Seq<u8> {
    Seq::new(s.len() / 2, |i: int| (16 * hex_value(s[2 * i]) + hex_value(s[2 * i + 1])) as u8)
}

/// The lower-case hexadecimal digit for a value below sixteen.
pub open spec fn hex_digit(n: int) -> u8 {
    if n < 10 {
        (48 + n) as u8
    } else {
        (87 + n) as u8
    }
}

/// Lower-case hexadecimal text of bytes, two digits per byte, high digit first.
pub open spec fn hex_text(b: Seq<u8>) -> Seq<u8> {
    Seq::new(
        2 * b.len(),
        |i: int|
            if i % 2 == 0 {
                hex_digit(b[i / 2] as int / 16)
            } else {
                hex_digit(b[i / 2] as int % 16)
            },
    )
}

/// The zlib stream (default level) that compresses the given bytes.
pub uninterp spec fn zlib_of(data: Seq<u8>) -> Seq<u8>;

/// The text that bytes read as UTF-8, with each invalid sequence replaced.
pub uninterp spec fn lossy_text(bytes: Seq<u8>) -> Seq<char>;

#[verifier::external_type_specification]
#[verifier::external_body]
pub struct ExFromHexError(hex::FromHexError);

/// Relies on hex::decode: it accepts exactly an even number of digits of
/// either case and turns each pair into one byte, high digit first.
#[verifier::external_body]
fn decode_hex(text: &[u8]) -> (r: Result<Vec<u8>, hex::FromHexError>)
    ensures
        r is Ok <==> is_hex_text(text@),
        r matches Ok(v) ==> v@ == hex_bytes(text@),
{
    hex::decode(text)
}

/// Relies on hex::encode: two lower-case digits per byte, high digit first.
#[verifier::external_body]
fn encode_hex(data: &[u8]) -> (r: Vec<u8>)
    ensures
        r@ == hex_text(data@),
{
    hex::encode(data).into_bytes()
}

/// Relies on flate2's ZlibEncoder at the default level; writing into a `Vec`
/// cannot fail, so the stream is always produced.
#[verifier::external_body]
pub(crate) fn compress(data: &[u8]) -> (r: Vec<u8>)
    ensures
        r@ == zlib_of(data@),
{
    let mut encoder = ZlibEncoder::new(Vec::new(), Compression::default());
    encoder.write_all(data).unwrap();
    encoder.finish().unwrap()
}

/// Relies on String::from_utf8_lossy: the text depends on the bytes alone.
#[verifier::external_body]
pub(crate) fn text_of(bytes: &[u8]) -> (r: String)
    ensures
        r@ == lossy_text(bytes@),
{
    String::from_utf8_lossy(bytes).into_owned()
}

/// The bytes stored for a `SET` payload: the decoded hexadecimal text. Text
/// that is not hexadecimal is tolerated rather than rejected, and stores an
/// empty value; the write still succeeds.
pub open spec fn payload_of(text: Seq<u8>) -> Seq<u8> {
    if is_hex_text(text) {
        hex_bytes(text)
    } else {
        Seq::empty()
    }
}

/// Decodes a hexadecimal payload. Malformed text is a tolerated laxity of the
/// protocol, not a promise to rely on: it gives an empty value.
pub fn decode_payload(text: &[u8]) -> (r: Vec<u8>)
    ensures
        r@ == payload_of(text@),
{
    match decode_hex(text) {
        Ok(v) => v,
        Err(_) => Vec::new(),
    }
}

/// Hexadecimal text of a zlib stream of the value: how a client sends a value.
pub open spec fn wire_value(value: Seq<u8>) -> Seq<u8> {
    hex_text(zlib_of(value))
}

/// Compresses a value and writes it as lower-case hexadecimal text.
pub fn encode_value(value: &[u8]) -> (r: Vec<u8>)
    ensures
        r@ == wire_value(value@),
{
    let packed = compress(value);
    encode_hex(packed.as_slice())
}

/// Hexadecimal text decodes back to the bytes it was made from.
pub proof fn lemma_hex_round_trip(b: Seq<u8>)
    ensures
        is_hex_text(hex_text(b)),
        hex_bytes(hex_text(b)) == b,
{
    let t = hex_text(b);
    assert forall|i: int| 0 <= i < t.len() implies is_hex_digit(#[trigger] t[i]) by {
        let x = b[i / 2] as int;
        assert(x / 16 < 16 && x % 16 < 16);
    }
    assert forall|j: int| 0 <= j < b.len() implies #[trigger] hex_bytes(t)[j] == b[j] by {
        let x = b[j] as int;
        assert((2 * j) % 2 == 0 && (2 * j) / 2 == j && (2 * j + 1) % 2 == 1 && (2 * j + 1) / 2 == j);
        assert(hex_value(hex_digit(x / 16)) == x / 16);
        assert(hex_value(hex_digit(x % 16)) == x % 16);
        assert(16 * (x / 16) + x % 16 == x);
    }
    assert(hex_bytes(t) =~= b);
}

} // verus!
