//! Big-endian integers and UTF-8 text in sequences of bytes.

use crate::views::result_view;
use vstd::prelude::*;
use vstd::string::*;
use vstd::utf8::*;

verus! {

/// The 16-bit number at `at`, high byte first.
pub open spec fn be16(data: Seq<u8>, at: int) -> u16 {
    (data[at] * 0x100 + data[at + 1]) as u16
}

/// The 32-bit number at `at`, high byte first.
pub open spec fn be32(data: Seq<u8>, at: int) -> u32 {
    (data[at] * 0x100_0000 + data[at + 1] * 0x1_0000 + data[at + 2] * 0x100 + data[at + 3]) as u32
}

/// A 16-bit number as bytes, high byte first.
pub open spec fn be16_bytes(n: u16) -> Seq<u8> {
    seq![(n / 0x100) as u8, (n % 0x100) as u8]
}

/// A 32-bit number as bytes, high byte first.
pub open spec fn be32_bytes(n: u32) -> Seq<u8> {
    seq![
        (n / 0x100_0000) as u8,
        (n / 0x1_0000 % 0x100) as u8,
        (n / 0x100 % 0x100) as u8,
        (n % 0x100) as u8,
    ]
}

/// The signed number with these 16 bits, in two's complement.
pub open spec fn signed16(n: u16) -> i16 {
    if n < 0x8000 {
        n as i16
    } else {
        (n - 0x1_0000) as i16
    }
}

/// The signed number with these 32 bits, in two's complement.
pub open spec fn signed32(n: u32) -> i32 {
    if n < 0x8000_0000 {
        n as i32
    } else {
        (n - 0x1_0000_0000) as i32
    }
}

/// The 16 bits of a signed number, in two's complement.
pub open spec fn unsigned16(n: i16) -> u16 {
    (n as int % 0x1_0000) as u16
}

/// The 32 bits of a signed number, in two's complement.
pub open spec fn unsigned32(n: i32) -> u32 {
    (n as int % 0x1_0000_0000) as u32
}

/// Writing a 16-bit number and reading it gives the number back.
pub proof fn law_be16_round_trip(n: u16, before: Seq<u8>, after: Seq<u8>)
    ensures
        be16(before + be16_bytes(n) + after, before.len() as int) == n,
{
    let data = before + be16_bytes(n) + after;
    let at = before.len() as int;
    assert(data[at] == n / 0x100 && data[at + 1] == n % 0x100);
}

/// Writing a 32-bit number and reading it gives the number back.
pub proof fn law_be32_round_trip(n: u32, before: Seq<u8>, after: Seq<u8>)
    ensures
        be32(before + be32_bytes(n) + after, before.len() as int) == n,
{
    let data = before + be32_bytes(n) + after;
    let at = before.len() as int;
    let low = n / 0x100;
    let high = low / 0x100;
    assert(n / 0x1_0000 == high && n / 0x100_0000 == high / 0x100);
    assert(n == low * 0x100 + n % 0x100 && low == high * 0x100 + low % 0x100);
    assert(high == (high / 0x100) * 0x100 + high % 0x100);
    assert(data[at] == high / 0x100);
    assert(data[at + 1] == high % 0x100);
    assert(data[at + 2] == low % 0x100);
    assert(data[at + 3] == n % 0x100);
}

/// Two's complement loses nothing.
pub proof fn law_twos_complement_round_trip(n: i16, m: i32)
    ensures
        signed16(unsigned16(n)) == n,
        signed32(unsigned32(m)) == m,
{
}

/// The 16-bit number at `at`.
pub fn read16(data: &[u8], at: usize) -> (r: u16)
    requires
        at + 2 <= data@.len(),
    ensures
        r == be16(data@, at as int),
{
    data[at] as u16 * 0x100 + data[at + 1] as u16
}

/// The 32-bit number at `at`.
pub fn read32(data: &[u8], at: usize) -> (r: u32)
    requires
        at + 4 <= data@.len(),
    ensures
        r == be32(data@, at as int),
{
    data[at] as u32 * 0x100_0000 + data[at + 1] as u32 * 0x1_0000 + data[at + 2] as u32 * 0x100
        + data[at + 3] as u32
}

/// Appends a 16-bit number.
pub fn push16(bytes: &mut Vec<u8>, n: u16)
    ensures
        final(bytes)@ == old(bytes)@ + be16_bytes(n),
{
    bytes.push((n / 0x100) as u8);
    bytes.push((n % 0x100) as u8);
    assert(bytes@ =~= old(bytes)@ + be16_bytes(n));
}

/// Appends a 32-bit number.
pub fn push32(bytes: &mut Vec<u8>, n: u32)
    ensures
        final(bytes)@ == old(bytes)@ + be32_bytes(n),
{
    bytes.push((n / 0x100_0000) as u8);
    bytes.push((n / 0x1_0000 % 0x100) as u8);
    bytes.push((n / 0x100 % 0x100) as u8);
    bytes.push((n % 0x100) as u8);
    assert(bytes@ =~= old(bytes)@ + be32_bytes(n));
}

/// Appends bytes.
pub fn push_bytes(bytes: &mut Vec<u8>, more: &[u8])
    ensures
        final(bytes)@ == old(bytes)@ + more@,
{
    bytes.extend_from_slice(more);
    assert(bytes@ =~= old(bytes)@ + more@);
}

/// The bytes from `from` on, as a vector.
pub fn tail_of(data: &[u8], from: usize) -> (r: Vec<u8>)
    requires
        from <= data@.len(),
    ensures
        r@ == data@.skip(from as int),
{
    let mut r: Vec<u8> = Vec::new();
    push_bytes(&mut r, &data[from..data.len()]);
    assert(r@ =~= data@.skip(from as int));
    r
}

/// The signed number with these 16 bits.
pub fn to_signed16(n: u16) -> (r: i16)
    ensures
        r == signed16(n),
{
    if n < 0x8000 {
        n as i16
    } else {
        (n as i32 - 0x1_0000) as i16
    }
}

/// The signed number with these 32 bits.
pub fn to_signed32(n: u32) -> (r: i32)
    ensures
        r == signed32(n),
{
    if n < 0x8000_0000 {
        n as i32
    } else {
        (n as i64 - 0x1_0000_0000) as i32
    }
}

/// The 16 bits of a signed number.
pub fn to_unsigned16(n: i16) -> (r: u16)
    ensures
        r == unsigned16(n),
{
    if n < 0 {
        (n as i32 + 0x1_0000) as u16
    } else {
        n as u16
    }
}

/// The 32 bits of a signed number.
pub fn to_unsigned32(n: i32) -> (r: u32)
    ensures
        r == unsigned32(n),
{
    if n < 0 {
        (n as i64 + 0x1_0000_0000) as u32
    } else {
        n as u32
    }
}

/// Whether a byte is among `data`.
pub fn contains_byte(data: &[u8], byte: u8) -> (r: bool)
    ensures
        r == data@.contains(byte),
{
    let mut i: usize = 0;
    while i < data.len()
        invariant
            i <= data@.len(),
            forall|k: int| 0 <= k < i ==> data@[k] != byte,
        decreases data@.len() - i,
    {
        if data[i] == byte {
            return true;
        }
        i += 1;
    }
    false
}

/// Where bytes stop being UTF-8: how many of them are, and how many then break it, where it is
/// not the end of the bytes that does.
#[derive(Debug, Clone, Copy, PartialEq, Eq, Structural)]
pub struct Utf8Failure {
    pub valid_up_to: usize,
    pub error_len: Option<usize>,
}

impl View for Utf8Failure {
    type V = Utf8Failure;

    open spec fn view(&self) -> Utf8Failure {
        *self
    }
}

/// The length of the longest prefix, of at most `length` bytes, that is UTF-8.
pub open spec fn valid_prefix(bytes: Seq<u8>, length: nat) -> nat
    decreases length,
{
    if length == 0 || valid_utf8(bytes.take(length as int)) {
        length
    } else {
        valid_prefix(bytes, (length - 1) as nat)
    }
}

/// The length that `std::str::Utf8Error::error_len` gives for bytes that are not UTF-8.
pub uninterp spec fn utf8_error_len(bytes: Seq<u8>) -> Option<usize>;

/// The text that bytes spell in UTF-8.
pub open spec fn utf8_text(bytes: Seq<u8>) -> Result<Seq<char>, Utf8Failure> {
    if valid_utf8(bytes) {
        Ok(decode_utf8(bytes))
    } else {
        Err(
            Utf8Failure {
                valid_up_to: valid_prefix(bytes, bytes.len()) as usize,
                error_len: utf8_error_len(bytes),
            },
        )
    }
}

/// `std::str::from_utf8`: the text where the bytes are UTF-8. Where they are not,
/// `Utf8Error::valid_up_to` is the length of the longest prefix that is, and
/// `Utf8Error::error_len` depends on the bytes alone; nothing else is claimed of that length.
#[verifier::external_body]
fn from_utf8(bytes: &[u8]) -> (r: Result<String, Utf8Failure>)
    ensures
        match r {
            Ok(text) => valid_utf8(bytes@) && text@ == decode_utf8(bytes@),
            Err(failure) => !valid_utf8(bytes@) && failure.valid_up_to == valid_prefix(
                bytes@,
                bytes@.len(),
            ) && failure.error_len == utf8_error_len(bytes@),
        },
{
    match std::str::from_utf8(bytes) {
        Ok(text) => Ok(text.to_owned()),
        Err(error) => Err(
            Utf8Failure { valid_up_to: error.valid_up_to(), error_len: error.error_len() },
        ),
    }
}

/// The text that bytes spell in UTF-8.
pub fn decode_text(bytes: &[u8]) -> (r: Result<String, Utf8Failure>)
    ensures
        result_view(r) == utf8_text(bytes@),
{
    from_utf8(bytes)
}

/// The text of some characters, encoded, decodes to those characters.
pub proof fn law_utf8_round_trip(text: Seq<char>)
    ensures
        utf8_text(encode_utf8(text)) == Ok::<Seq<char>, Utf8Failure>(text),
{
    encode_utf8_valid_utf8(text);
    encode_utf8_decode_utf8(text);
}

} // verus!
