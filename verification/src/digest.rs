//! Content hashing of token lists: rendering, BLAKE3, lowercase hex.
//!
//! Two steps are not proved here but taken on trust from the code that
//! performs them: the textual rendering of a token list and the BLAKE3 digest.
//! Each is a fixed function of its input, named below so that contracts can
//! speak of it. The hex encoding in between is verified.

use vstd::prelude::*;
use vstd::utf8::encode_utf8;

verus! {

/// The text that `{:?}` formatting gives for a list of strings.
pub uninterp spec fn debug_rendering(tokens: Seq<Seq<char>>) -> Seq<char>;

/// The 32-byte BLAKE3 digest of a byte string.
pub uninterp spec fn blake3_digest(input: Seq<u8>) -> Seq<u8>;

/// Trusted: `String::push` appends one character.
pub assume_specification[ String::push ](text: &mut String, ch: char)
    ensures
        final(text)@ == old(text)@.push(ch),
;

/// Trusted: renders the list with the standard library's `Debug` formatting of
/// `Vec<String>`. The contract claims only that the text is a function of the
/// strings in the list, in their order.
#[verifier::external_body]
fn render_tokens(tokens: &Vec<String>) -> (text: String)
    ensures
        text@ == debug_rendering(tokens.deep_view()),
{
    format!("{:?}", tokens)
}

/// Trusted: calls `blake3::hash` and copies the digest out of the `Hash` it
/// returns (`Hash::as_bytes`). The contract claims that the digest is a
/// function of the input bytes and is 32 bytes long.
#[verifier::external_body]
fn blake3_hash(input: &[u8]) -> (digest: Vec<u8>)
    ensures
        digest@ == blake3_digest(input@),
        digest@.len() == 32,
{
    blake3::hash(input).as_bytes().to_vec()
}

/// The lowercase hex digit for a value below sixteen.
pub open spec fn hex_digit(nibble: int) -> char {
    if nibble == 0 {
        '0'
    } else if nibble == 1 {
        '1'
    } else if nibble == 2 {
        '2'
    } else if nibble == 3 {
        '3'
    } else if nibble == 4 {
        '4'
    } else if nibble == 5 {
        '5'
    } else if nibble == 6 {
        '6'
    } else if nibble == 7 {
        '7'
    } else if nibble == 8 {
        '8'
    } else if nibble == 9 {
        '9'
    } else if nibble == 10 {
        'a'
    } else if nibble == 11 {
        'b'
    } else if nibble == 12 {
        'c'
    } else if nibble == 13 {
        'd'
    } else if nibble == 14 {
        'e'
    } else {
        'f'
    }
}

/// Lowercase hex encoding: two digits per byte, high half first.
pub open spec fn hex_lower(bytes: Seq<u8>) -> Seq<char> {
    Seq::new(
        2 * bytes.len(),
        |i: int|
            if i % 2 == 0 {
                hex_digit(bytes[i / 2] as int / 16)
            } else {
                hex_digit(bytes[i / 2] as int % 16)
            },
    )
}

/// The fingerprint of a token list: the hex form of the BLAKE3 digest of the
/// UTF-8 bytes of its rendering.
pub open spec fn fingerprint_of(tokens: Seq<Seq<char>>) -> Seq<char> {
    hex_lower(blake3_digest(encode_utf8(debug_rendering(tokens))))
}

/// The lowercase hex digit for a value below sixteen.
fn hex_digit_char(nibble: u8) -> (digit: char)
    requires
        nibble < 16,
    ensures
        digit == hex_digit(nibble as int),
{
    match nibble {
        0 => '0',
        1 => '1',
        2 => '2',
        3 => '3',
        4 => '4',
        5 => '5',
        6 => '6',
        7 => '7',
        8 => '8',
        9 => '9',
        10 => 'a',
        11 => 'b',
        12 => 'c',
        13 => 'd',
        14 => 'e',
        _ => 'f',
    }
}

/// Encodes bytes in lowercase hex.
pub fn to_hex_lower(bytes: &[u8]) -> (text: String)
    ensures
        text@ == hex_lower(bytes@),
{
    let mut text: String = String::new();
    let mut i: usize = 0;
    while i < bytes.len()
        invariant
            i <= bytes.len(),
            text@ == hex_lower(bytes@.subrange(0, i as int)),
        decreases bytes.len() - i,
    {
        let byte: u8 = bytes[i];
        text.push(hex_digit_char(byte / 16));
        text.push(hex_digit_char(byte % 16));
        i = i + 1;
        assert(text@ =~= hex_lower(bytes@.subrange(0, i as int)));
    }
    assert(bytes@.subrange(0, i as int) =~= bytes@);
    text
}

/// Hashes a token list: the list is rendered as text, the UTF-8 bytes of the
/// text are hashed with BLAKE3, and the digest is written in lowercase hex.
/// Equal lists, in equal order, give equal fingerprints.
pub fn fingerprint_tokens(tokens: &Vec<String>) -> (fingerprint: String)
    ensures
        fingerprint@ == fingerprint_of(tokens.deep_view()),
        fingerprint@.len() == 64,
{
    let rendering: String = render_tokens(tokens);
    let digest: Vec<u8> = blake3_hash(rendering.as_str().as_bytes());
    to_hex_lower(digest.as_slice())
}

} // verus!
