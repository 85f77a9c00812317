//! Content hashing and hexadecimal text: SHA-256 (sha2), and hex encoding,
//! decoding and error messages (hex), behind trusted wrappers.
use vstd::prelude::*;

verus! {

/// The SHA-256 digest of `data`, as computed by the sha2 crate.
pub uninterp spec fn sha256_spec(data: Seq<u8>) -> Seq<u8>;

/// `sha2::Sha256::digest`: the 32-byte SHA-256 digest of `data`. The contract
/// names the digest; it says nothing of its bytes.
#[verifier::external_body]
pub fn sha256(data: &[u8]) -> (out: [u8; 32])
    ensures
        out@ == sha256_spec(data@),
{
    <sha2::Sha256 as sha2::Digest>::digest(data).into()
}

/// A lower-case hexadecimal digit for `v < 16`.
pub open spec fn hex_digit(v: nat) -> char {
    if v < 10 {
        (48 + v) as char
    } else {
        (87 + v) as char
    }
}

/// Lower-case hexadecimal text of `bytes`: two digits per byte, high nibble
/// first.
pub open spec fn hex_lower(bytes: Seq<u8>) -> Seq<char>
    decreases bytes.len(),
{
    if bytes.len() == 0 {
        Seq::empty()
    } else {
        hex_lower(bytes.drop_last()) + seq![
            hex_digit((bytes.last() / 16) as nat),
            hex_digit((bytes.last() % 16) as nat),
        ]
    }
}

/// `hex::encode`: the lower-case hexadecimal text of `data`.
#[verifier::external_body]
pub fn hex_encode(data: &[u8]) -> (out: String)
    ensures
        out@ == hex_lower(data@),
{
    hex::encode(data)
}

/// The value of a hexadecimal digit byte (either case), if it is one.
pub open spec fn hex_value(b: u8) -> Option<nat> {
    if 48 <= b <= 57 {
        Some((b - 48) as nat)
    } else if 97 <= b <= 102 {
        Some((b - 87) as nat)
    } else if 65 <= b <= 70 {
        Some((b - 55) as nat)
    } else {
        None
    }
}

/// Why hexadecimal text did not decode (the variants of `hex::FromHexError`).
#[derive(Debug, Clone, Copy, PartialEq, Eq)]
pub enum HexError {
    /// The byte at `index` is not a hexadecimal digit; `c` is that byte as a
    /// character.
    InvalidHexCharacter { c: char, index: usize },
    /// The text has an odd number of bytes.
    OddLength,
    /// The text does not fit the fixed-size destination.
    InvalidStringLength,
}

/// Whether every byte of `b` before position `i` is a hexadecimal digit.
pub open spec fn hex_prefix_ok(b: Seq<u8>, i: int) -> bool {
    forall|j: int| 0 <= j < i ==> (#[trigger] hex_value(b[j])) is Some
}

/// The bytes that hexadecimal text denotes, two digits per byte.
pub open spec fn hex_bytes(b: Seq<u8>) -> Seq<u8> {
    Seq::new(
        b.len() / 2,
        |k: int| (hex_value(b[2 * k]).unwrap() * 16 + hex_value(b[2 * k + 1]).unwrap()) as u8,
    )
}

/// What `hex::decode` gives for the bytes `b`: `OddLength` for an odd number
/// of bytes; otherwise the first byte that is not a hexadecimal digit, if
/// any; otherwise the decoded bytes.
pub open spec fn hex_decode_spec(b: Seq<u8>) -> Result<Seq<u8>, HexError> {
    if b.len() % 2 != 0 {
        Err(HexError::OddLength)
    } else if hex_prefix_ok(b, b.len() as int) {
        Ok(hex_bytes(b))
    } else {
        let i = choose|i: int| 0 <= i < b.len() && hex_value(b[i]) is None && hex_prefix_ok(b, i);
        Err(HexError::InvalidHexCharacter { c: b[i] as char, index: i as usize })
    }
}

/// `hex::decode`, with the error converted variant for variant.
#[verifier::external_body]
pub fn hex_decode(data: &[u8]) -> (out: Result<Vec<u8>, HexError>)
    ensures
        match (out, hex_decode_spec(data@)) {
            (Ok(v), Ok(w)) => v@ == w,
            (Err(e), Err(f)) => e == f,
            _ => false,
        },
{
    match hex::decode(data) {
        Ok(v) => Ok(v),
        Err(hex::FromHexError::InvalidHexCharacter { c, index }) => Err(
            HexError::InvalidHexCharacter { c, index },
        ),
        Err(hex::FromHexError::OddLength) => Err(HexError::OddLength),
        Err(hex::FromHexError::InvalidStringLength) => Err(HexError::InvalidStringLength),
    }
}

/// `hex_lower` of a sequence of bytes is twice as long as the sequence.
pub proof fn lemma_hex_lower_len(bytes: Seq<u8>)
    ensures
        hex_lower(bytes).len() == 2 * bytes.len(),
    decreases bytes.len(),
{
    if bytes.len() > 0 {
        lemma_hex_lower_len(bytes.drop_last());
    }
}

/// A lower-case hexadecimal digit decodes to its value.
pub proof fn lemma_hex_digit_value(v: nat)
    requires
        v < 16,
    ensures
        hex_value(hex_digit(v) as u8) == Some(v),
{
    if v < 10 {
        assert((((48 + v) as char) as u8) == 48 + v);
    } else {
        assert((((87 + v) as char) as u8) == 87 + v);
    }
}

/// Decoding the lower-case hexadecimal text of `bytes` gives `bytes` back.
pub proof fn lemma_hex_roundtrip(bytes: Seq<u8>, text: Seq<u8>)
    requires
        text.len() == 2 * bytes.len(),
        forall|i: int|
            0 <= i < bytes.len() ==> text[2 * i] == (hex_digit((bytes[i] / 16) as nat) as u8) && text[2
                * i + 1] == (hex_digit((bytes[i] % 16) as nat) as u8),
    ensures
        hex_decode_spec(text) == Ok::<Seq<u8>, HexError>(bytes),
{
    assert forall|j: int| 0 <= j < text.len() implies (#[trigger] hex_value(text[j])) is Some by {
        let k = j / 2;
        assert(0 <= k < bytes.len());
        lemma_hex_digit_value((bytes[k] / 16) as nat);
        lemma_hex_digit_value((bytes[k] % 16) as nat);
        if j % 2 == 0 {
            assert(j == 2 * k);
        } else {
            assert(j == 2 * k + 1);
        }
    }
    assert(text.len() % 2 == 0);
    assert forall|k: int| 0 <= k < bytes.len() implies #[trigger] hex_bytes(text)[k] == bytes[k] by {
        lemma_hex_digit_value((bytes[k] / 16) as nat);
        lemma_hex_digit_value((bytes[k] % 16) as nat);
    }
    assert(hex_bytes(text) =~= bytes);
}

/// The digits of `hex_lower(bytes)`: two per byte, high nibble first; all
/// ASCII.
pub proof fn lemma_hex_lower_index(bytes: Seq<u8>)
    ensures
        hex_lower(bytes).len() == 2 * bytes.len(),
        forall|i: int|
            0 <= i < bytes.len() ==> #[trigger] hex_lower(bytes)[2 * i] == hex_digit(
                (bytes[i] / 16) as nat,
            ) && hex_lower(bytes)[2 * i + 1] == hex_digit((bytes[i] % 16) as nat),
        vstd::utf8::is_ascii_chars(hex_lower(bytes)),
    decreases bytes.len(),
{
    if bytes.len() > 0 {
        let p = bytes.drop_last();
        lemma_hex_lower_index(p);
        let t = hex_lower(bytes);
        assert forall|i: int| 0 <= i < bytes.len() implies #[trigger] t[2 * i] == hex_digit(
            (bytes[i] / 16) as nat,
        ) && t[2 * i + 1] == hex_digit((bytes[i] % 16) as nat) by {
            if i < p.len() {
                assert(p[i] == bytes[i]);
                assert(hex_lower(p)[2 * i] == hex_digit((p[i] / 16) as nat));
            }
        }
        assert forall|i: int| 0 <= i < t.len() implies '\0' <= #[trigger] t[i] <= '\u{7f}' by {
            if i < hex_lower(p).len() {
                assert(t[i] == hex_lower(p)[i]);
            } else {
                let v = if i == 2 * p.len() { (bytes.last() / 16) as nat } else { (bytes.last() % 16) as nat };
                assert(t[i] == hex_digit(v));
                assert((hex_digit(v) as u32) < 128);
            }
        }
    }
}

/// The UTF-8 bytes of `hex_lower(bytes)` decode back to `bytes`.
pub proof fn lemma_hex_text_decodes(bytes: Seq<u8>)
    ensures
        hex_decode_spec(vstd::utf8::encode_utf8(hex_lower(bytes))) == Ok::<Seq<u8>, HexError>(bytes),
{
    let t = hex_lower(bytes);
    lemma_hex_lower_index(bytes);
    vstd::utf8::is_ascii_chars_encode_utf8(t);
    let e = vstd::utf8::encode_utf8(t);
    assert forall|i: int| 0 <= i < bytes.len() implies e[2 * i] == (hex_digit((bytes[i] / 16) as nat) as u8)
        && e[2 * i + 1] == (hex_digit((bytes[i] % 16) as nat) as u8) by {
        assert(t[2 * i] == hex_digit((bytes[i] / 16) as nat));
        assert(t[2 * i + 1] == hex_digit((bytes[i] % 16) as nat));
        assert(e[2 * i] == t[2 * i] as u8);
        assert(e[2 * i + 1] == t[2 * i + 1] as u8);
    }
    lemma_hex_roundtrip(bytes, e);
}

// ---------------------------------------------------------------------------
// The message text of a decoding error

/// The message text that `hex::FromHexError::InvalidHexCharacter` displays:
/// `Invalid character {c:?} at position {index}`, with the character
/// written as `char`'s `Debug` writes it.
pub uninterp spec fn invalid_char_message(c: char, index: usize) -> Seq<char>;

/// The message text that `hex::FromHexError` displays for `e`.
pub open spec fn hex_error_display(e: HexError) -> Seq<char> {
    match e {
        HexError::InvalidHexCharacter { c, index } => invalid_char_message(c, index),
        HexError::OddLength => "Odd number of digits"@,
        HexError::InvalidStringLength => "Invalid string length"@,
    }
}

/// `ToString` of `hex::FromHexError`: the message text of the error, with
/// the error converted back variant for variant.
#[verifier::external_body]
pub fn hex_error_message(e: HexError) -> (out: String)
    ensures
        out@ == hex_error_display(e),
        e matches HexError::InvalidHexCharacter { c, index } ==> out@ == invalid_char_message(c, index),
{
    let err = match e {
        HexError::InvalidHexCharacter { c, index } => hex::FromHexError::InvalidHexCharacter { c, index },
        HexError::OddLength => hex::FromHexError::OddLength,
        HexError::InvalidStringLength => hex::FromHexError::InvalidStringLength,
    };
    err.to_string()
}

} // verus!
