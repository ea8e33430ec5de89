//! Certificate fingerprints.

use vstd::prelude::*;

verus! {

/// Bytes of a SHA-256 fingerprint.
pub const FINGERPRINT_LEN: usize = 32;

/// The SHA-256 digest of `message`.
pub uninterp spec fn sha256(message: Seq<u8>) -> Seq<u8>;

/// `sha2::Sha256::digest`: always thirty-two bytes, and the same for the same
/// message.
#[verifier::external_body]
fn sha256_digest(message: &[u8]) -> (r: Vec<u8>)
    ensures
        r@ == sha256(message@),
        r@.len() == FINGERPRINT_LEN,
{
    <sha2::Sha256 as sha2::Digest>::digest(message).to_vec()
}

/// The lower-case hexadecimal digit for a value below sixteen.
pub open spec fn hex_char(value: u8) -> char {
    if value < 10 {
        ('0' as u8 + value) as u8 as char
    } else {
        ('a' as u8 + (value - 10)) as u8 as char
    }
}

/// Two lower-case hexadecimal digits for each byte.
pub open spec fn hex_text(bytes: Seq<u8>) -> Seq<char> {
    Seq::new(
        2 * bytes.len(),
        |i: int|
            hex_char(
                if i % 2 == 0 {
                    bytes[i / 2] / 16
                } else {
                    bytes[i / 2] % 16
                },
            ),
    )
}

fn hex_digit(value: u8) -> (r: char)
    requires
        value < 16,
    ensures
        r == hex_char(value),
{
    if value < 10 {
        (48 + value) as char
    } else {
        (97 + (value - 10)) as char
    }
}

/// Writes `bytes` in hexadecimal.
pub fn encode_hex(bytes: &[u8]) -> (r: String)
    ensures
        r@ == hex_text(bytes@),
{
    let mut encoded = String::new();
    let mut i: usize = 0;
    assert(hex_text(bytes@.take(0)) =~= Seq::empty());
    while i < bytes.len()
        invariant
            i <= bytes@.len(),
            encoded@ == hex_text(bytes@.take(i as int)),
        decreases bytes@.len() - i,
    {
        let byte: u8 = bytes[i];
        encoded.push(hex_digit(byte / 16));
        encoded.push(hex_digit(byte % 16));
        proof {
            let before = bytes@.take(i as int);
            let after = bytes@.take(i + 1);
            assert forall|k: int| 0 <= k < encoded@.len() implies encoded@[k] == hex_text(
                after,
            )[k] by {
                if k < 2 * i {
                    assert(after[k / 2] == before[k / 2]);
                } else {
                    assert(k / 2 == i);
                }
            }
            assert(encoded@ =~= hex_text(after));
        }
        i += 1;
    }
    assert(bytes@.take(bytes@.len() as int) =~= bytes@);
    encoded
}

/// Why a text is no fingerprint.
#[derive(Clone, Copy, Debug, PartialEq, Eq, Structural)]
pub enum FingerprintError {
    /// Its length in bytes is wrong.
    Length { len: usize },
    /// Some two of its bytes are no hexadecimal number.
    Digits,
}

/// The value of a hexadecimal digit of either case.
pub open spec fn hex_value(byte: u8) -> Option<u8> {
    if 48 <= byte <= 57 {
        Some((byte - 48) as u8)
    } else if 97 <= byte <= 102 {
        Some((byte - 87) as u8)
    } else if 65 <= byte <= 70 {
        Some((byte - 55) as u8)
    } else {
        None
    }
}

/// The number that two bytes of text stand for in hexadecimal. As in any
/// unsigned number a plus sign may come first.
pub open spec fn pair_value(high: u8, low: u8) -> Option<u8> {
    match hex_value(low) {
        None => None,
        Some(l) => if high == 43 {
            Some(l)
        } else {
            match hex_value(high) {
                Some(h) => Some((16 * h + l) as u8),
                None => None,
            }
        },
    }
}

/// The number that the `i`th two bytes of `bytes` stand for.
pub open spec fn pair_at(bytes: Seq<u8>, i: int) -> Option<u8> {
    pair_value(bytes[2 * i], bytes[2 * i + 1])
}

/// The fingerprint that `text` stands for.
pub open spec fn fingerprint_reading(text: Seq<char>) -> Result<Seq<u8>, FingerprintError> {
    let bytes = vstd::utf8::encode_utf8(text);
    if bytes.len() != 2 * FINGERPRINT_LEN {
        Err(FingerprintError::Length { len: bytes.len() as usize })
    } else if exists|i: int| 0 <= i < FINGERPRINT_LEN && #[trigger] pair_at(bytes, i) is None {
        Err(FingerprintError::Digits)
    } else {
        Ok(Seq::new(FINGERPRINT_LEN as nat, |i: int| pair_at(bytes, i)->0))
    }
}

fn read_hex(byte: u8) -> (r: Option<u8>)
    ensures
        r == hex_value(byte),
        r is Some ==> r->0 < 16,
{
    if 48 <= byte && byte <= 57 {
        Some(byte - 48)
    } else if 97 <= byte && byte <= 102 {
        Some(byte - 87)
    } else if 65 <= byte && byte <= 70 {
        Some(byte - 55)
    } else {
        None
    }
}

/// Reads a fingerprint written in hexadecimal.
pub fn decode_fingerprint(encoded: &str) -> (r: Result<[u8; 32], FingerprintError>)
    ensures
        match r {
            Ok(decoded) => fingerprint_reading(encoded@) == Ok::<Seq<u8>, FingerprintError>(
                decoded@,
            ),
            Err(error) => fingerprint_reading(encoded@) == Err::<Seq<u8>, FingerprintError>(error),
        },
{
    let bytes = encoded.as_bytes();
    if bytes.len() != 2 * FINGERPRINT_LEN {
        return Err(FingerprintError::Length { len: bytes.len() });
    }
    let mut decoded: [u8; 32] = [0; 32];
    let mut i: usize = 0;
    while i < FINGERPRINT_LEN
        invariant
            i <= FINGERPRINT_LEN,
            bytes@ == vstd::utf8::encode_utf8(encoded@),
            bytes@.len() == 2 * FINGERPRINT_LEN,
            decoded@.len() == FINGERPRINT_LEN,
            forall|j: int| 0 <= j < i ==> #[trigger] pair_at(bytes@, j) == Some(decoded@[j]),
        decreases FINGERPRINT_LEN - i,
    {
        let high: u8 = bytes[2 * i];
        let value: Option<u8> = match read_hex(bytes[2 * i + 1]) {
            None => None,
            Some(low) => {
                if high == 43 {
                    Some(low)
                } else {
                    match read_hex(high) {
                        Some(high) => Some(16 * high + low),
                        None => None,
                    }
                }
            },
        };
        assert(value == pair_at(bytes@, i as int));
        match value {
            Some(value) => {
                let ghost earlier = decoded@;
                decoded[i] = value;
                assert(forall|j: int| 0 <= j < i ==> decoded@[j] == #[trigger] earlier[j]);
            },
            None => {
                return Err(FingerprintError::Digits);
            },
        }
        i += 1;
    }
    assert(decoded@ =~= fingerprint_reading(encoded@)->Ok_0);
    Ok(decoded)
}

/// The fingerprint of a certificate, written in hexadecimal.
pub fn certificate_fingerprint(certificate: &[u8]) -> (r: String)
    ensures
        r@ == hex_text(sha256(certificate@)),
{
    let digest = sha256_digest(certificate);
    encode_hex(digest.as_slice())
}

/// Whether a certificate is the one whose fingerprint is `expected`.
pub fn certificate_matches(certificate: &[u8], expected: &[u8; 32]) -> (r: bool)
    ensures
        r == (sha256(certificate@) == expected@),
{
    let actual = sha256_digest(certificate);
    fingerprints_match(actual.as_slice(), expected)
}

/// Whether a digest is the expected fingerprint.
pub fn fingerprints_match(actual: &[u8], expected: &[u8; 32]) -> (r: bool)
    ensures
        r == (actual@ == expected@),
{
    if actual.len() != FINGERPRINT_LEN {
        return false;
    }
    let mut i: usize = 0;
    while i < FINGERPRINT_LEN
        invariant
            i <= FINGERPRINT_LEN,
            actual@.len() == FINGERPRINT_LEN,
            forall|j: int| 0 <= j < i ==> actual@[j] == expected@[j],
        decreases FINGERPRINT_LEN - i,
    {
        if actual[i] != expected[i] {
            return false;
        }
        i += 1;
    }
    assert(actual@ =~= expected@);
    true
}

/// A fingerprint that was written in hexadecimal reads back as itself.
pub proof fn fingerprint_round_trip(bytes: Seq<u8>)
    requires
        bytes.len() == FINGERPRINT_LEN,
    ensures
        fingerprint_reading(hex_text(bytes)) == Ok::<Seq<u8>, FingerprintError>(bytes),
{
    let text = hex_text(bytes);
    assert(vstd::utf8::is_ascii_chars(text)) by {
        assert forall|i: int| 0 <= i < text.len() implies (#[trigger] text[i]) as u32 <= 0x7f by {
        }
    }
    vstd::utf8::is_ascii_chars_encode_utf8(text);
    let encoded = vstd::utf8::encode_utf8(text);
    assert forall|i: int| 0 <= i < FINGERPRINT_LEN implies #[trigger] pair_at(encoded, i) == Some(
        bytes[i],
    ) by {
        assert(text[2 * i] == hex_char(bytes[i] / 16));
        assert(text[2 * i + 1] == hex_char(bytes[i] % 16));
    }
    assert(fingerprint_reading(text)->Ok_0 =~= bytes);
}

/// A byte is written as two hexadecimal digits in lower case, the higher one
/// first.
pub proof fn bytes_are_written_as_two_digits(bytes: Seq<u8>, i: int)
    requires
        0 <= i < bytes.len(),
    ensures
        hex_text(bytes).len() == 2 * bytes.len(),
        hex_value(hex_text(bytes)[2 * i] as u8) == Some((bytes[i] / 16) as u8),
        hex_value(hex_text(bytes)[2 * i + 1] as u8) == Some((bytes[i] % 16) as u8),
        '0' <= hex_text(bytes)[2 * i] <= '9' || 'a' <= hex_text(bytes)[2 * i] <= 'f',
        '0' <= hex_text(bytes)[2 * i + 1] <= '9' || 'a' <= hex_text(bytes)[2 * i + 1] <= 'f',
{
}

/// Digits have their values, letters in either case, and nothing else is one.
pub proof fn digits_have_their_values(byte: u8)
    ensures
        '0' as u8 <= byte <= '9' as u8 ==> hex_value(byte) == Some((byte - '0' as u8) as u8),
        'a' as u8 <= byte <= 'f' as u8 ==> hex_value(byte) == Some((byte - 'a' as u8 + 10) as u8),
        'A' as u8 <= byte <= 'F' as u8 ==> hex_value(byte) == Some((byte - 'A' as u8 + 10) as u8),
        hex_value(byte) is Some ==> ('0' as u8 <= byte <= '9' as u8) || ('a' as u8 <= byte
            <= 'f' as u8) || ('A' as u8 <= byte <= 'F' as u8),
{
}

/// A text is a fingerprint just if it has 64 bytes and each two of them are a
/// hexadecimal number. What it is read as has 32 bytes, each the value of its two
/// digits.
pub proof fn fingerprints_are_read_pair_by_pair(text: Seq<char>, i: int)
    requires
        0 <= i < 32,
    ensures
        ({
            let bytes = vstd::utf8::encode_utf8(text);
            let r = fingerprint_reading(text);
            &&& bytes.len() != 64 ==> r is Err && r->Err_0 is Length
            &&& bytes.len() == 64 && hex_value(bytes[2 * i + 1]) is None ==> r is Err && r->Err_0
                == FingerprintError::Digits
            &&& bytes.len() == 64 && bytes[2 * i] != '+' as u8 && hex_value(bytes[2 * i]) is None
                ==> r is Err && r->Err_0 == FingerprintError::Digits
            &&& r is Ok ==> r->Ok_0.len() == 32 && bytes.len() == 64
            &&& r is Ok && bytes[2 * i] != '+' as u8 ==> r->Ok_0[i] == 16 * hex_value(
                bytes[2 * i],
            )->0 + hex_value(bytes[2 * i + 1])->0
        }),
{
    let bytes = vstd::utf8::encode_utf8(text);
    if bytes.len() == 64 {
        assert(pair_at(bytes, i) == pair_value(bytes[2 * i], bytes[2 * i + 1]));
    }
}

} // verus!
