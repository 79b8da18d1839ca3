//! Payment identifiers: 32 bytes, written outside as 64 hexadecimal digits.

use vstd::prelude::*;
use std::str::FromStr;
use ldk_node::bitcoin::hashes::sha256;
use ldk_node::bitcoin::secp256k1::rand::rngs::OsRng;
use ldk_node::bitcoin::secp256k1::rand::RngCore;
use ldk_node::lightning::ln::PaymentHash;
use crate::error::NodeError;

verus! {

/// The lower-case hexadecimal digit for a value from 0 to 15.
pub open spec fn hex_digit(nibble: int) -> char {
    if nibble < 10 {
        ((48 + nibble) as u8) as char
    } else {
        ((87 + nibble) as u8) as char
    }
}

/// The value of a hexadecimal digit of either case, or -1 for any other
/// character.
pub open spec fn hex_value(digit: char) -> int {
    let code = digit as u32 as int;
    if 48 <= code <= 57 {
        code - 48
    } else if 97 <= code <= 102 {
        code - 87
    } else if 65 <= code <= 70 {
        code - 55
    } else {
        -1
    }
}

/// Bytes in lower-case hexadecimal, two digits for each byte, the high
/// half first.
pub open spec fn hex_lower(bytes: Seq<u8>) -> Seq<char> {
    Seq::new(
        2 * bytes.len(),
        |i: int|
            if i % 2 == 0 {
                hex_digit(bytes[i / 2] as int / 16)
            } else {
                hex_digit(bytes[i / 2] as int % 16)
            },
    )
}

/// Whether a text is the outside form of a payment identifier: exactly 64
/// hexadecimal digits.
pub open spec fn is_hex_hash(text: Seq<char>) -> bool {
    &&& text.len() == 64
    &&& forall|i: int| 0 <= i < 64 ==> hex_value(#[trigger] text[i]) >= 0
}

/// The bytes that a text of hexadecimal digits stands for, two digits for
/// each byte, the high half first.
pub open spec fn hex_bytes(text: Seq<char>) -> Seq<u8> {
    Seq::new(
        text.len() / 2,
        |i: int| (16 * hex_value(text[2 * i]) + hex_value(text[2 * i + 1])) as u8,
    )
}

/// Whether every one of the bytes is zero.
pub open spec fn all_zero(bytes: Seq<u8>) -> bool {
    forall|i: int| 0 <= i < bytes.len() ==> #[trigger] bytes[i] == 0
}

/// `sha256::Hash::from_str`, then the hash's bytes: the text is read as
/// hexadecimal digits of either case, two for each byte in the order
/// written, and refused unless it is exactly 64 such digits.
#[verifier::external_body]
fn hash_from_hex(text: &str) -> (hash: Option<[u8; 32]>)
    ensures
        hash is Some <==> is_hex_hash(text@),
        hash is Some ==> hash.unwrap()@ == hex_bytes(text@),
{
    match sha256::Hash::from_str(text) {
        Ok(hash) => Some(*hash.as_ref()),
        Err(_) => None,
    }
}

/// `PaymentHash`'s `to_string`: every byte as two lower-case hexadecimal
/// digits, in order.
#[verifier::external_body]
fn hash_to_hex(hash: &[u8; 32]) -> (text: String)
    ensures
        text@ == hex_lower(hash@),
{
    PaymentHash(*hash).to_string()
}

/// `OsRng::try_fill_bytes` on 32 bytes: what the operating system's
/// random source gave, or nothing when it failed. Nothing is claimed of the
/// bytes.
#[verifier::external_body]
pub(crate) fn random_bytes() -> (bytes: Option<[u8; 32]>) {
    let mut bytes = [0u8; 32];
    match OsRng.try_fill_bytes(&mut bytes) {
        Ok(()) => Some(bytes),
        Err(_) => None,
    }
}

/// Reads a payment identifier from its outside form. Succeeds exactly on
/// 64 hexadecimal digits.
pub fn parse_payment_hash(text: &str) -> (parsed: Result<[u8; 32], NodeError>)
    ensures
        parsed is Ok <==> is_hex_hash(text@),
        parsed is Ok ==> parsed.unwrap()@ == hex_bytes(text@),
        parsed is Err ==> parsed == Err::<[u8; 32], NodeError>(NodeError::InvalidPaymentHash),
{
    match hash_from_hex(text) {
        Some(hash) => Ok(hash),
        None => Err(NodeError::InvalidPaymentHash),
    }
}

/// Writes a payment identifier in its outside form: 64 lower-case
/// hexadecimal digits.
pub fn format_payment_hash(hash: &[u8; 32]) -> (text: String)
    ensures
        text@ == hex_lower(hash@),
{
    hash_to_hex(hash)
}

/// Whether two arrays of bytes hold the same bytes.
pub fn same_bytes<const N: usize>(a: &[u8; N], b: &[u8; N]) -> (same: bool)
    ensures
        same == (a@ == b@),
{
    let mut i: usize = 0;
    while i < N
        invariant
            i <= N,
            forall|j: int| 0 <= j < i ==> a@[j] == b@[j],
        decreases N - i,
    {
        if a[i] != b[i] {
            return false;
        }
        i += 1;
    }
    assert(a@ =~= b@);
    true
}

/// Whether every byte of an identifier is zero.
pub fn is_all_zero(bytes: &[u8; 32]) -> (zero: bool)
    ensures
        zero == all_zero(bytes@),
{
    let mut i: usize = 0;
    while i < 32
        invariant
            i <= 32,
            forall|j: int| 0 <= j < i ==> #[trigger] bytes@[j] == 0,
        decreases 32 - i,
    {
        if bytes[i] != 0 {
            return false;
        }
        i += 1;
    }
    true
}

/// Decides whether what a random source gave can serve as a fresh payment
/// identifier: it can unless the source failed or gave only zeros.
pub fn identifier_from_entropy(entropy: Option<[u8; 32]>) -> (fresh: Result<[u8; 32], NodeError>)
    ensures
        fresh is Ok <==> entropy is Some && !all_zero(entropy.unwrap()@),
        fresh is Ok ==> fresh.unwrap() == entropy.unwrap(),
        fresh is Err ==> fresh == Err::<[u8; 32], NodeError>(NodeError::EntropyUnavailable),
{
    match entropy {
        Some(bytes) => {
            if is_all_zero(&bytes) {
                Err(NodeError::EntropyUnavailable)
            } else {
                Ok(bytes)
            }
        },
        None => Err(NodeError::EntropyUnavailable),
    }
}

/// The identifier of a test payment: the one that was supplied in its
/// outside form, if one was, else what the random source gave. A supplied
/// text that is not 64 hexadecimal digits is refused, and so is a random
/// source that failed or gave only zeros.
pub open spec fn test_hash_spec(supplied: Option<Seq<char>>, entropy: Option<Seq<u8>>) -> Result<
    Seq<u8>,
    NodeError,
> {
    match supplied {
        Some(text) => if is_hex_hash(text) {
            Ok(hex_bytes(text))
        } else {
            Err(NodeError::InvalidPaymentHash)
        },
        None => match entropy {
            Some(bytes) => if all_zero(bytes) {
                Err(NodeError::EntropyUnavailable)
            } else {
                Ok(bytes)
            },
            None => Err(NodeError::EntropyUnavailable),
        },
    }
}

/// The text of an optional string.
pub open spec fn text_of(text: Option<String>) -> Option<Seq<char>> {
    match text {
        Some(text) => Some(text@),
        None => None,
    }
}

/// The bytes of an optional identifier.
pub open spec fn bytes_of(bytes: Option<[u8; 32]>) -> Option<Seq<u8>> {
    match bytes {
        Some(bytes) => Some(bytes@),
        None => None,
    }
}

/// Chooses the identifier of a test payment from what was supplied and
/// what the random source gave.
pub fn test_payment_hash(supplied: &Option<String>, entropy: Option<[u8; 32]>) -> (chosen: Result<
    [u8; 32],
    NodeError,
>)
    ensures
        match test_hash_spec(text_of(*supplied), bytes_of(entropy)) {
            Ok(bytes) => chosen matches Ok(hash) && hash@ == bytes,
            Err(error) => chosen matches Err(refusal) && refusal == error,
        },
{
    match supplied {
        Some(text) => parse_payment_hash(text.as_str()),
        None => identifier_from_entropy(entropy),
    }
}

/// Writing and reading agree: the outside form of any 32 bytes is a valid
/// identifier text, and reading it gives the same bytes back.
pub proof fn lemma_hex_round_trip(bytes: Seq<u8>)
    requires
        bytes.len() == 32,
    ensures
        is_hex_hash(hex_lower(bytes)),
        hex_bytes(hex_lower(bytes)) == bytes,
{
    let text = hex_lower(bytes);
    assert forall|n: int| 0 <= n < 16 implies hex_value(#[trigger] hex_digit(n)) == n by {}
    assert forall|i: int| 0 <= i < 64 implies hex_value(#[trigger] text[i]) >= 0 by {
        let byte = bytes[i / 2] as int;
        assert(0 <= byte / 16 < 16 && 0 <= byte % 16 < 16);
    }
    assert forall|i: int| 0 <= i < 32 implies hex_bytes(text)[i] == bytes[i] by {
        let byte = bytes[i] as int;
        assert(0 <= byte / 16 < 16 && 0 <= byte % 16 < 16);
        assert(text[2 * i] == hex_digit(byte / 16));
        assert(text[2 * i + 1] == hex_digit(byte % 16));
    }
    assert(hex_bytes(text) =~= bytes);
}

} // verus!
