//! Score signing: a salted SHA3-256 digest, hex-encoded, attached to a
//! finish time so the score sink can check it came from the game.

use vstd::prelude::*;

use sha3::{Digest, Sha3_256};

verus! {

/// The lowercase hex digit of a nibble.
pub open spec fn hex_digit(n: u8) -> char {
    if n < 10 {
        (n + 48) as char
    } else {
        (n + 87) as char
    }
}

/// The lowercase hex encoding of a byte string: two digits per byte, high
/// nibble first.
pub open spec fn hex_of(bytes: Seq<u8>) -> Seq<char> {
    Seq::new(
        2 * bytes.len(),
        |i: int|
            if i % 2 == 0 {
                hex_digit(bytes[i / 2] >> 4)
            } else {
                hex_digit(bytes[i / 2] & 15)
            },
    )
}

/// The SHA3-256 digest of a byte string, named but not spelled out: it is a
/// function of the input alone.
pub uninterp spec fn sha3_256_of(data: Seq<u8>) -> Seq<u8>;

/// Relies on `sha3::Sha3_256` through the `Digest` trait (`new`, `update`,
/// `finalize`): the digest depends on the input bytes alone and is 32 bytes
/// long (the documented output size).
#[verifier::external_body]
fn sha3_256(data: &Vec<u8>) -> (r: Vec<u8>)
    ensures
        r@ == sha3_256_of(data@),
        r@.len() == 32,
{
    let mut hasher = Sha3_256::new();
    Digest::update(&mut hasher, data.as_slice());
    let out = hasher.finalize();
    out.as_slice().to_vec()
}

/// Relies on `hex::encode`: every input byte becomes two lowercase hex
/// digits, high nibble first.
#[verifier::external_body]
fn hex_encode(data: &Vec<u8>) -> (r: String)
    ensures
        r@ == hex_of(data@),
{
    hex::encode(data.as_slice())
}

/// The signature of a score record: the hex-encoded SHA3-256 digest of the
/// record bytes followed by the salt bytes.
pub fn hash(data: &Vec<u8>, salt: &Vec<u8>) -> (r: String)
    ensures
        r@ == hex_of(sha3_256_of(data@ + salt@)),
        r@.len() == 64,
{
    let mut salted = data.clone();
    let mut tail = salt.clone();
    salted.append(&mut tail);
    proof {
        assert(salted@ == data@ + salt@);
    }
    let digest = sha3_256(&salted);
    hex_encode(&digest)
}

} // verus!
