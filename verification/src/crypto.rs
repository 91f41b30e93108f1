//! The library's bindings to the cryptographic and auxiliary crates it is
//! built on. Each binding is a single trusted wrapper around one outside
//! function; everything downstream is verified against the contracts stated
//! here. Results that are functions of the arguments alone (hashes,
//! signatures, curve points) are named by uninterpreted spec functions;
//! random results promise nothing beyond their shape.

use vstd::prelude::*;

use ed25519_dalek::Signer;
use ed25519_dalek::Verifier;
use rand::Rng;

verus! {

/// The BLAKE3 hash (32 bytes) of a byte string.
pub uninterp spec fn blake3_hash_of(data: Seq<u8>) -> Seq<u8>;

/// The keyed BLAKE3 hash (32 bytes) of a byte string under a 32-byte key.
pub uninterp spec fn blake3_keyed_of(key: Seq<u8>, data: Seq<u8>) -> Seq<u8>;

/// The BLAKE3 key-derivation output (32 bytes) for a context label and key
/// material.
pub uninterp spec fn blake3_derive_of(context: Seq<char>, key_material: Seq<u8>) -> Seq<u8>;

/// The Ed25519 signature (64 bytes) a 32-byte secret key produces over a
/// message. Ed25519 signing is deterministic.
pub uninterp spec fn ed25519_sig_of(sk: Seq<u8>, msg: Seq<u8>) -> Seq<u8>;

/// The Ed25519 verifying key (32 bytes) of a 32-byte secret key.
pub uninterp spec fn ed25519_pub_of(sk: Seq<u8>) -> Seq<u8>;

/// Whether a 64-byte signature verifies over a message under a 32-byte
/// verifying key (false also where the key bytes are not a valid point).
pub uninterp spec fn ed25519_verifies(vk: Seq<u8>, msg: Seq<u8>, sig: Seq<u8>) -> bool;

/// The RFC 7748 x25519 function on a 32-byte scalar and a 32-byte point.
pub uninterp spec fn x25519_of(scalar: Seq<u8>, point: Seq<u8>) -> Seq<u8>;

/// The x25519 base point: nine followed by thirty-one zeros.
pub open spec fn x25519_base() -> Seq<u8> {
    Seq::new(32, |i: int| if i == 0 { 9u8 } else { 0u8 })
}

/// Relies on blake3::hash: a 32-byte digest determined by the input alone.
#[verifier::external_body]
pub fn blake3_hash(data: &[u8]) -> (r: Vec<u8>)
    ensures
        r@ == blake3_hash_of(data@),
        r@.len() == 32,
{
    blake3::hash(data).as_bytes().to_vec()
}

/// Relies on blake3::keyed_hash: a 32-byte keyed digest determined by key
/// and input alone.
#[verifier::external_body]
pub fn blake3_keyed_hash(key: &Vec<u8>, data: &[u8]) -> (r: Vec<u8>)
    requires
        key@.len() == 32,
    ensures
        r@ == blake3_keyed_of(key@, data@),
        r@.len() == 32,
{
    let key_arr: [u8; 32] = key.as_slice().try_into().unwrap();
    blake3::keyed_hash(&key_arr, data).as_bytes().to_vec()
}

/// Relies on blake3::derive_key: a 32-byte key determined by the context
/// string and the key material alone.
#[verifier::external_body]
pub fn blake3_derive_key(context: &str, key_material: &Vec<u8>) -> (r: Vec<u8>)
    ensures
        r@ == blake3_derive_of(context@, key_material@),
        r@.len() == 32,
{
    blake3::derive_key(context, key_material.as_slice()).to_vec()
}

/// Relies on ed25519_dalek::SigningKey::sign: deterministic Ed25519 signing,
/// whose output verifies under the signer's verifying key.
#[verifier::external_body]
pub fn ed25519_sign(sk: &Vec<u8>, msg: &Vec<u8>) -> (r: Vec<u8>)
    requires
        sk@.len() == 32,
    ensures
        r@ == ed25519_sig_of(sk@, msg@),
        r@.len() == 64,
        ed25519_verifies(ed25519_pub_of(sk@), msg@, r@),
{
    let sk_arr: [u8; 32] = sk.as_slice().try_into().unwrap();
    let key = ed25519_dalek::SigningKey::from_bytes(&sk_arr);
    key.sign(msg.as_slice()).to_bytes().to_vec()
}

/// Relies on ed25519_dalek::SigningKey::verifying_key: the public key is a
/// function of the secret key alone.
#[verifier::external_body]
pub fn ed25519_public(sk: &Vec<u8>) -> (r: Vec<u8>)
    requires
        sk@.len() == 32,
    ensures
        r@ == ed25519_pub_of(sk@),
        r@.len() == 32,
{
    let sk_arr: [u8; 32] = sk.as_slice().try_into().unwrap();
    let key = ed25519_dalek::SigningKey::from_bytes(&sk_arr);
    key.verifying_key().to_bytes().to_vec()
}

/// Relies on ed25519_dalek::VerifyingKey::verify: deterministic signature
/// verification; key bytes that are no valid point verify nothing.
#[verifier::external_body]
pub fn ed25519_verify(vk: &Vec<u8>, msg: &Vec<u8>, sig: &Vec<u8>) -> (r: bool)
    requires
        vk@.len() == 32,
        sig@.len() == 64,
    ensures
        r == ed25519_verifies(vk@, msg@, sig@),
{
    let vk_arr: [u8; 32] = vk.as_slice().try_into().unwrap();
    let sig_arr: [u8; 64] = sig.as_slice().try_into().unwrap();
    match ed25519_dalek::VerifyingKey::from_bytes(&vk_arr) {
        Ok(key) => key.verify(msg.as_slice(), &ed25519_dalek::Signature::from_bytes(&sig_arr)).is_ok(),
        Err(_) => false,
    }
}

/// Relies on x25519_dalek::x25519, the bare RFC 7748 function. Its
/// documentation shows the Diffie-Hellman agreement: applied to a scalar and
/// the other party's public point, both parties compute the same secret;
/// the second clause states that agreement.
#[verifier::external_body]
pub fn x25519_apply(scalar: &Vec<u8>, point: &Vec<u8>) -> (r: Vec<u8>)
    requires
        scalar@.len() == 32,
        point@.len() == 32,
    ensures
        r@ == x25519_of(scalar@, point@),
        r@.len() == 32,
        forall|other: Seq<u8>|
            point@ == x25519_of(other, x25519_base()) ==> r@ == x25519_of(
                other,
                x25519_of(scalar@, x25519_base()),
            ),
{
    let k: [u8; 32] = scalar.as_slice().try_into().unwrap();
    let u: [u8; 32] = point.as_slice().try_into().unwrap();
    x25519_dalek::x25519(k, u).to_vec()
}

/// The x25519 base point as bytes.
pub fn x25519_basepoint() -> (r: Vec<u8>)
    ensures
        r@ == x25519_base(),
{
    let mut v: Vec<u8> = Vec::new();
    v.push(9);
    let mut k: usize = 1;
    while k < 32
        invariant
            1 <= k <= 32,
            v@.len() == k,
            forall|i: int| 0 <= i < k ==> v@[i] == x25519_base()[i],
        decreases 32 - k,
    {
        v.push(0);
        k += 1;
    }
    assert(v@ =~= x25519_base());
    v
}

/// The x25519 public key of a 32-byte secret scalar.
pub fn x25519_public(scalar: &Vec<u8>) -> (r: Vec<u8>)
    requires
        scalar@.len() == 32,
    ensures
        r@ == x25519_of(scalar@, x25519_base()),
        r@.len() == 32,
{
    let base = x25519_basepoint();
    x25519_apply(scalar, &base)
}

/// Relies on rand::Rng::gen filling 32 bytes from the thread generator.
/// Nothing is promised of the values.
#[verifier::external_body]
pub fn random_bytes32() -> (r: Vec<u8>)
    ensures
        r@.len() == 32,
{
    let arr: [u8; 32] = rand::thread_rng().gen();
    arr.to_vec()
}

/// Relies on rand::Rng::gen_range over `0..n`: the result is below `n`.
/// Nothing more is promised of the value.
#[verifier::external_body]
pub fn random_index(n: usize) -> (r: usize)
    requires
        n > 0,
    ensures
        r < n,
{
    rand::thread_rng().gen_range(0..n)
}

/// One hexadecimal digit's value, upper or lower case.
pub open spec fn hex_digit_val(c: u8) -> Option<u8> {
    if 48 <= c <= 57 {
        Some((c - 48) as u8)
    } else if 97 <= c <= 102 {
        Some((c - 87) as u8)
    } else if 65 <= c <= 70 {
        Some((c - 55) as u8)
    } else {
        None
    }
}

/// What hex decoding yields: `None` on odd length or any non-hex byte, else
/// one byte per digit pair, high digit first.
pub open spec fn hex_decode_spec(s: Seq<u8>) -> Option<Seq<u8>>
    decreases s.len(),
{
    if s.len() % 2 != 0 {
        None
    } else if s.len() == 0 {
        Some(Seq::empty())
    } else {
        match (hex_digit_val(s[0]), hex_digit_val(s[1])) {
            (Some(hi), Some(lo)) => match hex_decode_spec(s.skip(2)) {
                Some(rest) => Some(seq![(hi * 16 + lo) as u8] + rest),
                None => None,
            },
            _ => None,
        }
    }
}

/// Relies on hex::decode: rejects odd length and non-hex bytes, else maps
/// each digit pair to one byte, exactly as `hex_decode_spec` says.
#[verifier::external_body]
pub fn hex_decode(s: &[u8]) -> (r: Option<Vec<u8>>)
    ensures
        match r {
            Some(v) => hex_decode_spec(s@) == Some(v@),
            None => hex_decode_spec(s@) is None,
        },
{
    hex::decode(s).ok()
}

} // verus!
